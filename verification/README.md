# sonde

A half-duplex data link for HF radio, with the decisions of the modem below it, written
in Rust and verified with Verus.

- `src/` is the library. Its functions state what they return or change, and Verus proves
  it; only the system clock promises nothing of what it reads. Public proof functions
  state what holds of several functions together.
- `app/` is the program around it: audio samples, Fourier transforms, threads and the
  command line. It measures, and the library decides.
- `tests/` runs the library from outside.

## Where things are

| Layer | Modules |
| --- | --- |
| Time and timers | `time`, `clock`, `profile` |
| Frames and callsigns | `frame`, `callsign`, `checksum`, `text` |
| ARQ and delivery | `arq`, `delivery` |
| Session | `conn` runs it, `session` models it, `session_laws` proves it, `exchange` joins two |
| Adaptation and modes | `mac`, `modes`, `quality`, `capabilities`, `registry` |
| Link and driver | `link`, `driver`, `pump`, `host`, `transport`, `null_phy`, `error` |
| Waveforms | `bits`, `coded_framing`, `narrow_fsk`, `wideband_lowdensity`, `preamble`, `constellations`, `equalizer`, `ofdm_receiver`, `floor_rate14` |
| Tools | `modem_args`, `sitrep`, `image_fit` |

A connection is a state machine over plain values: it takes frames, the time and the
host's commands, and gives frames and events. `ConnModel` in `session` is the machine in
mathematical terms, and each function of `Connection` is proved to take the model's step.

Levels are integers: SNR is in thousandths of a decibel, its smoothed estimate in finer
units, and where only the order of magnitudes matters a key stands for them.

## What is believed without proof

The contracts of the calls that leave the library: the CRC-32 of `crc`, the resampling and
the JPEG encoder of `image`, the seeded shuffle of `rand` with `rand_chacha`, and a few
functions of the standard library. Each stands behind one function whose comment says what
is claimed of it.
