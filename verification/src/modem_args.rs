//! The command line of the modem.
use crate::modes::ModeHint;
use crate::text::same_text;
use vstd::prelude::*;
use vstd::string::*;

verus! {

/// The hint for a mode by its name on the command line.
pub open spec fn hint_named(name: Seq<char>) -> Option<ModeHint> {
    if name == "floor-wblo"@ {
        Some(ModeHint::Floor)
    } else if name == "floor-nfsk"@ {
        Some(ModeHint::FloorCrowdedBand)
    } else if name == "ofdm-narrow"@ {
        Some(ModeHint::MainPinned("ofdm-narrow"))
    } else if name == "ofdm-mid"@ {
        Some(ModeHint::MainPinned("ofdm-mid"))
    } else if name == "ofdm-wide"@ {
        Some(ModeHint::MainPinned("ofdm-wide"))
    } else {
        None
    }
}

/// The hint for a mode by its name on the command line.
pub fn mode_hint(name: &str) -> (h: Option<ModeHint>)
    ensures
        h == hint_named(name@),
{
    if same_text(name, "floor-wblo") {
        Some(ModeHint::Floor)
    } else if same_text(name, "floor-nfsk") {
        Some(ModeHint::FloorCrowdedBand)
    } else if same_text(name, "ofdm-narrow") {
        Some(ModeHint::MainPinned("ofdm-narrow"))
    } else if same_text(name, "ofdm-mid") {
        Some(ModeHint::MainPinned("ofdm-mid"))
    } else if same_text(name, "ofdm-wide") {
        Some(ModeHint::MainPinned("ofdm-wide"))
    } else {
        None
    }
}

/// A mode that the command line names is the mode that the catalogue resolves the hint
/// to, whatever the channel.
pub proof fn named_mode_is_resolved(name: Seq<char>, snr_mdb: Option<i32>)
    requires
        hint_named(name) is Some,
    ensures
        crate::modes::named(crate::modes::catalogue(), crate::modes::wanted_name(hint_named(name)->Some_0, snr_mdb)) matches Some(d)
            && d.short_name@ == name,
{
    reveal_with_fuel(crate::modes::named, 6);
    crate::modes::lemma_named(crate::modes::catalogue(), name);
}

/// What the command line asks for.
#[derive(Debug, Clone, PartialEq, Eq)]
pub struct Args {
    /// Run without a radio.
    pub loopback: bool,
    /// Text to send.
    pub send: Option<String>,
    /// Name of the mode.
    pub mode: String,
    /// Sound device to play on.
    pub output_device: Option<String>,
    /// Sound device to record from.
    pub input_device: Option<String>,
    /// Serial device that keys the transmitter.
    pub ptt_device: Option<String>,
    /// Longest transmission, in seconds.
    pub max_airtime_secs: u64,
    /// Show the usage.
    pub help: bool,
}

/// What the command line asks for, in mathematical terms.
pub ghost struct ArgsModel {
    /// Run without a radio.
    pub loopback: bool,
    /// Text to send.
    pub send: Option<Seq<char>>,
    /// Name of the mode.
    pub mode: Seq<char>,
    /// Sound device to play on.
    pub output_device: Option<Seq<char>>,
    /// Sound device to record from.
    pub input_device: Option<Seq<char>>,
    /// Serial device that keys the transmitter.
    pub ptt_device: Option<Seq<char>>,
    /// Longest transmission, in seconds.
    pub max_airtime_secs: u64,
    /// Show the usage.
    pub help: bool,
}

/// The text of an optional value.
pub open spec fn text_of(s: Option<String>) -> Option<Seq<char>> {
    match s {
        Some(t) => Some(t@),
        None => None,
    }
}

impl View for Args {
    type V = ArgsModel;

    open spec fn view(&self) -> ArgsModel {
        ArgsModel {
            loopback: self.loopback,
            send: text_of(self.send),
            mode: self.mode@,
            output_device: text_of(self.output_device),
            input_device: text_of(self.input_device),
            ptt_device: text_of(self.ptt_device),
            max_airtime_secs: self.max_airtime_secs,
            help: self.help,
        }
    }
}

impl ArgsModel {
    /// What an empty command line asks for.
    pub open spec fn defaults() -> Self {
        ArgsModel {
            loopback: false,
            send: None,
            mode: "floor-wblo"@,
            output_device: None,
            input_device: None,
            ptt_device: None,
            max_airtime_secs: 30,
            help: false,
        }
    }
}

/// The arguments from the `i`-th on, applied in order, or the message of the first error.
pub open spec fn parsed(argv: Seq<String>, i: int, a: ArgsModel) -> Result<ArgsModel, Seq<char>>
    decreases argv.len() - i,
{
    let flag = argv[i]@;
    let value = argv[i + 1]@;
    let missing = Err(flag + " needs a value"@);
    let has_value = i + 1 < argv.len();
    if i >= argv.len() {
        Ok(a)
    } else if flag == "--loopback"@ {
        parsed(argv, i + 1, ArgsModel { loopback: true, ..a })
    } else if flag == "--send"@ {
        if has_value {
            parsed(argv, i + 2, ArgsModel { send: Some(value), ..a })
        } else {
            missing
        }
    } else if flag == "--mode"@ {
        if has_value {
            parsed(argv, i + 2, ArgsModel { mode: value, ..a })
        } else {
            missing
        }
    } else if flag == "--output-device"@ {
        if has_value {
            parsed(argv, i + 2, ArgsModel { output_device: Some(value), ..a })
        } else {
            missing
        }
    } else if flag == "--input-device"@ {
        if has_value {
            parsed(argv, i + 2, ArgsModel { input_device: Some(value), ..a })
        } else {
            missing
        }
    } else if flag == "--ptt-device"@ {
        if has_value {
            parsed(argv, i + 2, ArgsModel { ptt_device: Some(value), ..a })
        } else {
            missing
        }
    } else if flag == "--max-airtime"@ {
        if has_value {
            match number(value) {
                Some(n) => parsed(argv, i + 2, ArgsModel { max_airtime_secs: n, ..a }),
                None => Err("bad --max-airtime"@),
            }
        } else {
            missing
        }
    } else if flag == "-h"@ || flag == "--help"@ {
        parsed(argv, i + 1, ArgsModel { help: true, ..a })
    } else {
        Err("unknown argument: "@ + flag)
    }
}

/// The digits of a number, after an optional plus sign.
pub open spec fn digits(s: Seq<char>) -> Seq<char> {
    if s.len() > 0 && s[0] == '+' {
        s.skip(1)
    } else {
        s
    }
}

/// The character is a decimal digit.
pub open spec fn is_digit(c: char) -> bool {
    '0' <= c <= '9'
}

/// The number that digits write.
pub open spec fn value(d: Seq<char>) -> nat
    decreases d.len(),
{
    if d.len() == 0 {
        0
    } else {
        (10 * value(d.drop_last()) + (d.last() as int - '0' as int)) as nat
    }
}

/// The number that a text writes: an optional plus sign, then one or more decimal
/// digits; none where it does not fit 64 bits.
pub open spec fn number(s: Seq<char>) -> Option<u64> {
    let d = digits(s);
    if d.len() > 0 && (forall|i: int| 0 <= i < d.len() ==> is_digit(#[trigger] d[i])) && value(d)
        <= u64::MAX {
        Some(value(d) as u64)
    } else {
        None
    }
}

/// A prefix writes no larger a number.
proof fn lemma_value_grows(d: Seq<char>, n: int)
    requires
        0 <= n <= d.len(),
        forall|i: int| 0 <= i < d.len() ==> is_digit(#[trigger] d[i]),
    ensures
        value(d.take(n)) <= value(d),
    decreases d.len() - n,
{
    if n < d.len() {
        lemma_value_grows(d, n + 1);
        let t = d.take(n + 1);
        assert(t.drop_last() =~= d.take(n));
        assert(t.last() == d[n]);
        assert(is_digit(d[n]));
    } else {
        assert(d.take(n) =~= d);
    }
}

/// Read a number.
pub fn parse_number(s: &str) -> (n: Option<u64>)
    ensures
        n == number(s@),
{
    let len: usize = s.unicode_len();
    let ghost d = digits(s@);
    let start: usize = if len > 0 && s.get_char(0) == '+' {
        1
    } else {
        0
    };
    assert(d =~= s@.skip(start as int));
    if start == len {
        return None;
    }
    let mut total: u64 = 0;
    let mut i: usize = start;
    while i < len
        invariant
            len == s@.len(),
            start <= i <= len,
            d == digits(s@),
            d == s@.skip(start as int),
            start < len,
            total == value(d.take(i - start)),
            forall|j: int| 0 <= j < i - start ==> is_digit(#[trigger] d[j]),
        decreases len - i,
    {
        let c: char = s.get_char(i);
        assert(d[i - start] == c);
        if !('0' <= c && c <= '9') {
            return None;
        }
        let digit: u64 = (c as u32 - '0' as u32) as u64;
        let ghost t = d.take(i + 1 - start);
        proof {
            assert(t.drop_last() =~= d.take(i - start));
            assert(t.last() == c);
            assert forall|j: int| 0 <= j < t.len() implies is_digit(#[trigger] t[j]) by {
                assert(t[j] == d[j]);
            }
        }
        if total > u64::MAX / 10 || total * 10 > u64::MAX - digit {
            proof {
                if forall|j: int| 0 <= j < d.len() ==> is_digit(#[trigger] d[j]) {
                    lemma_value_grows(d, i + 1 - start);
                }
            }
            return None;
        }
        total = total * 10 + digit;
        i = i + 1;
    }
    assert(d.take(len - start) =~= d);
    Some(total)
}

/// The value after the flag at `i`.
fn take_value(argv: &Vec<String>, i: usize) -> (r: Result<String, String>)
    requires
        i < argv@.len(),
    ensures
        match r {
            Ok(v) => i + 1 < argv@.len() && v@ == argv@[i + 1]@,
            Err(m) => i + 1 >= argv@.len() && m@ == argv@[i as int]@ + " needs a value"@,
        },
{
    if i < argv.len() - 1 {
        Ok(argv[i + 1].clone())
    } else {
        let mut m = argv[i].clone();
        m.append(" needs a value");
        Err(m)
    }
}

/// Read the command line.
pub fn parse(argv: &Vec<String>) -> (r: Result<Args, String>)
    ensures
        match (r, parsed(argv@, 0, ArgsModel::defaults())) {
            (Ok(a), Ok(want)) => a@ == want,
            (Err(m), Err(want)) => m@ == want,
            _ => false,
        },
{
    let mut a = Args {
        loopback: false,
        send: None,
        mode: "floor-wblo".to_owned(),
        output_device: None,
        input_device: None,
        ptt_device: None,
        max_airtime_secs: 30,
        help: false,
    };
    let ghost want = parsed(argv@, 0, ArgsModel::defaults());
    assert(a@ == ArgsModel::defaults());
    let n: usize = argv.len();
    let mut i: usize = 0;
    while i < n
        invariant
            n == argv@.len(),
            i <= n,
            want == parsed(argv@, 0, ArgsModel::defaults()),
            want == parsed(argv@, i as int, a@),
        decreases n - i,
    {
        let flag = argv[i].as_str();
        if same_text(flag, "--loopback") {
            a.loopback = true;
        } else if same_text(flag, "--send") {
            match take_value(argv, i) {
                Ok(v) => {
                    a.send = Some(v);
                },
                Err(m) => {
                    return Err(m);
                },
            }
            i = i + 1;
        } else if same_text(flag, "--mode") {
            match take_value(argv, i) {
                Ok(v) => {
                    a.mode = v;
                },
                Err(m) => {
                    return Err(m);
                },
            }
            i = i + 1;
        } else if same_text(flag, "--output-device") {
            match take_value(argv, i) {
                Ok(v) => {
                    a.output_device = Some(v);
                },
                Err(m) => {
                    return Err(m);
                },
            }
            i = i + 1;
        } else if same_text(flag, "--input-device") {
            match take_value(argv, i) {
                Ok(v) => {
                    a.input_device = Some(v);
                },
                Err(m) => {
                    return Err(m);
                },
            }
            i = i + 1;
        } else if same_text(flag, "--ptt-device") {
            match take_value(argv, i) {
                Ok(v) => {
                    a.ptt_device = Some(v);
                },
                Err(m) => {
                    return Err(m);
                },
            }
            i = i + 1;
        } else if same_text(flag, "--max-airtime") {
            match take_value(argv, i) {
                Ok(v) => match parse_number(v.as_str()) {
                    Some(secs) => {
                        a.max_airtime_secs = secs;
                    },
                    None => {
                        return Err("bad --max-airtime".to_owned());
                    },
                },
                Err(m) => {
                    return Err(m);
                },
            }
            i = i + 1;
        } else if same_text(flag, "-h") || same_text(flag, "--help") {
            a.help = true;
        } else {
            let mut m = "unknown argument: ".to_owned();
            m.append(flag);
            return Err(m);
        }
        i = i + 1;
    }
    Ok(a)
}

/// What to run.
#[allow(inconsistent_fields)]
#[derive(Debug, Clone, PartialEq, Eq)]
pub enum Task {
    /// Send a text through the registry and back, without a radio.
    Loopback {
        /// The text.
        payload: String,
        /// The mode.
        hint: ModeHint,
    },
    /// Send a text on the air.
    Radio {
        /// The text.
        payload: String,
        /// The mode.
        hint: ModeHint,
    },
}

/// What to run for a command line that was read.
pub fn task(args: &Args) -> (r: Result<Task, String>)
    ensures
        match r {
            Ok(Task::Loopback { payload, hint }) => {
                &&& args@.loopback
                &&& args@.send == Some(payload@)
                &&& hint_named(args@.mode) == Some(hint)
            },
            Ok(Task::Radio { payload, hint }) => {
                &&& !args@.loopback
                &&& args@.send == Some(payload@)
                &&& hint_named(args@.mode) == Some(hint)
            },
            Err(m) => {
                ||| hint_named(args@.mode) is None && m@ == "unknown --mode "@ + args@.mode
                ||| hint_named(args@.mode) is Some && args@.send is None && m@
                    == "nothing to do: pass --send <TEXT>"@
            },
        },
{
    let hint = match mode_hint(args.mode.as_str()) {
        Some(hint) => hint,
        None => {
            let mut m = "unknown --mode ".to_owned();
            m.append(args.mode.as_str());
            return Err(m);
        },
    };
    match &args.send {
        None => Err("nothing to do: pass --send <TEXT>".to_owned()),
        Some(text) => {
            let payload = text.clone();
            if args.loopback {
                Ok(Task::Loopback { payload, hint })
            } else {
                Ok(Task::Radio { payload, hint })
            }
        },
    }
}

/// The names of the flags differ.
proof fn lemma_flags_differ()
    ensures
        ({
            let all = seq![
                "--loopback"@,
                "--send"@,
                "--mode"@,
                "--output-device"@,
                "--input-device"@,
                "--ptt-device"@,
                "--max-airtime"@,
                "-h"@,
                "--help"@,
            ];
            forall|i: int, j: int|
                0 <= i < j < all.len() ==> #[trigger] all[i] != #[trigger] all[j]
        }),
{
    reveal_strlit("--loopback");
    reveal_strlit("--send");
    reveal_strlit("--mode");
    reveal_strlit("--output-device");
    reveal_strlit("--input-device");
    reveal_strlit("--ptt-device");
    reveal_strlit("--max-airtime");
    reveal_strlit("-h");
    reveal_strlit("--help");
    assert("--loopback"@.len() == 10 && "--send"@.len() == 6 && "--mode"@.len() == 6);
    assert("--output-device"@.len() == 15 && "--input-device"@.len() == 14);
    assert("--ptt-device"@.len() == 12 && "--max-airtime"@.len() == 13);
    assert("-h"@.len() == 2 && "--help"@.len() == 6);
    assert("--send"@[2] == 's' && "--mode"@[2] == 'm' && "--help"@[2] == 'h');
}

/// The flag at `i`, with its value where it takes one.
pub open spec fn flag_at(argv: Seq<String>, i: int, name: Seq<char>) -> bool {
    0 <= i < argv.len() && argv[i]@ == name
}

/// What each flag does to what was read before it, where the line goes on behind it: it sets
/// the one thing that it is for, and a later flag overrides an earlier one.
pub proof fn flags_set_what_they_name(argv: Seq<String>, i: int, a: ArgsModel)
    requires
        0 <= i < argv.len(),
    ensures
        ({
            let r = parsed(argv, i, a);
            let v = argv[i + 1]@;
            let more = i + 1 < argv.len();
            &&& flag_at(argv, i, "--loopback"@) ==> r == parsed(
                argv,
                i + 1,
                ArgsModel { loopback: true, ..a },
            )
            &&& flag_at(argv, i, "-h"@) || flag_at(argv, i, "--help"@) ==> r == parsed(
                argv,
                i + 1,
                ArgsModel { help: true, ..a },
            )
            &&& more && flag_at(argv, i, "--send"@) ==> r == parsed(
                argv,
                i + 2,
                ArgsModel { send: Some(v), ..a },
            )
            &&& more && flag_at(argv, i, "--mode"@) ==> r == parsed(
                argv,
                i + 2,
                ArgsModel { mode: v, ..a },
            )
            &&& more && flag_at(argv, i, "--output-device"@) ==> r == parsed(
                argv,
                i + 2,
                ArgsModel { output_device: Some(v), ..a },
            )
            &&& more && flag_at(argv, i, "--input-device"@) ==> r == parsed(
                argv,
                i + 2,
                ArgsModel { input_device: Some(v), ..a },
            )
            &&& more && flag_at(argv, i, "--ptt-device"@) ==> r == parsed(
                argv,
                i + 2,
                ArgsModel { ptt_device: Some(v), ..a },
            )
            &&& more && flag_at(argv, i, "--max-airtime"@) && number(v) is Some ==> r == parsed(
                argv,
                i + 2,
                ArgsModel { max_airtime_secs: number(v)->0, ..a },
            )
            &&& more && flag_at(argv, i, "--max-airtime"@) && number(v) is None ==> r is Err
        }),
        parsed(argv, argv.len() as int, a) == Ok::<ArgsModel, Seq<char>>(a),
{
    lemma_flags_differ();
    let all = seq![
        "--loopback"@,
        "--send"@,
        "--mode"@,
        "--output-device"@,
        "--input-device"@,
        "--ptt-device"@,
        "--max-airtime"@,
        "-h"@,
        "--help"@,
    ];
    assert(all[0] == "--loopback"@ && all[1] == "--send"@ && all[2] == "--mode"@ && all[3]
        == "--output-device"@ && all[4] == "--input-device"@ && all[5] == "--ptt-device"@
        && all[6] == "--max-airtime"@ && all[7] == "-h"@ && all[8] == "--help"@);
}

/// A flag that wants a value and has none, and a word that is no flag, are errors, and the
/// message names them.
pub proof fn bad_words_are_named(argv: Seq<String>, i: int, a: ArgsModel)
    requires
        0 <= i < argv.len(),
    ensures
        ({
            let r = parsed(argv, i, a);
            let word = argv[i]@;
            let plain = word == "--loopback"@ || word == "-h"@ || word == "--help"@;
            let valued = word == "--send"@ || word == "--mode"@ || word == "--output-device"@
                || word == "--input-device"@ || word == "--ptt-device"@ || word
                == "--max-airtime"@;
            &&& !plain && !valued ==> r is Err && r->Err_0 == "unknown argument: "@ + word
            &&& valued && i == argv.len() - 1 ==> r is Err && r->Err_0 == word + " needs a value"@
        }),
{
    flags_set_what_they_name(argv, i, a);
    lemma_flags_differ();
    let all = seq![
        "--loopback"@,
        "--send"@,
        "--mode"@,
        "--output-device"@,
        "--input-device"@,
        "--ptt-device"@,
        "--max-airtime"@,
        "-h"@,
        "--help"@,
    ];
    assert(all[0] == "--loopback"@ && all[1] == "--send"@ && all[2] == "--mode"@ && all[3]
        == "--output-device"@ && all[4] == "--input-device"@ && all[5] == "--ptt-device"@
        && all[6] == "--max-airtime"@ && all[7] == "-h"@ && all[8] == "--help"@);
}

/// An empty line asks for the wide-band floor and at most thirty seconds of airtime, and for
/// nothing else.
pub proof fn empty_line_asks_for_the_floor()
    ensures
        ({
            let d = ArgsModel::defaults();
            &&& d.mode == "floor-wblo"@
            &&& hint_named(d.mode) == Some(ModeHint::Floor)
            &&& d.max_airtime_secs == 30
            &&& !d.loopback && !d.help
            &&& d.send is None
            &&& d.output_device is None && d.input_device is None && d.ptt_device is None
        }),
{
}

/// Every mode of the catalogue can be named, and nothing else can: the two floor modes by
/// their own hints, and the main modes pinned.
pub proof fn just_the_catalogue_can_be_named(name: Seq<char>)
    ensures
        hint_named(name) is Some <==> exists|i: int|
            0 <= i < crate::modes::catalogue().len() && (
            #[trigger] crate::modes::catalogue()[i]).short_name@ == name,
        hint_named("floor-wblo"@) == Some(ModeHint::Floor),
        hint_named("floor-nfsk"@) == Some(ModeHint::FloorCrowdedBand),
        hint_named(name) matches Some(ModeHint::MainPinned(n)) ==> n@ == name,
        !(hint_named(name) matches Some(ModeHint::MainAuto)),
{
    let c = crate::modes::catalogue();
    reveal_strlit("floor-wblo");
    reveal_strlit("floor-nfsk");
    assert("floor-nfsk"@[6] != "floor-wblo"@[6]);
    assert(c[0].short_name@ == "ofdm-narrow"@ && c[1].short_name@ == "ofdm-mid"@
        && c[2].short_name@ == "ofdm-wide"@ && c[3].short_name@ == "floor-wblo"@
        && c[4].short_name@ == "floor-nfsk"@);
}

/// A number is read as it is written, with or without a plus in front, and nothing that is no
/// number is read as one.
pub proof fn written_numbers_are_read(n: u64, s: Seq<char>)
    ensures
        number(crate::text::decimal(n as nat)) == Some(n),
        number(seq!['+'] + crate::text::decimal(n as nat)) == Some(n),
        s.len() == 0 ==> number(s) is None,
        (exists|i: int| 0 < i < s.len() && !('0' <= #[trigger] s[i] <= '9')) ==> number(s) is None,
{
    let d = crate::text::decimal(n as nat);
    crate::text::decimal_reads_as_the_number(n as nat);
    lemma_same_value(d);
    assert forall|i: int| 0 <= i < d.len() implies is_digit(#[trigger] d[i]) by {
        lemma_digit_code(d[i]);
    }
    lemma_digit_code(d[0]);
    assert((seq!['+'] + d).skip(1) =~= d);
    if exists|i: int| 0 < i < s.len() && !('0' <= #[trigger] s[i] <= '9') {
        let i = choose|i: int| 0 < i < s.len() && !('0' <= #[trigger] s[i] <= '9');
        let e = digits(s);
        let at = i - (s.len() - e.len());
        assert(e[at] == s[i]);
        assert(!is_digit(e[at]));
    }
}

proof fn lemma_digit_code(c: char)
    ensures
        48 <= c as u32 <= 57 <==> is_digit(c),
        is_digit(c) ==> c != '+',
{
}

proof fn lemma_same_value(d: Seq<char>)
    requires
        forall|i: int| 0 <= i < d.len() ==> 48 <= (#[trigger] d[i]) as u32 <= 57,
    ensures
        value(d) == crate::text::value_of(d),
    decreases d.len(),
{
    if d.len() > 0 {
        assert forall|i: int| 0 <= i < d.drop_last().len() implies 48 <= (
        #[trigger] d.drop_last()[i]) as u32 <= 57 by {
            assert(d.drop_last()[i] == d[i]);
        }
        lemma_same_value(d.drop_last());
        let c = d.last();
        assert(c == d[d.len() - 1]);
        lemma_digit_code(c);
    }
}

} // verus!
