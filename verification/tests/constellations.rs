use sonde::constellations::{Constellation, Contest, Mapper, Point};

const ALL: [Constellation; 4] = [
    Constellation::Bpsk,
    Constellation::Qpsk,
    Constellation::Qam16,
    Constellation::Qam64,
];

#[test]
fn bits_map_to_gray_coded_points() {
    let p = |i, q| Point { i, q };
    assert_eq!(
        Mapper::new(Constellation::Bpsk).map(&[0, 1, 7]),
        vec![p(1, 0), p(-1, 0), p(-1, 0)]
    );
    // A last symbol of one bit takes a zero for the other.
    assert_eq!(
        Mapper::new(Constellation::Qpsk).map(&[0, 1, 1]),
        vec![p(1, -1), p(-1, 1)]
    );
    assert_eq!(
        Mapper::new(Constellation::Qam16).map(&[0, 0, 0, 1, 1, 0, 1, 1]),
        vec![p(-3, -1), p(3, 1)]
    );
    assert_eq!(
        Mapper::new(Constellation::Qam64).map(&[0, 1, 0, 1, 0, 0]),
        vec![p(-1, 7)]
    );
    assert!(Mapper::new(Constellation::Qam64).map(&[]).is_empty());
}

#[test]
fn alphabets_have_their_mean_energy() {
    for c in ALL {
        let all = Mapper::new(c).alphabet();
        assert_eq!(all.len(), 1 << c.bits_per_symbol());
        let sum: i32 = all
            .iter()
            .map(|(_, p)| p.i as i32 * p.i as i32 + p.q as i32 * p.q as i32)
            .sum();
        assert_eq!(sum, all.len() as i32 * c.mean_energy() as i32);
    }
}

#[test]
fn neighbouring_points_differ_in_one_bit() {
    for c in ALL {
        let all = Mapper::new(c).alphabet();
        for (a, p) in &all {
            for (b, r) in &all {
                let (di, dq) = ((p.i - r.i).abs(), (p.q - r.q).abs());
                if di + dq == 2 && (di == 0 || dq == 0) {
                    assert_eq!((a ^ b).count_ones(), 1, "{c:?} {a} {b}");
                }
            }
        }
    }
}

#[test]
fn loads_name_their_constellation() {
    for c in ALL {
        assert_eq!(Constellation::with_load(c.bits_per_symbol() as u8), Some(c));
        assert_eq!(Mapper::new(c).constellation(), c);
    }
    assert_eq!(Constellation::with_load(0), None);
    assert_eq!(Constellation::with_load(3), None);
}

fn distance(a: Point, b: Point) -> u32 {
    let (di, dq) = (a.i as i32 - b.i as i32, a.q as i32 - b.q as i32);
    (di * di + dq * dq) as u32
}

fn distances(mapper: &Mapper, p: Point) -> Vec<u32> {
    mapper
        .alphabet()
        .iter()
        .map(|(_, s)| distance(p, *s))
        .collect()
}

#[test]
fn mapped_bits_are_read_back() {
    for c in ALL {
        let mapper = Mapper::new(c);
        let bits: Vec<u8> = (0..12 * c.bits_per_symbol())
            .map(|i| ((i * 7 + i / 3) % 2) as u8)
            .collect();
        let received: Vec<Vec<u32>> = mapper
            .map(&bits)
            .into_iter()
            .map(|p| distances(&mapper, p))
            .collect();
        assert_eq!(mapper.hard_demap(&received), bits, "{c:?}");
    }
}

#[test]
fn a_symbol_off_its_point_is_read_as_the_nearest() {
    let mapper = Mapper::new(Constellation::Qam16);
    // Between -1 and -3, nearer to -1; beyond the outermost level.
    let near = |i: i32, q: i32| -> Vec<u32> {
        mapper
            .alphabet()
            .iter()
            .map(|(_, s)| {
                let (di, dq) = (i - 10 * s.i as i32, q - 10 * s.q as i32);
                (di * di + dq * dq) as u32
            })
            .collect()
    };
    assert_eq!(mapper.hard_demap(&vec![near(-19, 55)]), vec![0, 1, 1, 0]);
    assert_eq!(mapper.hard_demap(&vec![near(-21, 55)]), vec![0, 0, 1, 0]);
    // Between the two, the zero is taken.
    assert_eq!(mapper.hard_demap(&vec![near(-20, 55)]), vec![0, 0, 1, 0]);
    assert!(mapper.hard_demap(&vec![]).is_empty());
}

#[test]
fn nearest_points_contend_for_every_bit() {
    let bpsk = Mapper::new(Constellation::Bpsk);
    assert_eq!(bpsk.contests(&[9, 4]), vec![Contest { zero: 0, one: 1 }]);
    let qpsk = Mapper::new(Constellation::Qpsk);
    // Codes 0 and 1 start with a zero, codes 0 and 2 end with one; the first of equals.
    assert_eq!(
        qpsk.contests(&[5, 3, 5, 8]),
        vec![Contest { zero: 1, one: 2 }, Contest { zero: 0, one: 1 }]
    );
}
