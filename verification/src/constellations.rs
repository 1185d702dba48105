//! Gray-coded constellations: which point of the complex plane carries which bits.
//!
//! Points lie on an integer grid. A constellation's points have a mean energy that is
//! not one; dividing by its square root brings them to unit mean energy.
use vstd::prelude::*;

verus! {

/// The four constellations.
#[derive(Debug, Clone, Copy, PartialEq, Eq, Structural)]
pub enum Constellation {
    /// One bit to a symbol, on the real axis.
    Bpsk,
    /// Two bits to a symbol, one to each axis.
    Qpsk,
    /// Four bits to a symbol: a square of four levels to each axis.
    Qam16,
    /// Six bits to a symbol: a square of eight levels to each axis.
    Qam64,
}

/// A point of the integer grid.
#[derive(Debug, Clone, Copy, PartialEq, Eq, Structural)]
pub struct Point {
    /// In-phase coordinate.
    pub i: i8,
    /// Quadrature coordinate.
    pub q: i8,
}

/// The coordinate of one bit: positive for zero.
pub open spec fn sign(bit: u8) -> i8 {
    if bit == 0 {
        1i8
    } else {
        -1i8 as i8
    }
}

/// The Gray-coded level of a two-bit index.
pub open spec fn level4(index: u8) -> i8 {
    if index == 0 {
        -3i8 as i8
    } else if index == 1 {
        -1i8 as i8
    } else if index == 2 {
        3i8
    } else {
        1i8
    }
}

/// The Gray-coded level of a three-bit index.
pub open spec fn level8(index: u8) -> i8 {
    if index == 0 {
        -7i8 as i8
    } else if index == 1 {
        -5i8 as i8
    } else if index == 2 {
        -1i8 as i8
    } else if index == 3 {
        -3i8 as i8
    } else if index == 4 {
        7i8
    } else if index == 5 {
        5i8
    } else if index == 6 {
        1i8
    } else {
        3i8
    }
}

/// Two bits as an index.
pub open spec fn index2(bits: Seq<u8>, at: int) -> u8 {
    (bits[at] << 1u8) | bits[at + 1]
}

/// Three bits as an index.
pub open spec fn index3(bits: Seq<u8>, at: int) -> u8 {
    (bits[at] << 2u8) | (bits[at + 1] << 1u8) | bits[at + 2]
}

impl Constellation {
    /// Bits carried by one symbol.
    pub open spec fn width(self) -> int {
        match self {
            Constellation::Bpsk => 1,
            Constellation::Qpsk => 2,
            Constellation::Qam16 => 4,
            Constellation::Qam64 => 6,
        }
    }

    /// Number of points.
    pub open spec fn size(self) -> int {
        match self {
            Constellation::Bpsk => 2,
            Constellation::Qpsk => 4,
            Constellation::Qam16 => 16,
            Constellation::Qam64 => 64,
        }
    }

    /// The point of the symbol whose bits start at `at`.
    pub open spec fn symbol(self, bits: Seq<u8>, at: int) -> Point {
        match self {
            Constellation::Bpsk => Point { i: sign(bits[at]), q: 0 },
            Constellation::Qpsk => Point {
                i: sign(bits[at]),
                q: if at + 1 < bits.len() {
                    sign(bits[at + 1])
                } else {
                    1
                },
            },
            Constellation::Qam16 => Point {
                i: level4(index2(bits, at)),
                q: level4(index2(bits, at + 2)),
            },
            Constellation::Qam64 => Point {
                i: level8(index3(bits, at)),
                q: level8(index3(bits, at + 3)),
            },
        }
    }

    /// The bits can be mapped: for the square constellations they make whole symbols
    /// and every index names a level.
    pub open spec fn maps(self, bits: Seq<u8>) -> bool {
        match self {
            Constellation::Bpsk => true,
            Constellation::Qpsk => true,
            Constellation::Qam16 => {
                &&& bits.len() % 4 == 0
                &&& forall|s: int| #![trigger self.symbol(bits, 4 * s)]
                    0 <= s < bits.len() / 4 ==> index2(bits, 4 * s) < 4 && index2(
                        bits,
                        4 * s + 2,
                    ) < 4
            },
            Constellation::Qam64 => {
                &&& bits.len() % 6 == 0
                &&& forall|s: int| #![trigger self.symbol(bits, 6 * s)]
                    0 <= s < bits.len() / 6 ==> index3(bits, 6 * s) < 8 && index3(
                        bits,
                        6 * s + 3,
                    ) < 8
            },
        }
    }

    /// The points that carry a bit sequence.
    pub open spec fn symbols(self, bits: Seq<u8>) -> Seq<Point> {
        Seq::new(
            ((bits.len() + self.width() - 1) / self.width()) as nat,
            |s: int| self.symbol(bits, self.width() * s),
        )
    }

    /// The point of the symbol whose bits, most significant first, are those of `code`.
    pub open spec fn point(self, code: int) -> Point {
        match self {
            Constellation::Bpsk => Point { i: sign(code as u8), q: 0 },
            Constellation::Qpsk => Point { i: sign((code / 2) as u8), q: sign((code % 2) as u8) },
            Constellation::Qam16 => Point {
                i: level4((code / 4) as u8),
                q: level4((code % 4) as u8),
            },
            Constellation::Qam64 => Point {
                i: level8((code / 8) as u8),
                q: level8((code % 8) as u8),
            },
        }
    }

    /// Mean squared distance of the points from the origin.
    pub open spec fn energy(self) -> int {
        match self {
            Constellation::Bpsk => 1,
            Constellation::Qpsk => 2,
            Constellation::Qam16 => 10,
            Constellation::Qam64 => 42,
        }
    }

    /// A bit of a code, counted from the most significant.
    pub open spec fn bit_of(self, code: int, bit: int) -> u8 {
        bits_of_code(code as u8, self.width())[bit]
    }

    /// Of the codes with `value` for a bit, `code` is the one whose point is nearest to a
    /// received symbol: the first of them where several are.
    pub open spec fn is_nearest(
        self,
        distances: Seq<u32>,
        bit: int,
        value: u8,
        code: int,
    ) -> bool {
        &&& 0 <= code < self.size()
        &&& self.bit_of(code, bit) == value
        &&& forall|o: int|
            0 <= o < self.size() && #[trigger] self.bit_of(o, bit) == value ==> distances[code]
                < distances[o] || (distances[code] == distances[o] && code <= o)
    }

    /// The likelier value of a bit of a received symbol: zero where a point with a zero
    /// there is as near as every point with a one.
    pub open spec fn hard_bit(self, distances: Seq<u32>, bit: int) -> u8 {
        if exists|z: int|
            0 <= z < self.size() && #[trigger] self.bit_of(z, bit) == 0 && (forall|o: int|
                0 <= o < self.size() && #[trigger] self.bit_of(o, bit) == 1 ==> distances[z]
                    <= distances[o]) {
            0
        } else {
            1
        }
    }

    /// The likelier bits of received symbols.
    pub open spec fn demapped(self, distances: Seq<Seq<u32>>) -> Seq<u8> {
        Seq::new(
            (distances.len() * self.width()) as nat,
            |i: int| self.hard_bit(distances[i / self.width()], i % self.width()),
        )
    }

    /// Bits carried by one symbol.
    pub fn bits_per_symbol(&self) -> (n: usize)
        ensures
            n == self.width(),
    {
        match self {
            Constellation::Bpsk => 1,
            Constellation::Qpsk => 2,
            Constellation::Qam16 => 4,
            Constellation::Qam64 => 6,
        }
    }

    /// Mean squared distance of the points from the origin.
    pub fn mean_energy(&self) -> (n: u8)
        ensures
            n == self.energy(),
    {
        match self {
            Constellation::Bpsk => 1,
            Constellation::Qpsk => 2,
            Constellation::Qam16 => 10,
            Constellation::Qam64 => 42,
        }
    }

    /// The constellation that carries so many bits to a symbol, where there is one.
    pub fn with_load(bits: u8) -> (c: Option<Constellation>)
        ensures
            match c {
                Some(k) => k.width() == bits,
                None => bits != 1 && bits != 2 && bits != 4 && bits != 6,
            },
    {
        match bits {
            1 => Some(Constellation::Bpsk),
            2 => Some(Constellation::Qpsk),
            4 => Some(Constellation::Qam16),
            6 => Some(Constellation::Qam64),
            _ => None,
        }
    }
}

/// The coordinate of one bit.
fn sign_of(bit: u8) -> (v: i8)
    ensures
        v == sign(bit),
{
    if bit == 0 {
        1
    } else {
        -1
    }
}

/// The Gray-coded level of a two-bit index.
fn level4_of(index: u8) -> (v: i8)
    requires
        index < 4,
    ensures
        v == level4(index),
{
    match index {
        0 => -3,
        1 => -1,
        2 => 3,
        _ => 1,
    }
}

/// The Gray-coded level of a three-bit index.
fn level8_of(index: u8) -> (v: i8)
    requires
        index < 8,
    ensures
        v == level8(index),
{
    match index {
        0 => -7,
        1 => -5,
        2 => -1,
        3 => -3,
        4 => 7,
        5 => 5,
        6 => 1,
        _ => 3,
    }
}

/// Maps bits to the points of one constellation.
pub struct Mapper {
    constellation: Constellation,
}

impl View for Mapper {
    type V = Constellation;

    closed spec fn view(&self) -> Constellation {
        self.constellation
    }
}

impl Mapper {
    /// A mapper for a constellation.
    pub fn new(c: Constellation) -> (m: Self)
        ensures
            m@ == c,
    {
        Mapper { constellation: c }
    }

    /// The mapper's constellation.
    pub fn constellation(&self) -> (c: Constellation)
        ensures
            c == self@,
    {
        self.constellation
    }

    /// The point of the symbol whose bits start at `at`.
    fn map_one(&self, bits: &[u8], at: usize) -> (p: Point)
        requires
            at < bits@.len(),
            self@ is Qam16 ==> at + 4 <= bits@.len() && index2(bits@, at as int) < 4 && index2(
                bits@,
                at + 2,
            ) < 4,
            self@ is Qam64 ==> at + 6 <= bits@.len() && index3(bits@, at as int) < 8 && index3(
                bits@,
                at + 3,
            ) < 8,
        ensures
            p == self@.symbol(bits@, at as int),
    {
        match self.constellation {
            Constellation::Bpsk => Point { i: sign_of(bits[at]), q: 0 },
            Constellation::Qpsk => {
                let q: i8 = if bits.len() - at > 1 {
                    sign_of(bits[at + 1])
                } else {
                    1
                };
                Point { i: sign_of(bits[at]), q }
            },
            Constellation::Qam16 => Point {
                i: level4_of((bits[at] << 1) | bits[at + 1]),
                q: level4_of((bits[at + 2] << 1) | bits[at + 3]),
            },
            Constellation::Qam64 => Point {
                i: level8_of((bits[at] << 2) | (bits[at + 1] << 1) | bits[at + 2]),
                q: level8_of((bits[at + 3] << 2) | (bits[at + 4] << 1) | bits[at + 5]),
            },
        }
    }

    /// Map a bit sequence to points, one for each symbol.
    pub fn map(&self, bits: &[u8]) -> (points: Vec<Point>)
        requires
            self@.maps(bits@),
        ensures
            points@ == self@.symbols(bits@),
    {
        let w: usize = self.constellation.bits_per_symbol();
        let len: usize = bits.len();
        let mut points: Vec<Point> = Vec::new();
        let mut at: usize = 0;
        let ghost total = self@.symbols(bits@).len() as int;
        while at < len
            invariant
                len == bits@.len(),
                w == self@.width(),
                1 <= w <= 6,
                self@.maps(bits@),
                at <= len,
                at == len || at == w * points@.len(),
                points@.len() <= total,
                w * points@.len() >= at,
                total == self@.symbols(bits@).len(),
                at == len ==> points@.len() == total,
                points@ == self@.symbols(bits@).take(points@.len() as int),
            decreases len - at,
        {
            let ghost s = points@.len() as int;
            let ghost c = self@;
            proof {
                assert(c.symbol(bits@, w * s) == self@.symbol(bits@, w * s));
                match c {
                    Constellation::Bpsk => {},
                    Constellation::Qpsk => {},
                    Constellation::Qam16 => {
                        assert(c.symbol(bits@, 4 * s) == c.symbol(bits@, at as int));
                    },
                    Constellation::Qam64 => {
                        assert(c.symbol(bits@, 6 * s) == c.symbol(bits@, at as int));
                    },
                }
            }
            points.push(self.map_one(bits, at));
            proof {
                lemma_whole(len as int, w as int, s);
                assert(points@ =~= self@.symbols(bits@).take(s + 1));
            }
            if len - at > w {
                at = at + w;
            } else {
                at = len;
            }
        }
        assert(points@ =~= self@.symbols(bits@));
        points
    }

    /// Every code of the constellation with its point, in order of the codes.
    pub fn alphabet(&self) -> (all: Vec<(usize, Point)>)
        ensures
            all@.len() == self@.size(),
            forall|code: int|
                0 <= code < all@.len() ==> #[trigger] all@[code] == (code as usize, self@.point(code)),
    {
        let w: usize = self.constellation.bits_per_symbol();
        let n: usize = match self.constellation {
            Constellation::Bpsk => 2,
            Constellation::Qpsk => 4,
            Constellation::Qam16 => 16,
            Constellation::Qam64 => 64,
        };
        let mut all: Vec<(usize, Point)> = Vec::new();
        let mut code: usize = 0;
        while code < n
            invariant
                w == self@.width(),
                n == self@.size(),
                n <= 64,
                code <= n,
                all@.len() == code,
                forall|c: int|
                    0 <= c < code ==> #[trigger] all@[c] == (c as usize, self@.point(c)),
            decreases n - code,
        {
            let bits = code_bits(code as u8, w);
            proof {
                lemma_code_bits(self@, code as u8, bits@);
            }
            let points = self.map(bits.as_slice());
            assert(points@[0] == self@.symbol(bits@, 0));
            all.push((code, points[0]));
            code = code + 1;
        }
        all
    }
}

/// The two nearest points that contend for one bit of a received symbol. The difference
/// of their distances is the bit's soft value.
#[derive(Debug, Clone, Copy, PartialEq, Eq, Structural)]
pub struct Contest {
    /// Code of the nearest point with a zero.
    pub zero: usize,
    /// Code of the nearest point with a one.
    pub one: usize,
}

impl Mapper {
    /// The code of the nearest point with `value` for a bit, by the distances of all
    /// points from a received symbol.
    fn nearest(&self, distances: &[u32], bit: usize, value: u8) -> (code: usize)
        requires
            distances@.len() == self@.size(),
            bit < self@.width(),
            value <= 1,
        ensures
            self@.is_nearest(distances@, bit as int, value, code as int),
    {
        let w: usize = self.constellation.bits_per_symbol();
        let shift: u8 = (w - 1 - bit) as u8;
        let mut best: Option<usize> = None;
        let mut code: usize = 0;
        while code < distances.len()
            invariant
                w == self@.width(),
                bit < w <= 6,
                shift == w - 1 - bit,
                distances@.len() == self@.size(),
                distances@.len() <= 64,
                code <= distances@.len(),
                match best {
                    Some(k) => {
                        &&& k < code
                        &&& self@.bit_of(k as int, bit as int) == value
                        &&& forall|o: int|
                            0 <= o < code && #[trigger] self@.bit_of(o, bit as int) == value
                                ==> distances@[k as int] < distances@[o] || (distances@[k as int]
                                == distances@[o] && k <= o)
                    },
                    None => forall|o: int|
                        0 <= o < code ==> #[trigger] self@.bit_of(o, bit as int) != value,
                },
            decreases distances.len() - code,
        {
            let here: u8 = ((code as u8) >> shift) & 1;
            assert(here == self@.bit_of(code as int, bit as int));
            if here == value {
                let nearer = match best {
                    Some(k) => distances[code] < distances[k],
                    None => true,
                };
                if nearer {
                    best = Some(code);
                }
            }
            code = code + 1;
        }
        proof {
            lemma_both_values(self@, bit as int);
        }
        match best {
            Some(k) => k,
            None => 0,
        }
    }

    /// For every bit of a received symbol, the nearest point with a zero and the nearest
    /// with a one, by the distances of all points in order of their codes.
    pub fn contests(&self, distances: &[u32]) -> (all: Vec<Contest>)
        requires
            distances@.len() == self@.size(),
        ensures
            all@.len() == self@.width(),
            forall|b: int| #![trigger all@[b]]
                0 <= b < all@.len() ==> self@.is_nearest(distances@, b, 0, all@[b].zero as int)
                    && self@.is_nearest(distances@, b, 1, all@[b].one as int),
    {
        let w: usize = self.constellation.bits_per_symbol();
        let mut all: Vec<Contest> = Vec::new();
        while all.len() < w
            invariant
                w == self@.width(),
                all@.len() <= w,
                distances@.len() == self@.size(),
                forall|b: int| #![trigger all@[b]]
                    0 <= b < all@.len() ==> self@.is_nearest(distances@, b, 0, all@[b].zero as int)
                        && self@.is_nearest(distances@, b, 1, all@[b].one as int),
            decreases w - all.len(),
        {
            let bit: usize = all.len();
            let zero: usize = self.nearest(distances, bit, 0);
            let one: usize = self.nearest(distances, bit, 1);
            all.push(Contest { zero, one });
        }
        all
    }

    /// Hard-decision demapping: the likelier bits of received symbols, each given by the
    /// distances of all points in order of their codes.
    pub fn hard_demap(&self, symbols: &Vec<Vec<u32>>) -> (bits: Vec<u8>)
        requires
            forall|s: int|
                0 <= s < symbols@.len() ==> (#[trigger] symbols@[s])@.len() == self@.size(),
        ensures
            bits@ == self@.demapped(symbols@.map_values(|d: Vec<u32>| d@)),
    {
        let w: usize = self.constellation.bits_per_symbol();
        let ghost distances = symbols@.map_values(|d: Vec<u32>| d@);
        let ghost want = self@.demapped(distances);
        let mut bits: Vec<u8> = Vec::new();
        let mut s: usize = 0;
        while s < symbols.len()
            invariant
                w == self@.width(),
                1 <= w <= 6,
                s <= symbols@.len(),
                distances == symbols@.map_values(|d: Vec<u32>| d@),
                want == self@.demapped(distances),
                forall|s: int|
                    0 <= s < symbols@.len() ==> (#[trigger] symbols@[s])@.len() == self@.size(),
                bits@.len() == s * w,
                bits@ == want.take((s * w) as int),
            decreases symbols.len() - s,
        {
            let all = self.contests(symbols[s].as_slice());
            let mut b: usize = 0;
            proof {
                lemma_within(s as int, symbols@.len() as int, w as int);
            }
            while b < w
                invariant
                    w == self@.width(),
                    1 <= w <= 6,
                    b <= w,
                    s < symbols@.len(),
                    symbols@[s as int]@.len() == self@.size(),
                    distances == symbols@.map_values(|d: Vec<u32>| d@),
                    want == self@.demapped(distances),
                    s * w + w <= want.len(),
                    all@.len() == w,
                    forall|b: int| #![trigger all@[b]]
                        0 <= b < all@.len() ==> self@.is_nearest(
                            symbols@[s as int]@,
                            b,
                            0,
                            all@[b].zero as int,
                        ) && self@.is_nearest(symbols@[s as int]@, b, 1, all@[b].one as int),
                    bits@.len() == s * w + b,
                    bits@ == want.take(s * w + b),
                decreases w - b,
            {
                let contest = all[b];
                let bit: u8 = if symbols[s][contest.zero] <= symbols[s][contest.one] {
                    0
                } else {
                    1
                };
                proof {
                    lemma_contest(self@, symbols@[s as int]@, b as int, contest);
                    lemma_place(s as int, w as int, b as int);
                    assert(distances[s as int] == symbols@[s as int]@);
                    assert(want[s * w + b] == bit);
                }
                bits.push(bit);
                assert(bits@ =~= want.take(s * w + b + 1));
                b = b + 1;
            }
            proof {
                lemma_next_symbol(s as int, w as int);
            }
            s = s + 1;
        }
        assert(bits@ =~= want);
        bits
    }
}

/// A symbol that is not the last leaves room for its bits.
proof fn lemma_within(s: int, n: int, w: int)
    by (nonlinear_arith)
    requires
        0 <= s < n,
        1 <= w,
    ensures
        s * w + w <= n * w,
{
}

/// The place of a bit gives back its symbol and its place there.
proof fn lemma_place(s: int, w: int, b: int)
    requires
        0 <= s,
        0 <= b < w,
    ensures
        (s * w + b) / w == s,
        (s * w + b) % w == b,
{
    vstd::arithmetic::div_mod::lemma_fundamental_div_mod_converse(s * w + b, w, s, b);
}

/// The bits of one more symbol.
proof fn lemma_next_symbol(s: int, w: int)
    by (nonlinear_arith)
    ensures
        s * w + w == (s + 1) * w,
{
}

/// Every bit is zero in some code and one in another.
proof fn lemma_both_values(c: Constellation, bit: int)
    requires
        0 <= bit < c.width(),
    ensures
        c.bit_of(0, bit) == 0,
        c.bit_of(c.size() - 1, bit) == 1,
{
    let shift = (c.width() - 1 - bit) as u8;
    let last = (c.size() - 1) as u8;
    assert((0u8 >> shift) & 1u8 == 0 && (last >> shift) & 1u8 == 1) by (bit_vector)
        requires
            shift < 1 && last == 1 || shift < 2 && last == 3 || shift < 4 && last == 15 || shift < 6
                && last == 63,
    ;
}

/// The nearer of two contending points decides the bit, and a zero where they are equally
/// near.
proof fn lemma_contest(c: Constellation, distances: Seq<u32>, bit: int, contest: Contest)
    requires
        c.is_nearest(distances, bit, 0, contest.zero as int),
        c.is_nearest(distances, bit, 1, contest.one as int),
    ensures
        c.hard_bit(distances, bit) == (if distances[contest.zero as int]
            <= distances[contest.one as int] {
            0u8
        } else {
            1u8
        }),
{
    if distances[contest.zero as int] <= distances[contest.one as int] {
        assert(c.bit_of(contest.zero as int, bit) == 0);
    } else {
        assert forall|z: int|
            0 <= z < c.size() && #[trigger] c.bit_of(z, bit) == 0 implies distances[z]
            > distances[contest.one as int] by {}
        assert(c.bit_of(contest.one as int, bit) == 1);
    }
}

/// The bits of a code, most significant first.
pub open spec fn bits_of_code(code: u8, width: int) -> Seq<u8> {
    Seq::new(width as nat, |i: int| (code >> ((width - 1 - i) as u8)) & 1u8)
}

/// The bits of a code, most significant first.
fn code_bits(code: u8, width: usize) -> (bits: Vec<u8>)
    requires
        width <= 8,
    ensures
        bits@ == bits_of_code(code, width as int),
{
    let mut bits: Vec<u8> = Vec::new();
    let mut i: usize = 0;
    while i < width
        invariant
            width <= 8,
            i <= width,
            bits@ == bits_of_code(code, width as int).take(i as int),
        decreases width - i,
    {
        bits.push((code >> ((width - 1 - i) as u8)) & 1);
        assert(bits@ =~= bits_of_code(code, width as int).take(i + 1));
        i = i + 1;
    }
    assert(bits@ =~= bits_of_code(code, width as int));
    bits
}

/// Symbols so far are fewer than all while bits are left, and all when none are.
proof fn lemma_whole(len: int, w: int, s: int)
    requires
        1 <= w <= 6,
        w == 1 || w == 2 || w == 4 || w == 6,
        0 <= s,
        w * s < len,
    ensures
        s < (len + w - 1) / w,
        len - w * s <= w ==> s + 1 == (len + w - 1) / w,
{
}

/// The bits of a code can be mapped, to the point of the code.
proof fn lemma_code_bits(c: Constellation, code: u8, bits: Seq<u8>)
    requires
        code < c.size(),
        bits == bits_of_code(code, c.width()),
    ensures
        c.maps(bits),
        bits.len() == c.width(),
        c.symbol(bits, 0) == c.point(code as int),
{
    match c {
        Constellation::Bpsk => {
            assert((code >> 0u8) & 1u8 == code) by (bit_vector)
                requires
                    code < 2,
            ;
        },
        Constellation::Qpsk => {
            assert((code >> 1u8) & 1u8 == code / 2 && (code >> 0u8) & 1u8 == code % 2)
                by (bit_vector)
                requires
                    code < 4,
            ;
        },
        Constellation::Qam16 => {
            let i = (((code >> 3u8) & 1u8) << 1u8) | ((code >> 2u8) & 1u8);
            let q = (((code >> 1u8) & 1u8) << 1u8) | ((code >> 0u8) & 1u8);
            assert(i == code / 4 && q == code % 4) by (bit_vector)
                requires
                    code < 16,
                    i == (((code >> 3u8) & 1u8) << 1u8) | ((code >> 2u8) & 1u8),
                    q == (((code >> 1u8) & 1u8) << 1u8) | ((code >> 0u8) & 1u8),
            ;
            assert(index2(bits, 0) == i && index2(bits, 2) == q);
            assert forall|s: int| #![trigger c.symbol(bits, 4 * s)] 0 <= s < bits.len()
                / 4 implies index2(bits, 4 * s) < 4 && index2(bits, 4 * s + 2) < 4 by {
                assert(s == 0);
            }
        },
        Constellation::Qam64 => {
            let i = (((code >> 5u8) & 1u8) << 2u8) | (((code >> 4u8) & 1u8) << 1u8) | ((code
                >> 3u8) & 1u8);
            let q = (((code >> 2u8) & 1u8) << 2u8) | (((code >> 1u8) & 1u8) << 1u8) | ((code
                >> 0u8) & 1u8);
            assert(i == code / 8 && q == code % 8) by (bit_vector)
                requires
                    code < 64,
                    i == (((code >> 5u8) & 1u8) << 2u8) | (((code >> 4u8) & 1u8) << 1u8) | ((code
                        >> 3u8) & 1u8),
                    q == (((code >> 2u8) & 1u8) << 2u8) | (((code >> 1u8) & 1u8) << 1u8) | ((code
                        >> 0u8) & 1u8),
            ;
            assert(index3(bits, 0) == i && index3(bits, 3) == q);
            assert forall|s: int| #![trigger c.symbol(bits, 6 * s)] 0 <= s < bits.len()
                / 6 implies index3(bits, 6 * s) < 8 && index3(bits, 6 * s + 3) < 8 by {
                assert(s == 0);
            }
        },
    }
}

/// The square of a coordinate.
pub open spec fn square(v: i8) -> int {
    v * v
}

/// The squares of all coordinates.
proof fn lemma_squares()
    ensures
        square(0) == 0,
        square(1) == 1,
        square(-1i8 as i8) == 1,
        square(3) == 9,
        square(-3i8 as i8) == 9,
        square(5) == 25,
        square(-5i8 as i8) == 25,
        square(7) == 49,
        square(-7i8 as i8) == 49,
{
    let m1 = -1i8 as i8;
    assert(m1 * m1 == 1) by (nonlinear_arith)
        requires
            m1 == -1,
    ;
    let m3 = -3i8 as i8;
    assert(m3 * m3 == 9) by (nonlinear_arith)
        requires
            m3 == -3,
    ;
    let m5 = -5i8 as i8;
    assert(m5 * m5 == 25) by (nonlinear_arith)
        requires
            m5 == -5,
    ;
    let m7 = -7i8 as i8;
    assert(m7 * m7 == 49) by (nonlinear_arith)
        requires
            m7 == -7,
    ;
}

/// Sum of the squared distances of the first `n` points from the origin.
pub open spec fn energy_sum(c: Constellation, n: nat) -> int
    decreases n,
{
    if n == 0 {
        0
    } else {
        let p = c.point(n - 1);
        energy_sum(c, (n - 1) as nat) + square(p.i) + square(p.q)
    }
}

/// The squares of one axis of the larger square, row by row.
proof fn lemma_row_energy(row: nat)
    requires
        row <= 8,
    ensures
        energy_sum(Constellation::Qam64, 8 * row) == 8 * axis_energy(row) + 168 * row,
    decreases row,
{
    let c = Constellation::Qam64;
    if row > 0 {
        lemma_row_energy((row - 1) as nat);
        lemma_squares();
        let r = (row - 1) as int;
        assert forall|k: int| 0 <= k < 8 implies #[trigger] c.point(8 * r + k) == (Point {
            i: level8(r as u8),
            q: level8(k as u8),
        }) by {}
        let base = energy_sum(c, (8 * r) as nat);
        let e = square(level8(r as u8));
        assert(energy_sum(c, (8 * r + 1) as nat) == base + e + 49);
        assert(energy_sum(c, (8 * r + 2) as nat) == base + 2 * e + 74);
        assert(energy_sum(c, (8 * r + 3) as nat) == base + 3 * e + 75);
        assert(energy_sum(c, (8 * r + 4) as nat) == base + 4 * e + 84);
        assert(energy_sum(c, (8 * r + 5) as nat) == base + 5 * e + 133);
        assert(energy_sum(c, (8 * r + 6) as nat) == base + 6 * e + 158);
        assert(energy_sum(c, (8 * r + 7) as nat) == base + 7 * e + 159);
        assert(energy_sum(c, (8 * r + 8) as nat) == base + 8 * e + 168);
    }
}

/// Sum of the squares of the first `n` levels of the larger square.
spec fn axis_energy(n: nat) -> int
    decreases n,
{
    if n == 0 {
        0
    } else {
        axis_energy((n - 1) as nat) + square(level8((n - 1) as u8))
    }
}

/// Every constellation has the mean energy by which its points are scaled: scaled, it
/// has unit mean energy.
pub proof fn mean_energy_is_exact(c: Constellation)
    ensures
        energy_sum(c, c.size() as nat) == c.size() * c.energy(),
{
    lemma_squares();
    match c {
        Constellation::Bpsk => {
            reveal_with_fuel(energy_sum, 3);
        },
        Constellation::Qpsk => {
            reveal_with_fuel(energy_sum, 5);
        },
        Constellation::Qam16 => {
            reveal_with_fuel(energy_sum, 17);
        },
        Constellation::Qam64 => {
            lemma_row_energy(8);
            reveal_with_fuel(axis_energy, 9);
        },
    }
}

/// No two codes share a point.
pub proof fn points_are_distinct(c: Constellation, a: int, b: int)
    requires
        0 <= a < c.size(),
        0 <= b < c.size(),
        c.point(a) == c.point(b),
    ensures
        a == b,
{
}

/// Neighbouring levels of an axis differ in one bit, so that the likeliest mistake
/// about a symbol costs one bit.
pub proof fn neighbours_differ_in_one_bit(a: u8, b: u8)
    ensures
        a < 8 && b < 8 && level8(a) - level8(b) == 2 ==> a ^ b == 1 || a ^ b == 2 || a ^ b == 4,
        a < 4 && b < 4 && level4(a) - level4(b) == 2 ==> a ^ b == 1 || a ^ b == 2,
{
    if a < 8 && b < 8 {
        assert(6u8 ^ 2u8 == 4 && 2u8 ^ 3u8 == 1 && 3u8 ^ 1u8 == 2 && 1u8 ^ 0u8 == 1 && 7u8 ^ 6u8
            == 1 && 5u8 ^ 7u8 == 2 && 4u8 ^ 5u8 == 1 && 3u8 ^ 1u8 == 2 && 2u8 ^ 3u8 == 1)
            by (bit_vector);
    }
}

/// A symbol that lies nearer to one point than to any other is read as the bits of that
/// point's code.
pub proof fn nearest_point_decides(c: Constellation, code: u8, distances: Seq<u32>)
    requires
        code < c.size(),
        forall|o: int|
            0 <= o < c.size() && o != code ==> distances[code as int] < #[trigger] distances[o],
    ensures
        c.demapped(seq![distances]) == bits_of_code(code, c.width()),
{
    let got = c.demapped(seq![distances]);
    let want = bits_of_code(code, c.width());
    assert forall|b: int| 0 <= b < want.len() implies got[b] == want[b] by {
        assert(got[b] == c.hard_bit(distances, b)) by {
            lemma_place(0, c.width(), b);
        }
        lemma_code_decides(c, code, distances, b);
    }
    assert(got =~= want);
}

/// A symbol that lies nearer to one point than to any other gives each bit of that
/// point's code.
proof fn lemma_code_decides(c: Constellation, code: u8, distances: Seq<u32>, bit: int)
    requires
        code < c.size(),
        0 <= bit < c.width(),
        forall|o: int|
            0 <= o < c.size() && o != code ==> distances[code as int] < #[trigger] distances[o],
    ensures
        c.hard_bit(distances, bit) == bits_of_code(code, c.width())[bit],
{
    let value = c.bit_of(code as int, bit);
    let shift = (c.width() - 1 - bit) as u8;
    assert((code >> shift) & 1u8 == 0 || (code >> shift) & 1u8 == 1) by (bit_vector);
    if value == 1 {
        assert forall|z: int|
            0 <= z < c.size() && #[trigger] c.bit_of(z, bit) == 0 implies distances[z]
            > distances[code as int] by {}
    } else {
        assert forall|o: int|
            0 <= o < c.size() && #[trigger] c.bit_of(o, bit) == 1 implies distances[code as int]
            <= distances[o] by {}
    }
}

/// Symbols that are received where they were sent, and nowhere else, are read as the
/// bits that were mapped to them.
pub proof fn mapped_bits_come_back(c: Constellation, bits: Seq<u8>, distances: Seq<Seq<u32>>)
    requires
        bits.len() % (c.width() as nat) == 0,
        forall|i: int| 0 <= i < bits.len() ==> #[trigger] bits[i] <= 1,
        distances.len() == c.symbols(bits).len(),
        forall|s: int, o: int| #![trigger distances[s][o]]
            0 <= s < distances.len() && 0 <= o < c.size() ==> (distances[s][o] == 0 <==> c.point(o)
                == c.symbols(bits)[s]),
    ensures
        c.maps(bits),
        c.demapped(distances) == bits,
{
    let w = c.width();
    let n = distances.len() as int;
    assert(bits.len() == n * w && n == bits.len() / (w as nat)) by {
        vstd::arithmetic::div_mod::lemma_fundamental_div_mod(bits.len() as int, w);
        vstd::arithmetic::div_mod::lemma_fundamental_div_mod_converse(
            bits.len() + w - 1,
            w,
            bits.len() as int / w,
            w - 1,
        );
        vstd::arithmetic::mul::lemma_mul_is_commutative(n, w);
    }
    assert forall|s: int| 0 <= s < n implies #[trigger] symbol_maps(c, bits, w * s) by {
        lemma_within(s, n, w);
        vstd::arithmetic::mul::lemma_mul_is_commutative(s, w);
        lemma_code_of(c, bits, w * s);
    }
    lemma_maps(c, bits);
    let got = c.demapped(distances);
    assert forall|i: int| 0 <= i < bits.len() implies got[i] == bits[i] by {
        let s = i / w;
        let b = i % w;
        vstd::arithmetic::div_mod::lemma_fundamental_div_mod(i, w);
        vstd::arithmetic::div_mod::lemma_div_pos_is_pos(i, w);
        assert(s < n) by {
            if s >= n {
                lemma_within(n - 1, n, w);
                assert(w * s >= n * w) by (nonlinear_arith)
                    requires
                        s >= n,
                        w >= 1,
                ;
            }
        }
        lemma_within(s, n, w);
        vstd::arithmetic::mul::lemma_mul_is_commutative(s, w);
        lemma_code_of(c, bits, w * s);
        let code = code_of(bits, w * s, w);
        let d = distances[s];
        assert(c.symbols(bits)[s] == c.symbol(bits, w * s));
        assert(d[code as int] == distances[s][code as int]);
        assert forall|o: int| 0 <= o < c.size() && o != code implies d[code as int]
            < #[trigger] d[o] by {
            assert(d[o] == distances[s][o]);
            if c.point(o) == c.point(code as int) {
                points_are_distinct(c, o, code as int);
            }
        }
        lemma_code_decides(c, code, d, b);
    }
    assert(got =~= bits);
}

/// The indices of the symbol whose bits start at `at` name levels.
spec fn symbol_maps(c: Constellation, bits: Seq<u8>, at: int) -> bool {
    &&& c is Qam16 ==> index2(bits, at) < 4 && index2(bits, at + 2) < 4
    &&& c is Qam64 ==> index3(bits, at) < 8 && index3(bits, at + 3) < 8
}

/// Bits whose symbols can each be mapped can be mapped.
proof fn lemma_maps(c: Constellation, bits: Seq<u8>)
    requires
        bits.len() % (c.width() as nat) == 0,
        forall|s: int|
            0 <= s < bits.len() / (c.width() as nat) ==> #[trigger] symbol_maps(
                c,
                bits,
                c.width() * s,
            ),
    ensures
        c.maps(bits),
{
    match c {
        Constellation::Qam16 => {
            assert forall|s: int| #![trigger index2(bits, 4 * s)] 0 <= s < bits.len()
                / 4 implies index2(bits, 4 * s) < 4 && index2(bits, 4 * s + 2) < 4 by {
                assert(symbol_maps(c, bits, c.width() * s));
            }
        },
        Constellation::Qam64 => {
            assert forall|s: int| #![trigger index3(bits, 6 * s)] 0 <= s < bits.len()
                / 6 implies index3(bits, 6 * s) < 8 && index3(bits, 6 * s + 3) < 8 by {
                assert(symbol_maps(c, bits, c.width() * s));
            }
        },
        _ => {},
    }
}

/// The code of `width` bits from `at` on.
spec fn code_of(bits: Seq<u8>, at: int, width: int) -> u8
    decreases width,
{
    if width <= 0 {
        0
    } else {
        (code_of(bits, at, width - 1) << 1u8) | bits[at + width - 1]
    }
}

/// The code of a symbol's bits has these bits, and the symbol's point.
proof fn lemma_code_of(c: Constellation, bits: Seq<u8>, at: int)
    requires
        0 <= at,
        at + c.width() <= bits.len(),
        forall|i: int| 0 <= i < bits.len() ==> #[trigger] bits[i] <= 1,
    ensures
        symbol_maps(c, bits, at),
        code_of(bits, at, c.width()) < c.size(),
        c.symbol(bits, at) == c.point(code_of(bits, at, c.width()) as int),
        forall|b: int|
            0 <= b < c.width() ==> bits[at + b] == #[trigger] bits_of_code(
                code_of(bits, at, c.width()),
                c.width(),
            )[b],
{
    reveal_with_fuel(code_of, 7);
    match c {
        Constellation::Bpsk => {
            let b0 = bits[at];
            assert((0u8 << 1u8) | b0 == b0 && (b0 >> 0u8) & 1u8 == b0) by (bit_vector)
                requires
                    b0 <= 1,
            ;
        },
        Constellation::Qpsk => {
            let b0 = bits[at];
            let b1 = bits[at + 1];
            let code = code_of(bits, at, 2);
            assert(code < 4 && code / 2 == b0 && code % 2 == b1 && (code >> 1u8) & 1u8 == b0 && (
            code >> 0u8) & 1u8 == b1) by (bit_vector)
                requires
                    b0 <= 1,
                    b1 <= 1,
                    code == (((0u8 << 1u8) | b0) << 1u8) | b1,
            ;
        },
        Constellation::Qam16 => {
            let b0 = bits[at];
            let b1 = bits[at + 1];
            let b2 = bits[at + 2];
            let b3 = bits[at + 3];
            let code = code_of(bits, at, 4);
            assert(code < 16 && code / 4 == (b0 << 1u8) | b1 && code % 4 == (b2 << 1u8) | b3 && (
            code >> 3u8) & 1u8 == b0 && (code >> 2u8) & 1u8 == b1 && (code >> 1u8) & 1u8 == b2 && (
            code >> 0u8) & 1u8 == b3) by (bit_vector)
                requires
                    b0 <= 1,
                    b1 <= 1,
                    b2 <= 1,
                    b3 <= 1,
                    code == (((((((0u8 << 1u8) | b0) << 1u8) | b1) << 1u8) | b2) << 1u8) | b3,
            ;
            assert(bits[at + 2 + 1] == b3);
        },
        Constellation::Qam64 => {
            let b0 = bits[at];
            let b1 = bits[at + 1];
            let b2 = bits[at + 2];
            let b3 = bits[at + 3];
            let b4 = bits[at + 4];
            let b5 = bits[at + 5];
            let code = code_of(bits, at, 6);
            assert(code < 64 && code / 8 == (b0 << 2u8) | (b1 << 1u8) | b2 && code % 8 == (b3
                << 2u8) | (b4 << 1u8) | b5 && (code >> 5u8) & 1u8 == b0 && (code >> 4u8) & 1u8 == b1
                && (code >> 3u8) & 1u8 == b2 && (code >> 2u8) & 1u8 == b3 && (code >> 1u8) & 1u8
                == b4 && (code >> 0u8) & 1u8 == b5) by (bit_vector)
                requires
                    b0 <= 1,
                    b1 <= 1,
                    b2 <= 1,
                    b3 <= 1,
                    b4 <= 1,
                    b5 <= 1,
                    code == (((((((((((0u8 << 1u8) | b0) << 1u8) | b1) << 1u8) | b2) << 1u8) | b3)
                        << 1u8) | b4) << 1u8) | b5,
            ;
            assert(bits[at + 3 + 1] == b4 && bits[at + 3 + 2] == b5);
        },
    }
}

/// The coordinate that some bits give: the first bit is the sign, and each further bit halves
/// the reach. Alone, a zero is positive; before further bits, a zero is negative.
pub open spec fn coordinate(b: Seq<u8>) -> int {
    let reach: int = if b.len() == 1 {
        -1
    } else if b.len() == 2 {
        3 - 2 * b[1]
    } else if b[1] == 0 {
        7 - 2 * b[2]
    } else {
        1 + 2 * b[2]
    };
    if b[0] == 0 {
        -reach
    } else {
        reach
    }
}

/// Which point carries which bits: the first half of a symbol's bits gives the in-phase
/// coordinate and the second half the quadrature one. A single bit to a symbol lies on the
/// in-phase axis. There are as many symbols as the bits fill, the last one counted whole.
pub proof fn points_carry_their_bits(c: Constellation, bits: Seq<u8>, s: int)
    requires
        forall|i: int| 0 <= i < bits.len() ==> #[trigger] bits[i] <= 1,
        0 <= s,
        c.width() * s + c.width() <= bits.len(),
    ensures
        ({
            let w = c.width();
            let at = w * s;
            let p = c.symbols(bits)[s];
            let n = c.symbols(bits).len();
            &&& w * (n - 1) < bits.len() <= w * n
            &&& w == 1 ==> p.i == coordinate(bits.subrange(at, at + 1)) && p.q == 0
            &&& w > 1 ==> p.i == coordinate(bits.subrange(at, at + w / 2)) && p.q == coordinate(
                bits.subrange(at + w / 2, at + w),
            )
        }),
{
    let w = c.width();
    let at = w * s;
    let len = bits.len() as int;
    assert(s < (len + w - 1) / w && w * ((len + w - 1) / w - 1) < len <= w * ((len + w - 1) / w)) by {
        vstd::arithmetic::div_mod::lemma_fundamental_div_mod(len + w - 1, w);
        vstd::arithmetic::div_mod::lemma_mod_bound(len + w - 1, w);
        let n = (len + w - 1) / w;
        assert(w * (n - 1) == w * n - w) by (nonlinear_arith);
        if s >= n {
            assert(w * s >= w * n) by (nonlinear_arith)
                requires
                    s >= n,
                    w >= 1,
            ;
        }
    }
    match c {
        Constellation::Bpsk => {
            assert(bits.subrange(at, at + 1)[0] == bits[at]);
        },
        Constellation::Qpsk => {
            assert(bits.subrange(at, at + 1)[0] == bits[at]);
            assert(bits.subrange(at + 1, at + 2)[0] == bits[at + 1]);
            assert(c.symbols(bits)[s] == c.symbol(bits, at));
        },
        Constellation::Qam16 => {
            let (x, y) = (bits.subrange(at, at + 2), bits.subrange(at + 2, at + 4));
            assert(x[0] == bits[at] && x[1] == bits[at + 1]);
            assert(y[0] == bits[at + 2] && y[1] == bits[at + 3]);
            lemma_indices(x[0], x[1], 0);
            lemma_indices(y[0], y[1], 0);
            assert(c.symbols(bits)[s] == c.symbol(bits, at));
        },
        Constellation::Qam64 => {
            let (x, y) = (bits.subrange(at, at + 3), bits.subrange(at + 3, at + 6));
            assert(x[0] == bits[at] && x[1] == bits[at + 1] && x[2] == bits[at + 2]);
            assert(y[0] == bits[at + 3] && y[1] == bits[at + 4] && y[2] == bits[at + 5]);
            lemma_indices(x[0], x[1], x[2]);
            lemma_indices(y[0], y[1], y[2]);
            assert(c.symbols(bits)[s] == c.symbol(bits, at));
        },
    }
}

/// Bits as the number that they stand for.
proof fn lemma_indices(a: u8, b: u8, c: u8)
    requires
        a <= 1,
        b <= 1,
        c <= 1,
    ensures
        (a << 1u8) | b == 2 * a + b,
        (a << 2u8) | (b << 1u8) | c == 4 * a + 2 * b + c,
{
    assert((a << 1u8) | b == 2 * a + b && (a << 2u8) | (b << 1u8) | c == 4 * a + 2 * b + c)
        by (bit_vector)
        requires
            a <= 1,
            b <= 1,
            c <= 1,
    ;
}

/// How a bit is read: by the nearest point, and as zero where points of both values are
/// equally near.
pub proof fn nearest_value_is_read(c: Constellation, distances: Seq<u32>, bit: int, code: int)
    requires
        0 <= code < c.size(),
        c.bit_of(code, bit) == 0 || c.bit_of(code, bit) == 1,
    ensures
        c.bit_of(code, bit) == 0 && (forall|o: int|
            0 <= o < c.size() && #[trigger] c.bit_of(o, bit) == 1 ==> distances[code]
                <= distances[o]) ==> c.hard_bit(distances, bit) == 0,
        c.bit_of(code, bit) == 1 && (forall|z: int|
            0 <= z < c.size() && #[trigger] c.bit_of(z, bit) == 0 ==> distances[code]
                < distances[z]) ==> c.hard_bit(distances, bit) == 1,
        c.hard_bit(distances, bit) == 0 || c.hard_bit(distances, bit) == 1,
{
}

/// A received symbol gives as many bits as it carries, in order.
pub proof fn symbols_give_their_bits_in_order(c: Constellation, distances: Seq<Seq<u32>>, s: int, b: int)
    requires
        0 <= s < distances.len(),
        0 <= b < c.width(),
    ensures
        c.demapped(distances).len() == distances.len() * c.width(),
        c.demapped(distances)[s * c.width() + b] == c.hard_bit(distances[s], b),
        c.size() == vstd::arithmetic::power2::pow2(c.width() as nat),
{
    let w = c.width();
    vstd::arithmetic::power2::lemma2_to64();
    vstd::arithmetic::div_mod::lemma_fundamental_div_mod_converse(s * w + b, w, s, b);
    assert(0 <= s * w + b < distances.len() * w) by (nonlinear_arith)
        requires
            0 <= s < distances.len(),
            0 <= b < w,
    ;
}

} // verus!
