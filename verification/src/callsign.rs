//! Station callsigns and their fixed-width wire field.
use crate::error::FrameError;
use vstd::prelude::*;
use vstd::string::*;
use vstd::utf8::*;

verus! {

/// Width of a callsign on the wire, padded with NUL.
pub const CALLSIGN_WIRE_LEN: usize = 10;

/// The upper-case form of an ASCII letter; any other character is its own.
pub open spec fn ascii_upper(c: char) -> char {
    if 'a' <= c <= 'z' {
        ((c as u32) - 32) as char
    } else {
        c
    }
}

/// A text with its ASCII letters in upper case.
pub open spec fn ascii_upper_text(s: Seq<char>) -> Seq<char> {
    s.map_values(|c: char| ascii_upper(c))
}

/// Whether a character may stand in a callsign: an upper-case letter, a digit or a
/// slash.
pub open spec fn callsign_char(c: char) -> bool {
    'A' <= c <= 'Z' || '0' <= c <= '9' || c == '/'
}

/// A callsign as it is held: one to ten callsign characters.
pub open spec fn is_callsign(s: Seq<char>) -> bool {
    1 <= s.len() <= CALLSIGN_WIRE_LEN && forall|i: int|
        0 <= i < s.len() ==> callsign_char(#[trigger] s[i])
}

/// The bytes of a text of ASCII characters.
pub open spec fn ascii_bytes(s: Seq<char>) -> Seq<u8> {
    Seq::new(s.len(), |i: int| s[i] as u8)
}

/// The wire field of a callsign.
pub open spec fn callsign_wire(s: Seq<char>) -> Seq<u8> {
    Seq::new(
        CALLSIGN_WIRE_LEN as nat,
        |i: int|
            if i < s.len() {
                s[i] as u8
            } else {
                0u8
            },
    )
}

/// Index of the first NUL, or the length of the field.
pub open spec fn text_end(w: Seq<u8>) -> int
    decreases w.len(),
{
    if w.len() == 0 || w[0] == 0 {
        0
    } else {
        1 + text_end(w.drop_first())
    }
}

/// The callsign in a wire field, or the text to report.
pub open spec fn parse_callsign(w: Seq<u8>) -> Result<Seq<char>, Seq<char>> {
    let end = text_end(w);
    if exists|i: int| end <= i < w.len() && w[i] != 0 {
        Err("<non-canonical padding>"@)
    } else if !valid_utf8(w.take(end)) {
        Err("<non-utf8>"@)
    } else {
        let text = decode_utf8(w.take(end));
        if is_callsign(ascii_upper_text(text)) {
            Ok(ascii_upper_text(text))
        } else {
            Err(text)
        }
    }
}

/// Whether one text comes no later than another, character by character.
pub open spec fn not_after(a: Seq<char>, b: Seq<char>) -> bool
    decreases a.len(),
{
    if a.len() == 0 {
        true
    } else if b.len() == 0 {
        false
    } else if a[0] != b[0] {
        a[0] < b[0]
    } else {
        not_after(a.drop_first(), b.drop_first())
    }
}

/// `str::to_ascii_uppercase`: each of the letters `a` to `z` becomes its upper-case
/// form, and every other character stays as it is.
pub assume_specification[ str::to_ascii_uppercase ](s: &str) -> (up: String)
    ensures
        up@ == ascii_upper_text(s@),
;

/// `std::str::from_utf8`: the text that the bytes encode, or nothing where they are
/// not valid UTF-8.
#[verifier::external_body]
fn utf8_text(v: &[u8]) -> (s: Option<&str>)
    ensures
        match s {
            Some(t) => t.spec_bytes() == v@,
            None => !valid_utf8(v@),
        },
{
    std::str::from_utf8(v).ok()
}

/// A validated amateur station callsign: one to ten characters of `[A-Z0-9/]`. ASCII
/// letters are put in upper case on construction.
#[derive(Debug, PartialEq, Eq, Hash)]
pub struct Callsign {
    text: String,
}

impl View for Callsign {
    type V = Seq<char>;

    closed spec fn view(&self) -> Seq<char> {
        self.text@
    }
}

impl Callsign {
    #[verifier::type_invariant]
    closed spec fn inv(self) -> bool {
        is_callsign(self.text@)
    }

    /// Validate and construct. ASCII letters are put in upper case.
    pub fn new(s: &str) -> (r: Result<Self, FrameError>)
        ensures
            match r {
                Ok(c) => is_callsign(ascii_upper_text(s@)) && c@ == ascii_upper_text(s@),
                Err(e) => !is_callsign(ascii_upper_text(s@)) && e@
                    == crate::error::FrameFault::BadCallsign(s@),
            },
    {
        let up = s.to_ascii_uppercase();
        if is_callsign_text(up.as_str()) {
            Ok(Callsign { text: up })
        } else {
            Err(FrameError::BadCallsign(s.to_owned()))
        }
    }

    /// The callsign as text.
    pub fn as_str(&self) -> (s: &str)
        ensures
            s@ == self@,
            is_callsign(self@),
    {
        proof {
            use_type_invariant(self);
        }
        self.text.as_str()
    }

    /// Whether both are the same callsign.
    pub fn same(&self, other: &Callsign) -> (b: bool)
        ensures
            b == (self@ == other@),
    {
        self.text == other.text
    }

    /// Whether this callsign comes no later than another, character by character.
    pub fn is_not_after(&self, other: &Callsign) -> (b: bool)
        ensures
            b == not_after(self@, other@),
    {
        proof {
            use_type_invariant(self);
            use_type_invariant(other);
            lemma_callsign_bytes(self.text@);
            lemma_callsign_bytes(other.text@);
        }
        let x = self.text.as_str().as_bytes();
        let y = other.text.as_str().as_bytes();
        let mut i: usize = 0;
        assert(self@.skip(0) =~= self@);
        assert(other@.skip(0) =~= other@);
        while i < x.len()
            invariant
                x@ == ascii_bytes(self@),
                y@ == ascii_bytes(other@),
                is_ascii_chars(self@),
                is_ascii_chars(other@),
                i <= x@.len(),
                i <= y@.len(),
                not_after(self@, other@) == not_after(self@.skip(i as int), other@.skip(i as int)),
            decreases x.len() - i,
        {
            if i >= y.len() {
                return false;
            }
            assert(x@[i as int] == self@[i as int] as u8);
            assert(y@[i as int] == other@[i as int] as u8);
            if x[i] != y[i] {
                return x[i] < y[i];
            }
            proof {
                assert(self@.skip(i as int).drop_first() =~= self@.skip(i + 1));
                assert(other@.skip(i as int).drop_first() =~= other@.skip(i + 1));
            }
            i = i + 1;
        }
        true
    }

    /// The wire field: the callsign, padded with NUL.
    pub fn to_wire(&self) -> (w: Vec<u8>)
        ensures
            w@ == callsign_wire(self@),
            is_callsign(self@),
    {
        proof {
            use_type_invariant(self);
            lemma_callsign_bytes(self.text@);
        }
        let bytes = self.text.as_str().as_bytes();
        let mut w: Vec<u8> = Vec::new();
        let mut i: usize = 0;
        while i < CALLSIGN_WIRE_LEN
            invariant
                i <= CALLSIGN_WIRE_LEN,
                bytes@ == ascii_bytes(self.text@),
                w@ == callsign_wire(self.text@).take(i as int),
            decreases CALLSIGN_WIRE_LEN - i,
        {
            if i < bytes.len() {
                w.push(bytes[i]);
            } else {
                w.push(0);
            }
            i = i + 1;
            assert(w@ =~= callsign_wire(self.text@).take(i as int));
        }
        assert(w@ =~= callsign_wire(self.text@));
        w
    }

    /// Read a wire field. Whatever follows the first NUL must be NUL too, so that no
    /// bytes hide behind the callsign.
    pub fn from_wire(w: &[u8]) -> (r: Result<Self, FrameError>)
        ensures
            match (r, parse_callsign(w@)) {
                (Ok(c), Ok(text)) => c@ == text,
                (Err(e), Err(text)) => e@ == crate::error::FrameFault::BadCallsign(text),
                _ => false,
            },
    {
        let mut end: usize = 0;
        proof {
            lemma_text_end(w@);
        }
        while end < w.len() && w[end] != 0
            invariant
                end <= text_end(w@) <= w@.len(),
                forall|i: int| 0 <= i < text_end(w@) ==> w@[i] != 0,
                text_end(w@) < w@.len() ==> w@[text_end(w@)] == 0,
            decreases w.len() - end,
        {
            end = end + 1;
        }
        let mut i: usize = end;
        while i < w.len()
            invariant
                end == text_end(w@) <= i <= w@.len(),
                forall|j: int| end <= j < i ==> w@[j] == 0,
            decreases w.len() - i,
        {
            if w[i] != 0 {
                return Err(FrameError::BadCallsign("<non-canonical padding>".to_owned()));
            }
            i = i + 1;
        }
        let head = vstd::slice::slice_subrange(w, 0, end);
        assert(head@ =~= w@.take(end as int));
        match utf8_text(head) {
            None => Err(FrameError::BadCallsign("<non-utf8>".to_owned())),
            Some(t) => {
                proof {
                    encode_utf8_valid_utf8(t@);
                    encode_utf8_decode_utf8(t@);
                }
                Callsign::new(t)
            },
        }
    }
}

impl Clone for Callsign {
    fn clone(&self) -> (c: Self)
        ensures
            c@ == self@,
            is_callsign(c@),
    {
        proof {
            use_type_invariant(self);
        }
        Callsign { text: self.text.clone() }
    }
}

/// Whether a text is a callsign as it is held.
fn is_callsign_text(s: &str) -> (b: bool)
    ensures
        b == is_callsign(s@),
{
    if !s.is_ascii() {
        proof {
            if is_callsign(s@) {
                assert(is_ascii_chars(s@)) by {
                    assert forall|i: int| 0 <= i < s@.len() implies '\0' <= #[trigger] s@[i]
                        <= '\u{7f}' by {
                        assert(callsign_char(s@[i]));
                    }
                }
            }
        }
        return false;
    }
    proof {
        is_ascii_spec_bytes(s);
        assert forall|i: int| 0 <= i < s@.len() implies (#[trigger] s@[i]) as u8 as u32 == s@[i] as u32 by {}
    }
    let bytes = s.as_bytes();
    if bytes.len() == 0 || bytes.len() > CALLSIGN_WIRE_LEN {
        return false;
    }
    let mut i: usize = 0;
    while i < bytes.len()
        invariant
            i <= bytes@.len() == s@.len(),
            is_ascii_chars(s@),
            forall|j: int| 0 <= j < s@.len() ==> bytes@[j] == #[trigger] s@[j] as u8,
            forall|j: int| 0 <= j < i ==> callsign_char(#[trigger] s@[j]),
        decreases bytes.len() - i,
    {
        let b: u8 = bytes[i];
        assert(b == s@[i as int] as u8);
        // An upper-case letter, a digit or the slash.
        if !((65 <= b && b <= 90) || (48 <= b && b <= 57) || b == 47) {
            assert(!callsign_char(s@[i as int]));
            return false;
        }
        i = i + 1;
    }
    true
}

/// A callsign's characters are its bytes.
pub proof fn lemma_callsign_bytes(s: Seq<char>)
    requires
        is_callsign(s),
    ensures
        is_ascii_chars(s),
        encode_utf8(s) == ascii_bytes(s),
        forall|i: int| 0 <= i < s.len() ==> #[trigger] ascii_bytes(s)[i] != 0,
{
    assert forall|i: int| 0 <= i < s.len() implies '\0' <= #[trigger] s[i] <= '\u{7f}' by {
        assert(callsign_char(s[i]));
    }
    is_ascii_chars_encode_utf8(s);
    assert(encode_utf8(s) =~= ascii_bytes(s));
    assert forall|i: int| 0 <= i < s.len() implies #[trigger] ascii_bytes(s)[i] != 0 by {
        assert(callsign_char(s[i]));
    }
}

/// A held callsign has no lower-case letters left.
pub proof fn lemma_callsign_is_upper(s: Seq<char>)
    requires
        is_callsign(s),
    ensures
        ascii_upper_text(s) == s,
{
    assert forall|i: int| 0 <= i < s.len() implies ascii_upper(#[trigger] s[i]) == s[i] by {
        assert(callsign_char(s[i]));
    }
    assert(ascii_upper_text(s) =~= s);
}

/// The text of a field ends at its first NUL.
pub proof fn lemma_text_end(w: Seq<u8>)
    ensures
        0 <= text_end(w) <= w.len(),
        forall|i: int| 0 <= i < text_end(w) ==> w[i] != 0,
        text_end(w) < w.len() ==> w[text_end(w)] == 0,
    decreases w.len(),
{
    if w.len() > 0 && w[0] != 0 {
        let rest = w.drop_first();
        lemma_text_end(rest);
        assert forall|i: int| 0 <= i < text_end(w) implies w[i] != 0 by {
            if i > 0 {
                assert(w[i] == rest[i - 1]);
            }
        }
    }
}

/// A callsign survives the wire.
pub proof fn callsign_round_trips(s: Seq<char>)
    requires
        is_callsign(s),
    ensures
        parse_callsign(callsign_wire(s)) == Ok::<Seq<char>, Seq<char>>(s),
{
    let w = callsign_wire(s);
    lemma_callsign_bytes(s);
    lemma_text_end(w);
    assert forall|i: int| 0 <= i < s.len() implies #[trigger] w[i] != 0 by {
        assert(w[i] == ascii_bytes(s)[i]);
    }
    if text_end(w) < s.len() {
        assert(w[text_end(w)] != 0);
    }
    if text_end(w) > s.len() {
        assert(w[s.len() as int] == 0);
    }
    assert(w.take(text_end(w)) =~= encode_utf8(s));
    encode_utf8_valid_utf8(s);
    encode_utf8_decode_utf8(s);
    lemma_callsign_is_upper(s);
}

/// Every callsign read off the wire is a valid one.
pub proof fn parsed_callsign_is_valid(w: Seq<u8>)
    ensures
        parse_callsign(w) matches Ok(text) ==> is_callsign(text),
{
}

/// A text comes no later than another where it is the beginning of it, or where the first
/// character in which they differ is the smaller one.
pub proof fn first_difference_decides(a: Seq<char>, b: Seq<char>)
    ensures
        not_after(a, b) <==> (a.len() <= b.len() && a == b.take(a.len() as int)) || exists|i: int|
            0 <= i < a.len() && i < b.len() && a.take(i) == b.take(i) && #[trigger] a[i] < b[i],
    decreases a.len(),
{
    if a.len() == 0 {
        assert(b.take(0) =~= a);
    } else if b.len() > 0 {
        let (x, y) = (a.drop_first(), b.drop_first());
        first_difference_decides(x, y);
        if a[0] == b[0] {
            if a.len() <= b.len() {
                assert(b.take(a.len() as int).drop_first() =~= y.take(x.len() as int));
                if x == y.take(x.len() as int) {
                    assert(a =~= seq![a[0]] + x);
                    assert(b.take(a.len() as int) =~= seq![b[0]] + y.take(x.len() as int));
                }
            }
            if exists|i: int|
                0 <= i < x.len() && i < y.len() && x.take(i) == y.take(i) && #[trigger] x[i]
                    < y[i] {
                let i = choose|i: int|
                    0 <= i < x.len() && i < y.len() && x.take(i) == y.take(i) && #[trigger] x[i]
                        < y[i];
                assert(a.take(i + 1) =~= seq![a[0]] + x.take(i));
                assert(b.take(i + 1) =~= seq![b[0]] + y.take(i));
                assert(a[i + 1] < b[i + 1]);
            }
            if exists|i: int|
                0 <= i < a.len() && i < b.len() && a.take(i) == b.take(i) && #[trigger] a[i]
                    < b[i] {
                let i = choose|i: int|
                    0 <= i < a.len() && i < b.len() && a.take(i) == b.take(i) && #[trigger] a[i]
                        < b[i];
                assert(i > 0);
                assert(x.take(i - 1) =~= a.take(i).drop_first());
                assert(y.take(i - 1) =~= b.take(i).drop_first());
                assert(x[i - 1] < y[i - 1]);
            }
        } else {
            assert(a.take(0) =~= b.take(0));
            if a.len() <= b.len() {
                assert(b.take(a.len() as int)[0] == b[0]);
            }
            if a[0] < b[0] {
                assert(a.take(0) == b.take(0) && a[0] < b[0]);
            }
            assert forall|i: int|
                0 <= i < a.len() && i < b.len() && a.take(i) == b.take(i) && #[trigger] a[i]
                    < b[i] implies i == 0 by {
                if i > 0 {
                    assert(a.take(i)[0] == b.take(i)[0]);
                }
            }
        }
    }
}

/// Of two different texts exactly one comes first.
pub proof fn callsigns_are_in_order(a: Seq<char>, b: Seq<char>)
    ensures
        a == b ==> not_after(a, b),
        a != b ==> (not_after(a, b) <==> !not_after(b, a)),
    decreases a.len(),
{
    if a.len() == 0 {
        if b.len() == 0 {
            assert(a =~= b);
        }
    } else if b.len() > 0 {
        callsigns_are_in_order(a.drop_first(), b.drop_first());
        if a[0] == b[0] && a.drop_first() == b.drop_first() {
            assert(a =~= seq![a[0]] + a.drop_first());
            assert(b =~= seq![b[0]] + b.drop_first());
        }
    }
}

/// A callsign has one to ten characters, and each is a capital letter, a digit or a slash.
pub proof fn callsigns_are_short_and_plain(s: Seq<char>)
    ensures
        is_callsign(s) <==> 1 <= s.len() <= 10 && forall|i: int|
            0 <= i < s.len() ==> 65 <= (#[trigger] s[i]) as u32 <= 90 || 48 <= s[i] as u32 <= 57
                || s[i] as u32 == 47,
{
    assert forall|i: int| 0 <= i < s.len() implies (callsign_char(#[trigger] s[i]) <==> 65
        <= s[i] as u32 <= 90 || 48 <= s[i] as u32 <= 57 || s[i] as u32 == 47) by {
        lemma_callsign_char(s[i]);
    }
}

/// The codes of the callsign characters.
proof fn lemma_callsign_char(c: char)
    ensures
        callsign_char(c) <==> 65 <= c as u32 <= 90 || 48 <= c as u32 <= 57 || c as u32 == 47,
{
}

/// Putting a text in capitals moves the letters `a` to `z` by 32, which is to `A` to `Z`, and
/// leaves every other character.
pub proof fn capitals_are_32_below(s: Seq<char>, i: int)
    requires
        0 <= i < s.len(),
    ensures
        ascii_upper_text(s).len() == s.len(),
        97 <= s[i] as u32 <= 122 ==> ascii_upper_text(s)[i] as u32 == s[i] as u32 - 32,
        !(97 <= s[i] as u32 <= 122) ==> ascii_upper_text(s)[i] == s[i],
{
}

/// On the wire small letters stand for capitals: a field that holds a callsign in any mix of
/// them is read as the callsign.
pub proof fn case_does_not_matter_on_the_wire(s: Seq<char>)
    requires
        is_callsign(ascii_upper_text(s)),
    ensures
        parse_callsign(callsign_wire(s)) == Ok::<Seq<char>, Seq<char>>(ascii_upper_text(s)),
{
    let w = callsign_wire(s);
    let up = ascii_upper_text(s);
    assert(up.len() == s.len());
    assert forall|i: int| 0 <= i < s.len() implies '\u{1}' <= #[trigger] s[i] <= '\u{7f}' by {
        assert(up[i] == ascii_upper(s[i]));
        assert(callsign_char(up[i]));
    }
    assert(is_ascii_chars(s));
    is_ascii_chars_encode_utf8(s);
    assert(encode_utf8(s) =~= ascii_bytes(s));
    lemma_text_end(w);
    assert forall|i: int| 0 <= i < s.len() implies #[trigger] w[i] != 0 by {
        assert('\u{1}' <= s[i] <= '\u{7f}');
    }
    if text_end(w) < s.len() {
        assert(w[text_end(w)] != 0);
    }
    if text_end(w) > s.len() {
        assert(w[s.len() as int] == 0);
    }
    assert(w.take(text_end(w)) =~= encode_utf8(s));
    encode_utf8_valid_utf8(s);
    encode_utf8_decode_utf8(s);
}

/// Nothing hides behind a callsign: a field with a byte other than zero behind a zero is
/// refused.
pub proof fn nothing_hides_behind_a_callsign(w: Seq<u8>, i: int, j: int)
    requires
        0 <= i < j < w.len(),
        w[i] == 0,
        w[j] != 0,
    ensures
        parse_callsign(w) is Err,
{
    lemma_text_end(w);
}

} // verus!
