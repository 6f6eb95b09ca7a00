//! Latin-1 text: every byte stands for the code point of the same value.
use vstd::prelude::*;

verus! {

/// Relies on `String::push`: appends one character at the end.
pub assume_specification[ String::push ](s: &mut String, c: char)
    ensures
        final(s)@ == old(s)@.push(c),
;

/// The character that a byte widens to.
pub open spec fn widen(b: u8) -> char {
    b as char
}

/// The byte that a character narrows to (its code point modulo 256).
pub open spec fn narrow(c: char) -> u8 {
    ((c as u32) % 256) as u8
}

/// The text that a byte string reads as under Latin-1.
pub open spec fn widened(b: Seq<u8>) -> Seq<char> {
    b.map_values(|x: u8| widen(x))
}

/// The bytes that a text writes as under Latin-1.
pub open spec fn narrowed(s: Seq<char>) -> Seq<u8> {
    s.map_values(|c: char| narrow(c))
}

/// Decodes bytes as Latin-1: one character per byte, of the same value.
pub fn from_latin1_str(bytes: &[u8]) -> (r: String)
    ensures
        r@ == widened(bytes@),
{
    let mut r = String::new();
    let mut i: usize = 0;
    while i < bytes.len()
        invariant
            i <= bytes@.len(),
            r@ == widened(bytes@.subrange(0, i as int)),
        decreases bytes@.len() - i,
    {
        let c = bytes[i] as char;
        r.push(c);
        i = i + 1;
        assert(widened(bytes@.subrange(0, i as int)) =~= widened(bytes@.subrange(0, i - 1)).push(c));
    }
    assert(bytes@.subrange(0, bytes@.len() as int) =~= bytes@);
    r
}

/// Encodes text as Latin-1: one byte per character, its code point modulo 256.
pub fn to_latin1_bytes(s: &str) -> (r: Vec<u8>)
    ensures
        r@ == narrowed(s@),
{
    let mut r: Vec<u8> = Vec::new();
    let n = s.unicode_len();
    let mut i: usize = 0;
    while i < n
        invariant
            n == s@.len(),
            i <= n,
            r@ == narrowed(s@.subrange(0, i as int)),
        decreases n - i,
    {
        let c = s.get_char(i);
        let b = ((c as u32) % 256) as u8;
        r.push(b);
        i = i + 1;
        assert(narrowed(s@.subrange(0, i as int)) =~= narrowed(s@.subrange(0, i - 1)).push(b));
    }
    assert(s@.subrange(0, n as int) =~= s@);
    r
}

/// Narrowing undoes widening: any byte string survives a Latin-1 round trip.
pub proof fn lemma_latin1_round_trip(b: Seq<u8>)
    ensures
        narrowed(widened(b)) == b,
{
    assert forall|i: int| 0 <= i < b.len() implies narrowed(widened(b))[i] == b[i] by {
        let x = b[i];
        assert((x as char) as u32 == x as u32);
    }
    assert(narrowed(widened(b)) =~= b);
}

/// Widening undoes narrowing on text whose code points are all below 256.
pub proof fn lemma_latin1_text_round_trip(s: Seq<char>)
    requires
        forall|i: int| 0 <= i < s.len() ==> (#[trigger] s[i] as u32) < 256,
    ensures
        widened(narrowed(s)) == s,
{
    assert forall|i: int| 0 <= i < s.len() implies widened(narrowed(s))[i] == s[i] by {
        let c = s[i];
        assert((c as u32) < 256);
        let u = c as u32;
        vstd::utf8::char_u32_cast(c, u);
        assert((u % 256) as u8 as u32 == u);
        assert(((u % 256) as u8) as char == u as char);
    }
    assert(widened(narrowed(s)) =~= s);
}

} // verus!
