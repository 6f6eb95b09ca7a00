//! ASCII decimal numerals, as the manifests write their numeric columns.
use vstd::prelude::*;

verus! {

/// Whether a byte is an ASCII digit.
pub open spec fn is_digit(b: u8) -> bool {
    48 <= b <= 57
}

/// The value of a string of ASCII digits, most significant first.
pub open spec fn digits_value(s: Seq<u8>) -> nat
    decreases s.len(),
{
    if s.len() == 0 {
        0
    } else {
        digits_value(s.drop_last()) * 10 + (s.last() - 48) as nat
    }
}

/// Whether a byte string is a decimal numeral: one or more ASCII digits.
pub open spec fn is_numeral(s: Seq<u8>) -> bool {
    s.len() > 0 && forall|i: int| 0 <= i < s.len() ==> is_digit(#[trigger] s[i])
}

/// Whether a numeral is the one that `decimal_of` writes: no leading zero
/// unless it is the numeral "0".
pub open spec fn is_canonical_numeral(s: Seq<u8>) -> bool {
    is_numeral(s) && (s.len() == 1 || s[0] != 48)
}

/// The shortest numeral of a number.
pub open spec fn decimal_of(n: nat) -> Seq<u8>
    decreases n,
{
    if n < 10 {
        seq![(48 + n) as u8]
    } else {
        decimal_of(n / 10).push((48 + n % 10) as u8)
    }
}

/// Reads a numeral into a number of at most `max`; `None` for anything that
/// is not a numeral or whose value exceeds `max`.
pub fn parse_decimal(s: &[u8], max: u64) -> (r: Option<u64>)
    ensures
        r == (if is_numeral(s@) && digits_value(s@) <= max {
            Some(digits_value(s@) as u64)
        } else {
            None::<u64>
        }),
{
    if s.len() == 0 {
        return None;
    }
    let mut v: u64 = 0;
    let mut i: usize = 0;
    while i < s.len()
        invariant
            0 < s@.len(),
            i <= s@.len(),
            forall|j: int| 0 <= j < i ==> is_digit(#[trigger] s@[j]),
            v as nat == digits_value(s@.subrange(0, i as int)),
            v <= max,
        decreases s@.len() - i,
    {
        let b = s[i];
        assert(s@.subrange(0, i + 1).drop_last() =~= s@.subrange(0, i as int));
        if b < 48 || b > 57 {
            return None;
        }
        let d = (b - 48) as u64;
        if d > max || v > (max - d) / 10 {
            proof {
                if d <= max {
                    assert(v * 10 + d > max) by (nonlinear_arith)
                        requires
                            v > (max - d) / 10,
                            d <= max,
                    ;
                }
                lemma_value_grows(s@, i as int + 1);
            }
            return None;
        }
        assert(v * 10 + d <= max) by (nonlinear_arith)
            requires
                v <= (max - d) / 10,
                d <= max,
        ;
        v = v * 10 + d;
        i = i + 1;
    }
    assert(s@.subrange(0, s@.len() as int) =~= s@);
    Some(v)
}

/// The value of a numeral is at least the value of any of its prefixes.
proof fn lemma_value_grows(s: Seq<u8>, k: int)
    requires
        0 <= k <= s.len(),
    ensures
        digits_value(s.subrange(0, k)) <= digits_value(s),
    decreases s.len() - k,
{
    if k < s.len() {
        lemma_value_grows(s, k + 1);
        assert(s.subrange(0, k + 1).drop_last() =~= s.subrange(0, k));
    } else {
        assert(s.subrange(0, k) =~= s);
    }
}

/// Writes a number as its shortest numeral.
pub fn write_decimal(n: u64) -> (r: Vec<u8>)
    ensures
        r@ == decimal_of(n as nat),
    decreases n,
{
    if n < 10 {
        let mut r: Vec<u8> = Vec::new();
        r.push((48 + n) as u8);
        assert(r@ =~= decimal_of(n as nat));
        r
    } else {
        let mut r = write_decimal(n / 10);
        r.push((48 + n % 10) as u8);
        r
    }
}

/// Reading the numeral that `decimal_of` writes gives the number back.
pub proof fn lemma_decimal_value(n: nat)
    ensures
        digits_value(decimal_of(n)) == n,
        is_canonical_numeral(decimal_of(n)),
        n >= 1 ==> decimal_of(n)[0] != 48,
    decreases n,
{
    let s = decimal_of(n);
    if n >= 10 {
        lemma_decimal_value(n / 10);
        let t = decimal_of(n / 10);
        assert(s.drop_last() =~= t);
        assert(s[0] == t[0]);
        assert(s.last() == (48 + n % 10) as u8);
        assert(s.last() - 48 == n % 10);
        assert(digits_value(s) == digits_value(t) * 10 + (s.last() - 48) as nat);
        assert(n == (n / 10) * 10 + n % 10);
        assert forall|i: int| 0 <= i < s.len() implies is_digit(#[trigger] s[i]) by {
            if i < t.len() {
                assert(s[i] == t[i]);
            }
        }
    } else {
        assert(s.drop_last() =~= Seq::<u8>::empty());
        assert(digits_value(s) == digits_value(s.drop_last()) * 10 + (s.last() - 48) as nat);
    }
}

/// A canonical numeral of two digits or more stands for a number of ten or more.
proof fn lemma_leading_digit(s: Seq<u8>)
    requires
        is_numeral(s),
        s[0] != 48,
    ensures
        digits_value(s) >= 1,
        s.len() >= 2 ==> digits_value(s) >= 10,
    decreases s.len(),
{
    if s.len() >= 2 {
        let t = s.drop_last();
        assert(t[0] == s[0]);
        assert forall|i: int| 0 <= i < t.len() implies is_digit(#[trigger] t[i]) by {
            assert(t[i] == s[i]);
        }
        lemma_leading_digit(t);
    }
}

/// Writing the value of a canonical numeral gives the numeral back.
pub proof fn lemma_canonical_numeral(s: Seq<u8>)
    requires
        is_canonical_numeral(s),
    ensures
        decimal_of(digits_value(s)) == s,
    decreases s.len(),
{
    let n = digits_value(s);
    let t = s.drop_last();
    assert(is_digit(s[s.len() - 1]));
    if s.len() == 1 {
        assert(t =~= Seq::<u8>::empty());
        assert(n == s[0] - 48);
        assert(decimal_of(n) =~= s);
    } else {
        assert(t[0] == s[0]);
        assert forall|i: int| 0 <= i < t.len() implies is_digit(#[trigger] t[i]) by {
            assert(t[i] == s[i]);
        }
        lemma_leading_digit(t);
        if t.len() >= 2 {
            lemma_canonical_numeral(t);
        } else {
            assert(t.drop_last() =~= Seq::<u8>::empty());
            assert(digits_value(t.drop_last()) == 0);
            assert(t.last() == t[0]);
            assert(digits_value(t) == (t[0] - 48) as nat);
            assert(decimal_of(digits_value(t)) =~= seq![t[0]]);
            assert(decimal_of(digits_value(t)) =~= t);
        }
        assert(n / 10 == digits_value(t));
        assert(decimal_of(n) =~= s);
    }
}

} // verus!
