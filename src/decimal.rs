//! Decimal text of integers, as ASCII bytes and as characters.

use vstd::prelude::*;
use vstd::string::*;

verus! {

/// ASCII code of `-`.
pub const MINUS_SIGN: u8 = 45;

/// ASCII code of the digit `d` (for `d` in 0..=9).
pub open spec fn digit_byte(d: nat) -> u8 {
    (48 + d) as u8
}

pub open spec fn is_digit(b: u8) -> bool {
    48 <= b <= 57
}

/// Shortest decimal text of `n`, most significant digit first.
pub open spec fn dec_bytes(n: nat) -> Seq<u8>
    decreases n,
{
    if n < 10 {
        seq![digit_byte(n)]
    } else {
        dec_bytes(n / 10).push(digit_byte(n % 10))
    }
}

/// Decimal text of `v`, with a leading `-` when `v` is negative.
pub open spec fn signed_dec_bytes(v: int) -> Seq<u8> {
    if v < 0 {
        seq![MINUS_SIGN] + dec_bytes((-v) as nat)
    } else {
        dec_bytes(v as nat)
    }
}

/// Bytes read as characters, one each (an ASCII byte as itself).
pub open spec fn ascii_chars(s: Seq<u8>) -> Seq<char> {
    s.map_values(|b: u8| b as char)
}

pub open spec fn dec_chars(n: nat) -> Seq<char> {
    ascii_chars(dec_bytes(n))
}

pub open spec fn signed_dec_chars(v: int) -> Seq<char> {
    ascii_chars(signed_dec_bytes(v))
}

/// Value of a run of decimal digits.
pub open spec fn digits_value(s: Seq<u8>) -> nat
    decreases s.len(),
{
    if s.len() == 0 {
        0
    } else {
        digits_value(s.drop_last()) * 10 + (s.last() - 48) as nat
    }
}

pub open spec fn all_digits(s: Seq<u8>) -> bool {
    forall|i: int| 0 <= i < s.len() ==> is_digit(#[trigger] s[i])
}

/// A digit run in its shortest form: non-empty, and no leading zero
/// unless it is the single digit `0`.
pub open spec fn canonical_digits(s: Seq<u8>) -> bool {
    &&& s.len() >= 1
    &&& all_digits(s)
    &&& (s.len() == 1 || s[0] != 48)
}

pub proof fn lemma_dec_bytes_canonical(n: nat)
    ensures
        canonical_digits(dec_bytes(n)),
        digits_value(dec_bytes(n)) == n,
        n >= 10 ==> dec_bytes(n).len() >= 2,
    decreases n,
{
    if n >= 10 {
        lemma_dec_bytes_canonical(n / 10);
        let s = dec_bytes(n);
        assert(s.drop_last() =~= dec_bytes(n / 10));
        assert(s[0] == dec_bytes(n / 10)[0]);
        assert(s.last() == digit_byte(n % 10));
        assert(n == (n / 10) * 10 + n % 10);
    } else {
        assert(digits_value(dec_bytes(n).drop_last()) == 0);
    }
}

proof fn lemma_digits_value_positive(s: Seq<u8>)
    requires
        s.len() >= 1,
        all_digits(s),
        s[0] != 48,
    ensures
        digits_value(s) > 0,
    decreases s.len(),
{
    if s.len() > 1 {
        let t = s.drop_last();
        assert(t[0] == s[0]);
        lemma_digits_value_positive(t);
    }
}

/// A canonical digit run is the decimal text of its value.
pub proof fn lemma_canonical_digits_dec(s: Seq<u8>)
    requires
        canonical_digits(s),
    ensures
        dec_bytes(digits_value(s)) == s,
    decreases s.len(),
{
    if s.len() == 1 {
        assert(digits_value(s.drop_last()) == 0);
        assert(digits_value(s) == (s[0] - 48) as nat);
        assert(dec_bytes(digits_value(s)) =~= s);
    } else {
        let t = s.drop_last();
        assert(t[0] == s[0]);
        assert(is_digit(s[s.len() - 1]));
        lemma_canonical_digits_dec(t);
        lemma_digits_value_positive(t);
        let v = digits_value(s);
        let d = (s.last() - 48) as nat;
        let w = digits_value(t);
        assert(v == w * 10 + d);
        assert(v / 10 == w && v % 10 == d) by (nonlinear_arith)
            requires
                v == w * 10 + d,
                d < 10,
        ;
        assert(dec_bytes(v) =~= s);
    }
}

/// Appends the decimal text of `n`.
pub fn push_dec(out: &mut Vec<u8>, n: u128)
    ensures
        final(out)@ == old(out)@ + dec_bytes(n as nat),
    decreases n,
{
    if n >= 10 {
        push_dec(out, n / 10);
    }
    out.push((48 + n % 10) as u8);
    assert(final(out)@ =~= old(out)@ + dec_bytes(n as nat));
}

/// Appends a minus sign when `v` is negative, then the decimal text of its
/// magnitude.
pub fn push_signed_dec(out: &mut Vec<u8>, v: i32)
    ensures
        final(out)@ == old(out)@ + signed_dec_bytes(v as int),
{
    if v < 0 {
        out.push(MINUS_SIGN);
        push_dec(out, (0 - (v as i64)) as u128);
        assert(final(out)@ =~= old(out)@ + signed_dec_bytes(v as int));
    } else {
        push_dec(out, v as u128);
    }
}

/// The one-character text of the digit `d`.
fn digit_str(d: u128) -> (r: &'static str)
    requires
        d < 10,
    ensures
        r@ == seq![digit_byte(d as nat) as char],
{
    proof {
        reveal_strlit("0");
        reveal_strlit("1");
        reveal_strlit("2");
        reveal_strlit("3");
        reveal_strlit("4");
        reveal_strlit("5");
        reveal_strlit("6");
        reveal_strlit("7");
        reveal_strlit("8");
        reveal_strlit("9");
    }
    let r = match d {
        0 => "0",
        1 => "1",
        2 => "2",
        3 => "3",
        4 => "4",
        5 => "5",
        6 => "6",
        7 => "7",
        8 => "8",
        _ => "9",
    };
    assert(r@ =~= seq![digit_byte(d as nat) as char]);
    r
}

/// Appends the decimal text of `n` to a string.
pub fn append_dec(out: &mut String, n: u128)
    ensures
        final(out)@ == old(out)@ + dec_chars(n as nat),
    decreases n,
{
    if n >= 10 {
        append_dec(out, n / 10);
    }
    out.append(digit_str(n % 10));
    assert(final(out)@ =~= old(out)@ + dec_chars(n as nat));
}

/// Appends the signed decimal text of `v` to a string.
pub fn append_signed_dec(out: &mut String, v: i32)
    ensures
        final(out)@ == old(out)@ + signed_dec_chars(v as int),
{
    if v < 0 {
        proof {
            reveal_strlit("-");
        }
        out.append("-");
        append_dec(out, (0 - (v as i64)) as u128);
        assert(final(out)@ =~= old(out)@ + signed_dec_chars(v as int));
    } else {
        append_dec(out, v as u128);
    }
}

/// The value of a digit run is at least that of any of its prefixes.
pub proof fn lemma_digits_value_prefix(s: Seq<u8>, k: int)
    requires
        0 <= k <= s.len(),
    ensures
        digits_value(s.subrange(0, k)) <= digits_value(s),
    decreases s.len() - k,
{
    if k < s.len() {
        lemma_digits_value_prefix(s, k + 1);
        assert(s.subrange(0, k + 1).drop_last() =~= s.subrange(0, k));
    } else {
        assert(s.subrange(0, k) =~= s);
    }
}

/// End of the run of digits that starts at `start`.
pub fn scan_digits(b: &[u8], start: usize) -> (end: usize)
    requires
        start <= b@.len(),
    ensures
        start <= end <= b@.len(),
        all_digits(b@.subrange(start as int, end as int)),
        end == b@.len() || !is_digit(b@[end as int]),
{
    let mut end = start;
    while end < b.len() && 48 <= b[end] && b[end] <= 57
        invariant
            start <= end <= b@.len(),
            all_digits(b@.subrange(start as int, end as int)),
        decreases b@.len() - end,
    {
        assert(b@.subrange(start as int, end + 1) =~= b@.subrange(start as int, end as int).push(
            b@[end as int],
        ));
        end = end + 1;
    }
    end
}

/// Value of the digits in `b[start..end]`, provided they are in their
/// shortest form and the value is at most `limit`.
pub fn canonical_value(b: &[u8], start: usize, end: usize, limit: u64) -> (r: Option<u64>)
    requires
        start <= end <= b@.len(),
        all_digits(b@.subrange(start as int, end as int)),
        limit <= 0xffff_ffff,
    ensures
        r is Some <==> canonical_digits(b@.subrange(start as int, end as int)) && digits_value(
            b@.subrange(start as int, end as int),
        ) <= limit,
        r matches Some(v) ==> v == digits_value(b@.subrange(start as int, end as int)),
{
    let ghost s = b@.subrange(start as int, end as int);
    if start == end || (end - start > 1 && b[start] == 48) {
        return None;
    }
    let mut acc: u64 = 0;
    let mut i = start;
    while i < end
        invariant
            start <= i <= end <= b@.len(),
            s == b@.subrange(start as int, end as int),
            all_digits(s),
            limit <= 0xffff_ffff,
            acc == digits_value(s.subrange(0, i - start)),
            acc <= limit,
        decreases end - i,
    {
        assert(s.subrange(0, i - start + 1).drop_last() =~= s.subrange(0, i - start));
        assert(is_digit(s[i - start]));
        acc = acc * 10 + (b[i] - 48) as u64;
        i = i + 1;
        if acc > limit {
            proof {
                lemma_digits_value_prefix(s, i - start);
            }
            return None;
        }
    }
    assert(s.subrange(0, i - start) =~= s);
    Some(acc)
}

} // verus!
