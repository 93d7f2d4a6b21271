use vstd::prelude::*;
use vstd::slice::{slice_subrange, slice_to_vec};

verus! {

pub const CR: u8 = 13;
pub const LF: u8 = 10;
pub const SP: u8 = 32;
pub const COLON: u8 = 58;

/// `k` is the first position of `t` in `s`.
pub open spec fn is_first_byte(s: Seq<u8>, t: u8, k: int) -> bool {
    0 <= k < s.len() && s[k] == t && forall|j: int| 0 <= j < k ==> s[j] != t
}

/// The first position of `t` in `s`, if `t` occurs.
pub open spec fn first_byte(s: Seq<u8>, t: u8) -> Option<int> {
    if exists|k: int| is_first_byte(s, t, k) {
        Some(choose|k: int| is_first_byte(s, t, k))
    } else {
        None
    }
}

/// `s` holds the two bytes `a b` at `k`.
pub open spec fn pair_at(s: Seq<u8>, a: u8, b: u8, k: int) -> bool {
    0 <= k && k + 1 < s.len() && s[k] == a && s[k + 1] == b
}

/// `k` is the first position of the pair `a b` in `s`.
pub open spec fn is_first_pair(s: Seq<u8>, a: u8, b: u8, k: int) -> bool {
    pair_at(s, a, b, k) && forall|j: int| 0 <= j < k ==> !pair_at(s, a, b, j)
}

/// The first position of the pair `a b` in `s`, if it occurs.
pub open spec fn first_pair(s: Seq<u8>, a: u8, b: u8) -> Option<int> {
    if exists|k: int| is_first_pair(s, a, b, k) {
        Some(choose|k: int| is_first_pair(s, a, b, k))
    } else {
        None
    }
}

/// The first position is the one that `first_byte` picks.
pub proof fn lemma_first_byte_unique(s: Seq<u8>, t: u8, k: int)
    requires
        is_first_byte(s, t, k),
    ensures
        first_byte(s, t) == Some(k),
{
    let c = choose|c: int| is_first_byte(s, t, c);
    assert(is_first_byte(s, t, c));
    if c < k {
        assert(s[c] != t);
    } else if k < c {
        assert(s[k] != t);
    }
}

/// The first position is the one that `first_pair` picks.
pub proof fn lemma_first_pair_unique(s: Seq<u8>, a: u8, b: u8, k: int)
    requires
        is_first_pair(s, a, b, k),
    ensures
        first_pair(s, a, b) == Some(k),
{
    let c = choose|c: int| is_first_pair(s, a, b, c);
    assert(is_first_pair(s, a, b, c));
    if c < k {
        assert(!pair_at(s, a, b, c));
    } else if k < c {
        assert(!pair_at(s, a, b, k));
    }
}

/// Position of the first `target` byte in `slice`.
pub fn find_until(slice: &[u8], target: u8) -> (r: Option<usize>)
    ensures
        match r {
            Some(k) => first_byte(slice@, target) == Some(k as int) && is_first_byte(slice@, target, k as int),
            None => first_byte(slice@, target) is None,
        },
{
    let mut i: usize = 0;
    while i < slice.len()
        invariant
            i <= slice@.len(),
            forall|j: int| 0 <= j < i ==> slice@[j] != target,
        decreases slice@.len() - i,
    {
        if slice[i] == target {
            proof {
                lemma_first_byte_unique(slice@, target, i as int);
            }
            return Some(i);
        }
        i = i + 1;
    }
    None
}

/// Position of the first pair of bytes `a b` in `s`.
pub fn find_pair(s: &[u8], a: u8, b: u8) -> (r: Option<usize>)
    ensures
        match r {
            Some(k) => first_pair(s@, a, b) == Some(k as int) && is_first_pair(s@, a, b, k as int),
            None => first_pair(s@, a, b) is None,
        },
{
    let mut i: usize = 0;
    while i < s.len() && s.len() - i >= 2
        invariant
            i <= s@.len(),
            forall|j: int| 0 <= j < i ==> !pair_at(s@, a, b, j),
        decreases s@.len() - i,
    {
        if s[i] == a && s[i + 1] == b {
            proof {
                lemma_first_pair_unique(s@, a, b, i as int);
            }
            return Some(i);
        }
        i = i + 1;
    }
    assert(forall|j: int| 0 <= j ==> !pair_at(s@, a, b, j));
    None
}

/// A copy of `s[i..j]`.
pub fn copy_range(s: &[u8], i: usize, j: usize) -> (r: Vec<u8>)
    requires
        i <= j <= s@.len(),
    ensures
        r@ == s@.subrange(i as int, j as int),
{
    slice_to_vec(slice_subrange(s, i, j))
}

/// Whether two byte strings are equal.
pub fn bytes_eq(a: &[u8], b: &[u8]) -> (r: bool)
    ensures
        r == (a@ == b@),
{
    if a.len() != b.len() {
        return false;
    }
    let mut i: usize = 0;
    while i < a.len()
        invariant
            a@.len() == b@.len(),
            i <= a@.len(),
            a@.subrange(0, i as int) == b@.subrange(0, i as int),
        decreases a@.len() - i,
    {
        if a[i] != b[i] {
            return false;
        }
        i = i + 1;
        assert(a@.subrange(0, i as int) == a@.subrange(0, i - 1 as int).push(a@[i - 1]));
        assert(b@.subrange(0, i as int) == b@.subrange(0, i - 1 as int).push(b@[i - 1]));
    }
    assert(a@ == a@.subrange(0, i as int));
    assert(b@ == b@.subrange(0, i as int));
    true
}

/// Value of a decimal digit byte.
pub open spec fn digit_value(b: u8) -> int {
    b as int - 48
}

/// `b` is a decimal digit.
pub open spec fn is_digit(b: u8) -> bool {
    48 <= b <= 57
}

/// The number that the digits of `s` denote, most significant first.
pub open spec fn digits_value(s: Seq<u8>) -> int
    decreases s.len(),
{
    if s.len() == 0 {
        0
    } else {
        digits_value(s.drop_last()) * 10 + digit_value(s.last())
    }
}

/// The digits of `s` after an optional leading `+`.
pub open spec fn unsigned_digits(s: Seq<u8>) -> Seq<u8> {
    if s.len() > 0 && s[0] == 43u8 {
        s.drop_first()
    } else {
        s
    }
}

/// The unsigned integer that `s` spells, as std's integer parsing reads it:
/// an optional `+`, then one or more decimal digits, with a value that fits.
pub open spec fn decimal_value(s: Seq<u8>) -> Option<int> {
    let d = unsigned_digits(s);
    if d.len() > 0 && (forall|i: int| 0 <= i < d.len() ==> is_digit(#[trigger] d[i]))
        && digits_value(d) <= usize::MAX {
        Some(digits_value(d))
    } else {
        None
    }
}

/// Digits never denote a negative number.
pub proof fn lemma_digits_value_nonneg(s: Seq<u8>)
    requires
        forall|i: int| 0 <= i < s.len() ==> is_digit(#[trigger] s[i]),
    ensures
        digits_value(s) >= 0,
    decreases s.len(),
{
    if s.len() > 0 {
        lemma_digits_value_nonneg(s.drop_last());
    }
}

/// A prefix of digits denotes no more than the whole.
pub proof fn lemma_digits_value_grows(s: Seq<u8>, i: int)
    requires
        0 <= i <= s.len(),
        forall|j: int| 0 <= j < s.len() ==> is_digit(#[trigger] s[j]),
    ensures
        digits_value(s.subrange(0, i)) <= digits_value(s),
    decreases s.len() - i,
{
    if i < s.len() {
        lemma_digits_value_grows(s, i + 1);
        let p = s.subrange(0, i + 1);
        assert(p.drop_last() =~= s.subrange(0, i));
        lemma_digits_value_nonneg(s.subrange(0, i));
    } else {
        assert(s.subrange(0, i) =~= s);
    }
}

/// A character that is not a digit spoils the number.
pub proof fn lemma_decimal_none_at(s: Seq<u8>, j: int)
    requires
        0 <= j < unsigned_digits(s).len(),
        !is_digit(unsigned_digits(s)[j]),
    ensures
        decimal_value(s) is None,
{
    let d = unsigned_digits(s);
    assert(!(forall|i: int| 0 <= i < d.len() ==> is_digit(#[trigger] d[i])));
}

/// A prefix already too large for `usize` spoils the number.
pub proof fn lemma_decimal_none_large(s: Seq<u8>, k: int)
    requires
        0 <= k <= unsigned_digits(s).len(),
        digits_value(unsigned_digits(s).subrange(0, k)) > usize::MAX,
    ensures
        decimal_value(s) is None,
{
    let d = unsigned_digits(s);
    if forall|i: int| 0 <= i < d.len() ==> is_digit(#[trigger] d[i]) {
        lemma_digits_value_grows(d, k);
    }
}

/// Reads an unsigned decimal integer, refusing anything else or an overflow.
pub fn parse_decimal(s: &[u8]) -> (r: Option<usize>)
    ensures
        match r {
            Some(n) => decimal_value(s@) == Some(n as int),
            None => decimal_value(s@) is None,
        },
{
    let start: usize = if s.len() > 0 && s[0] == 43u8 { 1 } else { 0 };
    let ghost d = unsigned_digits(s@);
    assert(d =~= s@.subrange(start as int, s@.len() as int));
    if start == s.len() {
        return None;
    }
    let mut i: usize = start;
    let mut acc: usize = 0;
    while i < s.len()
        invariant
            start <= i <= s@.len(),
            d == s@.subrange(start as int, s@.len() as int),
            d == unsigned_digits(s@),
            forall|j: int| 0 <= j < i - start ==> is_digit(#[trigger] d[j]),
            acc as int == digits_value(d.subrange(0, i - start)),
        decreases s@.len() - i,
    {
        let b = s[i];
        assert(d[i - start] == b);
        if b < 48u8 || b > 57u8 {
            proof {
                lemma_decimal_none_at(s@, i - start);
            }
            return None;
        }
        let ghost p = d.subrange(0, i + 1 - start);
        assert(p.drop_last() =~= d.subrange(0, i - start));
        assert(p.last() == b);
        proof {
            assert(digits_value(p) == acc * 10 + digit_value(b));
        }
        match acc.checked_mul(10) {
            None => {
                proof {
                    lemma_decimal_none_large(s@, i + 1 - start);
                }
                return None;
            },
            Some(m) => match m.checked_add((b - 48u8) as usize) {
                None => {
                    proof {
                        lemma_decimal_none_large(s@, i + 1 - start);
                    }
                    return None;
                },
                Some(v) => {
                    acc = v;
                },
            },
        }
        i = i + 1;
    }
    assert(d.subrange(0, i - start) =~= d);
    Some(acc)
}

/// Decimal text of `n`, most significant digit first, no leading zeros.
pub open spec fn decimal_text(n: nat) -> Seq<u8>
    decreases n,
{
    if n < 10 {
        seq![(48 + n) as u8]
    } else {
        decimal_text(n / 10).push((48 + n % 10) as u8)
    }
}

/// Appends the decimal text of `n` to `out`.
pub fn push_decimal(out: &mut Vec<u8>, n: usize)
    ensures
        final(out)@ == old(out)@ + decimal_text(n as nat),
    decreases n,
{
    let ghost start = out@;
    if n >= 10 {
        push_decimal(out, n / 10);
    }
    out.push((48 + n % 10) as u8);
    assert(out@ =~= start + decimal_text(n as nat));
}

/// Appends all of `b` to `out`.
pub fn push_all(out: &mut Vec<u8>, b: &[u8])
    ensures
        final(out)@ == old(out)@ + b@,
{
    out.extend_from_slice(b);
}

} // verus!
