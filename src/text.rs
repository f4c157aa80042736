//! Reading numbers and fields out of ASCII text.

use vstd::prelude::*;

verus! {

/// Whether a byte is an ASCII decimal digit.
pub open spec fn is_digit(b: u8) -> bool {
    48 <= b <= 57
}

/// Whether every byte of `s` is a decimal digit.
pub open spec fn all_digits(s: Seq<u8>) -> bool {
    forall|i: int| 0 <= i < s.len() ==> is_digit(#[trigger] s[i])
}

/// The number that a run of decimal digits writes.
pub open spec fn value_of(s: Seq<u8>) -> nat
    decreases s.len(),
{
    if s.len() == 0 {
        0
    } else {
        value_of(s.drop_last()) * 10 + (s.last() - 48) as nat
    }
}

/// The number that an optionally signed run of decimal digits writes, if
/// there is at least one digit.
pub open spec fn signed_value_of(s: Seq<u8>) -> Option<int> {
    if s.len() > 0 && (s[0] == 43 || s[0] == 45) {
        let d = s.drop_first();
        if d.len() > 0 && all_digits(d) {
            Some(if s[0] == 45 { -value_of(d) } else { value_of(d) as int })
        } else {
            None
        }
    } else if s.len() > 0 && all_digits(s) {
        Some(value_of(s) as int)
    } else {
        None
    }
}

/// Reads a nonempty run of decimal digits; `None` for any other text or a
/// number beyond `u64`.
pub fn parse_unsigned(s: &[u8]) -> (r: Option<u64>)
    ensures
        r is Some <==> s@.len() > 0 && all_digits(s@) && value_of(s@) <= u64::MAX,
        r is Some ==> r->Some_0 == value_of(s@),
{
    if s.len() == 0 {
        return None;
    }
    let mut v: u64 = 0;
    let mut i: usize = 0;
    while i < s.len()
        invariant
            i <= s@.len(),
            all_digits(s@.subrange(0, i as int)),
            v == value_of(s@.subrange(0, i as int)),
        decreases s@.len() - i,
    {
        let b = s[i];
        proof {
            assert(s@.subrange(0, i + 1).drop_last() =~= s@.subrange(0, i as int));
        }
        if b < 48 || b > 57 {
            assert(!all_digits(s@)) by {
                assert(!is_digit(s@[i as int]));
            }
            return None;
        }
        let d = (b - 48) as u64;
        if v > (u64::MAX - d) / 10 {
            proof {
                lemma_value_grows(s@, i as int + 1);
            }
            return None;
        }
        v = v * 10 + d;
        i = i + 1;
    }
    proof {
        assert(s@.subrange(0, i as int) =~= s@);
    }
    Some(v)
}

/// A prefix's value never exceeds the whole run's.
pub proof fn lemma_value_grows(s: Seq<u8>, k: int)
    requires
        0 <= k <= s.len(),
    ensures
        value_of(s.subrange(0, k)) <= value_of(s),
    decreases s.len() - k,
{
    if k < s.len() {
        lemma_value_grows(s, k + 1);
        assert(s.subrange(0, k + 1).drop_last() =~= s.subrange(0, k));
    } else {
        assert(s.subrange(0, k) =~= s);
    }
}

/// Reads an integer written with an optional `+` or `-` sign; `None` for
/// any other text or a number beyond `i64`.
pub fn parse_signed(s: &[u8]) -> (r: Option<i64>)
    ensures
        r is Some <==> signed_value_of(s@) is Some && i64::MIN <= signed_value_of(s@)->Some_0 <= i64::MAX,
        r is Some ==> r->Some_0 == signed_value_of(s@)->Some_0,
{
    if s.len() == 0 {
        return None;
    }
    let negative = s[0] == 45;
    let start: usize = if s[0] == 43 || s[0] == 45 { 1 } else { 0 };
    let digits = slice_from(s, start);
    proof {
        if start == 1 {
            assert(digits@ =~= s@.drop_first());
        } else {
            assert(digits@ =~= s@);
        }
    }
    if start == 1 && digits.len() == 0 {
        return None;
    }
    match parse_unsigned(digits.as_slice()) {
        None => None,
        Some(v) => {
            if negative {
                if v > 9223372036854775808 {
                    None
                } else if v == 9223372036854775808 {
                    Some(i64::MIN)
                } else {
                    Some(-(v as i64))
                }
            } else if v > i64::MAX as u64 {
                None
            } else {
                Some(v as i64)
            }
        },
    }
}

/// The bytes of `s` from position `start` on.
pub fn slice_from(s: &[u8], start: usize) -> (r: Vec<u8>)
    ensures
        start <= s@.len() ==> r@ == s@.subrange(start as int, s@.len() as int),
        start > s@.len() ==> r@.len() == 0,
{
    slice_range(s, start, s.len())
}

/// The bytes of `s` from position `start` up to `end`, not included.
pub fn slice_range(s: &[u8], start: usize, end: usize) -> (r: Vec<u8>)
    ensures
        start <= end <= s@.len() ==> r@ == s@.subrange(start as int, end as int),
        !(start <= end <= s@.len()) ==> r@.len() == 0,
{
    let mut r: Vec<u8> = Vec::new();
    if start > end || end > s.len() {
        return r;
    }
    let mut i = start;
    while i < end
        invariant
            start <= i <= end <= s@.len(),
            r@ == s@.subrange(start as int, i as int),
        decreases end - i,
    {
        r.push(s[i]);
        proof {
            assert(s@.subrange(start as int, i + 1) =~= s@.subrange(start as int, i as int).push(s@[i as int]));
        }
        i = i + 1;
    }
    r
}

/// The pieces of `s` between the separator bytes, from left to right: one
/// more piece than there are separators.
pub open spec fn pieces_of(s: Seq<u8>, sep: u8) -> Seq<Seq<u8>>
    decreases s.len(),
{
    if s.len() == 0 {
        seq![seq![]]
    } else {
        let p = pieces_of(s.drop_last(), sep);
        if s.last() == sep {
            p.push(seq![])
        } else {
            p.update(p.len() - 1, p.last().push(s.last()))
        }
    }
}

/// There is always at least one piece.
pub proof fn lemma_pieces_nonempty(s: Seq<u8>, sep: u8)
    ensures
        pieces_of(s, sep).len() >= 1,
    decreases s.len(),
{
    if s.len() > 0 {
        lemma_pieces_nonempty(s.drop_last(), sep);
    }
}

/// Splits `s` at every `sep` byte.
pub fn split(s: &[u8], sep: u8) -> (r: Vec<Vec<u8>>)
    ensures
        r@.len() == pieces_of(s@, sep).len(),
        forall|k: int| 0 <= k < r@.len() ==> #[trigger] r@[k]@ == pieces_of(s@, sep)[k],
{
    let mut done: Vec<Vec<u8>> = Vec::new();
    let mut current: Vec<u8> = Vec::new();
    let mut i: usize = 0;
    while i < s.len()
        invariant
            i <= s@.len(),
            pieces_of(s@.subrange(0, i as int), sep).len() == done@.len() + 1,
            forall|k: int| 0 <= k < done@.len() ==> #[trigger] done@[k]@ == pieces_of(s@.subrange(0, i as int), sep)[k],
            current@ == pieces_of(s@.subrange(0, i as int), sep).last(),
        decreases s@.len() - i,
    {
        let b = s[i];
        let ghost prev = s@.subrange(0, i as int);
        proof {
            assert(s@.subrange(0, i + 1).drop_last() =~= prev);
            lemma_pieces_nonempty(prev, sep);
        }
        if b == sep {
            let finished = current;
            done.push(finished);
            current = Vec::new();
            proof {
                assert(current@ =~= seq![]);
            }
        } else {
            current.push(b);
        }
        i = i + 1;
    }
    proof {
        assert(s@.subrange(0, i as int) =~= s@);
    }
    done.push(current);
    done
}

/// Whether a byte is a space, a tab or a line break.
pub open spec fn is_blank(b: u8) -> bool {
    b == 32 || b == 9 || b == 10 || b == 13
}

/// The words of `s`: its maximal runs of bytes that are not blank.
pub fn words(s: &[u8]) -> (r: Vec<Vec<u8>>)
    ensures
        forall|k: int| 0 <= k < r@.len() ==> #[trigger] r@[k]@.len() > 0,
        forall|k: int, j: int| 0 <= k < r@.len() && 0 <= j < r@[k]@.len() ==> !is_blank(#[trigger] r@[k]@[j]),
{
    let mut done: Vec<Vec<u8>> = Vec::new();
    let mut current: Vec<u8> = Vec::new();
    let mut i: usize = 0;
    while i < s.len()
        invariant
            i <= s@.len(),
            forall|k: int| 0 <= k < done@.len() ==> #[trigger] done@[k]@.len() > 0,
            forall|k: int, j: int| 0 <= k < done@.len() && 0 <= j < done@[k]@.len() ==> !is_blank(#[trigger] done@[k]@[j]),
            forall|j: int| 0 <= j < current@.len() ==> !is_blank(#[trigger] current@[j]),
        decreases s@.len() - i,
    {
        let b = s[i];
        if b == 32 || b == 9 || b == 10 || b == 13 {
            if current.len() > 0 {
                let finished = current;
                done.push(finished);
                current = Vec::new();
            }
        } else {
            current.push(b);
        }
        i = i + 1;
    }
    if current.len() > 0 {
        done.push(current);
    }
    done
}

/// Whether two byte strings are equal.
pub fn same_bytes(a: &[u8], b: &[u8]) -> (r: bool)
    ensures
        r == (a@ == b@),
{
    if a.len() != b.len() {
        return false;
    }
    let mut i: usize = 0;
    while i < a.len()
        invariant
            a@.len() == b@.len(),
            i <= a@.len(),
            forall|j: int| 0 <= j < i ==> a@[j] == b@[j],
        decreases a@.len() - i,
    {
        if a[i] != b[i] {
            return false;
        }
        i = i + 1;
    }
    assert(a@ =~= b@);
    true
}

} // verus!
