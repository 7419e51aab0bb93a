//! Byte-level text splitting shared by the mesh reader: pieces between a
//! separator byte, whitespace-separated tokens, and unsigned decimals.
use vstd::prelude::*;

verus! {

/// The contents of each byte vector, in order.
pub open spec fn texts(v: Seq<Vec<u8>>) -> Seq<Seq<u8>> {
    v.map_values(|t: Vec<u8>| t@)
}

/// The pieces of `s` between occurrences of `sep`, where the piece being read
/// began at `start` and the scan stands at `i`.
pub open spec fn pieces_from(s: Seq<u8>, sep: u8, start: int, i: int) -> Seq<Seq<u8>>
    decreases s.len() - i,
{
    if i >= s.len() {
        seq![s.subrange(start, s.len() as int)]
    } else if s[i] == sep {
        seq![s.subrange(start, i)] + pieces_from(s, sep, i + 1, i + 1)
    } else {
        pieces_from(s, sep, start, i + 1)
    }
}

/// `s` cut at every `sep`: one more piece than there are separators, empty
/// pieces included.
pub open spec fn split_on(s: Seq<u8>, sep: u8) -> Seq<Seq<u8>> {
    pieces_from(s, sep, 0, 0)
}

/// Horizontal whitespace: space, tab, carriage return, vertical tab, form feed.
pub open spec fn is_blank(b: u8) -> bool {
    b == 32 || b == 9 || b == 13 || b == 11 || b == 12
}

/// The maximal runs of non-blank bytes of `s`, where the run being read began
/// at `start` (`start == i` when none is) and the scan stands at `i`.
pub open spec fn tokens_from(s: Seq<u8>, start: int, i: int) -> Seq<Seq<u8>>
    decreases s.len() - i,
{
    if i >= s.len() {
        if start < i {
            seq![s.subrange(start, i)]
        } else {
            seq![]
        }
    } else if is_blank(s[i]) {
        (if start < i {
            seq![s.subrange(start, i)]
        } else {
            seq![]
        }) + tokens_from(s, i + 1, i + 1)
    } else {
        tokens_from(s, start, i + 1)
    }
}

/// The whitespace-separated tokens of `s`, in order.
pub open spec fn tokens(s: Seq<u8>) -> Seq<Seq<u8>> {
    tokens_from(s, 0, 0)
}

pub proof fn lemma_texts_push(v: Seq<Vec<u8>>, t: Vec<u8>)
    ensures
        texts(v.push(t)) == texts(v).push(t@),
{
    assert(texts(v.push(t)) =~= texts(v).push(t@));
}

/// Cuts `s` at every occurrence of `sep`.
pub fn split_bytes(s: &[u8], sep: u8) -> (r: Vec<Vec<u8>>)
    ensures
        texts(r@) == split_on(s@, sep),
{
    let mut out: Vec<Vec<u8>> = Vec::new();
    let mut cur: Vec<u8> = Vec::new();
    let mut i: usize = 0;
    let ghost mut start: int = 0;
    while i < s.len()
        invariant
            0 <= start <= i <= s.len(),
            cur@ == s@.subrange(start, i as int),
            texts(out@) + pieces_from(s@, sep, start, i as int) == split_on(s@, sep),
        decreases s.len() - i,
    {
        if s[i] == sep {
            proof {
                lemma_texts_push(out@, cur);
                assert(texts(out@) + pieces_from(s@, sep, start, i as int) =~= texts(out@).push(cur@)
                    + pieces_from(s@, sep, i + 1, i + 1));
            }
            out.push(cur);
            cur = Vec::new();
            proof {
                start = i + 1;
            }
        } else {
            cur.push(s[i]);
            assert(cur@ =~= s@.subrange(start, i + 1));
        }
        i += 1;
    }
    proof {
        lemma_texts_push(out@, cur);
        assert(texts(out@) + pieces_from(s@, sep, start, i as int) =~= texts(out@).push(cur@));
    }
    out.push(cur);
    out
}

/// Whether `b` is horizontal whitespace (see `is_blank`).
pub fn blank(b: u8) -> (r: bool)
    ensures
        r == is_blank(b),
{
    b == 32 || b == 9 || b == 13 || b == 11 || b == 12
}

/// The whitespace-separated tokens of `s`.
pub fn split_tokens(s: &[u8]) -> (r: Vec<Vec<u8>>)
    ensures
        texts(r@) == tokens(s@),
{
    let mut out: Vec<Vec<u8>> = Vec::new();
    let mut cur: Vec<u8> = Vec::new();
    let mut i: usize = 0;
    let ghost mut start: int = 0;
    while i < s.len()
        invariant
            0 <= start <= i <= s.len(),
            cur@ == s@.subrange(start, i as int),
            texts(out@) + tokens_from(s@, start, i as int) == tokens(s@),
        decreases s.len() - i,
    {
        if blank(s[i]) {
            if cur.len() > 0 {
                proof {
                    lemma_texts_push(out@, cur);
                    assert(texts(out@) + tokens_from(s@, start, i as int) =~= texts(out@).push(cur@)
                        + tokens_from(s@, i + 1, i + 1));
                }
                out.push(cur);
                cur = Vec::new();
            } else {
                assert(texts(out@) + tokens_from(s@, start, i as int) =~= texts(out@)
                    + tokens_from(s@, i + 1, i + 1));
            }
            proof {
                start = i + 1;
            }
        } else {
            cur.push(s[i]);
            assert(cur@ =~= s@.subrange(start, i + 1));
        }
        i += 1;
    }
    if cur.len() > 0 {
        proof {
            lemma_texts_push(out@, cur);
            assert(texts(out@) + tokens_from(s@, start, i as int) =~= texts(out@).push(cur@));
        }
        out.push(cur);
    } else {
        assert(texts(out@) + tokens_from(s@, start, i as int) =~= texts(out@));
    }
    out
}

/// An ASCII decimal digit.
pub open spec fn is_digit(b: u8) -> bool {
    48 <= b <= 57
}

/// A non-empty run of ASCII decimal digits.
pub open spec fn all_digits(s: Seq<u8>) -> bool {
    s.len() > 0 && forall|i: int| 0 <= i < s.len() ==> is_digit(#[trigger] s[i])
}

/// The value of `s` read as an unsigned decimal numeral.
pub open spec fn decimal(s: Seq<u8>) -> nat
    decreases s.len(),
{
    if s.len() == 0 {
        0
    } else {
        10 * decimal(s.drop_last()) + (s.last() - 48) as nat
    }
}

proof fn lemma_decimal_prefix_monotone(s: Seq<u8>, j: int, k: int)
    requires
        0 <= j <= k <= s.len(),
        forall|i: int| 0 <= i < s.len() ==> is_digit(#[trigger] s[i]),
    ensures
        decimal(s.take(j)) <= decimal(s.take(k)),
    decreases k - j,
{
    if j < k {
        lemma_decimal_prefix_monotone(s, j, k - 1);
        assert(s.take(k).drop_last() =~= s.take(k - 1));
    }
}

/// Whether `s` is a non-empty run of decimal digits.
pub fn digits_only(s: &[u8]) -> (r: bool)
    ensures
        r == all_digits(s@),
{
    if s.len() == 0 {
        return false;
    }
    let mut i: usize = 0;
    while i < s.len()
        invariant
            0 <= i <= s.len(),
            forall|k: int| 0 <= k < i ==> is_digit(#[trigger] s@[k]),
        decreases s.len() - i,
    {
        if s[i] < 48 || s[i] > 57 {
            return false;
        }
        i += 1;
    }
    true
}

/// The decimal value of the digit run `s` when it is at most `cap`; `None`
/// when it exceeds `cap`.
pub fn decimal_at_most(s: &[u8], cap: usize) -> (r: Option<usize>)
    requires
        all_digits(s@),
    ensures
        decimal(s@) <= cap ==> r == Some(decimal(s@) as usize),
        decimal(s@) > cap ==> r is None,
{
    let mut acc: usize = 0;
    let mut i: usize = 0;
    assert(s@.take(0) =~= Seq::<u8>::empty());
    while i < s.len()
        invariant
            all_digits(s@),
            0 <= i <= s.len(),
            acc == decimal(s@.take(i as int)),
            acc <= cap,
        decreases s.len() - i,
    {
        assert(is_digit(s@[i as int]));
        let next: u128 = acc as u128 * 10 + (s[i] - 48) as u128;
        assert(s@.take(i + 1).drop_last() =~= s@.take(i as int));
        assert(next == decimal(s@.take(i + 1)));
        if next > cap as u128 {
            proof {
                lemma_decimal_prefix_monotone(s@, i + 1, s@.len() as int);
                assert(s@.take(s@.len() as int) =~= s@);
            }
            return None;
        }
        acc = next as usize;
        i += 1;
    }
    assert(s@.take(s@.len() as int) =~= s@);
    Some(acc)
}

} // verus!
