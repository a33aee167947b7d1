//! Lexical scanning of header text: whitespace, decimal numbers and quoted
//! strings, each as a mathematical function on a byte sequence and a
//! position, with the executable scanner proved against it.

use vstd::prelude::*;

verus! {

/// The horizontal tab.
pub const TAB: u8 = 9;

/// The line feed.
pub const NEWLINE: u8 = 10;

/// The carriage return.
pub const CARRIAGE_RETURN: u8 = 13;

/// The space.
pub const SPACE: u8 = 32;

/// The double quote `"`.
pub const DOUBLE_QUOTE: u8 = 34;

/// The single quote `'`.
pub const QUOTE: u8 = 39;

/// The digit `0`.
pub const ZERO: u8 = 48;

/// The digit `9`.
pub const NINE: u8 = 57;

/// Whitespace: space, tab, line feed, carriage return.
pub open spec fn is_ws(b: u8) -> bool {
    b == SPACE || b == NEWLINE || b == TAB || b == CARRIAGE_RETURN
}

/// A decimal digit.
pub open spec fn is_digit(b: u8) -> bool {
    ZERO <= b <= NINE
}

/// A single or a double quote.
pub open spec fn is_quote(b: u8) -> bool {
    b == QUOTE || b == DOUBLE_QUOTE
}

/// `lit` stands in `s` at position `i`.
pub open spec fn has_at(s: Seq<u8>, i: int, lit: Seq<u8>) -> bool {
    0 <= i && i + lit.len() <= s.len() && s.subrange(i, i + lit.len()) == lit
}

/// Number of whitespace bytes of `s` from position `i` on.
pub open spec fn ws_run(s: Seq<u8>, i: int) -> nat
    decreases s.len() - i,
{
    if 0 <= i < s.len() && is_ws(s[i]) {
        1 + ws_run(s, i + 1)
    } else {
        0
    }
}

/// Number of decimal digits of `s` from position `i` on.
pub open spec fn digit_run(s: Seq<u8>, i: int) -> nat
    decreases s.len() - i,
{
    if 0 <= i < s.len() && is_digit(s[i]) {
        1 + digit_run(s, i + 1)
    } else {
        0
    }
}

/// Number of bytes of `s` from position `i` on that differ from `stop`.
pub open spec fn run_until(s: Seq<u8>, i: int, stop: u8) -> nat
    decreases s.len() - i,
{
    if 0 <= i < s.len() && s[i] != stop {
        1 + run_until(s, i + 1, stop)
    } else {
        0
    }
}

/// The number that a string of decimal digits denotes.
pub open spec fn decimal_value(d: Seq<u8>) -> nat
    decreases d.len(),
{
    if d.len() == 0 {
        0
    } else {
        decimal_value(d.drop_last()) * 10 + (d.last() - ZERO) as nat
    }
}

/// A number at position `i`: the longest run of digits there, which must not
/// be empty and must denote a value that fits in 64 bits. The result is the
/// value and the number of bytes read.
pub open spec fn parse_number(s: Seq<u8>, i: int) -> Option<(u64, nat)> {
    let n = digit_run(s, i);
    let v = decimal_value(s.subrange(i, i + n));
    if n > 0 && v <= u64::MAX {
        Some((v as u64, n))
    } else {
        None
    }
}

/// A quoted string at position `i`: an opening quote, the bytes up to the
/// next occurrence of the same quote, and that quote. No escapes. The result
/// is the content and the number of bytes read, quotes included.
pub open spec fn parse_quoted(s: Seq<u8>, i: int) -> Option<(Seq<u8>, nat)> {
    if 0 <= i < s.len() && is_quote(s[i]) {
        let n = run_until(s, i + 1, s[i]);
        if i + 1 + n < s.len() {
            Some((s.subrange(i + 1, i + 1 + n), n + 2))
        } else {
            None
        }
    } else {
        None
    }
}

/// A run of whitespace stays inside the text, holds whitespace only, and
/// ends before a byte that is none.
pub proof fn lemma_ws_run_bound(s: Seq<u8>, i: int)
    requires
        0 <= i <= s.len(),
    ensures
        i + ws_run(s, i) <= s.len(),
        forall|k: int| i <= k < i + ws_run(s, i) ==> is_ws(#[trigger] s[k]),
        i + ws_run(s, i) < s.len() ==> !is_ws(s[i + ws_run(s, i)]),
    decreases s.len() - i,
{
    if i < s.len() && is_ws(s[i]) {
        lemma_ws_run_bound(s, i + 1);
    }
}

/// A run of digits stays inside the text, holds digits only, and ends
/// before a byte that is none.
pub proof fn lemma_digit_run_bound(s: Seq<u8>, i: int)
    requires
        0 <= i <= s.len(),
    ensures
        i + digit_run(s, i) <= s.len(),
        forall|k: int| i <= k < i + digit_run(s, i) ==> is_digit(#[trigger] s[k]),
        i + digit_run(s, i) < s.len() ==> !is_digit(s[i + digit_run(s, i)]),
    decreases s.len() - i,
{
    if i < s.len() && is_digit(s[i]) {
        lemma_digit_run_bound(s, i + 1);
    }
}

/// A run up to `stop` stays inside the text, does not hold `stop`, and ends
/// before it.
pub proof fn lemma_run_until_bound(s: Seq<u8>, i: int, stop: u8)
    requires
        0 <= i <= s.len(),
    ensures
        i + run_until(s, i, stop) <= s.len(),
        forall|k: int| i <= k < i + run_until(s, i, stop) ==> #[trigger] s[k] != stop,
        i + run_until(s, i, stop) < s.len() ==> s[i + run_until(s, i, stop)] == stop,
    decreases s.len() - i,
{
    if i < s.len() && s[i] != stop {
        lemma_run_until_bound(s, i + 1, stop);
    }
}

/// A digit string denotes at least what any of its prefixes denotes.
pub proof fn lemma_decimal_value_prefix(d: Seq<u8>, k: int)
    requires
        0 <= k <= d.len(),
    ensures
        decimal_value(d.take(k)) <= decimal_value(d),
    decreases d.len() - k,
{
    if k < d.len() {
        lemma_decimal_value_prefix(d.drop_last(), k);
        assert(d.drop_last().take(k) =~= d.take(k));
    } else {
        assert(d.take(k) =~= d);
    }
}

/// Digits that end before a byte that is no digit, or with the text, are one
/// run.
pub proof fn lemma_digit_run_exact(s: Seq<u8>, a: int, b: int)
    requires
        0 <= a <= b <= s.len(),
        forall|k: int| a <= k < b ==> is_digit(#[trigger] s[k]),
        b < s.len() ==> !is_digit(s[b]),
    ensures
        digit_run(s, a) == b - a,
    decreases b - a,
{
    if a < b {
        lemma_digit_run_exact(s, a + 1, b);
    }
}

/// Bytes that differ from `stop` and end before `stop` are one run.
pub proof fn lemma_run_until_exact(s: Seq<u8>, a: int, b: int, stop: u8)
    requires
        0 <= a <= b < s.len(),
        forall|k: int| a <= k < b ==> #[trigger] s[k] != stop,
        s[b] == stop,
    ensures
        run_until(s, a, stop) == b - a,
    decreases b - a,
{
    if a < b {
        lemma_run_until_exact(s, a + 1, b, stop);
    }
}

/// Whitespace that ends before a byte that is none, or with the text, is
/// one run.
pub proof fn lemma_ws_run_exact(s: Seq<u8>, a: int, b: int)
    requires
        0 <= a <= b <= s.len(),
        forall|k: int| a <= k < b ==> is_ws(#[trigger] s[k]),
        b < s.len() ==> !is_ws(s[b]),
    ensures
        ws_run(s, a) == b - a,
    decreases b - a,
{
    if a < b {
        lemma_ws_run_exact(s, a + 1, b);
    }
}

/// A text stands at a position exactly when its two halves stand there one
/// after the other.
pub proof fn lemma_has_at_split(s: Seq<u8>, i: int, a: Seq<u8>, b: Seq<u8>)
    ensures
        has_at(s, i, a + b) <==> has_at(s, i, a) && has_at(s, i + a.len(), b),
{
    let ab = a + b;
    if has_at(s, i, ab) {
        let sub = s.subrange(i, i + ab.len());
        assert(s.subrange(i, i + a.len()) =~= a) by {
            assert forall|k: int| 0 <= k < a.len() implies s.subrange(i, i + a.len())[k]
                == a[k] by {
                assert(sub[k] == ab[k]);
            }
        }
        assert(s.subrange(i + a.len(), i + a.len() + b.len()) =~= b) by {
            assert forall|k: int| 0 <= k < b.len() implies s.subrange(
                i + a.len(),
                i + a.len() + b.len(),
            )[k] == b[k] by {
                assert(sub[a.len() + k] == ab[a.len() + k]);
            }
        }
    }
    if has_at(s, i, a) && has_at(s, i + a.len(), b) {
        let sa = s.subrange(i, i + a.len());
        let sb = s.subrange(i + a.len(), i + a.len() + b.len());
        assert(s.subrange(i, i + ab.len()) =~= ab) by {
            assert forall|k: int| 0 <= k < ab.len() implies s.subrange(i, i + ab.len())[k]
                == ab[k] by {
                if k < a.len() {
                    assert(sa[k] == a[k]);
                } else {
                    assert(sb[k - a.len()] == b[k - a.len()]);
                }
            }
        }
    }
}

/// The byte at offset `k` of a text that stands at `i`.
pub proof fn lemma_has_at_index(s: Seq<u8>, i: int, lit: Seq<u8>, k: int)
    requires
        has_at(s, i, lit),
        0 <= k < lit.len(),
    ensures
        0 <= i + k < s.len(),
        s[i + k] == lit[k],
{
    assert(s.subrange(i, i + lit.len())[k] == lit[k]);
}

/// Whether the byte is whitespace.
pub fn is_ws_byte(b: u8) -> (r: bool)
    ensures
        r == is_ws(b),
{
    b == SPACE || b == NEWLINE || b == TAB || b == CARRIAGE_RETURN
}

/// Whether the byte is a decimal digit.
pub fn is_digit_byte(b: u8) -> (r: bool)
    ensures
        r == is_digit(b),
{
    ZERO <= b && b <= NINE
}

/// Position of the first byte at or after `i` that is no whitespace.
pub fn skip_ws(s: &[u8], i: usize) -> (j: usize)
    requires
        i <= s.len(),
    ensures
        j == i + ws_run(s@, i as int),
        j <= s.len(),
{
    let mut j: usize = i;
    while j < s.len() && is_ws_byte(s[j])
        invariant
            i <= j <= s.len(),
            i + ws_run(s@, i as int) == j + ws_run(s@, j as int),
        decreases s.len() - j,
    {
        j += 1;
    }
    j
}

/// Whether `lit` stands in `s` at position `i`.
pub fn starts_with_at(s: &[u8], i: usize, lit: &[u8]) -> (r: bool)
    requires
        i <= s.len(),
    ensures
        r == has_at(s@, i as int, lit@),
{
    if lit.len() > s.len() - i {
        return false;
    }
    let mut k: usize = 0;
    while k < lit.len()
        invariant
            i + lit.len() <= s.len(),
            k <= lit.len(),
            forall|m: int| 0 <= m < k ==> s@[i + m] == lit@[m],
        decreases lit.len() - k,
    {
        if s[i + k] != lit[k] {
            proof {
                let sub = s@.subrange(i as int, i + lit.len());
                assert(sub[k as int] != lit@[k as int]);
            }
            return false;
        }
        k += 1;
    }
    proof {
        assert(s@.subrange(i as int, i + lit.len()) =~= lit@);
    }
    true
}

/// Whether the bytes of `s` from `start` up to `end` are those of `lit`.
pub fn range_equals(s: &[u8], start: usize, end: usize, lit: &[u8]) -> (r: bool)
    requires
        start <= end <= s.len(),
    ensures
        r == (s@.subrange(start as int, end as int) == lit@),
{
    if end - start != lit.len() {
        return false;
    }
    starts_with_at(s, start, lit)
}

/// Reads a number at position `i`; see [`parse_number`].
pub fn read_number(s: &[u8], i: usize) -> (r: Option<(u64, usize)>)
    requires
        i <= s.len(),
    ensures
        match parse_number(s@, i as int) {
            Some((v, n)) => r == Some((v, (i + n) as usize)) && i + n <= s.len(),
            None => r.is_none(),
        },
{
    let mut j: usize = i;
    let mut acc: u64 = 0;
    while j < s.len() && is_digit_byte(s[j])
        invariant
            i <= j <= s.len(),
            i + digit_run(s@, i as int) == j + digit_run(s@, j as int),
            acc == decimal_value(s@.subrange(i as int, j as int)),
        decreases s.len() - j,
    {
        let d: u64 = (s[j] - ZERO) as u64;
        proof {
            let next = s@.subrange(i as int, j + 1);
            assert(next.drop_last() =~= s@.subrange(i as int, j as int));
            assert(decimal_value(next) == acc * 10 + d);
            let n = digit_run(s@, i as int);
            lemma_digit_run_bound(s@, i as int);
            let whole = s@.subrange(i as int, i + n);
            lemma_decimal_value_prefix(whole, j + 1 - i);
            assert(whole.take(j + 1 - i) =~= next);
        }
        if acc > (u64::MAX - d) / 10 {
            return None;
        }
        acc = acc * 10 + d;
        j += 1;
    }
    if j == i {
        None
    } else {
        Some((acc, j))
    }
}

/// Reads a quoted string at position `i` and returns where its content
/// starts and ends and where the text goes on; see [`parse_quoted`].
pub fn read_quoted(s: &[u8], i: usize) -> (r: Option<(usize, usize, usize)>)
    requires
        i <= s.len(),
    ensures
        match parse_quoted(s@, i as int) {
            Some((content, n)) => r matches Some((start, end, next)) && start == i + 1
                && start <= end < next && next == i + n && next <= s.len()
                && content == s@.subrange(start as int, end as int),
            None => r.is_none(),
        },
{
    if i >= s.len() {
        return None;
    }
    let q: u8 = s[i];
    if !(q == QUOTE || q == DOUBLE_QUOTE) {
        return None;
    }
    let start: usize = i + 1;
    let mut j: usize = start;
    while j < s.len() && s[j] != q
        invariant
            start <= j <= s.len(),
            start + run_until(s@, start as int, q) == j + run_until(s@, j as int, q),
        decreases s.len() - j,
    {
        j += 1;
    }
    if j < s.len() {
        Some((start, j, j + 1))
    } else {
        None
    }
}

} // verus!
