//! Whitespace behind a header text changes nothing of what the text denotes,
//! however much of it there is.

use vstd::prelude::*;
use crate::codec::{decoding, file_of, lemma_decoding_file, MAX_HEADER_LEN};
use crate::header::{
    false_word, lemma_parse_items_end, no_fields, parse_entries, parse_header, parse_items,
    parse_value, record, true_word, HeaderFields, CLOSE_BRACE, CLOSE_PAREN, COMMA, OPEN_PAREN,
};
use crate::scan::{
    digit_run, has_at, is_digit, is_ws, lemma_digit_run_bound, lemma_run_until_bound,
    lemma_ws_run_bound, parse_number, parse_quoted, run_until, ws_run,
};

verus! {

/// Every byte is whitespace.
pub open spec fn all_ws(pad: Seq<u8>) -> bool {
    forall|k: int| 0 <= k < pad.len() ==> is_ws(#[trigger] pad[k])
}

/// A run of whitespace that ends inside the text is not changed by what is
/// appended; one that reaches the end of the text goes on through the
/// appended whitespace.
pub proof fn lemma_ws_run_append(s: Seq<u8>, pad: Seq<u8>, i: int)
    requires
        all_ws(pad),
        0 <= i <= s.len(),
    ensures
        i + ws_run(s, i) < s.len() ==> ws_run(s + pad, i) == ws_run(s, i),
        i + ws_run(s, i) == s.len() ==> ws_run(s + pad, i) == ws_run(s, i) + pad.len(),
    decreases s.len() - i,
{
    let t = s + pad;
    lemma_ws_run_bound(s, i);
    if i < s.len() {
        assert(t[i] == s[i]);
        if is_ws(s[i]) {
            lemma_ws_run_append(s, pad, i + 1);
        }
    } else {
        assert forall|k: int| i <= k < t.len() implies is_ws(#[trigger] t[k]) by {
            assert(t[k] == pad[k - s.len()]);
        }
        crate::scan::lemma_ws_run_exact(t, i, t.len() as int);
    }
}

/// Appended whitespace adds no digit to a run of digits.
pub proof fn lemma_digit_run_append(s: Seq<u8>, pad: Seq<u8>, i: int)
    requires
        all_ws(pad),
        0 <= i <= s.len(),
    ensures
        digit_run(s + pad, i) == digit_run(s, i),
    decreases s.len() - i,
{
    let t = s + pad;
    if i < s.len() {
        assert(t[i] == s[i]);
        if is_digit(s[i]) {
            lemma_digit_run_append(s, pad, i + 1);
        }
    } else if pad.len() > 0 {
        assert(t[i] == pad[0]);
    }
}

/// A quoted string that is closed inside the text is not changed by what is
/// appended.
pub proof fn lemma_run_until_append(s: Seq<u8>, pad: Seq<u8>, i: int, stop: u8)
    requires
        0 <= i <= s.len(),
        i + run_until(s, i, stop) < s.len(),
    ensures
        run_until(s + pad, i, stop) == run_until(s, i, stop),
    decreases s.len() - i,
{
    let t = s + pad;
    assert(t[i] == s[i]);
    if s[i] != stop {
        lemma_run_until_append(s, pad, i + 1, stop);
    }
}

/// A number reads the same with whitespace appended to the text.
pub proof fn lemma_parse_number_append(s: Seq<u8>, pad: Seq<u8>, i: int)
    requires
        all_ws(pad),
        0 <= i <= s.len(),
    ensures
        parse_number(s + pad, i) == parse_number(s, i),
{
    lemma_digit_run_append(s, pad, i);
    lemma_digit_run_bound(s, i);
    let n = digit_run(s, i);
    assert((s + pad).subrange(i, i + n) =~= s.subrange(i, i + n));
}

/// A quoted string reads the same with anything appended to the text.
pub proof fn lemma_parse_quoted_append(s: Seq<u8>, pad: Seq<u8>, i: int)
    requires
        parse_quoted(s, i) is Some,
    ensures
        parse_quoted(s + pad, i) == parse_quoted(s, i),
{
    let t = s + pad;
    assert(t[i] == s[i]);
    let n = run_until(s, i + 1, s[i]);
    lemma_run_until_append(s, pad, i + 1, s[i]);
    assert(t.subrange(i + 1, i + 1 + n) =~= s.subrange(i + 1, i + 1 + n));
}

/// A word without whitespace stands in the padded text where it stands in
/// the text, and nowhere else.
pub proof fn lemma_has_at_append(s: Seq<u8>, pad: Seq<u8>, i: int, word: Seq<u8>)
    requires
        all_ws(pad),
        0 <= i <= s.len(),
        forall|k: int| 0 <= k < word.len() ==> !is_ws(#[trigger] word[k]),
    ensures
        has_at(s + pad, i, word) == has_at(s, i, word),
{
    let t = s + pad;
    if has_at(t, i, word) {
        let sub = t.subrange(i, i + word.len());
        if i + word.len() > s.len() {
            let k = s.len() - i;
            assert(sub[k] == word[k]);
            assert(t[s.len() as int] == pad[0]);
        }
        assert(s.subrange(i, i + word.len()) =~= sub);
    }
    if has_at(s, i, word) {
        assert(t.subrange(i, i + word.len()) =~= s.subrange(i, i + word.len()));
    }
}

/// The items of a tuple read the same with whitespace appended to the
/// text.
pub proof fn lemma_parse_items_append(s: Seq<u8>, pad: Seq<u8>, i: int, acc: Seq<u64>)
    requires
        all_ws(pad),
        parse_items(s, i, acc) is Some,
    ensures
        parse_items(s + pad, i, acc) == parse_items(s, i, acc),
    decreases s.len() - i,
{
    let t = s + pad;
    assert(t[i] == s[i]);
    if s[i] != CLOSE_PAREN {
        lemma_parse_number_append(s, pad, i);
        let (v, n) = parse_number(s, i).unwrap();
        lemma_digit_run_bound(s, i);
        lemma_ws_run_bound(s, i + n);
        lemma_ws_run_append(s, pad, i + n);
        let k = i + n + ws_run(s, i + n);
        assert(t[k] == s[k]);
        if s[k] == COMMA {
            lemma_ws_run_bound(s, k + 1);
            lemma_ws_run_append(s, pad, k + 1);
            lemma_parse_items_append(s, pad, k + 1 + ws_run(s, k + 1), acc.push(v));
        }
    }
}

/// A value reads the same with whitespace appended to the text.
pub proof fn lemma_parse_value_append(s: Seq<u8>, pad: Seq<u8>, i: int)
    requires
        all_ws(pad),
        0 <= i <= s.len(),
        parse_value(s, i) is Some,
    ensures
        parse_value(s + pad, i) == parse_value(s, i),
{
    let t = s + pad;
    lemma_has_at_append(s, pad, i, true_word());
    lemma_has_at_append(s, pad, i, false_word());
    if !has_at(s, i, true_word()) && !has_at(s, i, false_word()) {
        if i < s.len() {
            assert(t[i] == s[i]);
            if s[i] == OPEN_PAREN {
                lemma_ws_run_bound(s, i + 1);
                lemma_ws_run_append(s, pad, i + 1);
                lemma_parse_items_append(s, pad, i + 1 + ws_run(s, i + 1), Seq::empty());
            } else {
                lemma_parse_quoted_append(s, pad, i);
            }
        }
    }
}

/// The value parser never steps back.
pub proof fn lemma_parse_value_end(s: Seq<u8>, i: int)
    requires
        0 <= i <= s.len(),
    ensures
        parse_value(s, i) matches Some((_, n)) ==> i + n <= s.len(),
{
    if !has_at(s, i, true_word()) && !has_at(s, i, false_word()) && i < s.len() {
        if s[i] == OPEN_PAREN {
            lemma_ws_run_bound(s, i + 1);
            lemma_parse_items_end(s, i + 1 + ws_run(s, i + 1), Seq::empty());
        } else if parse_quoted(s, i) is Some {
            lemma_run_until_bound(s, i + 1, s[i]);
        }
    }
}

/// The entries of a dictionary read the same with whitespace appended to
/// the text, and end inside the text.
pub proof fn lemma_parse_entries_append(s: Seq<u8>, pad: Seq<u8>, i: int, f: HeaderFields)
    requires
        all_ws(pad),
        parse_entries(s, i, f) is Some,
    ensures
        parse_entries(s + pad, i, f) == parse_entries(s, i, f),
        parse_entries(s, i, f) matches Some((_, end)) && i < end <= s.len(),
    decreases s.len() - i,
{
    let t = s + pad;
    assert(t[i] == s[i]);
    if s[i] != CLOSE_BRACE {
        lemma_parse_quoted_append(s, pad, i);
        let (key, n) = parse_quoted(s, i).unwrap();
        lemma_run_until_bound(s, i + 1, s[i]);
        lemma_ws_run_bound(s, i + n);
        lemma_ws_run_append(s, pad, i + n);
        let c = i + n + ws_run(s, i + n);
        assert(t[c] == s[c]);
        lemma_ws_run_bound(s, c + 1);
        lemma_ws_run_append(s, pad, c + 1);
        let v = c + 1 + ws_run(s, c + 1);
        lemma_parse_value_end(s, v);
        lemma_parse_value_append(s, pad, v);
        let (value, m) = parse_value(s, v).unwrap();
        let g = record(f, key, value).unwrap();
        lemma_ws_run_bound(s, v + m);
        lemma_ws_run_append(s, pad, v + m);
        let k = v + m + ws_run(s, v + m);
        assert(t[k] == s[k]);
        if s[k] == COMMA {
            lemma_ws_run_bound(s, k + 1);
            lemma_ws_run_append(s, pad, k + 1);
            lemma_parse_entries_append(s, pad, k + 1 + ws_run(s, k + 1), g);
        }
    }
}

/// A header text that denotes fields denotes the same fields with any
/// amount of whitespace behind it.
pub proof fn lemma_trailing_whitespace(h: Seq<u8>, pad: Seq<u8>)
    requires
        all_ws(pad),
        parse_header(h) is Some,
    ensures
        parse_header(h + pad) == parse_header(h),
{
    let t = h + pad;
    lemma_ws_run_bound(h, 0);
    lemma_ws_run_append(h, pad, 0);
    let a = ws_run(h, 0) as int;
    assert(t[a] == h[a]);
    lemma_ws_run_bound(h, a + 1);
    lemma_ws_run_append(h, pad, a + 1);
    let b = a + 1 + ws_run(h, a + 1);
    lemma_parse_entries_append(h, pad, b, no_fields());
    let (f, end) = parse_entries(h, b, no_fields()).unwrap();
    lemma_ws_run_append(h, pad, end);
}

/// A file that decodes still decodes, and to the same artifact, with any
/// amount of whitespace added behind its header text, as long as the header
/// fits its length field.
pub proof fn lemma_padded_file(header: Seq<u8>, pad: Seq<u8>, payload: Seq<u8>)
    requires
        all_ws(pad),
        header.len() + pad.len() <= MAX_HEADER_LEN,
        decoding(file_of(header, payload)) is Ok,
    ensures
        decoding(file_of(header + pad, payload)) == decoding(file_of(header, payload)),
{
    lemma_decoding_file(header, payload);
    lemma_decoding_file(header + pad, payload);
    lemma_trailing_whitespace(header, pad);
}

} // verus!
