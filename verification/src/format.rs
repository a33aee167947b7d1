//! The header text that this library writes for a shape, and the proof that
//! reading it gives the shape back.

use vstd::prelude::*;
use crate::header::{
    descr_key, false_word, float32_descr, no_fields, order_key, parse_entries, parse_header,
    parse_items, parse_tuple, parse_value, record, shape_key, HeaderFields, HeaderValue,
    CLOSE_BRACE, CLOSE_PAREN, COLON, COMMA, OPEN_BRACE, OPEN_PAREN,
};
use crate::scan::{
    decimal_value, has_at, is_digit, is_ws, lemma_digit_run_exact, lemma_has_at_index,
    lemma_has_at_split, lemma_run_until_exact, lemma_ws_run_exact, parse_number, parse_quoted,
    ws_run, NEWLINE, QUOTE, SPACE, ZERO,
};

verus! {

/// The decimal digits of `n`, most significant first, without leading zeros.
pub open spec fn digits(n: nat) -> Seq<u8>
    decreases n,
{
    if n < 10 {
        seq![(ZERO + n) as u8]
    } else {
        digits(n / 10).push((ZERO + n % 10) as u8)
    }
}

/// `text` between single quotes.
pub open spec fn quoted(text: Seq<u8>) -> Seq<u8> {
    seq![QUOTE] + text + seq![QUOTE]
}

/// The items of a tuple after the first, each behind a comma and a space.
pub open spec fn rest_text(rest: Seq<u64>) -> Seq<u8>
    decreases rest.len(),
{
    if rest.len() == 0 {
        Seq::empty()
    } else {
        seq![COMMA, SPACE] + digits(rest[0] as nat) + rest_text(rest.skip(1))
    }
}

/// What stands between the parentheses of a shape tuple: nothing for no
/// dimension, `d,` for one, `d0, d1, ..` for more.
pub open spec fn items_text(shape: Seq<u64>) -> Seq<u8> {
    if shape.len() == 0 {
        Seq::empty()
    } else if shape.len() == 1 {
        digits(shape[0] as nat).push(COMMA)
    } else {
        digits(shape[0] as nat) + rest_text(shape.skip(1))
    }
}

/// A shape as a tuple.
pub open spec fn tuple_text(shape: Seq<u64>) -> Seq<u8> {
    seq![OPEN_PAREN] + items_text(shape) + seq![CLOSE_PAREN]
}

/// `{'descr': '<f4', `
pub open spec fn descr_entry() -> Seq<u8> {
    seq![OPEN_BRACE] + quoted(descr_key()) + seq![COLON, SPACE] + quoted(float32_descr())
        + seq![COMMA, SPACE]
}

/// `'fortran_order': False, `
pub open spec fn order_entry() -> Seq<u8> {
    quoted(order_key()) + seq![COLON, SPACE] + false_word() + seq![COMMA, SPACE]
}

/// `'shape': `
pub open spec fn shape_entry_head() -> Seq<u8> {
    quoted(shape_key()) + seq![COLON, SPACE]
}

/// `, }`
pub open spec fn dict_tail() -> Seq<u8> {
    seq![COMMA, SPACE, CLOSE_BRACE]
}

/// `'shape': (..), }`
pub open spec fn shape_entry(shape: Seq<u64>) -> Seq<u8> {
    shape_entry_head() + tuple_text(shape) + dict_tail()
}

/// The dictionary for a shape:
/// `{'descr': '<f4', 'fortran_order': False, 'shape': (..), }`.
pub open spec fn header_body(shape: Seq<u64>) -> Seq<u8> {
    descr_entry() + (order_entry() + shape_entry(shape))
}

/// `n` spaces.
pub open spec fn spaces(n: nat) -> Seq<u8> {
    Seq::new(n, |k: int| SPACE)
}

/// The dictionary for a shape, `pad` spaces and a line end.
pub open spec fn header_text(shape: Seq<u64>, pad: nat) -> Seq<u8> {
    header_body(shape) + (spaces(pad) + seq![NEWLINE])
}

/// The fields that the header text of a shape declares.
pub open spec fn fields_of(shape: Seq<u64>) -> HeaderFields {
    HeaderFields { descr: Some(float32_descr()), fortran_order: Some(false), shape: Some(shape) }
}

/// The digits of a number are digits, at least one of them, and denote the
/// number.
pub proof fn lemma_digits(n: nat)
    ensures
        digits(n).len() >= 1,
        forall|k: int| 0 <= k < digits(n).len() ==> is_digit(#[trigger] digits(n)[k]),
        decimal_value(digits(n)) == n,
    decreases n,
{
    if n < 10 {
        let d = digits(n);
        assert(d.drop_last() =~= Seq::<u8>::empty());
        assert(decimal_value(d.drop_last()) == 0);
    } else {
        lemma_digits(n / 10);
        let d = digits(n);
        assert(d.drop_last() =~= digits(n / 10));
    }
}

/// The digits of `v`, followed by a byte that is no digit, read as `v`.
pub proof fn lemma_parse_digits(s: Seq<u8>, i: int, v: u64)
    requires
        has_at(s, i, digits(v as nat)),
        i + digits(v as nat).len() < s.len() ==> !is_digit(s[i + digits(v as nat).len()]),
    ensures
        parse_number(s, i) == Some((v, digits(v as nat).len())),
{
    let d = digits(v as nat);
    lemma_digits(v as nat);
    assert forall|k: int| i <= k < i + d.len() implies is_digit(#[trigger] s[k]) by {
        assert(s[k] == s.subrange(i, i + d.len())[k - i]);
    }
    lemma_digit_run_exact(s, i, i + d.len());
}

/// A text without quotes between two quotes reads as that text.
pub proof fn lemma_parse_quoted(s: Seq<u8>, i: int, text: Seq<u8>)
    requires
        has_at(s, i, quoted(text)),
        forall|k: int| 0 <= k < text.len() ==> #[trigger] text[k] != QUOTE,
    ensures
        parse_quoted(s, i) == Some((text, text.len() + 2)),
{
    let q = quoted(text);
    let sub = s.subrange(i, i + q.len());
    assert(q.len() == text.len() + 2);
    assert(s[i] == sub[0]);
    assert(s[i + text.len() + 1] == sub[text.len() as int + 1]);
    assert forall|k: int| i + 1 <= k < i + 1 + text.len() implies #[trigger] s[k] != QUOTE by {
        assert(s[k] == sub[k - i]);
        assert(sub[k - i] == text[k - i - 1]);
    }
    lemma_run_until_exact(s, i + 1, i + 1 + text.len(), QUOTE);
    assert(s.subrange(i + 1, i + 1 + text.len()) =~= text) by {
        assert forall|k: int| 0 <= k < text.len() implies s.subrange(i + 1, i + 1 + text.len())[k]
            == text[k] by {
            assert(s[i + 1 + k] == sub[k + 1]);
        }
    }
}

/// The items of a tuple as this library writes them, from the first item to
/// the closing parenthesis, read as those items.
pub proof fn lemma_parse_rest(s: Seq<u8>, i: int, first: u64, rest: Seq<u64>, acc: Seq<u64>)
    requires
        has_at(s, i, digits(first as nat) + rest_text(rest) + seq![CLOSE_PAREN]),
    ensures
        parse_items(s, i, acc) == Some(
            (
                acc.push(first) + rest,
                i + digits(first as nat).len() + rest_text(rest).len() + 1,
            ),
        ),
    decreases rest.len(),
{
    let d = digits(first as nat);
    let r = rest_text(rest);
    let close = seq![CLOSE_PAREN];
    lemma_digits(first as nat);
    assert(d + r + close =~= d + (r + close));
    lemma_has_at_split(s, i, d, r + close);
    lemma_has_at_index(s, i, d, 0);
    let k = i + d.len();
    lemma_has_at_index(s, k, r + close, 0);
    if rest.len() == 0 {
        assert(s[k] == CLOSE_PAREN);
        lemma_parse_digits(s, i, first);
        assert(ws_run(s, k) == 0);
        assert(acc.push(first) + rest =~= acc.push(first));
    } else {
        let d1 = digits(rest[0] as nat);
        let tail = rest_text(rest.skip(1));
        lemma_digits(rest[0] as nat);
        let sep = seq![COMMA, SPACE];
        assert(r == sep + d1 + tail);
        assert(r + close =~= sep + (d1 + tail + close));
        assert(s[k] == COMMA);
        lemma_parse_digits(s, i, first);
        assert(ws_run(s, k) == 0);
        lemma_has_at_split(s, k, sep, d1 + tail + close);
        lemma_has_at_index(s, k, sep, 1);
        assert(d1 + tail + close =~= d1 + (tail + close));
        lemma_has_at_split(s, k + 2, d1, tail + close);
        lemma_has_at_index(s, k + 2, d1, 0);
        assert(is_digit(s[k + 2]));
        lemma_ws_run_exact(s, k + 1, k + 2);
        lemma_parse_rest(s, k + 2, rest[0], rest.skip(1), acc.push(first));
        assert(acc.push(first).push(rest[0]) + rest.skip(1) =~= acc.push(first) + rest);
    }
}

/// A shape tuple as this library writes it reads as that shape.
pub proof fn lemma_parse_tuple_text(s: Seq<u8>, i: int, shape: Seq<u64>)
    requires
        has_at(s, i, tuple_text(shape)),
    ensures
        parse_tuple(s, i) == Some((shape, i + tuple_text(shape).len())),
{
    let open = seq![OPEN_PAREN];
    let close = seq![CLOSE_PAREN];
    let items = items_text(shape);
    assert(tuple_text(shape) =~= open + (items + close));
    lemma_has_at_split(s, i, open, items + close);
    lemma_has_at_index(s, i, open, 0);
    lemma_has_at_index(s, i + 1, items + close, 0);
    if shape.len() == 0 {
        assert(ws_run(s, i + 1) == 0);
        assert(shape =~= Seq::<u64>::empty());
    } else {
        let d = digits(shape[0] as nat);
        lemma_digits(shape[0] as nat);
        assert(is_digit(d[0]));
        if shape.len() == 1 {
            let comma = seq![COMMA];
            assert(items + close =~= d + (comma + close));
            lemma_has_at_split(s, i + 1, d, comma + close);
            lemma_has_at_index(s, i + 1, d, 0);
            assert(ws_run(s, i + 1) == 0);
            let k = i + 1 + d.len();
            lemma_has_at_index(s, k, comma + close, 0);
            lemma_has_at_index(s, k, comma + close, 1);
            lemma_parse_digits(s, i + 1, shape[0]);
            assert(ws_run(s, k) == 0);
            assert(ws_run(s, k + 1) == 0);
            let one = Seq::<u64>::empty().push(shape[0]);
            assert(one =~= shape);
            assert(parse_items(s, k + 1, one) == Some((one, k + 2)));
        } else {
            let rest = shape.skip(1);
            assert(items + close =~= d + rest_text(rest) + close);
            assert(d + rest_text(rest) + close =~= d + (rest_text(rest) + close));
            lemma_has_at_split(s, i + 1, d, rest_text(rest) + close);
            lemma_has_at_index(s, i + 1, d, 0);
            assert(ws_run(s, i + 1) == 0);
            lemma_parse_rest(s, i + 1, shape[0], rest, Seq::empty());
            assert(Seq::<u64>::empty().push(shape[0]) + rest =~= shape);
        }
    }
}

/// One entry as this library writes it, `'key': value, `, is read and
/// recorded, and reading goes on behind it.
pub proof fn lemma_parse_entry(
    s: Seq<u8>,
    i: int,
    f: HeaderFields,
    key: Seq<u8>,
    value: HeaderValue,
    m: nat,
    g: HeaderFields,
)
    requires
        has_at(s, i, quoted(key) + seq![COLON, SPACE]),
        forall|k: int| 0 <= k < key.len() ==> #[trigger] key[k] != QUOTE,
        parse_value(s, i + key.len() + 4) == Some((value, m)),
        record(f, key, value) == Some(g),
        i + key.len() + 4 + m + 2 < s.len(),
        !is_ws(s[i + key.len() + 4]),
        s[i + key.len() + 4 + m] == COMMA,
        s[i + key.len() + 4 + m + 1] == SPACE,
        !is_ws(s[i + key.len() + 4 + m + 2]),
    ensures
        parse_entries(s, i, f) == parse_entries(s, i + key.len() + 4 + m + 2, g),
{
    let q = quoted(key);
    let sep = seq![COLON, SPACE];
    lemma_has_at_split(s, i, q, sep);
    lemma_parse_quoted(s, i, key);
    lemma_has_at_index(s, i, q, 0);
    let c = i + key.len() + 2;
    lemma_has_at_index(s, c, sep, 0);
    lemma_has_at_index(s, c, sep, 1);
    assert(ws_run(s, c) == 0);
    lemma_ws_run_exact(s, c + 1, c + 2);
    let v = c + 2;
    let k = v + m;
    assert(ws_run(s, k) == 0);
    lemma_ws_run_exact(s, k + 1, k + 2);
}

/// Neither `True` nor `False` stands where the byte is neither `T` nor `F`.
pub proof fn lemma_no_flag_at(s: Seq<u8>, i: int)
    requires
        0 <= i < s.len(),
        s[i] != 84,
        s[i] != 70,
    ensures
        !has_at(s, i, crate::header::true_word()),
        !has_at(s, i, false_word()),
{
    if has_at(s, i, crate::header::true_word()) {
        lemma_has_at_index(s, i, crate::header::true_word(), 0);
    }
    if has_at(s, i, false_word()) {
        lemma_has_at_index(s, i, false_word(), 0);
    }
}

/// The first entry of the dictionary that this library writes, with the
/// opening brace before it, is read and recorded.
pub proof fn lemma_parse_descr_entry(s: Seq<u8>, i: int, f: HeaderFields)
    requires
        has_at(s, i, descr_entry()),
        i + 17 < s.len(),
        !is_ws(s[i + 17]),
    ensures
        s[i] == OPEN_BRACE,
        ws_run(s, i + 1) == 0,
        parse_entries(s, i + 1, f) == parse_entries(
            s,
            i + 17,
            HeaderFields { descr: Some(float32_descr()), ..f },
        ),
{
    let colon = seq![COLON, SPACE];
    let comma = seq![COMMA, SPACE];
    let brace = seq![OPEN_BRACE];
    let dk = quoted(descr_key());
    let dv = quoted(float32_descr());
    assert(descr_entry() =~= brace + ((dk + colon) + (dv + comma)));
    lemma_has_at_split(s, i, brace, (dk + colon) + (dv + comma));
    lemma_has_at_index(s, i, brace, 0);
    lemma_has_at_split(s, i + 1, dk + colon, dv + comma);
    lemma_has_at_split(s, i + 1, dk, colon);
    lemma_has_at_index(s, i + 1, dk, 0);
    lemma_has_at_split(s, i + 10, dv, comma);
    lemma_has_at_index(s, i + 10, dv, 0);
    lemma_has_at_index(s, i + 15, comma, 0);
    lemma_has_at_index(s, i + 15, comma, 1);
    lemma_parse_quoted(s, i + 10, float32_descr());
    lemma_no_flag_at(s, i + 10);
    let g = HeaderFields { descr: Some(float32_descr()), ..f };
    assert(parse_value(s, i + 10) == Some((HeaderValue::Text(float32_descr()), 5nat)));
    lemma_parse_entry(s, i + 1, f, descr_key(), HeaderValue::Text(float32_descr()), 5, g);
}

/// The second entry, which declares row-major order, is read and recorded.
pub proof fn lemma_parse_order_entry(s: Seq<u8>, i: int, f: HeaderFields)
    requires
        has_at(s, i, order_entry()),
        i + 24 < s.len(),
        !is_ws(s[i + 24]),
    ensures
        parse_entries(s, i, f) == parse_entries(
            s,
            i + 24,
            HeaderFields { fortran_order: Some(false), ..f },
        ),
{
    let colon = seq![COLON, SPACE];
    let comma = seq![COMMA, SPACE];
    let ok = quoted(order_key());
    assert(order_entry() =~= (ok + colon) + (false_word() + comma));
    lemma_has_at_split(s, i, ok + colon, false_word() + comma);
    lemma_has_at_split(s, i + 17, false_word(), comma);
    lemma_has_at_index(s, i + 17, false_word(), 0);
    lemma_has_at_index(s, i + 22, comma, 0);
    lemma_has_at_index(s, i + 22, comma, 1);
    if has_at(s, i + 17, crate::header::true_word()) {
        lemma_has_at_index(s, i + 17, crate::header::true_word(), 0);
    }
    let g = HeaderFields { fortran_order: Some(false), ..f };
    assert(order_key().len() != descr_key().len());
    assert(parse_value(s, i + 17) == Some((HeaderValue::Flag(false), 5nat)));
    lemma_parse_entry(s, i, f, order_key(), HeaderValue::Flag(false), 5, g);
}

/// The last entry, which declares the shape, is read and recorded, and the
/// dictionary ends behind it.
pub proof fn lemma_parse_shape_entry(s: Seq<u8>, i: int, f: HeaderFields, shape: Seq<u64>)
    requires
        has_at(s, i, shape_entry(shape)),
    ensures
        parse_entries(s, i, f) == Some(
            (HeaderFields { shape: Some(shape), ..f }, i + 9 + tuple_text(shape).len() + 3),
        ),
{
    let colon = seq![COLON, SPACE];
    let sk = quoted(shape_key());
    let t = tuple_text(shape);
    let tail = dict_tail();
    assert(shape_entry_head() + t + tail =~= (sk + colon) + (t + tail));
    lemma_has_at_split(s, i, sk + colon, t + tail);
    lemma_has_at_split(s, i + 9, t, tail);
    lemma_has_at_index(s, i + 9, t, 0);
    let b: int = i + 9 + t.len() as int;
    lemma_has_at_index(s, b, tail, 0);
    lemma_has_at_index(s, b, tail, 1);
    lemma_has_at_index(s, b, tail, 2);
    lemma_parse_tuple_text(s, i + 9, shape);
    lemma_no_flag_at(s, i + 9);
    let g = HeaderFields { shape: Some(shape), ..f };
    assert(shape_key()[0] != descr_key()[0]);
    assert(shape_key().len() != order_key().len());
    assert(parse_value(s, i + 9) == Some((HeaderValue::Dims(shape), t.len())));
    lemma_parse_entry(s, i, f, shape_key(), HeaderValue::Dims(shape), t.len(), g);
    assert(parse_entries(s, b + 2, g) == Some((g, b + 3)));
}

/// The lengths of the fixed parts of the dictionary.
pub proof fn lemma_entry_lengths()
    ensures
        descr_entry().len() == 17,
        order_entry().len() == 24,
        shape_entry_head().len() == 9,
        dict_tail().len() == 3,
        order_entry()[0] == QUOTE,
        shape_entry_head()[0] == QUOTE,
{
}

/// Where the parts of a header text stand.
pub proof fn lemma_header_layout(shape: Seq<u64>, pad: nat)
    ensures
        ({
            let h = header_text(shape, pad);
            let end = 41 + shape_entry(shape).len();
            &&& has_at(h, 0, descr_entry())
            &&& has_at(h, 17, order_entry())
            &&& has_at(h, 41, shape_entry(shape))
            &&& h.len() == end + pad + 1
            &&& forall|k: int| end <= k < h.len() ==> is_ws(#[trigger] h[k])
        }),
{
    let h = header_text(shape, pad);
    let d = descr_entry();
    let o = order_entry();
    let last = shape_entry(shape);
    let tail = spaces(pad) + seq![NEWLINE];
    lemma_entry_lengths();
    assert(h.subrange(0, h.len() as int) =~= h);
    lemma_has_at_split(h, 0, header_body(shape), tail);
    lemma_has_at_split(h, 0, d, o + last);
    lemma_has_at_split(h, 17, o, last);
    let end: int = 41 + last.len() as int;
    assert forall|k: int| end <= k < h.len() implies is_ws(#[trigger] h[k]) by {
        lemma_has_at_index(h, end, tail, k - end);
    }
}

/// A text in which the three entries of this library stand one after the
/// other, with nothing but whitespace behind them, denotes the four-byte
/// little-endian float descriptor, row-major order and the shape.
pub proof fn lemma_parse_dictionary(h: Seq<u8>, shape: Seq<u64>)
    requires
        has_at(h, 0, descr_entry()),
        has_at(h, 17, order_entry()),
        has_at(h, 41, shape_entry(shape)),
        forall|k: int| 41 + shape_entry(shape).len() <= k < h.len() ==> is_ws(#[trigger] h[k]),
    ensures
        parse_header(h) == Some(fields_of(shape)),
{
    let end: int = 41 + shape_entry(shape).len() as int;
    lemma_entry_lengths();
    assert(h[17] == QUOTE) by {
        lemma_has_at_index(h, 17, order_entry(), 0);
    }
    assert(h[41] == QUOTE) by {
        lemma_has_at_index(h, 41, shape_entry(shape), 0);
    }
    let f1 = HeaderFields { descr: Some(float32_descr()), ..no_fields() };
    let f2 = HeaderFields { fortran_order: Some(false), ..f1 };
    lemma_parse_descr_entry(h, 0, no_fields());
    lemma_parse_order_entry(h, 17, f1);
    lemma_parse_shape_entry(h, 41, f2, shape);
    lemma_ws_run_exact(h, end, h.len() as int);
    assert(ws_run(h, 0) == 0);
}

/// The header text of a shape, with any number of padding spaces, denotes the
/// four-byte little-endian float descriptor, row-major order and that shape.
pub proof fn lemma_parse_header_text(shape: Seq<u64>, pad: nat)
    ensures
        parse_header(header_text(shape, pad)) == Some(fields_of(shape)),
{
    lemma_header_layout(shape, pad);
    lemma_parse_dictionary(header_text(shape, pad), shape);
}

/// Ten to the power `k`.
pub open spec fn pow10(k: nat) -> nat
    decreases k,
{
    if k == 0 {
        1
    } else {
        10 * pow10((k - 1) as nat)
    }
}

/// A number below ten to the power `k` has at most `k` digits.
pub proof fn lemma_digits_len(n: nat, k: nat)
    requires
        k >= 1,
        n < pow10(k),
    ensures
        digits(n).len() <= k,
    decreases k,
{
    if n >= 10 {
        if k == 1 {
            assert(pow10(1) == 10) by {
                reveal_with_fuel(pow10, 2);
            }
        } else {
            lemma_digits_len(n / 10, (k - 1) as nat);
        }
    }
}

/// A 64-bit number has at most twenty digits.
pub proof fn lemma_digits_len_u64(v: u64)
    ensures
        1 <= digits(v as nat).len() <= 20,
{
    lemma_digits(v as nat);
    assert(pow10(20) == 100_000_000_000_000_000_000) by {
        reveal_with_fuel(pow10, 21);
    }
    lemma_digits_len(v as nat, 20);
}

/// Each further item of a tuple takes at most 22 bytes.
pub proof fn lemma_rest_text_len(rest: Seq<u64>)
    ensures
        rest_text(rest).len() <= 22 * rest.len(),
    decreases rest.len(),
{
    if rest.len() > 0 {
        lemma_digits_len_u64(rest[0]);
        lemma_rest_text_len(rest.skip(1));
    }
}

/// The dictionary for a shape grows with the number of dimensions only.
pub proof fn lemma_header_body_len(shape: Seq<u64>)
    ensures
        55 <= header_body(shape).len() <= 55 + 22 * shape.len(),
{
    lemma_entry_lengths();
    if shape.len() > 0 {
        lemma_digits_len_u64(shape[0]);
        lemma_rest_text_len(shape.skip(1));
    }
}

/// Appends the decimal digits of `n`.
pub fn push_digits(out: &mut Vec<u8>, n: u64)
    ensures
        final(out)@ == old(out)@ + digits(n as nat),
    decreases n,
{
    if n >= 10 {
        push_digits(out, n / 10);
    }
    out.push(ZERO + (n % 10) as u8);
    proof {
        assert(out@ =~= old(out)@ + digits(n as nat));
    }
}

/// Appends a shape as a tuple.
pub fn push_tuple(out: &mut Vec<u8>, shape: &Vec<u64>)
    ensures
        final(out)@ == old(out)@ + tuple_text(shape@),
{
    out.push(OPEN_PAREN);
    let ghost base = out@;
    if shape.len() == 1 {
        push_digits(out, shape[0]);
        out.push(COMMA);
        proof {
            assert(out@ =~= base + items_text(shape@));
        }
    } else if shape.len() >= 2 {
        push_digits(out, shape[0]);
        let ghost start = out@;
        let mut k: usize = 1;
        while k < shape.len()
            invariant
                1 <= k <= shape.len(),
                out@ + rest_text(shape@.skip(k as int)) == start + rest_text(shape@.skip(1)),
            decreases shape.len() - k,
        {
            let ghost before = out@;
            out.push(COMMA);
            out.push(SPACE);
            push_digits(out, shape[k]);
            proof {
                let rest = shape@.skip(k as int);
                assert(rest.skip(1) =~= shape@.skip(k + 1));
                assert(rest[0] == shape@[k as int]);
                assert(out@ + rest_text(shape@.skip(k + 1)) =~= before + rest_text(rest));
            }
            k += 1;
        }
        proof {
            assert(rest_text(shape@.skip(k as int)) =~= Seq::<u8>::empty());
            assert(out@ =~= out@ + rest_text(shape@.skip(k as int)));
            assert(out@ =~= base + items_text(shape@));
        }
    } else {
        proof {
            assert(out@ =~= base + items_text(shape@));
        }
    }
    out.push(CLOSE_PAREN);
    proof {
        assert(out@ =~= old(out)@ + tuple_text(shape@));
    }
}

/// Appends `text` between single quotes.
fn push_quoted(out: &mut Vec<u8>, text: &[u8])
    ensures
        final(out)@ == old(out)@ + quoted(text@),
{
    out.push(QUOTE);
    out.extend_from_slice(text);
    out.push(QUOTE);
    proof {
        assert(out@ =~= old(out)@ + quoted(text@));
    }
}

/// The dictionary for a shape; see [`header_body`].
pub fn header_body_bytes(shape: &Vec<u64>) -> (out: Vec<u8>)
    ensures
        out@ == header_body(shape@),
{
    let descr: [u8; 5] = [100, 101, 115, 99, 114];
    let float32: [u8; 3] = [60, 102, 52];
    let order: [u8; 13] = [102, 111, 114, 116, 114, 97, 110, 95, 111, 114, 100, 101, 114];
    let no: [u8; 5] = [70, 97, 108, 115, 101];
    let shape_word: [u8; 5] = [115, 104, 97, 112, 101];
    proof {
        assert(descr@ =~= descr_key());
        assert(float32@ =~= float32_descr());
        assert(order@ =~= order_key());
        assert(no@ =~= false_word());
        assert(shape_word@ =~= shape_key());
    }
    let mut out: Vec<u8> = Vec::new();
    out.push(OPEN_BRACE);
    push_quoted(&mut out, descr.as_slice());
    out.push(COLON);
    out.push(SPACE);
    push_quoted(&mut out, float32.as_slice());
    out.push(COMMA);
    out.push(SPACE);
    proof {
        assert(out@ =~= descr_entry());
    }
    push_quoted(&mut out, order.as_slice());
    out.push(COLON);
    out.push(SPACE);
    out.extend_from_slice(no.as_slice());
    out.push(COMMA);
    out.push(SPACE);
    proof {
        assert(out@ =~= descr_entry() + order_entry());
    }
    let ghost two = out@;
    push_quoted(&mut out, shape_word.as_slice());
    out.push(COLON);
    out.push(SPACE);
    push_tuple(&mut out, shape);
    out.push(COMMA);
    out.push(SPACE);
    out.push(CLOSE_BRACE);
    proof {
        assert(out@ =~= two + shape_entry(shape@));
        assert(out@ =~= header_body(shape@));
    }
    out
}

} // verus!
