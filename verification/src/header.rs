//! The header of an array file: a dictionary-like text with the element
//! descriptor, the storage order and the shape. This module says what a
//! header text denotes and reads one.
//!
//! The texts that denote something:
//!
//! ```text
//! header = ws "{" ws [ entry { "," ws entry } [ "," ws ] ] "}" ws
//! entry  = string ws ":" ws value ws
//! value  = "True" | "False" | tuple | string
//! tuple  = "(" ws [ number ws { "," ws number ws } [ "," ws ] ] ")"
//! string = quote { any byte but that quote } the same quote
//! number = digit { digit }, at most 18446744073709551615
//! ws     = { space | tab | line feed | carriage return }
//! ```
//!
//! The keys `descr`, `fortran_order` and `shape` take a string, a flag and a
//! tuple; an entry with another key is read and left aside.

use vstd::prelude::*;
use crate::scan::{
    has_at, parse_number, parse_quoted, read_number, read_quoted, range_equals, skip_ws,
    starts_with_at, ws_run,
};

verus! {

/// The parenthesis `(`.
pub const OPEN_PAREN: u8 = 40;

/// The parenthesis `)`.
pub const CLOSE_PAREN: u8 = 41;

/// The comma.
pub const COMMA: u8 = 44;

/// The colon.
pub const COLON: u8 = 58;

/// The brace `{`.
pub const OPEN_BRACE: u8 = 123;

/// The brace `}`.
pub const CLOSE_BRACE: u8 = 125;

/// The text `True`.
pub open spec fn true_word() -> Seq<u8> {
    seq![84u8, 114, 117, 101]
}

/// The text `False`.
pub open spec fn false_word() -> Seq<u8> {
    seq![70u8, 97, 108, 115, 101]
}

/// The key `descr`.
pub open spec fn descr_key() -> Seq<u8> {
    seq![100u8, 101, 115, 99, 114]
}

/// The key `fortran_order`.
pub open spec fn order_key() -> Seq<u8> {
    seq![102u8, 111, 114, 116, 114, 97, 110, 95, 111, 114, 100, 101, 114]
}

/// The key `shape`.
pub open spec fn shape_key() -> Seq<u8> {
    seq![115u8, 104, 97, 112, 101]
}

/// The element descriptor `<f4`: little-endian, floating point, four bytes.
pub open spec fn float32_descr() -> Seq<u8> {
    seq![60u8, 102, 52]
}

/// A value of the header dictionary.
pub enum HeaderValue {
    Text(Seq<u8>),
    Flag(bool),
    Dims(Seq<u64>),
}

/// What a header dictionary says of the three keys that matter.
pub struct HeaderFields {
    pub descr: Option<Seq<u8>>,
    pub fortran_order: Option<bool>,
    pub shape: Option<Seq<u64>>,
}

/// The fields before any entry was read.
pub open spec fn no_fields() -> HeaderFields {
    HeaderFields { descr: None, fortran_order: None, shape: None }
}

/// The items of a tuple from position `i`, which is at an item or at the
/// closing parenthesis. Items are numbers separated by commas; a comma may
/// follow the last one. The result is `acc` with the items added and the
/// position after the closing parenthesis.
pub open spec fn parse_items(s: Seq<u8>, i: int, acc: Seq<u64>) -> Option<(Seq<u64>, int)>
    decreases s.len() - i,
    via parse_items_decreases
{
    if !(0 <= i < s.len()) {
        None
    } else if s[i] == CLOSE_PAREN {
        Some((acc, i + 1))
    } else {
        match parse_number(s, i) {
            None => None,
            Some((v, n)) => {
                let k = i + n + ws_run(s, i + n);
                if k >= s.len() {
                    None
                } else if s[k] == CLOSE_PAREN {
                    Some((acc.push(v), k + 1))
                } else if s[k] == COMMA {
                    parse_items(s, k + 1 + ws_run(s, k + 1), acc.push(v))
                } else {
                    None
                }
            },
        }
    }
}

#[via_fn]
proof fn parse_items_decreases(s: Seq<u8>, i: int, acc: Seq<u64>) {
    if 0 <= i < s.len() && s[i] != CLOSE_PAREN {
        match parse_number(s, i) {
            None => {},
            Some((v, n)) => {
                let k = i + n + ws_run(s, i + n);
                if k < s.len() {
                    crate::scan::lemma_ws_run_bound(s, k + 1);
                }
            },
        }
    }
}

/// A tuple of numbers at position `i`, with the position after it.
pub open spec fn parse_tuple(s: Seq<u8>, i: int) -> Option<(Seq<u64>, int)> {
    if 0 <= i < s.len() && s[i] == OPEN_PAREN {
        parse_items(s, i + 1 + ws_run(s, i + 1), Seq::empty())
    } else {
        None
    }
}

/// A value at position `i` with the number of bytes it takes: `True`,
/// `False`, a tuple of numbers or a quoted string.
pub open spec fn parse_value(s: Seq<u8>, i: int) -> Option<(HeaderValue, nat)> {
    if has_at(s, i, true_word()) {
        Some((HeaderValue::Flag(true), 4))
    } else if has_at(s, i, false_word()) {
        Some((HeaderValue::Flag(false), 5))
    } else if 0 <= i < s.len() && s[i] == OPEN_PAREN {
        match parse_tuple(s, i) {
            Some((dims, end)) => Some((HeaderValue::Dims(dims), (end - i) as nat)),
            None => None,
        }
    } else {
        match parse_quoted(s, i) {
            Some((text, n)) => Some((HeaderValue::Text(text), n)),
            None => None,
        }
    }
}

/// The fields after an entry `key: value`. One of the three known keys takes
/// a value of its own kind and no other; the last entry of a key counts; an
/// unknown key changes nothing.
pub open spec fn record(f: HeaderFields, key: Seq<u8>, value: HeaderValue) -> Option<HeaderFields> {
    if key == descr_key() {
        match value {
            HeaderValue::Text(t) => Some(HeaderFields { descr: Some(t), ..f }),
            _ => None,
        }
    } else if key == order_key() {
        match value {
            HeaderValue::Flag(b) => Some(HeaderFields { fortran_order: Some(b), ..f }),
            _ => None,
        }
    } else if key == shape_key() {
        match value {
            HeaderValue::Dims(d) => Some(HeaderFields { shape: Some(d), ..f }),
            _ => None,
        }
    } else {
        Some(f)
    }
}

/// The entries of a dictionary from position `i`, which is at a key or at the
/// closing brace. Entries are `key: value`, separated by commas; a comma may
/// follow the last one. The result is `f` with the entries recorded and the
/// position after the closing brace.
pub open spec fn parse_entries(s: Seq<u8>, i: int, f: HeaderFields) -> Option<(HeaderFields, int)>
    decreases s.len() - i,
    via parse_entries_decreases
{
    if !(0 <= i < s.len()) {
        None
    } else if s[i] == CLOSE_BRACE {
        Some((f, i + 1))
    } else {
        match parse_quoted(s, i) {
            None => None,
            Some((key, n)) => {
                let c = i + n + ws_run(s, i + n);
                if c < s.len() && s[c] == COLON {
                    let v = c + 1 + ws_run(s, c + 1);
                    match parse_value(s, v) {
                        None => None,
                        Some((value, m)) => match record(f, key, value) {
                            None => None,
                            Some(g) => {
                                let k = v + m + ws_run(s, v + m);
                                if k >= s.len() {
                                    None
                                } else if s[k] == CLOSE_BRACE {
                                    Some((g, k + 1))
                                } else if s[k] == COMMA {
                                    parse_entries(s, k + 1 + ws_run(s, k + 1), g)
                                } else {
                                    None
                                }
                            },
                        },
                    }
                } else {
                    None
                }
            },
        }
    }
}

#[via_fn]
proof fn parse_entries_decreases(s: Seq<u8>, i: int, f: HeaderFields) {
    if 0 <= i < s.len() && s[i] != CLOSE_BRACE {
        match parse_quoted(s, i) {
            None => {},
            Some((key, n)) => {
                let c = i + n + ws_run(s, i + n);
                let v = c + 1 + ws_run(s, c + 1);
                match parse_value(s, v) {
                    None => {},
                    Some((value, m)) => {
                        let k = v + m + ws_run(s, v + m);
                        if k < s.len() {
                            crate::scan::lemma_ws_run_bound(s, k + 1);
                        }
                    },
                }
            },
        }
    }
}

/// What a header text denotes: a dictionary in braces with whitespace allowed
/// around it and between its tokens, and nothing else.
pub open spec fn parse_header(h: Seq<u8>) -> Option<HeaderFields> {
    let a = ws_run(h, 0) as int;
    if a < h.len() && h[a] == OPEN_BRACE {
        match parse_entries(h, a + 1 + ws_run(h, a + 1), no_fields()) {
            None => None,
            Some((f, end)) => if end + ws_run(h, end) == h.len() {
                Some(f)
            } else {
                None
            },
        }
    } else {
        None
    }
}

/// The parser never steps back.
pub proof fn lemma_parse_items_end(s: Seq<u8>, i: int, acc: Seq<u64>)
    ensures
        parse_items(s, i, acc) matches Some((_, end)) ==> i < end <= s.len(),
    decreases s.len() - i,
{
    if 0 <= i < s.len() && s[i] != CLOSE_PAREN {
        match parse_number(s, i) {
            None => {},
            Some((v, n)) => {
                crate::scan::lemma_digit_run_bound(s, i);
                crate::scan::lemma_ws_run_bound(s, i + n);
                let k = i + n + ws_run(s, i + n);
                if k < s.len() && s[k] == COMMA {
                    crate::scan::lemma_ws_run_bound(s, k + 1);
                    lemma_parse_items_end(s, k + 1 + ws_run(s, k + 1), acc.push(v));
                }
            },
        }
    }
}

/// A value of the header dictionary as it was read.
pub enum Value {
    Text(Vec<u8>),
    Flag(bool),
    Dims(Vec<u64>),
}

impl View for Value {
    type V = HeaderValue;

    open spec fn view(&self) -> HeaderValue {
        match self {
            Value::Text(t) => HeaderValue::Text(t@),
            Value::Flag(b) => HeaderValue::Flag(*b),
            Value::Dims(d) => HeaderValue::Dims(d@),
        }
    }
}

/// The three fields of a header as they were read.
pub struct Header {
    pub descr: Option<Vec<u8>>,
    pub fortran_order: Option<bool>,
    pub shape: Option<Vec<u64>>,
}

impl View for Header {
    type V = HeaderFields;

    open spec fn view(&self) -> HeaderFields {
        HeaderFields {
            descr: match self.descr {
                Some(d) => Some(d@),
                None => None,
            },
            fortran_order: self.fortran_order,
            shape: match self.shape {
                Some(d) => Some(d@),
                None => None,
            },
        }
    }
}

/// Copies the bytes of `s` from `start` up to `end`.
pub fn copy_range(s: &[u8], start: usize, end: usize) -> (v: Vec<u8>)
    requires
        start <= end <= s.len(),
    ensures
        v@ == s@.subrange(start as int, end as int),
{
    let mut v: Vec<u8> = Vec::new();
    let mut k: usize = start;
    while k < end
        invariant
            start <= k <= end <= s.len(),
            v@ == s@.subrange(start as int, k as int),
        decreases end - k,
    {
        v.push(s[k]);
        proof {
            assert(v@ =~= s@.subrange(start as int, k + 1));
        }
        k += 1;
    }
    v
}

/// Reads the items of a tuple from position `i`; see [`parse_items`].
pub fn read_items(s: &[u8], i: usize) -> (r: Option<(Vec<u64>, usize)>)
    requires
        i <= s.len(),
    ensures
        match parse_items(s@, i as int, Seq::empty()) {
            Some((dims, end)) => r matches Some((v, e)) && v@ == dims && e == end && i < e
                && e <= s.len(),
            None => r.is_none(),
        },
{
    let mut acc: Vec<u64> = Vec::new();
    let mut pos: usize = i;
    proof {
        lemma_parse_items_end(s@, i as int, Seq::empty());
    }
    loop
        invariant
            i <= pos <= s.len(),
            parse_items(s@, i as int, Seq::empty()) == parse_items(s@, pos as int, acc@),
        decreases s.len() - pos,
    {
        if pos >= s.len() {
            return None;
        }
        if s[pos] == CLOSE_PAREN {
            return Some((acc, pos + 1));
        }
        match read_number(s, pos) {
            None => {
                return None;
            },
            Some((v, j)) => {
                let k = skip_ws(s, j);
                if k >= s.len() {
                    return None;
                }
                if s[k] == CLOSE_PAREN {
                    acc.push(v);
                    return Some((acc, k + 1));
                }
                if s[k] != COMMA {
                    return None;
                }
                acc.push(v);
                pos = skip_ws(s, k + 1);
            },
        }
    }
}

/// Reads a value at position `i`; see [`parse_value`].
pub fn read_value(s: &[u8], i: usize) -> (r: Option<(Value, usize)>)
    requires
        i <= s.len(),
    ensures
        match parse_value(s@, i as int) {
            Some((value, n)) => r matches Some((v, e)) && v@ == value && e == i + n && e <= s.len(),
            None => r.is_none(),
        },
{
    let true_lit: [u8; 4] = [84, 114, 117, 101];
    let false_lit: [u8; 5] = [70, 97, 108, 115, 101];
    proof {
        assert(true_lit@ =~= true_word());
        assert(false_lit@ =~= false_word());
    }
    if starts_with_at(s, i, true_lit.as_slice()) {
        Some((Value::Flag(true), i + 4))
    } else if starts_with_at(s, i, false_lit.as_slice()) {
        Some((Value::Flag(false), i + 5))
    } else if i < s.len() && s[i] == OPEN_PAREN {
        let start = skip_ws(s, i + 1);
        match read_items(s, start) {
            Some((dims, end)) => Some((Value::Dims(dims), end)),
            None => None,
        }
    } else {
        match read_quoted(s, i) {
            Some((start, end, next)) => Some((Value::Text(copy_range(s, start, end)), next)),
            None => None,
        }
    }
}

/// Records the entry whose key is the bytes of `s` from `start` up to `end`;
/// see [`record`].
pub fn record_entry(header: &mut Header, s: &[u8], start: usize, end: usize, value: Value) -> (ok:
    bool)
    requires
        start <= end <= s.len(),
    ensures
        match record(old(header)@, s@.subrange(start as int, end as int), value@) {
            Some(g) => ok && final(header)@ == g,
            None => !ok,
        },
{
    let descr: [u8; 5] = [100, 101, 115, 99, 114];
    let order: [u8; 13] = [102, 111, 114, 116, 114, 97, 110, 95, 111, 114, 100, 101, 114];
    let shape: [u8; 5] = [115, 104, 97, 112, 101];
    proof {
        assert(descr@ =~= descr_key());
        assert(order@ =~= order_key());
        assert(shape@ =~= shape_key());
    }
    if range_equals(s, start, end, descr.as_slice()) {
        match value {
            Value::Text(t) => {
                header.descr = Some(t);
                true
            },
            _ => false,
        }
    } else if range_equals(s, start, end, order.as_slice()) {
        match value {
            Value::Flag(b) => {
                header.fortran_order = Some(b);
                true
            },
            _ => false,
        }
    } else if range_equals(s, start, end, shape.as_slice()) {
        match value {
            Value::Dims(d) => {
                header.shape = Some(d);
                true
            },
            _ => false,
        }
    } else {
        true
    }
}

/// Reads the entries of a dictionary from position `i`; see
/// [`parse_entries`].
pub fn read_entries(s: &[u8], i: usize) -> (r: Option<(Header, usize)>)
    requires
        i <= s.len(),
    ensures
        match parse_entries(s@, i as int, no_fields()) {
            Some((f, end)) => r matches Some((h, e)) && h@ == f && e == end && e <= s.len(),
            None => r.is_none(),
        },
{
    let mut header = Header { descr: None, fortran_order: None, shape: None };
    let mut pos: usize = i;
    loop
        invariant
            pos <= s.len(),
            parse_entries(s@, i as int, no_fields()) == parse_entries(s@, pos as int, header@),
        decreases s.len() - pos,
    {
        if pos >= s.len() {
            return None;
        }
        if s[pos] == CLOSE_BRACE {
            return Some((header, pos + 1));
        }
        match read_quoted(s, pos) {
            None => {
                return None;
            },
            Some((start, end, next)) => {
                let c = skip_ws(s, next);
                if c >= s.len() || s[c] != COLON {
                    return None;
                }
                let v = skip_ws(s, c + 1);
                match read_value(s, v) {
                    None => {
                        return None;
                    },
                    Some((value, after)) => {
                        if !record_entry(&mut header, s, start, end, value) {
                            return None;
                        }
                        let k = skip_ws(s, after);
                        if k >= s.len() {
                            return None;
                        }
                        if s[k] == CLOSE_BRACE {
                            return Some((header, k + 1));
                        }
                        if s[k] != COMMA {
                            return None;
                        }
                        pos = skip_ws(s, k + 1);
                    },
                }
            },
        }
    }
}

/// Reads a header text; see [`parse_header`].
pub fn read_header(h: &[u8]) -> (r: Option<Header>)
    ensures
        match parse_header(h@) {
            Some(f) => r matches Some(header) && header@ == f,
            None => r.is_none(),
        },
{
    let a = skip_ws(h, 0);
    if a >= h.len() || h[a] != OPEN_BRACE {
        return None;
    }
    let start = skip_ws(h, a + 1);
    match read_entries(h, start) {
        None => None,
        Some((header, end)) => {
            let rest = skip_ws(h, end);
            if rest == h.len() {
                Some(header)
            } else {
                None
            }
        },
    }
}

} // verus!
