//! The top level of a JSON object as table cells, in the order of its
//! members. What is nested is skipped and counted.
use vstd::prelude::*;

use crate::json::{at, ws_end, ws_end_range};
use crate::query::value::{hex_code, hex_digit, text_of, read_text, utf8_text};
use crate::source_scan::skip_ws;
use crate::text::{encode_char, is_scalar, utf8_bytes};

verus! {

pub const CELL_NULL: u8 = 0;

pub const CELL_BOOL: u8 = 1;

pub const CELL_NUMBER: u8 = 2;

pub const CELL_STRING: u8 = 3;

pub const CELL_ARRAY: u8 = 4;

pub const CELL_OBJECT: u8 = 5;

/// A cell of a table: the text of a scalar, or the size of a container.
#[derive(Debug)]
pub struct TableCellDto {
    pub kind: u8,
    pub is_container: bool,
    pub text: Option<String>,
    pub count: Option<u32>,
}

/// A cell in mathematical form.
pub enum Cell {
    Scalar { kind: u8, text: Seq<char> },
    Container { kind: u8, count: nat },
}

/// `c` is the cell `v`; a size past the greatest `u32` shows as that.
pub open spec fn is_cell(c: TableCellDto, v: Cell) -> bool {
    match v {
        Cell::Scalar { kind, text } => {
            &&& c.kind == kind
            &&& !c.is_container
            &&& c.text matches Some(s) && s@ == text
            &&& c.count is None
        },
        Cell::Container { kind, count } => {
            &&& c.kind == kind
            &&& c.is_container
            &&& c.text is None
            &&& c.count == Some(
                if count < u32::MAX {
                    count as u32
                } else {
                    u32::MAX
                },
            )
        },
    }
}

/// Where the string that starts at `i` ends; a backslash takes the byte
/// behind it along.
pub open spec fn quoted_end(b: Seq<u8>, i: int) -> Option<int>
    decreases b.len() - i,
{
    if !(0 <= i < b.len()) {
        None
    } else if b[i] == 0x22 {
        Some(i + 1)
    } else if b[i] == 0x5C {
        if i + 1 < b.len() {
            quoted_end(b, i + 2)
        } else {
            None
        }
    } else {
        quoted_end(b, i + 1)
    }
}

/// Where the string at `i` ends, if there is one.
pub open spec fn string_stop(b: Seq<u8>, i: int) -> Option<int> {
    if at(b, i, 0x22) {
        quoted_end(b, i + 1)
    } else {
        None
    }
}

/// What separates values that are no strings and no containers.
pub open spec fn is_break(c: u8) -> bool {
    c == 0x2C || c == 0x7D || c == 0x5D || c == 0x20 || c == 0x09 || c == 0x0A || c == 0x0D
}

pub open spec fn run_end(b: Seq<u8>, i: int) -> int
    decreases b.len() - i,
{
    if 0 <= i < b.len() && !is_break(b[i]) {
        run_end(b, i + 1)
    } else {
        i
    }
}

proof fn quoted_end_range(b: Seq<u8>, i: int)
    requires
        quoted_end(b, i) is Some,
    ensures
        0 <= i < quoted_end(b, i)->0 <= b.len(),
    decreases b.len() - i,
{
    if b[i] == 0x22 {
    } else if b[i] == 0x5C {
        quoted_end_range(b, i + 2);
    } else {
        quoted_end_range(b, i + 1);
    }
}

proof fn run_end_range(b: Seq<u8>, i: int)
    requires
        0 <= i <= b.len(),
    ensures
        i <= run_end(b, i) <= b.len(),
    decreases b.len() - i,
{
    if i < b.len() && !is_break(b[i]) {
        run_end_range(b, i + 1);
    }
}

/// Where the value after `i` ends. Positions past the end have none.
pub open spec fn value_stop(b: Seq<u8>, i: int) -> Option<int>
    decreases b.len() - i, 1nat,
{
    if !(0 <= i <= b.len()) {
        None
    } else {
        let p = ws_end(b, i);
        if !(i <= p < b.len()) {
            None
        } else if b[p] == 0x7B {
            match members_stop(b, p + 1, true, 0) {
                Some((e, _)) => Some(e),
                None => None,
            }
        } else if b[p] == 0x5B {
            match items_stop(b, p + 1, true, 0) {
                Some((e, _)) => Some(e),
                None => None,
            }
        } else if b[p] == 0x22 {
            string_stop(b, p)
        } else {
            Some(run_end(b, p))
        }
    }
}

/// From position `i` inside an object, behind `n` members: where the object
/// ends, and how many members it has. Only at the start may it end at once.
pub open spec fn members_stop(b: Seq<u8>, i: int, first: bool, n: nat) -> Option<(int, nat)>
    decreases b.len() - i, 0nat,
{
    if !(0 <= i <= b.len()) {
        None
    } else {
        let p = ws_end(b, i);
        if first && at(b, p, 0x7D) {
            Some((p + 1, 0))
        } else {
            match string_stop(b, p) {
                None => None,
                Some(k) => {
                    let c = ws_end(b, k);
                    if !(i < k && k <= c && at(b, c, 0x3A)) {
                        None
                    } else {
                        match value_stop(b, c + 1) {
                            None => None,
                            Some(v) => {
                                let e = ws_end(b, v);
                                if at(b, e, 0x2C) && e >= i {
                                    members_stop(b, e + 1, false, n + 1)
                                } else if at(b, e, 0x7D) {
                                    Some((e + 1, n + 1))
                                } else {
                                    None
                                }
                            },
                        }
                    }
                },
            }
        }
    }
}

/// As `members_stop`, inside an array.
pub open spec fn items_stop(b: Seq<u8>, i: int, first: bool, n: nat) -> Option<(int, nat)>
    decreases b.len() - i, 2nat,
{
    if !(0 <= i <= b.len()) {
        None
    } else {
        let p = ws_end(b, i);
        if first && at(b, p, 0x5D) {
            Some((p + 1, 0))
        } else {
            match value_stop(b, i) {
                None => None,
                Some(v) => {
                    let e = ws_end(b, v);
                    if at(b, e, 0x2C) && e >= i {
                        items_stop(b, e + 1, false, n + 1)
                    } else if at(b, e, 0x5D) {
                        Some((e + 1, n + 1))
                    } else {
                        None
                    }
                },
            }
        }
    }
}

proof fn value_stop_range(b: Seq<u8>, i: int)
    requires
        value_stop(b, i) is Some,
    ensures
        0 <= i <= value_stop(b, i)->0 <= b.len(),
    decreases b.len() - i, 1nat,
{
    ws_end_range(b, i);
    let p = ws_end(b, i);
    if b[p] == 0x7B {
        members_stop_range(b, p + 1, true, 0);
    } else if b[p] == 0x5B {
        items_stop_range(b, p + 1, true, 0);
    } else if b[p] == 0x22 {
        quoted_end_range(b, p + 1);
    } else {
        run_end_range(b, p);
    }
}

proof fn members_stop_range(b: Seq<u8>, i: int, first: bool, n: nat)
    requires
        members_stop(b, i, first, n) is Some,
    ensures
        0 <= i < members_stop(b, i, first, n)->Some_0.0 <= b.len(),
    decreases b.len() - i, 0nat,
{
    ws_end_range(b, i);
    let p = ws_end(b, i);
    if !(first && at(b, p, 0x7D)) {
        quoted_end_range(b, p + 1);
        let k = string_stop(b, p)->Some_0;
        ws_end_range(b, k);
        let c = ws_end(b, k);
        value_stop_range(b, c + 1);
        let v = value_stop(b, c + 1)->Some_0;
        ws_end_range(b, v);
        let e = ws_end(b, v);
        if at(b, e, 0x2C) {
            members_stop_range(b, e + 1, false, n + 1);
        }
    }
}

proof fn items_stop_range(b: Seq<u8>, i: int, first: bool, n: nat)
    requires
        items_stop(b, i, first, n) is Some,
    ensures
        0 <= i < items_stop(b, i, first, n)->Some_0.0 <= b.len(),
    decreases b.len() - i, 2nat,
{
    ws_end_range(b, i);
    let p = ws_end(b, i);
    if !(first && at(b, p, 0x5D)) {
        value_stop_range(b, i);
        let v = value_stop(b, i)->Some_0;
        ws_end_range(b, v);
        let e = ws_end(b, v);
        if at(b, e, 0x2C) {
            items_stop_range(b, e + 1, false, n + 1);
        }
    }
}

fn skip_quoted(b: &[u8], pos: usize) -> (r: Option<usize>)
    requires
        pos <= b@.len(),
    ensures
        match string_stop(b@, pos as int) {
            Some(e) => r matches Some(x) && x == e && pos < e <= b@.len(),
            None => r is None,
        },
{
    let size: usize = b.len();
    if pos >= size || b[pos] != 0x22 {
        return None;
    }
    let mut p: usize = pos + 1;
    while p < size
        invariant
            size == b@.len(),
            pos < p,
            string_stop(b@, pos as int) == quoted_end(b@, p as int),
        decreases size + 1 - p,
    {
        if b[p] == 0x22 {
            return Some(p + 1);
        }
        if b[p] == 0x5C {
            if size - p < 2 {
                return None;
            }
            p = p + 2;
        } else {
            p = p + 1;
        }
    }
    None
}

fn skip_run(b: &[u8], pos: usize) -> (e: usize)
    requires
        pos <= b@.len(),
    ensures
        e == run_end(b@, pos as int),
        pos <= e <= b@.len(),
{
    let mut p: usize = pos;
    while p < b.len() && !(b[p] == 0x2C || b[p] == 0x7D || b[p] == 0x5D || b[p] == 0x20 || b[p]
        == 0x09 || b[p] == 0x0A || b[p] == 0x0D)
        invariant
            pos <= p <= b@.len(),
            run_end(b@, p as int) == run_end(b@, pos as int),
        decreases b@.len() - p,
    {
        p += 1;
    }
    p
}

fn skip_value(b: &[u8], pos: usize) -> (r: Option<usize>)
    requires
        pos <= b@.len(),
    ensures
        match value_stop(b@, pos as int) {
            Some(e) => r matches Some(x) && x == e && pos <= e <= b@.len(),
            None => r is None,
        },
    decreases b@.len() - pos, 1nat,
{
    let p: usize = skip_ws(b, pos);
    if p >= b.len() {
        return None;
    }
    proof {
        if value_stop(b@, pos as int) is Some {
            value_stop_range(b@, pos as int);
        }
    }
    if b[p] == 0x7B {
        match parse_object_count(b, p + 1) {
            Some((e, _)) => Some(e),
            None => None,
        }
    } else if b[p] == 0x5B {
        match parse_array_count(b, p + 1) {
            Some((e, _)) => Some(e),
            None => None,
        }
    } else if b[p] == 0x22 {
        skip_quoted(b, p)
    } else {
        Some(skip_run(b, p))
    }
}

/// Skips an object from behind its brace, and counts its members.
fn parse_object_count(b: &[u8], pos: usize) -> (r: Option<(usize, usize)>)
    requires
        0 < pos <= b@.len(),
    ensures
        match members_stop(b@, pos as int, true, 0) {
            Some((e, n)) => r matches Some((x, k)) && x == e && k == n && pos < e <= b@.len(),
            None => r is None,
        },
    decreases b@.len() - pos, 0nat,
{
    let size: usize = b.len();
    let mut i: usize = pos;
    let mut n: usize = 0;
    let mut first = true;
    proof {
        if members_stop(b@, pos as int, true, 0) is Some {
            members_stop_range(b@, pos as int, true, 0);
        }
    }
    let ghost whole = members_stop(b@, pos as int, true, 0);
    loop
        invariant
            0 < pos <= i <= size,
            size == b@.len(),
            n < i,
            first ==> n == 0,
            whole == members_stop(b@, pos as int, true, 0),
            whole is Some ==> pos < whole->Some_0.0 <= size,
            whole == members_stop(b@, i as int, first, n as nat),
        decreases size - i,
    {
        let p: usize = skip_ws(b, i);
        if first && p < size && b[p] == 0x7D {
            return Some((p + 1, 0));
        }
        let k: usize = match skip_quoted(b, p) {
            Some(k) => k,
            None => {
                return None;
            },
        };
        let c: usize = skip_ws(b, k);
        if c >= size || b[c] != 0x3A {
            return None;
        }
        let v: usize = match skip_value(b, c + 1) {
            Some(v) => v,
            None => {
                return None;
            },
        };
        n = n + 1;
        let e: usize = skip_ws(b, v);
        if e < size && b[e] == 0x2C {
            i = e + 1;
            first = false;
        } else if e < size && b[e] == 0x7D {
            return Some((e + 1, n));
        } else {
            return None;
        }
    }
}

/// Skips an array from behind its bracket, and counts its elements.
fn parse_array_count(b: &[u8], pos: usize) -> (r: Option<(usize, usize)>)
    requires
        0 < pos <= b@.len(),
    ensures
        match items_stop(b@, pos as int, true, 0) {
            Some((e, n)) => r matches Some((x, k)) && x == e && k == n && pos < e <= b@.len(),
            None => r is None,
        },
    decreases b@.len() - pos, 2nat,
{
    let size: usize = b.len();
    let mut i: usize = pos;
    let mut n: usize = 0;
    let mut first = true;
    proof {
        if items_stop(b@, pos as int, true, 0) is Some {
            items_stop_range(b@, pos as int, true, 0);
        }
    }
    let ghost whole = items_stop(b@, pos as int, true, 0);
    loop
        invariant
            0 < pos <= i <= size,
            size == b@.len(),
            n < i,
            first ==> n == 0,
            whole == items_stop(b@, pos as int, true, 0),
            whole is Some ==> pos < whole->Some_0.0 <= size,
            whole == items_stop(b@, i as int, first, n as nat),
        decreases size - i,
    {
        let p: usize = skip_ws(b, i);
        if first && p < size && b[p] == 0x5D {
            return Some((p + 1, 0));
        }
        let v: usize = match skip_value(b, i) {
            Some(v) => v,
            None => {
                return None;
            },
        };
        n = n + 1;
        let e: usize = skip_ws(b, v);
        if e < size && b[e] == 0x2C {
            i = e + 1;
            first = false;
        } else if e < size && b[e] == 0x5D {
            return Some((e + 1, n));
        } else {
            return None;
        }
    }
}

pub open spec fn is_letter(c: u8) -> bool {
    0x41 <= c <= 0x5A || 0x61 <= c <= 0x7A
}

pub open spec fn letters_end(b: Seq<u8>, i: int) -> int
    decreases b.len() - i,
{
    if 0 <= i < b.len() && is_letter(b[i]) {
        letters_end(b, i + 1)
    } else {
        i
    }
}

pub open spec fn is_numeral_byte(c: u8) -> bool {
    c == 0x2D || c == 0x2B || c == 0x2E || c == 0x65 || c == 0x45 || 0x30 <= c <= 0x39
}

pub open spec fn numeral_end(b: Seq<u8>, i: int) -> int
    decreases b.len() - i,
{
    if 0 <= i < b.len() && is_numeral_byte(b[i]) {
        numeral_end(b, i + 1)
    } else {
        i
    }
}

/// Reads the letters at `pos`.
fn read_literal(b: &[u8], pos: usize) -> (r: (String, usize))
    requires
        pos <= b@.len(),
    ensures
        r.1 == letters_end(b@, pos as int),
        pos <= r.1 <= b@.len(),
        r.0@ == text_of(b@.subrange(pos as int, r.1 as int)),
{
    let mut p: usize = pos;
    while p < b.len() && ((b[p] >= 0x41 && b[p] <= 0x5A) || (b[p] >= 0x61 && b[p] <= 0x7A))
        invariant
            pos <= p <= b@.len(),
            letters_end(b@, p as int) == letters_end(b@, pos as int),
        decreases b@.len() - p,
    {
        p += 1;
    }
    (read_text(vstd::slice::slice_subrange(b, pos, p)), p)
}

/// Reads the number at `pos`.
fn read_number(b: &[u8], pos: usize) -> (r: (String, usize))
    requires
        pos <= b@.len(),
    ensures
        r.1 == numeral_end(b@, pos as int),
        pos <= r.1 <= b@.len(),
        r.0@ == text_of(b@.subrange(pos as int, r.1 as int)),
{
    let mut p: usize = pos;
    while p < b.len() && (b[p] == 0x2D || b[p] == 0x2B || b[p] == 0x2E || b[p] == 0x65 || b[p]
        == 0x45 || (b[p] >= 0x30 && b[p] <= 0x39))
        invariant
            pos <= p <= b@.len(),
            numeral_end(b@, p as int) == numeral_end(b@, pos as int),
        decreases b@.len() - p,
    {
        p += 1;
    }
    (read_text(vstd::slice::slice_subrange(b, pos, p)), p)
}

/// The cell of the value after `i`, and where the value ends.
pub open spec fn cell_at(b: Seq<u8>, i: int) -> Option<(Cell, int)> {
    let p = ws_end(b, i);
    if !(i <= p < b.len()) {
        None
    } else if b[p] == 0x7B {
        match members_stop(b, p + 1, true, 0) {
            Some((e, n)) => Some((Cell::Container { kind: CELL_OBJECT, count: n }, e)),
            None => None,
        }
    } else if b[p] == 0x5B {
        match items_stop(b, p + 1, true, 0) {
            Some((e, n)) => Some((Cell::Container { kind: CELL_ARRAY, count: n }, e)),
            None => None,
        }
    } else if b[p] == 0x22 {
        match string_stop(b, p) {
            Some(e) => {
                let raw = b.subrange(p, e);
                if vstd::utf8::valid_utf8(raw) {
                    Some(
                        (
                            Cell::Scalar {
                                kind: CELL_STRING,
                                text: vstd::utf8::decode_utf8(raw),
                            },
                            e,
                        ),
                    )
                } else {
                    None
                }
            },
            None => None,
        }
    } else if b[p] == 0x74 || b[p] == 0x66 {
        let e = letters_end(b, p);
        Some((Cell::Scalar { kind: CELL_BOOL, text: text_of(b.subrange(p, e)) }, e))
    } else if b[p] == 0x6E {
        let e = letters_end(b, p);
        Some((Cell::Scalar { kind: CELL_NULL, text: text_of(b.subrange(p, e)) }, e))
    } else if b[p] == 0x2D || 0x30 <= b[p] <= 0x39 {
        let e = numeral_end(b, p);
        Some((Cell::Scalar { kind: CELL_NUMBER, text: text_of(b.subrange(p, e)) }, e))
    } else {
        None
    }
}

fn size_shown(n: usize) -> (k: u32)
    ensures
        k == if n < u32::MAX {
            n as u32
        } else {
            u32::MAX
        },
{
    if n < u32::MAX as usize {
        n as u32
    } else {
        u32::MAX
    }
}

fn scalar_cell(kind: u8, text: String) -> (c: TableCellDto)
    ensures
        is_cell(c, Cell::Scalar { kind, text: text@ }),
{
    TableCellDto { kind, is_container: false, text: Some(text), count: None }
}

fn container_cell(kind: u8, n: usize) -> (c: TableCellDto)
    ensures
        is_cell(c, Cell::Container { kind, count: n as nat }),
{
    TableCellDto { kind, is_container: true, text: None, count: Some(size_shown(n)) }
}

/// Reads a value as a cell.
#[verifier::spinoff_prover]
fn parse_value_cell(b: &[u8], pos: usize) -> (r: Option<(TableCellDto, usize)>)
    requires
        pos <= b@.len(),
    ensures
        match cell_at(b@, pos as int) {
            Some((v, e)) => r matches Some((c, x)) && x == e && is_cell(c, v) && pos <= e
                <= b@.len(),
            None => r is None,
        },
{
    let p: usize = skip_ws(b, pos);
    if p >= b.len() {
        return None;
    }
    let c: u8 = b[p];
    if c == 0x7B {
        match parse_object_count(b, p + 1) {
            Some((e, n)) => Some((container_cell(CELL_OBJECT, n), e)),
            None => None,
        }
    } else if c == 0x5B {
        match parse_array_count(b, p + 1) {
            Some((e, n)) => Some((container_cell(CELL_ARRAY, n), e)),
            None => None,
        }
    } else if c == 0x22 {
        match skip_quoted(b, p) {
            Some(e) => match utf8_text(vstd::slice::slice_subrange(b, p, e)) {
                Some(text) => Some((scalar_cell(CELL_STRING, text), e)),
                None => None,
            },
            None => None,
        }
    } else if c == 0x74 || c == 0x66 {
        let (text, e) = read_literal(b, p);
        Some((scalar_cell(CELL_BOOL, text), e))
    } else if c == 0x6E {
        let (text, e) = read_literal(b, p);
        Some((scalar_cell(CELL_NULL, text), e))
    } else if c == 0x2D || (c >= 0x30 && c <= 0x39) {
        let (text, e) = read_number(b, p);
        Some((scalar_cell(CELL_NUMBER, text), e))
    } else {
        None
    }
}

/// What an escape stands for; an unknown one for its own letter.
pub open spec fn escape_byte(e: u8) -> u8 {
    if e == 0x62 {
        0x08
    } else if e == 0x66 {
        0x0C
    } else if e == 0x6E {
        0x0A
    } else if e == 0x72 {
        0x0D
    } else if e == 0x74 {
        0x09
    } else {
        e
    }
}

/// The bytes of a code point; a replacement character for a surrogate.
pub open spec fn code_bytes(code: int) -> Seq<u8> {
    if is_scalar(code) {
        utf8_bytes(code as nat)
    } else {
        utf8_bytes(0xFFFD)
    }
}

pub open spec fn with_front(front: Seq<u8>, rest: Option<(Seq<u8>, int)>) -> Option<(Seq<u8>, int)> {
    match rest {
        Some((s, e)) => Some((front + s, e)),
        None => None,
    }
}

/// The decoded bytes of a string from position `i` inside it, and where it
/// ends.
pub open spec fn unquote(b: Seq<u8>, i: int) -> Option<(Seq<u8>, int)>
    decreases b.len() - i,
{
    if !(0 <= i < b.len()) {
        None
    } else if b[i] == 0x22 {
        Some((Seq::empty(), i + 1))
    } else if b[i] == 0x5C {
        if i + 1 >= b.len() {
            None
        } else if b[i + 1] == 0x75 {
            match hex_code(b, i + 2) {
                Some(code) => with_front(code_bytes(code), unquote(b, i + 6)),
                None => None,
            }
        } else {
            with_front(seq![escape_byte(b[i + 1])], unquote(b, i + 2))
        }
    } else {
        with_front(seq![b[i]], unquote(b, i + 1))
    }
}

fn hex_val(c: u8) -> (r: Option<u32>)
    ensures
        match hex_digit(c) {
            Some(d) => r matches Some(x) && x == d && x < 16,
            None => r is None,
        },
{
    if c >= 0x30 && c <= 0x39 {
        Some((c - 0x30) as u32)
    } else if c >= 0x61 && c <= 0x66 {
        Some((c - 0x61 + 10) as u32)
    } else if c >= 0x41 && c <= 0x46 {
        Some((c - 0x41 + 10) as u32)
    } else {
        None
    }
}

fn read_code(b: &[u8], pos: usize) -> (r: Option<u32>)
    requires
        pos <= b@.len(),
    ensures
        match hex_code(b@, pos as int) {
            Some(code) => r matches Some(x) && x == code && pos + 4 <= b@.len(),
            None => r is None,
        },
{
    if b.len() - pos < 4 {
        return None;
    }
    match (hex_val(b[pos]), hex_val(b[pos + 1]), hex_val(b[pos + 2]), hex_val(b[pos + 3])) {
        (Some(w), Some(x), Some(y), Some(z)) => Some(w * 4096 + x * 256 + y * 16 + z),
        _ => None,
    }
}

fn push_code(out: &mut Vec<u8>, code: u32)
    ensures
        final(out)@ == old(out)@ + code_bytes(code as int),
{
    let c = match char::from_u32(code) {
        Some(c) => c,
        None => '\u{FFFD}',
    };
    let mut bytes = encode_char(c);
    out.append(&mut bytes);
}

/// The member key at `i`, and where it ends.
pub open spec fn key_of_member(b: Seq<u8>, i: int) -> Option<(Seq<char>, int)> {
    if !at(b, i, 0x22) {
        None
    } else {
        match unquote(b, i + 1) {
            Some((s, e)) => if vstd::utf8::valid_utf8(s) {
                Some((vstd::utf8::decode_utf8(s), e))
            } else {
                None
            },
            None => None,
        }
    }
}

#[verifier::spinoff_prover]
fn parse_string_decoded(b: &[u8], pos: usize) -> (r: Option<(String, usize)>)
    requires
        pos <= b@.len(),
    ensures
        match key_of_member(b@, pos as int) {
            Some((k, e)) => r matches Some((s, x)) && s@ == k && x == e && pos < e <= b@.len(),
            None => r is None,
        },
{
    let size: usize = b.len();
    if pos >= size || b[pos] != 0x22 {
        return None;
    }
    let mut out: Vec<u8> = Vec::new();
    let mut p: usize = pos + 1;
    let ghost whole = unquote(b@, pos + 1);
    proof {
        if let Some((s, e)) = whole {
            assert(out@ + s =~= s);
        }
    }
    while p < size
        invariant
            size == b@.len(),
            pos < p <= size,
            at(b@, pos as int, 0x22),
            whole == unquote(b@, pos + 1),
            whole == with_front(out@, unquote(b@, p as int)),
        decreases size - p,
    {
        let c: u8 = b[p];
        let ghost before = out@;
        if c == 0x22 {
            assert(out@ + Seq::<u8>::empty() =~= out@);
            return match utf8_text(out.as_slice()) {
                Some(s) => Some((s, p + 1)),
                None => None,
            };
        }
        if c == 0x5C {
            if size - p < 2 {
                return None;
            }
            let e: u8 = b[p + 1];
            if e == 0x75 {
                let code: u32 = match read_code(b, p + 2) {
                    Some(code) => code,
                    None => {
                        return None;
                    },
                };
                push_code(&mut out, code);
                proof {
                    if let Some((s, _)) = unquote(b@, p + 6) {
                        assert(before + (code_bytes(code as int) + s) =~= out@ + s);
                    }
                }
                p = p + 6;
            } else {
                let plain: u8 = if e == 0x62 {
                    0x08
                } else if e == 0x66 {
                    0x0C
                } else if e == 0x6E {
                    0x0A
                } else if e == 0x72 {
                    0x0D
                } else if e == 0x74 {
                    0x09
                } else {
                    e
                };
                out.push(plain);
                proof {
                    if let Some((s, _)) = unquote(b@, p + 2) {
                        assert(before + (seq![plain] + s) =~= out@ + s);
                    }
                }
                p = p + 2;
            }
        } else {
            out.push(c);
            proof {
                if let Some((s, _)) = unquote(b@, p + 1) {
                    assert(before + (seq![c] + s) =~= out@ + s);
                }
            }
            p = p + 1;
        }
    }
    None
}

/// The members of an object from position `i` inside it, behind the members
/// `acc`.
pub open spec fn members_from(b: Seq<u8>, acc: Seq<(Seq<char>, Cell)>, i: int) -> Option<
    Seq<(Seq<char>, Cell)>,
>
    decreases b.len() - i,
{
    match key_of_member(b, ws_end(b, i)) {
        None => None,
        Some((key, k)) => {
            let c = ws_end(b, k);
            if !at(b, c, 0x3A) {
                None
            } else {
                match cell_at(b, c + 1) {
                    None => None,
                    Some((cell, v)) => {
                        let e = ws_end(b, v);
                        let all = acc.push((key, cell));
                        if at(b, e, 0x2C) && 0 <= i <= e {
                            members_from(b, all, e + 1)
                        } else if at(b, e, 0x7D) {
                            Some(all)
                        } else {
                            None
                        }
                    },
                }
            }
        },
    }
}

/// The members of the object that a text starts with.
pub open spec fn top_level(b: Seq<u8>) -> Option<Seq<(Seq<char>, Cell)>> {
    let p = ws_end(b, 0);
    if !at(b, p, 0x7B) {
        None
    } else if at(b, ws_end(b, p + 1), 0x7D) {
        Some(Seq::empty())
    } else {
        members_from(b, Seq::empty(), p + 1)
    }
}

/// `v` are the members `m`.
pub open spec fn are_cells(v: Seq<(String, TableCellDto)>, m: Seq<(Seq<char>, Cell)>) -> bool {
    v.len() == m.len() && forall|i: int|
        0 <= i < v.len() ==> (#[trigger] v[i]).0@ == m[i].0 && is_cell(v[i].1, m[i].1)
}

/// The members of the object that a text starts with, as cells. A text that
/// starts otherwise, or whose object is broken, has none.
#[verifier::spinoff_prover]
pub fn parse_top_level_object(b: &[u8]) -> (r: Option<Vec<(String, TableCellDto)>>)
    ensures
        match top_level(b@) {
            Some(m) => r matches Some(v) && are_cells(v@, m),
            None => r is None,
        },
{
    let size: usize = b.len();
    let p: usize = skip_ws(b, 0);
    if p >= size || b[p] != 0x7B {
        return None;
    }
    let mut out: Vec<(String, TableCellDto)> = Vec::new();
    let q: usize = skip_ws(b, p + 1);
    if q < size && b[q] == 0x7D {
        return Some(out);
    }
    let ghost whole = top_level(b@);
    let ghost mut acc: Seq<(Seq<char>, Cell)> = Seq::empty();
    let mut i: usize = p + 1;
    loop
        invariant
            size == b@.len(),
            i <= size,
            whole == top_level(b@),
            whole == members_from(b@, acc, i as int),
            are_cells(out@, acc),
        decreases size - i,
    {
        let (key, k) = match parse_string_decoded(b, skip_ws(b, i)) {
            Some(x) => x,
            None => {
                return None;
            },
        };
        let c: usize = skip_ws(b, k);
        if c >= size || b[c] != 0x3A {
            return None;
        }
        let (cell, v) = match parse_value_cell(b, c + 1) {
            Some(x) => x,
            None => {
                return None;
            },
        };
        proof {
            acc = acc.push((key@, cell_at(b@, c + 1)->Some_0.0));
        }
        out.push((key, cell));
        let e: usize = skip_ws(b, v);
        if e < size && b[e] == 0x2C {
            i = e + 1;
        } else if e < size && b[e] == 0x7D {
            return Some(out);
        } else {
            return None;
        }
    }
}

} // verus!
