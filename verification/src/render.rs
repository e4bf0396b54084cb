//! Query results as text: lines of JSON, a JSON array, comma or tab separated
//! values, and a table.
use vstd::prelude::*;

use crate::document::Document;
use crate::query::evaluator::render::{
    json_of, preview_of, value_preview, write_value_json, QueryResult,
};
use crate::query::number::{nums, Numbers, Nums};
use crate::text::{chars_of, string_from};

verus! {

/// One JSON value per line.
pub open spec fn ndjson_text(doc: Document, n: Nums, rows: Seq<QueryResult>) -> Seq<char>
    decreases rows.len(),
{
    if rows.len() == 0 {
        Seq::empty()
    } else {
        ndjson_text(doc, n, rows.drop_last()) + json_of(doc, n, rows.last().value@) + "\n"@
    }
}

pub fn render_ndjson<N: Numbers>(results: &[QueryResult], doc: &Document, num: &N) -> (out: String)
    requires
        num.wf(),
    ensures
        out@ == ndjson_text(*doc, nums(num), results@),
{
    let mut out = String::new();
    let mut i: usize = 0;
    assert(out@ =~= ndjson_text(*doc, nums(num), results@.take(0)));
    while i < results.len()
        invariant
            num.wf(),
            i <= results@.len(),
            out@ == ndjson_text(*doc, nums(num), results@.take(i as int)),
        decreases results@.len() - i,
    {
        proof {
            let next = results@.take(i + 1);
            assert(next.drop_last() =~= results@.take(i as int));
        }
        let part = write_value_json(doc, num, &results[i].value);
        out.append(part.as_str());
        out.append("\n");
        i += 1;
    }
    assert(results@.take(i as int) =~= results@);
    out
}

/// The elements of the array, each on its line.
pub open spec fn elements_text(doc: Document, n: Nums, rows: Seq<QueryResult>) -> Seq<char>
    decreases rows.len(),
{
    if rows.len() == 0 {
        Seq::empty()
    } else {
        elements_text(doc, n, rows.drop_last()) + if rows.len() == 1 {
            "  "@
        } else {
            ",\n  "@
        } + json_of(doc, n, rows.last().value@)
    }
}

/// One array, indented by two spaces.
pub fn render_json_array<N: Numbers>(results: &[QueryResult], doc: &Document, num: &N) -> (out:
    String)
    requires
        num.wf(),
    ensures
        out@ == "[\n"@ + elements_text(*doc, nums(num), results@) + "\n]\n"@,
{
    let mut inside = String::new();
    let mut i: usize = 0;
    assert(inside@ =~= elements_text(*doc, nums(num), results@.take(0)));
    while i < results.len()
        invariant
            num.wf(),
            i <= results@.len(),
            inside@ == elements_text(*doc, nums(num), results@.take(i as int)),
        decreases results@.len() - i,
    {
        proof {
            let next = results@.take(i + 1);
            assert(next.drop_last() =~= results@.take(i as int));
        }
        if i == 0 {
            inside.append("  ");
        } else {
            inside.append(",\n  ");
        }
        let part = write_value_json(doc, num, &results[i].value);
        inside.append(part.as_str());
        i += 1;
    }
    assert(results@.take(i as int) =~= results@);
    let mut out = "[\n".to_owned();
    out.append(inside.as_str());
    out.append("\n]\n");
    out
}

/// The name of a kind.
pub open spec fn kind_text(kind: u8) -> Seq<char> {
    if kind == 0 {
        "null"@
    } else if kind == 1 {
        "bool"@
    } else if kind == 2 {
        "number"@
    } else if kind == 3 {
        "string"@
    } else if kind == 4 {
        "array"@
    } else if kind == 5 {
        "object"@
    } else {
        "unknown"@
    }
}

pub fn kind_label(kind: u8) -> (s: &'static str)
    ensures
        s@ == kind_text(kind),
{
    match kind {
        0 => "null",
        1 => "bool",
        2 => "number",
        3 => "string",
        4 => "array",
        5 => "object",
        _ => "unknown",
    }
}

pub open spec fn is_csv_special(c: char) -> bool {
    c == ',' || c == '"' || c == '\n' || c == '\r'
}

/// Each quote twice.
pub open spec fn quotes_doubled(s: Seq<char>) -> Seq<char>
    decreases s.len(),
{
    if s.len() == 0 {
        Seq::empty()
    } else if s.last() == '"' {
        quotes_doubled(s.drop_last()).push('"').push('"')
    } else {
        quotes_doubled(s.drop_last()).push(s.last())
    }
}

/// A field, in quotes where it needs them.
pub open spec fn csv_field(s: Seq<char>) -> Seq<char> {
    if exists|i: int| 0 <= i < s.len() && is_csv_special(#[trigger] s[i]) {
        "\""@ + quotes_doubled(s) + "\""@
    } else {
        s
    }
}

fn write_csv_field(s: &str) -> (out: String)
    ensures
        out@ == csv_field(s@),
{
    let chars = chars_of(s);
    let mut special = false;
    let mut inside = String::new();
    let mut i: usize = 0;
    assert(inside@ =~= quotes_doubled(chars@.take(0)));
    while i < chars.len()
        invariant
            chars@ == s@,
            i <= chars@.len(),
            special == exists|k: int| 0 <= k < i && is_csv_special(#[trigger] s@[k]),
            inside@ == quotes_doubled(s@.take(i as int)),
        decreases chars@.len() - i,
    {
        let c = chars[i];
        proof {
            let next = s@.take(i + 1);
            assert(next.drop_last() =~= s@.take(i as int));
            assert(next.last() == s@[i as int]);
        }
        if c == ',' || c == '"' || c == '\n' || c == '\r' {
            assert(is_csv_special(s@[i as int]));
            special = true;
        }
        if c == '"' {
            inside.push('"');
        }
        inside.push(c);
        i += 1;
    }
    assert(s@.take(i as int) =~= s@);
    if special {
        let mut out = "\"".to_owned();
        out.append(inside.as_str());
        out.append("\"");
        out
    } else {
        s.to_owned()
    }
}

/// Tabs and line ends become spaces.
pub open spec fn tsv_field(s: Seq<char>) -> Seq<char> {
    Seq::new(
        s.len(),
        |i: int|
            if s[i] == '\t' || s[i] == '\n' || s[i] == '\r' {
                ' '
            } else {
                s[i]
            },
    )
}

fn sanitized_tsv(s: &str) -> (out: String)
    ensures
        out@ == tsv_field(s@),
{
    let chars = chars_of(s);
    let mut out = String::new();
    let mut i: usize = 0;
    while i < chars.len()
        invariant
            chars@ == s@,
            i <= chars@.len(),
            out@ =~= tsv_field(s@).take(i as int),
        decreases chars@.len() - i,
    {
        let c = chars[i];
        if c == '\t' || c == '\n' || c == '\r' {
            out.push(' ');
        } else {
            out.push(c);
        }
        i += 1;
    }
    assert(out@ =~= tsv_field(s@));
    out
}

/// The longest preview in a separated file.
pub const PREVIEW_BYTES: usize = 80;

/// A line for each row: its path, the name of its kind and a preview.
pub open spec fn csv_lines(doc: Document, n: Nums, rows: Seq<QueryResult>) -> Seq<char>
    decreases rows.len(),
{
    if rows.len() == 0 {
        "path,type,preview\n"@
    } else {
        csv_lines(doc, n, rows.drop_last()) + csv_field(rows.last().path@) + ","@ + kind_text(
            rows.last().kind,
        ) + ","@ + csv_field(
            preview_of(doc, n, rows.last().value@, PREVIEW_BYTES as nat),
        ) + "\n"@
    }
}

pub fn render_csv<N: Numbers>(results: &[QueryResult], doc: &Document, num: &N) -> (out: String)
    requires
        num.wf(),
    ensures
        out@ == csv_lines(*doc, nums(num), results@),
{
    let mut out = "path,type,preview\n".to_owned();
    let mut i: usize = 0;
    assert(out@ =~= csv_lines(*doc, nums(num), results@.take(0)));
    while i < results.len()
        invariant
            num.wf(),
            i <= results@.len(),
            out@ == csv_lines(*doc, nums(num), results@.take(i as int)),
        decreases results@.len() - i,
    {
        proof {
            let next = results@.take(i + 1);
            assert(next.drop_last() =~= results@.take(i as int));
        }
        let path = write_csv_field(results[i].path.as_str());
        out.append(path.as_str());
        out.append(",");
        out.append(kind_label(results[i].kind));
        out.append(",");
        let preview = value_preview(doc, num, &results[i].value, PREVIEW_BYTES);
        let field = write_csv_field(preview.as_str());
        out.append(field.as_str());
        out.append("\n");
        i += 1;
    }
    assert(results@.take(i as int) =~= results@);
    out
}

pub open spec fn tsv_lines(doc: Document, n: Nums, rows: Seq<QueryResult>) -> Seq<char>
    decreases rows.len(),
{
    if rows.len() == 0 {
        "path\ttype\tpreview\n"@
    } else {
        tsv_lines(doc, n, rows.drop_last()) + tsv_field(rows.last().path@) + "\t"@ + kind_text(
            rows.last().kind,
        ) + "\t"@ + tsv_field(
            preview_of(doc, n, rows.last().value@, PREVIEW_BYTES as nat),
        ) + "\n"@
    }
}

pub fn render_tsv<N: Numbers>(results: &[QueryResult], doc: &Document, num: &N) -> (out: String)
    requires
        num.wf(),
    ensures
        out@ == tsv_lines(*doc, nums(num), results@),
{
    let mut out = "path\ttype\tpreview\n".to_owned();
    let mut i: usize = 0;
    assert(out@ =~= tsv_lines(*doc, nums(num), results@.take(0)));
    while i < results.len()
        invariant
            num.wf(),
            i <= results@.len(),
            out@ == tsv_lines(*doc, nums(num), results@.take(i as int)),
        decreases results@.len() - i,
    {
        proof {
            let next = results@.take(i + 1);
            assert(next.drop_last() =~= results@.take(i as int));
        }
        let path = sanitized_tsv(results[i].path.as_str());
        out.append(path.as_str());
        out.append("\t");
        out.append(kind_label(results[i].kind));
        out.append("\t");
        let preview = value_preview(doc, num, &results[i].value, PREVIEW_BYTES);
        let field = sanitized_tsv(preview.as_str());
        out.append(field.as_str());
        out.append("\n");
        i += 1;
    }
    assert(results@.take(i as int) =~= results@);
    out
}

/// At most `cap` characters, the last an ellipsis where some are left out.
pub open spec fn capped(s: Seq<char>, cap: nat) -> Seq<char> {
    if s.len() <= cap {
        s
    } else {
        s.take(
            if cap > 0 {
                cap - 1
            } else {
                0
            },
        ) + "\u{2026}"@
    }
}

fn truncate(s: &str, cap: usize) -> (out: String)
    ensures
        out@ == capped(s@, cap as nat),
{
    let chars = chars_of(s);
    if chars.len() <= cap {
        return s.to_owned();
    }
    let keep: usize = if cap > 0 {
        cap - 1
    } else {
        0
    };
    let mut out = string_from(chars.as_slice(), 0, keep);
    assert(out@ =~= s@.take(keep as int));
    out.append("\u{2026}");
    out
}

/// What a table is drawn with.
pub struct BoxGlyphs {
    pub top_left: char,
    pub top_t: char,
    pub top_right: char,
    pub left_t: char,
    pub cross: char,
    pub right_t: char,
    pub bottom_left: char,
    pub bottom_t: char,
    pub bottom_right: char,
    pub h: char,
    pub v: char,
}

pub open spec fn glyphs_of(ascii: bool) -> BoxGlyphs {
    if ascii {
        BoxGlyphs {
            top_left: '+',
            top_t: '+',
            top_right: '+',
            left_t: '+',
            cross: '+',
            right_t: '+',
            bottom_left: '+',
            bottom_t: '+',
            bottom_right: '+',
            h: '-',
            v: '|',
        }
    } else {
        BoxGlyphs {
            top_left: '\u{250c}',
            top_t: '\u{252c}',
            top_right: '\u{2510}',
            left_t: '\u{251c}',
            cross: '\u{253c}',
            right_t: '\u{2524}',
            bottom_left: '\u{2514}',
            bottom_t: '\u{2534}',
            bottom_right: '\u{2518}',
            h: '\u{2500}',
            v: '\u{2502}',
        }
    }
}

fn glyphs(ascii: bool) -> (g: BoxGlyphs)
    ensures
        g == glyphs_of(ascii),
{
    if ascii {
        BoxGlyphs {
            top_left: '+',
            top_t: '+',
            top_right: '+',
            left_t: '+',
            cross: '+',
            right_t: '+',
            bottom_left: '+',
            bottom_t: '+',
            bottom_right: '+',
            h: '-',
            v: '|',
        }
    } else {
        BoxGlyphs {
            top_left: '\u{250c}',
            top_t: '\u{252c}',
            top_right: '\u{2510}',
            left_t: '\u{251c}',
            cross: '\u{253c}',
            right_t: '\u{2524}',
            bottom_left: '\u{2514}',
            bottom_t: '\u{2534}',
            bottom_right: '\u{2518}',
            h: '\u{2500}',
            v: '\u{2502}',
        }
    }
}

/// `n` times the same character.
pub open spec fn run_of(c: char, n: nat) -> Seq<char> {
    Seq::new(n, |i: int| c)
}

fn put_run(out: String, c: char, n: usize) -> (r: String)
    ensures
        r@ == out@ + run_of(c, n as nat),
{
    let ghost before = out@;
    let mut out = out;
    let mut i: usize = 0;
    while i < n
        invariant
            i <= n,
            out@ =~= before + run_of(c, i as nat),
        decreases n - i,
    {
        out.push(c);
        i += 1;
    }
    assert(out@ =~= before + run_of(c, n as nat));
    out
}

/// A line between rows.
pub open spec fn rule_text(
    left: char,
    mid: char,
    right: char,
    fill: char,
    path_w: nat,
    value_w: nat,
) -> Seq<char> {
    Seq::empty().push(left) + run_of(fill, path_w) + run_of(fill, 2) + run_of(mid, 1) + run_of(
        fill,
        value_w,
    ) + run_of(fill, 2) + run_of(right, 1) + run_of('\n', 1)
}

/// A row: each cell between separators, with a space on either side and
/// filled up to its column's width.
pub open spec fn row_text(
    sep: char,
    left: Seq<char>,
    right: Seq<char>,
    path_w: nat,
    value_w: nat,
) -> Seq<char> {
    Seq::empty().push(sep).push(' ') + left + run_of(' ', (path_w - left.len()) as nat) + run_of(
        ' ',
        1,
    ) + run_of(sep, 1) + run_of(' ', 1) + right + run_of(' ', (value_w - right.len()) as nat)
        + run_of(' ', 1) + run_of(sep, 1) + run_of('\n', 1)
}

fn write_horizontal(
    left: char,
    mid: char,
    right: char,
    fill: char,
    path_w: usize,
    value_w: usize,
) -> (out: String)
    ensures
        out@ == rule_text(left, mid, right, fill, path_w as nat, value_w as nat),
{
    let mut out = String::new();
    assert(out@ =~= Seq::empty());
    out.push(left);
    let out = put_run(out, fill, path_w);
    let out = put_run(out, fill, 2);
    let out = put_run(out, mid, 1);
    let out = put_run(out, fill, value_w);
    let out = put_run(out, fill, 2);
    let out = put_run(out, right, 1);
    put_run(out, '\n', 1)
}

fn write_row(sep: char, left: &str, right: &str, path_w: usize, value_w: usize) -> (out: String)
    requires
        left@.len() <= path_w,
        right@.len() <= value_w,
    ensures
        out@ == row_text(sep, left@, right@, path_w as nat, value_w as nat),
{
    let mut out = String::new();
    assert(out@ =~= Seq::empty());
    out.push(sep);
    out.push(' ');
    out.append(left);
    let out = put_run(out, ' ', path_w - display_width(left));
    let out = put_run(out, ' ', 1);
    let out = put_run(out, sep, 1);
    let mut out = put_run(out, ' ', 1);
    out.append(right);
    let out = put_run(out, ' ', value_w - display_width(right));
    let out = put_run(out, ' ', 1);
    let out = put_run(out, sep, 1);
    put_run(out, '\n', 1)
}

/// The width of a text in characters.
fn display_width(s: &str) -> (n: usize)
    ensures
        n == s@.len(),
{
    chars_of(s).len()
}

pub open spec fn path_cell(r: QueryResult, cap: nat) -> Seq<char> {
    capped(r.path@, cap)
}

pub open spec fn value_cell(doc: Document, n: Nums, r: QueryResult, cap: nat) -> Seq<char> {
    capped(json_of(doc, n, r.value@), cap)
}

/// The width of the path column.
pub open spec fn path_width(rows: Seq<QueryResult>, cap: nat) -> nat
    decreases rows.len(),
{
    if rows.len() == 0 {
        4
    } else {
        let w = path_width(rows.drop_last(), cap);
        let here = path_cell(rows.last(), cap).len();
        if here > w {
            here
        } else {
            w
        }
    }
}

/// The width of the value column.
pub open spec fn value_width(doc: Document, n: Nums, rows: Seq<QueryResult>, cap: nat) -> nat
    decreases rows.len(),
{
    if rows.len() == 0 {
        5
    } else {
        let w = value_width(doc, n, rows.drop_last(), cap);
        let here = value_cell(doc, n, rows.last(), cap).len();
        if here > w {
            here
        } else {
            w
        }
    }
}

/// The rows of the table.
pub open spec fn body_text(
    doc: Document,
    n: Nums,
    rows: Seq<QueryResult>,
    sep: char,
    path_cap: nat,
    value_cap: nat,
    path_w: nat,
    value_w: nat,
) -> Seq<char>
    decreases rows.len(),
{
    if rows.len() == 0 {
        Seq::empty()
    } else {
        body_text(doc, n, rows.drop_last(), sep, path_cap, value_cap, path_w, value_w) + row_text(
            sep,
            path_cell(rows.last(), path_cap),
            value_cell(doc, n, rows.last(), value_cap),
            path_w,
            value_w,
        )
    }
}

pub open spec fn table_text(
    doc: Document,
    n: Nums,
    rows: Seq<QueryResult>,
    ascii: bool,
    path_cap: nat,
    value_cap: nat,
) -> Seq<char> {
    if rows.len() == 0 {
        Seq::empty()
    } else {
        let g = glyphs_of(ascii);
        let p = path_width(rows, path_cap);
        let v = value_width(doc, n, rows, value_cap);
        rule_text(g.top_left, g.top_t, g.top_right, g.h, p, v) + row_text(
            g.v,
            "path"@,
            "value"@,
            p,
            v,
        ) + rule_text(g.left_t, g.cross, g.right_t, g.h, p, v) + body_text(
            doc,
            n,
            rows,
            g.v,
            path_cap,
            value_cap,
            p,
            v,
        ) + rule_text(g.bottom_left, g.bottom_t, g.bottom_right, g.h, p, v)
    }
}

/// A column is as wide as each of its cells.
proof fn widths_cover(
    doc: Document,
    n: Nums,
    rows: Seq<QueryResult>,
    path_cap: nat,
    value_cap: nat,
    i: int,
)
    requires
        0 <= i < rows.len(),
    ensures
        path_cell(rows[i], path_cap).len() <= path_width(rows, path_cap),
        value_cell(doc, n, rows[i], value_cap).len() <= value_width(doc, n, rows, value_cap),
    decreases rows.len(),
{
    if i < rows.len() - 1 {
        assert(rows.drop_last()[i] == rows[i]);
        widths_cover(doc, n, rows.drop_last(), path_cap, value_cap, i);
    }
}

proof fn widths_least(doc: Document, n: Nums, rows: Seq<QueryResult>, path_cap: nat, value_cap: nat)
    ensures
        path_width(rows, path_cap) >= 4,
        value_width(doc, n, rows, value_cap) >= 5,
    decreases rows.len(),
{
    if rows.len() > 0 {
        widths_least(doc, n, rows.drop_last(), path_cap, value_cap);
    }
}

/// Every line of a table has the same width.
pub proof fn table_lines_up(
    sep: char,
    left: Seq<char>,
    right: Seq<char>,
    a: char,
    b: char,
    c: char,
    fill: char,
    path_w: nat,
    value_w: nat,
)
    requires
        left.len() <= path_w,
        right.len() <= value_w,
    ensures
        row_text(sep, left, right, path_w, value_w).len() == rule_text(
            a,
            b,
            c,
            fill,
            path_w,
            value_w,
        ).len(),
{
}

/// A table of paths and values. Without results it is empty.
pub fn render_table<N: Numbers>(
    results: &[QueryResult],
    doc: &Document,
    num: &N,
    ascii: bool,
    path_cap: usize,
    value_cap: usize,
) -> (out: String)
    requires
        num.wf(),
    ensures
        out@ == table_text(
            *doc,
            nums(num),
            results@,
            ascii,
            path_cap as nat,
            value_cap as nat,
        ),
{
    if results.len() == 0 {
        let none = String::new();
        assert(none@ =~= Seq::empty());
        return none;
    }
    let ghost n = nums(num);
    let mut paths: Vec<String> = Vec::new();
    let mut values: Vec<String> = Vec::new();
    let mut path_w: usize = 4;
    let mut value_w: usize = 5;
    let mut i: usize = 0;
    while i < results.len()
        invariant
            num.wf(),
            n == nums(num),
            i <= results@.len(),
            paths@.len() == i,
            values@.len() == i,
            forall|k: int|
                0 <= k < i ==> (#[trigger] paths@[k])@ == path_cell(
                    results@[k],
                    path_cap as nat,
                ),
            forall|k: int|
                0 <= k < i ==> (#[trigger] values@[k])@ == value_cell(
                    *doc,
                    n,
                    results@[k],
                    value_cap as nat,
                ),
            path_w == path_width(results@.take(i as int), path_cap as nat),
            value_w == value_width(*doc, n, results@.take(i as int), value_cap as nat),
        decreases results@.len() - i,
    {
        proof {
            let next = results@.take(i + 1);
            assert(next.drop_last() =~= results@.take(i as int));
            assert(next.last() == results@[i as int]);
        }
        let path = truncate(results[i].path.as_str(), path_cap);
        let text = write_value_json(doc, num, &results[i].value);
        let value = truncate(text.as_str(), value_cap);
        let w = display_width(path.as_str());
        if w > path_w {
            path_w = w;
        }
        let w = display_width(value.as_str());
        if w > value_w {
            value_w = w;
        }
        paths.push(path);
        values.push(value);
        i += 1;
    }
    assert(results@.take(i as int) =~= results@);
    let g = glyphs(ascii);
    let mut body = String::new();
    let mut k: usize = 0;
    assert(body@ =~= body_text(
        *doc,
        n,
        results@.take(0),
        g.v,
        path_cap as nat,
        value_cap as nat,
        path_w as nat,
        value_w as nat,
    ));
    while k < results.len()
        invariant
            k <= results@.len(),
            paths@.len() == results@.len(),
            values@.len() == results@.len(),
            forall|j: int|
                0 <= j < results@.len() ==> (#[trigger] paths@[j])@ == path_cell(
                    results@[j],
                    path_cap as nat,
                ),
            forall|j: int|
                0 <= j < results@.len() ==> (#[trigger] values@[j])@ == value_cell(
                    *doc,
                    n,
                    results@[j],
                    value_cap as nat,
                ),
            path_w == path_width(results@, path_cap as nat),
            value_w == value_width(*doc, n, results@, value_cap as nat),
            body@ == body_text(
                *doc,
                n,
                results@.take(k as int),
                g.v,
                path_cap as nat,
                value_cap as nat,
                path_w as nat,
                value_w as nat,
            ),
        decreases results@.len() - k,
    {
        proof {
            let next = results@.take(k + 1);
            assert(next.drop_last() =~= results@.take(k as int));
            assert(next.last() == results@[k as int]);
            widths_cover(*doc, n, results@, path_cap as nat, value_cap as nat, k as int);
        }
        let line = write_row(g.v, paths[k].as_str(), values[k].as_str(), path_w, value_w);
        body.append(line.as_str());
        k += 1;
    }
    proof {
        assert(results@.take(k as int) =~= results@);
        widths_least(*doc, n, results@, path_cap as nat, value_cap as nat);
        reveal_strlit("path");
        reveal_strlit("value");
    }
    let mut out = write_horizontal(g.top_left, g.top_t, g.top_right, g.h, path_w, value_w);
    let head = write_row(g.v, "path", "value", path_w, value_w);
    out.append(head.as_str());
    let rule = write_horizontal(g.left_t, g.cross, g.right_t, g.h, path_w, value_w);
    out.append(rule.as_str());
    out.append(body.as_str());
    let last = write_horizontal(
        g.bottom_left,
        g.bottom_t,
        g.bottom_right,
        g.h,
        path_w,
        value_w,
    );
    out.append(last.as_str());
    out
}

/// A text with each doubled quote read as one.
pub open spec fn quotes_read(s: Seq<char>) -> Seq<char>
    decreases s.len(),
{
    if s.len() == 0 {
        Seq::empty()
    } else if s[0] == '"' {
        seq!['"'] + quotes_read(s.skip(if s.len() > 1 {
            2
        } else {
            1
        }))
    } else {
        seq![s[0]] + quotes_read(s.skip(1))
    }
}

/// What a reader of separated files makes of a field: what stands between its
/// quotes, with doubled quotes read as one, or the field as it is.
pub open spec fn field_read(t: Seq<char>) -> Seq<char> {
    if t.len() >= 2 && t[0] == '"' && t.last() == '"' {
        quotes_read(t.subrange(1, t.len() - 1))
    } else {
        t
    }
}

proof fn doubled_front(s: Seq<char>)
    requires
        s.len() > 0,
    ensures
        quotes_doubled(s) == (if s[0] == '"' {
            seq!['"', '"']
        } else {
            seq![s[0]]
        }) + quotes_doubled(s.skip(1)),
    decreases s.len(),
{
    let head = if s[0] == '"' {
        seq!['"', '"']
    } else {
        seq![s[0]]
    };
    if s.len() == 1 {
        assert(s.drop_last() =~= Seq::empty());
        assert(s.skip(1) =~= Seq::empty());
        assert(quotes_doubled(s) =~= head + quotes_doubled(s.skip(1)));
    } else {
        let less = s.drop_last();
        doubled_front(less);
        assert(less.skip(1) =~= s.skip(1).drop_last());
        assert(s.skip(1).last() == s.last());
        assert(quotes_doubled(s) =~= head + quotes_doubled(s.skip(1)));
    }
}

proof fn doubled_reads_back(s: Seq<char>)
    ensures
        quotes_read(quotes_doubled(s)) == s,
    decreases s.len(),
{
    if s.len() > 0 {
        doubled_front(s);
        doubled_reads_back(s.skip(1));
        let t = quotes_doubled(s);
        let rest = quotes_doubled(s.skip(1));
        if s[0] == '"' {
            assert(t.skip(2) =~= rest);
        } else {
            assert(t.skip(1) =~= rest);
        }
        assert(seq![s[0]] + s.skip(1) =~= s);
    }
}

/// A field of a comma-separated file reads back as the text it was made of,
/// and outside of quotes it holds nothing that would end it.
pub proof fn csv_fields_read_back(s: Seq<char>)
    ensures
        field_read(csv_field(s)) == s,
        !(csv_field(s).len() > 0 && csv_field(s)[0] == '"') ==> forall|i: int|
            0 <= i < csv_field(s).len() ==> {
                let c = #[trigger] csv_field(s)[i];
                c != ',' && c != '"' && c != '\n' && c != '\r'
            },
{
    let t = csv_field(s);
    reveal_strlit("\"");
    if exists|i: int| 0 <= i < s.len() && is_csv_special(#[trigger] s[i]) {
        assert(t.subrange(1, t.len() - 1) =~= quotes_doubled(s));
        doubled_reads_back(s);
        assert(t[0] == '"');
    } else {
        if s.len() > 0 {
            assert(!is_csv_special(s[0]));
        }
        assert forall|i: int| 0 <= i < t.len() implies {
            let c = #[trigger] t[i];
            c != ',' && c != '"' && c != '\n' && c != '\r'
        } by {
            assert(!is_csv_special(s[i]));
        }
    }
}

/// A field of a tab-separated file has the length of its text and holds no tab
/// and no line end; every other character stays.
pub proof fn tsv_fields_stay_in_their_column(s: Seq<char>)
    ensures
        tsv_field(s).len() == s.len(),
        forall|i: int|
            0 <= i < s.len() ==> {
                let c = #[trigger] tsv_field(s)[i];
                &&& c != '\t' && c != '\n' && c != '\r'
                &&& s[i] != '\t' && s[i] != '\n' && s[i] != '\r' ==> c == s[i]
            },
{
}

/// A text cut to a width is the text itself where that fits, else its
/// beginning and an ellipsis, of that width in all.
pub proof fn cut_texts_fit(s: Seq<char>, cap: nat)
    ensures
        s.len() <= cap ==> capped(s, cap) == s,
        s.len() > cap > 0 ==> {
            &&& capped(s, cap).len() == cap
            &&& capped(s, cap).drop_last() == s.take(cap - 1)
            &&& capped(s, cap).last() == '\u{2026}'
        },
{
    reveal_strlit("\u{2026}");
    if s.len() > cap && cap > 0 {
        assert(capped(s, cap).drop_last() =~= s.take(cap - 1));
    }
}

/// One JSON value stands on each line: behind the lines of some rows come those
/// of the rest.
pub proof fn lines_follow_the_rows(
    doc: Document,
    n: Nums,
    a: Seq<QueryResult>,
    b: Seq<QueryResult>,
)
    ensures
        ndjson_text(doc, n, a + b) == ndjson_text(doc, n, a) + ndjson_text(doc, n, b),
        b.len() == 1 ==> ndjson_text(doc, n, b) == json_of(doc, n, b[0].value@) + seq!['\n'],
    decreases b.len(),
{
    reveal_strlit("\n");
    assert("\n"@ =~= seq!['\n']);
    if b.len() == 0 {
        assert(a + b =~= a);
        assert(ndjson_text(doc, n, a) + ndjson_text(doc, n, b) =~= ndjson_text(doc, n, a));
    } else {
        let less = b.drop_last();
        assert((a + b).drop_last() =~= a + less);
        lines_follow_the_rows(doc, n, a, less);
        assert(ndjson_text(doc, n, a + b) =~= ndjson_text(doc, n, a) + ndjson_text(doc, n, b));
        if b.len() == 1 {
            assert(less =~= Seq::empty());
            assert(ndjson_text(doc, n, b) =~= json_of(doc, n, b[0].value@) + seq!['\n']);
        }
    }
}

} // verus!
