//! The spreadsheet view of a result: the top-level fields of its rows as
//! columns, most frequent first.
use vstd::prelude::*;

use crate::browse::{
    child_dto, is_container_kind, key_text, prefix_text, KIND_ARRAY, KIND_OBJECT, PREVIEW_MAX_BYTES,
};
use crate::children::{
    child_rows, engine_node_children_meta_batch, EngineChildMeta, ENGINE_SCAN_STATE_FRESH,
};
use crate::document::{Document, FLAG_OBJECT_MEMBER, NULL_NODE};
use crate::node::{child_count, engine_node_child_count};
use crate::path::parents_first;
use crate::projection::{are_cells, is_cell, parse_top_level_object, top_level, Cell, TableCellDto};
use crate::query::ast::AstV;
use crate::query::canonical::canon;
use crate::query::index::{ForeignKeyIndex, IndexName, IndexRegistry};
use crate::query::number::{nums, Numbers, Nums};
use crate::query::surface::{compiled, compiled_path};
use crate::query::{QueryError, QueryFault};
use crate::session::{
    answered, engine_query_create_index, engine_query_results_at, engine_query_run, leads_to,
    QueryResults,
};
use crate::sidecar::{utf8, utf8_of};
use crate::text::{chars_of, decimal, decimal_text};

verus! {

/// How many columns a table has at most.
pub const MAX_COLUMNS: usize = 20;

/// A row of a result list.
#[derive(Debug)]
pub struct RowDto {
    pub node_id: Option<u32>,
    pub kind: u8,
    pub path: String,
    pub preview: String,
    pub full_text: String,
    /// The children of a container of the document; 0 for other rows.
    pub child_count: u32,
}

/// A row of a table. No key occurs twice among its cells.
#[derive(Debug)]
pub struct TableRowDto {
    pub node_id: Option<u32>,
    pub label: String,
    pub cells: Vec<(String, TableCellDto)>,
}

/// A result as a table.
#[derive(Debug)]
pub struct TableSnapshotDto {
    pub columns: Vec<String>,
    pub rows: Vec<TableRowDto>,
    /// Whether the rows are alike enough for a table to help.
    pub is_tabular: bool,
}

/// The answer to a query, as rows and as a table.
#[derive(Debug)]
pub struct QueryRunDto {
    pub rows: Vec<RowDto>,
    pub hit_limit: bool,
    /// The source and the key of an index that the query lacked.
    pub missing_index: Option<(String, String)>,
    pub scanned_rows: u64,
    pub lookup_calls: u64,
    pub scanned_bytes: u64,
    pub table: TableSnapshotDto,
}

/// The cell of a child.
pub open spec fn child_cell(doc: Document, m: EngineChildMeta) -> Cell {
    if is_container_kind(m.kind) {
        Cell::Container { kind: m.kind, count: m.child_count as nat }
    } else {
        Cell::Scalar {
            kind: m.kind,
            text: prefix_text(doc, m.value_offset, m.value_length, PREVIEW_MAX_BYTES).0,
        }
    }
}

/// The key of a child, if it is an object member with one.
pub open spec fn child_key(doc: Document, m: EngineChildMeta) -> Option<Seq<char>> {
    if m.flags & FLAG_OBJECT_MEMBER != 0 && m.key_length > 0 {
        key_text(doc, m)
    } else {
        None
    }
}

/// The cells of those children that have keys.
pub open spec fn keyed_cells(doc: Document, v: Seq<EngineChildMeta>) -> Seq<(Seq<char>, Cell)>
    decreases v.len(),
{
    if v.len() == 0 {
        Seq::empty()
    } else {
        let rest = keyed_cells(doc, v.drop_last());
        match child_key(doc, v.last()) {
            Some(k) => rest.push((k, child_cell(doc, v.last()))),
            None => rest,
        }
    }
}

/// How many children of an object are looked at.
pub open spec fn looked_at(doc: Document, id: u32) -> u32 {
    if child_count(doc, id) < 2 * MAX_COLUMNS {
        child_count(doc, id)
    } else {
        (2 * MAX_COLUMNS) as u32
    }
}

/// The first children of a node.
pub open spec fn first_children(doc: Document, id: u32, n: u32) -> Seq<EngineChildMeta> {
    let all = child_rows(doc, id);
    if n < all.len() {
        all.take(n as int)
    } else {
        all
    }
}

/// The fields of a row. An object of the document has those of its first
/// children, a made-up row those of its text, any other row none.
pub open spec fn row_cells(doc: Document, r: RowDto) -> Seq<(Seq<char>, Cell)> {
    match r.node_id {
        Some(id) => if r.kind != KIND_OBJECT {
            Seq::empty()
        } else {
            keyed_cells(doc, first_children(doc, id, looked_at(doc, id)))
        },
        None => if r.full_text@.len() == 0 {
            Seq::empty()
        } else {
            match top_level(utf8_of(r.full_text@)) {
                Some(m) => m,
                None => Seq::empty(),
            }
        },
    }
}

#[verifier::spinoff_prover]
fn node_cells(doc: &Document, id: u32) -> (out: Vec<(String, TableCellDto)>)
    requires
        doc.source@.len() < ENGINE_SCAN_STATE_FRESH,
    ensures
        are_cells(out@, keyed_cells(*doc, first_children(*doc, id, looked_at(*doc, id)))),
{
    let count: u32 = engine_node_child_count(doc, id);
    let limit: u32 = if count < 2 * (MAX_COLUMNS as u32) {
        count
    } else {
        2 * (MAX_COLUMNS as u32)
    };
    let batch = engine_node_children_meta_batch(doc, id, 0, limit);
    let ghost all = first_children(*doc, id, looked_at(*doc, id));
    assert(batch@ =~= all);
    let mut out: Vec<(String, TableCellDto)> = Vec::new();
    let mut i: usize = 0;
    assert(all.take(0).len() == 0);
    while i < batch.len()
        invariant
            i <= batch@.len(),
            batch@ == all,
            are_cells(out@, keyed_cells(*doc, all.take(i as int))),
        decreases batch@.len() - i,
    {
        proof {
            let next = all.take(i + 1);
            assert(next.drop_last() =~= all.take(i as int));
            assert(next.last() == all[i as int]);
        }
        let c = child_dto(doc, &batch[i]);
        let cell = if c.is_container {
            TableCellDto {
                kind: c.kind,
                is_container: true,
                text: None,
                count: Some(c.child_count),
            }
        } else {
            TableCellDto { kind: c.kind, is_container: false, text: Some(c.preview), count: None }
        };
        assert(is_cell(cell, child_cell(*doc, all[i as int])));
        if let Some(k) = c.key {
            out.push((k, cell));
        }
        i += 1;
    }
    assert(all.take(i as int) =~= all);
    out
}

/// The fields of a row.
pub fn extract_cells(doc: &Document, r: &RowDto) -> (out: Vec<(String, TableCellDto)>)
    requires
        doc.source@.len() < ENGINE_SCAN_STATE_FRESH,
    ensures
        are_cells(out@, row_cells(*doc, *r)),
{
    match r.node_id {
        Some(id) => if r.kind != KIND_OBJECT {
            Vec::new()
        } else {
            node_cells(doc, id)
        },
        None => if r.full_text.as_str().unicode_len() == 0 {
            Vec::new()
        } else {
            let bytes = utf8(r.full_text.as_str());
            match parse_top_level_object(bytes.as_slice()) {
                Some(v) => v,
                None => Vec::new(),
            }
        },
    }
}

/// A cell put under its key, in place of an earlier one.
pub open spec fn with_cell(v: Seq<(Seq<char>, Cell)>, k: Seq<char>, c: Cell, i: int) -> Seq<
    (Seq<char>, Cell),
>
    decreases v.len() - i,
{
    if !(0 <= i < v.len()) {
        v.push((k, c))
    } else if v[i].0 == k {
        v.update(i, (k, c))
    } else {
        with_cell(v, k, c, i + 1)
    }
}

/// Cells by key: of those under one key the last.
pub open spec fn by_key(v: Seq<(Seq<char>, Cell)>) -> Seq<(Seq<char>, Cell)>
    decreases v.len(),
{
    if v.len() == 0 {
        Seq::empty()
    } else {
        with_cell(by_key(v.drop_last()), v.last().0, v.last().1, 0)
    }
}

proof fn with_cell_once(v: Seq<(Seq<char>, Cell)>, k: Seq<char>, c: Cell, i: int)
    requires
        0 <= i <= v.len(),
        forall|a: int, b: int| 0 <= a < b < v.len() ==> (#[trigger] v[a]).0 != (#[trigger] v[b]).0,
        forall|a: int| 0 <= a < i ==> (#[trigger] v[a]).0 != k,
    ensures
        forall|a: int, b: int|
            0 <= a < b < with_cell(v, k, c, i).len() ==> (#[trigger] with_cell(v, k, c, i)[a]).0 != (
            #[trigger] with_cell(v, k, c, i)[b]).0,
    decreases v.len() - i,
{
    if i < v.len() && v[i].0 != k {
        with_cell_once(v, k, c, i + 1);
        assert(with_cell(v, k, c, i) == with_cell(v, k, c, i + 1));
    } else {
        let w = with_cell(v, k, c, i);
        assert(forall|a: int| 0 <= a < v.len() ==> (#[trigger] w[a]).0 == v[a].0);
        assert forall|a: int, b: int| 0 <= a < b < w.len() implies (#[trigger] w[a]).0 != (
        #[trigger] w[b]).0 by {
            assert(v[a].0 != k || b < v.len());
            if b < v.len() {
                assert(v[a].0 != v[b].0);
            }
        }
    }
}

/// No key of a table row occurs twice.
pub proof fn by_key_once(v: Seq<(Seq<char>, Cell)>)
    ensures
        forall|a: int, b: int|
            0 <= a < b < by_key(v).len() ==> (#[trigger] by_key(v)[a]).0 != (
            #[trigger] by_key(v)[b]).0,
    decreases v.len(),
{
    if v.len() > 0 {
        by_key_once(v.drop_last());
        with_cell_once(by_key(v.drop_last()), v.last().0, v.last().1, 0);
    }
}

#[verifier::spinoff_prover]
fn put_cell(
    v: Vec<(String, TableCellDto)>,
    k: String,
    c: TableCellDto,
    m: Ghost<Seq<(Seq<char>, Cell)>>,
    cell: Ghost<Cell>,
) -> (out: Vec<(String, TableCellDto)>)
    requires
        are_cells(v@, m@),
        is_cell(c, cell@),
    ensures
        are_cells(out@, with_cell(m@, k@, cell@, 0)),
{
    let mut out = v;
    let mut i: usize = 0;
    while i < out.len()
        invariant
            i <= out@.len(),
            out@.len() == m@.len(),
            are_cells(out@, m@),
            with_cell(m@, k@, cell@, 0) == with_cell(m@, k@, cell@, i as int),
            is_cell(c, cell@),
        decreases out@.len() - i,
    {
        assert(out@[i as int].0@ == m@[i as int].0);
        if *out[i].0.as_str() == *k.as_str() {
            out.set(i, (k, c));
            return out;
        }
        i += 1;
    }
    out.push((k, c));
    out
}

#[verifier::spinoff_prover]
fn cells_by_key(v: Vec<(String, TableCellDto)>, m: Ghost<Seq<(Seq<char>, Cell)>>) -> (out: Vec<
    (String, TableCellDto),
>)
    requires
        are_cells(v@, m@),
    ensures
        are_cells(out@, by_key(m@)),
{
    let mut left = v;
    let mut turned: Vec<(String, TableCellDto)> = Vec::new();
    let ghost n = m@.len();
    while left.len() > 0
        invariant
            n == m@.len(),
            left@.len() + turned@.len() == n,
            are_cells(left@, m@.take(left@.len() as int)),
            are_cells(turned@, m@.skip(left@.len() as int).reverse()),
        decreases left@.len(),
    {
        let ghost before = left@;
        if let Some(x) = left.pop() {
            let ghost k = left@.len() as int;
            assert(before[k] == x);
            turned.push(x);
            assert(m@.skip(k).reverse() =~= m@.skip(k + 1).reverse().push(m@[k]));
        }
    }
    let mut out: Vec<(String, TableCellDto)> = Vec::new();
    let ghost mut done: int = 0;
    proof {
        assert(m@.take(0).len() == 0);
        assert(m@.skip(0) =~= m@);
    }
    while turned.len() > 0
        invariant
            n == m@.len(),
            0 <= done,
            done + turned@.len() == n,
            are_cells(out@, by_key(m@.take(done))),
            are_cells(turned@, m@.skip(done).reverse()),
        decreases turned@.len(),
    {
        let ghost before = turned@;
        let ghost d = done;
        if let Some((k, c)) = turned.pop() {
            let ghost rev = m@.skip(d).reverse();
            proof {
                assert(before.last() == (k, c));
                assert(rev[rev.len() - 1] == m@[d]);
                assert(m@.skip(d + 1).reverse() =~= rev.drop_last());
                let next = m@.take(d + 1);
                assert(next.drop_last() =~= m@.take(d));
                assert(next.last() == m@[d]);
            }
            out = put_cell(out, k, c, Ghost(by_key(m@.take(d))), Ghost(m@[d].1));
            proof {
                done = done + 1;
            }
        }
    }
    assert(m@.take(done) =~= m@);
    out
}

/// How often each key occurs, in the order in which the keys first occur.
pub open spec fn counted(v: Seq<(Seq<char>, nat)>, k: Seq<char>, i: int) -> Seq<(Seq<char>, nat)>
    decreases v.len() - i,
{
    if !(0 <= i < v.len()) {
        v.push((k, 1))
    } else if v[i].0 == k {
        v.update(i, (k, v[i].1 + 1))
    } else {
        counted(v, k, i + 1)
    }
}

pub open spec fn tally(keys: Seq<Seq<char>>) -> Seq<(Seq<char>, nat)>
    decreases keys.len(),
{
    if keys.len() == 0 {
        Seq::empty()
    } else {
        counted(tally(keys.drop_last()), keys.last(), 0)
    }
}

/// Puts an entry behind those that occur as often or more often.
pub open spec fn put_ranked(v: Seq<(Seq<char>, nat)>, x: (Seq<char>, nat)) -> Seq<(Seq<char>, nat)>
    decreases v.len(),
{
    if v.len() > 0 && v.last().1 < x.1 {
        put_ranked(v.drop_last(), x).push(v.last())
    } else {
        v.push(x)
    }
}

/// Entries by how often they occur; equal ones keep their order.
pub open spec fn ranked(v: Seq<(Seq<char>, nat)>) -> Seq<(Seq<char>, nat)>
    decreases v.len(),
{
    if v.len() == 0 {
        Seq::empty()
    } else {
        put_ranked(ranked(v.drop_last()), v.last())
    }
}

pub open spec fn cell_keys(m: Seq<(Seq<char>, Cell)>) -> Seq<Seq<char>> {
    Seq::new(m.len(), |i: int| m[i].0)
}

/// The keys of all rows, row by row.
pub open spec fn all_keys(doc: Document, rows: Seq<RowDto>) -> Seq<Seq<char>>
    decreases rows.len(),
{
    if rows.len() == 0 {
        Seq::empty()
    } else {
        all_keys(doc, rows.drop_last()) + cell_keys(row_cells(doc, rows.last()))
    }
}

/// How many rows have fields.
pub open spec fn fielded(doc: Document, rows: Seq<RowDto>) -> nat
    decreases rows.len(),
{
    if rows.len() == 0 {
        0
    } else {
        fielded(doc, rows.drop_last()) + if row_cells(doc, rows.last()).len() > 0 {
            1nat
        } else {
            0
        }
    }
}

/// The columns of a table: the most frequent keys.
pub open spec fn columns_of(doc: Document, rows: Seq<RowDto>) -> Seq<(Seq<char>, nat)> {
    let all = ranked(tally(all_keys(doc, rows)));
    if all.len() > MAX_COLUMNS {
        all.take(MAX_COLUMNS as int)
    } else {
        all
    }
}

pub open spec fn at_least(a: int, b: int) -> int {
    if a > b {
        a
    } else {
        b
    }
}

/// Enough rows have fields, and the most frequent field is in enough of
/// those.
pub open spec fn tabular(doc: Document, rows: Seq<RowDto>) -> bool {
    let c = columns_of(doc, rows);
    let top: nat = if c.len() > 0 {
        c[0].1
    } else {
        0
    };
    &&& rows.len() >= 2
    &&& fielded(doc, rows) >= at_least(2, rows.len() as int * 4 / 10)
    &&& top >= at_least(2, fielded(doc, rows) as int * 6 / 10)
}

/// The text that the paths of made-up rows start with.
pub const SYNTHETIC: &'static str = "(synthetic)";

pub open spec fn starts(s: Seq<char>, p: Seq<char>) -> bool {
    p.len() <= s.len() && s.take(p.len() as int) == p
}

/// The label of the row at place `i`.
pub open spec fn row_label(r: RowDto, i: nat) -> Seq<char> {
    if r.path@.len() > 0 && !starts(r.path@, SYNTHETIC@) {
        r.path@
    } else {
        "["@ + decimal_text(i) + "]"@
    }
}

/// `t` is the table row of the row `r` at place `i`.
pub open spec fn is_table_row(t: TableRowDto, doc: Document, r: RowDto, i: nat) -> bool {
    &&& t.node_id == r.node_id
    &&& t.label@ == row_label(r, i)
    &&& are_cells(t.cells@, by_key(row_cells(doc, r)))
}

/// `t` is the table of these rows. Without rows it is empty.
pub open spec fn is_table(t: TableSnapshotDto, doc: Document, rows: Seq<RowDto>) -> bool {
    let c = columns_of(doc, rows);
    &&& t.columns@.len() == c.len()
    &&& forall|i: int| 0 <= i < c.len() ==> (#[trigger] t.columns@[i])@ == c[i].0
    &&& t.rows@.len() == rows.len()
    &&& forall|i: int|
        0 <= i < rows.len() ==> is_table_row(#[trigger] t.rows@[i], doc, rows[i], i as nat)
    &&& t.is_tabular == tabular(doc, rows)
}

proof fn counted_shape(v: Seq<(Seq<char>, nat)>, k: Seq<char>, i: int)
    requires
        0 <= i <= v.len(),
        forall|a: int, b: int| 0 <= a < b < v.len() ==> (#[trigger] v[a]).0 != (#[trigger] v[b]).0,
        forall|a: int| 0 <= a < i ==> (#[trigger] v[a]).0 != k,
    ensures
        ({
            let w = counted(v, k, i);
            &&& forall|a: int, b: int|
                0 <= a < b < w.len() ==> (#[trigger] w[a]).0 != (#[trigger] w[b]).0
            &&& v.len() <= w.len() <= v.len() + 1
            &&& forall|a: int|
                0 <= a < v.len() ==> (#[trigger] w[a]).0 == v[a].0 && w[a].1 == v[a].1 + if v[a].0 == k {
                    1int
                } else {
                    0
                }
            &&& w.len() == v.len() + 1 ==> w[v.len() as int] == (k, 1nat) && forall|a: int|
                0 <= a < v.len() ==> (#[trigger] v[a]).0 != k
            &&& w.len() == v.len() ==> exists|a: int| 0 <= a < v.len() && (#[trigger] v[a]).0 == k
        }),
    decreases v.len() - i,
{
    if i < v.len() && v[i].0 != k {
        counted_shape(v, k, i + 1);
    } else if i < v.len() {
        let w = counted(v, k, i);
        assert(forall|a: int| 0 <= a < v.len() ==> (#[trigger] w[a]).0 == v[a].0);
        assert(v[i].0 == k);
    }
}

/// How often `k` occurs.
pub open spec fn times(keys: Seq<Seq<char>>, k: Seq<char>) -> nat
    decreases keys.len(),
{
    if keys.len() == 0 {
        0
    } else {
        times(keys.drop_last(), k) + if keys.last() == k {
            1nat
        } else {
            0
        }
    }
}

/// A tally has every key once, with how often it occurs.
pub proof fn tally_counts(keys: Seq<Seq<char>>)
    ensures
        forall|a: int, b: int|
            0 <= a < b < tally(keys).len() ==> (#[trigger] tally(keys)[a]).0 != (
            #[trigger] tally(keys)[b]).0,
        forall|a: int|
            0 <= a < tally(keys).len() ==> (#[trigger] tally(keys)[a]).1 == times(
                keys,
                tally(keys)[a].0,
            ),
        forall|k: Seq<char>|
            #![trigger times(keys, k)]
            times(keys, k) > 0 <==> exists|a: int|
                0 <= a < tally(keys).len() && (#[trigger] tally(keys)[a]).0 == k,
    decreases keys.len(),
{
    if keys.len() > 0 {
        let less = keys.drop_last();
        let v = tally(less);
        let k = keys.last();
        tally_counts(less);
        counted_shape(v, k, 0);
        let w = counted(v, k, 0);
        assert(w == tally(keys));
        if w.len() == v.len() + 1 {
            assert(times(less, k) == 0);
        }
        assert forall|a: int| 0 <= a < w.len() implies (#[trigger] w[a]).1 == times(
            keys,
            w[a].0,
        ) by {
            if a < v.len() {
                assert(v[a].1 == times(less, v[a].0));
            }
        }
        assert forall|x: Seq<char>|
            #![trigger times(keys, x)]
            times(keys, x) > 0 <==> exists|a: int| 0 <= a < w.len() && (#[trigger] w[a]).0 == x by {
            if times(keys, x) > 0 {
                if times(less, x) > 0 {
                    let a = choose|a: int| 0 <= a < v.len() && (#[trigger] v[a]).0 == x;
                    assert(w[a].0 == x);
                } else {
                    assert(x == k);
                    if w.len() == v.len() + 1 {
                        assert(w[v.len() as int].0 == x);
                    } else {
                        let a = choose|a: int| 0 <= a < v.len() && (#[trigger] v[a]).0 == k;
                        assert(w[a].0 == x);
                    }
                }
            }
            if exists|a: int| 0 <= a < w.len() && (#[trigger] w[a]).0 == x {
                let a = choose|a: int| 0 <= a < w.len() && (#[trigger] w[a]).0 == x;
                if a < v.len() {
                    assert(v[a].0 == x);
                    assert(times(less, x) > 0);
                } else {
                    assert(x == k);
                }
            }
        }
    }
}

/// Counts in mathematical form.
pub open spec fn count_views(v: Seq<(String, u128)>) -> Seq<(Seq<char>, nat)> {
    Seq::new(v.len(), |i: int| (v[i].0@, v[i].1 as nat))
}

#[verifier::spinoff_prover]
fn count_key(v: Vec<(String, u128)>, k: &str, most: u128) -> (out: Vec<(String, u128)>)
    requires
        forall|i: int| 0 <= i < v@.len() ==> (#[trigger] v@[i]).1 <= most,
        most < u128::MAX,
    ensures
        count_views(out@) == counted(count_views(v@), k@, 0),
        forall|i: int| 0 <= i < out@.len() ==> (#[trigger] out@[i]).1 <= most + 1,
{
    let ghost all = count_views(v@);
    let mut out = v;
    let mut i: usize = 0;
    while i < out.len()
        invariant
            i <= out@.len(),
            all == count_views(out@),
            all == count_views(v@),
            counted(all, k@, 0) == counted(all, k@, i as int),
            forall|j: int| 0 <= j < out@.len() ==> (#[trigger] out@[j]).1 <= most,
            most < u128::MAX,
        decreases out@.len() - i,
    {
        assert(all[i as int] == (out@[i as int].0@, out@[i as int].1 as nat));
        if *out[i].0.as_str() == *k {
            let n: u128 = out[i].1 + 1;
            out.set(i, (k.to_owned(), n));
            assert(count_views(out@) =~= all.update(i as int, (k@, n as nat)));
            return out;
        }
        i += 1;
    }
    out.push((k.to_owned(), 1));
    assert(count_views(out@) =~= all.push((k@, 1nat)));
    out
}

#[verifier::spinoff_prover]
fn rank(v: &Vec<(String, u128)>) -> (out: Vec<(String, u128)>)
    ensures
        count_views(out@) == ranked(count_views(v@)),
{
    let ghost all = count_views(v@);
    let mut out: Vec<(String, u128)> = Vec::new();
    let mut i: usize = 0;
    assert(count_views(out@) =~= ranked(all.take(0)));
    while i < v.len()
        invariant
            i <= v@.len(),
            all == count_views(v@),
            all.len() == v@.len(),
            count_views(out@) == ranked(all.take(i as int)),
        decreases v@.len() - i,
    {
        proof {
            let next = all.take(i + 1);
            assert(next.drop_last() =~= all.take(i as int));
            assert(next.last() == all[i as int]);
        }
        out = put_in_rank(out, v[i].0.clone(), v[i].1);
        i += 1;
    }
    assert(all.take(i as int) =~= all);
    out
}

#[verifier::spinoff_prover]
fn put_in_rank(v: Vec<(String, u128)>, k: String, n: u128) -> (out: Vec<(String, u128)>)
    ensures
        count_views(out@) == put_ranked(count_views(v@), (k@, n as nat)),
{
    let ghost all = count_views(v@);
    let ghost x = (k@, n as nat);
    let mut kept = v;
    let mut p: usize = kept.len();
    proof {
        assert(all.take(p as int) =~= all);
        assert(all.subrange(p as int, all.len() as int) =~= Seq::empty());
        assert(put_ranked(all, x) + Seq::<(Seq<char>, nat)>::empty() =~= put_ranked(all, x));
    }
    while p > 0 && kept[p - 1].1 < n
        invariant
            all == count_views(kept@),
            all.len() == kept@.len(),
            x.1 == n,
            p <= kept@.len(),
            put_ranked(all, x) == put_ranked(all.take(p as int), x) + all.subrange(
                p as int,
                all.len() as int,
            ),
        decreases p,
    {
        proof {
            let t = all.take(p as int);
            assert(t.last() == all[p - 1]);
            assert(t.drop_last() =~= all.take(p - 1));
            let rest = put_ranked(all.take(p - 1), x);
            assert(rest.push(all[p - 1]) + all.subrange(p as int, all.len() as int) =~= rest
                + all.subrange(p - 1, all.len() as int));
        }
        p -= 1;
    }
    proof {
        let t = all.take(p as int);
        if p > 0 {
            assert(t.last() == all[p - 1]);
        }
        assert(put_ranked(t, x) == t.push(x));
    }
    kept.insert(p, (k, n));
    assert(count_views(kept@) =~= all.take(p as int).push(x) + all.subrange(
        p as int,
        all.len() as int,
    ));
    kept
}

/// Counts the keys of a row.
#[verifier::spinoff_prover]
fn count_cells(
    v: Vec<(String, u128)>,
    cells: &Vec<(String, TableCellDto)>,
    m: Ghost<Seq<(Seq<char>, Cell)>>,
    keys: Ghost<Seq<Seq<char>>>,
    most: u128,
) -> (out: Vec<(String, u128)>)
    requires
        are_cells(cells@, m@),
        count_views(v@) == tally(keys@),
        most + usize::MAX < u128::MAX,
        forall|i: int| 0 <= i < v@.len() ==> (#[trigger] v@[i]).1 <= most,
    ensures
        count_views(out@) == tally(keys@ + cell_keys(m@)),
        forall|i: int| 0 <= i < out@.len() ==> (#[trigger] out@[i]).1 <= most + cells@.len(),
{
    let ghost all = cell_keys(m@);
    let mut out = v;
    let mut i: usize = 0;
    assert(keys@ + all.take(0) =~= keys@);
    while i < cells.len()
        invariant
            i <= cells@.len(),
            cells@.len() == m@.len(),
            are_cells(cells@, m@),
            all == cell_keys(m@),
            most + usize::MAX < u128::MAX,
            count_views(out@) == tally(keys@ + all.take(i as int)),
            forall|j: int| 0 <= j < out@.len() ==> (#[trigger] out@[j]).1 <= most + i,
        decreases cells@.len() - i,
    {
        proof {
            let next = keys@ + all.take(i + 1);
            assert(next.drop_last() =~= keys@ + all.take(i as int));
            assert(next.last() == all[i as int]);
            assert(cells@[i as int].0@ == m@[i as int].0);
        }
        out = count_key(out, cells[i].0.as_str(), most + i as u128);
        i += 1;
    }
    assert(all.take(i as int) =~= all);
    out
}

fn is_synthetic(s: &str) -> (b: bool)
    ensures
        b == starts(s@, SYNTHETIC@),
{
    let a = chars_of(s);
    let p = chars_of(SYNTHETIC);
    if p.len() > a.len() {
        return false;
    }
    let mut i: usize = 0;
    while i < p.len()
        invariant
            i <= p@.len() <= a@.len(),
            a@ == s@,
            p@ == SYNTHETIC@,
            forall|k: int| 0 <= k < i ==> a@[k] == p@[k],
        decreases p@.len() - i,
    {
        if a[i] != p[i] {
            assert(s@.take(p@.len() as int)[i as int] != p@[i as int]);
            return false;
        }
        i += 1;
    }
    assert(s@.take(p@.len() as int) =~= p@);
    true
}

fn label_for(r: &RowDto, i: usize) -> (s: String)
    ensures
        s@ == row_label(*r, i as nat),
{
    if r.path.as_str().unicode_len() > 0 && !is_synthetic(r.path.as_str()) {
        r.path.clone()
    } else {
        let mut s = "[".to_owned();
        let n = decimal(i as u64);
        s.append(n.as_str());
        s.append("]");
        s
    }
}

fn share(n: usize, tenths: usize) -> (k: usize)
    requires
        tenths <= 10,
    ensures
        k == at_least(2, n as int * tenths as int / 10),
        k <= 2 || k <= n,
{
    assert(0 <= n * tenths <= n * 10) by (nonlinear_arith)
        requires
            0 <= n,
            0 <= tenths <= 10,
    ;
    let wide: u128 = (n as u128) * (tenths as u128) / 10;
    if wide > 2 {
        wide as usize
    } else {
        2
    }
}

/// The table of some rows.
#[verifier::spinoff_prover]
pub fn build_table(doc: &Document, rows: &Vec<RowDto>) -> (t: TableSnapshotDto)
    requires
        doc.source@.len() < ENGINE_SCAN_STATE_FRESH,
    ensures
        is_table(t, *doc, rows@),
{
    let ghost all = rows@;
    let mut out: Vec<TableRowDto> = Vec::new();
    let mut counts: Vec<(String, u128)> = Vec::new();
    let mut with_fields: usize = 0;
    let mut i: usize = 0;
    proof {
        assert(all.take(0).len() == 0);
        assert(count_views(counts@) =~= tally(all_keys(*doc, all.take(0))));
    }
    let mut most: u128 = 0;
    while i < rows.len()
        invariant
            doc.source@.len() < ENGINE_SCAN_STATE_FRESH,
            all == rows@,
            i <= all.len(),
            out@.len() == i,
            with_fields <= i,
            most <= i * 0xFFFF_FFFF_FFFF_FFFF,
            with_fields == fielded(*doc, all.take(i as int)),
            count_views(counts@) == tally(all_keys(*doc, all.take(i as int))),
            forall|k: int| 0 <= k < counts@.len() ==> (#[trigger] counts@[k]).1 <= most,
            forall|k: int|
                0 <= k < i ==> is_table_row(#[trigger] out@[k], *doc, all[k], k as nat),
        decreases all.len() - i,
    {
        let ghost m = row_cells(*doc, all[i as int]);
        proof {
            let next = all.take(i + 1);
            assert(next.drop_last() =~= all.take(i as int));
            assert(next.last() == all[i as int]);
        }
        let cells = extract_cells(doc, &rows[i]);
        let n: usize = cells.len();
        if n > 0 {
            with_fields = with_fields + 1;
        }
        counts = count_cells(
            counts,
            &cells,
            Ghost(m),
            Ghost(all_keys(*doc, all.take(i as int))),
            most,
        );
        most = most + n as u128;
        let row = TableRowDto {
            node_id: rows[i].node_id,
            label: label_for(&rows[i], i),
            cells: cells_by_key(cells, Ghost(m)),
        };
        out.push(row);
        i += 1;
    }
    assert(all.take(i as int) =~= all);
    let mut cols = rank(&counts);
    let ghost c = ranked(tally(all_keys(*doc, all)));
    assert(cols@.len() == c.len());
    if cols.len() > MAX_COLUMNS {
        cols.truncate(MAX_COLUMNS);
    }
    assert(count_views(cols@) =~= columns_of(*doc, all));
    let top: u128 = if cols.len() > 0 {
        cols[0].1
    } else {
        0
    };
    let mut columns: Vec<String> = Vec::new();
    let mut j: usize = 0;
    while j < cols.len()
        invariant
            j <= cols@.len(),
            columns@.len() == j,
            forall|k: int| 0 <= k < j ==> (#[trigger] columns@[k])@ == cols@[k].0@,
        decreases cols@.len() - j,
    {
        columns.push(cols[j].0.clone());
        j += 1;
    }
    proof {
        let cv = columns_of(*doc, all);
        assert forall|k: int| 0 <= k < cv.len() implies (#[trigger] columns@[k])@ == cv[k].0 by {
            assert(count_views(cols@)[k] == cv[k]);
        }
        if cols@.len() > 0 {
            assert(count_views(cols@)[0] == cv[0]);
        }
    }
    let is_tabular = rows.len() >= 2 && with_fields >= share(rows.len(), 4) && top >= share(
        with_fields,
        6,
    ) as u128;
    TableSnapshotDto { columns, rows: out, is_tabular }
}

/// `d` is the list row of row `i` of an answer.
pub open spec fn is_row(d: RowDto, doc: Document, q: QueryResults, i: int) -> bool {
    let r = q.results@[i];
    let id = leads_to(r.value@);
    &&& d.node_id == if id == NULL_NODE {
        None
    } else {
        Some(id)
    }
    &&& d.kind == r.kind
    &&& d.path@ == r.path@
    &&& d.preview@ == q.presentation@[i].preview@
    &&& d.full_text@ == q.presentation@[i].full_text@
    &&& d.child_count == if id != NULL_NODE && is_container_kind(r.kind) {
        child_count(doc, id)
    } else {
        0
    }
}

/// `d` is the answer `q`, as rows and as a table.
pub open spec fn is_run(d: QueryRunDto, doc: Document, q: QueryResults) -> bool {
    &&& d.rows@.len() == q.results@.len()
    &&& forall|i: int| 0 <= i < d.rows@.len() ==> is_row(#[trigger] d.rows@[i], doc, q, i)
    &&& d.hit_limit == q.hit_limit
    &&& d.missing_index == q.missing_index
    &&& d.scanned_rows == q.scanned_rows
    &&& d.lookup_calls == q.lookup_calls
    &&& d.scanned_bytes == q.scanned_bytes
    &&& is_table(d.table, doc, d.rows@)
}

/// The answer to a query, as rows and as a table.
#[verifier::spinoff_prover]
pub fn collect_results(doc: &Document, q: QueryResults) -> (d: QueryRunDto)
    requires
        q.presentation@.len() == q.results@.len(),
        q.results@.len() <= u32::MAX,
        doc.source@.len() < ENGINE_SCAN_STATE_FRESH,
    ensures
        is_run(d, *doc, q),
{
    let mut rows: Vec<RowDto> = Vec::new();
    let n: usize = q.results.len();
    let mut i: usize = 0;
    while i < n
        invariant
            n == q.results@.len(),
            q.presentation@.len() == n,
            n <= u32::MAX,
            i <= n,
            rows@.len() == i,
            forall|k: int| 0 <= k < i ==> is_row(#[trigger] rows@[k], *doc, q, k),
        decreases n - i,
    {
        if let Some(v) = engine_query_results_at(&q, i as u32) {
            let node_id = if v.node_id == NULL_NODE {
                None
            } else {
                Some(v.node_id)
            };
            let child_count: u32 = if v.node_id != NULL_NODE && (v.kind == KIND_ARRAY || v.kind
                == KIND_OBJECT) {
                engine_node_child_count(doc, v.node_id)
            } else {
                0
            };
            rows.push(
                RowDto {
                    node_id,
                    kind: v.kind,
                    path: v.path.to_owned(),
                    preview: v.preview.to_owned(),
                    full_text: v.full_text.to_owned(),
                    child_count,
                },
            );
        }
        i += 1;
    }
    let table = build_table(doc, &rows);
    QueryRunDto {
        rows,
        hit_limit: q.hit_limit,
        missing_index: q.missing_index,
        scanned_rows: q.scanned_rows,
        lookup_calls: q.lookup_calls,
        scanned_bytes: q.scanned_bytes,
        table,
    }
}

/// Why a query was not run.
pub open spec fn failure_text(f: QueryFault) -> Seq<char> {
    if f.message.len() == 0 {
        "query failed"@
    } else {
        "parse error at position "@ + decimal_text(f.position as nat) + ": "@ + f.message
    }
}

fn last_query_error(e: &QueryError) -> (s: String)
    ensures
        s@ == failure_text(e@),
{
    if e.message.as_str().unicode_len() == 0 {
        return "query failed".to_owned();
    }
    let mut s = "parse error at position ".to_owned();
    let at = decimal(e.position as u64);
    s.append(at.as_str());
    s.append(": ");
    s.append(e.message.as_str());
    s
}

/// `d` is the answer to a compiled query with these indexes.
pub open spec fn ran(
    d: QueryRunDto,
    doc: Document,
    n: Nums,
    indexes: IndexRegistry,
    a: AstV,
    limit: u32,
) -> bool {
    exists|q: QueryResults| #[trigger]
        answered(q, doc, n, indexes, a, limit) && is_run(d, doc, q)
}

/// The index that a pair of paths names is there.
pub open spec fn is_indexed(indexes: IndexRegistry, source: Seq<char>, key: Seq<char>) -> bool {
    match (compiled_path(source), compiled_path(key)) {
        (Ok(s), Ok(k)) => indexes.has(
            IndexName {
                source: canon(s),
                key: canon(k),
            },
        ),
        _ => false,
    }
}

/// What becomes of the first answer `q` to a query: where it lacks an index
/// that can be built, the query is run again with that index; any other
/// answer stands, and no index is built.
pub open spec fn followed_up(
    d: QueryRunDto,
    doc: Document,
    n: Nums,
    before: IndexRegistry,
    after: IndexRegistry,
    a: AstV,
    limit: u32,
    q: QueryResults,
) -> bool {
    match q.missing_index {
        Some(m) => if compiled_path(m.0@) is Ok && compiled_path(m.1@) is Ok {
            is_indexed(after, m.0@, m.1@) && ran(d, doc, n, after, a, limit)
        } else {
            after == before && is_run(d, doc, q)
        },
        None => after == before && is_run(d, doc, q),
    }
}

/// Runs a query. Where it lacks an index, that index is built and the query
/// is run once more.
#[verifier::spinoff_prover]
pub fn run_query<N: Numbers>(
    doc: &Document,
    num: &N,
    indexes: &mut IndexRegistry,
    query: &str,
    limit: u32,
) -> (r: Result<QueryRunDto, String>)
    requires
        num.wf(),
        old(indexes).wf(),
        parents_first(*doc),
        doc.records@.len() <= NULL_NODE,
        doc.source@.len() < ENGINE_SCAN_STATE_FRESH,
    ensures
        final(indexes).wf(),
        match compiled(query@, Seq::empty()) {
            Err(f) => r matches Err(s) && s@ == failure_text(f) && *final(indexes) == *old(indexes),
            Ok(a) => if doc.records@.len() == 0 {
                r matches Err(s) && s@ == "query failed"@ && *final(indexes) == *old(indexes)
            } else {
                r matches Ok(d) && exists|q: QueryResults| #[trigger]
                    answered(q, *doc, nums(num), *old(indexes), a, limit) && followed_up(
                        d,
                        *doc,
                        nums(num),
                        *old(indexes),
                        *final(indexes),
                        a,
                        limit,
                        q,
                    )
            },
        },
{
    let first = match engine_query_run(doc, num, indexes, query, limit) {
        Ok(Some(q)) => q,
        Ok(None) => {
            return Err("query failed".to_owned());
        },
        Err(e) => {
            return Err(last_query_error(&e));
        },
    };
    proof {
        answer_fits(first, *doc, nums(num), *indexes, limit);
    }
    let lacks = match &first.missing_index {
        Some((source, key)) => {
            let ghost before = *indexes;
            match engine_query_create_index(doc, num, indexes, source.as_str(), key.as_str()) {
                Ok(_) => {
                    proof {
                        let s = compiled_path(source@)->Ok_0;
                        let k = compiled_path(key@)->Ok_0;
                        let name = IndexName {
                            source: canon(s),
                            key: canon(k),
                        };
                        let x = choose|x: ForeignKeyIndex| #[trigger]
                            indexes.holds(name, x);
                        assert(indexes.holds(name, x));
                        assert(is_indexed(*indexes, source@, key@));
                    }
                    true
                },
                Err(_) => false,
            }
        },
        None => false,
    };
    if lacks {
        match engine_query_run(doc, num, indexes, query, limit) {
            Ok(Some(q)) => {
                proof {
                    answer_fits(q, *doc, nums(num), *indexes, limit);
                }
                return Ok(collect_results(doc, q));
            },
            Ok(None) => {
                return Err("query failed".to_owned());
            },
            Err(e) => {
                return Err(last_query_error(&e));
            },
        }
    }
    Ok(collect_results(doc, first))
}

/// An answer shows each of its rows, and has no more of them than were asked
/// for.
proof fn answer_fits(q: QueryResults, doc: Document, n: Nums, indexes: IndexRegistry, limit: u32)
    ensures
        forall|a: AstV| #[trigger]
            answered(q, doc, n, indexes, a, limit) ==> q.presentation@.len() == q.results@.len()
                && q.results@.len() <= limit,
{
}

/// Entries rank by how often they occur: none stands before one that occurs
/// more often, and all of them are there.
pub proof fn ranks_go_by_frequency(v: Seq<(Seq<char>, nat)>)
    ensures
        ranked(v).len() == v.len(),
        ranked(v).to_multiset() == v.to_multiset(),
        forall|i: int, j: int|
            0 <= i < j < ranked(v).len() ==> (#[trigger] ranked(v)[i]).1 >= (#[trigger] ranked(
                v,
            )[j]).1,
    decreases v.len(),
{
    broadcast use vstd::seq_lib::group_to_multiset_ensures;

    if v.len() > 0 {
        let less = v.drop_last();
        ranks_go_by_frequency(less);
        put_ranked_ranks(ranked(less), v.last());
        assert(less.push(v.last()) =~= v);
    } else {
        assert(ranked(v) =~= v);
    }
}

proof fn put_ranked_ranks(v: Seq<(Seq<char>, nat)>, x: (Seq<char>, nat))
    requires
        forall|i: int, j: int| 0 <= i < j < v.len() ==> (#[trigger] v[i]).1 >= (#[trigger] v[j]).1,
    ensures
        put_ranked(v, x).len() == v.len() + 1,
        put_ranked(v, x).to_multiset() == v.to_multiset().insert(x),
        forall|i: int, j: int|
            0 <= i < j < put_ranked(v, x).len() ==> (#[trigger] put_ranked(v, x)[i]).1 >= (
            #[trigger] put_ranked(v, x)[j]).1,
        forall|i: int|
            0 <= i < put_ranked(v, x).len() ==> (#[trigger] put_ranked(v, x)[i]) == x || v.contains(
                put_ranked(v, x)[i],
            ),
    decreases v.len(),
{
    broadcast use vstd::seq_lib::group_to_multiset_ensures;

    let out = put_ranked(v, x);
    if v.len() > 0 && v.last().1 < x.1 {
        let less = v.drop_last();
        put_ranked_ranks(less, x);
        let inner = put_ranked(less, x);
        assert(less.push(v.last()) =~= v);
        assert(less.to_multiset().insert(x).insert(v.last()) =~= less.to_multiset().insert(
            v.last(),
        ).insert(x));
        assert forall|i: int| 0 <= i < out.len() implies (#[trigger] out[i]) == x || v.contains(
            out[i],
        ) by {
            if i < inner.len() {
                assert(out[i] == inner[i]);
                if inner[i] != x {
                    let k = choose|k: int| 0 <= k < less.len() && less[k] == inner[i];
                    assert(v[k] == out[i]);
                }
            } else {
                assert(v[v.len() - 1] == out[i]);
            }
        }
        assert forall|i: int, j: int| 0 <= i < j < out.len() implies (#[trigger] out[i]).1 >= (
        #[trigger] out[j]).1 by {
            assert(out[i] == inner[i]);
            if j < inner.len() {
                assert(out[j] == inner[j]);
            } else if inner[i] != x {
                let k = choose|k: int| 0 <= k < less.len() && less[k] == inner[i];
                assert(v[k].1 >= v[v.len() - 1].1);
            }
        }
    } else {
        assert(out == v.push(x));
        assert forall|i: int| 0 <= i < out.len() implies (#[trigger] out[i]) == x || v.contains(
            out[i],
        ) by {
            if i < v.len() {
                assert(v[i] == out[i]);
            }
        }
        assert forall|i: int, j: int| 0 <= i < j < out.len() implies (#[trigger] out[i]).1 >= (
        #[trigger] out[j]).1 by {
            assert(out[i] == v[i]);
            if j < v.len() {
                assert(out[j] == v[j]);
            } else if v.len() > 0 {
                if i < v.len() - 1 {
                    assert(v[i].1 >= v[v.len() - 1].1);
                }
            }
        }
    }
}

} // verus!
