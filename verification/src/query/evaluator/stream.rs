//! Rows, streams of rows and the environment of an evaluation.
use vstd::prelude::*;

use super::super::index::{ForeignKeyIndex, IndexName, IndexRegistry, ScalarKey, ScalarKeyV};
use super::super::number::{nums, whole_number, Numbers};
use super::super::value::{Scalar, Value, ValueV};
use super::model::{
    all_of, any_true, broken, first, has_true, index_named, key_of, latest, lookup_rows, no_rows,
    nodes_under, one, values_of, CtxV, EnvV, Missing, RowV, StreamV,
};
use super::scan::{push_value, seen};
use crate::document::{Document, NULL_NODE};

verus! {

/// Why an evaluation stopped.
#[derive(Debug)]
pub enum EvalError {
    /// A `lookup` found no index of this source and key.
    MissingIndex { source: String, key: String },
}

impl View for EvalError {
    type V = Missing;

    open spec fn view(&self) -> Missing {
        match self {
            EvalError::MissingIndex { source, key } => Missing { source: source@, key: key@ },
        }
    }
}

pub open spec fn err_view(e: Option<EvalError>) -> Option<Missing> {
    match e {
        Some(x) => Some(x@),
        None => None,
    }
}

impl EvalError {
    pub fn copy(&self) -> (e: EvalError)
        ensures
            e@ == self@,
    {
        match self {
            EvalError::MissingIndex { source, key } => EvalError::MissingIndex {
                source: source.clone(),
                key: key.clone(),
            },
        }
    }
}

/// The names bound on the way to a row, latest last, and the finished
/// reductions of the group that is being written.
pub struct Env {
    pub binds: Vec<(String, Value)>,
    pub slots: Vec<Option<u64>>,
}

pub open spec fn bind_views(v: Seq<(String, Value)>) -> Seq<(Seq<char>, ValueV)> {
    Seq::new(v.len(), |i: int| (v[i].0@, v[i].1@))
}

impl View for Env {
    type V = EnvV;

    open spec fn view(&self) -> EnvV {
        EnvV { binds: bind_views(self.binds@), slots: self.slots@ }
    }
}

impl Env {
    pub fn new() -> (e: Env)
        ensures
            e@ == (EnvV { binds: Seq::empty(), slots: Seq::empty() }),
    {
        let e = Env { binds: Vec::new(), slots: Vec::new() };
        assert(e@.binds =~= Seq::empty());
        assert(e@.slots =~= Seq::empty());
        e
    }

    pub fn copy(&self) -> (e: Env)
        ensures
            e@ == self@,
    {
        let mut binds: Vec<(String, Value)> = Vec::new();
        let mut i: usize = 0;
        while i < self.binds.len()
            invariant
                i <= self.binds@.len(),
                bind_views(binds@) =~= bind_views(self.binds@).take(i as int),
            decreases self.binds@.len() - i,
        {
            let ghost so_far = binds@;
            binds.push((self.binds[i].0.clone(), self.binds[i].1.copy()));
            proof {
                let all = bind_views(self.binds@);
                assert(bind_views(binds@) =~= bind_views(so_far).push(all[i as int]));
                assert(all.take(i + 1) =~= all.take(i as int).push(all[i as int]));
            }
            i += 1;
        }
        assert(bind_views(binds@) =~= bind_views(self.binds@));
        let mut slots: Vec<Option<u64>> = Vec::new();
        let mut j: usize = 0;
        while j < self.slots.len()
            invariant
                j <= self.slots@.len(),
                slots@ =~= self.slots@.take(j as int),
            decreases self.slots@.len() - j,
        {
            slots.push(self.slots[j]);
            j += 1;
        }
        assert(slots@ =~= self.slots@);
        Env { binds, slots }
    }

    /// The environment with one more name.
    pub fn bind(&self, name: &str, v: Value) -> (e: Env)
        ensures
            e@ == self@.bind(name@, v@),
    {
        let mut e = self.copy();
        let ghost before = e@;
        let text = name.to_owned();
        let ghost added = (text@, v@);
        e.binds.push((text, v));
        assert(e@.binds =~= before.binds.push(added));
        e
    }

    /// The environment with these reductions.
    pub fn with_slots(&self, slots: Vec<Option<u64>>) -> (e: Env)
        ensures
            e@ == (EnvV { binds: self@.binds, slots: slots@ }),
    {
        let e = self.copy();
        Env { binds: e.binds, slots }
    }

    pub fn get(&self, name: &str) -> (r: Option<Value>)
        ensures
            match self@.get(name@) {
                Some(v) => r matches Some(x) && x@ == v,
                None => r is None,
            },
    {
        let mut i: usize = self.binds.len();
        proof {
            assert(self@.binds.take(i as int) =~= self@.binds);
        }
        while i > 0
            invariant
                i <= self.binds@.len(),
                latest(self@.binds, name@) == latest(self@.binds.take(i as int), name@),
            decreases i,
        {
            proof {
                let t = self@.binds.take(i as int);
                assert(t.last() == self@.binds[i - 1]);
                assert(t.drop_last() =~= self@.binds.take(i - 1));
            }
            if *self.binds[i - 1].0.as_str() == *name {
                return Some(self.binds[i - 1].1.copy());
            }
            i -= 1;
        }
        None
    }

    pub fn slot(&self, i: usize) -> (r: Option<u64>)
        ensures
            r == self@.slot(i as int),
    {
        if i < self.slots.len() {
            self.slots[i]
        } else {
            None
        }
    }
}

pub struct Row {
    pub env: Env,
    pub value: Value,
}

impl View for Row {
    type V = RowV;

    open spec fn view(&self) -> RowV {
        RowV { env: self.env@, value: self.value@ }
    }
}

pub open spec fn row_views(v: Seq<Row>) -> Seq<RowV> {
    Seq::new(v.len(), |i: int| v[i]@)
}

/// Appends a row.
pub fn push_row(rows: &mut Vec<Row>, r: Row)
    ensures
        row_views(final(rows)@) == row_views(old(rows)@).push(r@),
        final(rows)@.len() == old(rows)@.len() + 1,
{
    let ghost before = rows@;
    let ghost added = r@;
    rows.push(r);
    assert(row_views(rows@) =~= row_views(before).push(added));
}

/// Rows, then the end or an error.
pub struct Stream {
    pub rows: Vec<Row>,
    pub err: Option<EvalError>,
}

impl View for Stream {
    type V = StreamV;

    open spec fn view(&self) -> StreamV {
        StreamV { rows: row_views(self.rows@), err: err_view(self.err) }
    }
}

impl Stream {
    pub fn none() -> (s: Stream)
        ensures
            s@ == no_rows(),
    {
        let s = Stream { rows: Vec::new(), err: None };
        assert(s@.rows =~= Seq::empty());
        s
    }

    pub fn one(env: &Env, v: Value) -> (s: Stream)
        ensures
            s@ == one(env@, v@),
    {
        let mut s = Stream::none();
        let row = Row { env: env.copy(), value: v };
        let ghost r = row@;
        push_row(&mut s.rows, row);
        assert(s@.rows =~= seq![r]);
        s
    }

    pub fn broken(e: EvalError) -> (s: Stream)
        ensures
            s@ == broken(e@),
    {
        let s = Stream { rows: Vec::new(), err: Some(e) };
        assert(s@.rows =~= Seq::empty());
        s
    }

    /// A row for each value.
    pub fn all_of(env: &Env, v: Vec<Value>) -> (s: Stream)
        ensures
            s@ == all_of(env@, seen(v@)),
    {
        let ghost all = seen(v@);
        let mut rows: Vec<Row> = Vec::new();
        let mut left = v;
        let ghost n = left@.len();
        let mut i: usize = 0;
        while i < left.len()
            invariant
                i <= left@.len(),
                all == seen(left@),
                row_views(rows@) =~= all_of(env@, all).rows.take(i as int),
            decreases left@.len() - i,
        {
            let row = Row { env: env.copy(), value: left[i].copy() };
            push_row(&mut rows, row);
            i += 1;
        }
        let s = Stream { rows, err: None };
        assert(s@.rows =~= all_of(env@, all).rows);
        s
    }

    /// At most one row.
    pub fn opt(env: &Env, v: Option<Value>) -> (s: Stream)
        ensures
            s@ == super::model::opt_row(
                env@,
                match v {
                    Some(x) => Some(x@),
                    None => None,
                },
            ),
    {
        match v {
            Some(x) => Stream::one(env, x),
            None => Stream::none(),
        }
    }

    pub fn flag(env: &Env, r: Result<bool, EvalError>) -> (s: Stream)
        ensures
            s@ == super::model::flag(env@, bool_view(r)),
    {
        match r {
            Ok(b) => Stream::one(env, Value::Bool(b)),
            Err(e) => Stream::broken(e),
        }
    }

    /// The first value.
    pub fn first(self) -> (r: Result<Option<Value>, EvalError>)
        ensures
            first_view(r) == first(self@),
    {
        if self.rows.len() > 0 {
            assert(self@.rows[0] == self.rows@[0]@);
            Ok(Some(self.rows[0].value.copy()))
        } else {
            match self.err {
                Some(e) => Err(e),
                None => Ok(None),
            }
        }
    }

    /// Some value is truthy.
    pub fn any_true(self, doc: &Document) -> (r: Result<bool, EvalError>)
        ensures
            bool_view(r) == any_true(*doc, self@),
    {
        if rows_true(&self.rows, doc) {
            Ok(true)
        } else {
            match self.err {
                Some(e) => Err(e),
                None => Ok(false),
            }
        }
    }

    /// All values, unless the stream breaks.
    pub fn all(self) -> (r: Result<Vec<Value>, EvalError>)
        ensures
            match self@.err {
                Some(e) => r matches Err(x) && x@ == e,
                None => r matches Ok(v) && seen(v@) == values_of(self@.rows),
            },
    {
        match self.err {
            Some(e) => Err(e),
            None => Ok(row_values(&self.rows)),
        }
    }
}

/// The values of these rows.
pub fn row_values(rows: &Vec<Row>) -> (out: Vec<Value>)
    ensures
        seen(out@) == values_of(row_views(rows@)),
{
    let ghost all = values_of(row_views(rows@));
    let mut out: Vec<Value> = Vec::new();
    let mut i: usize = 0;
    while i < rows.len()
        invariant
            i <= rows@.len(),
            all == values_of(row_views(rows@)),
            seen(out@) =~= all.take(i as int),
        decreases rows@.len() - i,
    {
        let v = rows[i].value.copy();
        assert(v@ == row_views(rows@)[i as int].value);
        push_value(&mut out, v);
        i += 1;
    }
    assert(seen(out@) =~= all);
    out
}

/// Some row is truthy.
pub fn rows_true(rows: &Vec<Row>, doc: &Document) -> (b: bool)
    ensures
        b == has_true(*doc, row_views(rows@)),
{
    let mut i: usize = 0;
    while i < rows.len()
        invariant
            i <= rows@.len(),
            forall|j: int|
                0 <= j < i ==> !super::super::value::truthy(
                    *doc,
                    (#[trigger] row_views(rows@)[j]).value,
                ),
        decreases rows@.len() - i,
    {
        assert(row_views(rows@)[i as int] == rows@[i as int]@);
        if rows[i].value.is_truthy(doc) {
            return true;
        }
        i += 1;
    }
    false
}

pub open spec fn first_view(r: Result<Option<Value>, EvalError>) -> Result<
    Option<ValueV>,
    Missing,
> {
    match r {
        Ok(Some(v)) => Ok(Some(v@)),
        Ok(None) => Ok(None),
        Err(e) => Err(e@),
    }
}

pub open spec fn bool_view(r: Result<bool, EvalError>) -> Result<bool, Missing> {
    match r {
        Ok(b) => Ok(b),
        Err(e) => Err(e@),
    }
}

/// What an evaluation runs on: the document, its arithmetic, the indexes for
/// lookups, the node that nested queries start from, and the most rows that
/// the caller takes.
pub struct Ctx<'a, N: Numbers> {
    pub doc: &'a Document,
    pub num: &'a N,
    pub indexes: &'a IndexRegistry,
    pub root: u32,
    pub cap: Option<usize>,
}

impl<'a, N: Numbers> Ctx<'a, N> {
    pub open spec fn view(self) -> CtxV {
        CtxV {
            doc: *self.doc,
            n: nums(self.num),
            indexes: *self.indexes,
            root: self.root,
            cap: match self.cap {
                Some(k) => Some(k as nat),
                None => None,
            },
        }
    }

    pub open spec fn wf(self) -> bool {
        &&& self.num.wf()
        &&& self.indexes.wf()
        &&& self.doc.records@.len() <= NULL_NODE
    }
}

impl ScalarKey {
    /// The key of a value; `None` for a container.
    pub fn from_value<N: Numbers>(doc: &Document, num: &N, v: &Value) -> (r: Option<ScalarKey>)
        requires
            num.wf(),
        ensures
            opt_key_view(r) == key_of(*doc, nums(num), v@),
    {
        match Scalar::from_value(doc, num, v) {
            Scalar::Null => Some(ScalarKey::Null),
            Scalar::Bool(b) => Some(ScalarKey::Bool(b)),
            Scalar::Number(x) => match whole_number(x) {
                Some(i) => Some(ScalarKey::Int(i)),
                None => Some(ScalarKey::Float(x)),
            },
            Scalar::Str(s) => Some(ScalarKey::Str(s)),
            Scalar::Container(_) => None,
        }
    }
}

pub open spec fn opt_key_view(r: Option<ScalarKey>) -> Option<ScalarKeyV> {
    match r {
        Some(k) => Some(k@),
        None => None,
    }
}

/// A registry holds one index of a name.
pub proof fn one_index(r: IndexRegistry, n: IndexName, x: ForeignKeyIndex)
    requires
        r.wf(),
        r.holds(n, x),
    ensures
        r.has(n),
        index_named(r, n) == x,
{
    super::super::index::registry_is_a_map(r, n, x, index_named(r, n));
}

/// The rows of a lookup.
pub fn run_lookup<N: Numbers>(c: &Ctx<N>, source: &str, key: &str, env: &Env, v: &Value) -> (s:
    Stream)
    requires
        c.wf(),
    ensures
        s@ == lookup_rows(c@, source@, key@, env@, v@),
{
    let ghost name = IndexName { source: source@, key: key@ };
    match c.indexes.get(source, key) {
        Some(x) => {
            proof {
                one_index(*c.indexes, name, *x);
            }
            let mut out: Vec<Value> = Vec::new();
            if let Some(k) = ScalarKey::from_value(c.doc, c.num, v) {
                if let Some(ids) = x.get(&k) {
                    let ghost all = nodes_under(c@, *x, v@);
                    let mut i: usize = 0;
                    while i < ids.len()
                        invariant
                            i <= ids@.len(),
                            all =~= Seq::new(ids@.len(), |i: int| ValueV::Node(ids@[i])),
                            seen(out@) =~= all.take(i as int),
                        decreases ids@.len() - i,
                    {
                        push_value(&mut out, Value::Node(ids[i]));
                        i += 1;
                    }
                    assert(seen(out@) =~= all);
                }
            }
            assert(seen(out@) =~= nodes_under(c@, *x, v@));
            Stream::all_of(env, out)
        },
        None => Stream::broken(
            EvalError::MissingIndex { source: source.to_owned(), key: key.to_owned() },
        ),
    }
}

} // verus!
