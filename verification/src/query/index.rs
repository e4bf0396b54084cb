//! Foreign-key indexes: from the key of a row to the rows that have it, and
//! the registry that holds them under the canonical texts of their source
//! and key.
use vstd::prelude::*;

use super::canonical::{int_text, push_int};
use super::number::{is_nan, nan, num_eq, num_lt, number_less};
use super::order::{before, rank_texts, text_order, Rank};
use crate::sidecar::{utf8, utf8_of};

verus! {

/// A key of an index. Whole numbers fold to integers, so that `1` and `1.0`
/// share a bucket; other numbers are keyed by their bits.
#[derive(Debug)]
pub enum ScalarKey {
    Null,
    Bool(bool),
    Int(i64),
    Float(u64),
    Str(String),
}

pub enum ScalarKeyV {
    Null,
    Bool(bool),
    Int(i64),
    Float(u64),
    Str(Seq<char>),
}

impl View for ScalarKey {
    type V = ScalarKeyV;

    open spec fn view(&self) -> ScalarKeyV {
        match self {
            ScalarKey::Null => ScalarKeyV::Null,
            ScalarKey::Bool(b) => ScalarKeyV::Bool(*b),
            ScalarKey::Int(i) => ScalarKeyV::Int(*i),
            ScalarKey::Float(b) => ScalarKeyV::Float(*b),
            ScalarKey::Str(s) => ScalarKeyV::Str(s@),
        }
    }
}

/// How two group keys stand to each other: by kind, then by value.
pub open spec fn key_tag(k: ScalarKeyV) -> int {
    match k {
        ScalarKeyV::Null => 0,
        ScalarKeyV::Bool(_) => 1,
        ScalarKeyV::Int(_) => 2,
        ScalarKeyV::Float(_) => 3,
        ScalarKeyV::Str(_) => 4,
    }
}

/// Doubles by value, with what is no number behind all numbers. Those that
/// this leaves equal stand by their bits.
pub open spec fn double_before(x: u64, y: u64) -> bool {
    if nan(x) {
        nan(y) && x < y
    } else if nan(y) {
        true
    } else {
        num_lt(x, y) || (num_eq(x, y) && x < y)
    }
}

/// `a` comes before `b`.
pub open spec fn key_before(a: ScalarKeyV, b: ScalarKeyV) -> bool {
    match (a, b) {
        (ScalarKeyV::Bool(x), ScalarKeyV::Bool(y)) => !x && y,
        (ScalarKeyV::Int(x), ScalarKeyV::Int(y)) => x < y,
        (ScalarKeyV::Float(x), ScalarKeyV::Float(y)) => double_before(x, y),
        (ScalarKeyV::Str(x), ScalarKeyV::Str(y)) => before(x, y),
        _ => key_tag(a) < key_tag(b),
    }
}

/// The keys of groups and indexes stand in a total order.
pub proof fn key_order(a: ScalarKeyV, b: ScalarKeyV, c: ScalarKeyV)
    ensures
        !key_before(a, a),
        key_before(a, b) && key_before(b, c) ==> key_before(a, c),
        a != b ==> key_before(a, b) || key_before(b, a),
        key_tag(a) < key_tag(b) ==> key_before(a, b),
{
    if let ScalarKeyV::Str(x) = a {
        text_order(x, x, x);
        if let ScalarKeyV::Str(y) = b {
            text_order(x, y, y);
            if let ScalarKeyV::Str(z) = c {
                text_order(x, y, z);
            }
        }
    }
}

/// Keys ascend: null, then false and true, then whole numbers by their size,
/// then other numbers by theirs, then texts by theirs.
pub proof fn keys_ascend(a: ScalarKeyV, b: ScalarKeyV)
    ensures
        a is Null && !(b is Null) ==> key_before(a, b),
        a is Bool && (b is Int || b is Float || b is Str) ==> key_before(a, b),
        a is Int && (b is Float || b is Str) ==> key_before(a, b),
        a is Float && b is Str ==> key_before(a, b),
        key_before(ScalarKeyV::Bool(false), ScalarKeyV::Bool(true)),
        a matches ScalarKeyV::Int(x) ==> (b matches ScalarKeyV::Int(y) ==> (key_before(a, b) <==> x
            < y)),
        a matches ScalarKeyV::Float(x) ==> (b matches ScalarKeyV::Float(y) ==> (num_lt(x, y)
            ==> key_before(a, b) && !key_before(b, a))),
        a matches ScalarKeyV::Str(x) ==> (b matches ScalarKeyV::Str(y) ==> (key_before(a, b)
            <==> before(x, y))),
{
}

fn tag(k: &ScalarKey) -> (n: u8)
    ensures
        n == key_tag(k@),
{
    match k {
        ScalarKey::Null => 0,
        ScalarKey::Bool(_) => 1,
        ScalarKey::Int(_) => 2,
        ScalarKey::Float(_) => 3,
        ScalarKey::Str(_) => 4,
    }
}

impl ScalarKey {
    /// Whether the key comes before another.
    pub fn comes_before(&self, other: &ScalarKey) -> (r: bool)
        ensures
            r == key_before(self@, other@),
    {
        match (self, other) {
            (ScalarKey::Bool(x), ScalarKey::Bool(y)) => !*x && *y,
            (ScalarKey::Int(x), ScalarKey::Int(y)) => *x < *y,
            (ScalarKey::Float(x), ScalarKey::Float(y)) => {
                if is_nan(*x) {
                    is_nan(*y) && *x < *y
                } else if is_nan(*y) {
                    true
                } else {
                    number_less(*x, *y) || (!number_less(*y, *x) && *x < *y)
                }
            },
            (ScalarKey::Str(x), ScalarKey::Str(y)) => {
                let r = rank_texts(x.as_str(), y.as_str());
                proof {
                    text_order(x@, y@, y@);
                }
                match r {
                    Rank::Less => true,
                    _ => false,
                }
            },
            _ => tag(self) < tag(other),
        }
    }

    /// Whether two keys share a bucket.
    pub fn same(&self, other: &ScalarKey) -> (b: bool)
        ensures
            b == (self@ == other@),
    {
        match (self, other) {
            (ScalarKey::Null, ScalarKey::Null) => true,
            (ScalarKey::Bool(a), ScalarKey::Bool(b)) => *a == *b,
            (ScalarKey::Int(a), ScalarKey::Int(b)) => *a == *b,
            (ScalarKey::Float(a), ScalarKey::Float(b)) => *a == *b,
            (ScalarKey::Str(a), ScalarKey::Str(b)) => *a.as_str() == *b.as_str(),
            _ => false,
        }
    }

    /// The key as text. `write` renders a number that is not whole.
    pub fn render_as_string<W: Fn(u64) -> String>(&self, write: &W) -> (out: String)
        requires
            forall|bits: u64| #[trigger] write.requires((bits,)),
        ensures
            match self@ {
                ScalarKeyV::Null => out@ == "null"@,
                ScalarKeyV::Bool(b) => out@ == if b {
                    "true"@
                } else {
                    "false"@
                },
                ScalarKeyV::Int(i) => out@ == int_text(i as int),
                ScalarKeyV::Float(bits) => write.ensures((bits,), out),
                ScalarKeyV::Str(s) => out@ == s,
            },
    {
        match self {
            ScalarKey::Null => "null".to_string(),
            ScalarKey::Bool(b) => if *b {
                "true".to_string()
            } else {
                "false".to_string()
            },
            ScalarKey::Int(i) => {
                let mut out = String::new();
                push_int(&mut out, *i);
                assert(out@ =~= int_text(*i as int));
                out
            },
            ScalarKey::Float(bits) => write(*bits),
            ScalarKey::Str(s) => s.clone(),
        }
    }
}

/// One index. Its keys differ from each other.
#[derive(Debug)]
pub struct ForeignKeyIndex {
    pub buckets: Vec<(ScalarKey, Vec<u32>)>,
    /// How many rows have a usable key.
    pub indexed_count: usize,
    /// How many rows there are.
    pub source_count: usize,
}

/// The rows under `key`, from bucket `i` on.
pub open spec fn rows_from(
    buckets: Seq<(ScalarKey, Vec<u32>)>,
    key: ScalarKeyV,
    i: int,
) -> Option<Seq<u32>>
    decreases buckets.len() - i,
{
    if !(0 <= i < buckets.len()) {
        None
    } else if buckets[i].0@ == key {
        Some(buckets[i].1@)
    } else {
        rows_from(buckets, key, i + 1)
    }
}

/// The bytes that a bucket holds on to, roughly.
pub open spec fn bucket_bytes(b: (ScalarKey, Vec<u32>)) -> nat {
    (match b.0@ {
        ScalarKeyV::Str(s) => utf8_of(s).len() + 24,
        _ => 24nat,
    }) + 4 * b.1@.len() + 24
}

pub open spec fn buckets_bytes(v: Seq<(ScalarKey, Vec<u32>)>) -> nat
    decreases v.len(),
{
    if v.len() == 0 {
        0
    } else {
        buckets_bytes(v.drop_last()) + bucket_bytes(v.last())
    }
}

impl ForeignKeyIndex {
    /// The keys stand in order, so no key occurs twice.
    pub open spec fn wf(self) -> bool {
        forall|i: int, j: int|
            0 <= i < j < self.buckets@.len() ==> key_before(
                (#[trigger] self.buckets@[i]).0@,
                (#[trigger] self.buckets@[j]).0@,
            )
    }

    /// The rows under `key`.
    pub open spec fn rows(self, key: ScalarKeyV) -> Option<Seq<u32>> {
        rows_from(self.buckets@, key, 0)
    }

    pub fn new() -> (x: ForeignKeyIndex)
        ensures
            x.wf(),
            forall|k: ScalarKeyV| x.rows(k) is None,
            x.indexed_count == 0,
            x.source_count == 0,
    {
        ForeignKeyIndex { buckets: Vec::new(), indexed_count: 0, source_count: 0 }
    }

    /// Where the key belongs: the first bucket that does not come before it,
    /// and whether that is its own.
    fn place(&self, key: &ScalarKey) -> (r: (usize, bool))
        requires
            self.wf(),
        ensures
            r.0 <= self.buckets@.len(),
            forall|k: int|
                0 <= k < r.0 ==> key_before((#[trigger] self.buckets@[k]).0@, key@),
            r.1 ==> r.0 < self.buckets@.len() && self.buckets@[r.0 as int].0@ == key@,
            !r.1 ==> forall|k: int|
                r.0 <= k < self.buckets@.len() ==> key_before(
                    key@,
                    (#[trigger] self.buckets@[k]).0@,
                ),
    {
        let mut lo: usize = 0;
        let mut hi: usize = self.buckets.len();
        while lo < hi
            invariant
                self.wf(),
                lo <= hi <= self.buckets@.len(),
                forall|k: int|
                    0 <= k < lo ==> key_before((#[trigger] self.buckets@[k]).0@, key@),
                forall|k: int|
                    hi <= k < self.buckets@.len() ==> !key_before(
                        (#[trigger] self.buckets@[k]).0@,
                        key@,
                    ),
            decreases hi - lo,
        {
            let mid: usize = lo + (hi - lo) / 2;
            let ghost at = self.buckets@[mid as int].0@;
            if self.buckets[mid].0.comes_before(key) {
                proof {
                    assert forall|k: int| 0 <= k < mid + 1 implies key_before(
                        (#[trigger] self.buckets@[k]).0@,
                        key@,
                    ) by {
                        if k < mid {
                            key_order(self.buckets@[k].0@, at, key@);
                        }
                    }
                }
                lo = mid + 1;
            } else {
                proof {
                    assert forall|k: int| mid <= k < self.buckets@.len() implies !key_before(
                        (#[trigger] self.buckets@[k]).0@,
                        key@,
                    ) by {
                        if k > mid {
                            key_order(at, self.buckets@[k].0@, key@);
                        }
                    }
                }
                hi = mid;
            }
        }
        let found = lo < self.buckets.len() && self.buckets[lo].0.same(key);
        proof {
            if !found {
                assert forall|k: int| lo <= k < self.buckets@.len() implies key_before(
                    key@,
                    (#[trigger] self.buckets@[k]).0@,
                ) by {
                    let first = self.buckets@[lo as int].0@;
                    key_order(key@, first, self.buckets@[k].0@);
                    key_order(first, key@, key@);
                }
            }
        }
        (lo, found)
    }

    /// The rows under `key`, in the order they were added.
    pub fn get(&self, key: &ScalarKey) -> (r: Option<&[u32]>)
        requires
            self.wf(),
        ensures
            match r {
                Some(s) => self.rows(key@) == Some(s@),
                None => self.rows(key@) is None,
            },
    {
        let (p, found) = self.place(key);
        proof {
            key_order(key@, key@, key@);
        }
        if found {
            proof {
                rows_at(self.buckets@, key@, p as int);
            }
            Some(self.buckets[p].1.as_slice())
        } else {
            proof {
                rows_none(self.buckets@, key@, 0);
            }
            None
        }
    }

    /// Roughly the memory that the index holds on to, at most the greatest
    /// `usize`.
    pub fn approx_bytes(&self) -> (n: usize)
        ensures
            n == if buckets_bytes(self.buckets@) < usize::MAX {
                buckets_bytes(self.buckets@)
            } else {
                usize::MAX as nat
            },
    {
        let mut total: usize = 0;
        let mut i: usize = 0;
        assert(self.buckets@.take(0) =~= Seq::empty());
        while i < self.buckets.len()
            invariant
                i <= self.buckets@.len(),
                total == if buckets_bytes(self.buckets@.take(i as int)) < usize::MAX {
                    buckets_bytes(self.buckets@.take(i as int))
                } else {
                    usize::MAX as nat
                },
            decreases self.buckets@.len() - i,
        {
            proof {
                assert(self.buckets@.take(i + 1).drop_last() =~= self.buckets@.take(i as int));
                assert(self.buckets@.take(i + 1).last() == self.buckets@[i as int]);
            }
            let key_bytes: u128 = match &self.buckets[i].0 {
                ScalarKey::Str(s) => {
                    let b = utf8(s.as_str());
                    b.len() as u128 + 24
                },
                _ => 24,
            };
            let more: u128 = total as u128 + key_bytes + 4 * (self.buckets[i].1.len() as u128) + 24;
            total = if more < usize::MAX as u128 {
                more as usize
            } else {
                usize::MAX
            };
            i += 1;
        }
        assert(self.buckets@.take(i as int) =~= self.buckets@);
        total
    }

    /// Adds a row under its key.
    pub fn add(&mut self, key: ScalarKey, id: u32)
        requires
            old(self).wf(),
            old(self).indexed_count < usize::MAX,
        ensures
            final(self).wf(),
            final(self).indexed_count == old(self).indexed_count + 1,
            final(self).source_count == old(self).source_count,
            final(self).rows(key@) == Some(
                match old(self).rows(key@) {
                    Some(s) => s.push(id),
                    None => seq![id],
                },
            ),
            forall|k: ScalarKeyV|
                k != key@ ==> #[trigger] final(self).rows(k) == old(self).rows(k),
    {
        let (p, found) = self.place(&key);
        let ghost all = self.buckets@;
        let ghost kv = key@;
        self.indexed_count = self.indexed_count + 1;
        proof {
            key_order(kv, kv, kv);
        }
        if found {
            let mut bucket = self.buckets.remove(p);
            bucket.1.push(id);
            self.buckets.insert(p, bucket);
            proof {
                let now = self.buckets@;
                assert(now.len() == all.len());
                assert forall|k: int| 0 <= k < all.len() && k != p implies now[k] == all[k] by {}
                assert(now[p as int].0 == all[p as int].0);
                assert forall|i: int, j: int| 0 <= i < j < now.len() implies key_before(
                    (#[trigger] now[i]).0@,
                    (#[trigger] now[j]).0@,
                ) by {
                    assert(key_before(all[i].0@, all[j].0@));
                }
                rows_at(now, kv, p as int);
                rows_at(all, kv, p as int);
                assert forall|k: ScalarKeyV| k != kv implies #[trigger] rows_from(now, k, 0)
                    == rows_from(all, k, 0) by {
                    rows_skip(all, now, k, p as int, 0);
                }
            }
        } else {
            let mut rows: Vec<u32> = Vec::new();
            rows.push(id);
            assert(rows@ =~= seq![id]);
            self.buckets.insert(p, (key, rows));
            proof {
                let now = self.buckets@;
                assert forall|k: int| 0 <= k < p implies now[k] == all[k] by {}
                assert forall|k: int| p < k < now.len() implies now[k] == all[k - 1] by {}
                assert(now[p as int].0@ == kv);
                assert forall|i: int, j: int| 0 <= i < j < now.len() implies key_before(
                    (#[trigger] now[i]).0@,
                    (#[trigger] now[j]).0@,
                ) by {
                    let a = if i < p {
                        i
                    } else {
                        i - 1
                    };
                    let b = if j < p {
                        j
                    } else {
                        j - 1
                    };
                    if i != p && j != p {
                        assert(key_before(all[a].0@, all[b].0@));
                    }
                }
                rows_at(now, kv, p as int);
                rows_none(all, kv, 0);
                assert forall|k: ScalarKeyV| k != kv implies #[trigger] rows_from(now, k, 0)
                    == rows_from(all, k, 0) by {
                    rows_insert(all, now, k, p as int, 0);
                }
            }
        }
    }
}

/// The first bucket of `key` is `i`.
proof fn rows_at(v: Seq<(ScalarKey, Vec<u32>)>, key: ScalarKeyV, i: int)
    requires
        0 <= i < v.len(),
        v[i].0@ == key,
        forall|k: int| 0 <= k < i ==> (#[trigger] v[k]).0@ != key,
    ensures
        rows_from(v, key, 0) == Some(v[i].1@),
{
    rows_reach(v, key, 0, i);
}

proof fn rows_reach(v: Seq<(ScalarKey, Vec<u32>)>, key: ScalarKeyV, from: int, i: int)
    requires
        0 <= from <= i < v.len(),
        forall|k: int| from <= k < i ==> (#[trigger] v[k]).0@ != key,
    ensures
        rows_from(v, key, from) == rows_from(v, key, i),
    decreases i - from,
{
    if from < i {
        rows_reach(v, key, from + 1, i);
    }
}

proof fn rows_none(v: Seq<(ScalarKey, Vec<u32>)>, key: ScalarKeyV, from: int)
    requires
        0 <= from <= v.len(),
        forall|k: int| 0 <= k < v.len() ==> (#[trigger] v[k]).0@ != key,
    ensures
        rows_from(v, key, from) is None,
    decreases v.len() - from,
{
    if from < v.len() {
        rows_none(v, key, from + 1);
    }
}

/// `v` and `w` differ in bucket `i` only, which `key` does not name.
proof fn rows_skip(
    v: Seq<(ScalarKey, Vec<u32>)>,
    w: Seq<(ScalarKey, Vec<u32>)>,
    key: ScalarKeyV,
    i: int,
    from: int,
)
    requires
        0 <= from <= v.len(),
        0 <= i < v.len(),
        v.len() == w.len(),
        forall|k: int| 0 <= k < v.len() && k != i ==> #[trigger] w[k] == v[k],
        v[i].0@ != key,
        w[i].0@ != key,
    ensures
        rows_from(w, key, from) == rows_from(v, key, from),
    decreases v.len() - from,
{
    if from < v.len() {
        rows_skip(v, w, key, i, from + 1);
    }
}

/// `w` is `v` with one bucket more at `p`, which `key` does not name.
proof fn rows_insert(
    v: Seq<(ScalarKey, Vec<u32>)>,
    w: Seq<(ScalarKey, Vec<u32>)>,
    key: ScalarKeyV,
    p: int,
    from: int,
)
    requires
        0 <= from <= v.len(),
        0 <= p <= v.len(),
        w.len() == v.len() + 1,
        forall|k: int| 0 <= k < p ==> #[trigger] w[k] == v[k],
        forall|k: int| p < k < w.len() ==> #[trigger] w[k] == v[k - 1],
        w[p].0@ != key,
    ensures
        from <= p ==> rows_from(w, key, from) == rows_from(v, key, from),
        from >= p ==> rows_from(w, key, from + 1) == rows_from(v, key, from),
    decreases v.len() - from,
{
    if from < v.len() {
        rows_insert(v, w, key, p, from + 1);
    }
    if from == p {
        assert(rows_from(w, key, p) == rows_from(w, key, p + 1));
    }
}

/// The name of an index: the canonical texts of its source and its key.
pub struct IndexName {
    pub source: Seq<char>,
    pub key: Seq<char>,
}

/// One entry of the registry.
#[derive(Debug)]
pub struct IndexEntry {
    pub source: String,
    pub key: String,
    pub index: ForeignKeyIndex,
}

impl IndexEntry {
    pub open spec fn name(self) -> IndexName {
        IndexName { source: self.source@, key: self.key@ }
    }
}

/// Names in order: by source, then by key.
pub open spec fn name_before(a: IndexName, b: IndexName) -> bool {
    before(a.source, b.source) || (a.source == b.source && before(a.key, b.key))
}

pub proof fn name_order(a: IndexName, b: IndexName, c: IndexName)
    ensures
        !name_before(a, a),
        name_before(a, b) && name_before(b, c) ==> name_before(a, c),
        a == b || name_before(a, b) || name_before(b, a),
        name_before(a, b) ==> !name_before(b, a),
{
    text_order(a.source, b.source, c.source);
    text_order(a.key, b.key, c.key);
    text_order(a.source, b.source, a.source);
    text_order(a.key, b.key, a.key);
    text_order(b.source, a.source, b.source);
}

/// The indexes of a document, in the order of their names.
#[derive(Debug)]
pub struct IndexRegistry {
    pub entries: Vec<IndexEntry>,
}

impl IndexRegistry {
    /// The names stand in order, so no name occurs twice, and so do the keys
    /// of each index.
    pub open spec fn wf(self) -> bool {
        &&& forall|i: int, j: int|
            0 <= i < j < self.entries@.len() ==> name_before(
                (#[trigger] self.entries@[i]).name(),
                (#[trigger] self.entries@[j]).name(),
            )
        &&& forall|i: int| 0 <= i < self.entries@.len() ==> (#[trigger] self.entries@[i]).index.wf()
    }

    /// The index called `n` is `x`.
    pub open spec fn holds(self, n: IndexName, x: ForeignKeyIndex) -> bool {
        exists|i: int|
            0 <= i < self.entries@.len() && (#[trigger] self.entries@[i]).name() == n
                && self.entries@[i].index == x
    }

    pub open spec fn has(self, n: IndexName) -> bool {
        exists|i: int| 0 <= i < self.entries@.len() && (#[trigger] self.entries@[i]).name() == n
    }

    pub fn new() -> (r: IndexRegistry)
        ensures
            r.wf(),
            r.entries@.len() == 0,
    {
        IndexRegistry { entries: Vec::new() }
    }

    /// Where the name belongs: the first entry that does not stand before it.
    fn position(&self, source: &str, key: &str) -> (r: (usize, bool))
        requires
            self.wf(),
        ensures
            ({
                let n = IndexName { source: source@, key: key@ };
                &&& r.0 <= self.entries@.len()
                &&& forall|k: int|
                    0 <= k < r.0 ==> name_before((#[trigger] self.entries@[k]).name(), n)
                &&& r.1 ==> r.0 < self.entries@.len() && self.entries@[r.0 as int].name() == n
                &&& !r.1 ==> forall|k: int|
                    r.0 <= k < self.entries@.len() ==> name_before(
                        n,
                        (#[trigger] self.entries@[k]).name(),
                    )
            }),
    {
        let ghost n = IndexName { source: source@, key: key@ };
        let mut i: usize = 0;
        while i < self.entries.len()
            invariant
                self.wf(),
                n == (IndexName { source: source@, key: key@ }),
                i <= self.entries@.len(),
                forall|k: int|
                    0 <= k < i ==> name_before((#[trigger] self.entries@[k]).name(), n),
            decreases self.entries@.len() - i,
        {
            let first = rank_texts(self.entries[i].source.as_str(), source);
            let second = rank_texts(self.entries[i].key.as_str(), key);
            let less = matches!(first, Rank::Less) || (matches!(first, Rank::Equal) && matches!(
                second,
                Rank::Less
            ));
            let equal = matches!(first, Rank::Equal) && matches!(second, Rank::Equal);
            proof {
                name_order(self.entries@[i as int].name(), n, n);
            }
            if equal {
                return (i, true);
            }
            if !less {
                proof {
                    let at = self.entries@[i as int].name();
                    text_order(at.source, n.source, n.source);
                    text_order(at.key, n.key, n.key);
                    text_order(n.source, at.source, at.source);
                    text_order(n.key, at.key, at.key);
                    assert(name_before(n, at));
                    assert forall|k: int| i <= k < self.entries@.len() implies name_before(
                        n,
                        (#[trigger] self.entries@[k]).name(),
                    ) by {
                        name_order(n, at, self.entries@[k].name());
                    }
                }
                return (i, false);
            }
            i += 1;
        }
        (i, false)
    }

    /// Registers an index, in place of one of the same name.
    pub fn insert(&mut self, source: String, key: String, index: ForeignKeyIndex)
        requires
            old(self).wf(),
            index.wf(),
        ensures
            final(self).wf(),
            final(self).holds(IndexName { source: source@, key: key@ }, index),
            forall|n: IndexName, x: ForeignKeyIndex|
                n != (IndexName { source: source@, key: key@ }) ==> #[trigger] final(self).holds(
                    n,
                    x,
                ) == old(self).holds(n, x),
    {
        let ghost n = IndexName { source: source@, key: key@ };
        let ghost all = self.entries@;
        let (p, found) = self.position(source.as_str(), key.as_str());
        if found {
            let _gone = self.entries.remove(p);
        }
        let ghost rest = self.entries@;
        let entry = IndexEntry { source, key, index };
        self.entries.insert(p, entry);
        proof {
            let now = self.entries@;
            assert(now[p as int] == entry);
            assert(entry.name() == n);
            if found {
                assert forall|k: int| 0 <= k < now.len() && k != p implies now[k] == all[k] by {}
                assert(now.len() == all.len());
                assert forall|m: IndexName, x: ForeignKeyIndex| m != n implies #[trigger] self.holds(
                    m,
                    x,
                ) == old(self).holds(m, x) by {
                    if self.holds(m, x) {
                        let k = choose|k: int|
                            0 <= k < now.len() && (#[trigger] now[k]).name() == m && now[k].index
                                == x;
                        assert(all[k] == now[k]);
                    }
                    if old(self).holds(m, x) {
                        let k = choose|k: int|
                            0 <= k < all.len() && (#[trigger] all[k]).name() == m && all[k].index
                                == x;
                        assert(now[k] == all[k]);
                    }
                }
            } else {
                assert forall|k: int| 0 <= k < p implies now[k] == all[k] by {}
                assert forall|k: int| p < k < now.len() implies now[k] == all[k - 1] by {}
                assert(now.len() == all.len() + 1);
                assert forall|i: int, j: int| 0 <= i < j < now.len() implies name_before(
                    (#[trigger] now[i]).name(),
                    (#[trigger] now[j]).name(),
                ) by {
                    let a = if i < p {
                        i
                    } else {
                        i - 1
                    };
                    let b = if j < p {
                        j
                    } else {
                        j - 1
                    };
                    if i != p && j != p {
                        assert(name_before(all[a].name(), all[b].name()));
                    }
                }
                assert forall|m: IndexName, x: ForeignKeyIndex| m != n implies #[trigger] self.holds(
                    m,
                    x,
                ) == old(self).holds(m, x) by {
                    if self.holds(m, x) {
                        let k = choose|k: int|
                            0 <= k < now.len() && (#[trigger] now[k]).name() == m && now[k].index
                                == x;
                        assert(k != p);
                        assert(all[if k < p {
                            k
                        } else {
                            k - 1
                        }] == now[k]);
                    }
                    if old(self).holds(m, x) {
                        let k = choose|k: int|
                            0 <= k < all.len() && (#[trigger] all[k]).name() == m && all[k].index
                                == x;
                        assert(now[if k < p {
                            k
                        } else {
                            k + 1
                        }] == all[k]);
                    }
                }
            }
            assert(self.holds(n, index));
        }
    }

    /// Drops an index. Says whether there was one.
    pub fn remove(&mut self, source: &str, key: &str) -> (b: bool)
        requires
            old(self).wf(),
        ensures
            final(self).wf(),
            b == old(self).has(IndexName { source: source@, key: key@ }),
            !final(self).has(IndexName { source: source@, key: key@ }),
            forall|n: IndexName, x: ForeignKeyIndex|
                n != (IndexName { source: source@, key: key@ }) ==> #[trigger] final(self).holds(
                    n,
                    x,
                ) == old(self).holds(n, x),
    {
        let ghost n = IndexName { source: source@, key: key@ };
        let ghost all = self.entries@;
        let (p, found) = self.position(source, key);
        proof {
            name_order(n, n, n);
        }
        if found {
            let _gone = self.entries.remove(p);
            proof {
                let now = self.entries@;
                assert forall|k: int| 0 <= k < p implies now[k] == all[k] by {}
                assert forall|k: int| p <= k < now.len() implies now[k] == all[k + 1] by {}
                assert forall|k: int| 0 <= k < all.len() && k != p implies (#[trigger] all[k]).name()
                    != n by {
                    if k > p {
                        assert(name_before(all[p as int].name(), all[k].name()));
                    }
                }
                assert forall|i: int, j: int| 0 <= i < j < now.len() implies name_before(
                    (#[trigger] now[i]).name(),
                    (#[trigger] now[j]).name(),
                ) by {
                    let a = if i < p {
                        i
                    } else {
                        i + 1
                    };
                    let b = if j < p {
                        j
                    } else {
                        j + 1
                    };
                    assert(name_before(all[a].name(), all[b].name()));
                }
                assert(all[p as int].name() == n);
                assert forall|m: IndexName, x: ForeignKeyIndex| m != n implies #[trigger] self.holds(
                    m,
                    x,
                ) == old(self).holds(m, x) by {
                    if self.holds(m, x) {
                        let k = choose|k: int|
                            0 <= k < now.len() && (#[trigger] now[k]).name() == m && now[k].index
                                == x;
                        assert(all[if k < p {
                            k
                        } else {
                            k + 1
                        }] == now[k]);
                    }
                    if old(self).holds(m, x) {
                        let k = choose|k: int|
                            0 <= k < all.len() && (#[trigger] all[k]).name() == m && all[k].index
                                == x;
                        assert(k != p);
                        assert(now[if k < p {
                            k
                        } else {
                            k - 1
                        }] == all[k]);
                    }
                }
            }
        }
        found
    }

    /// The index of this name.
    pub fn get(&self, source: &str, key: &str) -> (r: Option<&ForeignKeyIndex>)
        requires
            self.wf(),
        ensures
            match r {
                Some(x) => x.wf() && self.holds(IndexName { source: source@, key: key@ }, *x),
                None => !self.has(IndexName { source: source@, key: key@ }),
            },
    {
        let ghost n = IndexName { source: source@, key: key@ };
        let (p, found) = self.position(source, key);
        proof {
            name_order(n, n, n);
        }
        if found {
            assert(self.entries@[p as int].name() == n);
            Some(&self.entries[p].index)
        } else {
            None
        }
    }

    /// All indexes with their names, in order.
    pub fn list(&self) -> (out: Vec<(String, String, &ForeignKeyIndex)>)
        requires
            self.wf(),
        ensures
            out@.len() == self.entries@.len(),
            forall|i: int|
                0 <= i < out@.len() ==> (#[trigger] out@[i]).0@ == self.entries@[i].source@
                    && out@[i].1@ == self.entries@[i].key@ && *out@[i].2 == self.entries@[i].index,
    {
        let mut out: Vec<(String, String, &ForeignKeyIndex)> = Vec::new();
        let mut i: usize = 0;
        while i < self.entries.len()
            invariant
                i <= self.entries@.len(),
                out@.len() == i,
                forall|k: int|
                    0 <= k < i ==> (#[trigger] out@[k]).0@ == self.entries@[k].source@
                        && out@[k].1@ == self.entries@[k].key@ && *out@[k].2
                        == self.entries@[k].index,
            decreases self.entries@.len() - i,
        {
            out.push(
                (self.entries[i].source.clone(), self.entries[i].key.clone(), &self.entries[i].index),
            );
            i += 1;
        }
        out
    }
}

/// A registry holds one index under a name.
pub proof fn registry_is_a_map(r: IndexRegistry, n: IndexName, x: ForeignKeyIndex, y: ForeignKeyIndex)
    requires
        r.wf(),
        r.holds(n, x),
        r.holds(n, y),
    ensures
        x == y,
{
    let i = choose|i: int|
        0 <= i < r.entries@.len() && (#[trigger] r.entries@[i]).name() == n && r.entries@[i].index
            == x;
    let j = choose|j: int|
        0 <= j < r.entries@.len() && (#[trigger] r.entries@[j]).name() == n && r.entries@[j].index
            == y;
    name_order(n, n, n);
}

} // verus!
