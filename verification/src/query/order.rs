//! The order of texts: by their first difference, character by character.
use vstd::prelude::*;

use crate::text::chars_of;

verus! {

/// `a` stands before `b` from position `i` on.
pub open spec fn before_from(a: Seq<char>, b: Seq<char>, i: int) -> bool
    decreases a.len() - i,
{
    if i >= b.len() {
        false
    } else if i >= a.len() {
        true
    } else if a[i] != b[i] {
        a[i] < b[i]
    } else {
        before_from(a, b, i + 1)
    }
}

/// `a` stands before `b`.
pub open spec fn before(a: Seq<char>, b: Seq<char>) -> bool {
    before_from(a, b, 0)
}

/// `a` and `b` agree up to `i`, and one of them ends or they differ there.
proof fn before_at(a: Seq<char>, b: Seq<char>, from: int, i: int)
    requires
        0 <= from <= i <= a.len(),
        i <= b.len(),
        forall|k: int| from <= k < i ==> a[k] == b[k],
    ensures
        before_from(a, b, from) == before_from(a, b, i),
    decreases i - from,
{
    if from < i {
        before_at(a, b, from + 1, i);
    }
}

proof fn trans_from(a: Seq<char>, b: Seq<char>, c: Seq<char>, i: int)
    requires
        0 <= i,
        before_from(a, b, i),
        before_from(b, c, i),
    ensures
        before_from(a, c, i),
    decreases a.len() - i,
{
    if i < b.len() && i < a.len() && i < c.len() && a[i] == b[i] && b[i] == c[i] {
        trans_from(a, b, c, i + 1);
    }
}

proof fn total_from(a: Seq<char>, b: Seq<char>, i: int)
    requires
        0 <= i <= a.len(),
        i <= b.len(),
        forall|k: int| 0 <= k < i ==> a[k] == b[k],
    ensures
        a == b || before_from(a, b, i) || before_from(b, a, i),
    decreases a.len() - i,
{
    if i < a.len() && i < b.len() {
        if a[i] == b[i] {
            total_from(a, b, i + 1);
        }
    } else if a.len() == b.len() {
        assert(a =~= b);
    }
}

proof fn irreflexive_from(a: Seq<char>, i: int)
    requires
        0 <= i,
    ensures
        !before_from(a, a, i),
    decreases a.len() - i,
{
    if i < a.len() {
        irreflexive_from(a, i + 1);
    }
}

/// The order of texts is a strict total order.
pub proof fn text_order(a: Seq<char>, b: Seq<char>, c: Seq<char>)
    ensures
        !before(a, a),
        before(a, b) && before(b, c) ==> before(a, c),
        a == b || before(a, b) || before(b, a),
{
    irreflexive_from(a, 0);
    total_from(a, b, 0);
    if before(a, b) && before(b, c) {
        trans_from(a, b, c, 0);
    }
}

/// The first difference decides: the smaller character there comes first, and
/// a text that ends there.
pub proof fn first_difference_decides(a: Seq<char>, b: Seq<char>, i: int)
    requires
        0 <= i <= a.len(),
        i <= b.len(),
        forall|k: int| 0 <= k < i ==> a[k] == b[k],
    ensures
        i < a.len() && i < b.len() && a[i] < b[i] ==> before(a, b),
        i == a.len() && i < b.len() ==> before(a, b) && !before(b, a),
{
    before_at(a, b, 0, i);
    before_at(b, a, 0, i);
}

/// How `a` and `b` stand to each other.
#[derive(Copy, Clone, Debug, PartialEq, Eq, Structural)]
pub enum Rank {
    Less,
    Equal,
    Greater,
}

pub open spec fn rank(a: Seq<char>, b: Seq<char>) -> Rank {
    if a == b {
        Rank::Equal
    } else if before(a, b) {
        Rank::Less
    } else {
        Rank::Greater
    }
}

/// Ranks two texts.
pub fn rank_texts(a: &str, b: &str) -> (r: Rank)
    ensures
        r == rank(a@, b@),
{
    let x = chars_of(a);
    let y = chars_of(b);
    let mut i: usize = 0;
    while i < x.len() && i < y.len()
        invariant
            i <= x@.len(),
            i <= y@.len(),
            x@ == a@,
            y@ == b@,
            forall|k: int| 0 <= k < i ==> x@[k] == y@[k],
        decreases x@.len() - i,
    {
        if x[i] != y[i] {
            proof {
                before_at(a@, b@, 0, i as int);
            }
            assert(a@[i as int] != b@[i as int]);
            return if x[i] < y[i] {
                Rank::Less
            } else {
                Rank::Greater
            };
        }
        i += 1;
    }
    proof {
        before_at(a@, b@, 0, i as int);
    }
    if x.len() == y.len() {
        assert(a@ =~= b@);
        Rank::Equal
    } else if x.len() < y.len() {
        Rank::Less
    } else {
        Rank::Greater
    }
}

} // verus!
