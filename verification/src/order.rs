//! The order of names, and lists of names in that order.

use crate::text::{self, to_chars};
use vstd::prelude::*;

verus! {

/// Whether a text comes before another: by the first character in which they differ, and a
/// text before every longer one that begins with it.
pub open spec fn before(a: Seq<char>, b: Seq<char>) -> bool
    decreases a.len(),
{
    if b.len() == 0 {
        false
    } else if a.len() == 0 {
        true
    } else if a[0] == b[0] {
        before(a.skip(1), b.skip(1))
    } else {
        (a[0] as int) < (b[0] as int)
    }
}

/// No text comes before itself.
pub proof fn before_irreflexive(a: Seq<char>)
    ensures
        !before(a, a),
    decreases a.len(),
{
    if a.len() > 0 {
        before_irreflexive(a.skip(1));
    }
}

/// What comes before a text comes before everything after that text.
pub proof fn before_transitive(a: Seq<char>, b: Seq<char>, c: Seq<char>)
    requires
        before(a, b),
        before(b, c),
    ensures
        before(a, c),
    decreases a.len(),
{
    if a.len() > 0 && a[0] == b[0] && b[0] == c[0] {
        before_transitive(a.skip(1), b.skip(1), c.skip(1));
    }
}

/// Of two different texts one comes before the other.
pub proof fn before_total(a: Seq<char>, b: Seq<char>)
    requires
        a != b,
    ensures
        before(a, b) || before(b, a),
    decreases a.len(),
{
    if a.len() == 0 {
        assert(b.len() > 0) by {
            if b.len() == 0 {
                assert(a =~= b);
            }
        }
    } else if b.len() > 0 && a[0] == b[0] {
        assert(a.skip(1) != b.skip(1)) by {
            if a.skip(1) == b.skip(1) {
                assert(a =~= seq![a[0]] + a.skip(1));
                assert(b =~= seq![b[0]] + b.skip(1));
            }
        }
        before_total(a.skip(1), b.skip(1));
    }
}

/// Whether a text comes before another.
pub fn comes_before(a: &str, b: &str) -> (first: bool)
    ensures
        first == before(a@, b@),
{
    let left: Vec<char> = to_chars(a);
    let right: Vec<char> = to_chars(b);
    let mut i: usize = 0;
    assert(left@.skip(0) =~= left@ && right@.skip(0) =~= right@);
    while i < left.len() && i < right.len() && left[i] == right[i]
        invariant
            left@ == a@,
            right@ == b@,
            i <= left.len(),
            i <= right.len(),
            before(a@, b@) == before(left@.skip(i as int), right@.skip(i as int)),
        decreases left.len() - i,
    {
        assert(left@.skip(i as int).skip(1) =~= left@.skip(i + 1));
        assert(right@.skip(i as int).skip(1) =~= right@.skip(i + 1));
        i = i + 1;
    }
    if i >= right.len() {
        false
    } else if i >= left.len() {
        true
    } else {
        left[i] < right[i]
    }
}

/// Whether names stand in their order, each but once.
pub open spec fn ascending(names: Seq<Seq<char>>) -> bool {
    forall|i: int, j: int|
        0 <= i < j < names.len() ==> before(#[trigger] names[i], #[trigger] names[j])
}

/// How many names at the front come before the given one.
pub open spec fn rank(names: Seq<Seq<char>>, name: Seq<char>) -> nat
    decreases names.len(),
{
    if names.len() == 0 || !before(names[0], name) {
        0
    } else {
        1 + rank(names.skip(1), name)
    }
}

/// The names with one more, which is put behind those that come before it.
pub open spec fn placed(names: Seq<Seq<char>>, name: Seq<char>) -> Seq<Seq<char>> {
    names.insert(rank(names, name) as int, name)
}

proof fn lemma_rank(names: Seq<Seq<char>>, name: Seq<char>)
    ensures
        rank(names, name) <= names.len(),
        forall|i: int| 0 <= i < rank(names, name) ==> before(#[trigger] names[i], name),
        rank(names, name) < names.len() ==> !before(names[rank(names, name) as int], name),
    decreases names.len(),
{
    if names.len() > 0 && before(names[0], name) {
        let rest = names.skip(1);
        lemma_rank(rest, name);
        assert forall|i: int| 0 <= i < rank(names, name) implies before(
            #[trigger] names[i],
            name,
        ) by {
            if i > 0 {
                assert(rest[i - 1] == names[i]);
            }
        }
        if rank(names, name) < names.len() {
            assert(rest[rank(rest, name) as int] == names[rank(names, name) as int]);
        }
    }
}

/// Names in their order still are when a new one is put in its place, and they are then the
/// same names and the new one.
pub proof fn placed_ascending(names: Seq<Seq<char>>, name: Seq<char>)
    requires
        ascending(names),
        !names.contains(name),
    ensures
        ascending(placed(names, name)),
        placed(names, name).len() == names.len() + 1,
        forall|other: Seq<char>|
            #[trigger] placed(names, name).contains(other) <==> names.contains(other) || other
                == name,
{
    let at = rank(names, name) as int;
    let more = placed(names, name);
    lemma_rank(names, name);
    assert forall|i: int| at <= i < names.len() implies before(name, #[trigger] names[i]) by {
        assert(names.contains(names[i]));
        before_total(name, names[at]);
        assert(names.contains(names[at]));
        if i > at {
            before_transitive(name, names[at], names[i]);
        }
    }
    assert forall|i: int, j: int| 0 <= i < j < more.len() implies before(
        #[trigger] more[i],
        #[trigger] more[j],
    ) by {
        let a: int = if i < at { i } else { i - 1 };
        let b: int = if j < at { j } else { j - 1 };
        if i != at {
            assert(more[i] == names[a]);
        }
        if j != at {
            assert(more[j] == names[b]);
        }
    }
    assert forall|other: Seq<char>| #[trigger]
        more.contains(other) <==> names.contains(other) || other == name by {
        if more.contains(other) {
            let i = choose|i: int| 0 <= i < more.len() && more[i] == other;
            if i < at {
                assert(names[i] == other);
            } else if i > at {
                assert(names[i - 1] == other);
            }
        }
        if names.contains(other) {
            let i = choose|i: int| 0 <= i < names.len() && names[i] == other;
            if i < at {
                assert(more[i] == other);
            } else {
                assert(more[i + 1] == other);
            }
        }
        assert(more[at] == name);
    }
}

/// Puts a name into a list in order, unless it is there already, and says whether it was
/// new.
pub fn place(names: &mut Vec<String>, name: String) -> (fresh: bool)
    requires
        ascending(text::texts(old(names)@)),
    ensures
        fresh == !text::texts(old(names)@).contains(name@),
        text::texts(final(names)@) == if fresh {
            placed(text::texts(old(names)@), name@)
        } else {
            text::texts(old(names)@)
        },
        ascending(text::texts(final(names)@)),
{
    let ghost all = text::texts(names@);
    let mut at: usize = 0;
    assert(all.skip(0) =~= all);
    while at < names.len() && comes_before(names[at].as_str(), name.as_str())
        invariant
            all == text::texts(names@),
            at <= names.len(),
            rank(all, name@) == at + rank(all.skip(at as int), name@),
            names@ == old(names)@,
        decreases names.len() - at,
    {
        assert(all.skip(at as int).skip(1) =~= all.skip(at + 1));
        at = at + 1;
    }
    proof {
        lemma_rank(all, name@);
        assert(rank(all, name@) == at);
        before_irreflexive(name@);
        if at < names.len() {
            if all[at as int] == name@ {
                assert(all.contains(name@));
            } else {
                before_total(name@, all[at as int]);
            }
        }
        assert forall|i: int| 0 <= i < all.len() && all[i] == name@ implies i == at by {
            if i > at {
                before_transitive(name@, all[at as int], all[i]);
            }
        }
    }
    if at < names.len() && text::same_text(names[at].as_str(), name.as_str()) {
        return false;
    }
    assert(!all.contains(name@));
    let ghost added = name@;
    names.insert(at, name);
    proof {
        placed_ascending(all, added);
        assert(text::texts(names@) =~= placed(all, added));
    }
    true
}

/// What two texts begin with alike does not count for their order; where they differ, the
/// one with the lower character comes first; and a text comes before what it begins, never
/// behind it.
pub proof fn order_by_first_difference(front: Seq<char>, a: Seq<char>, b: Seq<char>)
    ensures
        a.len() > 0 && b.len() > 0 && a[0] != b[0] ==> (before(front + a, front + b) <==> (
        a[0] as int) < (b[0] as int)),
        a.len() > 0 ==> before(front, front + a) && !before(front + a, front),
    decreases front.len(),
{
    if front.len() == 0 {
        assert(front + a =~= a);
        assert(front + b =~= b);
    } else {
        order_by_first_difference(front.skip(1), a, b);
        assert((front + a).skip(1) =~= front.skip(1) + a);
        assert((front + b).skip(1) =~= front.skip(1) + b);
        assert((front + a)[0] == front[0]);
        assert((front + b)[0] == front[0]);
    }
}

/// A name that is put into a list leaves the others as they stood.
pub proof fn placed_keeps_the_others(names: Seq<Seq<char>>, name: Seq<char>) -> (at: int)
    ensures
        0 <= at <= names.len(),
        placed(names, name) == names.take(at).push(name) + names.skip(at),
        forall|i: int| 0 <= i < at ==> before(#[trigger] names[i], name),
        at < names.len() ==> !before(names[at], name),
{
    lemma_rank(names, name);
    let at = rank(names, name) as int;
    assert(placed(names, name) =~= names.take(at).push(name) + names.skip(at));
    at
}

} // verus!
