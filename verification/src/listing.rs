//! The order of a list of tasks: its entries by ascending number, and what
//! numbering them anew does to it.

use crate::task::TaskView;
use vstd::prelude::*;

verus! {

/// Whether the numbers of `l` rise strictly from each entry to the next.
pub open spec fn ascending(l: Seq<(usize, TaskView)>) -> bool {
    forall|i: int, j: int| 0 <= i < j < l.len() ==> l[i].0 < l[j].0
}

/// Whether `l` holds the entries of `m`, each once, by ascending number.
pub open spec fn lists(l: Seq<(usize, TaskView)>, m: Map<usize, TaskView>) -> bool {
    &&& ascending(l)
    &&& forall|i: int| 0 <= i < l.len() ==> m.contains_pair(#[trigger] l[i].0, l[i].1)
    &&& forall|k: usize| m.contains_key(k) ==> exists|i: int| 0 <= i < l.len() && #[trigger] l[i].0 == k
}

/// The entries of `m` by ascending number.
pub open spec fn listing(m: Map<usize, TaskView>) -> Seq<(usize, TaskView)> {
    choose|l: Seq<(usize, TaskView)>| lists(l, m)
}

/// The tasks of `m` by ascending number, without the numbers.
pub open spec fn tasks_in_order(m: Map<usize, TaskView>) -> Seq<TaskView> {
    listing(m).map_values(|e: (usize, TaskView)| e.1)
}

/// The tasks of `s` under the numbers 0, 1, 2 and so on, in the order of `s`.
pub open spec fn numbered(s: Seq<TaskView>) -> Map<usize, TaskView> {
    Map::new(|i: usize| i < s.len(), |i: usize| s[i as int])
}

/// The tasks of `m` in their order, numbered anew from zero without gaps.
pub open spec fn renumbered(m: Map<usize, TaskView>) -> Map<usize, TaskView> {
    numbered(tasks_in_order(m))
}

/// Two sequences that list the same map are equal.
pub proof fn lemma_lists_unique(
    a: Seq<(usize, TaskView)>,
    b: Seq<(usize, TaskView)>,
    m: Map<usize, TaskView>,
)
    requires
        lists(a, m),
        lists(b, m),
    ensures
        a == b,
    decreases a.len(),
{
    if a.len() == 0 {
        if b.len() > 0 {
            assert(m.contains_key(b[0].0));
        }
        assert(a =~= b);
    } else if b.len() == 0 {
        assert(m.contains_key(a[0].0));
    } else {
        let x = a.last();
        let y = b.last();
        assert(m.contains_key(x.0));
        assert(m.contains_key(y.0));
        let i = choose|i: int| 0 <= i < b.len() && #[trigger] b[i].0 == x.0;
        let j = choose|j: int| 0 <= j < a.len() && #[trigger] a[j].0 == y.0;
        assert(x.0 == y.0);
        assert(x == y);
        let rest = m.remove(x.0);
        assert forall|k: usize| rest.contains_key(k) implies exists|i: int|
            0 <= i < a.drop_last().len() && #[trigger] a.drop_last()[i].0 == k by {
            let i = choose|i: int| 0 <= i < a.len() && #[trigger] a[i].0 == k;
            assert(a.drop_last()[i].0 == k);
        }
        assert forall|k: usize| rest.contains_key(k) implies exists|i: int|
            0 <= i < b.drop_last().len() && #[trigger] b.drop_last()[i].0 == k by {
            let i = choose|i: int| 0 <= i < b.len() && #[trigger] b[i].0 == k;
            assert(b.drop_last()[i].0 == k);
        }
        assert(lists(a.drop_last(), rest));
        assert(lists(b.drop_last(), rest));
        lemma_lists_unique(a.drop_last(), b.drop_last(), rest);
        assert(a =~= a.drop_last().push(x));
        assert(b =~= b.drop_last().push(y));
    }
}

/// A sequence that lists a map is its listing.
pub(crate) proof fn lemma_lists_is_listing(l: Seq<(usize, TaskView)>, m: Map<usize, TaskView>)
    requires
        lists(l, m),
    ensures
        l == listing(m),
{
    lemma_lists_unique(l, listing(m), m);
}

/// A finite set of numbers that is not empty has a greatest member.
proof fn lemma_greatest(s: Set<usize>) -> (g: usize)
    requires
        s.finite(),
        s.len() > 0,
    ensures
        s.contains(g),
        forall|k: usize| s.contains(k) ==> k <= g,
    decreases s.len(),
{
    let x = s.choose();
    let rest = s.remove(x);
    if rest.len() == 0 {
        assert forall|k: usize| s.contains(k) implies k <= x by {
            if k != x {
                assert(rest.contains(k));
            }
        }
        x
    } else {
        let h = lemma_greatest(rest);
        let g = if h < x {
            x
        } else {
            h
        };
        assert forall|k: usize| s.contains(k) implies k <= g by {
            if k != x {
                assert(rest.contains(k));
            }
        }
        g
    }
}

/// Every finite map has a listing, with one entry for each of its numbers.
pub proof fn lemma_listing(m: Map<usize, TaskView>)
    requires
        m.dom().finite(),
    ensures
        lists(listing(m), m),
        listing(m).len() == m.len(),
        tasks_in_order(m).len() == m.len(),
    decreases m.len(),
{
    if m.len() == 0 {
        let l = Seq::<(usize, TaskView)>::empty();
        assert forall|k: usize| !m.contains_key(k) by {
            if m.dom().contains(k) {
                assert(m.dom().len() > 0);
            }
        }
        assert(lists(l, m));
        lemma_lists_is_listing(l, m);
    } else {
        let g = lemma_greatest(m.dom());
        let rest = m.remove(g);
        lemma_listing(rest);
        let l = listing(rest).push((g, m[g]));
        assert forall|i: int, j: int| 0 <= i < j < l.len() implies l[i].0 < l[j].0 by {
            assert(rest.contains_key(l[i].0));
            if j < l.len() - 1 {
                assert(l[j] == listing(rest)[j]);
            }
        }
        assert forall|i: int| 0 <= i < l.len() implies m.contains_pair(#[trigger] l[i].0, l[i].1) by {
            if i < l.len() - 1 {
                assert(rest.contains_pair(listing(rest)[i].0, listing(rest)[i].1));
            }
        }
        assert forall|k: usize| m.contains_key(k) implies exists|i: int|
            0 <= i < l.len() && #[trigger] l[i].0 == k by {
            if k == g {
                assert(l[l.len() - 1].0 == k);
            } else {
                assert(rest.contains_key(k));
                let i = choose|i: int| 0 <= i < listing(rest).len() && #[trigger] listing(rest)[i].0 == k;
                assert(l[i].0 == k);
            }
        }
        assert(lists(l, m));
        lemma_lists_is_listing(l, m);
        assert(rest.dom() =~= m.dom().remove(g));
    }
}

/// The tasks of `s`, numbered from zero, come in the order of `s`.
pub proof fn lemma_numbered(s: Seq<TaskView>)
    requires
        s.len() <= usize::MAX + 1,
    ensures
        listing(numbered(s)) == Seq::new(s.len(), |i: int| (i as usize, s[i])),
        tasks_in_order(numbered(s)) == s,
        numbered(s).dom().finite(),
        numbered(s).len() == s.len(),
        forall|k: usize| numbered(s).contains_key(k) <==> k < s.len(),
{
    let l = Seq::new(s.len(), |i: int| (i as usize, s[i]));
    let m = numbered(s);
    assert forall|k: usize| m.contains_key(k) implies exists|i: int|
        0 <= i < l.len() && #[trigger] l[i].0 == k by {
        assert(l[k as int].0 == k);
    }
    assert(lists(l, m));
    lemma_lists_is_listing(l, m);
    assert(tasks_in_order(m) =~= s);
    let ks = l.map_values(|e: (usize, TaskView)| e.0);
    assert(ks.to_set() =~= m.dom()) by {
        assert forall|k: usize| m.dom().contains(k) implies ks.to_set().contains(k) by {
            assert(ks[k as int] == k);
        }
    }
    vstd::seq_lib::seq_to_set_is_finite(ks);
    ks.unique_seq_to_set();
}

/// Numbering the tasks of a list anew gives them the numbers below their
/// count, each once, and keeps the tasks in their order.
pub proof fn lemma_renumbered(m: Map<usize, TaskView>)
    requires
        m.dom().finite(),
        m.len() <= usize::MAX + 1,
    ensures
        forall|k: usize| renumbered(m).contains_key(k) <==> k < m.len(),
        renumbered(m).dom().finite(),
        renumbered(m).len() == m.len(),
        tasks_in_order(renumbered(m)) == tasks_in_order(m),
        forall|k: usize| k < m.len() ==> renumbered(m)[k] == #[trigger] tasks_in_order(m)[k as int],
{
    lemma_listing(m);
    lemma_numbered(tasks_in_order(m));
}

/// Without one of its tasks a list holds the others in the order they had:
/// its listing is the former one with the entry of that task taken out.
pub proof fn lemma_listing_without(m: Map<usize, TaskView>, id: usize)
    requires
        m.dom().finite(),
    ensures
        !m.contains_key(id) ==> listing(m.remove(id)) == listing(m),
        m.contains_key(id) ==> exists|p: int|
            0 <= p < listing(m).len() && #[trigger] listing(m)[p] == (id, m[id]) && listing(
                m.remove(id),
            ) == listing(m).remove(p),
{
    lemma_listing(m);
    let l = listing(m);
    let left = m.remove(id);
    if !m.contains_key(id) {
        assert(left =~= m);
    } else {
        let p = choose|p: int| 0 <= p < l.len() && #[trigger] l[p].0 == id;
        assert(m.contains_pair(l[p].0, l[p].1));
        let r = l.remove(p);
        assert forall|i: int| 0 <= i < r.len() implies left.contains_pair(#[trigger] r[i].0, r[i].1) by {
            let j = if i < p {
                i
            } else {
                i + 1
            };
            assert(r[i] == l[j]);
            assert(m.contains_pair(l[j].0, l[j].1));
        }
        assert forall|i: int, j: int| 0 <= i < j < r.len() implies r[i].0 < r[j].0 by {
            let a = if i < p {
                i
            } else {
                i + 1
            };
            let b = if j < p {
                j
            } else {
                j + 1
            };
            assert(r[i] == l[a]);
            assert(r[j] == l[b]);
        }
        assert forall|k: usize| left.contains_key(k) implies exists|i: int|
            0 <= i < r.len() && #[trigger] r[i].0 == k by {
            let j = choose|j: int| 0 <= j < l.len() && #[trigger] l[j].0 == k;
            let i = if j < p {
                j
            } else {
                j - 1
            };
            assert(r[i] == l[j]);
        }
        assert(lists(r, left));
        lemma_lists_is_listing(r, left);
        assert(l[p] == (id, m[id]));
    }
}

/// After a task is deleted and the numbers are refreshed, the numbers are
/// exactly those below the count of the tasks that are left, and these
/// tasks come in the order in which they came before.
pub proof fn lemma_delete_then_refresh(m: Map<usize, TaskView>, id: usize)
    requires
        m.dom().finite(),
        m.len() <= usize::MAX + 1,
    ensures
        forall|k: usize| renumbered(m.remove(id)).contains_key(k) <==> k < m.remove(id).len(),
        renumbered(m.remove(id)).len() == m.remove(id).len(),
        tasks_in_order(renumbered(m.remove(id))) == tasks_in_order(m.remove(id)),
        !m.contains_key(id) ==> tasks_in_order(m.remove(id)) == tasks_in_order(m),
        m.contains_key(id) ==> exists|p: int|
            0 <= p < listing(m).len() && #[trigger] listing(m)[p] == (id, m[id])
                && tasks_in_order(m.remove(id)) == tasks_in_order(m).remove(p),
{
    let left = m.remove(id);
    assert(left.dom() =~= m.dom().remove(id));
    lemma_renumbered(left);
    lemma_listing_without(m, id);
    if m.contains_key(id) {
        let p = choose|p: int|
            0 <= p < listing(m).len() && #[trigger] listing(m)[p] == (id, m[id]) && listing(left)
                == listing(m).remove(p);
        assert(tasks_in_order(left) =~= tasks_in_order(m).remove(p));
    }
}

/// A task added right after the numbers were refreshed gets the count of
/// the tasks as its number: it replaces none, leaves no gap, and comes last.
pub proof fn lemma_add_after_refresh(m: Map<usize, TaskView>, task: TaskView)
    requires
        m.dom().finite(),
        m.len() <= usize::MAX,
    ensures
        ({
            let fresh = renumbered(m);
            let after = fresh.insert(fresh.len() as usize, task);
            &&& fresh.len() == m.len()
            &&& !fresh.contains_key(fresh.len() as usize)
            &&& forall|k: usize| after.contains_key(k) <==> k <= m.len()
            &&& after[m.len() as usize] == task
            &&& tasks_in_order(after) == tasks_in_order(m).push(task)
        }),
{
    lemma_renumbered(m);
    lemma_listing(m);
    let fresh = renumbered(m);
    let after = fresh.insert(fresh.len() as usize, task);
    let s = tasks_in_order(m).push(task);
    assert(after =~= numbered(s));
    lemma_numbered(s);
}

} // verus!
