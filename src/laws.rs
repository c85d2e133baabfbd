//! What holds of the operations over every collection.
use vstd::prelude::*;
use crate::listing::{ids_ascending, ids_strictly_ascending, insert_pos, listing, shown};
use crate::store::{
    added, deleted, described, has_id, ids_unique, index_of, lemma_index_of, lemma_index_of_at,
    lemma_max_id, marked, max_id, next_id, swapped,
};
use crate::task::TaskView;

verus! {

/// The collection after adding one task per description, in order.
pub open spec fn added_all(s: Seq<TaskView>, descs: Seq<Seq<char>>) -> Seq<TaskView>
    decreases descs.len(),
{
    if descs.len() == 0 {
        s
    } else {
        added(added_all(s, descs.drop_last()), descs.last())
    }
}

/// Adding tasks to an empty collection numbers them 1, 2, ..., N in the
/// order of adding, with no gap and no repeat, and every add finds an id
/// left.
pub proof fn lemma_adds_number_from_one(descs: Seq<Seq<char>>)
    requires
        descs.len() < u32::MAX,
    ensures
        added_all(Seq::empty(), descs).len() == descs.len(),
        max_id(added_all(Seq::empty(), descs)) == descs.len(),
        forall|i: int|
            #![trigger added_all(Seq::empty(), descs)[i]]
            0 <= i < descs.len() ==> added_all(Seq::empty(), descs)[i] == (TaskView {
                id: (i + 1) as u32,
                task: descs[i],
                done: false,
            }),
        forall|k: int|
            0 <= k < descs.len() ==> max_id(added_all(Seq::empty(), descs.take(k))) < u32::MAX,
    decreases descs.len(),
{
    if descs.len() > 0 {
        let prev = descs.drop_last();
        lemma_adds_number_from_one(prev);
        let r = added_all(Seq::<TaskView>::empty(), prev);
        let r2 = added_all(Seq::<TaskView>::empty(), descs);
        assert(r2 == added(r, descs.last()));
        assert(r2.drop_last() =~= r);
        assert forall|i: int| 0 <= i < descs.len() implies r2[i] == (TaskView {
            id: (i + 1) as u32,
            task: descs[i],
            done: false,
        }) by {
            if i < descs.len() - 1 {
                assert(r2[i] == r[i]);
                assert(prev[i] == descs[i]);
            }
        }
        assert forall|k: int| 0 <= k < descs.len() implies max_id(
            added_all(Seq::empty(), descs.take(k)),
        ) < u32::MAX by {
            if k < descs.len() - 1 {
                assert(descs.take(k) =~= prev.take(k));
            } else {
                assert(descs.take(k) =~= prev);
            }
        }
    }
}

/// A non-empty collection whose ids are all at most `m`, one of them `m`,
/// has `m` as its largest id.
proof fn lemma_max_id_is(t: Seq<TaskView>, m: u32)
    requires
        forall|j: int| 0 <= j < t.len() ==> t[j].id <= m,
        has_id(t, m),
    ensures
        max_id(t) == m,
{
    lemma_max_id(t);
    let k = choose|k: int| 0 <= k < t.len() && t[k].id == m;
    assert(t[k].id <= max_id(t));
    let w = choose|w: int| 0 <= w < t.len() && t[w].id == max_id(t) as u32;
    assert(t[w].id <= m);
}

/// Ids are never taken from a free list: after deleting the task with a
/// given id, the next add gives that id again only if it was the largest
/// id; deleting any other task leaves the next id where it was.
pub proof fn lemma_delete_then_add(s: Seq<TaskView>, id: u32)
    requires
        has_id(s, id),
    ensures
        next_id(deleted(s, id)) == id ==> id == max_id(s),
        id != max_id(s) ==> next_id(deleted(s, id)) == next_id(s),
        next_id(deleted(s, id)) <= next_id(s),
{
    lemma_index_of(s, id);
    lemma_max_id(s);
    let i = index_of(s, id);
    let d = deleted(s, id);
    assert(d == s.remove(i));
    assert forall|j: int| 0 <= j < d.len() implies d[j].id <= max_id(s) by {
        if j < i {
            assert(d[j] == s[j]);
        } else {
            assert(d[j] == s[j + 1]);
        }
    }
    if d.len() > 0 {
        lemma_max_id(d);
        let w = choose|w: int| 0 <= w < d.len() && d[w].id == max_id(d) as u32;
        assert(d[w].id <= max_id(s));
    }
    if id != max_id(s) {
        let k = choose|k: int| 0 <= k < s.len() && s[k].id == max_id(s) as u32;
        assert(k != i);
        if k < i {
            assert(d[k] == s[k]);
        } else {
            assert(d[k - 1] == s[k]);
        }
        lemma_max_id_is(d, max_id(s) as u32);
    }
}

/// Swapping the same two ids twice gives back the collection, in a
/// collection whose ids are unique.
pub proof fn lemma_swap_twice(s: Seq<TaskView>, id1: u32, id2: u32)
    requires
        ids_unique(s),
    ensures
        swapped(swapped(s, id1, id2), id1, id2) == s,
{
    lemma_index_of(s, id1);
    lemma_index_of(s, id2);
    let i1 = index_of(s, id1);
    let i2 = index_of(s, id2);
    if i1 >= 0 && i2 >= 0 {
        let t = swapped(s, id1, id2);
        if i1 == i2 {
            assert(t =~= s);
        } else {
            assert forall|j: int| 0 <= j < i2 implies t[j].id != id1 by {
                if j != i1 {
                    assert(s[j].id != s[i1].id);
                }
            }
            lemma_index_of_at(t, id1, i2);
            assert forall|j: int| 0 <= j < i1 implies t[j].id != id2 by {
                if j != i2 {
                    assert(s[j].id != s[i2].id);
                }
            }
            lemma_index_of_at(t, id2, i1);
            assert(swapped(t, id1, id2) =~= s);
        }
    }
}

/// Naming an id that no task has changes nothing: update, mark and delete
/// leave the collection as it was.
pub proof fn lemma_missing_id_changes_nothing(s: Seq<TaskView>, id: u32, task: Seq<char>, done: bool)
    requires
        !has_id(s, id),
    ensures
        described(s, id, task) == s,
        marked(s, id, done) == s,
        deleted(s, id) == s,
{
    lemma_index_of(s, id);
}

/// Where `insert_pos` puts an id: after every task whose id is not above
/// it and, in an id-ordered sequence, before every task whose id is.
proof fn lemma_insert_pos(r: Seq<TaskView>, id: u32)
    ensures
        0 <= insert_pos(r, id) <= r.len(),
        forall|j: int| 0 <= j < insert_pos(r, id) ==> r[j].id <= id,
        ids_ascending(r) ==> forall|j: int| insert_pos(r, id) <= j < r.len() ==> r[j].id > id,
    decreases r.len(),
{
    if r.len() > 0 && r[0].id <= id {
        let t = r.drop_first();
        lemma_insert_pos(t, id);
        assert forall|j: int| 0 <= j < insert_pos(r, id) implies r[j].id <= id by {
            if j > 0 {
                assert(r[j] == t[j - 1]);
            }
        }
        if ids_ascending(r) {
            assert(ids_ascending(t)) by {
                assert forall|a: int, b: int| 0 <= a < b < t.len() implies t[a].id <= t[b].id by {
                    assert(t[a] == r[a + 1] && t[b] == r[b + 1]);
                }
            }
            assert forall|j: int| insert_pos(r, id) <= j < r.len() implies r[j].id > id by {
                assert(r[j] == t[j - 1]);
            }
        }
    }
}

/// The list shows exactly the tasks it should, in ascending id order: every
/// shown task is a stored task that passes the filter (no done task without
/// `all`), every stored task that passes it is shown, with `all` all of
/// them are, and where ids are unique they strictly ascend.
pub proof fn lemma_listing(s: Seq<TaskView>, all: bool)
    ensures
        ids_ascending(listing(s, all)),
        forall|k: int|
            0 <= k < listing(s, all).len() ==> s.contains(#[trigger] listing(s, all)[k]) && shown(
                listing(s, all)[k],
                all,
            ),
        !all ==> forall|k: int| 0 <= k < listing(s, all).len() ==> !(#[trigger] listing(s, all)[k]).done,
        forall|i: int| 0 <= i < s.len() && shown(#[trigger] s[i], all) ==> listing(s, all).contains(s[i]),
        all ==> listing(s, all).len() == s.len(),
        ids_unique(s) ==> ids_strictly_ascending(listing(s, all)),
    decreases s.len(),
{
    if s.len() > 0 {
        let u = s.drop_last();
        lemma_listing(u, all);
        let rest = listing(u, all);
        let t = s.last();
        let l = listing(s, all);
        if shown(t, all) {
            let p = insert_pos(rest, t.id);
            lemma_insert_pos(rest, t.id);
            assert(l == rest.insert(p, t));
            assert(forall|k: int| 0 <= k < p ==> l[k] == rest[k]);
            assert(l[p] == t);
            assert(forall|k: int| p < k < l.len() ==> l[k] == rest[k - 1]);
            assert forall|a: int, b: int| 0 <= a < b < l.len() implies l[a].id <= l[b].id by {
                if b < p {
                } else if b == p {
                } else if a < p {
                    assert(l[b] == rest[b - 1]);
                } else if a == p {
                    assert(l[b] == rest[b - 1]);
                } else {
                    assert(l[a] == rest[a - 1] && l[b] == rest[b - 1]);
                }
            }
            assert forall|k: int| 0 <= k < l.len() implies s.contains(#[trigger] l[k]) && shown(l[k], all) by {
                if k == p {
                    assert(s[s.len() - 1] == t);
                } else {
                    let m = if k < p { k } else { k - 1 };
                    assert(l[k] == rest[m]);
                    assert(u.contains(rest[m]));
                    let w = choose|w: int| 0 <= w < u.len() && u[w] == rest[m];
                    assert(s[w] == u[w]);
                }
            }
            assert forall|i: int| 0 <= i < s.len() && shown(#[trigger] s[i], all) implies l.contains(s[i]) by {
                if i == s.len() - 1 {
                    assert(l[p] == s[i]);
                } else {
                    assert(s[i] == u[i]);
                    assert(rest.contains(u[i]));
                    let w = choose|w: int| 0 <= w < rest.len() && rest[w] == u[i];
                    if w < p {
                        assert(l[w] == s[i]);
                    } else {
                        assert(l[w + 1] == s[i]);
                    }
                }
            }
            if ids_unique(s) {
                assert(ids_unique(u)) by {
                    assert forall|a: int, b: int| 0 <= a < u.len() && 0 <= b < u.len() && a != b implies u[a].id != u[b].id by {
                        assert(u[a] == s[a] && u[b] == s[b]);
                    }
                }
                assert forall|m: int| 0 <= m < rest.len() implies rest[m].id != t.id by {
                    assert(u.contains(rest[m]));
                    let w = choose|w: int| 0 <= w < u.len() && u[w] == rest[m];
                    assert(s[w] == u[w]);
                    assert(s[w].id != s[s.len() - 1].id);
                }
                assert forall|a: int, b: int| 0 <= a < b < l.len() implies l[a].id < l[b].id by {
                    if b < p {
                    } else if b == p {
                    } else if a < p {
                        assert(l[b] == rest[b - 1]);
                    } else if a == p {
                        assert(l[b] == rest[b - 1]);
                    } else {
                        assert(l[a] == rest[a - 1] && l[b] == rest[b - 1]);
                    }
                }
            }
        } else {
            assert(l == rest);
            assert forall|k: int| 0 <= k < l.len() implies s.contains(#[trigger] l[k]) && shown(l[k], all) by {
                assert(u.contains(rest[k]));
                let w = choose|w: int| 0 <= w < u.len() && u[w] == rest[k];
                assert(s[w] == u[w]);
            }
            assert forall|i: int| 0 <= i < s.len() && shown(#[trigger] s[i], all) implies l.contains(s[i]) by {
                assert(i != s.len() - 1);
                assert(s[i] == u[i]);
            }
            if ids_unique(s) {
                assert(ids_unique(u)) by {
                    assert forall|a: int, b: int| 0 <= a < u.len() && 0 <= b < u.len() && a != b implies u[a].id != u[b].id by {
                        assert(u[a] == s[a] && u[b] == s[b]);
                    }
                }
            }
        }
    }
}

/// Every operation keeps the ids of a collection unique.
pub proof fn lemma_ids_stay_unique(s: Seq<TaskView>, id: u32, id2: u32, task: Seq<char>, done: bool)
    requires
        ids_unique(s),
    ensures
        max_id(s) < u32::MAX ==> ids_unique(added(s, task)),
        ids_unique(described(s, id, task)),
        ids_unique(marked(s, id, done)),
        ids_unique(deleted(s, id)),
        ids_unique(swapped(s, id, id2)),
{
    lemma_max_id(s);
    lemma_index_of(s, id);
    lemma_index_of(s, id2);
    let i = index_of(s, id);
    let i2 = index_of(s, id2);
    if max_id(s) < u32::MAX {
        let a = added(s, task);
        assert forall|x: int, y: int| 0 <= x < a.len() && 0 <= y < a.len() && x != y implies a[x].id != a[y].id by {
            if x < s.len() && y < s.len() {
                assert(a[x] == s[x] && a[y] == s[y]);
            } else if x < s.len() {
                assert(a[x] == s[x]);
            } else {
                assert(a[y] == s[y]);
            }
        }
    }
    if i >= 0 {
        let d = described(s, id, task);
        assert forall|x: int, y: int| 0 <= x < d.len() && 0 <= y < d.len() && x != y implies d[x].id != d[y].id by {
            assert(d[x].id == s[x].id && d[y].id == s[y].id);
        }
        let m = marked(s, id, done);
        assert forall|x: int, y: int| 0 <= x < m.len() && 0 <= y < m.len() && x != y implies m[x].id != m[y].id by {
            assert(m[x].id == s[x].id && m[y].id == s[y].id);
        }
        let r = deleted(s, id);
        assert forall|x: int, y: int| 0 <= x < r.len() && 0 <= y < r.len() && x != y implies r[x].id != r[y].id by {
            let sx = if x < i { x } else { x + 1 };
            let sy = if y < i { y } else { y + 1 };
            assert(r[x] == s[sx] && r[y] == s[sy]);
        }
        if i2 >= 0 {
            let w = swapped(s, id, id2);
            assert forall|x: int, y: int| 0 <= x < w.len() && 0 <= y < w.len() && x != y implies w[x].id != w[y].id by {
                if x != i && x != i2 && y != i && y != i2 {
                    assert(w[x] == s[x] && w[y] == s[y]);
                } else if x != i && x != i2 {
                    assert(w[x] == s[x]);
                    assert(s[x].id != s[i].id && s[x].id != s[i2].id);
                } else if y != i && y != i2 {
                    assert(w[y] == s[y]);
                    assert(s[y].id != s[i].id && s[y].id != s[i2].id);
                }
            }
        }
    }
}

} // verus!
