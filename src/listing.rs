//! How the list is shown: the kept tasks in ascending id order, as a table.
use vstd::prelude::*;
use crate::task::{row_of, TaskView};

verus! {

/// Whether a listing shows the task: every task with `all`, the open ones
/// without it.
pub open spec fn shown(t: TaskView, all: bool) -> bool {
    all || !t.done
}

/// Where a task with the given id goes in an id-ordered sequence: after
/// every task whose id is not above it.
pub open spec fn insert_pos(r: Seq<TaskView>, id: u32) -> int
    decreases r.len(),
{
    if r.len() == 0 {
        0
    } else if r[0].id > id {
        0
    } else {
        insert_pos(r.drop_first(), id) + 1
    }
}

/// The shown tasks sorted by id, stably: tasks with equal ids keep their
/// stored order.
pub open spec fn listing(s: Seq<TaskView>, all: bool) -> Seq<TaskView>
    decreases s.len(),
{
    if s.len() == 0 {
        Seq::empty()
    } else {
        let rest = listing(s.drop_last(), all);
        let t = s.last();
        if shown(t, all) {
            rest.insert(insert_pos(rest, t.id), t)
        } else {
            rest
        }
    }
}

/// Ids never go down along the sequence.
pub open spec fn ids_ascending(r: Seq<TaskView>) -> bool {
    forall|i: int, j: int| 0 <= i < j < r.len() ==> r[i].id <= r[j].id
}

/// Ids go up strictly along the sequence.
pub open spec fn ids_strictly_ascending(r: Seq<TaskView>) -> bool {
    forall|i: int, j: int| 0 <= i < j < r.len() ==> r[i].id < r[j].id
}

/// The cells of the table of a listing: a header row of three empty cells,
/// then one row per task.
pub open spec fn table_of(r: Seq<TaskView>) -> Seq<Seq<Seq<char>>> {
    seq![seq![Seq::<char>::empty(), Seq::<char>::empty(), Seq::<char>::empty()]]
        + r.map_values(|t: TaskView| row_of(t))
}

/// The text of each cell of a table.
pub open spec fn cells(rows: Seq<Vec<String>>) -> Seq<Seq<Seq<char>>> {
    rows.map_values(|row: Vec<String>| row@.map_values(|c: String| c@))
}

/// What tabled draws for the given cells in its blank style.
pub uninterp spec fn blank_table(rows: Seq<Seq<Seq<char>>>) -> Seq<char>;

/// Relies on tabled's `Builder::from`, `Style::blank` and `Display` for
/// `Table`: the drawn table depends on the cells alone.
#[verifier::external_body]
pub(crate) fn draw_blank_table(rows: Vec<Vec<String>>) -> (r: String)
    ensures
        r@ == blank_table(cells(rows@)),
{
    let mut table = tabled::builder::Builder::from(rows).build();
    table.with(tabled::settings::Style::blank());
    table.to_string()
}

/// `insert_pos` is the first position whose id is above `id`, given that no
/// position before `p` has one.
pub(crate) proof fn lemma_insert_pos_at(r: Seq<TaskView>, id: u32, p: int)
    requires
        0 <= p <= r.len(),
        forall|j: int| 0 <= j < p ==> r[j].id <= id,
        p < r.len() ==> r[p].id > id,
    ensures
        insert_pos(r, id) == p,
    decreases p,
{
    if p > 0 {
        assert forall|j: int| 0 <= j < p - 1 implies r.drop_first()[j].id <= id by {
            assert(r[j + 1].id <= id);
        }
        lemma_insert_pos_at(r.drop_first(), id, p - 1);
    }
}

} // verus!
