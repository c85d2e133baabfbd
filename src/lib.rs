//! A small to-do list manager: a flat list of tasks, each with an id, a
//! description and a done flag, and the operations that change that list.
//!
//! The library holds the whole logic of every command: which id a new task
//! gets, which task an id names, what changes, whether the collection must be
//! written back, and how the list is shown. Reading and writing the backing
//! file, and asking the operator, are left to the caller.

mod laws;
mod listing;
mod store;
mod task;
mod text;

pub use laws::{
    added_all, lemma_adds_number_from_one, lemma_delete_then_add, lemma_ids_stay_unique,
    lemma_listing, lemma_missing_id_changes_nothing, lemma_swap_twice,
};
pub use listing::{
    blank_table, cells, ids_ascending, ids_strictly_ascending, insert_pos, listing, shown, table_of,
};
pub use store::{
    added, deleted, described, done_count, has_id, ids_unique, index_of, lemma_index_of,
    lemma_max_id, marked, max_id, next_id, reset_prompt, swapped, ResetStep, StoreError,
    TaskCounts, TaskStore,
};
pub use task::{line_of, row_of, TaskItem, TaskView};
pub use text::{
    answer_is_yes, as_checkbox, checkbox, counted, decimal, digit_char, is_yes, lower_of,
    pluralize, to_decimal, trimmed_of,
};
