//! A line editor core: an editable buffer with undo groups, history navigation,
//! completion, incremental search, a redraw planner and a Vi key map.
//!
//! The library does no input or output of its own. A redraw collects its terminal output
//! in the editor, which the host takes with `Editor::take_output` and writes; the host also
//! decodes keys and reports the terminal width. Buffer text is drawn as it is (there is no
//! colouring hook), words are always split by `get_buffer_words`, and there are no event
//! callbacks around keys or completion: a host sees the editor's state between keys.

mod ansi;
mod buffer;
mod complete;
mod editor;
mod history;
mod key;
mod layout;
mod position;
mod text;
mod vi;

pub use buffer::{lemma_undo_group_insert, lemma_undo_group_remove, Action, Buffer};
pub use complete::{lemma_next_then_prev, lemma_prev_then_next, step_completion, CompleteType};
pub use history::{get_buffer_words, Completer, Context, History};
pub use key::Key;
pub use position::CursorPosition;
pub use editor::{
    after_edit, clamped, lemma_clamped_no_eol, lemma_cycle_next_prev, lemma_insert_then_delete, lemma_invariants,
    lemma_selection_views, lemma_undo_restores_group, Editor, DEFAULT_TERMINAL_WIDTH,
};
pub use text::{lines_of, widths_of};
pub use vi::{is_movement_key, lemma_undo_replace_group, KeyError, Mode, ModeStack, NoCompleter, Vi};
