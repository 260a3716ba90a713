//! Readline rewriting hooks: a small command language that rewrites the line
//! being edited. The last word before the cursor names a command (`t`, `tr`,
//! `l`, `lr`, `T`, `g`, `z`); the command asks for one piece of outside work
//! (a listing, the git branches, the stored history), and its results become
//! the new line and cursor position.
//!
//! - `text`: characters, whitespace, lines.
//! - `lines`: laws of the lines of a text.
//! - `number`: decimal `u32` text, read and written.
//! - `command`: splitting the line into first part, command word and joiner.
//! - `shell`: shell quoting and shell words.
//! - `handlers`: the commands and the outside work they ask for.
//! - `dispatch`: the table from command words to commands.
//! - `readline`: the new line and cursor position.
//! - `language`: the `=` form, `<text> = [dir] [num] [command]`.
//! - `step`: one rewrite, from the line and the outcome of its outside work
//!   to the new state and the text to store in the history.
pub mod text;
pub mod lines;
pub mod number;
pub mod command;
pub mod shell;
pub mod handlers;
pub mod dispatch;
pub mod readline;
pub mod language;
pub mod step;

pub use command::{get_cmd, get_cmd_empty, get_cmd_nonspace_at_end, get_cmd_space_at_end, CommandParseParsed, CommandParseResult};
pub use dispatch::{get_main, Dispatcher, Main};
pub use handlers::{
    branch_lines_ok, git_commit, handle_T, handler_results_ok, pick_from_listing, try_handler_results, handle_g, handle_l, handle_lr, handle_t, handle_tr, handle_z,
    handler_effect, handler_results, ls_args, ls_last_priv, try_handler_effect, DispatchCommandResults,
    DispatchData, Effect, Handler,
};
pub use number::{parse_u32, u32_text};
pub use readline::{get_output, get_output_ok, get_readline_state, output, process, process_ok, ReadlineState};
pub use step::{finish, job_effect, start, Job};
pub use language::{eq_form_of, parse_request};
pub use shell::{get_words, get_words_partition_right, try_get_words_partition_right};
