# readline-hooks

A small language for rewriting the line being edited in `bash`.

## The `=` form

Everything from a standalone `=` to the cursor is read as a request and
replaced by its answer; the text before the `=` stays:

    <text> = [dir] [num] [command]

- `command`: `t` (last file by timestamp), `tr` (reversed), `l` (last file by
  name), `lr` (reversed); `t` when left out. `z` alone undoes the last
  rewrite: the line goes back to what it was.
- `dir`: the directory to list; the current one when left out.
- `num`: which file, counting from the end; 1 when left out.

Examples: `mv -iv = ~/Downloads` (the newest file in `~/Downloads`),
`view-pdf = ~/bookshelf l`, `cat = /tmp 3 t` (the 3rd-to-last file in `/tmp`
by timestamp). Words are separated by whitespace. The chosen name is quoted
for the shell.

## The plain form

Without `=`, the last word names the command and the text before it stays:
`t`, `tr`, `l`, `lr` as above in the current directory, `T` (the newest file
in the directory named by the last word before it), `g` (a `gpcm` command for
the first starred line of `it branch`), `z` (the text before the last command
word). An empty line, or one that ends in whitespace, means `t`.

## Layout

- `src/` — the library, verified with Verus: both grammars, the dispatch
  table, what each command asks for and makes of the answer, the new line and
  cursor position, and one rewrite step (`step::start`, `step::finish`).
- `app/main.rs` — the program: reads `READLINE_LINE` / `READLINE_POINT`,
  performs the outside work a step asks for (runs `ls` or `it`, reads the
  history file), stores the history and prints
  `READLINE_LINE=...; READLINE_POINT=...`.
- `tests/` — tests of the library on concrete inputs.

Install by binding a key to `eval $(readline-hooks)` with `bind -x`.
