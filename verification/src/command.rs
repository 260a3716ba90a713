//! Splitting the text before the cursor into the part that stays, the
//! command word at its end, and the joiner put back between them.
//!
//! The grammar: an empty line means the command `t`; a line that ends in
//! whitespace means `t` applied to the text before that whitespace; otherwise
//! the command is the last run of non-whitespace characters. The part that
//! stays may not hold a line feed.
use vstd::prelude::*;
use vstd::string::StrSliceExecFns;
use crate::text::{chars_of, has_newline_before, is_white, lemma_run_start, run_start, trailing_run_start};

verus! {

/// (first part, command, join).
pub type CommandParseParsed<'a> = (&'a str, &'a str, &'a str);

/// The outcome of one stage of the command parse.
pub enum CommandParseResult<'a> {
    Found((&'a str, &'a str, &'a str)),
    NotFound,
    Error(&'a str),
}

/// A split as character sequences: (first part, command, join).
pub type SplitView = (Seq<char>, Seq<char>, Seq<char>);

/// `Ok(Some(..))` for `Found`, `Ok(None)` for `NotFound`, `Err(..)` for `Error`.
pub open spec fn stage_view(r: CommandParseResult) -> Result<Option<SplitView>, Seq<char>> {
    match r {
        CommandParseResult::Found((f, c, j)) => Ok(Some((f@, c@, j@))),
        CommandParseResult::NotFound => Ok(None),
        CommandParseResult::Error(e) => Err(e@),
    }
}

pub open spec fn split_view(r: Result<CommandParseParsed, &str>) -> Result<SplitView, Seq<char>> {
    match r {
        Ok((f, c, j)) => Ok((f@, c@, j@)),
        Err(e) => Err(e@),
    }
}

/// The message for a line whose last word cannot be taken off.
pub open spec fn regex_error() -> Seq<char> {
    "ierror regex"@
}

pub open spec fn empty_stage(line: Seq<char>) -> Result<Option<SplitView>, Seq<char>> {
    if line.len() == 0 {
        Ok(Some((seq![], seq!['t'], seq![])))
    } else {
        Ok(None)
    }
}

/// `^(.*?)(\s+)$`: the line ends in whitespace, and the text before its
/// trailing whitespace has no line feed.
pub open spec fn space_stage(line: Seq<char>) -> Result<Option<SplitView>, Seq<char>> {
    let k = run_start(line, true);
    if k < line.len() && !line.take(k).contains('\n') {
        Ok(Some((line.take(k), seq!['t'], seq![' '])))
    } else {
        Ok(None)
    }
}

/// `^(.*?)(\S+)$`: the line ends in non-whitespace, and the text before its
/// last word has no line feed.
pub open spec fn word_stage(line: Seq<char>) -> Result<Option<SplitView>, Seq<char>> {
    let k = run_start(line, false);
    if k < line.len() && !line.take(k).contains('\n') {
        Ok(Some((line.take(k), line.skip(k), seq![])))
    } else {
        Err(regex_error())
    }
}

/// The split of the whole line: the first stage that decides.
pub open spec fn command_split(line: Seq<char>) -> Result<SplitView, Seq<char>> {
    if line.len() == 0 {
        Ok((seq![], seq!['t'], seq![]))
    } else if let Ok(Some(f)) = space_stage(line) {
        Ok(f)
    } else {
        match word_stage(line) {
            Ok(Some(f)) => Ok(f),
            Ok(None) => Err("ierror command parse"@),
            Err(e) => Err(e),
        }
    }
}

/// An empty line is the command `t`, with nothing before it.
pub fn get_cmd_empty<'a>(line: &'a str) -> (r: CommandParseResult<'a>)
    ensures
        stage_view(r) == empty_stage(line@),
{
    if line.unicode_len() == 0 {
        proof {
            reveal_strlit("");
            reveal_strlit("t");
            assert(""@ =~= Seq::<char>::empty());
            assert("t"@ =~= seq!['t']);
        }
        CommandParseResult::Found(("", "t", ""))
    } else {
        CommandParseResult::NotFound
    }
}

/// Trailing whitespace: the command `t`, joined back with a space.
pub fn get_cmd_space_at_end<'a>(line: &'a str) -> (r: CommandParseResult<'a>)
    ensures
        stage_view(r) == space_stage(line@),
{
    let v = chars_of(line);
    let k = trailing_run_start(&v, true);
    if k < v.len() && !has_newline_before(&v, k) {
        proof {
            reveal_strlit("t");
            reveal_strlit(" ");
            assert("t"@ =~= seq!['t']);
            assert(" "@ =~= seq![' ']);
        }
        let first_part = line.substring_char(0, k);
        assert(first_part@ =~= line@.take(k as int));
        CommandParseResult::Found((first_part, "t", " "))
    } else {
        CommandParseResult::NotFound
    }
}

/// The last word is the command; nothing is put between it and the rest.
pub fn get_cmd_nonspace_at_end<'a>(line: &'a str) -> (r: CommandParseResult<'a>)
    ensures
        stage_view(r) == word_stage(line@),
{
    let v = chars_of(line);
    let k = trailing_run_start(&v, false);
    if k < v.len() && !has_newline_before(&v, k) {
        proof {
            reveal_strlit("");
            assert(""@ =~= Seq::<char>::empty());
        }
        let first_part = line.substring_char(0, k);
        let cmd = line.substring_char(k, v.len());
        assert(first_part@ =~= line@.take(k as int));
        assert(cmd@ =~= line@.skip(k as int));
        CommandParseResult::Found((first_part, cmd, ""))
    } else {
        CommandParseResult::Error("ierror regex")
    }
}

/// Splits the line into (first part, command, join); see `command_split`.
pub fn get_cmd<'a>(line: &'a str) -> (r: Result<CommandParseParsed<'a>, &'a str>)
    ensures
        split_view(r) == command_split(line@),
{
    match get_cmd_empty(line) {
        CommandParseResult::Error(e) => return Err(e),
        CommandParseResult::Found(f) => return Ok(f),
        _ => {},
    }
    match get_cmd_space_at_end(line) {
        CommandParseResult::Error(e) => return Err(e),
        CommandParseResult::Found(f) => return Ok(f),
        _ => {},
    }
    match get_cmd_nonspace_at_end(line) {
        CommandParseResult::Error(e) => return Err(e),
        CommandParseResult::Found(f) => return Ok(f),
        _ => {},
    }
    Err("ierror command parse")
}

/// What a successful split says of the line: an empty line gives the command
/// `t` with nothing around it; otherwise the join is empty exactly when the
/// line ends in non-whitespace, and, with an empty join, the first
/// part followed by the command is the line, the command is one word of
/// non-whitespace, and the first part is empty or ends in whitespace; with a
/// space as join, the command is `t` and the line is the first part followed
/// by whitespace only. The first part never holds a line feed. A split fails
/// exactly when the line is not empty and the text before its trailing run
/// holds a line feed.
pub proof fn lemma_command_split_parts(line: Seq<char>)
    ensures
        command_split(line) is Err <==> (line.len() > 0 && (line.take(
            run_start(line, is_white(line.last())),
        ).contains('\n'))),
        line.len() == 0 ==> command_split(line) == Ok::<SplitView, Seq<char>>(
            (Seq::<char>::empty(), seq!['t'], Seq::<char>::empty()),
        ),
        line.len() > 0 ==> (command_split(line) matches Ok((f, c, j)) ==> {
            &&& !f.contains('\n')
            &&& (j == Seq::<char>::empty() || j == seq![' '])
            &&& (j == Seq::<char>::empty() <==> !is_white(line.last()))
            &&& j == Seq::<char>::empty() ==> {
                &&& f + c == line
                &&& c.len() > 0
                &&& forall|i: int| 0 <= i < c.len() ==> !is_white(#[trigger] c[i])
                &&& f.len() == 0 || is_white(f.last())
            }
            &&& j == seq![' '] ==> {
                &&& c == seq!['t']
                &&& f.len() < line.len()
                &&& line.take(f.len() as int) == f
                &&& forall|i: int| f.len() <= i < line.len() ==> is_white(#[trigger] line[i])
                &&& f.len() == 0 || !is_white(f.last())
            }
        }),
{
    reveal_strlit("ierror regex");
    reveal_strlit("ierror command parse");
    if line.len() > 0 {
        lemma_run_start(line, true);
        lemma_run_start(line, false);
        assert(seq![' '].len() != Seq::<char>::empty().len());
        if is_white(line.last()) {
            assert(run_start(line, true) < line.len());
            let k = run_start(line, true);
            if k > 0 {
                assert(line.take(k).last() == line[k - 1]);
            }
            if line.take(k).contains('\n') {
                assert(run_start(line, false) == line.len());
            }
        } else {
            assert(run_start(line, true) == line.len());
            let k = run_start(line, false);
            assert(line.take(k) + line.skip(k) =~= line);
            assert forall|i: int| 0 <= i < line.skip(k).len() implies !is_white(
                #[trigger] line.skip(k)[i],
            ) by {
                assert(line.skip(k)[i] == line[k + i]);
            }
            if k > 0 {
                assert(line.take(k).last() == line[k - 1]);
            }
        }
    } else {
        assert(!Seq::<char>::empty().contains('\n'));
    }
}

} // verus!
