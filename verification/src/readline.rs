//! The readline state: the line and the cursor position that come in, and
//! the rewritten line and position that go out.
use vstd::prelude::*;
use vstd::string::StringExecFns;
use vstd::utf8::{encode_scalar, encode_utf8, has_width_1_encoding};
use crate::number::{decimal_text, lemma_decimal_round_trip, parse_u32, parse_u32_spec, u32_text};
use crate::shell::{shell_quote, shell_quoted};
use crate::handlers::{handler_results_spec, results_view, DispatchCommandResults, Handler};

verus! {

/// `line` is the text of the line, `point` the cursor position in decimal.
pub struct ReadlineState {
    pub line: String,
    pub point: String,
}

/// The state made of the line and the cursor position as they were read.
pub fn get_readline_state(line: String, point: String) -> (s: ReadlineState)
    ensures
        s.line@ == line@,
        s.point@ == point@,
{
    ReadlineState { line: line, point: point }
}

/// The new line: the first part (unless rewinding), the output and a space,
/// with `join` between each two.
pub open spec fn output_line(first_part: Seq<char>, output: Seq<char>, should_rewind: bool, join: Seq<char>) -> Seq<char> {
    (if should_rewind {
        seq![]
    } else {
        first_part
    }) + join + output + join + seq![' ']
}

/// `s.len() as u32`: the UTF-8 length of `s`, cut to 32 bits.
pub open spec fn len_as_u32(s: Seq<char>) -> u32 {
    (encode_utf8(s).len() as usize) as u32
}

/// The new cursor position: the old one, plus the lengths of the joiner and
/// of the new line, plus one.
pub open spec fn new_point(point: u32, line: Seq<char>, join: Seq<char>) -> int {
    point + len_as_u32(join) + len_as_u32(line) + 1
}

/// The cursor position reads as a `u32`, and the new one fits in a `u32`.
pub open spec fn get_output_defined(point_in: Seq<char>, first_part: Seq<char>, output: Seq<char>, should_rewind: bool, join: Seq<char>) -> bool {
    &&& parse_u32_spec(point_in) is Some
    &&& new_point(
        parse_u32_spec(point_in).unwrap(),
        output_line(first_part, output, should_rewind, join),
        join,
    ) <= u32::MAX
}

/// The state after a rewrite, as (line, point).
pub open spec fn get_output_spec(point_in: Seq<char>, first_part: Seq<char>, output: Seq<char>, should_rewind: bool, join: Seq<char>) -> (Seq<char>, Seq<char>) {
    let line = output_line(first_part, output, should_rewind, join);
    (line, decimal_text(new_point(parse_u32_spec(point_in).unwrap(), line, join) as nat))
}

/// `first_bit`, `join`, `output`, `join`, and a space.
fn build_line(first_bit: String, output: &str, join: &str) -> (line: String)
    ensures
        line@ == first_bit@ + join@ + output@ + join@ + seq![' '],
{
    let mut line = first_bit;
    line.append(join);
    line.append(output);
    line.append(join);
    proof {
        reveal_strlit(" ");
    }
    line.append(" ");
    assert(line@ =~= first_bit@ + join@ + output@ + join@ + seq![' ']);
    line
}

/// Whether `get_output` is defined on these arguments: the cursor position
/// reads as a `u32` and the new one does not overflow.
pub fn get_output_ok(point_in: &str, first_part: &str, output: &str, should_rewind: bool, join: &str) -> (b: bool)
    ensures
        b == get_output_defined(point_in@, first_part@, output@, should_rewind, join@),
{
    let p = match parse_u32(point_in) {
        Some(p) => p,
        None => return false,
    };
    let first_bit = if should_rewind {
        String::new()
    } else {
        String::from_str(first_part)
    };
    let line = build_line(first_bit, output, join);
    assert(line@ =~= output_line(first_part@, output@, should_rewind, join@));
    let join_len = join.len() as u32;
    let line_len = line.as_str().len() as u32;
    (p as u64) + (join_len as u64) + (line_len as u64) + 1 <= 0xffff_ffff
}

/// The state after writing `output` (see `get_output_spec`).
pub fn get_output(point_in: &str, first_part: String, output: String, should_rewind: bool, join: String) -> (r: ReadlineState)
    requires
        get_output_defined(point_in@, first_part@, output@, should_rewind, join@),
    ensures
        (r.line@, r.point@) == get_output_spec(point_in@, first_part@, output@, should_rewind, join@),
{
    let first_bit = if should_rewind {
        String::new()
    } else {
        first_part
    };
    let point_in_u32 = match parse_u32(point_in) {
        Some(p) => p,
        None => 0,
    };
    let line = build_line(first_bit, output.as_str(), join.as_str());
    assert(line@ =~= output_line(first_part@, output@, should_rewind, join@));
    let join_len = join.as_str().len() as u32;
    let line_len = line.as_str().len() as u32;
    let point = u32_text(point_in_u32 + join_len + line_len + 1);
    ReadlineState { line: line, point: point }
}

/// The output of a command as it goes into the line: shell-quoted when the
/// command asks for it.
pub open spec fn placed_output(output: Seq<char>, should_quote: bool) -> Seq<char> {
    if should_quote {
        shell_quoted(output)
    } else {
        output
    }
}

/// `process` is defined where the new state is.
pub open spec fn process_defined(first_part: Seq<char>, join: Seq<char>, results: Result<(Seq<char>, bool, bool), ()>, point: Seq<char>) -> bool {
    results matches Ok((o, rewind, quote)) ==> get_output_defined(
        point,
        first_part,
        placed_output(o, quote),
        rewind,
        join,
    )
}

/// The new state as (line, point), or a failure that keeps the line.
pub open spec fn process_spec(first_part: Seq<char>, join: Seq<char>, results: Result<(Seq<char>, bool, bool), ()>, point: Seq<char>) -> Result<(Seq<char>, Seq<char>), ()> {
    match results {
        Ok((o, rewind, quote)) => Ok(
            get_output_spec(point, first_part, placed_output(o, quote), rewind, join),
        ),
        Err(()) => Err(()),
    }
}

pub open spec fn state_view(r: Result<ReadlineState, ()>) -> Result<(Seq<char>, Seq<char>), ()> {
    match r {
        Ok(s) => Ok((s.line@, s.point@)),
        Err(()) => Err(()),
    }
}

/// Whether `process` is defined on these arguments.
pub fn process_ok(first_part: &str, join: &str, results: &DispatchCommandResults, point: &str) -> (b: bool)
    ensures
        b == process_defined(first_part@, join@, results_view(*results), point@),
{
    match results {
        Ok((output, should_rewind, should_quote)) => {
            let placed = if *should_quote {
                shell_quote(output.as_str())
            } else {
                String::from_str(output.as_str())
            };
            get_output_ok(point, first_part, placed.as_str(), *should_rewind, join)
        },
        Err(()) => true,
    }
}

/// Turns a command's results into the new state.
pub fn process(first_part: &str, join: &str, results: DispatchCommandResults, readline_state: &ReadlineState) -> (r: Result<ReadlineState, ()>)
    requires
        process_defined(first_part@, join@, results_view(results), readline_state.point@),
    ensures
        state_view(r) == process_spec(first_part@, join@, results_view(results), readline_state.point@),
{
    let (output, should_rewind, should_quote) = match results {
        Ok(r) => r,
        Err(()) => return Err(()),
    };
    let output_quoted = if should_quote {
        shell_quote(output.as_str())
    } else {
        output
    };
    Ok(
        get_output(
            readline_state.point.as_str(),
            String::from_str(first_part),
            output_quoted,
            should_rewind,
            String::from_str(join),
        ),
    )
}

/// The shell assignment that hands the state back to readline.
pub open spec fn output_spec(line: Seq<char>, point: Seq<char>) -> Seq<char> {
    "READLINE_LINE="@ + shell_quoted(line) + "; READLINE_POINT="@ + point
}

/// `READLINE_LINE=<quoted line>; READLINE_POINT=<point>`.
pub fn output(state: &ReadlineState) -> (r: String)
    ensures
        r@ == output_spec(state.line@, state.point@),
{
    let line_quoted = shell_quote(state.line.as_str());
    let mut r = String::from_str("READLINE_LINE=");
    r.append(line_quoted.as_str());
    r.append("; READLINE_POINT=");
    r.append(state.point.as_str());
    r
}

/// The new cursor position is again a valid one: reading it back as a
/// `u32` gives the position that was computed.
pub proof fn lemma_point_reads_back(point_in: Seq<char>, first_part: Seq<char>, output: Seq<char>, should_rewind: bool, join: Seq<char>)
    requires
        get_output_defined(point_in, first_part, output, should_rewind, join),
    ensures
        parse_u32_spec(get_output_spec(point_in, first_part, output, should_rewind, join).1)
            == Some(
            new_point(
                parse_u32_spec(point_in).unwrap(),
                output_line(first_part, output, should_rewind, join),
                join,
            ) as u32,
        ),
{
    let n = new_point(
        parse_u32_spec(point_in).unwrap(),
        output_line(first_part, output, should_rewind, join),
        join,
    );
    lemma_decimal_round_trip(n as u32);
}

/// The listing commands (`t`, `tr`, `l`, `lr`) keep the text before the
/// command and quote the file they name; `g`, `T` and `z` replace the whole
/// line and insert their output as it is.
pub proof fn lemma_rewind_and_quote(handler: Handler, first_part: Seq<char>, outcome: Result<Seq<char>, ()>)
    ensures
        handler_results_spec(handler, first_part, outcome) matches Ok((o, rewind, quote)) ==> {
            &&& rewind <==> (handler == Handler::G || handler == Handler::BigT || handler
                == Handler::Z)
            &&& quote == !rewind
        },
{
}

/// After `z`, the line is the stored history between joiners and followed
/// by a space, whatever stood before the command word.
pub proof fn lemma_undo_restores_history(first_part: Seq<char>, history: Seq<char>, join: Seq<char>, point: Seq<char>)
    requires
        process_defined(first_part, join, handler_results_spec(Handler::Z, first_part, Ok(history)), point),
    ensures
        process_spec(first_part, join, handler_results_spec(Handler::Z, first_part, Ok(history)), point)
            matches Ok((line, _)) && line == join + history + join + seq![' '],
{
    assert(Seq::<char>::empty() + join + history + join + seq![' '] =~= join + history + join
        + seq![' ']);
}

proof fn lemma_encode_utf8_concat(a: Seq<char>, b: Seq<char>)
    ensures
        encode_utf8(a + b).len() == encode_utf8(a).len() + encode_utf8(b).len(),
    decreases a.len(),
{
    if a.len() > 0 {
        assert((a + b)[0] == a[0]);
        assert((a + b).drop_first() =~= a.drop_first() + b);
        lemma_encode_utf8_concat(a.drop_first(), b);
    } else {
        assert(a + b =~= b);
    }
}

/// The new cursor position in bytes: the old one, the kept first part
/// (unless rewinding), three joiners, the output, and two more, one for the
/// trailing space and one past it; the parts are counted in UTF-8 bytes.
pub proof fn lemma_new_point_counts_bytes(point: u32, first_part: Seq<char>, output: Seq<char>, should_rewind: bool, join: Seq<char>)
    requires
        encode_utf8(output_line(first_part, output, should_rewind, join)).len() <= u32::MAX,
        encode_utf8(join).len() <= u32::MAX,
    ensures
        new_point(point, output_line(first_part, output, should_rewind, join), join) == point
            + (if should_rewind {
            0
        } else {
            encode_utf8(first_part).len()
        }) + 3 * encode_utf8(join).len() + encode_utf8(output).len() + 2,
{
    let f = if should_rewind {
        Seq::<char>::empty()
    } else {
        first_part
    };
    lemma_encode_utf8_concat(f + join + output + join, seq![' ']);
    lemma_encode_utf8_concat(f + join + output, join);
    lemma_encode_utf8_concat(f + join, output);
    lemma_encode_utf8_concat(f, join);
    assert(encode_utf8(seq![' ']).len() == 1) by {
        let sp = seq![' '];
        assert(sp.drop_first() =~= Seq::<char>::empty());
        assert(sp[0] as u32 == 32);
        assert(has_width_1_encoding(32));
        assert(encode_scalar(32).len() == 1);
        assert(encode_utf8(sp) == encode_scalar(sp[0] as u32) + encode_utf8(sp.drop_first()));
    }
    assert(encode_utf8(Seq::<char>::empty()).len() == 0);
}

} // verus!
