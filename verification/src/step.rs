//! One rewrite, as two decisions around one piece of outside work.
//!
//! `start` reads the line and decides the job: which command, on which text,
//! what stays of the line and what goes into the history. The caller then
//! performs the job's `effect` (runs `ls` or `it`, or reads the history) and
//! hands its outcome to `finish`, which gives the new state and the text to
//! store, or nothing when the command failed. An `Err` from either step is a
//! message to stop with: the cases where the program cannot go on.
use vstd::prelude::*;
use vstd::string::StringExecFns;
use crate::command::{command_split, get_cmd};
use crate::dispatch::{dispatch_table, first_match, get_main};
use crate::handlers::{
    effect_spec, effect_view, handler_effect, handler_results_defined, handler_results_spec,
    history_results, ls_args, ls_args_spec, outcome_view, pick_from_listing, pick_name,
    pick_results, results_view, try_handler_effect, try_handler_results, DispatchCommandResults,
    DispatchData, Effect, Handler, ResultsView,
};
use crate::language::{eq_form, eq_form_of};
use crate::readline::{output_line, process, process_defined, process_ok, process_spec, ReadlineState};
use crate::shell::{shell_quoted, shlex_split};

verus! {

/// A command with its directory and count, the text that stays before its
/// output, the joiner, and the text that goes into the history when the
/// rewrite succeeds. The `=` form (`eq_form`) sets directory and count; the
/// plain form always lists the current directory and takes the last file.
pub struct Job {
    pub eq_form: bool,
    pub handler: Handler,
    pub dir: String,
    pub count: u32,
    pub keep: String,
    pub join: String,
    pub store: String,
}

/// (eq_form, handler, dir, count, keep, join, store).
pub type JobView = (bool, Handler, Seq<char>, u32, Seq<char>, Seq<char>, Seq<char>);

pub open spec fn job_view(j: Job) -> JobView {
    (j.eq_form, j.handler, j.dir@, j.count, j.keep@, j.join@, j.store@)
}

/// The message for a text that `shlex::split` rejects.
pub open spec fn shlex_error() -> Seq<char> {
    "couldn't shlex"@
}

/// The job for a line: its `=` form when it has a standalone `=` (nothing to
/// do when the words after it are not a request); otherwise the command word
/// at its end, run on the text before it (nothing to do for a word that names
/// no command).
pub open spec fn plan_spec(line: Seq<char>) -> Result<Option<JobView>, Seq<char>> {
    match eq_form(line) {
        Some((before, req)) => match req {
            Some((h, d, n)) => Ok(Some((true, h, d, n, before, seq![], line))),
            None => Ok(None),
        },
        None => match command_split(line) {
            Err(e) => Err(e),
            Ok((f, c, j)) => match first_match(dispatch_table(), c) {
                None => Ok(None),
                Some(h) => if h == Handler::BigT && shlex_split(f) is None {
                    Err(shlex_error())
                } else {
                    Ok(Some((false, h, seq![], 1, f, j, f)))
                },
            },
        },
    }
}

pub open spec fn plan_view(r: Result<Option<Job>, String>) -> Result<Option<JobView>, Seq<char>> {
    match r {
        Ok(Some(j)) => Ok(Some(job_view(j))),
        Ok(None) => Ok(None),
        Err(e) => Err(e@),
    }
}

/// Decides the job for `line` (see `plan_spec`).
pub fn start(line: &str) -> (r: Result<Option<Job>, String>)
    ensures
        plan_view(r) == plan_spec(line@),
        r matches Ok(Some(j)) ==> job_wf(job_view(j)),
{
    match eq_form_of(line) {
        Some((before, req)) => match req {
            Some((h, d, n)) => {
                proof {
                    reveal_strlit("");
                }
                let job = Job {
                    eq_form: true,
                    handler: h,
                    dir: d,
                    count: n,
                    keep: before,
                    join: String::new(),
                    store: String::from_str(line),
                };
                Ok(Some(job))
            },
            None => Ok(None),
        },
        None => {
            let (first_part, command, join) = match get_cmd(line) {
                Ok(p) => p,
                Err(e) => return Err(String::from_str(e)),
            };
            match get_main().find_handler(command) {
                None => Ok(None),
                Some(h) => {
                    let data = DispatchData { first_part: String::from_str(first_part) };
                    if try_handler_effect(h, &data).is_none() {
                        proof {
                            reveal_strlit("couldn't shlex");
                        }
                        return Err(String::from_str("couldn't shlex"));
                    }
                    let job = Job {
                        eq_form: false,
                        handler: h,
                        dir: String::new(),
                        count: 1,
                        keep: String::from_str(first_part),
                        join: String::from_str(join),
                        store: String::from_str(first_part),
                    };
                    Ok(Some(job))
                },
            }
        },
    }
}

/// The `ls` option of a listing command: `t` lists with `-tr`, `tr` with
/// `-t`, `l` with none, `lr` with `-r`.
pub open spec fn listing_option(h: Handler) -> Seq<char> {
    match h {
        Handler::T => "-tr"@,
        Handler::Tr => "-t"@,
        Handler::Lr => "-r"@,
        _ => ""@,
    }
}

fn listing_option_of(h: Handler) -> (s: &'static str)
    ensures
        s@ == listing_option(h),
{
    match h {
        Handler::T => "-tr",
        Handler::Tr => "-t",
        Handler::Lr => "-r",
        _ => "",
    }
}

/// The outside work of a job: that of its command in the plain form; in the
/// `=` form, reading the history for `z`, and otherwise `ls` with the
/// command's option in the job's directory.
pub open spec fn job_effect_spec(j: JobView) -> Option<(Seq<char>, Seq<Seq<char>>)> {
    if !j.0 {
        effect_spec(j.1, j.4)
    } else if j.1 == Handler::Z {
        None
    } else {
        Some(("ls"@, ls_args_spec(listing_option(j.1), j.2)))
    }
}

/// Jobs as `start` makes them: a plain `T` only on a text that
/// `shlex::split` accepts, the `=` form only with its five commands.
pub open spec fn job_wf(j: JobView) -> bool {
    &&& !j.0 && j.1 == Handler::BigT ==> shlex_split(j.4) is Some
    &&& j.0 ==> (j.1 == Handler::T || j.1 == Handler::Tr || j.1 == Handler::L || j.1 == Handler::Lr
        || j.1 == Handler::Z)
}

/// The outside work that `job` asks for.
pub fn job_effect(job: &Job) -> (e: Effect)
    requires
        job_wf(job_view(*job)),
    ensures
        effect_view(e) == job_effect_spec(job_view(*job)),
{
    if !job.eq_form {
        let data = DispatchData { first_part: String::from_str(job.keep.as_str()) };
        handler_effect(job.handler, &data)
    } else if job.handler == Handler::Z {
        Effect::ReadHistory
    } else {
        let args = ls_args(listing_option_of(job.handler), job.dir.as_str());
        Effect::Run { bin: String::from_str("ls"), args }
    }
}

/// The command's results: those of the command run on the kept text in the
/// plain form; in the `=` form, the history for `z`, and otherwise the
/// `count`-th file from the end of the listing.
pub open spec fn job_results_spec(j: JobView, outcome: Result<Seq<char>, ()>) -> ResultsView {
    if !j.0 {
        handler_results_spec(j.1, j.4, outcome)
    } else if j.1 == Handler::Z {
        history_results(outcome)
    } else {
        pick_results(j.2, j.3, outcome)
    }
}

/// Where the results are defined: in the plain form, where the command's
/// are.
pub open spec fn job_results_defined(j: JobView, outcome: Result<Seq<char>, ()>) -> bool {
    !j.0 ==> handler_results_defined(j.1, j.4, outcome)
}

/// The end of a rewrite: `Err` where the program stops (results or new state
/// undefined), `Ok(None)` when the command failed (nothing changes, nothing
/// is stored), and otherwise the new line, the new point and the text to
/// store in the history.
pub open spec fn finish_spec(j: JobView, outcome: Result<Seq<char>, ()>, point: Seq<char>) -> Result<Option<(Seq<char>, Seq<char>, Seq<char>)>, ()> {
    if !job_results_defined(j, outcome) {
        Err(())
    } else {
        let results = job_results_spec(j, outcome);
        if !process_defined(j.4, j.5, results, point) {
            Err(())
        } else {
            match process_spec(j.4, j.5, results, point) {
                Ok((line, p)) => Ok(Some((line, p, j.6))),
                Err(()) => Ok(None),
            }
        }
    }
}

pub open spec fn finish_view(r: Result<Option<(ReadlineState, String)>, String>) -> Result<Option<(Seq<char>, Seq<char>, Seq<char>)>, ()> {
    match r {
        Ok(Some((s, store))) => Ok(Some((s.line@, s.point@, store@))),
        Ok(None) => Ok(None),
        Err(_) => Err(()),
    }
}

/// Ends the rewrite with the outcome of the job's outside work (see
/// `finish_spec`).
pub fn finish(job: Job, outcome: Result<String, ()>, state: &ReadlineState) -> (r: Result<Option<(ReadlineState, String)>, String>)
    ensures
        finish_view(r) == finish_spec(job_view(job), outcome_view(outcome), state.point@),
{
    let ghost j = job_view(job);
    let ghost o = outcome_view(outcome);
    let results: DispatchCommandResults = if !job.eq_form {
        let data = DispatchData { first_part: String::from_str(job.keep.as_str()) };
        match try_handler_results(job.handler, data, outcome) {
            Some(r) => r,
            None => return Err(String::from_str("cannot run the command on this text")),
        }
    } else if job.handler == Handler::Z {
        match outcome {
            Ok(h) => Ok((h, true, false)),
            Err(()) => Err(()),
        }
    } else {
        pick_from_listing(job.dir.as_str(), job.count, outcome)
    };
    assert(results_view(results) == job_results_spec(j, o));
    if !process_ok(job.keep.as_str(), job.join.as_str(), &results, state.point.as_str()) {
        return Err(String::from_str("invalid cursor position"));
    }
    match process(job.keep.as_str(), job.join.as_str(), results, state) {
        Ok(s) => Ok(Some((s, job.store))),
        Err(()) => Ok(None),
    }
}

/// The `=` form replaces everything from the `=` on: for a listing request,
/// the new line is the text before the `=`, the quoted name of the chosen
/// file, and a space; the whole line goes into the history.
pub proof fn lemma_eq_form_replaces(line: Seq<char>, listing: Seq<char>, point: Seq<char>)
    requires
        eq_form(line) matches Some((before, Some((h, d, n)))) && h != Handler::Z,
        plan_spec(line) matches Ok(Some(j)) && finish_spec(j, Ok(listing), point) is Ok,
    ensures
        eq_form(line) matches Some((before, Some((h, d, n)))) && plan_spec(line) matches Ok(Some(j))
            && finish_spec(j, Ok(listing), point) matches Ok(Some((new_line, _, store)))
            && new_line == before + shell_quoted(pick_name(d, n, listing)) + seq![' ']
            && store == line,
{
    let (before, req) = eq_form(line).unwrap();
    let (h, d, n) = req.unwrap();
    let q = shell_quoted(pick_name(d, n, listing));
    assert(output_line(before, q, false, seq![]) =~= before + q + seq![' ']);
}

/// In the plain form the command runs on the text before the command word,
/// and that text is what goes into the history.
pub proof fn lemma_plain_form_runs_on_first_part(line: Seq<char>, outcome: Result<Seq<char>, ()>, point: Seq<char>)
    requires
        eq_form(line) is None,
        command_split(line) is Ok,
        plan_spec(line) matches Ok(Some(j)),
    ensures
        plan_spec(line) matches Ok(Some(j)) && command_split(line) matches Ok((f, c, jn)) && {
            &&& j.4 == f
            &&& j.5 == jn
            &&& j.6 == f
            &&& job_results_spec(j, outcome) == handler_results_spec(j.1, f, outcome)
            &&& Some(j.1) == first_match(dispatch_table(), c)
        },
{
}

/// The listing commands of the `=` form run `ls` in the requested directory
/// with the option their plain command uses; in the current directory they
/// ask for exactly what the plain command asks for. `t` lists with `-tr`, so
/// that the newest file comes last, and `tr`, its reverse, with `-t`; `l`
/// lists by name and `lr` with `-r`.
pub proof fn lemma_eq_listing_matches_plain(h: Handler, d: Seq<char>, n: u32, keep: Seq<char>, join: Seq<char>, store: Seq<char>, f: Seq<char>)
    requires
        h == Handler::T || h == Handler::Tr || h == Handler::L || h == Handler::Lr,
    ensures
        job_effect_spec((true, h, d, n, keep, join, store)) == Some(
            ("ls"@, ls_args_spec(listing_option(h), d)),
        ),
        job_effect_spec((true, h, seq![], n, keep, join, store)) == effect_spec(h, f),
        effect_spec(Handler::T, f) == Some(("ls"@, seq!["-tr"@])),
        effect_spec(Handler::Tr, f) == Some(("ls"@, seq!["-t"@])),
        effect_spec(Handler::L, f) == Some(("ls"@, Seq::<Seq<char>>::empty())),
        effect_spec(Handler::Lr, f) == Some(("ls"@, seq!["-r"@])),
        listing_option(Handler::Tr) != listing_option(Handler::T),
{
    reveal_strlit("-tr");
    reveal_strlit("-t");
    reveal_strlit("-r");
    reveal_strlit("");
    assert(ls_args_spec(listing_option(h), seq![]) =~= if listing_option(h).len() == 0 {
        Seq::<Seq<char>>::empty()
    } else {
        seq![listing_option(h)]
    });
    assert("-tr"@.len() != "-t"@.len());
}

} // verus!
