//! The commands. Each asks for one piece of outside work (running `ls` or
//! `git`, reading the history), and turns what came back into its results:
//! (output, should_rewind, should_quote).
use vstd::prelude::*;
use vstd::string::{StrSliceExecFns, StringExecFns};
use crate::text::{chars_of, last_line, last_line_of, line_ranges, lines};
use crate::shell::{
    get_words_partition_right, partition_right, shell_quote, shell_quoted, shlex_split,
    try_get_words_partition_right, words_view,
};

verus! {

/// What a command gets: the text before the command word.
pub struct DispatchData {
    pub first_part: String,
}

/// (output, should_rewind, should_quote), or a failure that leaves the line
/// as it is.
pub type DispatchCommandResults = Result<(String, bool, bool), ()>;

pub type ResultsView = Result<(Seq<char>, bool, bool), ()>;

pub open spec fn results_view(r: DispatchCommandResults) -> ResultsView {
    match r {
        Ok((o, rewind, quote)) => Ok((o@, rewind, quote)),
        Err(()) => Err(()),
    }
}

/// What outside work gave back: its text, or a failure.
pub open spec fn outcome_view(o: Result<String, ()>) -> Result<Seq<char>, ()> {
    match o {
        Ok(t) => Ok(t@),
        Err(()) => Err(()),
    }
}

/// The commands of the language.
#[derive(Clone, Copy, Debug, PartialEq, Eq, Structural)]
pub enum Handler {
    /// `g`: a commit command for the current git branch.
    G,
    /// `t`: the newest file.
    T,
    /// `tr`: the oldest file.
    Tr,
    /// `l`: the last file by name.
    L,
    /// `lr`: the first file by name.
    Lr,
    /// `T`: the newest file in the directory named by the last word.
    BigT,
    /// `z`: the line before the last rewrite.
    Z,
}

/// The outside work a command asks for.
pub enum Effect {
    /// Run `bin` with `args` and hand back its standard output.
    Run { bin: String, args: Vec<String> },
    /// Read the stored history.
    ReadHistory,
}

/// `Some((bin, args))` for `Run`, `None` for `ReadHistory`.
pub open spec fn effect_view(e: Effect) -> Option<(Seq<char>, Seq<Seq<char>>)> {
    match e {
        Effect::Run { bin, args } => Some((bin@, words_view(args@))),
        Effect::ReadHistory => None,
    }
}

/// The arguments of `ls`: the option, then the directory, each left out when
/// empty.
pub open spec fn ls_args_spec(arg: Seq<char>, dir: Seq<char>) -> Seq<Seq<char>> {
    (if arg.len() == 0 {
        seq![]
    } else {
        seq![arg]
    }) + (if dir.len() == 0 {
        seq![]
    } else {
        seq![dir]
    })
}

/// The arguments `ls` is run with for option `arg` in directory `dir`.
pub fn ls_args(arg: &str, dir: &str) -> (r: Vec<String>)
    ensures
        words_view(r@) == ls_args_spec(arg@, dir@),
{
    let mut r: Vec<String> = Vec::new();
    if arg.unicode_len() != 0 {
        r.push(String::from_str(arg));
    }
    if dir.unicode_len() != 0 {
        r.push(String::from_str(dir));
    }
    assert(words_view(r@) =~= ls_args_spec(arg@, dir@));
    r
}

pub open spec fn strip_trailing_slash(s: Seq<char>) -> Seq<char> {
    if s.len() > 0 && s.last() == '/' {
        s.drop_last()
    } else {
        s
    }
}

/// The file that a listing names when counting `count` lines from its end:
/// the empty text when the listing has fewer lines (an empty directory gives
/// the empty text); in a directory other than the current one, the path
/// `dir/name`, one trailing `/` of the name dropped.
pub open spec fn pick_name(dir: Seq<char>, count: u32, listing: Seq<char>) -> Seq<char> {
    let ls = lines(listing);
    if count == 0 || count > ls.len() {
        seq![]
    } else if dir.len() == 0 {
        ls[ls.len() - count]
    } else {
        dir + seq!['/'] + strip_trailing_slash(ls[ls.len() - count])
    }
}

/// The file that a listing names: its last line (see `pick_name`).
pub open spec fn ls_pick(dir: Seq<char>, listing: Seq<char>) -> Seq<char> {
    pick_name(dir, 1, listing)
}

/// A listing's results for the `count`-th line from the end: the file it
/// names, not rewinding, quoted.
pub open spec fn pick_results(dir: Seq<char>, count: u32, listing: Result<Seq<char>, ()>) -> ResultsView {
    match listing {
        Ok(t) => Ok((pick_name(dir, count, t), false, true)),
        Err(()) => Err(()),
    }
}

/// A listing's results: the file it names, not rewinding, quoted.
pub open spec fn ls_results(dir: Seq<char>, listing: Result<Seq<char>, ()>) -> ResultsView {
    pick_results(dir, 1, listing)
}

/// Turns the output of `ls` (run with `ls_args(.., dir)`) into results for
/// the `count`-th file from the end.
pub fn pick_from_listing(dir: &str, count: u32, listing: Result<String, ()>) -> (r: DispatchCommandResults)
    ensures
        results_view(r) == pick_results(dir@, count, outcome_view(listing)),
{
    let result = match listing {
        Ok(o) => o,
        Err(()) => return Err(()),
    };
    let text = result.as_str();
    let v = chars_of(text);
    let ranges = line_ranges(&v);
    let ghost ls = lines(text@);
    assert(ls == lines(v@));
    if count == 0 || count as usize > ranges.len() {
        return Ok((String::new(), false, true));
    }
    let (a, b) = ranges[ranges.len() - count as usize];
    let name = text.substring_char(a, b);
    assert(name@ =~= ls[ls.len() - count]);
    let ret = if dir.unicode_len() == 0 {
        String::from_str(name)
    } else {
        let n = name.unicode_len();
        let base = if n > 0 && name.get_char(n - 1) == '/' {
            name.substring_char(0, n - 1)
        } else {
            name.substring_char(0, n)
        };
        assert(base@ =~= strip_trailing_slash(name@));
        let mut s = String::from_str(dir);
        proof {
            reveal_strlit("/");
        }
        s.append("/");
        s.append(base);
        assert("/"@ =~= seq!['/']);
        s
    };
    assert(ret@ =~= pick_name(dir@, count, result@));
    Ok((ret, false, true))
}

/// Turns the output of `ls` (run with `ls_args(.., dir)`) into results: the
/// last file of the listing.
pub fn ls_last_priv(dir: &str, listing: Result<String, ()>) -> (r: DispatchCommandResults)
    ensures
        results_view(r) == ls_results(dir@, outcome_view(listing)),
{
    pick_from_listing(dir, 1, listing)
}

/// A line of `git branch` output that marks the current branch and names one.
pub open spec fn starred(line: Seq<char>) -> bool {
    line.len() >= 3 && line[0] == '*'
}

/// Each line that starts with `*` has an ASCII second character, so that its
/// bytes from the third on are whole characters.
pub open spec fn branch_lines_decodable(ls: Seq<Seq<char>>) -> bool {
    forall|i: int|
        0 <= i < ls.len() && #[trigger] ls[i].len() >= 2 && ls[i][0] == '*' ==> (
        ls[i][1] as u32) < 0x80
}

/// The current branch: the first starred line without its first two
/// characters, or `UNKNOWN BRANCH`.
pub open spec fn current_branch(ls: Seq<Seq<char>>) -> Seq<char>
    decreases ls.len(),
{
    if ls.len() == 0 {
        "UNKNOWN BRANCH"@
    } else if starred(ls[0]) {
        ls[0].skip(2)
    } else {
        current_branch(ls.drop_first())
    }
}

/// The results of `g`: `gpcm '<branch> `, rewinding, unquoted.
pub open spec fn git_results(branches: Result<Seq<char>, ()>) -> ResultsView {
    match branches {
        Ok(t) => Ok(("gpcm '"@ + current_branch(lines(t)) + seq![' '], true, false)),
        Err(()) => Err(()),
    }
}

/// Turns the output of `git branch` into the results of `g`.
pub fn git_commit(branches: Result<String, ()>) -> (r: DispatchCommandResults)
    requires
        branches matches Ok(t) ==> branch_lines_decodable(lines(t@)),
    ensures
        results_view(r) == git_results(outcome_view(branches)),
{
    let output = match branches {
        Ok(o) => o,
        Err(()) => return Err(()),
    };
    let text = output.as_str();
    let v = chars_of(text);
    let ranges = line_ranges(&v);
    let ghost ls = lines(text@);
    let mut branch = String::new();
    let mut found = false;
    let mut i: usize = 0;
    assert(ls.skip(0) =~= ls);
    assert(ls == lines(v@));
    while i < ranges.len() && !found
        invariant
            v@ == text@,
            ls == lines(text@),
            ranges.len() == ls.len(),
            forall|k: int|
                0 <= k < ranges.len() ==> {
                    &&& #[trigger] ranges[k].0 <= ranges[k].1 <= v.len()
                    &&& v@.subrange(ranges[k].0 as int, ranges[k].1 as int) == ls[k]
                },
            i <= ranges.len(),
            !found ==> current_branch(ls) == current_branch(ls.skip(i as int)),
            found ==> branch@ == current_branch(ls),
        decreases ranges.len() - i,
    {
        let (a, b) = ranges[i];
        let ghost line = ls[i as int];
        assert(ls.skip(i as int)[0] == line);
        assert(ls.skip(i as int).drop_first() =~= ls.skip(i + 1));
        if b - a >= 3 && v[a] == '*' {
            assert(line[0] == v@[a as int]);
            let rest = text.substring_char(a + 2, b);
            assert(rest@ =~= line.skip(2));
            branch = String::from_str(rest);
            found = true;
        }
        i = i + 1;
    }
    if !found {
        assert(ls.skip(ranges.len() as int) =~= Seq::<Seq<char>>::empty());
        proof {
            reveal_strlit("UNKNOWN BRANCH");
        }
        branch = String::from_str("UNKNOWN BRANCH");
    }
    proof {
        reveal_strlit("gpcm '");
        reveal_strlit(" ");
    }
    let mut out = String::from_str("gpcm '");
    out.append(branch.as_str());
    out.append(" ");
    assert(" "@ =~= seq![' ']);
    assert(out@ =~= "gpcm '"@ + current_branch(ls) + seq![' ']);
    Ok((out, true, false))
}

/// The results of `T` on the text `first_part`: the words of `first_part` but
/// the last, then the quoted path of the newest file in the directory that
/// the last word names; rewinding, unquoted.
pub open spec fn big_t_results(first_part: Seq<char>, listing: Result<Seq<char>, ()>) -> ResultsView {
    let (first_words, dir) = partition_right(shlex_split(first_part).unwrap());
    match ls_results(dir, listing) {
        Ok((file, _, _)) => Ok((first_words + seq![' '] + shell_quoted(file), true, false)),
        Err(()) => Err(()),
    }
}

/// The results of `z`: the stored history, rewinding, unquoted.
pub open spec fn history_results(history: Result<Seq<char>, ()>) -> ResultsView {
    match history {
        Ok(h) => Ok((h, true, false)),
        Err(()) => Err(()),
    }
}

/// `g`.
pub fn handle_g(branches: Result<String, ()>) -> (r: DispatchCommandResults)
    requires
        branches matches Ok(t) ==> branch_lines_decodable(lines(t@)),
    ensures
        results_view(r) == git_results(outcome_view(branches)),
{
    git_commit(branches)
}

/// `t` (run with `ls -tr`).
pub fn handle_t(listing: Result<String, ()>) -> (r: DispatchCommandResults)
    ensures
        results_view(r) == ls_results(seq![], outcome_view(listing)),
{
    proof {
        reveal_strlit("");
    }
    ls_last_priv("", listing)
}

/// `tr` (run with `ls -t`).
pub fn handle_tr(listing: Result<String, ()>) -> (r: DispatchCommandResults)
    ensures
        results_view(r) == ls_results(seq![], outcome_view(listing)),
{
    proof {
        reveal_strlit("");
    }
    ls_last_priv("", listing)
}

/// `l` (run with `ls`).
pub fn handle_l(listing: Result<String, ()>) -> (r: DispatchCommandResults)
    ensures
        results_view(r) == ls_results(seq![], outcome_view(listing)),
{
    proof {
        reveal_strlit("");
    }
    ls_last_priv("", listing)
}

/// `lr` (run with `ls -r`).
pub fn handle_lr(listing: Result<String, ()>) -> (r: DispatchCommandResults)
    ensures
        results_view(r) == ls_results(seq![], outcome_view(listing)),
{
    proof {
        reveal_strlit("");
    }
    ls_last_priv("", listing)
}

/// `T` (run with `ls -tr` in the directory named by the last word).
#[allow(non_snake_case)]
pub fn handle_T(data: DispatchData, listing: Result<String, ()>) -> (r: DispatchCommandResults)
    requires
        shlex_split(data.first_part@) is Some,
    ensures
        results_view(r) == big_t_results(data.first_part@, outcome_view(listing)),
{
    let (first_words, dir) = get_words_partition_right(data.first_part.as_str());
    let (file, _, _) = match ls_last_priv(dir.as_str(), listing) {
        Ok(r) => r,
        Err(()) => return Err(()),
    };
    let file_quoted = shell_quote(file.as_str());
    let mut out = first_words;
    proof {
        reveal_strlit(" ");
    }
    out.append(" ");
    out.append(file_quoted.as_str());
    assert(" "@ =~= seq![' ']);
    assert(out@ =~= first_words@ + seq![' '] + shell_quoted(file@));
    Ok((out, true, false))
}

/// `z`.
pub fn handle_z(history: Result<String, ()>) -> (r: DispatchCommandResults)
    ensures
        results_view(r) == history_results(outcome_view(history)),
{
    let out = match history {
        Ok(o) => o,
        Err(()) => return Err(()),
    };
    Ok((out, true, false))
}

/// The outside work each command asks for. `t` lists with `-tr` and `tr`
/// with `-t`: the last line of `ls -tr` is the newest file.
pub open spec fn effect_spec(handler: Handler, first_part: Seq<char>) -> Option<(Seq<char>, Seq<Seq<char>>)> {
    match handler {
        Handler::G => Some(("it"@, seq!["branch"@])),
        Handler::T => Some(("ls"@, seq!["-tr"@])),
        Handler::Tr => Some(("ls"@, seq!["-t"@])),
        Handler::L => Some(("ls"@, seq![])),
        Handler::Lr => Some(("ls"@, seq!["-r"@])),
        Handler::BigT => Some(
            ("ls"@, ls_args_spec("-tr"@, partition_right(shlex_split(first_part).unwrap()).1)),
        ),
        Handler::Z => None,
    }
}

/// The outside work that `handler` asks for, given the text before it.
pub fn handler_effect(handler: Handler, data: &DispatchData) -> (e: Effect)
    requires
        handler == Handler::BigT ==> shlex_split(data.first_part@) is Some,
    ensures
        effect_view(e) == effect_spec(handler, data.first_part@),
{
    proof {
        reveal_strlit("");
    }
    match handler {
        Handler::G => {
            let mut args: Vec<String> = Vec::new();
            args.push(String::from_str("branch"));
            assert(words_view(args@) =~= seq!["branch"@]);
            Effect::Run { bin: String::from_str("it"), args }
        },
        Handler::T => {
            let args = ls_args("-tr", "");
            assert(ls_args_spec("-tr"@, ""@) =~= seq!["-tr"@]) by {
                reveal_strlit("-tr");
            }
            Effect::Run { bin: String::from_str("ls"), args }
        },
        Handler::Tr => {
            let args = ls_args("-t", "");
            assert(ls_args_spec("-t"@, ""@) =~= seq!["-t"@]) by {
                reveal_strlit("-t");
            }
            Effect::Run { bin: String::from_str("ls"), args }
        },
        Handler::L => {
            let args = ls_args("", "");
            assert(ls_args_spec(""@, ""@) =~= Seq::<Seq<char>>::empty());
            Effect::Run { bin: String::from_str("ls"), args }
        },
        Handler::Lr => {
            let args = ls_args("-r", "");
            assert(ls_args_spec("-r"@, ""@) =~= seq!["-r"@]) by {
                reveal_strlit("-r");
            }
            Effect::Run { bin: String::from_str("ls"), args }
        },
        Handler::BigT => {
            let (_, dir) = get_words_partition_right(data.first_part.as_str());
            let args = ls_args("-tr", dir.as_str());
            Effect::Run { bin: String::from_str("ls"), args }
        },
        Handler::Z => Effect::ReadHistory,
    }
}

/// `handler_effect` where it is defined; `None` for `T` on a text that
/// `shlex::split` reports as erroneous.
pub fn try_handler_effect(handler: Handler, data: &DispatchData) -> (e: Option<Effect>)
    ensures
        e is None <==> (handler == Handler::BigT && shlex_split(data.first_part@) is None),
        e matches Some(e) ==> effect_view(e) == effect_spec(handler, data.first_part@),
{
    if handler == Handler::BigT {
        if try_get_words_partition_right(data.first_part.as_str()).is_none() {
            return None;
        }
    }
    Some(handler_effect(handler, data))
}

/// The results of `handler` from what its outside work gave back.
pub open spec fn handler_results_spec(handler: Handler, first_part: Seq<char>, outcome: Result<Seq<char>, ()>) -> ResultsView {
    match handler {
        Handler::G => git_results(outcome),
        Handler::T | Handler::Tr | Handler::L | Handler::Lr => ls_results(seq![], outcome),
        Handler::BigT => big_t_results(first_part, outcome),
        Handler::Z => history_results(outcome),
    }
}

/// Where `handler_results` is defined: `g` needs decodable branch lines,
/// `T` a text that `shlex::split` accepts.
pub open spec fn handler_results_defined(handler: Handler, first_part: Seq<char>, outcome: Result<Seq<char>, ()>) -> bool {
    &&& handler == Handler::G ==> (outcome matches Ok(t) ==> branch_lines_decodable(lines(t)))
    &&& handler == Handler::BigT ==> shlex_split(first_part) is Some
}

/// Runs the command `handler` on what its outside work gave back.
pub fn handler_results(handler: Handler, data: DispatchData, outcome: Result<String, ()>) -> (r: DispatchCommandResults)
    requires
        handler_results_defined(handler, data.first_part@, outcome_view(outcome)),
    ensures
        results_view(r) == handler_results_spec(handler, data.first_part@, outcome_view(outcome)),
{
    match handler {
        Handler::G => handle_g(outcome),
        Handler::T => handle_t(outcome),
        Handler::Tr => handle_tr(outcome),
        Handler::L => handle_l(outcome),
        Handler::Lr => handle_lr(outcome),
        Handler::BigT => handle_T(data, outcome),
        Handler::Z => handle_z(outcome),
    }
}

/// Whether every line of `text` that starts with `*` has an ASCII second
/// character (see `branch_lines_decodable`).
pub fn branch_lines_ok(text: &str) -> (b: bool)
    ensures
        b == branch_lines_decodable(lines(text@)),
{
    let v = chars_of(text);
    let ranges = line_ranges(&v);
    let ghost ls = lines(text@);
    assert(ls == lines(v@));
    let mut i: usize = 0;
    while i < ranges.len()
        invariant
            v@ == text@,
            ls == lines(text@),
            ranges.len() == ls.len(),
            forall|k: int|
                0 <= k < ranges.len() ==> {
                    &&& #[trigger] ranges[k].0 <= ranges[k].1 <= v.len()
                    &&& v@.subrange(ranges[k].0 as int, ranges[k].1 as int) == ls[k]
                },
            i <= ranges.len(),
            forall|j: int|
                0 <= j < i && #[trigger] ls[j].len() >= 2 && ls[j][0] == '*' ==> (ls[j][1] as u32)
                    < 0x80,
        decreases ranges.len() - i,
    {
        let (a, b) = ranges[i];
        let ghost line = ls[i as int];
        if b - a >= 2 && v[a] == '*' && v[a + 1] as u32 >= 0x80 {
            assert(line[0] == v@[a as int] && line[1] == v@[a + 1]);
            return false;
        }
        assert(b - a >= 2 ==> line[0] == v@[a as int] && line[1] == v@[a + 1]);
        i = i + 1;
    }
    true
}

/// Whether `handler_results` is defined on these arguments.
pub fn handler_results_ok(handler: Handler, data: &DispatchData, outcome: &Result<String, ()>) -> (b: bool)
    ensures
        b == handler_results_defined(handler, data.first_part@, outcome_view(*outcome)),
{
    if handler == Handler::G {
        if let Ok(t) = outcome {
            if !branch_lines_ok(t.as_str()) {
                return false;
            }
        }
    }
    if handler == Handler::BigT {
        if try_get_words_partition_right(data.first_part.as_str()).is_none() {
            return false;
        }
    }
    true
}

/// `handler_results` where it is defined; `None` where `shlex::split`
/// rejects the text of `T`, or a starred line of `g` does not decode.
pub fn try_handler_results(handler: Handler, data: DispatchData, outcome: Result<String, ()>) -> (r: Option<DispatchCommandResults>)
    ensures
        r is None <==> !handler_results_defined(handler, data.first_part@, outcome_view(outcome)),
        r matches Some(res) ==> results_view(res) == handler_results_spec(
            handler,
            data.first_part@,
            outcome_view(outcome),
        ),
{
    if handler_results_ok(handler, &data, &outcome) {
        Some(handler_results(handler, data, outcome))
    } else {
        None
    }
}

/// Every command but `T` ignores the text before it: its results depend on
/// the outcome of its outside work alone.
pub proof fn lemma_results_ignore_data(handler: Handler, a: Seq<char>, b: Seq<char>, outcome: Result<Seq<char>, ()>)
    requires
        handler != Handler::BigT,
    ensures
        handler_results_spec(handler, a, outcome) == handler_results_spec(handler, b, outcome),
        handler == Handler::G ==> handler_results_spec(handler, a, outcome) == git_results(outcome),
{
}

/// The branch that `g` names is the whole of the first starred line after
/// its first two characters (`* `).
pub proof fn lemma_current_branch_is_first_starred(ls: Seq<Seq<char>>, i: int)
    requires
        0 <= i < ls.len(),
        starred(ls[i]),
        forall|j: int| 0 <= j < i ==> !starred(#[trigger] ls[j]),
    ensures
        current_branch(ls) == ls[i].subrange(2, ls[i].len() as int),
        current_branch(ls).len() + 2 == ls[i].len(),
        forall|k: int| 0 <= k < current_branch(ls).len() ==> #[trigger] current_branch(ls)[k] == ls[i][k + 2],
    decreases i,
{
    if i > 0 {
        assert(!starred(ls[0]));
        let rest = ls.drop_first();
        assert forall|j: int| 0 <= j < i - 1 implies !starred(#[trigger] rest[j]) by {
            assert(rest[j] == ls[j + 1]);
        }
        lemma_current_branch_is_first_starred(rest, i - 1);
    }
}

/// Without a starred line the branch is `UNKNOWN BRANCH`.
pub proof fn lemma_current_branch_unknown(ls: Seq<Seq<char>>)
    requires
        forall|j: int| 0 <= j < ls.len() ==> !starred(#[trigger] ls[j]),
    ensures
        current_branch(ls) == "UNKNOWN BRANCH"@,
    decreases ls.len(),
{
    if ls.len() > 0 {
        let rest = ls.drop_first();
        assert forall|j: int| 0 <= j < rest.len() implies !starred(#[trigger] rest[j]) by {
            assert(rest[j] == ls[j + 1]);
        }
        lemma_current_branch_unknown(rest);
    }
}

/// What `g` writes: `gpcm '`, the first starred line of the `it branch`
/// output without its first two characters, and a space; it rewinds and does
/// not quote.
pub proof fn lemma_git_results_first_starred(t: Seq<char>, i: int)
    requires
        0 <= i < lines(t).len(),
        starred(lines(t)[i]),
        forall|j: int| 0 <= j < i ==> !starred(#[trigger] lines(t)[j]),
    ensures
        git_results(Ok(t)) == Ok::<(Seq<char>, bool, bool), ()>(
            ("gpcm '"@ + lines(t)[i].subrange(2, lines(t)[i].len() as int) + seq![' '], true, false),
        ),
{
    lemma_current_branch_is_first_starred(lines(t), i);
}

/// What a listing names: nothing when it has fewer than `count` lines (an
/// empty directory names nothing, whatever the directory); otherwise, in
/// the current directory, the line `count` places from the end, and in a
/// named directory the directory, a `/`, and that line without one
/// trailing `/`. The plain listing commands take the last line.
pub proof fn lemma_pick_name(d: Seq<char>, count: u32, t: Seq<char>)
    ensures
        (count == 0 || count > lines(t).len()) ==> pick_name(d, count, t) == Seq::<char>::empty(),
        lines(t).len() == 0 ==> pick_name(d, count, t) == Seq::<char>::empty(),
        1 <= count <= lines(t).len() && d.len() == 0 ==> pick_name(d, count, t) == lines(t)[lines(
            t,
        ).len() - count],
        1 <= count <= lines(t).len() && d.len() > 0 ==> {
            let name = lines(t)[lines(t).len() - count];
            let p = pick_name(d, count, t);
            &&& p.len() > d.len()
            &&& p.subrange(0, d.len() as int) == d
            &&& p[d.len() as int] == '/'
            &&& (name.len() > 0 && name.last() == '/') ==> p.subrange(d.len() + 1int, p.len() as int)
                + seq!['/'] == name
            &&& !(name.len() > 0 && name.last() == '/') ==> p.subrange(
                d.len() + 1int,
                p.len() as int,
            ) == name
        },
        ls_pick(d, t) == pick_name(d, 1, t),
{
    if 1 <= count <= lines(t).len() && d.len() > 0 {
        let name = lines(t)[lines(t).len() - count];
        let p = pick_name(d, count, t);
        assert(p == d + seq!['/'] + strip_trailing_slash(name));
        assert(p.subrange(0, d.len() as int) =~= d);
        assert(p[d.len() as int] == '/');
        assert(p.subrange(d.len() + 1int, p.len() as int) =~= strip_trailing_slash(name));
        if name.len() > 0 && name.last() == '/' {
            assert(name.drop_last() + seq!['/'] =~= name);
        }
    }
}

/// The outside work of the other plain commands: `g` runs `it branch`, `z`
/// reads the history, and `T` lists with `-tr` the directory named by the
/// last shell word of the text before it (the current one when there is no
/// word, or the last word is empty).
pub proof fn lemma_plain_effects(f: Seq<char>)
    ensures
        effect_spec(Handler::G, f) == Some(("it"@, seq!["branch"@])),
        effect_spec(Handler::Z, f) is None,
        shlex_split(f) matches Some(ws) ==> (ws.len() > 0 && ws.last().len() > 0 ==> effect_spec(
            Handler::BigT,
            f,
        ) == Some(("ls"@, seq!["-tr"@, ws.last()]))),
        shlex_split(f) matches Some(ws) ==> (ws.len() == 0 || ws.last().len() == 0 ==> effect_spec(
            Handler::BigT,
            f,
        ) == Some(("ls"@, seq!["-tr"@]))),
{
    reveal_strlit("-tr");
    if let Some(ws) = shlex_split(f) {
        let dir = partition_right(ws).1;
        assert(ws.len() > 0 ==> dir == ws.last());
        assert(ws.len() == 0 ==> dir == Seq::<char>::empty());
        assert(dir.len() > 0 ==> ls_args_spec("-tr"@, dir) =~= seq!["-tr"@, dir]);
        assert(dir.len() == 0 ==> ls_args_spec("-tr"@, dir) =~= seq!["-tr"@]);
    }
}

} // verus!
