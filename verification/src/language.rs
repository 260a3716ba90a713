//! The `=` form of the language: `<text> = [dir] [num] [command]`.
//!
//! Everything from a standalone `=` to the cursor is read as a request and
//! replaced by its answer; the text before the `=` stays. `dir` names the
//! directory to list (the current one when left out), `num` which file to take
//! counting from the end (1 when left out), `command` one of `t`, `tr`, `l`,
//! `lr` (`t` when left out), or `z` alone, which undoes the last rewrite.
//! Words are separated by whitespace.
use vstd::prelude::*;
use vstd::string::{StrSliceExecFns, StringExecFns};
use crate::text::{chars_of, is_white, is_white_char, lemma_run_start, run_start};
use crate::number::{all_digits, decimal_value, is_digit, parse_u32, parse_u32_spec, unsigned_digits};
use crate::dispatch::{dispatch_table, first_match, get_main, keyword, lemma_dispatch_selects_keyword};
use crate::handlers::Handler;
use crate::shell::words_view;

verus! {

/// The whitespace-separated words of `s`, in order.
pub open spec fn words(s: Seq<char>) -> Seq<Seq<char>>
    decreases s.len(),
{
    if s.len() == 0 {
        seq![]
    } else if is_white(s.last()) {
        words(s.drop_last())
    } else {
        proof {
            lemma_run_start(s.drop_last(), false);
        }
        let k = run_start(s, false);
        words(s.take(k)) + seq![s.skip(k)]
    }
}

/// `s[k]` is an `=` with whitespace or the end of `s` on both sides.
pub open spec fn standalone_eq(s: Seq<char>, k: int) -> bool {
    &&& 0 <= k < s.len()
    &&& s[k] == '='
    &&& k == 0 || is_white(s[k - 1])
    &&& k + 1 == s.len() || is_white(s[k + 1])
}

/// The last standalone `=` before index `i`.
pub open spec fn last_eq_before(s: Seq<char>, i: int) -> Option<int>
    decreases i,
{
    if i <= 0 {
        None
    } else if standalone_eq(s, i - 1) {
        Some(i - 1)
    } else {
        last_eq_before(s, i - 1)
    }
}

/// The position of the last standalone `=` of `s`.
pub open spec fn eq_position(s: Seq<char>) -> Option<int> {
    last_eq_before(s, s.len() as int)
}

pub proof fn lemma_last_eq_before(s: Seq<char>, i: int)
    requires
        i <= s.len(),
    ensures
        last_eq_before(s, i) matches Some(k) ==> k < i && standalone_eq(s, k) && forall|j: int|
            k < j < i ==> !standalone_eq(s, j),
        last_eq_before(s, i) is None ==> forall|j: int| 0 <= j < i ==> !standalone_eq(s, j),
    decreases i,
{
    if i > 0 && !standalone_eq(s, i - 1) {
        lemma_last_eq_before(s, i - 1);
    }
}

/// The commands that the `=` form accepts.
pub open spec fn eq_command(w: Seq<char>) -> Option<Handler> {
    match first_match(dispatch_table(), w) {
        Some(h) => if h == Handler::T || h == Handler::Tr || h == Handler::L || h == Handler::Lr
            || h == Handler::Z {
            Some(h)
        } else {
            None
        },
        None => None,
    }
}

/// A word of decimal digits, read as a count.
pub open spec fn is_count_word(w: Seq<char>) -> bool {
    w.len() > 0 && all_digits(w)
}

/// The count that a count word gives: at least 1, at most `u32::MAX`.
pub open spec fn count_of(w: Seq<char>) -> Option<u32> {
    match parse_u32_spec(w) {
        Some(n) => if n >= 1 {
            Some(n)
        } else {
            None
        },
        None => None,
    }
}

/// A request of the `=` form: (command, directory, count). The directory is
/// empty for the current one.
pub type Request = (Handler, Seq<char>, u32);

/// Reads the words after `=`: an optional command last, before it an
/// optional directory and an optional count, in that order. `z` takes
/// neither. `None` for words that do not fit.
pub open spec fn request_spec(args: Seq<Seq<char>>) -> Option<Request> {
    let (h, rest) = if args.len() > 0 && eq_command(args.last()) is Some {
        (eq_command(args.last()).unwrap(), args.drop_last())
    } else {
        (Handler::T, args)
    };
    if h == Handler::Z {
        if rest.len() == 0 {
            Some((h, seq![], 1))
        } else {
            None
        }
    } else if rest.len() == 0 {
        Some((h, seq![], 1))
    } else if rest.len() == 1 {
        if is_count_word(rest[0]) {
            match count_of(rest[0]) {
                Some(n) => Some((h, seq![], n)),
                None => None,
            }
        } else {
            Some((h, rest[0], 1))
        }
    } else if rest.len() == 2 && is_count_word(rest[1]) {
        match count_of(rest[1]) {
            Some(n) => Some((h, rest[0], n)),
            None => None,
        }
    } else {
        None
    }
}

/// The `=` form of a line: (the text before the `=`, the request), when the
/// line holds a standalone `=`; `Some((before, None))` when the words after
/// it do not form a request.
pub open spec fn eq_form(line: Seq<char>) -> Option<(Seq<char>, Option<Request>)> {
    match eq_position(line) {
        Some(k) => Some((line.take(k), request_spec(words(line.skip(k + 1))))),
        None => None,
    }
}

/// Computes `run_start(v@.subrange(from, n), white) + from`.
fn run_start_in(v: &Vec<char>, from: usize, n: usize, white: bool) -> (k: usize)
    requires
        from <= n <= v.len(),
    ensures
        from <= k <= n,
        k - from == run_start(v@.subrange(from as int, n as int), white),
{
    let mut k = n;
    assert(v@.subrange(from as int, n as int).take(n - from) =~= v@.subrange(from as int, n as int));
    while k > from
        invariant
            from <= k <= n <= v.len(),
            run_start(v@.subrange(from as int, n as int), white) == run_start(
                v@.subrange(from as int, n as int).take(k - from),
                white,
            ),
        decreases k,
    {
        let ghost t = v@.subrange(from as int, n as int).take(k - from);
        assert(t.last() == v@[k - 1]);
        if is_white_char(v[k - 1]) != white {
            return k;
        }
        assert(t.drop_last() =~= v@.subrange(from as int, n as int).take(k - 1 - from));
        k = k - 1;
    }
    k
}

/// The words of `s` from character `from` on.
fn words_from(s: &str, v: &Vec<char>, from: usize) -> (r: Vec<String>)
    requires
        v@ == s@,
        from <= v.len(),
    ensures
        words_view(r@) == words(v@.skip(from as int)),
{
    let mut acc: Vec<String> = Vec::new();
    let mut n = v.len();
    assert(v@.subrange(from as int, n as int) =~= v@.skip(from as int));
    while n > from
        invariant
            v@ == s@,
            from <= n <= v.len(),
            words(v@.skip(from as int)) == words(v@.subrange(from as int, n as int)) + words_view(
                acc@,
            ),
        decreases n,
    {
        let ghost t = v@.subrange(from as int, n as int);
        assert(t.last() == v@[n - 1]);
        if is_white_char(v[n - 1]) {
            assert(t.drop_last() =~= v@.subrange(from as int, n - 1));
            n = n - 1;
        } else {
            let k = run_start_in(v, from, n, false);
            let w = s.substring_char(k, n);
            assert(w@ =~= t.skip(k - from));
            assert(t.take(k - from) =~= v@.subrange(from as int, k as int));
            let ghost before = words_view(acc@);
            acc.insert(0, String::from_str(w));
            assert(words_view(acc@) =~= seq![w@] + before);
            n = k;
        }
    }
    assert(v@.subrange(from as int, from as int) =~= Seq::<char>::empty());
    assert(words_view(acc@) =~= Seq::<Seq<char>>::empty() + words_view(acc@));
    acc
}

/// The position of the last standalone `=` of `v`.
fn find_eq(v: &Vec<char>) -> (r: Option<usize>)
    ensures
        match r {
            Some(k) => eq_position(v@) == Some(k as int) && k < v.len(),
            None => eq_position(v@) is None,
        },
{
    let mut i = v.len();
    while i > 0
        invariant
            i <= v.len(),
            eq_position(v@) == last_eq_before(v@, i as int),
        decreases i,
    {
        let k = i - 1;
        let standalone = v[k] == '=' && (k == 0 || is_white_char(v[k - 1])) && (k + 1 == v.len()
            || is_white_char(v[k + 1]));
        if standalone {
            return Some(k);
        }
        i = k;
    }
    None
}

/// Whether `w` is a word of decimal digits.
fn count_word(w: &str) -> (b: bool)
    ensures
        b == is_count_word(w@),
{
    let v = chars_of(w);
    if v.len() == 0 {
        return false;
    }
    let mut i: usize = 0;
    while i < v.len()
        invariant
            v@ == w@,
            i <= v.len(),
            forall|j: int| 0 <= j < i ==> is_digit(#[trigger] v@[j]),
        decreases v.len() - i,
    {
        let u = v[i] as u32;
        if u < 48 || u > 57 {
            assert(!is_digit(w@[i as int]));
            return false;
        }
        i = i + 1;
    }
    true
}

/// The count that `w` gives (see `count_of`).
fn count_value(w: &str) -> (r: Option<u32>)
    ensures
        r == count_of(w@),
{
    match parse_u32(w) {
        Some(n) => if n >= 1 {
            Some(n)
        } else {
            None
        },
        None => None,
    }
}

/// The command that `w` names in the `=` form.
fn eq_command_of(w: &str) -> (r: Option<Handler>)
    ensures
        r == eq_command(w@),
{
    match get_main().find_handler(w) {
        Some(h) => if h == Handler::T || h == Handler::Tr || h == Handler::L || h == Handler::Lr
            || h == Handler::Z {
            Some(h)
        } else {
            None
        },
        None => None,
    }
}

/// Reads the words after `=` (see `request_spec`); the directory comes back
/// as a `String`.
pub fn parse_request(args: &Vec<String>) -> (r: Option<(Handler, String, u32)>)
    ensures
        match r {
            Some((h, d, n)) => request_spec(words_view(args@)) == Some((h, d@, n)),
            None => request_spec(words_view(args@)) is None,
        },
{
    let ghost all = words_view(args@);
    let len = args.len();
    let mut h = Handler::T;
    let mut rest_len = len;
    if len > 0 {
        match eq_command_of(args[len - 1].as_str()) {
            Some(c) => {
                h = c;
                rest_len = len - 1;
            },
            None => {},
        }
    }
    let ghost rest = all.take(rest_len as int);
    assert(len > 0 && eq_command(all.last()) is Some ==> rest =~= all.drop_last());
    assert(!(len > 0 && eq_command(all.last()) is Some) ==> rest =~= all);
    if h == Handler::Z {
        if rest_len == 0 {
            return Some((h, String::new(), 1));
        } else {
            return None;
        }
    }
    if rest_len == 0 {
        Some((h, String::new(), 1))
    } else if rest_len == 1 {
        assert(rest[0] == args@[0]@);
        if count_word(args[0].as_str()) {
            match count_value(args[0].as_str()) {
                Some(n) => Some((h, String::new(), n)),
                None => None,
            }
        } else {
            Some((h, String::from_str(args[0].as_str()), 1))
        }
    } else if rest_len == 2 && count_word(args[1].as_str()) {
        assert(rest[0] == args@[0]@);
        assert(rest[1] == args@[1]@);
        match count_value(args[1].as_str()) {
            Some(n) => Some((h, String::from_str(args[0].as_str()), n)),
            None => None,
        }
    } else {
        assert(rest_len == 2 ==> rest[1] == args@[1]@);
        None
    }
}

/// Reads the `=` form of `line` (see `eq_form`): the text before the `=`,
/// and the request, if the words after it form one.
pub fn eq_form_of(line: &str) -> (r: Option<(String, Option<(Handler, String, u32)>)>)
    ensures
        match r {
            Some((before, req)) => eq_form(line@) matches Some((b, q)) && b == before@ && match req {
                Some((h, d, n)) => q == Some((h, d@, n)),
                None => q is None,
            },
            None => eq_form(line@) is None,
        },
{
    let v = chars_of(line);
    match find_eq(&v) {
        None => None,
        Some(k) => {
            let before = line.substring_char(0, k);
            assert(before@ =~= line@.take(k as int));
            let args = words_from(line, &v, k + 1);
            Some((String::from_str(before), parse_request(&args)))
        },
    }
}

/// The `=` form accepts `t`, `tr`, `l`, `lr` and `z`, each by its own word,
/// and no other word.
pub proof fn lemma_eq_command_words(w: Seq<char>)
    ensures
        eq_command(w) matches Some(h) ==> w == keyword(h) && (h == Handler::T || h == Handler::Tr
            || h == Handler::L || h == Handler::Lr || h == Handler::Z),
        forall|h: Handler|
            (h == Handler::T || h == Handler::Tr || h == Handler::L || h == Handler::Lr || h
                == Handler::Z) && w == keyword(h) ==> eq_command(w) == Some(h),
{
    lemma_dispatch_selects_keyword(w);
}

/// A word of digits names no command.
pub proof fn lemma_count_word_not_command(w: Seq<char>)
    requires
        is_count_word(w),
    ensures
        eq_command(w) is None,
{
    lemma_dispatch_selects_keyword(w);
    if let Some(h) = first_match(dispatch_table(), w) {
        assert(w == keyword(h));
        assert(is_digit(w[0]));
    }
}

/// A word of digits counts as its decimal value, when that is at least 1
/// and fits in a `u32`, and is no count otherwise.
pub proof fn lemma_count_of(w: Seq<char>)
    requires
        is_count_word(w),
    ensures
        count_of(w) is Some <==> 1 <= decimal_value(w) <= u32::MAX,
        count_of(w) matches Some(c) ==> c == decimal_value(w),
{
    assert(w[0] != '+') by {
        assert(is_digit(w[0]));
    }
    assert(unsigned_digits(w) == w);
}

/// The shapes of the words after `=`: none is the newest file here; a count
/// alone is that file from the end here; another word alone is the newest
/// file in that directory; a word and a count are that file from the end in
/// that directory; `z` alone undoes and takes nothing before it.
pub proof fn lemma_request_forms(d: Seq<char>, n: Seq<char>, w: Seq<char>)
    ensures
        request_spec(seq![]) == Some::<Request>((Handler::T, seq![], 1)),
        is_count_word(n) && count_of(n) is Some ==> request_spec(seq![n]) == Some::<Request>(
            (Handler::T, seq![], count_of(n).unwrap()),
        ),
        is_count_word(n) && count_of(n) is None ==> request_spec(seq![n]) is None,
        !is_count_word(d) && eq_command(d) is None ==> request_spec(seq![d]) == Some::<Request>(
            (Handler::T, d, 1),
        ),
        is_count_word(n) && count_of(n) is Some ==> request_spec(seq![d, n]) == Some::<Request>(
            (Handler::T, d, count_of(n).unwrap()),
        ),
        eq_command(w) == Some(Handler::Z) ==> request_spec(seq![w]) == Some::<Request>(
            (Handler::Z, seq![], 1),
        ),
        eq_command(w) == Some(Handler::Z) ==> request_spec(seq![d, w]) is None,
{
    if is_count_word(n) {
        lemma_count_word_not_command(n);
        assert(seq![n].last() == n);
        assert(seq![d, n].last() == n);
    }
    assert(seq![d].last() == d);
    assert(seq![w].last() == w);
    assert(seq![w].drop_last() =~= Seq::<Seq<char>>::empty());
    assert(seq![d, w].last() == w);
    assert(seq![d, w].drop_last() =~= seq![d]);
}

/// A command word after the other words keeps what they request and only
/// chooses the command: `= dir num tr` lists `dir` as `= dir num` does, with
/// `tr` in place of `t`.
pub proof fn lemma_request_command_last(args: Seq<Seq<char>>, w: Seq<char>)
    requires
        eq_command(w) is Some,
        eq_command(w) != Some(Handler::Z),
        args.len() == 0 || eq_command(args.last()) is None,
    ensures
        request_spec(args.push(w)) == match request_spec(args) {
            Some((_, d, n)) => Some::<Request>((eq_command(w).unwrap(), d, n)),
            None => None,
        },
{
    assert(args.push(w).last() == w);
    assert(args.push(w).drop_last() =~= args);
    lemma_eq_command_words(w);
}

proof fn lemma_run_start_after_white(p: Seq<char>, q: Seq<char>)
    requires
        p.len() > 0,
        is_white(p.last()),
    ensures
        run_start(p + q, false) == p.len() + run_start(q, false),
    decreases q.len(),
{
    if q.len() == 0 {
        assert(p + q =~= p);
    } else {
        assert((p + q).last() == q.last());
        if !is_white(q.last()) {
            assert((p + q).drop_last() =~= p + q.drop_last());
            lemma_run_start_after_white(p, q.drop_last());
        }
    }
}

/// A nonempty run of non-whitespace is one word.
pub proof fn lemma_words_single(s: Seq<char>)
    requires
        s.len() > 0,
        forall|i: int| 0 <= i < s.len() ==> !is_white(#[trigger] s[i]),
    ensures
        words(s) == seq![s],
{
    lemma_run_start(s, false);
    assert(!is_white(s[s.len() - 1]));
    assert(run_start(s, false) == 0);
    assert(s.take(0) =~= Seq::<char>::empty());
    assert(s.skip(0) =~= s);
    assert(words(Seq::<char>::empty()) == Seq::<Seq<char>>::empty());
    assert(words(s) == words(s.take(0)) + seq![s.skip(0)]);
    assert(Seq::<Seq<char>>::empty() + seq![s] =~= seq![s]);
}

/// Whitespace alone holds no word.
pub proof fn lemma_words_blank(s: Seq<char>)
    requires
        forall|i: int| 0 <= i < s.len() ==> is_white(#[trigger] s[i]),
    ensures
        words(s) == Seq::<Seq<char>>::empty(),
    decreases s.len(),
{
    if s.len() > 0 {
        lemma_words_blank(s.drop_last());
    }
}

/// A whitespace character separates words: the words of `a`, a blank and
/// `b` are the words of `a` followed by the words of `b`.
pub proof fn lemma_words_split(a: Seq<char>, c: char, b: Seq<char>)
    requires
        is_white(c),
    ensures
        words(a + seq![c] + b) == words(a) + words(b),
    decreases b.len(),
{
    let p = a + seq![c];
    let x = p + b;
    if b.len() == 0 {
        assert(x =~= p);
        assert(p.drop_last() =~= a);
        assert(words(a) + words(b) =~= words(a));
    } else if is_white(b.last()) {
        assert(x.last() == b.last());
        assert(x.drop_last() =~= p + b.drop_last());
        lemma_words_split(a, c, b.drop_last());
    } else {
        assert(x.last() == b.last());
        lemma_run_start_after_white(p, b);
        lemma_run_start(b.drop_last(), false);
        let kb = run_start(b, false);
        assert(kb < b.len());
        assert(x.take(p.len() + kb) =~= p + b.take(kb));
        assert(x.skip(p.len() + kb) =~= b.skip(kb));
        lemma_words_split(a, c, b.take(kb));
        assert(words(a) + words(b.take(kb)) + seq![b.skip(kb)] =~= words(a) + (words(b.take(kb))
            + seq![b.skip(kb)]));
    }
}

/// A line made of a text, a standalone `=` and words with no standalone `=`
/// among them is read as that text and the request of those words.
pub proof fn lemma_eq_form_split(before: Seq<char>, after: Seq<char>)
    requires
        before.len() == 0 || is_white(before.last()),
        after.len() == 0 || is_white(after[0]),
        forall|m: int| !standalone_eq(after, m),
    ensures
        eq_form(before + seq!['='] + after) == Some((before, request_spec(words(after)))),
{
    let line = before + seq!['='] + after;
    let p = before.len() as int;
    assert(line[p] == '=');
    if p > 0 {
        assert(line[p - 1] == before.last());
    }
    if after.len() > 0 {
        assert(line[p + 1] == after[0]);
    }
    assert(standalone_eq(line, p));
    assert forall|j: int| p < j < line.len() implies !standalone_eq(line, j) by {
        let m = j - p - 1;
        assert(line[j] == after[m]);
        if m > 0 && standalone_eq(line, j) {
            assert(line[j - 1] == after[m - 1]);
            if j + 1 < line.len() {
                assert(line[j + 1] == after[m + 1]);
            }
            assert(standalone_eq(after, m));
        }
    }
    lemma_last_eq_before(line, line.len() as int);
    assert(line.take(p) =~= before);
    assert(line.skip(p + 1) =~= after);
}

} // verus!
