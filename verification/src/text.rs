//! Character-level helpers on strings: whitespace, trailing runs and lines.
use vstd::prelude::*;
use vstd::string::StrSliceExecFns;

verus! {

/// The characters of `s`, in order.
pub fn chars_of(s: &str) -> (v: Vec<char>)
    ensures
        v@ == s@,
{
    let mut v: Vec<char> = Vec::new();
    for c in it: s.chars()
        invariant
            v@ == it.seq().take(it.index()),
    {
        v.push(c);
    }
    proof {
        broadcast use vstd::string::axiom_spec_iter;
    }
    assert(v@ == s@);
    v
}

/// Unicode `White_Space`: what `\s` matches in a Unicode pattern and what
/// `char::is_whitespace` accepts.
pub open spec fn is_white(c: char) -> bool {
    let u = c as u32;
    ||| 0x09 <= u <= 0x0d
    ||| u == 0x20
    ||| u == 0x85
    ||| u == 0xa0
    ||| u == 0x1680
    ||| 0x2000 <= u <= 0x200a
    ||| u == 0x2028
    ||| u == 0x2029
    ||| u == 0x202f
    ||| u == 0x205f
    ||| u == 0x3000
}

/// Whether `c` is Unicode whitespace.
pub fn is_white_char(c: char) -> (b: bool)
    ensures
        b == is_white(c),
{
    let u = c as u32;
    (0x09 <= u && u <= 0x0d) || u == 0x20 || u == 0x85 || u == 0xa0 || u == 0x1680 || (0x2000
        <= u && u <= 0x200a) || u == 0x2028 || u == 0x2029 || u == 0x202f || u == 0x205f || u
        == 0x3000
}

/// Start of the longest suffix of `s` whose characters are all whitespace
/// (`white == true`) or all non-whitespace (`white == false`).
pub open spec fn run_start(s: Seq<char>, white: bool) -> int
    decreases s.len(),
{
    if s.len() == 0 {
        0
    } else if is_white(s.last()) == white {
        run_start(s.drop_last(), white)
    } else {
        s.len() as int
    }
}

/// `run_start` is the unique boundary of the maximal trailing run.
pub proof fn lemma_run_start(s: Seq<char>, white: bool)
    ensures
        0 <= run_start(s, white) <= s.len(),
        forall|i: int| run_start(s, white) <= i < s.len() ==> is_white(#[trigger] s[i]) == white,
        run_start(s, white) > 0 ==> is_white(s[run_start(s, white) - 1]) != white,
    decreases s.len(),
{
    if s.len() > 0 && is_white(s.last()) == white {
        lemma_run_start(s.drop_last(), white);
        assert forall|i: int| run_start(s, white) <= i < s.len() implies is_white(#[trigger] s[i])
            == white by {
            if i < s.len() - 1 {
                assert(s[i] == s.drop_last()[i]);
            }
        }
        if run_start(s, white) > 0 {
            assert(s[run_start(s, white) - 1] == s.drop_last()[run_start(s, white) - 1]);
        }
    }
}

/// Computes `run_start(v@, white)`.
pub fn trailing_run_start(v: &Vec<char>, white: bool) -> (k: usize)
    ensures
        k == run_start(v@, white),
{
    let mut k = v.len();
    assert(v@.take(k as int) =~= v@);
    while k > 0
        invariant
            k <= v.len(),
            run_start(v@, white) == run_start(v@.take(k as int), white),
        decreases k,
    {
        if is_white_char(v[k - 1]) != white {
            return k;
        }
        assert(v@.take(k as int).drop_last() =~= v@.take(k - 1));
        k = k - 1;
    }
    k
}

/// Whether the first `n` characters of `v` include a line feed.
pub fn has_newline_before(v: &Vec<char>, n: usize) -> (b: bool)
    requires
        n <= v.len(),
    ensures
        b == v@.take(n as int).contains('\n'),
{
    let mut i: usize = 0;
    while i < n
        invariant
            i <= n <= v.len(),
            forall|j: int| 0 <= j < i ==> v@[j] != '\n',
        decreases n - i,
    {
        if v[i] == '\n' {
            assert(v@.take(n as int)[i as int] == '\n');
            return true;
        }
        i = i + 1;
    }
    assert forall|j: int| 0 <= j < n implies v@.take(n as int)[j] != '\n' by {}
    false
}

/// Index of the first line feed at or after `i`, or the length of `s`.
pub open spec fn line_end(s: Seq<char>, i: int) -> int
    decreases s.len() - i,
{
    if i >= s.len() {
        s.len() as int
    } else if s[i] == '\n' {
        i
    } else {
        line_end(s, i + 1)
    }
}

pub proof fn lemma_line_end(s: Seq<char>, i: int)
    requires
        0 <= i,
    ensures
        i <= line_end(s, i) || i > s.len(),
        line_end(s, i) <= s.len(),
        line_end(s, i) < s.len() ==> s[line_end(s, i)] == '\n',
        forall|j: int| i <= j < line_end(s, i) ==> s[j] != '\n',
    decreases s.len() - i,
{
    if i < s.len() && s[i] != '\n' {
        lemma_line_end(s, i + 1);
    }
}

/// Where the line that starts at `i` stops: before its line feed, and before
/// a carriage return that directly precedes that line feed.
pub open spec fn line_stop(s: Seq<char>, i: int) -> int {
    let e = line_end(s, i);
    if e < s.len() && e > i && s[e - 1] == '\r' {
        e - 1
    } else {
        e
    }
}

/// The lines of `s` from index `i` on, as `str::lines` yields them: split at
/// `\n`, a `\r` right before a `\n` dropped, no empty line after a final `\n`.
pub open spec fn lines_from(s: Seq<char>, i: int) -> Seq<Seq<char>>
    decreases s.len() + 1 - i,
{
    if i < 0 || i >= s.len() {
        seq![]
    } else {
        proof {
            lemma_line_end(s, i);
        }
        seq![s.subrange(i, line_stop(s, i))] + lines_from(s, line_end(s, i) + 1)
    }
}

/// The lines of `s`.
pub open spec fn lines(s: Seq<char>) -> Seq<Seq<char>> {
    lines_from(s, 0)
}

/// The last line of `s`, or the empty text when `s` has no line.
pub open spec fn last_line(s: Seq<char>) -> Seq<char> {
    if lines(s).len() == 0 {
        seq![]
    } else {
        lines(s).last()
    }
}

/// Computes `line_end(v@, start)`.
fn find_line_end(v: &Vec<char>, start: usize) -> (e: usize)
    requires
        start <= v.len(),
    ensures
        e == line_end(v@, start as int),
        start <= e <= v.len(),
{
    let mut i = start;
    while i < v.len()
        invariant
            start <= i <= v.len(),
            line_end(v@, start as int) == line_end(v@, i as int),
        decreases v.len() - i,
    {
        if v[i] == '\n' {
            return i;
        }
        i = i + 1;
    }
    i
}

/// The character ranges of the lines of `v`, in order.
pub fn line_ranges(v: &Vec<char>) -> (r: Vec<(usize, usize)>)
    ensures
        r.len() == lines(v@).len(),
        forall|k: int|
            0 <= k < r.len() ==> {
                &&& #[trigger] r[k].0 <= r[k].1 <= v.len()
                &&& v@.subrange(r[k].0 as int, r[k].1 as int) == lines(v@)[k]
            },
{
    let mut r: Vec<(usize, usize)> = Vec::new();
    let mut pos: usize = 0;
    while pos < v.len()
        invariant
            pos <= v.len(),
            r.len() + lines_from(v@, pos as int).len() == lines(v@).len(),
            forall|k: int|
                0 <= k < r.len() ==> {
                    &&& #[trigger] r[k].0 <= r[k].1 <= v.len()
                    &&& v@.subrange(r[k].0 as int, r[k].1 as int) == lines(v@)[k]
                },
            forall|k: int|
                0 <= k < lines_from(v@, pos as int).len() ==> lines(v@)[r.len() + k]
                    == #[trigger] lines_from(v@, pos as int)[k],
        decreases v.len() - pos,
    {
        let e = find_line_end(v, pos);
        proof {
            lemma_line_end(v@, pos as int);
        }
        let stop = if e < v.len() && e > pos && v[e - 1] == '\r' {
            e - 1
        } else {
            e
        };
        let ghost rest = lines_from(v@, pos as int);
        assert(rest == seq![v@.subrange(pos as int, stop as int)] + lines_from(v@, e + 1));
        assert(lines(v@)[r.len() as int] == rest[0]);
        r.push((pos, stop));
        if e < v.len() {
            pos = e + 1;
        } else {
            assert(lines_from(v@, e + 1) == Seq::<Seq<char>>::empty());
            pos = v.len();
        }
        assert forall|k: int| 0 <= k < lines_from(v@, pos as int).len() implies lines(v@)[r.len()
            + k] == #[trigger] lines_from(v@, pos as int)[k] by {
            assert(lines_from(v@, pos as int)[k] == rest[k + 1]);
        }
    }
    assert forall|k: int| 0 <= k < r.len() implies {
        &&& #[trigger] r[k].0 <= r[k].1 <= v.len()
        &&& v@.subrange(r[k].0 as int, r[k].1 as int) == lines(v@)[k]
    } by {}
    r
}

/// The last line of `s` (see `last_line`).
pub fn last_line_of<'a>(s: &'a str) -> (l: &'a str)
    ensures
        l@ == last_line(s@),
{
    let v = chars_of(s);
    let r = line_ranges(&v);
    if r.len() == 0 {
        s.substring_char(0, 0)
    } else {
        let (a, b) = r[r.len() - 1];
        s.substring_char(a, b)
    }
}

} // verus!
