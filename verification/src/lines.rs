//! What the lines of a text are, stated without their definition: a line
//! feed separates lines, and a carriage return right before it is dropped.
use vstd::prelude::*;
use crate::text::{lemma_line_end, line_end, line_stop, lines, lines_from};

verus! {

proof fn lemma_line_end_shift(p: Seq<char>, q: Seq<char>, i: int)
    requires
        0 <= i,
    ensures
        line_end(p + q, p.len() + i) == p.len() + line_end(q, i),
    decreases q.len() - i,
{
    if i < q.len() {
        assert((p + q)[p.len() + i] == q[i]);
        if q[i] != '\n' {
            lemma_line_end_shift(p, q, i + 1);
        }
    }
}

proof fn lemma_lines_from_shift(p: Seq<char>, q: Seq<char>, i: int)
    requires
        0 <= i,
    ensures
        lines_from(p + q, p.len() + i) == lines_from(q, i),
    decreases q.len() + 1 - i,
{
    let s = p + q;
    if i < q.len() {
        lemma_line_end_shift(p, q, i);
        lemma_line_end(q, i);
        let e = line_end(q, i);
        if e < q.len() && e > i {
            assert(s[p.len() + e - 1] == q[e - 1]);
        }
        assert(s.subrange(p.len() + i, p.len() + line_stop(q, i)) =~= q.subrange(i, line_stop(q, i)));
        lemma_lines_from_shift(p, q, e + 1);
    }
}

/// The line that a line feed ends: the text before it, without a carriage
/// return right before the line feed.
pub open spec fn without_cr(a: Seq<char>) -> Seq<char> {
    if a.len() > 0 && a.last() == '\r' {
        a.drop_last()
    } else {
        a
    }
}

/// A line feed separates lines: the lines of `a`, a line feed and `b` are
/// `a` (without a carriage return that ends it) and then the lines of `b`.
pub proof fn lemma_lines_newline(a: Seq<char>, b: Seq<char>)
    requires
        !a.contains('\n'),
    ensures
        lines(a + seq!['\n'] + b) == seq![without_cr(a)] + lines(b),
{
    let p = a + seq!['\n'];
    let s = p + b;
    let n = a.len() as int;
    lemma_line_end(s, 0);
    assert(s[n] == '\n');
    assert forall|j: int| 0 <= j < n implies s[j] != '\n' by {
        assert(s[j] == a[j]);
        if s[j] == '\n' {
            assert(a.contains('\n'));
        }
    }
    assert(line_end(s, 0) == n);
    if n > 0 {
        assert(s[n - 1] == a.last());
    }
    assert(s.subrange(0, line_stop(s, 0)) =~= without_cr(a));
    lemma_lines_from_shift(p, b, 0);
    assert(p.len() + 0 == n + 1);
}

/// A text without a line feed is one line, as it is.
pub proof fn lemma_lines_single(a: Seq<char>)
    requires
        a.len() > 0,
        !a.contains('\n'),
    ensures
        lines(a) == seq![a],
{
    lemma_line_end(a, 0);
    assert forall|j: int| 0 <= j < a.len() implies a[j] != '\n' by {
        if a[j] == '\n' {
            assert(a.contains('\n'));
        }
    }
    assert(line_end(a, 0) == a.len());
    assert(a.subrange(0, a.len() as int) =~= a);
    assert(lines_from(a, a.len() as int + 1) == Seq::<Seq<char>>::empty());
    assert(seq![a] + Seq::<Seq<char>>::empty() =~= seq![a]);
}

/// The empty text has no line.
pub proof fn lemma_lines_empty()
    ensures
        lines(Seq::<char>::empty()) == Seq::<Seq<char>>::empty(),
{
}

} // verus!
