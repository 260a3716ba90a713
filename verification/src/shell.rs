//! Shell words: quoting a word for the shell, and splitting text into words
//! as the shell would (both by the `shlex` crate).
use vstd::prelude::*;
use vstd::string::StringExecFns;
use std::borrow::Cow;

verus! {

/// Characters that make `shlex::quote` put its input in double quotes.
pub open spec fn needs_quoting(c: char) -> bool {
    ||| c == '|' || c == '&' || c == ';' || c == '<' || c == '>' || c == '(' || c == ')'
    ||| c == '$' || c == '`' || c == '\\' || c == '"' || c == '\'' || c == ' ' || c == '\t'
    ||| c == '\r' || c == '\n' || c == '*' || c == '?' || c == '[' || c == '#' || c == '~'
    ||| c == '=' || c == '%'
}

/// Characters that get a backslash in front of them inside double quotes.
pub open spec fn needs_escape(c: char) -> bool {
    c == '$' || c == '`' || c == '"' || c == '\\'
}

/// `s` with a backslash before each character that `needs_escape`.
pub open spec fn escape_for_double_quotes(s: Seq<char>) -> Seq<char>
    decreases s.len(),
{
    if s.len() == 0 {
        seq![]
    } else {
        escape_for_double_quotes(s.drop_last()) + if needs_escape(s.last()) {
            seq!['\\', s.last()]
        } else {
            seq![s.last()]
        }
    }
}

/// The shell word that `shlex::quote` makes of `s`: `""` for the empty text;
/// `s` in double quotes, with `$`, `` ` ``, `"` and `\` escaped, when a
/// character of `s` needs quoting; `s` itself otherwise.
pub open spec fn shell_quoted(s: Seq<char>) -> Seq<char> {
    if s.len() == 0 {
        seq!['"', '"']
    } else if exists|i: int| 0 <= i < s.len() && needs_quoting(#[trigger] s[i]) {
        seq!['"'] + escape_for_double_quotes(s) + seq!['"']
    } else {
        s
    }
}

/// Quotes a word for the shell with `shlex::quote`. The contract restates the
/// three branches of that function's source: it works on bytes, but every
/// byte it tests or inserts is ASCII, so the statement over characters is the
/// same.
#[verifier::external_body]
pub(crate) fn shell_quote(input: &str) -> (r: String)
    ensures
        r@ == shell_quoted(input@),
{
    match shlex::quote(input) {
        Cow::Borrowed(b) => b.to_string(),
        Cow::Owned(o) => o,
    }
}

/// The words that `shlex::split` makes of a text, or `None` where it reports
/// the text as erroneous (an open quote, a trailing backslash).
pub uninterp spec fn shlex_split(input: Seq<char>) -> Option<Seq<Seq<char>>>;

/// The characters that separate words for `shlex::split`.
pub open spec fn shlex_blank(c: char) -> bool {
    c == ' ' || c == '\t' || c == '\n'
}

/// A text without quotes and without `#`.
pub open spec fn shlex_plain(s: Seq<char>) -> bool {
    forall|i: int| 0 <= i < s.len() ==> #[trigger] s[i] != '"' && s[i] != '\'' && s[i] != '#'
}

/// The words of a plain text from index `i` on, with `cur` the word under
/// way and `acc` those already read: blanks end a word; a backslash puts the
/// next character into the word (nothing for a line feed) and starts one if
/// none is under way; a backslash at the end is an error.
pub open spec fn plain_words_from(s: Seq<char>, i: int, cur: Option<Seq<char>>, acc: Seq<Seq<char>>) -> Option<Seq<Seq<char>>>
    decreases s.len() - i,
{
    if i < 0 || i >= s.len() {
        Some(
            match cur {
                Some(w) => acc.push(w),
                None => acc,
            },
        )
    } else if s[i] == '\\' {
        if i + 1 >= s.len() {
            None
        } else {
            let w = match cur {
                Some(w) => w,
                None => seq![],
            };
            plain_words_from(
                s,
                i + 2,
                Some(
                    if s[i + 1] == '\n' {
                        w
                    } else {
                        w.push(s[i + 1])
                    },
                ),
                acc,
            )
        }
    } else if shlex_blank(s[i]) {
        plain_words_from(
            s,
            i + 1,
            None,
            match cur {
                Some(w) => acc.push(w),
                None => acc,
            },
        )
    } else {
        let w = match cur {
            Some(w) => w,
            None => seq![],
        };
        plain_words_from(s, i + 1, Some(w.push(s[i])), acc)
    }
}

/// The words that `shlex::split` makes of a plain text.
pub open spec fn plain_shell_words(s: Seq<char>) -> Option<Seq<Seq<char>>> {
    plain_words_from(s, 0, None, seq![])
}

pub open spec fn words_view(v: Seq<String>) -> Seq<Seq<char>> {
    v.map_values(|w: String| w@)
}

/// Splits a text into shell words with `shlex::split`. Its result, a
/// tokenisation with quotes, escapes and comments, is named by `shlex_split`.
/// On a text without quotes and `#` the contract states it in full, as the
/// source's word loop reads it (`plain_shell_words`): that loop works on
/// bytes, but every byte it tests is ASCII and every other byte is kept, so
/// the statement over characters is the same.
#[verifier::external_body]
fn split_shell_words(input: &str) -> (r: Option<Vec<String>>)
    ensures
        match r {
            Some(w) => shlex_split(input@) == Some(words_view(w@)),
            None => shlex_split(input@) is None,
        },
        shlex_plain(input@) ==> match r {
            Some(w) => plain_shell_words(input@) == Some(words_view(w@)),
            None => plain_shell_words(input@) is None,
        },
{
    shlex::split(input)
}

/// The words of `list` with `sep` between each two.
pub open spec fn join_words(list: Seq<Seq<char>>, sep: Seq<char>) -> Seq<char>
    decreases list.len(),
{
    if list.len() == 0 {
        seq![]
    } else if list.len() == 1 {
        list[0]
    } else {
        join_words(list.drop_last(), sep) + sep + list.last()
    }
}

/// The words split off the last one: (the others joined by spaces, the last);
/// two empty texts when there is no word.
pub open spec fn partition_right(words: Seq<Seq<char>>) -> (Seq<char>, Seq<char>) {
    if words.len() == 0 {
        (seq![], seq![])
    } else {
        (join_words(words.drop_last(), seq![' ']), words.last())
    }
}

/// Joins `list` with a single space between each two words.
pub fn join_with_spaces(list: &Vec<String>) -> (r: String)
    ensures
        r@ == join_words(words_view(list@), seq![' ']),
{
    let ghost words = words_view(list@);
    let mut r = String::new();
    let mut i: usize = 0;
    proof {
        reveal_strlit(" ");
    }
    assert(words.take(0) =~= Seq::<Seq<char>>::empty());
    while i < list.len()
        invariant
            i <= list.len(),
            words == words_view(list@),
            words.len() == list.len(),
            r@ == join_words(words.take(i as int), seq![' ']),
            " "@ == seq![' '],
        decreases list.len() - i,
    {
        assert(words.take(i + 1).drop_last() =~= words.take(i as int));
        assert(words[i as int] == list@[i as int]@);
        if i != 0 {
            r.append(" ");
        } else {
            assert(r@ =~= Seq::<char>::empty());
        }
        r.append(list[i].as_str());
        i = i + 1;
    }
    assert(words.take(list.len() as int) =~= words);
    r
}

/// The shell words of `input`.
pub fn get_words(input: &str) -> (r: Vec<String>)
    requires
        shlex_split(input@) is Some,
    ensures
        Some(words_view(r@)) == shlex_split(input@),
{
    match split_shell_words(input) {
        Some(s) => s,
        None => Vec::new(),
    }
}

/// The shell words of `input`, split off the last one (see `partition_right`).
pub fn get_words_partition_right(input: &str) -> (r: (String, String))
    requires
        shlex_split(input@) is Some,
    ensures
        (r.0@, r.1@) == partition_right(shlex_split(input@).unwrap()),
{
    let mut words = get_words(input);
    let ghost all = words_view(words@);
    match words.pop() {
        None => {
            (String::new(), String::new())
        },
        Some(last) => {
            assert(words_view(words@) =~= all.drop_last());
            let first_words = join_with_spaces(&words);
            (first_words, last)
        },
    }
}

/// `get_words_partition_right` where `shlex::split` accepts `input`, and
/// `None` where it reports `input` as erroneous.
pub fn try_get_words_partition_right(input: &str) -> (r: Option<(String, String)>)
    ensures
        r is None <==> shlex_split(input@) is None,
        r matches Some(p) ==> (p.0@, p.1@) == partition_right(shlex_split(input@).unwrap()),
{
    match split_shell_words(input) {
        None => None,
        Some(_) => Some(get_words_partition_right(input)),
    }
}

/// A character that `shlex::split` keeps as it is in a plain text.
pub open spec fn shlex_ordinary(c: char) -> bool {
    !shlex_blank(c) && c != '\\' && c != '"' && c != '\'' && c != '#'
}

/// A run of ordinary characters is added to the word under way.
proof fn lemma_plain_run(s: Seq<char>, i: int, j: int, cur: Option<Seq<char>>, acc: Seq<Seq<char>>)
    requires
        0 <= i <= j <= s.len(),
        forall|k: int| i <= k < j ==> shlex_ordinary(#[trigger] s[k]),
    ensures
        i < j ==> plain_words_from(s, i, cur, acc) == plain_words_from(
            s,
            j,
            Some(
                match cur {
                    Some(w) => w,
                    None => seq![],
                } + s.subrange(i, j),
            ),
            acc,
        ),
    decreases j - i,
{
    if i < j {
        assert(shlex_ordinary(s[i]));
        let w = match cur {
            Some(w) => w,
            None => seq![],
        };
        if i + 1 < j {
            lemma_plain_run(s, i + 1, j, Some(w.push(s[i])), acc);
            assert(w.push(s[i]) + s.subrange(i + 1, j) =~= w + s.subrange(i, j));
        } else {
            assert(w.push(s[i]) =~= w + s.subrange(i, j));
        }
    }
}

/// Blank-separated runs of ordinary characters are separate words.
pub proof fn lemma_shell_words_blank_separates(x: Seq<char>, y: Seq<char>)
    requires
        x.len() > 0,
        y.len() > 0,
        forall|k: int| 0 <= k < x.len() ==> shlex_ordinary(#[trigger] x[k]),
        forall|k: int| 0 <= k < y.len() ==> shlex_ordinary(#[trigger] y[k]),
    ensures
        plain_shell_words(x + seq![' '] + y) == Some(seq![x, y]),
{
    let s = x + seq![' '] + y;
    let n = x.len() as int;
    assert forall|k: int| 0 <= k < n implies shlex_ordinary(#[trigger] s[k]) by {
        assert(s[k] == x[k]);
    }
    assert forall|k: int| n + 1 <= k < s.len() implies shlex_ordinary(#[trigger] s[k]) by {
        assert(s[k] == y[k - n - 1]);
    }
    lemma_plain_run(s, 0, n, None, seq![]);
    assert(Seq::<char>::empty() + s.subrange(0, n) =~= x);
    assert(s[n] == ' ');
    lemma_plain_run(s, n + 1, s.len() as int, None, seq![x]);
    assert(Seq::<char>::empty() + s.subrange(n + 1, s.len() as int) =~= y);
    assert(seq![x].push(y) =~= seq![x, y]);
}

/// A backslash before a blank keeps the blank in the word: `x\ y` is the
/// one word `x y`.
pub proof fn lemma_shell_words_escaped_blank(x: Seq<char>, y: Seq<char>)
    requires
        x.len() > 0,
        y.len() > 0,
        forall|k: int| 0 <= k < x.len() ==> shlex_ordinary(#[trigger] x[k]),
        forall|k: int| 0 <= k < y.len() ==> shlex_ordinary(#[trigger] y[k]),
    ensures
        plain_shell_words(x + seq!['\\', ' '] + y) == Some(seq![x + seq![' '] + y]),
{
    let s = x + seq!['\\', ' '] + y;
    let n = x.len() as int;
    assert forall|k: int| 0 <= k < n implies shlex_ordinary(#[trigger] s[k]) by {
        assert(s[k] == x[k]);
    }
    assert forall|k: int| n + 2 <= k < s.len() implies shlex_ordinary(#[trigger] s[k]) by {
        assert(s[k] == y[k - n - 2]);
    }
    lemma_plain_run(s, 0, n, None, seq![]);
    assert(Seq::<char>::empty() + s.subrange(0, n) =~= x);
    assert(s[n] == '\\' && s[n + 1] == ' ');
    lemma_plain_run(s, n + 2, s.len() as int, Some(x.push(' ')), seq![]);
    assert(x.push(' ') + s.subrange(n + 2, s.len() as int) =~= x + seq![' '] + y);
    assert(Seq::<Seq<char>>::empty().push(x + seq![' '] + y) =~= seq![x + seq![' '] + y]);
}

} // verus!
