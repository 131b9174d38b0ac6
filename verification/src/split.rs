//! Tokenization of input records: whitespace-delimited fields for the
//! methylation table, tab-delimited columns for target lines.

use vstd::prelude::*;

verus! {

/// The character sequences of a sequence of strings.
pub open spec fn views_of(ss: Seq<String>) -> Seq<Seq<char>> {
    ss.map_values(|s: String| s@)
}

/// The field separators recognised in methylation records: the ASCII
/// whitespace characters.
pub open spec fn is_space(c: char) -> bool {
    c == ' ' || c == '\t' || c == '\n' || c == '\r' || c == '\u{b}' || c == '\u{c}'
}

/// The end of the token starting at `i`: the first position at or after `i`
/// holding whitespace, or the end of the line.
pub open spec fn tok_end(s: Seq<char>, i: int) -> int
    decreases s.len() - i,
{
    if i < 0 || i >= s.len() || is_space(s[i]) {
        i
    } else {
        tok_end(s, i + 1)
    }
}

pub proof fn lemma_tok_end(s: Seq<char>, i: int)
    requires
        0 <= i <= s.len(),
    ensures
        i <= tok_end(s, i) <= s.len(),
        forall|j: int| i <= j < tok_end(s, i) ==> !is_space(s[j]),
        tok_end(s, i) < s.len() ==> is_space(s[tok_end(s, i)]),
    decreases s.len() - i,
{
    if i < s.len() && !is_space(s[i]) {
        lemma_tok_end(s, i + 1);
    }
}

proof fn lemma_tok_end_is(s: Seq<char>, i: int, j: int)
    requires
        0 <= i <= j <= s.len(),
        forall|k: int| i <= k < j ==> !is_space(s[k]),
        j < s.len() ==> is_space(s[j]),
    ensures
        tok_end(s, i) == j,
    decreases j - i,
{
    if i < j {
        lemma_tok_end_is(s, i + 1, j);
    }
}

/// The whitespace-delimited fields of `s` from position `i` on: maximal
/// non-whitespace runs, in order; separators are dropped.
pub open spec fn fields_from(s: Seq<char>, i: int) -> Seq<Seq<char>>
    decreases s.len() - i,
    when 0 <= i
    via fields_from_decreases
{
    if i >= s.len() {
        Seq::empty()
    } else if is_space(s[i]) {
        fields_from(s, i + 1)
    } else {
        seq![s.subrange(i, tok_end(s, i))] + fields_from(s, tok_end(s, i))
    }
}

#[via_fn]
proof fn fields_from_decreases(s: Seq<char>, i: int) {
    if i < s.len() && !is_space(s[i]) {
        lemma_tok_end(s, i);
    }
}

/// The fields of a whole line.
pub open spec fn line_fields(s: Seq<char>) -> Seq<Seq<char>> {
    fields_from(s, 0)
}

fn is_space_char(c: char) -> (r: bool)
    ensures
        r == is_space(c),
{
    c == ' ' || c == '\t' || c == '\n' || c == '\r' || c == '\u{b}' || c == '\u{c}'
}

/// Splits a line into its whitespace-delimited fields.
pub fn split_fields(s: &str) -> (r: Vec<String>)
    ensures
        views_of(r@) == line_fields(s@),
{
    let n = s.unicode_len();
    let mut out: Vec<String> = Vec::new();
    let mut i: usize = 0;
    while i < n
        invariant
            0 <= i <= n,
            n == s@.len(),
            line_fields(s@) == views_of(out@) + fields_from(s@, i as int),
        decreases n - i,
    {
        let c = s.get_char(i);
        if is_space_char(c) {
            i += 1;
        } else {
            let mut j = i + 1;
            while j < n
                invariant
                    0 <= i < j <= n,
                    n == s@.len(),
                    forall|k: int| i <= k < j ==> !is_space(s@[k]),
                ensures
                    0 <= i < j <= n,
                    forall|k: int| i <= k < j ==> !is_space(s@[k]),
                    j < n ==> is_space(s@[j as int]),
                decreases n - j,
            {
                let c2 = s.get_char(j);
                if is_space_char(c2) {
                    break ;
                }
                j += 1;
            }
            proof {
                lemma_tok_end_is(s@, i as int, j as int);
            }
            let tok = s.substring_char(i, j);
            let ghost prev = views_of(out@);
            out.push(String::from_str(tok));
            proof {
                assert(views_of(out@) =~= prev.push(s@.subrange(i as int, j as int)));
                assert(prev + fields_from(s@, i as int) =~= views_of(out@) + fields_from(
                    s@,
                    j as int,
                ));
            }
            i = j;
        }
    }
    proof {
        assert(views_of(out@) + fields_from(s@, i as int) =~= views_of(out@));
    }
    out
}

/// The first tab at or after `i`, or the end of the line.
pub open spec fn next_tab(s: Seq<char>, i: int) -> int
    decreases s.len() - i,
{
    if i < 0 || i >= s.len() || s[i] == '\t' {
        i
    } else {
        next_tab(s, i + 1)
    }
}

pub proof fn lemma_next_tab(s: Seq<char>, i: int)
    requires
        0 <= i <= s.len(),
    ensures
        i <= next_tab(s, i) <= s.len(),
        forall|j: int| i <= j < next_tab(s, i) ==> s[j] != '\t',
        next_tab(s, i) < s.len() ==> s[next_tab(s, i)] == '\t',
    decreases s.len() - i,
{
    if i < s.len() && s[i] != '\t' {
        lemma_next_tab(s, i + 1);
    }
}

proof fn lemma_next_tab_is(s: Seq<char>, i: int, j: int)
    requires
        0 <= i <= j <= s.len(),
        forall|k: int| i <= k < j ==> s[k] != '\t',
        j < s.len() ==> s[j] == '\t',
    ensures
        next_tab(s, i) == j,
    decreases j - i,
{
    if i < j {
        lemma_next_tab_is(s, i + 1, j);
    }
}

/// Position just past the `k`-th tab-separated column: column boundaries for
/// target lines.
pub fn find_tab(s: &str, from: usize) -> (r: usize)
    requires
        from <= s@.len(),
    ensures
        r == next_tab(s@, from as int),
        from <= r <= s@.len(),
{
    let n = s.unicode_len();
    let mut j = from;
    while j < n
        invariant
            from <= j <= n,
            n == s@.len(),
            forall|k: int| from <= k < j ==> s@[k] != '\t',
        ensures
            from <= j <= n,
            forall|k: int| from <= k < j ==> s@[k] != '\t',
            j < n ==> s@[j as int] == '\t',
        decreases n - j,
    {
        let c = s.get_char(j);
        if c == '\t' {
            break ;
        }
        j += 1;
    }
    proof {
        lemma_next_tab_is(s@, from as int, j as int);
    }
    j
}

} // verus!
