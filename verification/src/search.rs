//! Building the SQLite FTS5 `MATCH` expression of a search.
use vstd::prelude::*;
use vstd::string::StrSliceExecFns;
use crate::text::{
    all_words, chars_of, is_word, is_ws, join, join_chars, lemma_words_are_words,
    lemma_words_of_join, split_words, string_of, words,
};

verus! {

/// One result of a search: the page, its title and an excerpt.
#[derive(Debug)]
pub struct SearchResult {
    pub url: String,
    pub title: String,
    pub snippet: String,
}

/// The full content of a stored page, for display.
#[derive(Debug)]
pub struct PageContent {
    pub url: String,
    pub title: String,
    pub content: String,
    pub status_code: Option<i64>,
    pub crawled_at: Option<String>,
}

/// `w` with each double quote doubled, the escape of FTS5 strings.
pub open spec fn escape_quotes(w: Seq<char>) -> Seq<char>
    decreases w.len(),
{
    if w.len() == 0 {
        Seq::empty()
    } else {
        escape_quotes(w.drop_last()) + if w.last() == '"' {
            seq!['"', '"']
        } else {
            seq![w.last()]
        }
    }
}

/// `w` as an FTS5 phrase: escaped and between double quotes.
pub open spec fn phrase(w: Seq<char>) -> Seq<char> {
    seq!['"'] + escape_quotes(w) + seq!['"']
}

/// The separator of the terms of a query.
pub open spec fn or_sep() -> Seq<char> {
    seq![' ', 'O', 'R', ' ']
}

/// The `MATCH` expression of a user query: each white-space separated term
/// becomes a quoted phrase, and the phrases are combined by `OR`.
pub open spec fn match_expression(query: Seq<char>) -> Seq<char> {
    join(words(query).map_values(|w: Seq<char>| phrase(w)), or_sep())
}

/// `w` as a quoted FTS5 phrase.
fn quote_term(w: &[char]) -> (r: Vec<char>)
    ensures
        r@ == phrase(w@),
{
    let mut r: Vec<char> = Vec::new();
    r.push('"');
    let mut i: usize = 0;
    while i < w.len()
        invariant
            i <= w@.len(),
            r@ == seq!['"'] + escape_quotes(w@.take(i as int)),
        decreases w@.len() - i,
    {
        assert(w@.take(i + 1).drop_last() =~= w@.take(i as int));
        let c = w[i];
        if c == '"' {
            r.push('"');
            r.push('"');
        } else {
            r.push(c);
        }
        i = i + 1;
        assert(r@ =~= seq!['"'] + escape_quotes(w@.take(i as int)));
    }
    assert(w@.take(i as int) =~= w@);
    r.push('"');
    assert(r@ =~= phrase(w@));
    r
}

/// Builds a safe FTS5 `MATCH` query: each term is passed as a phrase (between
/// double quotes, inner quotes doubled) and the phrases are combined by `OR`.
/// A query without any term gives the empty string.
pub fn fts_query(query: &str) -> (r: String)
    ensures
        r@ == match_expression(query@),
{
    let v = chars_of(query);
    let terms = split_words(v.as_slice());
    let mut quoted: Vec<Vec<char>> = Vec::new();
    let mut i: usize = 0;
    while i < terms.len()
        invariant
            i <= terms@.len(),
            terms.deep_view() == words(query@),
            quoted.deep_view() == terms.deep_view().take(i as int).map_values(
                |w: Seq<char>| phrase(w),
            ),
        decreases terms@.len() - i,
    {
        let q = quote_term(terms[i].as_slice());
        let ghost before = quoted.deep_view();
        assert(q.deep_view() =~= q@);
        quoted.push(q);
        assert(quoted.deep_view() =~= before.push(q@));
        assert(terms@[i as int].deep_view() =~= terms@[i as int]@);
        assert(terms.deep_view()[i as int] == terms@[i as int]@);
        i = i + 1;
        assert(quoted.deep_view() =~= terms.deep_view().take(i as int).map_values(
            |w: Seq<char>| phrase(w),
        ));
    }
    assert(terms.deep_view().take(i as int) =~= terms.deep_view());
    let sep: Vec<char> = vec![' ', 'O', 'R', ' '];
    assert(sep@ =~= or_sep());
    let r = join_chars(&quoted, sep.as_slice());
    string_of(r.as_slice())
}

/// The number of results of one page of search results.
pub const RESULTS_PER_PAGE: i64 = 30;

/// The parameters of the full-text query of a search: its `MATCH` expression
/// and the offset of the page of results, or `None` when the query holds no
/// term (such a search has no result and needs no query).
pub fn search_parameters(query: &str, offset: usize) -> (r: Option<(String, i64)>)
    ensures
        match r {
            None => match_expression(query@).len() == 0,
            Some((m, o)) => m@ == match_expression(query@) && m@.len() > 0 && o == offset as i64,
        },
{
    let m = fts_query(query);
    if m.as_str().unicode_len() == 0 {
        None
    } else {
        Some((m, offset as i64))
    }
}

/// A query gives an empty `MATCH` expression exactly when it holds no term,
/// that is when it is empty or made of white space only.
pub proof fn lemma_empty_match_iff_no_terms(query: Seq<char>)
    ensures
        (match_expression(query).len() == 0) <==> (words(query).len() == 0),
{
    let ts = words(query).map_values(|w: Seq<char>| phrase(w));
    if ts.len() > 0 {
        lemma_join_nonempty(ts);
    }
}

proof fn lemma_join_nonempty(ts: Seq<Seq<char>>)
    requires
        ts.len() > 0,
        forall|i: int| 0 <= i < ts.len() ==> (#[trigger] ts[i]).len() > 0,
    ensures
        join(ts, or_sep()).len() > 0,
    decreases ts.len(),
{
    if ts.len() > 1 {
        assert(ts.last() == ts[ts.len() - 1]);
    }
}


/// The phrases `ps` with the word `OR` between each two neighbours.
pub open spec fn with_or(ps: Seq<Seq<char>>) -> Seq<Seq<char>>
    decreases ps.len(),
{
    if ps.len() <= 1 {
        ps
    } else {
        with_or(ps.drop_last()).push(seq!['O', 'R']).push(ps.last())
    }
}

proof fn lemma_with_or_len(ps: Seq<Seq<char>>)
    ensures
        ps.len() >= 1 ==> with_or(ps).len() >= 1,
        with_or(ps).len() == if ps.len() == 0 { 0 } else { 2 * ps.len() - 1 },
    decreases ps.len(),
{
    if ps.len() > 1 {
        lemma_with_or_len(ps.drop_last());
    }
}

proof fn lemma_join_with_or(ps: Seq<Seq<char>>)
    ensures
        join(ps, or_sep()) == join(with_or(ps), seq![' ']),
    decreases ps.len(),
{
    if ps.len() > 1 {
        let f = ps.drop_last();
        lemma_join_with_or(f);
        lemma_with_or_len(f);
        let wf = with_or(f);
        let a = wf.push(seq!['O', 'R']);
        let b = a.push(ps.last());
        assert(b.drop_last() =~= a);
        assert(a.drop_last() =~= wf);
        assert(join(b, seq![' ']) == join(a, seq![' ']) + seq![' '] + ps.last());
        assert(join(a, seq![' ']) == join(wf, seq![' ']) + seq![' '] + seq!['O', 'R']);
        assert(join(f, or_sep()) + or_sep() + ps.last() =~= join(wf, seq![' ']) + seq![' ']
            + seq!['O', 'R'] + seq![' '] + ps.last());
    }
}

proof fn lemma_escape_no_ws(w: Seq<char>)
    requires
        forall|i: int| 0 <= i < w.len() ==> !is_ws(#[trigger] w[i]),
    ensures
        forall|i: int| 0 <= i < escape_quotes(w).len() ==> !is_ws(#[trigger] escape_quotes(w)[i]),
    decreases w.len(),
{
    if w.len() > 0 {
        let f = w.drop_last();
        assert forall|i: int| 0 <= i < f.len() implies !is_ws(#[trigger] f[i]) by {
            assert(f[i] == w[i]);
        }
        lemma_escape_no_ws(f);
        let e = escape_quotes(w);
        let ef = escape_quotes(f);
        assert(!is_ws(w[w.len() - 1]));
        assert forall|i: int| 0 <= i < e.len() implies !is_ws(#[trigger] e[i]) by {
            if i < ef.len() {
                assert(e[i] == ef[i]);
            }
        }
    }
}

proof fn lemma_phrases_are_words(ws: Seq<Seq<char>>)
    requires
        all_words(ws),
    ensures
        all_words(with_or(ws.map_values(|w: Seq<char>| phrase(w)))),
    decreases ws.len(),
{
    let ps = ws.map_values(|w: Seq<char>| phrase(w));
    assert forall|i: int| 0 <= i < ps.len() implies is_word(#[trigger] ps[i]) by {
        assert(is_word(ws[i]));
        lemma_escape_no_ws(ws[i]);
        let e = escape_quotes(ws[i]);
        assert forall|k: int| 0 <= k < ps[i].len() implies !is_ws(#[trigger] ps[i][k]) by {
            if 1 <= k < ps[i].len() - 1 {
                assert(ps[i][k] == e[k - 1]);
            }
        }
    }
    lemma_with_or_words(ps);
}

proof fn lemma_with_or_words(ps: Seq<Seq<char>>)
    requires
        all_words(ps),
    ensures
        all_words(with_or(ps)),
    decreases ps.len(),
{
    if ps.len() > 1 {
        let f = ps.drop_last();
        assert forall|i: int| 0 <= i < f.len() implies is_word(#[trigger] f[i]) by {
            assert(f[i] == ps[i]);
        }
        lemma_with_or_words(f);
        let wf = with_or(f);
        let b = wf.push(seq!['O', 'R']).push(ps.last());
        assert(is_word(ps[ps.len() - 1]));
        assert forall|i: int| 0 <= i < b.len() implies is_word(#[trigger] b[i]) by {
            if i < wf.len() {
                assert(b[i] == wf[i]);
            }
        }
    }
}

/// Cutting the `MATCH` expression of a query at white space gives its quoted
/// terms with `OR` between each two: no term can break out of its phrase.
pub proof fn lemma_match_expression_terms(query: Seq<char>)
    ensures
        words(match_expression(query)) == with_or(
            words(query).map_values(|w: Seq<char>| phrase(w)),
        ),
{
    let ps = words(query).map_values(|w: Seq<char>| phrase(w));
    lemma_words_are_words(query);
    lemma_phrases_are_words(words(query));
    lemma_join_with_or(ps);
    lemma_words_of_join(with_or(ps));
}

} // verus!
