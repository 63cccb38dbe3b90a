use vertex::search::{fts_query, PageContent, SearchResult};

#[test]
fn quotes_each_term_and_joins_them_with_or() {
    assert_eq!(fts_query("rust web"), "\"rust\" OR \"web\"");
    assert_eq!(fts_query("  single  "), "\"single\"");
}

#[test]
fn doubles_inner_quotes() {
    assert_eq!(fts_query("say \"hi\""), "\"say\" OR \"\"\"hi\"\"\"");
    assert_eq!(fts_query("a*b NEAR"), "\"a*b\" OR \"NEAR\"");
}

#[test]
fn empty_queries_give_no_expression() {
    assert_eq!(fts_query(""), "");
    assert_eq!(fts_query(" \t\n "), "");
}

#[test]
fn results_hold_their_fields() {
    let r = SearchResult { url: "u".into(), title: "t".into(), snippet: "s".into() };
    assert_eq!((r.url.as_str(), r.title.as_str(), r.snippet.as_str()), ("u", "t", "s"));
    let p = PageContent {
        url: "u".into(),
        title: "t".into(),
        content: "c".into(),
        status_code: Some(200),
        crawled_at: None,
    };
    assert_eq!(p.status_code, Some(200));
}

#[test]
fn the_expression_splits_back_into_its_phrases() {
    let m = fts_query("rust \"web\" x");
    let parts: Vec<&str> = m.split_whitespace().collect();
    assert_eq!(parts, vec!["\"rust\"", "OR", "\"\"\"web\"\"\"", "OR", "\"x\""]);
}
