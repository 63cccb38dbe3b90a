# Vertex

The verified core of Vertex, a small personal search engine: a multi-site
crawler with a time budget, clean page text, and SQLite FTS5 full-text search.

## Layout

- `src/` — the library, verified with Verus:
  - `text.rs`: white space, trimming, words, joining and collapsing of text,
    with their laws (collapsing is idempotent and leaves single spaces only);
  - `ipv4.rs`: dotted-decimal IPv4 addresses and the reserved ranges;
  - `ipv6.rs`: IPv6 addresses in text form and the local ranges;
  - `crawler.rs`: which URLs may be crawled, the normalization of links
    (resolution, tracking parameters, ignored files), the redirects that may
    be followed, the checks of a
    response and the building of a page;
  - `parser.rs`: title, links and visible text of an HTML page;
  - `search.rs`: the FTS5 `MATCH` expression of a query;
  - `runner.rs`: the decisions of a crawl worker, the links a page adds to the
    queue and the summary of a crawl;
  - `paths.rs`, `models.rs`: the workspace root and the page model.
- `tests/` — tests of the library.
- `app/` — the programs: the crawler (threads, HTTP with reqwest, SQLite with
  rusqlite) and the search web server (`serve`, with axum).
