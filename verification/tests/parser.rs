use vertex::parser::{extract_links, extract_text, extract_title, remove_junk};
use vertex::text::collapse_whitespace;

#[test]
fn extracts_the_first_title() {
    assert_eq!(
        extract_title("<html><head><title>  Rust \n Lang </title><title>Other</title></head></html>"),
        "Rust \n Lang"
    );
    assert_eq!(extract_title("<p>no title here</p>"), "Sans titre");
    assert_eq!(extract_title("<title></title>"), "");
}

#[test]
fn extracts_the_links_in_order() {
    let html = r#"<a href="/one">1</a><a name="x">2</a><div><a href="https://two.org/">3</a></div><a href="">4</a>"#;
    assert_eq!(
        extract_links(html),
        vec!["/one".to_string(), "https://two.org/".to_string(), "".to_string()]
    );
    assert!(extract_links("<p>none</p>").is_empty());
}

#[test]
fn extracts_clean_visible_text() {
    let html = r#"<html><head><title>T</title><style>p{}</style></head>
        <body><header>Top</header><script>var x = 1;</script>
        <p>Hello,
           <b>world</b>!</p><footer>Bottom</footer><form><input></form>
        <NAV class="menu">links</NAV><p>End</p></body></html>"#;
    assert_eq!(extract_text(html), "Hello, world ! End");
}

#[test]
fn removes_junk_blocks() {
    assert_eq!(
        remove_junk("a<script type=\"x\">s</script>b<STYLE>c</STYLE>d"),
        "a b d"
    );
    assert_eq!(remove_junk("<p>keep</p>"), "<p>keep</p>");
}

#[test]
fn collapses_white_space() {
    assert_eq!(collapse_whitespace("  a \t\n b\u{a0}\u{3000}c  "), "a b c");
    assert_eq!(collapse_whitespace(" \n\t "), "");
    assert_eq!(collapse_whitespace("word"), "word");
    let once = collapse_whitespace("x  y\n\nz ");
    assert_eq!(collapse_whitespace(&once), once);
}
