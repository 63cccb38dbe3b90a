//! Extraction of the title, the links and the clean visible text of an HTML page.
use vstd::prelude::*;
use crate::text::{
    collapse_chars, collapsed, concat, concat_strings, is_ws, join, join_chars,
    lemma_collapsed_shape, lemma_trim_idempotent, push_all, single_spaced, string_of,
    strings_to_chars, trim, trim_chars,
};

verus! {

#[verifier::external_type_specification]
#[verifier::external_body]
pub struct ExHtml(scraper::Html);

/// The text nodes, in document order, of each element that the CSS selector
/// `selector` matches in the HTML document `source`, as `Html::select` and
/// `ElementRef::text` give them.
pub uninterp spec fn selected_text_nodes(source: Seq<char>, selector: Seq<char>) -> Seq<
    Seq<Seq<char>>,
>;

/// The value of the attribute `attr` of each element that the CSS selector
/// `selector` matches in the HTML document `source`, as `Element::attr` gives
/// it (`None` where the element has no such attribute).
pub uninterp spec fn selected_attributes(
    source: Seq<char>,
    selector: Seq<char>,
    attr: Seq<char>,
) -> Seq<Option<Seq<char>>>;

/// The text that `Regex::replace_all` gives for `text` when every match of
/// the regular expression `pattern` is replaced by `replacement`.
pub uninterp spec fn regex_replaced(
    pattern: Seq<char>,
    text: Seq<char>,
    replacement: Seq<char>,
) -> Seq<char>;

/// A CSS type selector: a non-empty run of lower-case ASCII letters, which
/// `Selector::parse` always accepts.
pub open spec fn is_tag_selector(s: Seq<char>) -> bool {
    s.len() > 0 && forall|i: int| 0 <= i < s.len() ==> 'a' <= #[trigger] s[i] && s[i] <= 'z'
}

/// An HTML document parsed by `Html::parse_document`, with its source text,
/// which is its view. Both are set together, only by `parse_document`.
pub struct Document {
    html: scraper::Html,
    source: String,
}

impl View for Document {
    type V = Seq<char>;

    closed spec fn view(&self) -> Seq<char> {
        self.source@
    }
}

/// Calls `Html::parse_document`. Claimed: nothing beyond keeping the source.
#[verifier::external_body]
fn parse_document(source: &str) -> (r: Document)
    ensures
        r@ == source@,
{
    Document { html: scraper::Html::parse_document(source), source: source.to_string() }
}

#[verifier::external_type_specification]
#[verifier::external_body]
pub struct ExSelector(scraper::Selector);

#[verifier::external_type_specification]
#[verifier::external_body]
pub struct ExRegex(regex::Regex);

/// A CSS selector parsed by `Selector::parse`, with its source text, which is
/// its view. Both are set together, only by `parse_selector`.
pub struct TagSelector {
    selector: scraper::Selector,
    source: String,
}

impl View for TagSelector {
    type V = Seq<char>;

    closed spec fn view(&self) -> Seq<char> {
        self.source@
    }
}

/// A regular expression compiled by `Regex::new`, with its source text, which
/// is its view. Both are set together, only by `compile_pattern`.
pub struct Pattern {
    regex: regex::Regex,
    source: String,
}

impl View for Pattern {
    type V = Seq<char>;

    closed spec fn view(&self) -> Seq<char> {
        self.source@
    }
}

/// Calls `Selector::parse`, which always accepts a tag selector. Claimed:
/// nothing beyond keeping the source.
#[verifier::external_body]
fn parse_selector(source: &str) -> (r: TagSelector)
    requires
        is_tag_selector(source@),
    ensures
        r@ == source@,
{
    TagSelector { selector: scraper::Selector::parse(source).unwrap(), source: source.to_string() }
}

/// Selects with `Html::select` and gives the text nodes (`ElementRef::text`)
/// of each element. Claimed: they are `selected_text_nodes` of the document's
/// source and the selector's source.
#[verifier::external_body]
fn select_text_nodes(doc: &Document, sel: &TagSelector) -> (r: Vec<Vec<String>>)
    ensures
        r.deep_view() == selected_text_nodes(doc@, sel@),
{
    doc.html.select(&sel.selector).map(|e| e.text().map(|t| t.to_string()).collect()).collect()
}

/// Selects with `Html::select` and gives the attribute `attr`
/// (`Element::attr`) of each element. Claimed: they are `selected_attributes`
/// of the document's source, the selector's source and the attribute name.
#[verifier::external_body]
fn select_attributes(doc: &Document, sel: &TagSelector, attr: &str) -> (r: Vec<Option<String>>)
    ensures
        r.deep_view() == selected_attributes(doc@, sel@, attr@),
{
    doc.html.select(&sel.selector).map(|e| e.value().attr(attr).map(|v| v.to_string())).collect()
}

/// Calls `Regex::new`, which compiles each junk pattern. Claimed: nothing
/// beyond keeping the source.
#[verifier::external_body]
fn compile_pattern(source: &str) -> (r: Pattern)
    requires
        exists|i: int| 0 <= i < 20 && source@ == #[trigger] junk_pattern(i),
    ensures
        r@ == source@,
{
    Pattern { regex: regex::Regex::new(source).unwrap(), source: source.to_string() }
}

/// Calls `Regex::replace_all`. Claimed: the text is `regex_replaced` of the
/// pattern's source, the text and the replacement.
#[verifier::external_body]
fn replace_all(pattern: &Pattern, text: &str, replacement: &str) -> (r: String)
    ensures
        r@ == regex_replaced(pattern@, text@, replacement@),
{
    pattern.regex.replace_all(text, replacement).into_owned()
}

/// The patterns of the page blocks that hold no content: metadata,
/// navigation, scripts and analytics, forms, frames, media.
pub open spec fn junk_pattern(i: int) -> Seq<char> {
    if i == 0 { r"(?is)<script\b[^>]*>.*?</script>"@ }
    else if i == 1 { r"(?is)<style\b[^>]*>.*?</style>"@ }
    else if i == 2 { r"(?is)<noscript\b[^>]*>.*?</noscript>"@ }
    else if i == 3 { r"(?is)<nav\b[^>]*>.*?</nav>"@ }
    else if i == 4 { r"(?is)<header\b[^>]*>.*?</header>"@ }
    else if i == 5 { r"(?is)<footer\b[^>]*>.*?</footer>"@ }
    else if i == 6 { r"(?is)<aside\b[^>]*>.*?</aside>"@ }
    else if i == 7 { r"(?is)<form\b[^>]*>.*?</form>"@ }
    else if i == 8 { r"(?is)<iframe\b[^>]*>.*?</iframe>"@ }
    else if i == 9 { r"(?is)<svg\b[^>]*>.*?</svg>"@ }
    else if i == 10 { r"(?is)<template\b[^>]*>.*?</template>"@ }
    else if i == 11 { r"(?is)<video\b[^>]*>.*?</video>"@ }
    else if i == 12 { r"(?is)<audio\b[^>]*>.*?</audio>"@ }
    else if i == 13 { r"(?is)<picture\b[^>]*>.*?</picture>"@ }
    else if i == 14 { r"(?is)<object\b[^>]*>.*?</object>"@ }
    else if i == 15 { r"(?is)<canvas\b[^>]*>.*?</canvas>"@ }
    else if i == 16 { r"(?is)<embed\b[^>]*>.*?</embed>"@ }
    else if i == 17 { r"(?is)<map\b[^>]*>.*?</map>"@ }
    else if i == 18 { r"(?is)<head\b[^>]*>.*?</head>"@ }
    else { r"(?is)<title\b[^>]*>.*?</title>"@ }
}

/// The `i`-th junk pattern.
fn junk_pattern_at(i: usize) -> (r: &'static str)
    requires
        i < 20,
    ensures
        r@ == junk_pattern(i as int),
{
    match i {
        0 => r"(?is)<script\b[^>]*>.*?</script>",
        1 => r"(?is)<style\b[^>]*>.*?</style>",
        2 => r"(?is)<noscript\b[^>]*>.*?</noscript>",
        3 => r"(?is)<nav\b[^>]*>.*?</nav>",
        4 => r"(?is)<header\b[^>]*>.*?</header>",
        5 => r"(?is)<footer\b[^>]*>.*?</footer>",
        6 => r"(?is)<aside\b[^>]*>.*?</aside>",
        7 => r"(?is)<form\b[^>]*>.*?</form>",
        8 => r"(?is)<iframe\b[^>]*>.*?</iframe>",
        9 => r"(?is)<svg\b[^>]*>.*?</svg>",
        10 => r"(?is)<template\b[^>]*>.*?</template>",
        11 => r"(?is)<video\b[^>]*>.*?</video>",
        12 => r"(?is)<audio\b[^>]*>.*?</audio>",
        13 => r"(?is)<picture\b[^>]*>.*?</picture>",
        14 => r"(?is)<object\b[^>]*>.*?</object>",
        15 => r"(?is)<canvas\b[^>]*>.*?</canvas>",
        16 => r"(?is)<embed\b[^>]*>.*?</embed>",
        17 => r"(?is)<map\b[^>]*>.*?</map>",
        18 => r"(?is)<head\b[^>]*>.*?</head>",
        _ => r"(?is)<title\b[^>]*>.*?</title>",
    }
}

/// `html` after the first `n` junk patterns, in order, have each had all
/// their matches replaced by a space.
pub open spec fn junk_removed(html: Seq<char>, n: nat) -> Seq<char>
    decreases n,
{
    if n == 0 {
        html
    } else {
        regex_replaced(junk_pattern(n - 1), junk_removed(html, (n - 1) as nat), " "@)
    }
}

/// Removes from the HTML the elements that hold no content (navigation,
/// scripts, advertising, ...): each junk block becomes a space.
pub fn remove_junk(html: &str) -> (r: String)
    ensures
        r@ == junk_removed(html@, 20),
{
    let mut out = String::from_str(html);
    let mut i: usize = 0;
    while i < 20
        invariant
            i <= 20,
            out@ == junk_removed(html@, i as nat),
        decreases 20 - i,
    {
        let p = compile_pattern(junk_pattern_at(i));
        out = replace_all(&p, out.as_str(), " ");
        i = i + 1;
    }
    out
}


/// The title of a page: the text of its first `title` element, trimmed, or
/// "Sans titre" when the page has none.
pub open spec fn page_title(html: Seq<char>) -> Seq<char> {
    let ts = selected_text_nodes(html, "title"@);
    if ts.len() > 0 {
        trim(concat(ts[0]))
    } else {
        "Sans titre"@
    }
}

/// The values that are present, in order.
pub open spec fn present(vs: Seq<Option<Seq<char>>>) -> Seq<Seq<char>>
    decreases vs.len(),
{
    if vs.len() == 0 {
        Seq::empty()
    } else {
        match vs.last() {
            Some(v) => present(vs.drop_last()).push(v),
            None => present(vs.drop_last()),
        }
    }
}

/// The links of a page: the `href` of each `a` element that has one, in
/// document order.
pub open spec fn page_links(html: Seq<char>) -> Seq<Seq<char>> {
    present(selected_attributes(html, "a"@, "href"@))
}

/// The visible text of a page: the junk blocks are removed, the text nodes of
/// each `body` element are joined by spaces, and white space is collapsed.
pub open spec fn page_text(html: Seq<char>) -> Seq<char> {
    let bodies = selected_text_nodes(junk_removed(html, 20), "body"@);
    collapsed(concat(bodies.map_values(|nodes: Seq<Seq<char>>| join(nodes, seq![' ']))))
}

/// Extracts the title of an HTML page.
pub fn extract_title(html: &str) -> (r: String)
    ensures
        r@ == page_title(html@),
{
    let doc = parse_document(html);
    proof {
        reveal_strlit("title");
    }
    let ts = select_text_nodes(&doc, &parse_selector("title"));
    if ts.len() > 0 {
        assert(ts.deep_view()[0] == ts@[0].deep_view());
        let c = concat_strings(&ts[0]);
        let t = trim_chars(c.as_slice());
        string_of(t.as_slice())
    } else {
        String::from_str("Sans titre")
    }
}

/// Extracts the links present in an HTML page.
pub fn extract_links(html: &str) -> (r: Vec<String>)
    ensures
        r.deep_view() == page_links(html@),
{
    let doc = parse_document(html);
    proof {
        reveal_strlit("a");
    }
    let attrs = select_attributes(&doc, &parse_selector("a"), "href");
    let mut links: Vec<String> = Vec::new();
    let mut i: usize = 0;
    while i < attrs.len()
        invariant
            i <= attrs@.len(),
            links.deep_view() == present(attrs.deep_view().take(i as int)),
        decreases attrs@.len() - i,
    {
        assert(attrs.deep_view().take(i + 1).drop_last() =~= attrs.deep_view().take(i as int));
        assert(attrs.deep_view()[i as int] == attrs@[i as int].deep_view());
        match &attrs[i] {
            Some(v) => {
                let ghost before = links.deep_view();
                links.push(v.clone());
                assert(links.deep_view() =~= before.push(v@));
            },
            None => {},
        }
        i = i + 1;
    }
    assert(attrs.deep_view().take(i as int) =~= attrs.deep_view());
    links
}

/// Extracts the clean visible text of an HTML page (without navigation,
/// scripts and the other junk blocks).
pub fn extract_text(html: &str) -> (r: String)
    ensures
        r@ == page_text(html@),
{
    let cleaned = remove_junk(html);
    let doc = parse_document(cleaned.as_str());
    proof {
        reveal_strlit("body");
    }
    let bodies = select_text_nodes(&doc, &parse_selector("body"));
    let ghost joined = bodies.deep_view().map_values(
        |nodes: Seq<Seq<char>>| join(nodes, seq![' ']),
    );
    let sep: Vec<char> = vec![' '];
    assert(sep@ =~= seq![' ']);
    let mut text: Vec<char> = Vec::new();
    let mut i: usize = 0;
    while i < bodies.len()
        invariant
            i <= bodies@.len(),
            sep@ == seq![' '],
            joined == bodies.deep_view().map_values(
                |nodes: Seq<Seq<char>>| join(nodes, seq![' ']),
            ),
            text@ == concat(joined.take(i as int)),
        decreases bodies@.len() - i,
    {
        assert(joined.take(i + 1).drop_last() =~= joined.take(i as int));
        assert(bodies.deep_view()[i as int] == bodies@[i as int].deep_view());
        let nodes = strings_to_chars(&bodies[i]);
        let j = join_chars(&nodes, sep.as_slice());
        push_all(&mut text, j.as_slice());
        i = i + 1;
    }
    assert(joined.take(i as int) =~= joined);
    let c = collapse_chars(text.as_slice());
    string_of(c.as_slice())
}


/// The text of a page is clean: it neither starts nor ends with white space,
/// and each white-space character in it is a single space between two other
/// characters.
pub proof fn lemma_page_text_is_clean(html: Seq<char>)
    ensures
        single_spaced(page_text(html)),
        page_text(html).len() > 0 ==> !is_ws(page_text(html)[0]) && !is_ws(
            page_text(html).last(),
        ),
{
    let bodies = selected_text_nodes(junk_removed(html, 20), "body"@);
    lemma_collapsed_shape(
        concat(bodies.map_values(|nodes: Seq<Seq<char>>| join(nodes, seq![' ']))),
    );
}

/// The title of a page is trimmed: trimming it again changes nothing.
pub proof fn lemma_page_title_is_trimmed(html: Seq<char>)
    ensures
        trim(page_title(html)) == page_title(html),
{
    let ts = selected_text_nodes(html, "title"@);
    if ts.len() > 0 {
        lemma_trim_idempotent(concat(ts[0]));
    } else {
        reveal_strlit("Sans titre");
        let t = "Sans titre"@;
        assert(!is_ws(t[0]));
        assert(!is_ws(t.last()));
        assert(trim(t) == t);
    }
}

/// The junk blocks are removed by replacing with a space, in this order, every
/// match of the case-insensitive regular expressions below, in which `.` also
/// matches a new line: the elements `script`, `style`, `noscript`, `nav`,
/// `header`, `footer`, `aside`, `form`, `iframe`, `svg`, `template`, `video`,
/// `audio`, `picture`, `object`, `canvas`, `embed`, `map`, `head` and `title`,
/// from the opening tag to the first closing tag, whatever they hold, new
/// lines included. The text of a page is read from what is left.
pub proof fn lemma_junk_blocks_removed(html: Seq<char>)
    ensures
        ({
            let s1 = regex_replaced(r"(?is)<script\b[^>]*>.*?</script>"@, html, " "@);
            let s2 = regex_replaced(r"(?is)<style\b[^>]*>.*?</style>"@, s1, " "@);
            let s3 = regex_replaced(r"(?is)<noscript\b[^>]*>.*?</noscript>"@, s2, " "@);
            let s4 = regex_replaced(r"(?is)<nav\b[^>]*>.*?</nav>"@, s3, " "@);
            let s5 = regex_replaced(r"(?is)<header\b[^>]*>.*?</header>"@, s4, " "@);
            let s6 = regex_replaced(r"(?is)<footer\b[^>]*>.*?</footer>"@, s5, " "@);
            let s7 = regex_replaced(r"(?is)<aside\b[^>]*>.*?</aside>"@, s6, " "@);
            let s8 = regex_replaced(r"(?is)<form\b[^>]*>.*?</form>"@, s7, " "@);
            let s9 = regex_replaced(r"(?is)<iframe\b[^>]*>.*?</iframe>"@, s8, " "@);
            let s10 = regex_replaced(r"(?is)<svg\b[^>]*>.*?</svg>"@, s9, " "@);
            let s11 = regex_replaced(r"(?is)<template\b[^>]*>.*?</template>"@, s10, " "@);
            let s12 = regex_replaced(r"(?is)<video\b[^>]*>.*?</video>"@, s11, " "@);
            let s13 = regex_replaced(r"(?is)<audio\b[^>]*>.*?</audio>"@, s12, " "@);
            let s14 = regex_replaced(r"(?is)<picture\b[^>]*>.*?</picture>"@, s13, " "@);
            let s15 = regex_replaced(r"(?is)<object\b[^>]*>.*?</object>"@, s14, " "@);
            let s16 = regex_replaced(r"(?is)<canvas\b[^>]*>.*?</canvas>"@, s15, " "@);
            let s17 = regex_replaced(r"(?is)<embed\b[^>]*>.*?</embed>"@, s16, " "@);
            let s18 = regex_replaced(r"(?is)<map\b[^>]*>.*?</map>"@, s17, " "@);
            let s19 = regex_replaced(r"(?is)<head\b[^>]*>.*?</head>"@, s18, " "@);
            let s20 = regex_replaced(r"(?is)<title\b[^>]*>.*?</title>"@, s19, " "@);
            &&& junk_removed(html, 20) == s20
            &&& page_text(html) == collapsed(
                concat(
                    selected_text_nodes(s20, "body"@).map_values(
                        |nodes: Seq<Seq<char>>| join(nodes, seq![' ']),
                    ),
                ),
            )
        }),
{
    reveal_with_fuel(junk_removed, 21);
}

/// The number of values that are present.
pub open spec fn count_present(vs: Seq<Option<Seq<char>>>) -> nat
    decreases vs.len(),
{
    if vs.len() == 0 {
        0
    } else if vs.last() is Some {
        count_present(vs.drop_last()) + 1
    } else {
        count_present(vs.drop_last())
    }
}

proof fn lemma_count_present_prefix(vs: Seq<Option<Seq<char>>>, j: int)
    requires
        0 <= j <= vs.len(),
    ensures
        count_present(vs.take(j)) <= count_present(vs),
    decreases vs.len(),
{
    if j == vs.len() {
        assert(vs.take(j) =~= vs);
    } else {
        assert(vs.take(j) =~= vs.drop_last().take(j));
        lemma_count_present_prefix(vs.drop_last(), j);
    }
}

proof fn lemma_present_positions(vs: Seq<Option<Seq<char>>>)
    ensures
        present(vs).len() == count_present(vs),
        forall|k: int|
            0 <= k < vs.len() && #[trigger] vs[k] is Some ==> present(vs)[count_present(vs.take(k)) as int]
                == vs[k]->0,
    decreases vs.len(),
{
    if vs.len() > 0 {
        let w = vs.drop_last();
        lemma_present_positions(w);
        assert forall|k: int|
            0 <= k < vs.len() && #[trigger] vs[k] is Some implies present(vs)[count_present(vs.take(k)) as int]
                == vs[k]->0 by {
            if k == vs.len() - 1 {
                assert(vs.take(k) =~= w);
            } else {
                assert(vs.take(k) =~= w.take(k));
                assert(w[k] == vs[k]);
                assert(w.take(k + 1).drop_last() =~= w.take(k));
                assert(w.take(k + 1).last() == w[k]);
                lemma_count_present_prefix(w, k + 1);
            }
        }
    }
}

/// Every `href` is kept: the links of a page are the values of the `href`
/// attributes of its `a` elements, one for each element that has one, in
/// document order, none left out (in-page `#` links included).
pub proof fn lemma_links_are_every_href(html: Seq<char>)
    ensures
        ({
            let attrs = selected_attributes(html, "a"@, "href"@);
            &&& page_links(html).len() == count_present(attrs)
            &&& forall|k: int|
                0 <= k < attrs.len() && #[trigger] attrs[k] is Some ==> page_links(html)[count_present(
                    attrs.take(k),
                ) as int] == attrs[k]->0
        }),
{
    lemma_present_positions(selected_attributes(html, "a"@, "href"@));
}

} // verus!
