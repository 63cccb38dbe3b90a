//! Character and string helpers over `Seq<char>` views.
use vstd::prelude::*;

verus! {

/// The Unicode `White_Space` property, which `char::is_whitespace` and the
/// `str` trimming and splitting functions of std are documented to use.
pub open spec fn is_ws(c: char) -> bool {
    let n: u32 = c as u32;
    ||| 0x9 <= n <= 0xd
    ||| n == 0x20
    ||| n == 0x85
    ||| n == 0xa0
    ||| n == 0x1680
    ||| 0x2000 <= n <= 0x200a
    ||| n == 0x2028
    ||| n == 0x2029
    ||| n == 0x202f
    ||| n == 0x205f
    ||| n == 0x3000
}

/// Whether `c` is a Unicode white-space character.
pub fn is_whitespace(c: char) -> (r: bool)
    ensures
        r == is_ws(c),
{
    let n: u32 = c as u32;
    (0x9 <= n && n <= 0xd) || n == 0x20 || n == 0x85 || n == 0xa0 || n == 0x1680 || (0x2000 <= n
        && n <= 0x200a) || n == 0x2028 || n == 0x2029 || n == 0x202f || n == 0x205f || n == 0x3000
}


/// `String::push` appends one character.
pub assume_specification[ String::push ](s: &mut String, ch: char)
    ensures
        final(s)@ == old(s)@.push(ch),
;

/// The characters of `s`, in order.
pub fn chars_of(s: &str) -> (v: Vec<char>)
    ensures
        v@ == s@,
{
    let mut v: Vec<char> = Vec::new();
    for c in it: s.chars()
        invariant
            it.seq() == s@,
            v@ == it.seq().take(it.index() as int),
        ensures
            v@ == s@,
    {
        v.push(c);
        assert(it.seq().take(it.index() as int + 1) =~= v@);
    }
    v
}

/// The string made of the characters of `v`.
pub fn string_of(v: &[char]) -> (s: String)
    ensures
        s@ == v@,
{
    let mut s = String::new();
    let mut i: usize = 0;
    while i < v.len()
        invariant
            i <= v@.len(),
            s@ == v@.take(i as int),
        decreases v@.len() - i,
    {
        s.push(v[i]);
        i = i + 1;
        assert(s@ =~= v@.take(i as int));
    }
    assert(v@.take(i as int) =~= v@);
    s
}


/// Appends the characters of `src` to `dst`.
pub fn push_all(dst: &mut Vec<char>, src: &[char])
    ensures
        final(dst)@ == old(dst)@ + src@,
{
    let mut i: usize = 0;
    while i < src.len()
        invariant
            i <= src@.len(),
            dst@ == old(dst)@ + src@.take(i as int),
        decreases src@.len() - i,
    {
        dst.push(src[i]);
        i = i + 1;
        assert(dst@ =~= old(dst)@ + src@.take(i as int));
    }
    assert(src@.take(i as int) =~= src@);
}

/// The characters of `v` from `lo` (inclusive) to `hi` (exclusive).
pub fn sub_chars(v: &[char], lo: usize, hi: usize) -> (r: Vec<char>)
    requires
        lo <= hi <= v@.len(),
    ensures
        r@ == v@.subrange(lo as int, hi as int),
{
    vstd::slice::slice_to_vec(vstd::slice::slice_subrange(v, lo, hi))
}

/// Whether `a` and `b` hold the same characters.
pub fn chars_eq(a: &[char], b: &[char]) -> (r: bool)
    ensures
        r == (a@ == b@),
{
    if a.len() != b.len() {
        return false;
    }
    let mut i: usize = 0;
    while i < a.len()
        invariant
            i <= a@.len(),
            a@.len() == b@.len(),
            forall|k: int| 0 <= k < i ==> a@[k] == b@[k],
        decreases a@.len() - i,
    {
        if a[i] != b[i] {
            return false;
        }
        i = i + 1;
    }
    assert(a@ =~= b@);
    true
}

/// `p` is a prefix of `s`.
pub open spec fn has_prefix(s: Seq<char>, p: Seq<char>) -> bool {
    p.len() <= s.len() && s.take(p.len() as int) == p
}

/// `p` is a suffix of `s`.
pub open spec fn has_suffix(s: Seq<char>, p: Seq<char>) -> bool {
    p.len() <= s.len() && s.skip(s.len() - p.len()) == p
}

/// `p` occurs in `s` as a contiguous run.
pub open spec fn has_infix(s: Seq<char>, p: Seq<char>) -> bool {
    exists|i: int| 0 <= i && i + p.len() <= s.len() && #[trigger] s.subrange(i, i + p.len()) == p
}

/// Whether `p` occurs in `s` at position `at`.
fn matches_at(s: &[char], p: &[char], at: usize) -> (r: bool)
    requires
        at + p@.len() <= s@.len(),
    ensures
        r == (s@.subrange(at as int, at + p@.len()) == p@),
{
    let n: usize = s.len();
    let mut i: usize = 0;
    while i < p.len()
        invariant
            i <= p@.len(),
            n == s@.len(),
            at + p@.len() <= s@.len(),
            forall|k: int| 0 <= k < i ==> s@[at + k] == p@[k],
        decreases p@.len() - i,
    {
        if s[at + i] != p[i] {
            assert(s@.subrange(at as int, at + p@.len())[i as int] != p@[i as int]);
            return false;
        }
        i = i + 1;
    }
    assert(s@.subrange(at as int, at + p@.len()) =~= p@);
    true
}

/// Whether `s` starts with `p`.
pub fn starts_with(s: &[char], p: &[char]) -> (r: bool)
    ensures
        r == has_prefix(s@, p@),
{
    if p.len() > s.len() {
        return false;
    }
    assert(s@.take(p@.len() as int) =~= s@.subrange(0, p@.len() as int));
    matches_at(s, p, 0)
}

/// Whether `s` ends with `p`.
pub fn ends_with(s: &[char], p: &[char]) -> (r: bool)
    ensures
        r == has_suffix(s@, p@),
{
    if p.len() > s.len() {
        return false;
    }
    let at: usize = s.len() - p.len();
    assert(s@.skip(at as int) =~= s@.subrange(at as int, at + p@.len()));
    matches_at(s, p, at)
}

/// Whether `p` occurs somewhere in `s`.
pub fn contains_chars(s: &[char], p: &[char]) -> (r: bool)
    ensures
        r == has_infix(s@, p@),
{
    if p.len() > s.len() {
        return false;
    }
    let last: usize = s.len() - p.len();
    let mut i: usize = 0;
    loop
        invariant
            last + p@.len() == s@.len(),
            i <= last,
            forall|k: int| 0 <= k < i ==> #[trigger] s@.subrange(k, k + p@.len()) != p@,
        decreases last - i,
    {
        if matches_at(s, p, i) {
            return true;
        }
        if i == last {
            return false;
        }
        i = i + 1;
    }
}

/// ASCII lower-casing of one character, as `char::to_ascii_lowercase` documents it.
pub open spec fn lower_char(c: char) -> char {
    if 'A' <= c && c <= 'Z' {
        ((c as u32) + 32) as char
    } else {
        c
    }
}

/// ASCII lower-casing of a string: other characters stay as they are.
pub open spec fn lower(s: Seq<char>) -> Seq<char> {
    s.map_values(|c: char| lower_char(c))
}

/// The ASCII lower-case form of `c`.
pub fn to_lower_char(c: char) -> (r: char)
    ensures
        r == lower_char(c),
{
    if 'A' <= c && c <= 'Z' {
        let n: u32 = (c as u32) + 32;
        assert(0x61 <= n <= 0x7a);
        let b: u8 = n as u8;
        b as char
    } else {
        c
    }
}

/// The ASCII lower-case form of `s`.
pub fn to_lower(s: &[char]) -> (r: Vec<char>)
    ensures
        r@ == lower(s@),
{
    let mut r: Vec<char> = Vec::new();
    let mut i: usize = 0;
    while i < s.len()
        invariant
            i <= s@.len(),
            r@ == lower(s@.take(i as int)),
        decreases s@.len() - i,
    {
        r.push(to_lower_char(s[i]));
        i = i + 1;
        assert(r@ =~= lower(s@.take(i as int)));
    }
    assert(s@.take(i as int) =~= s@);
    r
}


/// The character sets that the trimming functions remove.
#[derive(Clone, Copy)]
pub enum CharClass {
    /// Unicode white space, as `str::trim` removes it.
    Whitespace,
    /// The square brackets that surround an IPv6 host.
    Bracket,
    /// The path separator `/`.
    Slash,
}

/// Membership of `c` in the set `k`.
pub open spec fn in_class(c: char, k: CharClass) -> bool {
    match k {
        CharClass::Whitespace => is_ws(c),
        CharClass::Bracket => c == '[' || c == ']',
        CharClass::Slash => c == '/',
    }
}

/// Whether `c` belongs to the set `k`.
pub fn char_in_class(c: char, k: CharClass) -> (r: bool)
    ensures
        r == in_class(c, k),
{
    match k {
        CharClass::Whitespace => is_whitespace(c),
        CharClass::Bracket => c == '[' || c == ']',
        CharClass::Slash => c == '/',
    }
}

/// `s` without its leading characters of the set `k`.
pub open spec fn strip_start(s: Seq<char>, k: CharClass) -> Seq<char>
    decreases s.len(),
{
    if s.len() > 0 && in_class(s[0], k) {
        strip_start(s.drop_first(), k)
    } else {
        s
    }
}

/// `s` without its trailing characters of the set `k`.
pub open spec fn strip_end(s: Seq<char>, k: CharClass) -> Seq<char>
    decreases s.len(),
{
    if s.len() > 0 && in_class(s.last(), k) {
        strip_end(s.drop_last(), k)
    } else {
        s
    }
}

/// `s` without its leading and trailing characters of the set `k`
/// (`str::trim_matches` with a set of characters).
pub open spec fn strip_both(s: Seq<char>, k: CharClass) -> Seq<char> {
    strip_end(strip_start(s, k), k)
}

/// `s` without leading and trailing white space (`str::trim`).
pub open spec fn trim(s: Seq<char>) -> Seq<char> {
    strip_both(s, CharClass::Whitespace)
}

/// The index of the first character of `v` outside `k`, or its length.
fn start_index(v: &[char], k: CharClass) -> (i: usize)
    ensures
        i <= v@.len(),
        strip_start(v@, k) == v@.skip(i as int),
{
    let mut i: usize = 0;
    assert(v@.skip(0) =~= v@);
    while i < v.len() && char_in_class(v[i], k)
        invariant
            i <= v@.len(),
            strip_start(v@, k) == strip_start(v@.skip(i as int), k),
        decreases v@.len() - i,
    {
        assert(v@.skip(i as int).drop_first() =~= v@.skip(i + 1));
        i = i + 1;
    }
    i
}

/// The index just after the last character of `v[lo..]` outside `k`, or `lo`.
fn end_index(v: &[char], lo: usize, k: CharClass) -> (j: usize)
    requires
        lo <= v@.len(),
    ensures
        lo <= j <= v@.len(),
        strip_end(v@.skip(lo as int), k) == v@.subrange(lo as int, j as int),
{
    let mut j: usize = v.len();
    assert(v@.skip(lo as int) =~= v@.subrange(lo as int, j as int));
    while j > lo && char_in_class(v[j - 1], k)
        invariant
            lo <= j <= v@.len(),
            strip_end(v@.skip(lo as int), k) == strip_end(v@.subrange(lo as int, j as int), k),
        decreases j,
    {
        assert(v@.subrange(lo as int, j as int).drop_last() =~= v@.subrange(lo as int, j - 1));
        j = j - 1;
    }
    j
}

/// `v` without its leading and trailing characters of the set `k`.
pub fn strip_both_chars(v: &[char], k: CharClass) -> (r: Vec<char>)
    ensures
        r@ == strip_both(v@, k),
{
    let i: usize = start_index(v, k);
    let j: usize = end_index(v, i, k);
    sub_chars(v, i, j)
}

/// `v` without its trailing characters of the set `k`.
pub fn strip_end_chars(v: &[char], k: CharClass) -> (r: Vec<char>)
    ensures
        r@ == strip_end(v@, k),
{
    assert(v@.skip(0) =~= v@);
    let j: usize = end_index(v, 0, k);
    sub_chars(v, 0, j)
}

/// `v` without leading and trailing white space.
pub fn trim_chars(v: &[char]) -> (r: Vec<char>)
    ensures
        r@ == trim(v@),
{
    strip_both_chars(v, CharClass::Whitespace)
}


/// The state of a left-to-right pass that cuts a text into words: the words
/// completed so far and the word being read.
pub type WordState = (Seq<Seq<char>>, Seq<char>);

/// One character of that pass: white space closes the current word (if any),
/// any other character extends it.
pub open spec fn word_step(st: WordState, c: char) -> WordState {
    if is_ws(c) {
        (if st.1.len() > 0 { st.0.push(st.1) } else { st.0 }, Seq::empty())
    } else {
        (st.0, st.1.push(c))
    }
}

/// The pass over `s`, started in the state `st`.
pub open spec fn word_scan(st: WordState, s: Seq<char>) -> WordState
    decreases s.len(),
{
    if s.len() == 0 {
        st
    } else {
        word_step(word_scan(st, s.drop_last()), s.last())
    }
}

/// The words of a finished pass: the completed ones and the last one, if any.
pub open spec fn word_finish(st: WordState) -> Seq<Seq<char>> {
    if st.1.len() > 0 {
        st.0.push(st.1)
    } else {
        st.0
    }
}

/// The maximal runs of non-white-space characters of `s`, in order
/// (`str::split_whitespace`).
pub open spec fn words(s: Seq<char>) -> Seq<Seq<char>> {
    word_finish(word_scan((Seq::empty(), Seq::empty()), s))
}

/// `ws` with `sep` between each two neighbours (`[..].join(sep)`).
pub open spec fn join(ws: Seq<Seq<char>>, sep: Seq<char>) -> Seq<char>
    decreases ws.len(),
{
    if ws.len() == 0 {
        Seq::empty()
    } else if ws.len() == 1 {
        ws[0]
    } else {
        join(ws.drop_last(), sep) + sep + ws.last()
    }
}

/// The words of `v`, in order.
pub fn split_words(v: &[char]) -> (r: Vec<Vec<char>>)
    ensures
        r.deep_view() == words(v@),
{
    let mut done: Vec<Vec<char>> = Vec::new();
    let mut cur: Vec<char> = Vec::new();
    let mut i: usize = 0;
    while i < v.len()
        invariant
            i <= v@.len(),
            (done.deep_view(), cur@) == word_scan((Seq::empty(), Seq::empty()), v@.take(i as int)),
        decreases v@.len() - i,
    {
        let ghost before = v@.take(i as int);
        assert(v@.take(i + 1).drop_last() =~= before);
        let c = v[i];
        if is_whitespace(c) {
            if cur.len() > 0 {
                let ghost dv = done.deep_view();
                let w = cur;
                assert(w.deep_view() =~= w@);
                done.push(w);
                assert(done.deep_view() =~= dv.push(w@));
                cur = Vec::new();
            } else {
                cur = Vec::new();
            }
            assert(cur@ =~= Seq::<char>::empty());
        } else {
            cur.push(c);
        }
        i = i + 1;
        assert(done.deep_view() =~= word_scan((Seq::empty(), Seq::empty()), v@.take(i as int)).0);
    }
    assert(v@.take(i as int) =~= v@);
    if cur.len() > 0 {
        let ghost dv = done.deep_view();
        assert(cur.deep_view() =~= cur@);
        let ghost cv = cur@;
        done.push(cur);
        assert(done.deep_view() =~= dv.push(cv));
    }
    done
}

/// `ws` with `sep` between each two neighbours.
pub fn join_chars(ws: &Vec<Vec<char>>, sep: &[char]) -> (r: Vec<char>)
    ensures
        r@ == join(ws.deep_view(), sep@),
{
    let mut r: Vec<char> = Vec::new();
    let mut i: usize = 0;
    while i < ws.len()
        invariant
            i <= ws@.len(),
            r@ == join(ws.deep_view().take(i as int), sep@),
        decreases ws@.len() - i,
    {
        let ghost prev = ws.deep_view().take(i as int);
        assert(ws.deep_view().take(i + 1).drop_last() =~= prev);
        if i > 0 {
            push_all(&mut r, sep);
        }
        push_all(&mut r, ws[i].as_slice());
        i = i + 1;
        assert(r@ =~= join(ws.deep_view().take(i as int), sep@));
    }
    assert(ws.deep_view().take(i as int) =~= ws.deep_view());
    r
}

/// The words of `text` joined by single spaces: every run of white space
/// becomes one space and the ends are trimmed.
pub open spec fn collapsed(text: Seq<char>) -> Seq<char> {
    join(words(text), seq![' '])
}

/// Reduces every run of white space (new lines, tabs, repeated spaces) to a
/// single space and removes white space at both ends.
pub fn collapse_whitespace(text: &str) -> (r: String)
    ensures
        r@ == collapsed(text@),
{
    let v = chars_of(text);
    let joined = collapse_chars(v.as_slice());
    string_of(joined.as_slice())
}

/// The characters of `v` with white space collapsed.
pub fn collapse_chars(v: &[char]) -> (r: Vec<char>)
    ensures
        r@ == collapsed(v@),
{
    let ws = split_words(v);
    let sep: Vec<char> = vec![' '];
    assert(sep@ =~= seq![' ']);
    join_chars(&ws, sep.as_slice())
}

/// The concatenation of the elements of `ss`, in order.
pub open spec fn concat(ss: Seq<Seq<char>>) -> Seq<char>
    decreases ss.len(),
{
    if ss.len() == 0 {
        Seq::empty()
    } else {
        concat(ss.drop_last()) + ss.last()
    }
}

/// The characters of each string of `v`.
pub fn strings_to_chars(v: &Vec<String>) -> (r: Vec<Vec<char>>)
    ensures
        r.deep_view() == v.deep_view(),
{
    let mut r: Vec<Vec<char>> = Vec::new();
    let mut i: usize = 0;
    while i < v.len()
        invariant
            i <= v@.len(),
            r.deep_view() == v.deep_view().take(i as int),
        decreases v@.len() - i,
    {
        let ghost before = r.deep_view();
        let c = chars_of(v[i].as_str());
        assert(c.deep_view() =~= c@);
        r.push(c);
        assert(r.deep_view() =~= before.push(v@[i as int]@));
        assert(v.deep_view()[i as int] == v@[i as int]@);
        assert(r.deep_view() =~= v.deep_view().take(i + 1));
        i = i + 1;
    }
    assert(v.deep_view().take(i as int) =~= v.deep_view());
    r
}

/// The concatenation of the strings of `v`.
pub fn concat_strings(v: &Vec<String>) -> (r: Vec<char>)
    ensures
        r@ == concat(v.deep_view()),
{
    let mut r: Vec<char> = Vec::new();
    let mut i: usize = 0;
    while i < v.len()
        invariant
            i <= v@.len(),
            r@ == concat(v.deep_view().take(i as int)),
        decreases v@.len() - i,
    {
        assert(v.deep_view().take(i + 1).drop_last() =~= v.deep_view().take(i as int));
        let c = chars_of(v[i].as_str());
        push_all(&mut r, c.as_slice());
        i = i + 1;
    }
    assert(v.deep_view().take(i as int) =~= v.deep_view());
    r
}


/// A word: a non-empty run without white space.
pub open spec fn is_word(w: Seq<char>) -> bool {
    w.len() > 0 && forall|i: int| 0 <= i < w.len() ==> !is_ws(#[trigger] w[i])
}

/// Every element of `ws` is a word.
pub open spec fn all_words(ws: Seq<Seq<char>>) -> bool {
    forall|i: int| 0 <= i < ws.len() ==> is_word(#[trigger] ws[i])
}

/// No character of `s` is white space.
pub open spec fn no_ws(s: Seq<char>) -> bool {
    forall|i: int| 0 <= i < s.len() ==> !is_ws(#[trigger] s[i])
}

/// White space in `r` is a single space with a non-space on each side.
pub open spec fn single_spaced(r: Seq<char>) -> bool {
    forall|i: int|
        0 <= i < r.len() && is_ws(#[trigger] r[i]) ==> {
            &&& r[i] == ' '
            &&& 0 < i < r.len() - 1
            &&& !is_ws(r[i - 1])
            &&& !is_ws(r[i + 1])
        }
}

proof fn lemma_scan_keeps_words(st: WordState, s: Seq<char>)
    requires
        all_words(st.0),
        no_ws(st.1),
    ensures
        all_words(word_scan(st, s).0),
        no_ws(word_scan(st, s).1),
    decreases s.len(),
{
    if s.len() > 0 {
        lemma_scan_keeps_words(st, s.drop_last());
        let p = word_scan(st, s.drop_last());
        if !is_ws(s.last()) {
            assert forall|i: int| 0 <= i < p.1.push(s.last()).len() implies !is_ws(
                #[trigger] p.1.push(s.last())[i],
            ) by {
                if i < p.1.len() {
                    assert(p.1.push(s.last())[i] == p.1[i]);
                }
            }
        } else if p.1.len() > 0 {
            assert forall|i: int| 0 <= i < p.0.push(p.1).len() implies is_word(
                #[trigger] p.0.push(p.1)[i],
            ) by {
                if i < p.0.len() {
                    assert(p.0.push(p.1)[i] == p.0[i]);
                }
            }
        }
    }
}

/// Every word that `words` returns is non-empty and free of white space.
pub proof fn lemma_words_are_words(s: Seq<char>)
    ensures
        all_words(words(s)),
{
    lemma_scan_keeps_words((Seq::empty(), Seq::empty()), s);
    let st = word_scan((Seq::empty(), Seq::empty()), s);
    if st.1.len() > 0 {
        assert forall|i: int| 0 <= i < st.0.push(st.1).len() implies is_word(
            #[trigger] st.0.push(st.1)[i],
        ) by {
            if i < st.0.len() {
                assert(st.0.push(st.1)[i] == st.0[i]);
            }
        }
    }
}

proof fn lemma_scan_append(st: WordState, a: Seq<char>, b: Seq<char>)
    ensures
        word_scan(st, a + b) == word_scan(word_scan(st, a), b),
    decreases b.len(),
{
    if b.len() == 0 {
        assert(a + b =~= a);
    } else {
        lemma_scan_append(st, a, b.drop_last());
        assert((a + b).drop_last() =~= a + b.drop_last());
        assert((a + b).last() == b.last());
    }
}

proof fn lemma_scan_inside_word(st: WordState, w: Seq<char>)
    requires
        no_ws(w),
    ensures
        word_scan(st, w) == (st.0, st.1 + w),
    decreases w.len(),
{
    if w.len() == 0 {
        assert(st.1 + w =~= st.1);
    } else {
        lemma_scan_inside_word(st, w.drop_last());
        assert(!is_ws(w[w.len() - 1]));
        assert((st.1 + w.drop_last()).push(w.last()) =~= st.1 + w);
    }
}

proof fn lemma_scan_join(ws: Seq<Seq<char>>)
    requires
        all_words(ws),
        ws.len() > 0,
    ensures
        word_scan((Seq::empty(), Seq::empty()), join(ws, seq![' '])) == (
            ws.drop_last(),
            ws.last(),
        ),
    decreases ws.len(),
{
    let init: WordState = (Seq::empty(), Seq::empty());
    if ws.len() == 1 {
        assert(is_word(ws[0]));
        lemma_scan_inside_word(init, ws[0]);
        assert(Seq::<char>::empty() + ws[0] =~= ws[0]);
        assert(ws.drop_last() =~= Seq::<Seq<char>>::empty());
    } else {
        let front = ws.drop_last();
        assert forall|i: int| 0 <= i < front.len() implies is_word(#[trigger] front[i]) by {
            assert(front[i] == ws[i]);
        }
        lemma_scan_join(front);
        let j = join(front, seq![' ']);
        lemma_scan_append(init, j + seq![' '], ws.last());
        lemma_scan_append(init, j, seq![' ']);
        assert(seq![' '].drop_last() =~= Seq::<char>::empty());
        assert(is_word(front.last()));
        assert(front.drop_last().push(front.last()) =~= front);
        let mid = word_scan(init, j + seq![' ']);
        let pre = word_scan(init, j);
        assert(word_scan(pre, seq![' '].drop_last()) == pre);
        assert(seq![' '].last() == ' ');
        assert(is_ws(' '));
        assert(word_scan(pre, seq![' ']) == word_step(pre, ' '));
        assert(mid =~= (front, Seq::<char>::empty()));
        assert(is_word(ws[ws.len() - 1]));
        lemma_scan_inside_word(mid, ws.last());
        assert(Seq::<char>::empty() + ws.last() =~= ws.last());
    }
}

/// Cutting a text made of words joined by single spaces gives back those words.
pub proof fn lemma_words_of_join(ws: Seq<Seq<char>>)
    requires
        all_words(ws),
    ensures
        words(join(ws, seq![' '])) == ws,
{
    if ws.len() == 0 {
        assert(words(join(ws, seq![' '])) =~= ws);
    } else {
        lemma_scan_join(ws);
        assert(is_word(ws[ws.len() - 1]));
        assert(ws.drop_last().push(ws.last()) =~= ws);
    }
}

/// Collapsing white space twice is the same as collapsing it once.
pub proof fn lemma_collapse_idempotent(text: Seq<char>)
    ensures
        collapsed(collapsed(text)) == collapsed(text),
{
    lemma_words_are_words(text);
    lemma_words_of_join(words(text));
}

proof fn lemma_join_shape(ws: Seq<Seq<char>>)
    requires
        all_words(ws),
    ensures
        single_spaced(join(ws, seq![' '])),
        ws.len() > 0 ==> join(ws, seq![' ']).len() > 0 && !is_ws(join(ws, seq![' '])[0])
            && !is_ws(join(ws, seq![' ']).last()),
    decreases ws.len(),
{
    if ws.len() == 1 {
        assert(is_word(ws[0]));
    } else if ws.len() > 1 {
        let front = ws.drop_last();
        assert forall|i: int| 0 <= i < front.len() implies is_word(#[trigger] front[i]) by {
            assert(front[i] == ws[i]);
        }
        lemma_join_shape(front);
        let j = join(front, seq![' ']);
        let w = ws.last();
        assert(is_word(ws[ws.len() - 1]));
        let r = j + seq![' '] + w;
        assert(r == join(ws, seq![' ']));
        assert forall|i: int| 0 <= i < r.len() && is_ws(#[trigger] r[i]) implies {
            &&& r[i] == ' '
            &&& 0 < i < r.len() - 1
            &&& !is_ws(r[i - 1])
            &&& !is_ws(r[i + 1])
        } by {
            if i < j.len() {
                assert(r[i] == j[i]);
                assert(r[i - 1] == j[i - 1]);
                assert(r[i + 1] == j[i + 1]);
            } else if i == j.len() {
                assert(r[i - 1] == j.last());
                assert(r[i + 1] == w[0]);
            } else {
                assert(r[i] == w[i - j.len() - 1]);
            }
        }
        assert(r[0] == j[0]);
        assert(r.last() == w.last());
    }
}

/// A collapsed text starts and ends with a non-space character (or is empty),
/// and each white-space character in it is a single space between two
/// non-space characters.
pub proof fn lemma_collapsed_shape(text: Seq<char>)
    ensures
        single_spaced(collapsed(text)),
        collapsed(text).len() > 0 ==> !is_ws(collapsed(text)[0]) && !is_ws(
            collapsed(text).last(),
        ),
{
    lemma_words_are_words(text);
    lemma_join_shape(words(text));
}


proof fn lemma_strip_start_shape(s: Seq<char>, k: CharClass)
    ensures
        strip_start(s, k).len() > 0 ==> !in_class(strip_start(s, k)[0], k),
        strip_start(s, k).len() <= s.len(),
    decreases s.len(),
{
    if s.len() > 0 && in_class(s[0], k) {
        lemma_strip_start_shape(s.drop_first(), k);
    }
}

proof fn lemma_strip_end_shape(s: Seq<char>, k: CharClass)
    ensures
        strip_end(s, k).len() > 0 ==> !in_class(strip_end(s, k).last(), k),
        strip_end(s, k).len() <= s.len(),
        s.len() > 0 && !in_class(s[0], k) ==> strip_end(s, k).len() > 0 && strip_end(s, k)[0]
            == s[0],
    decreases s.len(),
{
    if s.len() > 0 && in_class(s.last(), k) {
        lemma_strip_end_shape(s.drop_last(), k);
    }
}

/// Stripping the characters of a set from both ends twice is the same as
/// doing it once.
pub proof fn lemma_strip_both_idempotent(s: Seq<char>, k: CharClass)
    ensures
        strip_both(strip_both(s, k), k) == strip_both(s, k),
{
    let a = strip_start(s, k);
    let t = strip_end(a, k);
    lemma_strip_start_shape(s, k);
    lemma_strip_end_shape(a, k);
    assert(strip_start(t, k) == t);
    assert(strip_end(t, k) == t);
}

/// After stripping the characters of a set from its end, a text does not end
/// with one of them.
pub proof fn lemma_strip_end_last(s: Seq<char>, k: CharClass)
    ensures
        strip_end(s, k).len() > 0 ==> !in_class(strip_end(s, k).last(), k),
{
    lemma_strip_end_shape(s, k);
}

/// Trimming white space twice is the same as trimming it once.
pub proof fn lemma_trim_idempotent(s: Seq<char>)
    ensures
        trim(trim(s)) == trim(s),
{
    lemma_strip_both_idempotent(s, CharClass::Whitespace);
}

/// The decimal writing of `n`, without leading zeros.
pub open spec fn decimal(n: nat) -> Seq<char>
    decreases n,
{
    if n < 10 {
        seq![(('0' as u32) + n) as char]
    } else {
        decimal(n / 10) + seq![(('0' as u32) + n % 10) as char]
    }
}

/// The decimal writing of `n`.
pub fn decimal_chars(n: u64) -> (r: Vec<char>)
    ensures
        r@ == decimal(n as nat),
    decreases n,
{
    if n < 10 {
        let c: u8 = 48 + (n as u8);
        let r = vec![c as char];
        assert(r@ =~= decimal(n as nat));
        r
    } else {
        let mut r = decimal_chars(n / 10);
        let c: u8 = 48 + ((n % 10) as u8);
        r.push(c as char);
        assert(r@ =~= decimal(n as nat));
        r
    }
}

} // verus!
