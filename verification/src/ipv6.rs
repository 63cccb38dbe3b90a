//! IPv6 addresses in text form (RFC 4291, section 2.2) and the address ranges
//! that the crawler refuses to visit.
use vstd::prelude::*;
use crate::ipv4::{ipv4_octets, is_reserved, parse_ipv4, split_chars, split_on};

verus! {

/// An ASCII hexadecimal digit.
pub open spec fn is_hex_digit(c: char) -> bool {
    ('0' <= c && c <= '9') || ('a' <= c && c <= 'f') || ('A' <= c && c <= 'F')
}

/// The value of a hexadecimal digit.
pub open spec fn hex_digit_value(c: char) -> nat {
    if '0' <= c && c <= '9' {
        ((c as u32) - ('0' as u32)) as nat
    } else if 'a' <= c && c <= 'f' {
        ((c as u32) - ('a' as u32) + 10) as nat
    } else {
        ((c as u32) - ('A' as u32) + 10) as nat
    }
}

/// The number that a run of hexadecimal digits writes.
pub open spec fn hex_value(p: Seq<char>) -> nat
    decreases p.len(),
{
    if p.len() == 0 {
        0
    } else {
        hex_value(p.drop_last()) * 16 + hex_digit_value(p.last())
    }
}

/// A group of an IPv6 address: one to four hexadecimal digits.
pub open spec fn is_hex_group(p: Seq<char>) -> bool {
    1 <= p.len() <= 4 && forall|i: int| 0 <= i < p.len() ==> is_hex_digit(#[trigger] p[i])
}

/// The 16-bit groups that one piece between colons stands for: a group, or,
/// where `v4` allows it (the last piece of an address), a dotted-decimal IPv4
/// address, which stands for two groups.
pub open spec fn piece_groups(p: Seq<char>, v4: bool) -> Option<Seq<u16>> {
    if is_hex_group(p) {
        Some(seq![hex_value(p) as u16])
    } else if v4 && ipv4_octets(p) is Some {
        let o = ipv4_octets(p)->0;
        Some(seq![(o.0 as int * 256 + o.1 as int) as u16, (o.2 as int * 256 + o.3 as int) as u16])
    } else {
        None
    }
}

/// The groups that the pieces `ps` stand for, in order; only the last piece
/// may be an IPv4 address, and only when `v4` allows it.
pub open spec fn pieces_groups(ps: Seq<Seq<char>>, v4: bool) -> Option<Seq<u16>>
    decreases ps.len(),
{
    if ps.len() == 0 {
        Some(Seq::empty())
    } else {
        match pieces_groups(ps.drop_last(), false) {
            None => None,
            Some(g) => match piece_groups(ps.last(), v4) {
                None => None,
                Some(x) => Some(g + x),
            },
        }
    }
}

/// The groups of a run of pieces separated by single colons (none for the
/// empty run).
pub open spec fn run_groups(t: Seq<char>, v4: bool) -> Option<Seq<u16>> {
    if t.len() == 0 {
        Some(Seq::empty())
    } else {
        pieces_groups(split_on(t, ':'), v4)
    }
}

/// `s` holds `::` at index `i`.
pub open spec fn double_colon_at(s: Seq<char>, i: int) -> bool {
    0 <= i && i + 1 < s.len() && s[i] == ':' && s[i + 1] == ':'
}

/// The index of the first `::` of `s`, if any.
pub open spec fn first_double_colon(s: Seq<char>) -> Option<int> {
    if exists|i: int|
        double_colon_at(s, i) && forall|j: int| 0 <= j < i ==> !double_colon_at(s, j) {
        Some(
            choose|i: int|
                double_colon_at(s, i) && forall|j: int| 0 <= j < i ==> !double_colon_at(s, j),
        )
    } else {
        None
    }
}

proof fn lemma_first_double_colon(s: Seq<char>)
    ensures
        first_double_colon(s) matches Some(i) ==> double_colon_at(s, i),
{
}

/// `n` zero groups.
pub open spec fn zeros(n: nat) -> Seq<u16> {
    Seq::new(n, |i: int| 0u16)
}

/// The eight groups of an IPv6 address in text form: eight groups separated
/// by colons, or groups before and after one `::` that stands for the zero
/// groups that are missing (at least one); the last piece may be a
/// dotted-decimal IPv4 address.
pub open spec fn ipv6_groups(s: Seq<char>) -> Option<Seq<u16>> {
    match first_double_colon(s) {
        None => match pieces_groups(split_on(s, ':'), true) {
            Some(g) => if g.len() == 8 {
                Some(g)
            } else {
                None
            },
            None => None,
        },
        Some(i) => match run_groups(s.take(i), false) {
            None => None,
            Some(h) => match run_groups(s.skip(i + 2), true) {
                None => None,
                Some(t) => if h.len() + t.len() <= 7 {
                    Some(h + zeros((8 - h.len() - t.len()) as nat) + t)
                } else {
                    None
                },
            },
        },
    }
}

/// An address of this machine or of a local network: unspecified (`::`),
/// loopback (`::1`), link-local (`fe80::/10`), unique local (`fc00::/7`),
/// multicast (`ff00::/8`), or an IPv4-mapped address (`::ffff:0:0/96`) of a
/// reserved IPv4 range.
pub open spec fn is_local_ipv6(g: Seq<u16>) -> bool {
    let head_zero = g[0] == 0 && g[1] == 0 && g[2] == 0 && g[3] == 0 && g[4] == 0;
    ||| head_zero && g[5] == 0 && g[6] == 0 && g[7] == 0
    ||| head_zero && g[5] == 0 && g[6] == 0 && g[7] == 1
    ||| 0xfe80 <= g[0] <= 0xfebf
    ||| 0xfc00 <= g[0] <= 0xfdff
    ||| 0xff00 <= g[0]
    ||| head_zero && g[5] == 0xffff && is_reserved(
        ((g[6] / 256) as u8, (g[6] % 256) as u8, (g[7] / 256) as u8, (g[7] % 256) as u8),
    )
}

/// The value of the hexadecimal digit `c`.
fn hex_digit_of(c: char) -> (r: Option<u32>)
    ensures
        match r {
            Some(v) => is_hex_digit(c) && v == hex_digit_value(c) && v < 16,
            None => !is_hex_digit(c),
        },
{
    if '0' <= c && c <= '9' {
        Some((c as u32) - ('0' as u32))
    } else if 'a' <= c && c <= 'f' {
        Some((c as u32) - ('a' as u32) + 10)
    } else if 'A' <= c && c <= 'F' {
        Some((c as u32) - ('A' as u32) + 10)
    } else {
        None
    }
}

/// The group that `p` writes, when it is one.
fn parse_hex_group(p: &[char]) -> (r: Option<u16>)
    ensures
        r == (if is_hex_group(p@) {
            Some(hex_value(p@) as u16)
        } else {
            None
        }),
{
    if p.len() == 0 || p.len() > 4 {
        return None;
    }
    let mut value: u32 = 0;
    let mut i: usize = 0;
    while i < p.len()
        invariant
            1 <= p@.len() <= 4,
            i <= p@.len(),
            forall|k: int| 0 <= k < i ==> is_hex_digit(#[trigger] p@[k]),
            value == hex_value(p@.take(i as int)),
            i == 0 ==> value == 0,
            i == 1 ==> value < 16,
            i == 2 ==> value < 256,
            i == 3 ==> value < 4096,
            i == 4 ==> value < 65536,
        decreases p@.len() - i,
    {
        let d = match hex_digit_of(p[i]) {
            Some(d) => d,
            None => return None,
        };
        assert(p@.take(i + 1).drop_last() =~= p@.take(i as int));
        value = value * 16 + d;
        i = i + 1;
    }
    assert(p@.take(i as int) =~= p@);
    Some(value as u16)
}

/// The groups that the piece `p` stands for.
fn parse_piece(p: &[char], v4: bool) -> (r: Option<Vec<u16>>)
    ensures
        match r {
            Some(g) => piece_groups(p@, v4) == Some(g@),
            None => piece_groups(p@, v4) is None,
        },
{
    match parse_hex_group(p) {
        Some(v) => {
            let g = vec![v];
            assert(g@ =~= seq![v]);
            Some(g)
        },
        None => {
            if !v4 {
                return None;
            }
            match parse_ipv4(p) {
                Some((a, b, c, d)) => {
                    let hi: u16 = (a as u16) * 256 + (b as u16);
                    let lo: u16 = (c as u16) * 256 + (d as u16);
                    let g = vec![hi, lo];
                    assert(g@ =~= seq![hi, lo]);
                    Some(g)
                },
                None => None,
            }
        },
    }
}

proof fn lemma_prefix_fails(ps: Seq<Seq<char>>, k: int, v4: bool)
    requires
        0 < k < ps.len(),
        pieces_groups(ps.take(k), false) is None,
    ensures
        pieces_groups(ps, v4) is None,
    decreases ps.len(),
{
    if k == ps.len() - 1 {
        assert(ps.drop_last() =~= ps.take(k));
    } else {
        assert(ps.drop_last().take(k) =~= ps.take(k));
        lemma_prefix_fails(ps.drop_last(), k, false);
    }
}

/// The groups that the pieces `ps` stand for.
fn parse_pieces(ps: &Vec<Vec<char>>, v4: bool) -> (r: Option<Vec<u16>>)
    ensures
        match r {
            Some(g) => pieces_groups(ps.deep_view(), v4) == Some(g@),
            None => pieces_groups(ps.deep_view(), v4) is None,
        },
{
    let n: usize = ps.len();
    if n == 0 {
        let g: Vec<u16> = Vec::new();
        assert(g@ =~= Seq::<u16>::empty());
        return Some(g);
    }
    let mut acc: Vec<u16> = Vec::new();
    let mut i: usize = 0;
    assert(ps.deep_view().take(0) =~= Seq::<Seq<char>>::empty());
    while i + 1 < n
        invariant
            n == ps@.len(),
            n >= 1,
            i + 1 <= n,
            pieces_groups(ps.deep_view().take(i as int), false) == Some(acc@),
        decreases n - i,
    {
        assert(ps.deep_view().take(i + 1).drop_last() =~= ps.deep_view().take(i as int));
        assert(ps.deep_view()[i as int] =~= ps@[i as int]@);
        match parse_piece(ps[i].as_slice(), false) {
            Some(g) => {
                let mut g2 = g;
                let ghost before = acc@;
                let ghost gv = g2@;
                acc.append(&mut g2);
                assert(acc@ =~= before + gv);
            },
            None => {
                proof {
                    assert(ps.deep_view().take(i + 1).last() == ps.deep_view()[i as int]);
                    lemma_prefix_fails(ps.deep_view(), i + 1, v4);
                }
                return None;
            },
        }
        i = i + 1;
    }
    assert(ps.deep_view().take(n as int).drop_last() =~= ps.deep_view().take(i as int));
    assert(ps.deep_view().take(n as int) =~= ps.deep_view());
    assert(ps.deep_view()[i as int] =~= ps@[i as int]@);
    match parse_piece(ps[i].as_slice(), v4) {
        Some(g) => {
            let mut g2 = g;
            let ghost before = acc@;
            let ghost gv = g2@;
            acc.append(&mut g2);
            assert(acc@ =~= before + gv);
            Some(acc)
        },
        None => None,
    }
}

/// The groups of a run of pieces separated by single colons.
fn parse_run(t: &[char], v4: bool) -> (r: Option<Vec<u16>>)
    ensures
        match r {
            Some(g) => run_groups(t@, v4) == Some(g@),
            None => run_groups(t@, v4) is None,
        },
{
    if t.len() == 0 {
        let g: Vec<u16> = Vec::new();
        assert(g@ =~= Seq::<u16>::empty());
        return Some(g);
    }
    let ps = split_chars(t, ':');
    parse_pieces(&ps, v4)
}

/// The index of the first `::` of `s`, if any.
fn find_double_colon(s: &[char]) -> (r: Option<usize>)
    ensures
        match r {
            Some(i) => first_double_colon(s@) == Some(i as int),
            None => first_double_colon(s@) is None,
        },
{
    let n: usize = s.len();
    let mut i: usize = 0;
    while n > 0 && i < n - 1
        invariant
            n == s@.len(),
            forall|j: int| 0 <= j < i ==> !double_colon_at(s@, j),
        decreases n - i,
    {
        if s[i] == ':' && s[i + 1] == ':' {
            assert(double_colon_at(s@, i as int) && forall|j: int|
                0 <= j < i ==> !double_colon_at(s@, j));
            let ghost c = choose|k: int|
                double_colon_at(s@, k) && forall|j: int| 0 <= j < k ==> !double_colon_at(s@, j);
            assert(c == i as int) by {
                if c < i {
                } else if c > i {
                    assert(!double_colon_at(s@, i as int));
                }
            }
            return Some(i);
        }
        i = i + 1;
    }
    assert forall|j: int| !double_colon_at(s@, j) by {
        if 0 <= j < i {
        }
    }
    None
}

/// The eight groups of the IPv6 address that `s` writes, if it writes one.
pub fn parse_ipv6(s: &[char]) -> (r: Option<Vec<u16>>)
    ensures
        match r {
            Some(g) => ipv6_groups(s@) == Some(g@),
            None => ipv6_groups(s@) is None,
        },
{
    match find_double_colon(s) {
        None => {
            let ps = split_chars(s, ':');
            match parse_pieces(&ps, true) {
                Some(g) => {
                    if g.len() == 8 {
                        Some(g)
                    } else {
                        None
                    }
                },
                None => None,
            }
        },
        Some(i) => parse_compressed(s, i),
    }
}

/// `h`, the zero groups that are missing, and `t`.
fn with_gap(h: Vec<u16>, t: Vec<u16>) -> (r: Vec<u16>)
    requires
        h@.len() + t@.len() <= 7,
    ensures
        r@ == h@ + zeros((8 - h@.len() - t@.len()) as nat) + t@,
{
    let fill: usize = 8 - h.len() - t.len();
    let mut g = h;
    let mut k: usize = 0;
    let ghost hv = g@;
    while k < fill
        invariant
            k <= fill,
            g@ == hv + zeros(k as nat),
        decreases fill - k,
    {
        g.push(0u16);
        k = k + 1;
        assert(g@ =~= hv + zeros(k as nat));
    }
    let mut t2 = t;
    let ghost tv = t2@;
    g.append(&mut t2);
    assert(g@ =~= hv + zeros(fill as nat) + tv);
    g
}

/// The groups of an address with a `::` at index `i`.
fn parse_compressed(s: &[char], i: usize) -> (r: Option<Vec<u16>>)
    requires
        first_double_colon(s@) == Some(i as int),
    ensures
        match r {
            Some(g) => ipv6_groups(s@) == Some(g@),
            None => ipv6_groups(s@) is None,
        },
{
    proof {
        lemma_first_double_colon(s@);
    }
    let head = vstd::slice::slice_subrange(s, 0, i);
    let n: usize = s.len();
    let tail = vstd::slice::slice_subrange(s, i + 2, n);
    assert(head@ =~= s@.take(i as int));
    assert(tail@ =~= s@.skip(i + 2));
    let h = match parse_run(head, false) {
        Some(h) => h,
        None => return None,
    };
    let t = match parse_run(tail, true) {
        Some(t) => t,
        None => return None,
    };
    if h.len() > 7 || t.len() > 7 - h.len() {
        return None;
    }
    Some(with_gap(h, t))
}

/// An address in text form has eight groups.
pub proof fn lemma_ipv6_groups_len(s: Seq<char>)
    ensures
        ipv6_groups(s) matches Some(g) ==> g.len() == 8,
{
}

/// Whether the eight groups `g` are a local address.
pub fn local_ipv6(g: &Vec<u16>) -> (r: bool)
    requires
        g@.len() == 8,
    ensures
        r == is_local_ipv6(g@),
{
    let head_zero = g[0] == 0 && g[1] == 0 && g[2] == 0 && g[3] == 0 && g[4] == 0;
    if head_zero && g[5] == 0 && g[6] == 0 && (g[7] == 0 || g[7] == 1) {
        return true;
    }
    if 0xfe80 <= g[0] && g[0] <= 0xfebf {
        return true;
    }
    if 0xfc00 <= g[0] && g[0] <= 0xfdff {
        return true;
    }
    if 0xff00 <= g[0] {
        return true;
    }
    if head_zero && g[5] == 0xffff {
        let o: (u8, u8, u8, u8) = (
            (g[6] / 256) as u8,
            (g[6] % 256) as u8,
            (g[7] / 256) as u8,
            (g[7] % 256) as u8,
        );
        return crate::ipv4::reserved_address(o);
    }
    false
}

} // verus!
