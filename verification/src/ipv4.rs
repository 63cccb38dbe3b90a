//! Dotted-decimal IPv4 addresses and the address ranges that the crawler
//! refuses to visit.
use vstd::prelude::*;
use crate::text::{decimal, join};

verus! {

/// The pieces of `s` between the occurrences of `sep`, read from the left:
/// the pieces already closed and the one still open.
pub open spec fn split_state(s: Seq<char>, sep: char) -> (Seq<Seq<char>>, Seq<char>)
    decreases s.len(),
{
    if s.len() == 0 {
        (Seq::empty(), Seq::empty())
    } else {
        let st = split_state(s.drop_last(), sep);
        if s.last() == sep {
            (st.0.push(st.1), Seq::empty())
        } else {
            (st.0, st.1.push(s.last()))
        }
    }
}

/// The pieces of `s` between the occurrences of `sep` (`str::split`), empty
/// pieces included: there is always one more piece than separators.
pub open spec fn split_on(s: Seq<char>, sep: char) -> Seq<Seq<char>> {
    split_state(s, sep).0.push(split_state(s, sep).1)
}

/// An ASCII decimal digit.
pub open spec fn is_digit(c: char) -> bool {
    '0' <= c && c <= '9'
}

/// The number that a run of ASCII decimal digits writes.
pub open spec fn decimal_value(p: Seq<char>) -> nat
    decreases p.len(),
{
    if p.len() == 0 {
        0
    } else {
        decimal_value(p.drop_last()) * 10 + ((p.last() as u32) - ('0' as u32)) as nat
    }
}

/// An octet in decimal notation as std reads it: one to three digits, no
/// leading zero, a value of at most 255.
pub open spec fn is_octet_text(p: Seq<char>) -> bool {
    &&& 1 <= p.len() <= 3
    &&& forall|i: int| 0 <= i < p.len() ==> is_digit(#[trigger] p[i])
    &&& (p.len() == 1 || p[0] != '0')
    &&& decimal_value(p) <= 255
}

/// The octets of a dotted-decimal IPv4 address (`Ipv4Addr::from_str`): four
/// octets in decimal notation separated by dots, nothing else.
pub open spec fn ipv4_octets(s: Seq<char>) -> Option<(u8, u8, u8, u8)> {
    let ps = split_on(s, '.');
    if ps.len() == 4 && is_octet_text(ps[0]) && is_octet_text(ps[1]) && is_octet_text(ps[2])
        && is_octet_text(ps[3]) {
        Some(
            (
                decimal_value(ps[0]) as u8,
                decimal_value(ps[1]) as u8,
                decimal_value(ps[2]) as u8,
                decimal_value(ps[3]) as u8,
            ),
        )
    } else {
        None
    }
}

/// An address of a private network, the loopback, link-local or unspecified
/// address, or a multicast address (`Ipv4Addr::is_private`, `is_loopback`,
/// `is_link_local`, `is_unspecified` and `is_multicast`, as std documents them).
pub open spec fn is_reserved(o: (u8, u8, u8, u8)) -> bool {
    ||| o.0 == 10
    ||| o.0 == 172 && 16 <= o.1 <= 31
    ||| o.0 == 192 && o.1 == 168
    ||| o.0 == 127
    ||| o.0 == 169 && o.1 == 254
    ||| o.0 == 0 && o.1 == 0 && o.2 == 0 && o.3 == 0
    ||| 224 <= o.0 <= 239
}

/// Whether the address `o` lies in one of the reserved ranges.
pub fn reserved_address(o: (u8, u8, u8, u8)) -> (r: bool)
    ensures
        r == is_reserved(o),
{
    let (a, b, c, d): (u8, u8, u8, u8) = o;
    a == 10 || (a == 172 && 16 <= b && b <= 31) || (a == 192 && b == 168) || a == 127 || (a == 169
        && b == 254) || (a == 0 && b == 0 && c == 0 && d == 0) || (224 <= a && a <= 239)
}

/// The pieces of `v` between the occurrences of `sep`.
pub fn split_chars(v: &[char], sep: char) -> (r: Vec<Vec<char>>)
    ensures
        r.deep_view() == split_on(v@, sep),
{
    let mut done: Vec<Vec<char>> = Vec::new();
    let mut cur: Vec<char> = Vec::new();
    let mut i: usize = 0;
    while i < v.len()
        invariant
            i <= v@.len(),
            (done.deep_view(), cur@) == split_state(v@.take(i as int), sep),
        decreases v@.len() - i,
    {
        assert(v@.take(i + 1).drop_last() =~= v@.take(i as int));
        let c = v[i];
        if c == sep {
            let ghost dv = done.deep_view();
            let w = cur;
            assert(w.deep_view() =~= w@);
            done.push(w);
            assert(done.deep_view() =~= dv.push(w@));
            cur = Vec::new();
            assert(cur@ =~= Seq::<char>::empty());
        } else {
            cur.push(c);
        }
        i = i + 1;
    }
    assert(v@.take(i as int) =~= v@);
    let ghost dv = done.deep_view();
    let ghost cv = cur@;
    assert(cur.deep_view() =~= cv);
    done.push(cur);
    assert(done.deep_view() =~= dv.push(cv));
    done
}

/// The octet that `p` writes, when it is an octet in decimal notation.
fn parse_octet(p: &[char]) -> (r: Option<u8>)
    ensures
        r == (if is_octet_text(p@) {
            Some(decimal_value(p@) as u8)
        } else {
            None
        }),
{
    if p.len() == 0 || p.len() > 3 {
        return None;
    }
    if p.len() > 1 && p[0] == '0' {
        return None;
    }
    let mut value: u32 = 0;
    let mut i: usize = 0;
    while i < p.len()
        invariant
            1 <= p@.len() <= 3,
            i <= p@.len(),
            forall|k: int| 0 <= k < i ==> is_digit(#[trigger] p@[k]),
            value == decimal_value(p@.take(i as int)),
            i == 0 ==> value == 0,
            i == 1 ==> value < 10,
            i == 2 ==> value < 100,
            i == 3 ==> value < 1000,
        decreases p@.len() - i,
    {
        let c = p[i];
        if c < '0' || c > '9' {
            return None;
        }
        assert(p@.take(i + 1).drop_last() =~= p@.take(i as int));
        value = value * 10 + ((c as u32) - ('0' as u32));
        i = i + 1;
    }
    assert(p@.take(i as int) =~= p@);
    if value > 255 {
        return None;
    }
    Some(value as u8)
}

/// The octets of `host` when it is a dotted-decimal IPv4 address
/// (`str::parse::<Ipv4Addr>`).
pub fn parse_ipv4(host: &[char]) -> (r: Option<(u8, u8, u8, u8)>)
    ensures
        r == ipv4_octets(host@),
{
    let parts = split_chars(host, '.');
    if parts.len() != 4 {
        return None;
    }
    proof {
        assert forall|k: int| 0 <= k < 4 implies (#[trigger] parts@[k])@ == split_on(host@, '.')[k] by {
            assert(parts@[k].deep_view() =~= parts@[k]@);
        }
    }
    let a = parse_octet(parts[0].as_slice());
    let b = parse_octet(parts[1].as_slice());
    let c = parse_octet(parts[2].as_slice());
    let d = parse_octet(parts[3].as_slice());
    match (a, b, c, d) {
        (Some(a), Some(b), Some(c), Some(d)) => Some((a, b, c, d)),
        _ => None,
    }
}


/// The dotted-decimal writing of an address (as `Ipv4Addr` displays it).
pub open spec fn dotted(o: (u8, u8, u8, u8)) -> Seq<char> {
    decimal(o.0 as nat) + seq!['.'] + decimal(o.1 as nat) + seq!['.'] + decimal(o.2 as nat)
        + seq!['.'] + decimal(o.3 as nat)
}

proof fn lemma_digit_char(d: nat)
    requires
        d < 10,
    ensures
        is_digit((('0' as u32) + d) as char),
        (((('0' as u32) + d) as char) as u32) - ('0' as u32) == d,
        (('0' as u32) + d) as char != '.',
        d > 0 ==> (('0' as u32) + d) as char != '0',
{
}

proof fn lemma_decimal_octet(n: nat)
    requires
        n < 1000,
    ensures
        1 <= decimal(n).len() <= 3,
        n < 10 ==> decimal(n).len() == 1,
        n < 100 ==> decimal(n).len() <= 2,
        n >= 10 ==> decimal(n).len() >= 2,
        forall|i: int| 0 <= i < decimal(n).len() ==> is_digit(#[trigger] decimal(n)[i]),
        decimal(n).len() == 1 || decimal(n)[0] != '0',
        decimal_value(decimal(n)) == n,
    decreases n,
{
    if n < 10 {
        lemma_digit_char(n);
        let c = (('0' as u32) + n) as char;
        assert(decimal(n) == seq![c]);
        assert(decimal(n).drop_last() =~= Seq::<char>::empty());
        assert(decimal(n).last() == c);
        assert(decimal_value(Seq::<char>::empty()) == 0);
        assert(decimal_value(decimal(n)) == 0 * 10 + (((c as u32) - ('0' as u32)) as nat));
    } else {
        let q: nat = n / 10;
        let d: nat = n % 10;
        assert(n == q * 10 + d && 1 <= q < 100) by (nonlinear_arith)
            requires
                q == n / 10,
                d == n % 10,
                10 <= n < 1000,
        ;
        lemma_decimal_octet(q);
        lemma_digit_char(d);
        let x = decimal(q);
        let c = (('0' as u32) + d) as char;
        assert(decimal(n) == x + seq![c]);
        assert((x + seq![c]).drop_last() =~= x);
        assert forall|i: int| 0 <= i < decimal(n).len() implies is_digit(#[trigger] decimal(n)[i]) by {
            if i < x.len() {
                assert(decimal(n)[i] == x[i]);
            }
        }
        assert(decimal(n)[0] == x[0]);
        if q < 10 {
            lemma_digit_char(q);
            assert(x == seq![(('0' as u32) + q) as char]);
        }
        assert((x + seq![c]).last() == c);
        assert(decimal_value(x + seq![c]) == decimal_value(x) * 10 + d);
        assert(decimal_value(decimal(n)) == q * 10 + d);
    }
}

proof fn lemma_split_no_sep(s: Seq<char>, t: Seq<char>, sep: char)
    requires
        forall|i: int| 0 <= i < t.len() ==> #[trigger] t[i] != sep,
    ensures
        split_state(s + t, sep) == (split_state(s, sep).0, split_state(s, sep).1 + t),
    decreases t.len(),
{
    if t.len() == 0 {
        assert(s + t =~= s);
        assert(split_state(s, sep).1 + t =~= split_state(s, sep).1);
    } else {
        lemma_split_no_sep(s, t.drop_last(), sep);
        assert((s + t).drop_last() =~= s + t.drop_last());
        assert(t.last() == t[t.len() - 1]);
        assert((split_state(s, sep).1 + t.drop_last()).push(t.last()) =~= split_state(s, sep).1
            + t);
    }
}

proof fn lemma_split_after_sep(s: Seq<char>, t: Seq<char>, sep: char)
    requires
        forall|i: int| 0 <= i < t.len() ==> #[trigger] t[i] != sep,
    ensures
        split_state(s + seq![sep] + t, sep) == (
            split_state(s, sep).0.push(split_state(s, sep).1),
            t,
        ),
{
    let st = split_state(s, sep);
    assert((s + seq![sep]).drop_last() =~= s);
    assert(split_state(s + seq![sep], sep) == (st.0.push(st.1), Seq::<char>::empty()));
    lemma_split_no_sep(s + seq![sep], t, sep);
    assert(Seq::<char>::empty() + t =~= t);
}

proof fn lemma_decimal_has_no_dot(n: nat)
    requires
        n < 1000,
    ensures
        forall|i: int| 0 <= i < decimal(n).len() ==> #[trigger] decimal(n)[i] != '.',
{
    lemma_decimal_octet(n);
    assert forall|i: int| 0 <= i < decimal(n).len() implies #[trigger] decimal(n)[i] != '.' by {
        assert(is_digit(decimal(n)[i]));
    }
}

/// Reading the dotted-decimal writing of an address gives the address back.
pub proof fn lemma_ipv4_round_trip(o: (u8, u8, u8, u8))
    ensures
        ipv4_octets(dotted(o)) == Some(o),
{
    let a = decimal(o.0 as nat);
    let b = decimal(o.1 as nat);
    let c = decimal(o.2 as nat);
    let d = decimal(o.3 as nat);
    lemma_decimal_octet(o.0 as nat);
    lemma_decimal_octet(o.1 as nat);
    lemma_decimal_octet(o.2 as nat);
    lemma_decimal_octet(o.3 as nat);
    lemma_decimal_has_no_dot(o.0 as nat);
    lemma_decimal_has_no_dot(o.1 as nat);
    lemma_decimal_has_no_dot(o.2 as nat);
    lemma_decimal_has_no_dot(o.3 as nat);
    lemma_split_no_sep(Seq::empty(), a, '.');
    assert(Seq::<char>::empty() + a =~= a);
    assert(split_state(Seq::<char>::empty(), '.') == (Seq::<Seq<char>>::empty(), Seq::<char>::empty()));
    assert(Seq::<char>::empty() + a =~= a);
    lemma_split_after_sep(a, b, '.');
    lemma_split_after_sep(a + seq!['.'] + b, c, '.');
    lemma_split_after_sep(a + seq!['.'] + b + seq!['.'] + c, d, '.');
    let ps = split_on(dotted(o), '.');
    assert(ps =~= seq![a, b, c, d]);
}


/// Joining the pieces of a split with the separator gives the text back.
pub proof fn lemma_split_join(s: Seq<char>, sep: char)
    ensures
        join(split_on(s, sep), seq![sep]) == s,
    decreases s.len(),
{
    if s.len() == 0 {
        assert(split_on(s, sep) =~= seq![Seq::<char>::empty()]);
        assert(join(seq![Seq::<char>::empty()], seq![sep]) == Seq::<char>::empty());
        assert(s =~= Seq::<char>::empty());
    } else {
        let p = s.drop_last();
        let c = s.last();
        lemma_split_join(p, sep);
        let st = split_state(p, sep);
        let front = st.0.push(st.1);
        assert(join(front, seq![sep]) == p);
        if c == sep {
            let ps = front.push(Seq::<char>::empty());
            assert(split_on(s, sep) == ps);
            assert(ps.drop_last() =~= front);
            assert(join(ps, seq![sep]) == p + seq![sep] + Seq::<char>::empty());
            assert(p + seq![sep] + Seq::<char>::empty() =~= s);
        } else {
            let ps = st.0.push(st.1.push(c));
            assert(split_on(s, sep) == ps);
            if st.0.len() == 0 {
                assert(join(front, seq![sep]) == st.1);
                assert(join(ps, seq![sep]) == st.1.push(c));
                assert(st.1.push(c) =~= s);
            } else {
                assert(ps.drop_last() =~= st.0);
                assert(front.drop_last() =~= st.0);
                assert(join(ps, seq![sep]) == join(st.0, seq![sep]) + seq![sep] + st.1.push(c));
                assert(join(front, seq![sep]) == join(st.0, seq![sep]) + seq![sep] + st.1);
                assert(join(st.0, seq![sep]) + seq![sep] + st.1.push(c) =~= p.push(c));
                assert(p.push(c) =~= s);
            }
        }
    }
}

proof fn lemma_digit_of_char(c: char)
    requires
        is_digit(c),
    ensures
        (((c as u32) - ('0' as u32)) as nat) < 10,
        ((('0' as u32) + (((c as u32) - ('0' as u32)) as nat)) as char) == c,
        c != '0' ==> (((c as u32) - ('0' as u32)) as nat) > 0,
{
}

proof fn lemma_octet_canonical(p: Seq<char>)
    requires
        is_octet_text(p),
    ensures
        decimal(decimal_value(p)) == p,
        p.len() >= 2 ==> decimal_value(p) >= 10,
    decreases p.len(),
{
    let q = p.drop_last();
    let c = p.last();
    assert(is_digit(p[p.len() - 1]));
    lemma_digit_of_char(c);
    let d: nat = ((c as u32) - ('0' as u32)) as nat;
    let v: nat = decimal_value(p);
    assert(v == decimal_value(q) * 10 + d);
    if p.len() == 1 {
        assert(q =~= Seq::<char>::empty());
        assert(v == d);
        assert(decimal(v) == seq![(('0' as u32) + d) as char]);
        assert(p =~= seq![c]);
    } else {
        assert forall|i: int| 0 <= i < q.len() implies is_digit(#[trigger] q[i]) by {
            assert(q[i] == p[i]);
        }
        assert(q[0] == p[0]);
        assert(decimal_value(q) * 10 <= 255);
        if q.len() == 1 {
            assert(is_digit(q[0]));
            lemma_digit_of_char(q[0]);
            assert(q.drop_last() =~= Seq::<char>::empty());
            assert(q.last() == q[0]);
            assert(decimal_value(q) >= 1);
        }
        assert(is_octet_text(q));
        lemma_octet_canonical(q);
        if q.len() >= 2 {
            assert(decimal_value(q) >= 10);
        }
        assert(decimal_value(q) >= 1);
        let w: nat = decimal_value(q);
        assert(v >= 10);
        assert(v / 10 == w && v % 10 == d) by (nonlinear_arith)
            requires
                v == w * 10 + d,
                d < 10,
        ;
        assert(decimal(v) == decimal(w) + seq![(('0' as u32) + d) as char]);
        assert(q + seq![c] =~= p);
    }
}

/// The only text that reads as an address is its dotted-decimal writing: no
/// leading zero, no extra character.
pub proof fn lemma_ipv4_canonical(s: Seq<char>)
    ensures
        ipv4_octets(s) matches Some(o) ==> s == dotted(o),
{
    if let Some(o) = ipv4_octets(s) {
        let ps = split_on(s, '.');
        lemma_split_join(s, '.');
        lemma_octet_canonical(ps[0]);
        lemma_octet_canonical(ps[1]);
        lemma_octet_canonical(ps[2]);
        lemma_octet_canonical(ps[3]);
        assert(decimal(o.0 as nat) == ps[0]);
        assert(decimal(o.1 as nat) == ps[1]);
        assert(decimal(o.2 as nat) == ps[2]);
        assert(decimal(o.3 as nat) == ps[3]);
        let sep = seq!['.'];
        let p3 = ps.drop_last();
        let p2 = p3.drop_last();
        let p1 = p2.drop_last();
        assert(p1 =~= seq![ps[0]]);
        assert(join(p1, sep) == ps[0]);
        assert(p2.last() == ps[1]);
        assert(join(p2, sep) == ps[0] + sep + ps[1]);
        assert(p3.last() == ps[2]);
        assert(join(p3, sep) == ps[0] + sep + ps[1] + sep + ps[2]);
        assert(join(ps, sep) == ps[0] + sep + ps[1] + sep + ps[2] + sep + ps[3]);
    }
}


/// No piece of a split holds the separator.
pub proof fn lemma_split_pieces_no_sep(s: Seq<char>, sep: char)
    ensures
        forall|i: int, k: int|
            0 <= i < split_on(s, sep).len() && 0 <= k < split_on(s, sep)[i].len() ==> #[trigger] split_on(
                s,
                sep,
            )[i][k] != sep,
    decreases s.len(),
{
    if s.len() > 0 {
        lemma_split_pieces_no_sep(s.drop_last(), sep);
        let st = split_state(s.drop_last(), sep);
        let prev = st.0.push(st.1);
        assert(prev == split_on(s.drop_last(), sep));
        let ps = split_on(s, sep);
        assert forall|i: int, k: int| 0 <= i < ps.len() && 0 <= k < ps[i].len() implies #[trigger] ps[i][k] != sep by {
            if s.last() == sep {
                if i < prev.len() {
                    assert(ps[i] == prev[i]);
                    assert(split_on(s.drop_last(), sep)[i][k] != sep);
                }
            } else {
                if i < st.0.len() {
                    assert(ps[i] == prev[i]);
                    assert(split_on(s.drop_last(), sep)[i][k] != sep);
                } else {
                    assert(ps[i] == st.1.push(s.last()));
                    if k < st.1.len() {
                        assert(prev[st.0.len() as int] == st.1);
                        assert(split_on(s.drop_last(), sep)[st.0.len() as int][k] != sep);
                    }
                }
            }
        }
    }
}

/// Splitting pieces joined by the separator gives the pieces back, when no
/// piece holds the separator.
pub proof fn lemma_join_split(q: Seq<Seq<char>>, sep: char)
    requires
        q.len() >= 1,
        forall|i: int, k: int| 0 <= i < q.len() && 0 <= k < q[i].len() ==> #[trigger] q[i][k] != sep,
    ensures
        split_on(join(q, seq![sep]), sep) == q,
    decreases q.len(),
{
    if q.len() == 1 {
        assert forall|k: int| 0 <= k < q[0].len() implies #[trigger] q[0][k] != sep by {
            assert(q[0][k] != sep);
        }
        lemma_split_no_sep(Seq::empty(), q[0], sep);
        assert(Seq::<char>::empty() + q[0] =~= q[0]);
        assert(split_state(Seq::<char>::empty(), sep) == (Seq::<Seq<char>>::empty(), Seq::<char>::empty()));
        assert(Seq::<char>::empty() + q[0] =~= q[0]);
        assert(split_on(q[0], sep) =~= q);
    } else {
        let f = q.drop_last();
        assert forall|i: int, k: int| 0 <= i < f.len() && 0 <= k < f[i].len() implies #[trigger] f[i][k] != sep by {
            assert(f[i] == q[i]);
            assert(q[i][k] != sep);
        }
        lemma_join_split(f, sep);
        let l = q.last();
        assert forall|k: int| 0 <= k < l.len() implies #[trigger] l[k] != sep by {
            assert(l == q[q.len() - 1]);
            assert(q[q.len() - 1][k] != sep);
        }
        lemma_split_after_sep(join(f, seq![sep]), l, sep);
        assert(join(q, seq![sep]) == join(f, seq![sep]) + seq![sep] + l);
        assert(split_on(join(q, seq![sep]), sep) =~= f.push(l));
        assert(f.push(l) =~= q);
    }
}

} // verus!
