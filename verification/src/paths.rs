//! The location of the Vertex workspace.
use vstd::prelude::*;
use crate::ipv4::{lemma_join_split, lemma_split_join, lemma_split_pieces_no_sep, split_on};
use crate::text::join;

verus! {

/// A name of a plain path: not empty, not `.` and not `..`.
pub open spec fn is_plain_name(n: Seq<char>) -> bool {
    n.len() > 0 && n != seq!['.'] && n != seq!['.', '.']
}

/// A plain path: names separated by single `/`, perhaps after a leading `/`,
/// with no `\` and no `:` (so no Windows prefix), no empty, `.` or `..` name
/// and no trailing `/`. Such a path means the same on every platform.
pub open spec fn is_plain_path(path: Seq<char>) -> bool {
    let ps = split_on(path, '/');
    &&& path.len() > 0
    &&& forall|i: int| 0 <= i < path.len() ==> #[trigger] path[i] != '\\' && path[i] != ':'
    &&& forall|i: int|
        0 <= i < ps.len() ==> (i == 0 && ps.len() > 1 && ps[i].len() == 0) || is_plain_name(
            #[trigger] ps[i],
        )
}

/// The parent of a plain path: the path before its last `/` (the root `/`
/// when that is the only `/`), or the empty path for a single name.
pub open spec fn plain_parent(path: Seq<char>) -> Seq<char> {
    let ps = split_on(path, '/');
    if ps.len() == 1 {
        Seq::empty()
    } else if ps.len() == 2 && ps[0].len() == 0 {
        seq!['/']
    } else {
        join(ps.drop_last(), seq!['/'])
    }
}

/// The workspace root of a plain crate directory: its grandparent, or the
/// directory itself when it has no grandparent.
pub open spec fn plain_root(path: Seq<char>) -> Seq<char> {
    let p = plain_parent(path);
    if p.len() == 0 || p == seq!['/'] {
        path
    } else {
        plain_parent(p)
    }
}

/// A path that starts at the root `/`.
pub open spec fn is_rooted(path: Seq<char>) -> bool {
    path.len() > 0 && path[0] == '/'
}

/// Calls `Path::parent` on `path`. Its result depends on the platform's path
/// syntax, so it gets no name. Claimed, as std documents it: the parent is the
/// path without its final component, a sub-slice of it, so a strictly shorter
/// prefix that keeps the root `/` of a rooted path; the empty path and the
/// root `/` have no parent; a plain path (which reads the same on every
/// platform) has the parent `plain_parent`, as the examples of `Path::parent`
/// show (`/foo/bar` has `/foo`, `/foo` has `/`, `foo` has the empty path).
#[verifier::external_body]
fn path_parent(path: &str) -> (r: Option<String>)
    ensures
        is_plain_path(path@) ==> r is Some,
        r matches Some(p) ==> (is_plain_path(path@) ==> p@ == plain_parent(path@)),
        r matches Some(p) ==> p@.len() < path@.len() && path@.take(p@.len() as int) == p@,
        is_rooted(path@) ==> (r matches Some(p) ==> is_rooted(p@)),
        path@.len() == 0 || path@ == seq!['/'] ==> r is None,
{
    std::path::Path::new(path).parent().and_then(|p| p.to_str()).map(|p| p.to_string())
}

/// The workspace root: the grandparent of the crate directory when it has
/// one, the crate directory itself otherwise.
pub fn root_from(manifest_dir: &str, grandparent: Option<String>) -> (r: String)
    ensures
        r@ == match grandparent {
            Some(g) => g@,
            None => manifest_dir@,
        },
{
    match grandparent {
        Some(g) => g,
        None => String::from_str(manifest_dir),
    }
}

/// The root of the Vertex workspace, independent of the current directory: a
/// crate lives in `<root>/apps/<crate>`, so the root is two levels above the
/// crate directory `manifest_dir` (or `manifest_dir` itself when it has no
/// such ancestor). The root is always a prefix of `manifest_dir`: either
/// `manifest_dir` itself or an ancestor at least two characters shorter; it
/// is `manifest_dir` for the empty path and for `/`, and it starts at the root
/// `/` whenever `manifest_dir` does.
pub fn workspace_root(manifest_dir: &str) -> (r: String)
    ensures
        r@.len() <= manifest_dir@.len(),
        manifest_dir@.take(r@.len() as int) == r@,
        r@ == manifest_dir@ || r@.len() + 2 <= manifest_dir@.len(),
        manifest_dir@.len() == 0 || manifest_dir@ == seq!['/'] ==> r@ == manifest_dir@,
        is_rooted(manifest_dir@) ==> is_rooted(r@),
        is_plain_path(manifest_dir@) ==> r@ == plain_root(manifest_dir@),
{
    let grandparent = match path_parent(manifest_dir) {
        Some(p) => {
            proof {
                if is_plain_path(manifest_dir@) {
                    lemma_plain_parent_plain(manifest_dir@);
                }
            }
            let g = path_parent(p.as_str());
            proof {
                if g is Some {
                    let gv = g->0;
                    assert(manifest_dir@.take(gv@.len() as int) =~= p@.take(gv@.len() as int));
                    if is_rooted(manifest_dir@) {
                        assert(p@[0] == manifest_dir@.take(p@.len() as int)[0]);
                        assert(gv@[0] == p@.take(gv@.len() as int)[0]);
                    }
                }
            }
            g
        },
        None => None,
    };
    let r = root_from(manifest_dir, grandparent);
    proof {
        if grandparent is None {
            assert(manifest_dir@.take(manifest_dir@.len() as int) =~= manifest_dir@);
        }
    }
    r
}


/// The parent of a plain path is the empty path, the root `/`, or a plain path.
proof fn lemma_plain_parent_plain(m: Seq<char>)
    requires
        is_plain_path(m),
    ensures
        plain_parent(m).len() == 0 || plain_parent(m) == seq!['/'] || is_plain_path(
            plain_parent(m),
        ),
        plain_parent(m).len() <= m.len(),
        m.take(plain_parent(m).len() as int) == plain_parent(m),
{
    let ps = split_on(m, '/');
    let sep = seq!['/'];
    lemma_split_join(m, '/');
    lemma_split_pieces_no_sep(m, '/');
    if ps.len() == 1 {
        assert(m.take(0) =~= Seq::<char>::empty());
    } else if ps.len() == 2 && ps[0].len() == 0 {
        assert(ps.drop_last() =~= seq![ps[0]]);
        assert(join(ps, sep) == join(ps.drop_last(), sep) + sep + ps.last());
        assert(join(ps.drop_last(), sep) == ps[0]);
        assert(m[0] == '/');
        assert(m.take(1) =~= seq!['/']);
    } else {
        let q = ps.drop_last();
        let p = join(q, sep);
        assert(join(ps, sep) == p + sep + ps.last());
        assert(m.take(p.len() as int) =~= p);
        assert forall|i: int, k: int| 0 <= i < q.len() && 0 <= k < q[i].len() implies #[trigger] q[i][k] != '/' by {
            assert(q[i] == ps[i]);
            assert(ps[i][k] != '/');
        }
        lemma_join_split(q, '/');
        assert(split_on(p, '/') == q);
        if p.len() != 0 && p != sep {
            assert forall|i: int| 0 <= i < p.len() implies #[trigger] p[i] != '\\' && p[i] != ':' by {
                assert(p[i] == m.take(p.len() as int)[i]);
                assert(m[i] != '\\' && m[i] != ':');
            }
            assert forall|i: int| 0 <= i < q.len() implies (i == 0 && q.len() > 1 && q[i].len() == 0)
                || is_plain_name(#[trigger] q[i]) by {
                assert(q[i] == ps[i]);
                if i == 0 && q.len() == 1 && q[0].len() == 0 {
                    assert(join(q, sep) == q[0]);
                }
            }
        }
    }
}

} // verus!
