//! Reported vaults never lie inside one another, as paths.
use crate::tree::{pruned, vaults_among, vaults_of, DirNode};
use vstd::prelude::*;

verus! {

broadcast use vstd::std_specs::vec::axiom_vec_index_decreases;

/// `p` names something strictly inside the directory `q`.
pub open spec fn under(p: Seq<char>, q: Seq<char>) -> bool {
    p.len() > q.len() && p.subrange(0, q.len() as int) == q && p[q.len() as int] == '/'
}

/// `p` is `q` itself or lies inside it.
pub open spec fn at_or_under(p: Seq<char>, q: Seq<char>) -> bool {
    p == q || under(p, q)
}

/// A directory entry name: not empty, and holding no separator.
pub open spec fn plain_name(n: Seq<char>) -> bool {
    n.len() > 0 && forall|i: int| 0 <= i < n.len() ==> n[i] != '/'
}

/// Each subdirectory's path is its parent's path, a separator and its name;
/// names are plain and differ between siblings; and so on all the way down.
pub open spec fn well_formed(d: DirNode) -> bool
    decreases d,
{
    &&& forall|i: int| 0 <= i < d.subdirs@.len() ==> plain_name(#[trigger] d.subdirs@[i].name@)
    &&& forall|i: int|
        0 <= i < d.subdirs@.len() ==> (#[trigger] d.subdirs@[i]).path@ == d.path@ + seq!['/']
            + d.subdirs@[i].name@
    &&& forall|i: int, j: int|
        0 <= i < j < d.subdirs@.len() ==> (#[trigger] d.subdirs@[i]).name@ != (#[trigger] d.subdirs@[j]).name@
    &&& forall|i: int| 0 <= i < d.subdirs@.len() ==> well_formed(#[trigger] d.subdirs@[i])
}

/// Some of the first `k` subdirectories of `d` holds `p`, at or under it.
pub open spec fn from_child(d: DirNode, k: int, p: Seq<char>) -> bool {
    exists|i: int| 0 <= i < k && at_or_under(p, d.subdirs@[i].path@)
}

/// No entry of `s` lies inside another.
pub open spec fn none_nested(s: Seq<Seq<char>>) -> bool {
    forall|a: int, b: int| 0 <= a < s.len() && 0 <= b < s.len() ==> !under(#[trigger] s[b], #[trigger] s[a])
}

/// What lies at or under two sibling directories of different names cannot
/// lie one inside the other.
proof fn lemma_siblings_apart(pp: Seq<char>, ni: Seq<char>, nj: Seq<char>, a: Seq<char>, b: Seq<char>)
    requires
        plain_name(ni),
        plain_name(nj),
        ni != nj,
        at_or_under(a, pp + seq!['/'] + ni),
        at_or_under(b, pp + seq!['/'] + nj),
    ensures
        !under(b, a),
{
    let ci = pp + seq!['/'] + ni;
    let cj = pp + seq!['/'] + nj;
    let l: int = pp.len() as int + 1;
    if under(b, a) {
        assert(b.len() > ci.len());
        assert forall|t: int| 0 <= t < ci.len() implies b[t] == ci[t] by {
            assert(b.subrange(0, a.len() as int)[t] == a[t]);
            if a != ci {
                assert(a.subrange(0, ci.len() as int)[t] == ci[t]);
            }
        }
        assert(b[ci.len() as int] == '/') by {
            if a != ci {
                assert(b.subrange(0, a.len() as int)[ci.len() as int] == a[ci.len() as int]);
            }
        }
        assert forall|t: int| 0 <= t < cj.len() implies b[t] == cj[t] by {
            if b != cj {
                assert(b.subrange(0, cj.len() as int)[t] == cj[t]);
            }
        }
        if ni.len() < nj.len() {
            assert(b[l + ni.len() as int] == '/');
            assert(cj[l + ni.len() as int] == nj[ni.len() as int]);
        } else if ni.len() > nj.len() {
            assert(b[l + nj.len() as int] == ci[l + nj.len() as int]);
            assert(ci[l + nj.len() as int] == ni[nj.len() as int]);
            assert(b != cj);
            assert(b[cj.len() as int] == '/');
        } else {
            assert forall|t: int| 0 <= t < ni.len() implies ni[t] == nj[t] by {
                assert(b[l + t] == ci[l + t]);
                assert(b[l + t] == cj[l + t]);
            }
            assert(ni =~= nj);
        }
    }
}

/// What lies at or under a subdirectory lies under its parent.
proof fn lemma_child_under(pp: Seq<char>, n: Seq<char>, p: Seq<char>)
    requires
        at_or_under(p, pp + seq!['/'] + n),
    ensures
        under(p, pp),
{
    let c = pp + seq!['/'] + n;
    assert forall|t: int| 0 <= t < pp.len() implies p[t] == pp[t] by {
        if p != c {
            assert(p.subrange(0, c.len() as int)[t] == c[t]);
        }
    }
    assert(p[pp.len() as int] == '/') by {
        if p != c {
            assert(p.subrange(0, c.len() as int)[pp.len() as int] == c[pp.len() as int]);
        }
    }
    assert(p.subrange(0, pp.len() as int) =~= pp);
}

/// The vaults found from a well-formed `d` lie at or under it, and none of
/// them lies inside another.
pub proof fn lemma_found_inside(d: DirNode, depth: nat, max: nat)
    requires
        well_formed(d),
    ensures
        forall|m: int| 0 <= m < vaults_of(d, depth, max).len() ==> at_or_under(
            #[trigger] vaults_of(d, depth, max)[m],
            d.path@,
        ),
        none_nested(vaults_of(d, depth, max)),
    decreases d, d.subdirs@.len() + 1,
{
    let r = vaults_of(d, depth, max);
    if depth <= max && !crate::tree::is_vault(d) && depth < max {
        let k = d.subdirs@.len() as int;
        lemma_among_inside(d, k, depth + 1, max);
        assert forall|m: int| 0 <= m < r.len() implies at_or_under(#[trigger] r[m], d.path@) by {
            let i = choose|i: int| 0 <= i < k && at_or_under(r[m], d.subdirs@[i].path@);
            lemma_child_under(d.path@, d.subdirs@[i].name@, r[m]);
        }
    } else if depth <= max && crate::tree::is_vault(d) {
        assert(r == seq![d.path@]);
    }
}

proof fn lemma_among_inside(d: DirNode, k: int, depth: nat, max: nat)
    requires
        well_formed(d),
        0 <= k <= d.subdirs@.len(),
    ensures
        forall|m: int| 0 <= m < vaults_among(d, k, depth, max).len() ==> from_child(
            d,
            k,
            #[trigger] vaults_among(d, k, depth, max)[m],
        ),
        none_nested(vaults_among(d, k, depth, max)),
    decreases d, k,
{
    if k > 0 {
        let c = d.subdirs@[k - 1];
        let front = vaults_among(d, k - 1, depth, max);
        let back = if pruned(c.name@) {
            Seq::<Seq<char>>::empty()
        } else {
            vaults_of(c, depth, max)
        };
        let r = vaults_among(d, k, depth, max);
        assert(r == front + back);
        lemma_among_inside(d, k - 1, depth, max);
        assert(well_formed(c));
        lemma_found_inside(c, depth, max);
        assert forall|m: int| 0 <= m < r.len() implies from_child(d, k, #[trigger] r[m]) by {
            if m < front.len() {
                assert(r[m] == front[m]);
                assert(from_child(d, k - 1, front[m]));
            } else {
                assert(r[m] == back[m - front.len()]);
                assert(at_or_under(r[m], c.path@));
            }
        }
        assert forall|a: int, b: int| 0 <= a < r.len() && 0 <= b < r.len() implies !under(
            #[trigger] r[b],
            #[trigger] r[a],
        ) by {
            if a < front.len() && b < front.len() {
                assert(r[a] == front[a] && r[b] == front[b]);
            } else if a >= front.len() && b >= front.len() {
                assert(r[a] == back[a - front.len()] && r[b] == back[b - front.len()]);
            } else {
                let (x, y) = if a < front.len() { (a, b) } else { (b, a) };
                assert(r[x] == front[x]);
                assert(from_child(d, k - 1, front[x]));
                let i = choose|i: int| 0 <= i < k - 1 && at_or_under(front[x], d.subdirs@[i].path@);
                assert(r[y] == back[y - front.len()]);
                assert(at_or_under(r[y], c.path@));
                let ci = d.subdirs@[i];
                assert(ci.name@ != c.name@);
                assert(plain_name(ci.name@) && plain_name(c.name@));
                lemma_siblings_apart(d.path@, ci.name@, c.name@, r[x], r[y]);
                lemma_siblings_apart(d.path@, c.name@, ci.name@, r[y], r[x]);
            }
        }
    }
}

/// The search never reports a vault nested inside another reported vault,
/// on a tree whose paths are built from plain, distinct names.
pub proof fn lemma_no_nested_vaults(root: DirNode, max_depth: nat)
    requires
        well_formed(root),
    ensures
        none_nested(vaults_of(root, 0, max_depth)),
{
    lemma_found_inside(root, 0, max_depth);
}

} // verus!
