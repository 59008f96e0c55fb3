//! Vault discovery across the scan roots under a home directory: the vault
//! records, and their de-duplication by path.
use crate::text::{lemma_lex_total, lex_le, same_text, text_le};
use vstd::prelude::*;
use vstd::string::StringExecFns;

verus! {

/// A vault found on disk: its folder name, its path and how many notes it holds.
pub struct ObsidianVault {
    pub name: String,
    pub path: String,
    pub note_count: usize,
}

/// The last component of a path.
pub uninterp spec fn file_name_of(p: Seq<char>) -> Seq<char>;

/// Relies on std::path::Path::file_name: the final component of the path,
/// empty where there is none (a root, or a path ending in `..`).
#[verifier::external_body]
fn final_component(p: &str) -> (r: String)
    ensures
        r@ == file_name_of(p@),
{
    std::path::Path::new(p).file_name().unwrap_or_default().to_string_lossy().to_string()
}

/// The record of the vault at `path`, named after its last component.
pub fn vault_at(path: String, note_count: usize) -> (v: ObsidianVault)
    ensures
        v.path@ == path@,
        v.name@ == file_name_of(path@),
        v.note_count == note_count,
{
    let name = final_component(path.as_str());
    ObsidianVault { name, path, note_count }
}

/// The places searched for vaults, in order.
pub open spec fn roots_of(home: Seq<char>) -> Seq<Seq<char>> {
    seq![home + "/Documents"@, home + "/Desktop"@, home + "/Obsidian"@, home]
}

/// The scan roots under `home`: its Documents, Desktop and Obsidian folders,
/// then `home` itself.
pub fn scan_roots(home: &str) -> (r: Vec<String>)
    ensures
        r@.len() == 4,
        forall|i: int| 0 <= i < 4 ==> #[trigger] r@[i]@ == roots_of(home@)[i],
{
    let h = String::from_str(home);
    let r = vec![
        h.clone().concat("/Documents"),
        h.clone().concat("/Desktop"),
        h.clone().concat("/Obsidian"),
        h,
    ];
    r
}

/// The well-known folders of a user.
pub struct UserDirectories {
    pub home: String,
    pub desktop: String,
    pub documents: String,
    pub downloads: String,
}

/// The well-known folders under `home`.
pub fn user_directories(home: &str) -> (r: UserDirectories)
    ensures
        r.home@ == home@,
        r.desktop@ == home@ + "/Desktop"@,
        r.documents@ == home@ + "/Documents"@,
        r.downloads@ == home@ + "/Downloads"@,
{
    let h = String::from_str(home);
    UserDirectories {
        desktop: h.clone().concat("/Desktop"),
        documents: h.clone().concat("/Documents"),
        downloads: h.clone().concat("/Downloads"),
        home: h,
    }
}

/// Paths ascend from each vault to the next.
pub open spec fn path_sorted(s: Seq<ObsidianVault>) -> bool {
    forall|i: int| 0 <= i < s.len() - 1 ==> lex_le(#[trigger] s[i].path@, s[i + 1].path@)
}

/// No two vaults share a path.
pub open spec fn distinct_paths(s: Seq<ObsidianVault>) -> bool {
    forall|i: int, j: int| 0 <= i < j < s.len() ==> #[trigger] s[i].path@ != #[trigger] s[j].path@
}

/// `v` is one of the vaults of `s`.
pub open spec fn among(v: ObsidianVault, s: Seq<ObsidianVault>) -> bool {
    exists|j: int| 0 <= j < s.len() && s[j] == v
}

/// Some vault of `s` has the path `p`.
pub open spec fn has_path(s: Seq<ObsidianVault>, p: Seq<char>) -> bool {
    exists|i: int| 0 <= i < s.len() && s[i].path@ == p
}

/// The vaults of `found`, one per path (the first one met), in order of path.
pub fn dedup_vaults(found: Vec<ObsidianVault>) -> (r: Vec<ObsidianVault>)
    ensures
        distinct_paths(r@),
        path_sorted(r@),
        forall|i: int| 0 <= i < r@.len() ==> among(#[trigger] r@[i], found@),
        forall|j: int| 0 <= j < found@.len() ==> has_path(r@, #[trigger] found@[j].path@),
{
    let ghost src = found@;
    let mut out: Vec<ObsidianVault> = Vec::new();
    let mut rest = found;
    let ghost mut done: int = 0;
    while rest.len() > 0
        invariant
            0 <= done <= src.len(),
            rest@ == src.skip(done),
            distinct_paths(out@),
            path_sorted(out@),
            forall|i: int| 0 <= i < out@.len() ==> among(#[trigger] out@[i], src),
            forall|j: int| 0 <= j < done ==> has_path(out@, #[trigger] src[j].path@),
        decreases rest@.len(),
    {
        let x = rest.remove(0);
        assert(x == src[done]);
        let ghost prev = out@;
        let mut k: usize = 0;
        let mut seen = false;
        while k < out.len()
            invariant
                0 <= k <= out@.len(),
                out@ == prev,
                !seen ==> forall|m: int| 0 <= m < k ==> (#[trigger] out@[m]).path@ != x.path@,
                seen ==> exists|m: int| 0 <= m < out@.len() && (#[trigger] out@[m]).path@ == x.path@,
            decreases out@.len() - k,
        {
            if same_text(out[k].path.as_str(), x.path.as_str()) {
                seen = true;
            }
            k = k + 1;
        }
        if !seen {
            let mut p: usize = 0;
            while p < out.len() && text_le(out[p].path.as_str(), x.path.as_str())
                invariant
                    0 <= p <= out@.len(),
                    out@ == prev,
                    forall|j: int| 0 <= j < p ==> lex_le(#[trigger] out@[j].path@, x.path@),
                decreases out@.len() - p,
            {
                p = p + 1;
            }
            proof {
                if p < out@.len() {
                    lemma_lex_total(out@[p as int].path@, x.path@);
                }
            }
            out.insert(p, x);
            proof {
                assert forall|i: int| 0 <= i < out@.len() - 1 implies lex_le(
                    #[trigger] out@[i].path@,
                    out@[i + 1].path@,
                ) by {
                    if i < p - 1 {
                        assert(out@[i] == prev[i] && out@[i + 1] == prev[i + 1]);
                    } else if i == p - 1 {
                    } else if i == p {
                    } else {
                        assert(out@[i] == prev[i - 1] && out@[i + 1] == prev[i]);
                    }
                }
                assert forall|a: int, b: int| 0 <= a < b < out@.len() implies #[trigger] out@[a].path@
                    != #[trigger] out@[b].path@ by {
                    let pa = if a < p { a } else if a == p { -1 } else { a - 1 };
                    let pb = if b < p { b } else if b == p { -1 } else { b - 1 };
                    if pa >= 0 && pb >= 0 {
                        assert(out@[a] == prev[pa] && out@[b] == prev[pb]);
                    } else if pa >= 0 {
                        assert(out@[a] == prev[pa]);
                    } else {
                        assert(out@[b] == prev[pb]);
                    }
                }
                assert forall|i: int| 0 <= i < out@.len() implies among(#[trigger] out@[i], src) by {
                    if i < p {
                        assert(out@[i] == prev[i]);
                    } else if i == p {
                        assert(out@[i] == src[done]);
                    } else {
                        assert(out@[i] == prev[i - 1]);
                    }
                }
                assert forall|j: int| 0 <= j < done + 1 implies has_path(out@, #[trigger] src[j].path@) by {
                    if j == done {
                        assert(out@[p as int].path@ == src[j].path@);
                    } else {
                        assert(has_path(prev, src[j].path@));
                        let i = choose|i: int| 0 <= i < prev.len() && prev[i].path@ == src[j].path@;
                        if i < p {
                            assert(out@[i] == prev[i]);
                        } else {
                            assert(out@[i + 1] == prev[i]);
                        }
                    }
                }
            }
        }
        proof {
            done = done + 1;
            assert(rest@ =~= src.skip(done));
        }
    }
    assert(done == src.len());
    out
}

} // verus!
