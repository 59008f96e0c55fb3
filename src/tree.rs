//! A snapshot of a directory tree, and the vault search and note count over it.
use crate::text::{same_text, starts_hidden, starts_with_dot};
use vstd::prelude::*;

verus! {

broadcast use vstd::std_specs::vec::axiom_vec_index_decreases;

/// One directory as read from disk: its name, its full path, the names of
/// the files directly in it and its subdirectories. A directory that could
/// not be read is given with no files and no subdirectories.
pub struct DirNode {
    pub name: String,
    pub path: String,
    pub files: Vec<String>,
    pub subdirs: Vec<DirNode>,
}

/// The strings of `v`, as character sequences.
pub open spec fn views(v: Seq<String>) -> Seq<Seq<char>> {
    v.map_values(|s: String| s@)
}

/// Directory names that the vault search never enters: hidden ones,
/// dependency caches, build output and system library folders.
pub open spec fn pruned(name: Seq<char>) -> bool {
    starts_hidden(name) || name == "node_modules"@ || name == "Library"@ || name == "dist"@
        || name == "target"@
}

/// `d` directly holds the vault marker directory.
pub open spec fn is_vault(d: DirNode) -> bool {
    exists|i: int| 0 <= i < d.subdirs@.len() && (#[trigger] d.subdirs@[i]).name@ == ".obsidian"@
}

/// The vaults found from `d`, inspected at `depth`, searching down to `max`:
/// a vault is reported and not entered; below `max` the subdirectories whose
/// names are not pruned are searched in order.
pub open spec fn vaults_of(d: DirNode, depth: nat, max: nat) -> Seq<Seq<char>>
    decreases d, d.subdirs@.len() + 1,
{
    if depth > max {
        Seq::empty()
    } else if is_vault(d) {
        seq![d.path@]
    } else if depth == max {
        Seq::empty()
    } else {
        vaults_among(d, d.subdirs@.len() as int, depth + 1, max)
    }
}

/// The vaults found under the first `k` subdirectories of `d`, each at `depth`.
pub open spec fn vaults_among(d: DirNode, k: int, depth: nat, max: nat) -> Seq<Seq<char>>
    decreases d, k,
{
    if k <= 0 || k > d.subdirs@.len() {
        Seq::empty()
    } else {
        let c = d.subdirs@[k - 1];
        vaults_among(d, k - 1, depth, max) + if pruned(c.name@) {
            Seq::empty()
        } else {
            vaults_of(c, depth, max)
        }
    }
}

/// A file name that ends in the note extension `.md` after a non-empty stem.
pub open spec fn is_note(name: Seq<char>) -> bool {
    name.len() >= 4 && name.subrange(name.len() - 3, name.len() as int) == ".md"@
}

/// How many of the first `k` names of `files` are notes.
pub open spec fn notes_in(files: Seq<String>, k: int) -> nat
    decreases k,
{
    if k <= 0 || k > files.len() {
        0
    } else {
        notes_in(files, k - 1) + if is_note(files[k - 1]@) {
            1nat
        } else {
            0nat
        }
    }
}

/// The notes in `d` and in all its subdirectories that are not hidden.
pub open spec fn note_count(d: DirNode) -> nat
    decreases d, d.subdirs@.len() + 1,
{
    notes_in(d.files@, d.files@.len() as int) + notes_among(d, d.subdirs@.len() as int)
}

/// The notes under the first `k` subdirectories of `d`, hidden ones left out.
pub open spec fn notes_among(d: DirNode, k: int) -> nat
    decreases d, k,
{
    if k <= 0 || k > d.subdirs@.len() {
        0
    } else {
        let c = d.subdirs@[k - 1];
        notes_among(d, k - 1) + if starts_hidden(c.name@) {
            0
        } else {
            note_count(c)
        }
    }
}

/// `n`, or the largest `usize` where `n` is larger.
pub open spec fn capped(n: nat) -> nat {
    if n > usize::MAX {
        usize::MAX as nat
    } else {
        n
    }
}

/// The vault search does not enter a directory of this name.
pub fn is_pruned(name: &str) -> (r: bool)
    ensures
        r == pruned(name@),
{
    starts_with_dot(name) || same_text(name, "node_modules") || same_text(name, "Library")
        || same_text(name, "dist") || same_text(name, "target")
}

/// `d` directly holds the vault marker directory.
pub fn has_marker(d: &DirNode) -> (r: bool)
    ensures
        r == is_vault(*d),
{
    let mut i: usize = 0;
    while i < d.subdirs.len()
        invariant
            0 <= i <= d.subdirs@.len(),
            forall|j: int| 0 <= j < i ==> (#[trigger] d.subdirs@[j]).name@ != ".obsidian"@,
        decreases d.subdirs@.len() - i,
    {
        if same_text(d.subdirs[i].name.as_str(), ".obsidian") {
            return true;
        }
        i = i + 1;
    }
    false
}

fn scan_into(d: &DirNode, depth: usize, max_depth: usize, out: &mut Vec<String>)
    requires
        depth <= max_depth,
    ensures
        views(final(out)@) == views(old(out)@) + vaults_of(*d, depth as nat, max_depth as nat),
    decreases d,
{
    if has_marker(d) {
        proof {
            assert(views(out@.push(d.path)) =~= views(out@) + seq![d.path@]);
        }
        out.push(d.path.clone());
        return ;
    }
    if depth == max_depth {
        assert(views(out@) =~= views(out@) + Seq::<Seq<char>>::empty());
        return ;
    }
    let ghost start = views(out@);
    let mut i: usize = 0;
    while i < d.subdirs.len()
        invariant
            depth < max_depth,
            0 <= i <= d.subdirs@.len(),
            views(out@) == start + vaults_among(*d, i as int, (depth + 1) as nat, max_depth as nat),
        decreases d.subdirs@.len() - i,
    {
        let c = &d.subdirs[i];
        if is_pruned(c.name.as_str()) {
            assert(views(out@) =~= views(out@) + Seq::<Seq<char>>::empty());
        } else {
            scan_into(c, depth + 1, max_depth, out);
        }
        proof {
            assert(start + vaults_among(*d, i + 1, (depth + 1) as nat, max_depth as nat) =~= start
                + vaults_among(*d, i as int, (depth + 1) as nat, max_depth as nat) + (if pruned(
                c.name@,
            ) {
                Seq::<Seq<char>>::empty()
            } else {
                vaults_of(*c, (depth + 1) as nat, max_depth as nat)
            }));
        }
        i = i + 1;
    }
}

/// The paths of the vaults at and below `root`, searched down to `max_depth`
/// levels: the root is always inspected whatever its name; a vault is
/// reported and not entered; pruned directories are not entered at all.
pub fn walkdir_scan(root: &DirNode, max_depth: usize) -> (r: Vec<String>)
    ensures
        views(r@) == vaults_of(*root, 0, max_depth as nat),
{
    let mut out: Vec<String> = Vec::new();
    scan_into(root, 0, max_depth, &mut out);
    assert(views(Seq::<String>::empty()) =~= Seq::<Seq<char>>::empty());
    assert(Seq::<Seq<char>>::empty() + vaults_of(*root, 0, max_depth as nat) =~= vaults_of(
        *root,
        0,
        max_depth as nat,
    ));
    out
}

/// The file name carries the note extension.
pub fn is_note_name(name: &str) -> (r: bool)
    ensures
        r == is_note(name@),
{
    let cs = crate::text::chars_of(name);
    let n = cs.len();
    if n < 4 {
        return false;
    }
    let r = cs[n - 3] == '.' && cs[n - 2] == 'm' && cs[n - 1] == 'd';
    proof {
        reveal_strlit(".md");
        let tail = cs@.subrange(n - 3, n as int);
        if r {
            assert(tail =~= ".md"@);
        } else if tail == ".md"@ {
            assert(tail[0] == '.' && tail[1] == 'm' && tail[2] == 'd');
        }
    }
    r
}

/// The notes in `d` and under its subdirectories that are not hidden,
/// counted up to the largest `usize`.
pub fn count_markdown_files(d: &DirNode) -> (r: usize)
    ensures
        r as nat == capped(note_count(*d)),
    decreases d,
{
    let mut count: usize = 0;
    let mut i: usize = 0;
    while i < d.files.len()
        invariant
            0 <= i <= d.files@.len(),
            count as nat == capped(notes_in(d.files@, i as int)),
        decreases d.files@.len() - i,
    {
        if is_note_name(d.files[i].as_str()) {
            count = count.saturating_add(1);
        }
        i = i + 1;
    }
    let ghost files = notes_in(d.files@, d.files@.len() as int);
    let mut k: usize = 0;
    while k < d.subdirs.len()
        invariant
            0 <= k <= d.subdirs@.len(),
            files == notes_in(d.files@, d.files@.len() as int),
            count as nat == capped(files + notes_among(*d, k as int)),
        decreases d.subdirs@.len() - k,
    {
        let c = &d.subdirs[k];
        if !starts_with_dot(c.name.as_str()) {
            let sub = count_markdown_files(c);
            count = count.saturating_add(sub);
        }
        k = k + 1;
    }
    count
}

/// With no depth to descend, only the root itself is inspected: it is
/// reported if it is a vault, and nothing else is.
pub proof fn lemma_depth_zero_root_only(root: DirNode)
    ensures
        vaults_of(root, 0, 0) == (if is_vault(root) {
            seq![root.path@]
        } else {
            Seq::empty()
        }),
{
}

/// A vault is not entered: whatever lies beneath it, the search from it
/// reports its own path and nothing nested inside it.
pub proof fn lemma_vault_hides_nested(d: DirNode, depth: nat, max: nat)
    requires
        is_vault(d),
        depth <= max,
    ensures
        vaults_of(d, depth, max) == seq![d.path@],
{
}

} // verus!
