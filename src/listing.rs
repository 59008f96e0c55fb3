//! Single-directory listings: hidden entries left out, each entry described,
//! directories first and then names in case-insensitive order.
use crate::mime::{guess_mime, mime_of};
use crate::text::{lemma_lex_total, lemma_lex_trans, lex_le, starts_hidden, starts_with_dot, text_le};
use vstd::multiset::Multiset;
use vstd::prelude::*;

verus! {

broadcast use vstd::seq_lib::group_to_multiset_ensures;

/// One directory entry as read from disk. `modified_secs` is the time of
/// last change in whole seconds since the Unix epoch, where it was known.
pub struct RawEntry {
    pub name: String,
    pub path: String,
    pub is_directory: bool,
    pub size_bytes: u64,
    pub modified_secs: Option<i64>,
}

/// One entry of a listing. `modified_at` is an RFC 3339 time, or empty
/// where the time was not known or could not be written.
pub struct FileEntry {
    pub path: String,
    pub name: String,
    pub is_directory: bool,
    pub size_bytes: u64,
    pub modified_at: String,
    pub mime_type: String,
}

/// A name folded to lower case.
pub uninterp spec fn lower_of(s: Seq<char>) -> Seq<char>;

/// An instant, in seconds since the Unix epoch, written in RFC 3339 form.
pub uninterp spec fn rfc3339_of(secs: int) -> Seq<char>;

/// Relies on str::to_lowercase: the result depends on the characters alone.
#[verifier::external_body]
fn lowercase(s: &str) -> (r: String)
    ensures
        r@ == lower_of(s@),
{
    s.to_lowercase()
}

/// Relies on chrono::DateTime::from_timestamp, which gives no time for
/// seconds out of its range, and DateTime::to_rfc3339 for the text.
#[verifier::external_body]
fn format_rfc3339(secs: i64) -> (r: Option<String>)
    ensures
        r matches Some(t) ==> t@ == rfc3339_of(secs as int),
{
    match chrono::DateTime::from_timestamp(secs, 0) {
        Some(dt) => Some(dt.to_rfc3339()),
        None => None,
    }
}

/// `a` may stand before `b`: directories before files, then names in
/// order once folded to lower case.
pub open spec fn entry_le(a: FileEntry, b: FileEntry) -> bool {
    (a.is_directory && !b.is_directory) || (a.is_directory == b.is_directory && lex_le(
        lower_of(a.name@),
        lower_of(b.name@),
    ))
}

/// Each entry may stand before the one after it.
pub open spec fn sorted(s: Seq<FileEntry>) -> bool {
    forall|i: int| 0 <= i < s.len() - 1 ==> entry_le(#[trigger] s[i], s[i + 1])
}

/// A sorted listing is ordered between any two of its entries, not only
/// neighbours: in particular every directory stands before every file.
pub proof fn lemma_sorted_pairwise(s: Seq<FileEntry>, i: int, j: int)
    requires
        sorted(s),
        0 <= i <= j < s.len(),
    ensures
        entry_le(s[i], s[j]),
        s[j].is_directory ==> s[i].is_directory,
    decreases j - i,
{
    if i == j {
        lemma_lex_total(lower_of(s[i].name@), lower_of(s[i].name@));
    } else {
        lemma_sorted_pairwise(s, i, j - 1);
        assert(entry_le(s[j - 1], s[j]));
        if s[i].is_directory == s[j].is_directory {
            lemma_lex_trans(lower_of(s[i].name@), lower_of(s[j - 1].name@), lower_of(s[j].name@));
        }
    }
}

/// `e` describes `raw`; its time is the RFC 3339 text of `raw`'s, or empty.
pub open spec fn describes(e: FileEntry, raw: RawEntry) -> bool {
    &&& e.path@ == raw.path@
    &&& e.name@ == raw.name@
    &&& e.is_directory == raw.is_directory
    &&& e.size_bytes == raw.size_bytes
    &&& e.mime_type@ == mime_of(raw.name@)
    &&& (e.modified_at@ == Seq::<char>::empty() || (raw.modified_secs matches Some(t)
        && e.modified_at@ == rfc3339_of(t as int)))
}


fn entry_precedes(a: &FileEntry, b: &FileEntry) -> (r: bool)
    ensures
        r == entry_le(*a, *b),
{
    if a.is_directory != b.is_directory {
        a.is_directory
    } else {
        let x = lowercase(a.name.as_str());
        let y = lowercase(b.name.as_str());
        text_le(x.as_str(), y.as_str())
    }
}

/// The entry for `raw`, given its time already written as text (or none).
pub fn entry_from(raw: RawEntry, modified_at: Option<String>) -> (e: FileEntry)
    ensures
        e.path@ == raw.path@,
        e.name@ == raw.name@,
        e.is_directory == raw.is_directory,
        e.size_bytes == raw.size_bytes,
        e.mime_type@ == mime_of(raw.name@),
        e.modified_at@ == (match modified_at {
            Some(t) => t@,
            None => Seq::<char>::empty(),
        }),
{
    let modified_at = match modified_at {
        Some(t) => t,
        None => String::new(),
    };
    let mime_type = guess_mime(raw.name.as_str());
    FileEntry {
        path: raw.path,
        name: raw.name,
        is_directory: raw.is_directory,
        size_bytes: raw.size_bytes,
        modified_at,
        mime_type,
    }
}

/// The entry for `raw`, with its content type and its time as RFC 3339 text
/// (empty where the time is unknown or out of the writable range).
pub fn describe(raw: RawEntry) -> (e: FileEntry)
    ensures
        describes(e, raw),
        raw.modified_secs is None ==> e.modified_at@ == Seq::<char>::empty(),
{
    let modified_at = match raw.modified_secs {
        Some(t) => format_rfc3339(t),
        None => None,
    };
    entry_from(raw, modified_at)
}

/// The same entries, directories first, each group by case-insensitive name;
/// entries that tie keep their order.
pub fn sort_entries(v: Vec<FileEntry>) -> (r: Vec<FileEntry>)
    ensures
        sorted(r@),
        r@.to_multiset() == v@.to_multiset(),
{
    let mut out: Vec<FileEntry> = Vec::new();
    let mut rest = v;
    let ghost whole = rest@;
    while rest.len() > 0
        invariant
            sorted(out@),
            out@.to_multiset().add(rest@.to_multiset()) == whole.to_multiset(),
        decreases rest@.len(),
    {
        let ghost before = rest@;
        let x = rest.remove(0);
        proof {
            assert(before =~= seq![x] + rest@);
            vstd::seq_lib::lemma_multiset_commutative(seq![x], rest@);
        }
        let mut p: usize = 0;
        while p < out.len() && entry_precedes(&out[p], &x)
            invariant
                0 <= p <= out@.len(),
                forall|j: int| 0 <= j < p ==> entry_le(#[trigger] out@[j], x),
            decreases out@.len() - p,
        {
            p = p + 1;
        }
        proof {
            if p < out@.len() {
                lemma_lex_total(lower_of(out@[p as int].name@), lower_of(x.name@));
                assert(entry_le(x, out@[p as int]));
            }
        }
        let ghost prev = out@;
        out.insert(p, x);
        proof {
            assert forall|i: int| 0 <= i < out@.len() - 1 implies entry_le(
                #[trigger] out@[i],
                out@[i + 1],
            ) by {
                if i < p - 1 {
                    assert(out@[i] == prev[i] && out@[i + 1] == prev[i + 1]);
                } else if i == p - 1 {
                } else if i == p {
                } else {
                    assert(out@[i] == prev[i - 1] && out@[i + 1] == prev[i]);
                }
            }
        }
    }
    proof {
        assert(rest@.to_multiset() =~= Multiset::empty());
        assert(out@.to_multiset().add(Multiset::empty()) =~= out@.to_multiset());
    }
    out
}

/// `e` describes an entry of `raw` whose name is not hidden.
pub open spec fn from_visible(e: FileEntry, raw: Seq<RawEntry>) -> bool {
    exists|j: int| 0 <= j < raw.len() && !starts_hidden(raw[j].name@) && describes(e, raw[j])
}

/// Some entry of `s` describes `raw`.
pub open spec fn listed(raw: RawEntry, s: Seq<FileEntry>) -> bool {
    exists|i: int| 0 <= i < s.len() && describes(s[i], raw)
}

proof fn lemma_same_members(d: Seq<FileEntry>, r: Seq<FileEntry>, src: Seq<RawEntry>)
    requires
        r.to_multiset() == d.to_multiset(),
        forall|k: int| 0 <= k < d.len() ==> from_visible(#[trigger] d[k], src),
        forall|k: int| 0 <= k < d.len() ==> !starts_hidden(#[trigger] d[k].name@),
        forall|j: int|
            0 <= j < src.len() && !starts_hidden(src[j].name@) ==> listed(#[trigger] src[j], d),
    ensures
        forall|i: int| 0 <= i < r.len() ==> from_visible(#[trigger] r[i], src),
        forall|i: int| 0 <= i < r.len() ==> !starts_hidden(#[trigger] r[i].name@),
        forall|j: int|
            0 <= j < src.len() && !starts_hidden(src[j].name@) ==> listed(#[trigger] src[j], r),
{
    assert forall|i: int| 0 <= i < r.len() implies from_visible(#[trigger] r[i], src)
        && !starts_hidden(r[i].name@) by {
        assert(r.to_multiset().count(r[i]) > 0);
        assert(d.contains(r[i]));
        let k = choose|k: int| 0 <= k < d.len() && d[k] == r[i];
        assert(from_visible(d[k], src));
    }
    assert forall|j: int| 0 <= j < src.len() && !starts_hidden(src[j].name@) implies listed(
        #[trigger] src[j],
        r,
    ) by {
        assert(listed(src[j], d));
        let k = choose|k: int| 0 <= k < d.len() && describes(d[k], src[j]);
        assert(d.to_multiset().count(d[k]) > 0);
        assert(r.contains(d[k]));
        let i = choose|i: int| 0 <= i < r.len() && r[i] == d[k];
        assert(describes(r[i], src[j]));
    }
}

/// The listing of one directory from its entries as read: hidden names are
/// left out, every other entry is described, and the result is sorted with
/// directories first and then by case-insensitive name.
pub fn list_directory(raw: Vec<RawEntry>) -> (r: Vec<FileEntry>)
    ensures
        sorted(r@),
        forall|i: int| 0 <= i < r@.len() ==> !starts_hidden(#[trigger] r@[i].name@),
        forall|i: int| 0 <= i < r@.len() ==> from_visible(#[trigger] r@[i], raw@),
        forall|j: int|
            0 <= j < raw@.len() && !starts_hidden(raw@[j].name@) ==> listed(#[trigger] raw@[j], r@),
{
    let ghost src = raw@;
    let mut d: Vec<FileEntry> = Vec::new();
    let mut rest = raw;
    let ghost mut done: int = 0;
    while rest.len() > 0
        invariant
            0 <= done <= src.len(),
            rest@ == src.skip(done),
            forall|k: int| 0 <= k < d@.len() ==> !starts_hidden(#[trigger] d@[k].name@),
            forall|k: int| 0 <= k < d@.len() ==> from_visible(#[trigger] d@[k], src),
            forall|j: int|
                0 <= j < done && !starts_hidden(src[j].name@) ==> listed(#[trigger] src[j], d@),
        decreases rest@.len(),
    {
        let e = rest.remove(0);
        assert(e == src[done]);
        let ghost prev = d@;
        if !starts_with_dot(e.name.as_str()) {
            let f = describe(e);
            d.push(f);
            proof {
                assert(d@[prev.len() as int] == f);
                assert(from_visible(f, src));
                assert forall|k: int| 0 <= k < d@.len() implies from_visible(#[trigger] d@[k], src)
                    && !starts_hidden(d@[k].name@) by {
                    if k < prev.len() {
                        assert(d@[k] == prev[k]);
                    }
                }
                assert forall|j: int| 0 <= j < done + 1 && !starts_hidden(src[j].name@) implies listed(
                    #[trigger] src[j],
                    d@,
                ) by {
                    if j == done {
                        assert(describes(d@[prev.len() as int], src[j]));
                    } else {
                        assert(listed(src[j], prev));
                        let k = choose|k: int| 0 <= k < prev.len() && describes(prev[k], src[j]);
                        assert(d@[k] == prev[k]);
                    }
                }
            }
        }
        proof {
            done = done + 1;
            assert(rest@ =~= src.skip(done));
        }
    }
    assert(done == src.len());
    let r = sort_entries(d);
    proof {
        lemma_same_members(d@, r@, src);
    }
    r
}

} // verus!
