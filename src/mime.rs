//! Content-type labels inferred from a file name's extension.
use crate::text::chars_of;
use vstd::prelude::*;

verus! {

/// `l` is the same letter as `c` once `c` is folded to lower case (ASCII).
pub open spec fn same_letter(c: char, l: char) -> bool {
    c == l || ('a' <= l && l <= 'z' && c as u32 + 32 == l as u32)
}

/// The extension `e` spells the lower-case word `w`, ignoring ASCII case.
pub open spec fn ext_is(e: Seq<char>, w: Seq<char>) -> bool {
    e.len() == w.len() && forall|i: int| 0 <= i < e.len() ==> same_letter(#[trigger] e[i], w[i])
}

/// `i` is the position of the last `.` in `s`.
pub open spec fn is_last_dot(s: Seq<char>, i: int) -> bool {
    0 <= i < s.len() && s[i] == '.' && forall|j: int| i < j < s.len() ==> #[trigger] s[j] != '.'
}

pub open spec fn has_dot(s: Seq<char>) -> bool {
    exists|i: int| 0 <= i < s.len() && #[trigger] s[i] == '.'
}

/// What follows the last `.` of a name; empty where the name has no `.`.
pub open spec fn extension_of(s: Seq<char>) -> Seq<char> {
    if has_dot(s) {
        let i = choose|i: int| is_last_dot(s, i);
        s.subrange(i + 1, s.len() as int)
    } else {
        Seq::empty()
    }
}

/// The content-type label of a file name.
pub open spec fn mime_of(name: Seq<char>) -> Seq<char> {
    let e = extension_of(name);
    if ext_is(e, "md"@) {
        "text/markdown"@
    } else if ext_is(e, "txt"@) {
        "text/plain"@
    } else if ext_is(e, "json"@) {
        "application/json"@
    } else if ext_is(e, "yaml"@) || ext_is(e, "yml"@) {
        "text/yaml"@
    } else if ext_is(e, "csv"@) {
        "text/csv"@
    } else if ext_is(e, "pdf"@) {
        "application/pdf"@
    } else if ext_is(e, "png"@) {
        "image/png"@
    } else if ext_is(e, "jpg"@) || ext_is(e, "jpeg"@) {
        "image/jpeg"@
    } else if ext_is(e, "gif"@) {
        "image/gif"@
    } else if ext_is(e, "svg"@) {
        "image/svg+xml"@
    } else if ext_is(e, "mp4"@) {
        "video/mp4"@
    } else if ext_is(e, "mp3"@) {
        "audio/mpeg"@
    } else if ext_is(e, "doc"@) || ext_is(e, "docx"@) {
        "application/msword"@
    } else if ext_is(e, "xls"@) || ext_is(e, "xlsx"@) {
        "application/vnd.ms-excel"@
    } else if ext_is(e, "pptx"@) {
        "application/vnd.ms-powerpoint"@
    } else if ext_is(e, "html"@) {
        "text/html"@
    } else if ext_is(e, "js"@) {
        "text/javascript"@
    } else if ext_is(e, "ts"@) {
        "text/typescript"@
    } else if ext_is(e, "py"@) {
        "text/x-python"@
    } else if ext_is(e, "rs"@) {
        "text/x-rust"@
    } else if ext_is(e, "go"@) {
        "text/x-go"@
    } else {
        "application/octet-stream"@
    }
}

fn word_is(e: &Vec<char>, w: &str) -> (r: bool)
    ensures
        r == ext_is(e@, w@),
{
    let wc = chars_of(w);
    if e.len() != wc.len() {
        return false;
    }
    let mut i: usize = 0;
    while i < e.len()
        invariant
            e@.len() == wc@.len(),
            wc@ == w@,
            0 <= i <= e@.len(),
            forall|j: int| 0 <= j < i ==> same_letter(#[trigger] e@[j], wc@[j]),
        decreases e@.len() - i,
    {
        let c = e[i];
        let l = wc[i];
        let folds = 'a' <= l && l <= 'z' && c as u32 == l as u32 - 32;
        if !(c == l || folds) {
            return false;
        }
        i = i + 1;
    }
    true
}

/// The characters after the last `.` of `cs`, or none where it has no `.`.
fn extension_chars(cs: &Vec<char>) -> (e: Vec<char>)
    ensures
        e@ == extension_of(cs@),
{
    let mut i: usize = cs.len();
    while i > 0
        invariant
            0 <= i <= cs@.len(),
            forall|j: int| i <= j < cs@.len() ==> #[trigger] cs@[j] != '.',
        decreases i,
    {
        if cs[i - 1] == '.' {
            let mut e: Vec<char> = Vec::new();
            let mut k: usize = i;
            while k < cs.len()
                invariant
                    i <= k <= cs@.len(),
                    e@ == cs@.subrange(i as int, k as int),
                decreases cs@.len() - k,
            {
                e.push(cs[k]);
                k = k + 1;
                assert(e@ =~= cs@.subrange(i as int, k as int));
            }
            proof {
                assert(is_last_dot(cs@, i - 1));
                let c = choose|c: int| is_last_dot(cs@, c);
                assert(has_dot(cs@));
                if c < i - 1 {
                    assert(cs@[i - 1] != '.');
                }
                if c > i - 1 {
                    assert(cs@[c] != '.');
                }
            }
            return e;
        }
        i = i - 1;
    }
    Vec::new()
}

/// Content-type label of a file name, from the part after its last `.`,
/// compared without regard to ASCII case; names without a known extension
/// (or without any `.`) get the generic binary label.
pub fn guess_mime(filename: &str) -> (r: String)
    ensures
        r@ == mime_of(filename@),
{
    let cs = chars_of(filename);
    let e = extension_chars(&cs);
    if word_is(&e, "md") {
        "text/markdown".to_string()
    } else if word_is(&e, "txt") {
        "text/plain".to_string()
    } else if word_is(&e, "json") {
        "application/json".to_string()
    } else if word_is(&e, "yaml") || word_is(&e, "yml") {
        "text/yaml".to_string()
    } else if word_is(&e, "csv") {
        "text/csv".to_string()
    } else if word_is(&e, "pdf") {
        "application/pdf".to_string()
    } else if word_is(&e, "png") {
        "image/png".to_string()
    } else if word_is(&e, "jpg") || word_is(&e, "jpeg") {
        "image/jpeg".to_string()
    } else if word_is(&e, "gif") {
        "image/gif".to_string()
    } else if word_is(&e, "svg") {
        "image/svg+xml".to_string()
    } else if word_is(&e, "mp4") {
        "video/mp4".to_string()
    } else if word_is(&e, "mp3") {
        "audio/mpeg".to_string()
    } else if word_is(&e, "doc") || word_is(&e, "docx") {
        "application/msword".to_string()
    } else if word_is(&e, "xls") || word_is(&e, "xlsx") {
        "application/vnd.ms-excel".to_string()
    } else if word_is(&e, "pptx") {
        "application/vnd.ms-powerpoint".to_string()
    } else if word_is(&e, "html") {
        "text/html".to_string()
    } else if word_is(&e, "js") {
        "text/javascript".to_string()
    } else if word_is(&e, "ts") {
        "text/typescript".to_string()
    } else if word_is(&e, "py") {
        "text/x-python".to_string()
    } else if word_is(&e, "rs") {
        "text/x-rust".to_string()
    } else if word_is(&e, "go") {
        "text/x-go".to_string()
    } else {
        "application/octet-stream".to_string()
    }
}

} // verus!
