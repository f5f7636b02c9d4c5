//! Where a received file is saved: in the given directory, under its own name, or, when
//! that is taken, under a head and a number joined by an underscore. When the stem has an
//! underscore and what precedes its last one is a number, the head is what follows that
//! underscore and the count goes on from that number; otherwise the head is the whole
//! stem and the count starts from 0.
use vstd::prelude::*;
use crate::text::{push_str, chars_of, string_of_range};
use crate::number::{decimal, decimal_text, parse_usize, usize_of};

verus! {

/// What `Path::file_name` gives for the path `p`, as text.
pub uninterp spec fn path_file_name(p: Seq<char>) -> Option<Seq<char>>;

/// The view of an optional `String`.
pub open spec fn opt_text(s: Option<String>) -> Option<Seq<char>> {
    match s {
        Some(t) => Some(t@),
        None => None,
    }
}

/// `s` holds no `/`.
pub open spec fn no_slash(s: Seq<char>) -> bool {
    forall|i: int| 0 <= i < s.len() ==> #[trigger] s[i] != '/'
}

/// The stem of a file name: the whole name when it holds no `.` or only a leading one,
/// else the part before its last `.`.
pub open spec fn stem_of_name(n: Seq<char>) -> Seq<char> {
    let k = last_index_of(n, '.', n.len() as int);
    if k <= 0 {
        n
    } else {
        n.take(k)
    }
}

/// The extension of a file name: none when it holds no `.` or only a leading one, else
/// the part after its last `.`.
pub open spec fn extension_of_name(n: Seq<char>) -> Option<Seq<char>> {
    let k = last_index_of(n, '.', n.len() as int);
    if k <= 0 {
        None
    } else {
        Some(n.skip(k + 1))
    }
}

/// The stem and the extension of the file name of the path `p`, when it has a file name
/// with an extension.
pub open spec fn save_parts_of(p: Seq<char>) -> Option<(Seq<char>, Seq<char>)> {
    match path_file_name(p) {
        Some(n) => match extension_of_name(n) {
            Some(e) => Some((stem_of_name(n), e)),
            None => None,
        },
        None => None,
    }
}

/// The last component of the path `path` (`Path::file_name`, read lossily as text): a
/// component holds no `/`. How a path splits into components is left to the standard
/// library and not stated.
#[verifier::external_body]
pub(crate) fn file_name_of(path: &str) -> (r: Option<String>)
    ensures
        opt_text(r) == path_file_name(path@),
        r matches Some(n) ==> no_slash(n@),
{
    match std::path::Path::new(path).file_name() {
        Some(n) => Some(n.to_string_lossy().to_string()),
        None => None,
    }
}

/// The stem of the file name of `path` (`Path::file_stem`, read lossily as text), as its
/// documentation gives it from the file name: none without a file name, the whole name
/// when it holds no `.` or only a leading one, else the part before its last `.`; as part
/// of a component, it holds no `/`.
#[verifier::external_body]
fn file_stem_of(path: &str) -> (r: Option<String>)
    ensures
        opt_text(r) == match path_file_name(path@) {
            Some(n) => Some(stem_of_name(n)),
            None => None,
        },
        r matches Some(s) ==> no_slash(s@),
{
    match std::path::Path::new(path).file_stem() {
        Some(n) => Some(n.to_string_lossy().to_string()),
        None => None,
    }
}

/// The extension of the file name of `path` (`Path::extension`, read lossily as text),
/// as its documentation gives it from the file name: none without a file name or when it
/// holds no `.` or only a leading one, else the part after its last `.`; as part of a
/// component, it holds no `/`.
#[verifier::external_body]
fn extension_of(path: &str) -> (r: Option<String>)
    ensures
        opt_text(r) == match path_file_name(path@) {
            Some(n) => extension_of_name(n),
            None => None,
        },
        r matches Some(e) ==> no_slash(e@),
{
    match std::path::Path::new(path).extension() {
        Some(n) => Some(n.to_string_lossy().to_string()),
        None => None,
    }
}

/// The stem and the extension of a received file name, which must have both
/// (`save_parts_of`); neither holds a `/`.
pub fn save_path_parts(file_name: &str) -> (r: (String, String))
    requires
        save_parts_of(file_name@) is Some,
    ensures
        save_parts_of(file_name@) == Some((r.0@, r.1@)),
        no_slash(r.0@),
        no_slash(r.1@),
{
    let s = file_stem_of(file_name);
    let e = extension_of(file_name);
    match (s, e) {
        (Some(s), Some(e)) => (s, e),
        _ => (String::new(), String::new()),
    }
}

/// The stem and the extension of a received file name (`save_parts_of`), or `None` when
/// it has no file name or no extension.
pub fn try_save_path_parts(file_name: &str) -> (r: Option<(String, String)>)
    ensures
        match save_parts_of(file_name@) {
            Some((s, e)) => r matches Some((a, b)) && a@ == s && b@ == e && no_slash(a@)
                && no_slash(b@),
            None => r is None,
        },
{
    if extension_of(file_name).is_none() {
        return None;
    }
    Some(save_path_parts(file_name))
}

/// The index of the last `c` in `s[..j]`, or -1.
pub open spec fn last_index_of(s: Seq<char>, c: char, j: int) -> int
    decreases j,
{
    if j <= 0 {
        -1
    } else if s[j - 1] == c {
        j - 1
    } else {
        last_index_of(s, c, j - 1)
    }
}

/// A stem split into a head and the number to count on from: at its last underscore,
/// when what precedes it is a number, the text that follows it and that number; else the
/// whole stem and 0.
pub open spec fn numbered_stem(stem: Seq<char>) -> (Seq<char>, usize) {
    let k = last_index_of(stem, '_', stem.len() as int);
    if k >= 0 {
        match usize_of(stem.take(k)) {
            Some(i) => (stem.skip(k + 1), i),
            None => (stem, 0),
        }
    } else {
        (stem, 0)
    }
}

/// The path of a file with stem `stem` and extension `extension` in `dir`.
pub open spec fn plain_path_spec(dir: Seq<char>, stem: Seq<char>, extension: Seq<char>) -> Seq<
    char,
> {
    dir + "/"@ + stem + "."@ + extension
}

/// The path of the file numbered `i` after `head`, with extension `extension`, in `dir`.
pub open spec fn numbered_path_spec(
    dir: Seq<char>,
    head: Seq<char>,
    i: nat,
    extension: Seq<char>,
) -> Seq<char> {
    dir + "/"@ + head + "_"@ + decimal(i) + "."@ + extension
}

proof fn lemma_last_index_bounds(s: Seq<char>, c: char, j: int)
    requires
        0 <= j <= s.len(),
    ensures
        -1 <= last_index_of(s, c, j) < j,
        last_index_of(s, c, j) >= 0 ==> s[last_index_of(s, c, j)] == c,
        forall|k: int| last_index_of(s, c, j) < k < j ==> #[trigger] s[k] != c,
    decreases j,
{
    if j > 0 && s[j - 1] != c {
        lemma_last_index_bounds(s, c, j - 1);
    }
}

/// Where the last `c` is when what follows it holds none.
proof fn lemma_last_index_join(a: Seq<char>, c: char, b: Seq<char>, j: int)
    requires
        forall|k: int| 0 <= k < b.len() ==> #[trigger] b[k] != c,
        a.len() < j <= a.len() + 1 + b.len(),
    ensures
        last_index_of(a + seq![c] + b, c, j) == a.len(),
    decreases j,
{
    let s = a + seq![c] + b;
    if j > a.len() + 1 {
        assert(s[j - 1] == b[j - 1 - a.len() - 1]);
        lemma_last_index_join(a, c, b, j - 1);
    } else {
        assert(s[j - 1] == c);
    }
}

/// A stem made of a number, an underscore and a head without underscores is split into
/// that head and that number.
pub proof fn lemma_numbered_stem_round_trip(i: usize, head: Seq<char>)
    requires
        forall|k: int| 0 <= k < head.len() ==> #[trigger] head[k] != '_',
    ensures
        numbered_stem(decimal(i as nat) + "_"@ + head) == (head, i),
{
    reveal_strlit("_");
    let d = decimal(i as nat);
    let s = d + seq!['_'] + head;
    assert(d + "_"@ + head =~= s);
    lemma_last_index_join(d, '_', head, s.len() as int);
    assert(s.take(d.len() as int) =~= d);
    assert(s.skip(d.len() as int + 1) =~= head);
    crate::number::lemma_usize_of_decimal(i);
}

/// A received file is saved directly in the given directory: the plain path and every
/// numbered path are the directory, a `/` and a name without `/`, when the stem and the
/// extension hold none.
pub proof fn lemma_save_paths_in_dir(dir: Seq<char>, stem: Seq<char>, extension: Seq<char>, i: nat)
    requires
        no_slash(stem),
        no_slash(extension),
    ensures
        ({
            let plain = stem + "."@ + extension;
            &&& plain_path_spec(dir, stem, extension) == dir + "/"@ + plain
            &&& no_slash(plain)
        }),
        ({
            let numbered = numbered_stem(stem).0 + "_"@ + decimal(i) + "."@ + extension;
            &&& numbered_path_spec(dir, numbered_stem(stem).0, i, extension) == dir + "/"@
                + numbered
            &&& no_slash(numbered)
        }),
{
    reveal_strlit(".");
    reveal_strlit("_");
    reveal_strlit("/");
    let plain = stem + "."@ + extension;
    assert(plain_path_spec(dir, stem, extension) =~= dir + "/"@ + plain);
    assert forall|j: int| 0 <= j < plain.len() implies #[trigger] plain[j] != '/' by {
        if j < stem.len() {
            assert(plain[j] == stem[j]);
        } else if j > stem.len() {
            assert(plain[j] == extension[j - stem.len() - 1]);
        }
    }
    let h = numbered_stem(stem).0;
    let k = last_index_of(stem, '_', stem.len() as int);
    lemma_last_index_bounds(stem, '_', stem.len() as int);
    assert(no_slash(h)) by {
        if k >= 0 && usize_of(stem.take(k)) is Some {
            assert forall|j: int| 0 <= j < h.len() implies #[trigger] h[j] != '/' by {
                assert(h[j] == stem[k + 1 + j]);
            }
        }
    }
    let d = decimal(i);
    crate::number::lemma_decimal(i);
    let numbered = h + "_"@ + d + "."@ + extension;
    assert(numbered_path_spec(dir, h, i, extension) =~= dir + "/"@ + numbered);
    assert forall|j: int| 0 <= j < numbered.len() implies #[trigger] numbered[j] != '/' by {
        if j < h.len() {
            assert(numbered[j] == h[j]);
        } else if j == h.len() {
        } else if j < h.len() + 1 + d.len() {
            assert(numbered[j] == d[j - h.len() - 1]);
            assert(crate::number::is_digit(d[j - h.len() - 1]));
        } else if j > h.len() + 1 + d.len() {
            assert(numbered[j] == extension[j - h.len() - 2 - d.len()]);
        }
    }
}

/// A stem without an underscore is its own head, and its count starts from 0.
pub proof fn lemma_stem_without_underscore(stem: Seq<char>)
    requires
        forall|k: int| 0 <= k < stem.len() ==> #[trigger] stem[k] != '_',
    ensures
        numbered_stem(stem) == (stem, 0usize),
{
    lemma_last_index_bounds(stem, '_', stem.len() as int);
}

/// How a stem is split: either it is its own head with a count from 0, or it is a
/// number, an underscore and a head without underscores, and the count starts from that
/// number.
pub proof fn lemma_numbered_stem_shape(stem: Seq<char>)
    ensures
        numbered_stem(stem) == (stem, 0usize) || exists|c: Seq<char>|
            {
                &&& stem == c + "_"@ + numbered_stem(stem).0
                &&& usize_of(c) == Some(numbered_stem(stem).1)
                &&& forall|k: int|
                    0 <= k < numbered_stem(stem).0.len() ==> #[trigger] numbered_stem(stem).0[k]
                        != '_'
            },
{
    reveal_strlit("_");
    lemma_last_index_bounds(stem, '_', stem.len() as int);
    let k = last_index_of(stem, '_', stem.len() as int);
    if k >= 0 && usize_of(stem.take(k)) is Some {
        let c = stem.take(k);
        let h = stem.skip(k + 1);
        assert(stem =~= c + "_"@ + h);
        assert forall|j: int| 0 <= j < h.len() implies #[trigger] h[j] != '_' by {
            assert(h[j] == stem[k + 1 + j]);
        }
    }
}

/// The index of the last `c` in `v`, if any.
fn find_last(v: &Vec<char>, c: char) -> (r: Option<usize>)
    ensures
        match r {
            Some(k) => k < v.len() && k as int == last_index_of(v@, c, v@.len() as int),
            None => last_index_of(v@, c, v@.len() as int) == -1,
        },
{
    let mut j = v.len();
    while j > 0 && v[j - 1] != c
        invariant
            j <= v.len(),
            last_index_of(v@, c, j as int) == last_index_of(v@, c, v@.len() as int),
        decreases j,
    {
        j = j - 1;
    }
    if j == 0 {
        None
    } else {
        Some(j - 1)
    }
}

/// The head of `stem` and the number to count on from (`numbered_stem`).
pub fn split_numbered_stem(stem: &str) -> (r: (String, usize))
    ensures
        (r.0@, r.1) == numbered_stem(stem@),
{
    let v = chars_of(stem);
    match find_last(&v, '_') {
        Some(k) => {
            let count = string_of_range(&v, 0, k);
            assert(count@ =~= v@.take(k as int));
            match parse_usize(count.as_str()) {
                Some(i) => {
                    let head = string_of_range(&v, k + 1, v.len());
                    assert(head@ =~= v@.skip(k + 1));
                    (head, i)
                },
                None => (string_of_range(&v, 0, v.len()), 0),
            }
        },
        None => (string_of_range(&v, 0, v.len()), 0),
    }
}

/// The path of a file with stem `stem` and extension `extension` in `dir`
/// (`plain_path_spec`).
pub fn plain_save_path(dir: &str, stem: &str, extension: &str) -> (r: String)
    ensures
        r@ == plain_path_spec(dir@, stem@, extension@),
{
    let mut r = String::new();
    push_str(&mut r, dir);
    push_str(&mut r, "/");
    push_str(&mut r, stem);
    push_str(&mut r, ".");
    push_str(&mut r, extension);
    assert(r@ =~= plain_path_spec(dir@, stem@, extension@));
    r
}

/// The next numbered path to try after the one numbered `previous`: its number and the
/// path (`numbered_path_spec`); `None` when `previous` is the largest `usize`.
pub fn next_save_path(dir: &str, head: &str, previous: usize, extension: &str) -> (r: Option<
    (usize, String),
>)
    ensures
        previous < usize::MAX ==> (r matches Some((i, p)) && i == previous + 1 && p@
            == numbered_path_spec(dir@, head@, i as nat, extension@)),
        previous == usize::MAX ==> r is None,
{
    if previous == usize::MAX {
        return None;
    }
    let i = previous + 1;
    let mut r = String::new();
    push_str(&mut r, dir);
    push_str(&mut r, "/");
    push_str(&mut r, head);
    push_str(&mut r, "_");
    let d = decimal_text(i as u64);
    push_str(&mut r, d.as_str());
    push_str(&mut r, ".");
    push_str(&mut r, extension);
    assert(r@ =~= numbered_path_spec(dir@, head@, i as nat, extension@));
    Some((i, r))
}

} // verus!
