//! Text handling shared by the chat programs: white space as `char::is_whitespace`
//! sees it, `trim`, `split_once` at white space, removal of white space, and
//! decimal numbers as `usize::from_str` reads them and `Display` writes them.
use vstd::prelude::*;
use vstd::utf8::valid_utf8;
use vstd::utf8::decode_utf8;
use vstd::string::StringExecFns;

verus! {

/// The Unicode `White_Space` property, which `char::is_whitespace` tests.
pub open spec fn is_white(c: char) -> bool {
    ||| '\u{9}' <= c <= '\u{d}'
    ||| c == ' '
    ||| c == '\u{85}'
    ||| c == '\u{a0}'
    ||| c == '\u{1680}'
    ||| '\u{2000}' <= c <= '\u{200a}'
    ||| c == '\u{2028}'
    ||| c == '\u{2029}'
    ||| c == '\u{202f}'
    ||| c == '\u{205f}'
    ||| c == '\u{3000}'
}

/// Whether `c` is white space in the sense of `char::is_whitespace`.
pub fn is_whitespace(c: char) -> (r: bool)
    ensures
        r == is_white(c),
{
    ('\u{9}' <= c && c <= '\u{d}') || c == ' ' || c == '\u{85}' || c == '\u{a0}' || c
        == '\u{1680}' || ('\u{2000}' <= c && c <= '\u{200a}') || c == '\u{2028}' || c
        == '\u{2029}' || c == '\u{202f}' || c == '\u{205f}' || c == '\u{3000}'
}

/// The index just past the run of white space that starts at `i`.
pub open spec fn white_run_end(s: Seq<char>, i: int) -> int
    decreases s.len() - i,
{
    if 0 <= i < s.len() && is_white(s[i]) {
        white_run_end(s, i + 1)
    } else {
        i
    }
}

/// The index where the run of white space that ends just before `j` starts.
pub open spec fn white_run_start(s: Seq<char>, j: int) -> int
    decreases j,
{
    if 0 < j <= s.len() && is_white(s[j - 1]) {
        white_run_start(s, j - 1)
    } else {
        j
    }
}

/// `s` without its leading and trailing white space, as `str::trim` gives it.
pub open spec fn trimmed(s: Seq<char>) -> Seq<char> {
    let a = white_run_end(s, 0);
    let b = white_run_start(s, s.len() as int);
    if a < b {
        s.subrange(a, b)
    } else {
        Seq::empty()
    }
}

/// The first index at or after `i` that holds white space, or the length of `s`.
pub open spec fn next_white(s: Seq<char>, i: int) -> int
    decreases s.len() - i,
{
    if 0 <= i < s.len() && !is_white(s[i]) {
        next_white(s, i + 1)
    } else {
        i
    }
}

/// `s` split around its first white space character, as `str::split_once` with
/// `char::is_whitespace` splits it; `None` when `s` holds no white space.
pub open spec fn split_white(s: Seq<char>) -> Option<(Seq<char>, Seq<char>)> {
    let k = next_white(s, 0);
    if k < s.len() {
        Some((s.take(k), s.skip(k + 1)))
    } else {
        None
    }
}

/// `s` with every white space character removed.
pub open spec fn without_white(s: Seq<char>) -> Seq<char> {
    s.filter(|c: char| !is_white(c))
}

/// Whether `s` holds no white space character.
pub open spec fn has_no_white(s: Seq<char>) -> bool {
    forall|i: int| 0 <= i < s.len() ==> !is_white(#[trigger] s[i])
}

/// Where the white space that starts at `i` ends, and what it covers.
proof fn lemma_white_run_end_bounds(s: Seq<char>, i: int)
    requires
        0 <= i <= s.len(),
    ensures
        i <= white_run_end(s, i) <= s.len(),
        forall|j: int| i <= j < white_run_end(s, i) ==> is_white(#[trigger] s[j]),
        white_run_end(s, i) < s.len() ==> !is_white(s[white_run_end(s, i)]),
    decreases s.len() - i,
{
    if i < s.len() && is_white(s[i]) {
        lemma_white_run_end_bounds(s, i + 1);
    }
}

/// Where the white space that ends before `j` starts, and what it covers.
proof fn lemma_white_run_start_bounds(s: Seq<char>, j: int)
    requires
        0 <= j <= s.len(),
    ensures
        0 <= white_run_start(s, j) <= j,
        forall|k: int| white_run_start(s, j) <= k < j ==> is_white(#[trigger] s[k]),
        white_run_start(s, j) > 0 ==> !is_white(s[white_run_start(s, j) - 1]),
    decreases j,
{
    if 0 < j && is_white(s[j - 1]) {
        lemma_white_run_start_bounds(s, j - 1);
    }
}

/// Where the next white space at or after `i` is.
proof fn lemma_next_white_bounds(s: Seq<char>, i: int)
    requires
        0 <= i <= s.len(),
    ensures
        i <= next_white(s, i) <= s.len(),
        forall|j: int| i <= j < next_white(s, i) ==> !is_white(#[trigger] s[j]),
        next_white(s, i) < s.len() ==> is_white(s[next_white(s, i)]),
    decreases s.len() - i,
{
    if i < s.len() && !is_white(s[i]) {
        lemma_next_white_bounds(s, i + 1);
    }
}

/// A text with no white space at either end is its own trimmed form.
pub proof fn lemma_trimmed_of_tight(s: Seq<char>)
    requires
        s.len() > 0 ==> !is_white(s[0]) && !is_white(s[s.len() - 1]),
    ensures
        trimmed(s) == s,
{
    if s.len() > 0 {
        assert(s.subrange(0, s.len() as int) =~= s);
    } else {
        assert(s =~= Seq::<char>::empty());
    }
}

/// A text without white space is not split.
pub proof fn lemma_split_white_none_of(s: Seq<char>)
    requires
        has_no_white(s),
    ensures
        split_white(s) is None,
{
    lemma_next_white_bounds(s, 0);
}

/// Splitting `a`, one white space character and `b` gives back `a` and `b`
/// when `a` holds no white space.
pub proof fn lemma_split_white_join(a: Seq<char>, w: char, b: Seq<char>)
    requires
        has_no_white(a),
        is_white(w),
    ensures
        split_white(a + seq![w] + b) == Some((a, b)),
{
    let s = a + seq![w] + b;
    lemma_next_white_bounds(s, 0);
    let k = next_white(s, 0);
    if k < a.len() {
        assert(s[k] == a[k]);
    }
    assert(s[a.len() as int] == w);
    assert(k == a.len());
    assert(s.take(k) =~= a);
    assert(s.skip(k + 1) =~= b);
}

/// A text is white space, then its trimmed part, then white space; the trimmed part is
/// empty or starts and ends with characters that are not white space. The result gives
/// where the trimmed part starts and ends.
pub proof fn lemma_trimmed_parts(s: Seq<char>) -> (r: (int, int))
    ensures
        0 <= r.0 <= r.1 <= s.len(),
        trimmed(s) == s.subrange(r.0, r.1),
        forall|i: int| 0 <= i < r.0 ==> is_white(#[trigger] s[i]),
        forall|i: int| r.1 <= i < s.len() ==> is_white(#[trigger] s[i]),
        r.0 < r.1 ==> !is_white(s[r.0]) && !is_white(s[r.1 - 1]),
{
    lemma_white_run_end_bounds(s, 0);
    lemma_white_run_start_bounds(s, s.len() as int);
    let a = white_run_end(s, 0);
    let b = white_run_start(s, s.len() as int);
    if a < b {
        (a, b)
    } else {
        assert forall|i: int| a <= i < s.len() implies is_white(#[trigger] s[i]) by {
            assert(b <= i);
        }
        assert(s.subrange(a, a) =~= Seq::<char>::empty());
        (a, a)
    }
}

/// Removing white space from a text made only of white space leaves nothing.
pub proof fn lemma_without_white_of_white(s: Seq<char>)
    requires
        forall|i: int| 0 <= i < s.len() ==> is_white(#[trigger] s[i]),
    ensures
        without_white(s) == Seq::<char>::empty(),
    decreases s.len(),
{
    reveal(Seq::filter);
    if s.len() > 0 {
        let r = s.drop_last();
        assert forall|i: int| 0 <= i < r.len() implies is_white(#[trigger] r[i]) by {
            assert(r[i] == s[i]);
        }
        lemma_without_white_of_white(r);
        assert(is_white(s[s.len() - 1]));
    }
}

/// Removing white space from a text without any leaves it as it is.
pub proof fn lemma_without_white_of_no_white(s: Seq<char>)
    requires
        has_no_white(s),
    ensures
        without_white(s) == s,
    decreases s.len(),
{
    reveal(Seq::filter);
    if s.len() > 0 {
        let r = s.drop_last();
        assert forall|i: int| 0 <= i < r.len() implies !is_white(#[trigger] r[i]) by {
            assert(r[i] == s[i]);
        }
        lemma_without_white_of_no_white(r);
        assert(!is_white(s[s.len() - 1]));
        assert(r.push(s.last()) =~= s);
    }
}

/// Trimming a text before removing its white space changes nothing.
pub proof fn lemma_without_white_trimmed(s: Seq<char>)
    ensures
        without_white(trimmed(s)) == without_white(s),
{
    let (a, b) = lemma_trimmed_parts(s);
    let f = |c: char| !is_white(c);
    let pre = s.take(a);
    let mid = s.subrange(a, b);
    let post = s.skip(b);
    assert(s =~= pre + mid + post);
    Seq::filter_distributes_over_add(pre + mid, post, f);
    Seq::filter_distributes_over_add(pre, mid, f);
    assert forall|i: int| 0 <= i < pre.len() implies is_white(#[trigger] pre[i]) by {
        assert(pre[i] == s[i]);
    }
    assert forall|i: int| 0 <= i < post.len() implies is_white(#[trigger] post[i]) by {
        assert(post[i] == s[b + i]);
    }
    lemma_without_white_of_white(pre);
    lemma_without_white_of_white(post);
    assert(without_white(s) == pre.filter(f) + mid.filter(f) + post.filter(f));
    assert(without_white(s) =~= without_white(mid));
}

/// What a split at white space gives: the part before a white space character without
/// white space, that character, and the rest, which together make the text; a text is
/// not split exactly when it holds no white space.
pub proof fn lemma_split_white_shape(s: Seq<char>)
    ensures
        split_white(s) is None <==> has_no_white(s),
        split_white(s) matches Some((a, b)) ==> has_no_white(a) && a.len() < s.len() && is_white(
            s[a.len() as int],
        ) && s == a + seq![s[a.len() as int]] + b,
{
    lemma_next_white_bounds(s, 0);
    let k = next_white(s, 0);
    if k < s.len() {
        assert(s =~= s.take(k) + seq![s[k]] + s.skip(k + 1));
        assert(!has_no_white(s));
    }
}

/// Removing white space leaves no white space, and keeps the other characters in order:
/// removing it from two texts joined is joining what is left of each.
pub proof fn lemma_without_white_shape(s: Seq<char>, t: Seq<char>)
    ensures
        has_no_white(without_white(s)),
        without_white(s + t) == without_white(s) + without_white(t),
{
    let f = |c: char| !is_white(c);
    Seq::filter_distributes_over_add(s, t, f);
    broadcast use Seq::lemma_filter_pred;
    assert forall|i: int| 0 <= i < without_white(s).len() implies !is_white(
        #[trigger] without_white(s)[i],
    ) by {
        s.lemma_filter_pred(f, i);
    }
}

/// Appends `c` to `s` (`String::push`).
#[verifier::external_body]
pub(crate) fn push_char(s: &mut String, c: char)
    ensures
        final(s)@ == old(s)@.push(c),
{
    s.push(c)
}

/// Appends `t` to `s`.
pub(crate) fn push_str(s: &mut String, t: &str)
    ensures
        final(s)@ == old(s)@ + t@,
{
    s.append(t)
}

/// The text `std::str::from_utf8` reads from `bytes`: `None` exactly when they are not
/// well-formed UTF-8, else the characters they encode.
#[verifier::external_body]
pub(crate) fn decode_text(bytes: &[u8]) -> (r: Option<&str>)
    ensures
        r is Some <==> valid_utf8(bytes@),
        r matches Some(t) ==> t@ == decode_utf8(bytes@),
{
    match std::str::from_utf8(bytes) {
        Ok(t) => Some(t),
        Err(_) => None,
    }
}

/// Whether `bytes` are well-formed UTF-8.
pub fn is_utf8(bytes: &[u8]) -> (r: bool)
    ensures
        r == valid_utf8(bytes@),
{
    decode_text(bytes).is_some()
}

/// The characters of `s`, in order.
pub fn chars_of(s: &str) -> (v: Vec<char>)
    ensures
        v@ == s@,
{
    let mut v: Vec<char> = Vec::new();
    for c in it: s.chars()
        invariant
            v@ == it.seq().take(it.index() as int),
    {
        v.push(c);
    }
    v
}

/// The characters `v[lo..hi]` as a `String`.
pub fn string_of_range(v: &Vec<char>, lo: usize, hi: usize) -> (r: String)
    requires
        lo <= hi <= v.len(),
    ensures
        r@ == v@.subrange(lo as int, hi as int),
{
    let mut r = String::new();
    let mut i = lo;
    while i < hi
        invariant
            lo <= i <= hi <= v.len(),
            r@ == v@.subrange(lo as int, i as int),
        decreases hi - i,
    {
        push_char(&mut r, v[i]);
        i = i + 1;
        assert(r@ =~= v@.subrange(lo as int, i as int));
    }
    r
}

/// The index just past the white space of `v` that starts at `i`.
fn skip_white(v: &Vec<char>, i: usize) -> (r: usize)
    requires
        i <= v.len(),
    ensures
        r == white_run_end(v@, i as int),
{
    let mut k = i;
    while k < v.len() && is_whitespace(v[k])
        invariant
            i <= k <= v.len(),
            white_run_end(v@, k as int) == white_run_end(v@, i as int),
        decreases v.len() - k,
    {
        k = k + 1;
    }
    k
}

/// The start of the white space of `v` that ends just before `j`.
fn skip_white_back(v: &Vec<char>, j: usize) -> (r: usize)
    requires
        j <= v.len(),
    ensures
        r == white_run_start(v@, j as int),
{
    let mut k = j;
    while k > 0 && is_whitespace(v[k - 1])
        invariant
            k <= j <= v.len(),
            white_run_start(v@, k as int) == white_run_start(v@, j as int),
        decreases k,
    {
        k = k - 1;
    }
    k
}

/// The bounds of the trimmed part of `v`: `v[a..b]` is `trimmed(v)`.
pub fn trim_bounds(v: &Vec<char>) -> (r: (usize, usize))
    ensures
        r.0 <= r.1 <= v.len(),
        v@.subrange(r.0 as int, r.1 as int) == trimmed(v@),
{
    let a = skip_white(v, 0);
    let b = skip_white_back(v, v.len());
    proof {
        lemma_white_run_end_bounds(v@, 0);
        lemma_white_run_start_bounds(v@, v@.len() as int);
    }
    if a < b {
        (a, b)
    } else {
        (0, 0)
    }
}

/// `s` without leading and trailing white space (`str::trim`).
pub fn trim(s: &str) -> (r: String)
    ensures
        r@ == trimmed(s@),
{
    let v = chars_of(s);
    let (a, b) = trim_bounds(&v);
    string_of_range(&v, a, b)
}

/// The index of the first white space in `v`, or its length.
pub fn find_white(v: &Vec<char>) -> (r: usize)
    ensures
        r == next_white(v@, 0),
        r <= v.len(),
{
    proof {
        lemma_next_white_bounds(v@, 0);
    }
    let mut k: usize = 0;
    while k < v.len() && !is_whitespace(v[k])
        invariant
            k <= v.len(),
            next_white(v@, k as int) == next_white(v@, 0),
        decreases v.len() - k,
    {
        k = k + 1;
    }
    k
}

/// `s` split at its first white space character (`str::split_once(char::is_whitespace)`).
pub fn split_once_white(s: &str) -> (r: Option<(String, String)>)
    ensures
        match split_white(s@) {
            Some((a, b)) => r matches Some((x, y)) && x@ == a && y@ == b,
            None => r is None,
        },
{
    let v = chars_of(s);
    let k = find_white(&v);
    if k < v.len() {
        let a = string_of_range(&v, 0, k);
        let b = string_of_range(&v, k + 1, v.len());
        assert(v@.subrange(0, k as int) =~= v@.take(k as int));
        assert(v@.subrange(k + 1, v@.len() as int) =~= v@.skip(k + 1));
        Some((a, b))
    } else {
        None
    }
}

/// `s` with all white space removed (`str::replace(char::is_whitespace, "")`).
pub fn remove_white(s: &str) -> (r: String)
    ensures
        r@ == without_white(s@),
{
    let v = chars_of(s);
    let mut r = String::new();
    let mut i: usize = 0;
    while i < v.len()
        invariant
            i <= v.len(),
            v@ == s@,
            r@ == without_white(v@.take(i as int)),
        decreases v.len() - i,
    {
        let c = v[i];
        proof {
            reveal_with_fuel(Seq::filter, 1);
            assert(v@.take(i + 1).drop_last() =~= v@.take(i as int));
        }
        if !is_whitespace(c) {
            push_char(&mut r, c);
        }
        i = i + 1;
    }
    assert(v@.take(v.len() as int) =~= v@);
    r
}

} // verus!
