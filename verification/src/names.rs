//! Names of comic files: the last component of a path and its stem and
//! extension, the chapter number written in a file name, and the paths that
//! lie on removable storage.
use vstd::prelude::*;

use crate::text::{char_is_whitespace, chars_of, is_digit, is_whitespace, string_from_chars};

verus! {

broadcast use vstd::seq_lib::group_seq_properties;

/// Start of the path segment that ends at `end`: just after the last `/`
/// before `end`, or 0.
pub open spec fn segment_start(s: Seq<char>, end: int) -> int
    decreases end,
{
    if end <= 0 {
        0
    } else if s[end - 1] == '/' {
        end
    } else {
        segment_start(s, end - 1)
    }
}

/// A segment starts between 0 and its end.
pub proof fn lemma_segment_start(s: Seq<char>, end: int)
    requires
        end >= 0,
    ensures
        0 <= segment_start(s, end) <= end,
    decreases end,
{
    if end > 0 && s[end - 1] != '/' {
        lemma_segment_start(s, end - 1);
    }
}

/// The last component of the path `s[..end]`, as `Path::file_name` finds
/// it: empty segments and `.` segments are passed over, and a last
/// component `..`, or none at all, gives no name. The result is the span
/// of the name in `s`.
pub open spec fn file_name_span(s: Seq<char>, end: int) -> Option<(int, int)>
    decreases end,
{
    if end <= 0 {
        None
    } else {
        proof {
            lemma_segment_start(s, end);
        }
        let st = segment_start(s, end);
        if st == end || (end == st + 1 && s[st] == '.') {
            if st == 0 {
                None
            } else {
                file_name_span(s, st - 1)
            }
        } else if end == st + 2 && s[st] == '.' && s[st + 1] == '.' {
            None
        } else {
            Some((st, end))
        }
    }
}

/// Position of the last `.` in `s[a..b]`.
pub open spec fn last_dot(s: Seq<char>, a: int, b: int) -> Option<int>
    decreases b - a,
{
    if b <= a {
        None
    } else if s[b - 1] == '.' {
        Some(b - 1)
    } else {
        last_dot(s, a, b - 1)
    }
}

/// End of the stem of the name `s[a..b]`: its last `.`, unless it has none
/// or that dot is its first character, in which case the whole name.
pub open spec fn stem_end(s: Seq<char>, a: int, b: int) -> int {
    match last_dot(s, a, b) {
        Some(d) => if d > a {
            d
        } else {
            b
        },
        None => b,
    }
}

/// Start of the extension of the name `s[a..b]`: after its last `.`, when
/// that dot is not its first character.
pub open spec fn extension_start(s: Seq<char>, a: int, b: int) -> Option<int> {
    match last_dot(s, a, b) {
        Some(d) => if d > a {
            Some(d + 1)
        } else {
            None
        },
        None => None,
    }
}

/// The stem of the path's file name, or the whole text when the path has no
/// file name.
pub open spec fn stem_of(s: Seq<char>) -> Seq<char> {
    match file_name_span(s, s.len() as int) {
        Some((a, b)) => s.subrange(a, stem_end(s, a, b)),
        None => s,
    }
}

/// The extension of the path's file name, when it has one.
pub open spec fn extension_of(s: Seq<char>) -> Option<Seq<char>> {
    match file_name_span(s, s.len() as int) {
        Some((a, b)) => match extension_start(s, a, b) {
            Some(e) => Some(s.subrange(e, b)),
            None => None,
        },
        None => None,
    }
}

/// `c` is `k`, or `k` is a lower-case ASCII letter and `c` its upper case.
pub open spec fn ascii_ci_eq(c: char, k: char) -> bool {
    c == k || ('a' <= k && k <= 'z' && c as int == k as int - 32)
}

/// `t` spells `k`, ignoring the case of ASCII letters (`k` in lower case).
pub open spec fn ci_equal(t: Seq<char>, k: Seq<char>) -> bool {
    t.len() == k.len() && forall|j: int| 0 <= j < k.len() ==> ascii_ci_eq(#[trigger] t[j], k[j])
}

/// `s` has `k` at position `i`, ignoring ASCII case.
pub open spec fn matches_at(s: Seq<char>, k: Seq<char>, i: int) -> bool {
    0 <= i && i + k.len() <= s.len() && ci_equal(s.subrange(i, i + k.len()), k)
}

/// First position at or after `i` where `s` has `k`, ignoring ASCII case.
pub open spec fn find_from(s: Seq<char>, k: Seq<char>, i: int) -> Option<int>
    decreases s.len() - i,
{
    if i < 0 || i + k.len() > s.len() {
        None
    } else if matches_at(s, k, i) {
        Some(i)
    } else {
        find_from(s, k, i + 1)
    }
}

/// What may stand between a keyword and its number.
pub open spec fn is_separator(c: char) -> bool {
    is_whitespace(c) || c == '_' || c == '-' || c == '.' || c == ':'
}

/// First position at or after `i` that does not hold a separator.
pub open spec fn skip_separators(s: Seq<char>, i: int) -> int
    decreases s.len() - i,
{
    if 0 <= i < s.len() && is_separator(s[i]) {
        skip_separators(s, i + 1)
    } else {
        i
    }
}

/// End of the number that starts at `i`: ASCII digits, with at most one `.`
/// that a digit follows.
pub open spec fn number_end(s: Seq<char>, i: int, dot_seen: bool) -> int
    decreases s.len() - i,
{
    if i < 0 || i >= s.len() {
        i
    } else if is_digit(s[i]) {
        number_end(s, i + 1, dot_seen)
    } else if s[i] == '.' && !dot_seen && i + 1 < s.len() && is_digit(s[i + 1]) {
        number_end(s, i + 1, true)
    } else {
        i
    }
}

/// The number that starts at `i`, when there is one.
pub open spec fn number_at(s: Seq<char>, i: int) -> Option<Seq<char>> {
    if number_end(s, i, false) > i {
        Some(s.subrange(i, number_end(s, i, false)))
    } else {
        None
    }
}

/// The number after the first occurrence of the keyword `k` in `s` and the
/// separators that follow it.
pub open spec fn number_after(s: Seq<char>, k: Seq<char>) -> Option<Seq<char>> {
    match find_from(s, k, 0) {
        Some(p) => number_at(s, skip_separators(s, p + k.len())),
        None => None,
    }
}

/// `a` when it holds a value, else `b`.
pub open spec fn either(a: Option<Seq<char>>, b: Option<Seq<char>>) -> Option<Seq<char>> {
    if a is Some {
        a
    } else {
        b
    }
}

/// The chapter number written in a file stem: the number after the first of
/// the keywords `chapter`, `episode`, `chap`, `ep`, `ch`, `vol`, `v`, `c`
/// (in that order, ignoring ASCII case) that is followed by one.
pub open spec fn chapter_number_in(stem: Seq<char>) -> Option<Seq<char>> {
    either(
        number_after(stem, "chapter"@),
        either(
            number_after(stem, "episode"@),
            either(
                number_after(stem, "chap"@),
                either(
                    number_after(stem, "ep"@),
                    either(
                        number_after(stem, "ch"@),
                        either(
                            number_after(stem, "vol"@),
                            either(number_after(stem, "v"@), number_after(stem, "c"@)),
                        ),
                    ),
                ),
            ),
        ),
    )
}

fn segment_start_exec(s: &Vec<char>, end: usize) -> (st: usize)
    requires
        end <= s.len(),
    ensures
        st == segment_start(s@, end as int),
        st <= end,
{
    let mut j = end;
    while j > 0 && s[j - 1] != '/'
        invariant
            j <= end <= s.len(),
            segment_start(s@, j as int) == segment_start(s@, end as int),
        decreases j,
    {
        j = j - 1;
    }
    j
}

/// The span of the file name of the path `s`.
pub fn file_name_span_of(s: &Vec<char>) -> (r: Option<(usize, usize)>)
    ensures
        r is Some <==> file_name_span(s@, s@.len() as int) is Some,
        r matches Some((a, b)) ==> file_name_span(s@, s@.len() as int) == Some((a as int, b as int))
            && a < b <= s@.len(),
{
    let mut end = s.len();
    loop
        invariant
            end <= s.len(),
            file_name_span(s@, end as int) == file_name_span(s@, s@.len() as int),
        decreases end,
    {
        if end == 0 {
            return None;
        }
        let st = segment_start_exec(s, end);
        if st == end || (end - st == 1 && s[st] == '.') {
            if st == 0 {
                return None;
            }
            end = st - 1;
        } else if end - st == 2 && s[st] == '.' && s[st + 1] == '.' {
            return None;
        } else {
            return Some((st, end));
        }
    }
}

fn last_dot_exec(s: &Vec<char>, a: usize, b: usize) -> (r: Option<usize>)
    requires
        a <= b <= s.len(),
    ensures
        r is Some <==> last_dot(s@, a as int, b as int) is Some,
        r matches Some(d) ==> last_dot(s@, a as int, b as int) == Some(d as int) && a <= d < b,
{
    let mut j = b;
    while j > a
        invariant
            a <= j <= b <= s.len(),
            last_dot(s@, a as int, j as int) == last_dot(s@, a as int, b as int),
        decreases j,
    {
        if s[j - 1] == '.' {
            return Some(j - 1);
        }
        j = j - 1;
    }
    None
}

/// The characters of `s[a..b]`.
pub fn slice_chars(s: &Vec<char>, a: usize, b: usize) -> (t: Vec<char>)
    requires
        a <= b <= s.len(),
    ensures
        t@ == s@.subrange(a as int, b as int),
{
    let mut t: Vec<char> = Vec::new();
    for i in a..b
        invariant
            a <= b <= s.len(),
            t@ == s@.subrange(a as int, i as int),
    {
        t.push(s[i]);
        proof {
            assert(s@.subrange(a as int, i + 1) =~= s@.subrange(a as int, i as int).push(s@[i as int]));
        }
    }
    t
}

/// The stem of the file name of the path `s` (the whole of `s` when it has
/// no file name).
pub fn stem_chars(s: &Vec<char>) -> (t: Vec<char>)
    ensures
        t@ == stem_of(s@),
{
    match file_name_span_of(s) {
        Some((a, b)) => {
            let e = match last_dot_exec(s, a, b) {
                Some(d) => if d > a {
                    d
                } else {
                    b
                },
                None => b,
            };
            slice_chars(s, a, e)
        },
        None => {
            proof {
                assert(s@.subrange(0, s@.len() as int) =~= s@);
            }
            slice_chars(s, 0, s.len())
        },
    }
}

/// The extension of the file name of the path `s`, when it has one.
pub fn extension_chars(s: &Vec<char>) -> (t: Option<Vec<char>>)
    ensures
        t is Some <==> extension_of(s@) is Some,
        t matches Some(e) ==> extension_of(s@) == Some(e@),
{
    match file_name_span_of(s) {
        Some((a, b)) => match last_dot_exec(s, a, b) {
            Some(d) => if d > a {
                Some(slice_chars(s, d + 1, b))
            } else {
                None
            },
            None => None,
        },
        None => None,
    }
}

fn ascii_ci_eq_exec(c: char, k: char) -> (b: bool)
    ensures
        b == ascii_ci_eq(c, k),
{
    c == k || ('a' <= k && k <= 'z' && (c as u32) + 32 == k as u32)
}

/// Whether `s` has `k` at `i`, ignoring ASCII case.
pub fn matches_at_exec(s: &Vec<char>, k: &Vec<char>, i: usize) -> (b: bool)
    requires
        i + k.len() <= s.len(),
    ensures
        b == matches_at(s@, k@, i as int),
{
    let ghost t = s@.subrange(i as int, i + k@.len());
    for j in 0..k.len()
        invariant
            i + k.len() <= s.len(),
            t == s@.subrange(i as int, i + k@.len()),
            forall|m: int| 0 <= m < j ==> ascii_ci_eq(#[trigger] t[m], k@[m]),
    {
        if !ascii_ci_eq_exec(s[i + j], k[j]) {
            assert(t[j as int] == s@[i + j]);
            return false;
        }
        assert(t[j as int] == s@[i + j]);
    }
    true
}

/// First position where `s` has `k`, ignoring ASCII case.
fn find_ci(s: &Vec<char>, k: &Vec<char>) -> (r: Option<usize>)
    ensures
        r is Some <==> find_from(s@, k@, 0) is Some,
        r matches Some(p) ==> find_from(s@, k@, 0) == Some(p as int) && p + k@.len() <= s@.len(),
{
    if k.len() > s.len() {
        return None;
    }
    let last = s.len() - k.len();
    let mut i: usize = 0;
    loop
        invariant
            last == s@.len() - k@.len(),
            i <= last,
            find_from(s@, k@, i as int) == find_from(s@, k@, 0),
        decreases last - i,
    {
        if matches_at_exec(s, k, i) {
            return Some(i);
        }
        if i == last {
            assert(find_from(s@, k@, i + 1) is None);
            return None;
        }
        i = i + 1;
    }
}

fn is_separator_exec(c: char) -> (b: bool)
    ensures
        b == is_separator(c),
{
    char_is_whitespace(c) || c == '_' || c == '-' || c == '.' || c == ':'
}

fn skip_separators_exec(s: &Vec<char>, i: usize) -> (r: usize)
    requires
        i <= s.len(),
    ensures
        r == skip_separators(s@, i as int),
        i <= r <= s.len(),
{
    let mut j = i;
    while j < s.len() && is_separator_exec(s[j])
        invariant
            i <= j <= s.len(),
            skip_separators(s@, j as int) == skip_separators(s@, i as int),
        decreases s.len() - j,
    {
        j = j + 1;
    }
    j
}

fn is_digit_exec(c: char) -> (b: bool)
    ensures
        b == is_digit(c),
{
    '0' <= c && c <= '9'
}

fn number_end_exec(s: &Vec<char>, i: usize) -> (r: usize)
    requires
        i <= s.len(),
    ensures
        r == number_end(s@, i as int, false),
        i <= r <= s.len(),
{
    let mut j = i;
    let mut dot_seen = false;
    loop
        invariant
            i <= j <= s.len(),
            number_end(s@, j as int, dot_seen) == number_end(s@, i as int, false),
        decreases s.len() - j,
    {
        if j >= s.len() {
            return j;
        }
        if is_digit_exec(s[j]) {
            j = j + 1;
        } else if s[j] == '.' && !dot_seen && j + 1 < s.len() && is_digit_exec(s[j + 1]) {
            dot_seen = true;
            j = j + 1;
        } else {
            return j;
        }
    }
}

/// The number after the first occurrence of `kw` in `stem`, as
/// `number_after` describes it.
fn number_after_exec(stem: &Vec<char>, kw: &str) -> (r: Option<Vec<char>>)
    ensures
        r is Some <==> number_after(stem@, kw@) is Some,
        r matches Some(n) ==> number_after(stem@, kw@) == Some(n@),
{
    let k = chars_of(kw);
    match find_ci(stem, &k) {
        Some(p) => {
            let kl = k.len();
            let n = stem.len();
            assert(p + kl <= n);
            let start = skip_separators_exec(stem, p + kl);
            let end = number_end_exec(stem, start);
            if end > start {
                Some(slice_chars(stem, start, end))
            } else {
                None
            }
        },
        None => None,
    }
}

/// The search for `k` from `i` stops at its first occurrence `p`.
proof fn lemma_find_first(s: Seq<char>, k: Seq<char>, i: int, p: int)
    requires
        0 <= i <= p,
        matches_at(s, k, p),
        forall|j: int| i <= j < p ==> !#[trigger] matches_at(s, k, j),
    ensures
        find_from(s, k, i) == Some(p),
    decreases p - i,
{
    if i < p {
        lemma_find_first(s, k, i + 1, p);
    }
}

/// Skipping separators from `i` stops at the first position `q` that holds
/// none.
proof fn lemma_skip_to(s: Seq<char>, i: int, q: int)
    requires
        0 <= i <= q < s.len(),
        forall|j: int| i <= j < q ==> is_separator(#[trigger] s[j]),
        !is_separator(s[q]),
    ensures
        skip_separators(s, i) == q,
    decreases q - i,
{
    if i < q {
        lemma_skip_to(s, i + 1, q);
    }
}

/// A run of digits from `i` to `e`, not followed by a digit or a `.`, is
/// one whole number.
proof fn lemma_digit_run(s: Seq<char>, i: int, e: int, dot_seen: bool)
    requires
        0 <= i <= e <= s.len(),
        forall|j: int| i <= j < e ==> is_digit(#[trigger] s[j]),
        e == s.len() || (!is_digit(s[e]) && s[e] != '.'),
    ensures
        number_end(s, i, dot_seen) == e,
    decreases e - i,
{
    if i < e {
        lemma_digit_run(s, i + 1, e, dot_seen);
    }
}

/// `chap` is a keyword of its own: in a stem where no `chapter` or
/// `episode` is followed by a number, and the first `chap` (in any ASCII
/// case) at `p` is followed by separators up to `q` and then by the digits
/// from `q` to `e` (no digit or `.` after them), the chapter number is
/// those digits. So `Chap_5` gives `5`.
pub proof fn lemma_chap_keyword(stem: Seq<char>, p: int, q: int, e: int)
    requires
        number_after(stem, "chapter"@) is None,
        number_after(stem, "episode"@) is None,
        0 <= p,
        p + 4 <= q < e <= stem.len(),
        ci_equal(stem.subrange(p, p + 4), "chap"@),
        forall|j: int| 0 <= j < p ==> !#[trigger] matches_at(stem, "chap"@, j),
        forall|j: int| p + 4 <= j < q ==> is_separator(#[trigger] stem[j]),
        forall|j: int| q <= j < e ==> is_digit(#[trigger] stem[j]),
        e == stem.len() || (!is_digit(stem[e]) && stem[e] != '.'),
    ensures
        chapter_number_in(stem) == Some(stem.subrange(q, e)),
{
    reveal_strlit("chap");
    assert("chap"@.len() == 4);
    assert(matches_at(stem, "chap"@, p));
    lemma_find_first(stem, "chap"@, 0, p);
    assert(is_digit(stem[q]));
    assert(!is_whitespace(stem[q]));
    lemma_skip_to(stem, p + 4, q);
    lemma_digit_run(stem, q, e, false);
    assert(number_after(stem, "chap"@) == Some(stem.subrange(q, e)));
}

/// The chapter number written in a file name, as text: the number after the
/// first keyword of `chapter_number_in` found in the name's stem (ignoring
/// ASCII case) that is followed, past separators, by one. A number is ASCII
/// digits with at most one `.` between digits.
pub fn chapter_number_text(filename: &str) -> (r: Option<String>)
    ensures
        r is Some <==> chapter_number_in(stem_of(filename@)) is Some,
        r matches Some(t) ==> chapter_number_in(stem_of(filename@)) == Some(t@),
{
    let s = chars_of(filename);
    let stem = stem_chars(&s);
    let mut found = number_after_exec(&stem, "chapter");
    if found.is_none() {
        found = number_after_exec(&stem, "episode");
    }
    if found.is_none() {
        found = number_after_exec(&stem, "chap");
    }
    if found.is_none() {
        found = number_after_exec(&stem, "ep");
    }
    if found.is_none() {
        found = number_after_exec(&stem, "ch");
    }
    if found.is_none() {
        found = number_after_exec(&stem, "vol");
    }
    if found.is_none() {
        found = number_after_exec(&stem, "v");
    }
    if found.is_none() {
        found = number_after_exec(&stem, "c");
    }
    match found {
        Some(n) => Some(string_from_chars(&n)),
        None => None,
    }
}

/// Whether the path names a `.cbz` or `.zip` file: its extension, ignoring
/// ASCII case, is `cbz` or `zip`.
pub fn has_comic_extension(path: &str) -> (b: bool)
    ensures
        b == (extension_of(path@) matches Some(e) && (ci_equal(e, "cbz"@) || ci_equal(e, "zip"@))),
{
    let s = chars_of(path);
    match extension_chars(&s) {
        Some(e) => {
            let cbz = chars_of("cbz");
            let zip = chars_of("zip");
            let a = e.len() == cbz.len() && matches_at_exec(&e, &cbz, 0);
            let b = e.len() == zip.len() && matches_at_exec(&e, &zip, 0);
            proof {
                assert(e@.subrange(0, e@.len() as int) =~= e@);
            }
            a || b
        },
        None => false,
    }
}

/// Whether a path lies on removable storage: it begins with `/media/`,
/// `/run/media/` or `/mnt/`, or holds `/usb`, ignoring ASCII case.
pub open spec fn on_removable_storage(p: Seq<char>) -> bool {
    matches_at(p, "/media/"@, 0) || matches_at(p, "/run/media/"@, 0) || matches_at(p, "/mnt/"@, 0)
        || find_from(p, "/usb"@, 0) is Some
}

fn starts_with_ci(s: &Vec<char>, lit: &str) -> (b: bool)
    ensures
        b == matches_at(s@, lit@, 0),
{
    let k = chars_of(lit);
    if k.len() > s.len() {
        return false;
    }
    matches_at_exec(s, &k, 0)
}

/// Whether the path lies on removable storage.
pub fn is_removable_storage_path(path: &str) -> (b: bool)
    ensures
        b == on_removable_storage(path@),
{
    let s = chars_of(path);
    let usb = chars_of("/usb");
    starts_with_ci(&s, "/media/") || starts_with_ci(&s, "/run/media/") || starts_with_ci(&s, "/mnt/")
        || find_ci(&s, &usb).is_some()
}

/// A path is given and lies on removable storage.
pub open spec fn removable_path(path: Option<&str>) -> bool {
    match path {
        Some(p) => on_removable_storage(p@),
        None => false,
    }
}

/// The storage profile to read a comic with: the one given, else `usb` when
/// the comic lies on removable storage, else none.
pub fn storage_profile_for(given: Option<&str>, path: Option<&str>) -> (r: Option<String>)
    ensures
        given matches Some(g) ==> (r matches Some(p) && p@ == g@),
        given is None && removable_path(path) ==> (r matches Some(p) && p@ == "usb"@),
        given is None && !removable_path(path) ==> r is None,
{
    match given {
        Some(g) => {
            let v = chars_of(g);
            Some(string_from_chars(&v))
        },
        None => match path {
            Some(p) => if is_removable_storage_path(p) {
                let v = chars_of("usb");
                Some(string_from_chars(&v))
            } else {
                None
            },
            None => None,
        },
    }
}

} // verus!
