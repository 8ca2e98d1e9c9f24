//! `.cbz` chapters: the zip archive's bytes, its page images in reading
//! order, and the bounded extraction and decoding of one page.
use vstd::prelude::*;

use crate::cli::views;
use crate::names::{file_name_span, file_name_span_of, matches_at, slice_chars};
use crate::text::{chars_of, decimal, push_decimal, push_str, string_from_chars};

verus! {

broadcast use vstd::seq_lib::group_seq_properties;

/// Most entries an archive may list.
pub const MAX_ARCHIVE_ENTRIES: usize = 2_000;

/// Most bytes one page may take, packed or unpacked.
pub const MAX_PAGE_FILE_SIZE: u64 = 64 * 1024 * 1024;

/// Most pixels an image may have across or down.
pub const MAX_IMAGE_DIMENSION: u32 = 16_384;

/// Most bytes the decoder may allocate for one image.
pub const MAX_IMAGE_ALLOC_BYTES: u64 = 256 * 1024 * 1024;

/// A decoded page: its size and its RGBA pixels.
pub struct DecodedImagePayload {
    pub width: u32,
    pub height: u32,
    pub rgba_bytes: Vec<u8>,
}

/// An opened chapter archive.
pub struct CbzArchive {
    pub path: String,
    pub filename: String,
    /// The image entries, in natural order of their names.
    pub image_entries: Vec<String>,
    pub data: Vec<u8>,
}

/// The first bytes of a zip archive: a local file header, an empty
/// archive's end record, or a spanned archive's marker.
pub open spec fn is_zip_header(b: Seq<u8>) -> bool {
    &&& b.len() >= 4
    &&& b[0] == 0x50u8
    &&& b[1] == 0x4Bu8
    &&& ((b[2] == 3u8 && b[3] == 4u8) || (b[2] == 5u8 && b[3] == 6u8) || (b[2] == 7u8 && b[3] == 8u8))
}

/// Whether a file whose content begins with `head` is a zip archive.
pub fn is_valid_zip_file(head: &[u8]) -> (b: bool)
    ensures
        b == is_zip_header(head@),
{
    head.len() >= 4 && head[0] == 0x50 && head[1] == 0x4B && ((head[2] == 3 && head[3] == 4) || (
    head[2] == 5 && head[3] == 6) || (head[2] == 7 && head[3] == 8))
}

/// The entries of a zip archive, each as its name and whether it is a
/// directory, or nothing where the entry cannot be opened.
pub open spec fn entry_views(v: Seq<Option<(String, bool)>>) -> Seq<Option<(Seq<char>, bool)>> {
    Seq::new(
        v.len(),
        |i: int|
            match v[i] {
                Some((n, d)) => Some((n@, d)),
                None => None,
            },
    )
}

/// What `zip::ZipArchive::new` finds in an archive's bytes: for each entry
/// in order, its name and whether it is a directory (or nothing where
/// `by_index` fails); or the message of the error that refuses the bytes.
pub uninterp spec fn zip_directory(data: Seq<u8>) -> Result<Seq<Option<(Seq<char>, bool)>>, Seq<char>>;

/// Reads the directory of the zip archive in `data` with
/// `zip::ZipArchive::new`, `len`, `by_index`, `ZipFile::name` and
/// `ZipFile::is_dir`. Claimed of the crate: the outcome is a function of the
/// bytes alone, named `zip_directory`; what it is on given bytes is left
/// unsaid.
#[verifier::external_body]
fn read_zip_directory(data: &[u8]) -> (r: Result<Vec<Option<(String, bool)>>, String>)
    ensures
        match r {
            Ok(v) => zip_directory(data@) == Ok::<Seq<Option<(Seq<char>, bool)>>, Seq<char>>(entry_views(v@)),
            Err(e) => zip_directory(data@) == Err::<Seq<Option<(Seq<char>, bool)>>, Seq<char>>(e@),
        },
{
    let mut zip = match zip::ZipArchive::new(std::io::Cursor::new(data)) {
        Ok(z) => z,
        Err(e) => return Err(e.to_string()),
    };
    let mut out = Vec::new();
    for i in 0..zip.len() {
        match zip.by_index(i) {
            Ok(f) => out.push(Some((f.name().to_string(), f.is_dir()))),
            Err(_) => out.push(None),
        }
    }
    Ok(out)
}

/// How `natord::compare` orders two names.
#[derive(PartialEq, Eq, Structural, Debug, Clone, Copy)]
pub enum NaturalOrder {
    Less,
    Equal,
    Greater,
}

/// The order the other way round.
pub open spec fn reversed(o: NaturalOrder) -> NaturalOrder {
    match o {
        NaturalOrder::Less => NaturalOrder::Greater,
        NaturalOrder::Equal => NaturalOrder::Equal,
        NaturalOrder::Greater => NaturalOrder::Less,
    }
}

/// `natord::compare`: the natural order of two texts, where runs of digits
/// compare as numbers and whitespace is skipped.
pub uninterp spec fn natural_order(a: Seq<char>, b: Seq<char>) -> NaturalOrder;

/// `natord::compare(a, b)`. Claimed of the crate: the result is a function
/// of the two texts, named `natural_order`, and comparing the other way
/// round gives the reversed result (its source treats both sides alike).
/// Nothing more of the order is claimed here.
#[verifier::external_body]
fn natural_compare(a: &str, b: &str) -> (r: NaturalOrder)
    ensures
        r == natural_order(a@, b@),
        natural_order(b@, a@) == reversed(r),
{
    match natord::compare(a, b) {
        std::cmp::Ordering::Less => NaturalOrder::Less,
        std::cmp::Ordering::Equal => NaturalOrder::Equal,
        std::cmp::Ordering::Greater => NaturalOrder::Greater,
    }
}

/// Each text comes no later than the next in the natural order.
pub open spec fn in_natural_order(s: Seq<Seq<char>>) -> bool {
    forall|i: int, j: int|
        #![trigger s[i], s[j]]
        0 <= i && j == i + 1 && j < s.len() ==> natural_order(s[i], s[j]) != NaturalOrder::Greater
}

/// `output` is `input` rearranged by `p` (entry `i` of `output` is entry
/// `p[i]` of `input`, each entry used once), and two entries are out of
/// their input order only where the natural order puts the later one first.
pub open spec fn stable_arrangement(input: Seq<Seq<char>>, output: Seq<Seq<char>>, p: Seq<int>) -> bool {
    &&& p.len() == output.len()
    &&& output.len() == input.len()
    &&& forall|i: int| 0 <= i < p.len() ==> 0 <= #[trigger] p[i] < input.len() && output[i] == input[p[i]]
    &&& forall|i: int, j: int| 0 <= i < j < p.len() ==> #[trigger] p[i] != #[trigger] p[j]
    &&& forall|i: int, j: int|
        #![trigger p[i], p[j]]
        0 <= i < j < p.len() && p[i] > p[j] ==> natural_order(output[j], output[i]) == NaturalOrder::Greater
}

/// Putting `x` at `pos` in the naturally ordered `w`, after the entries
/// that come no later than it and before those that come after it, keeps
/// the order, and keeps the arrangement stable when `x` is the next input.
proof fn lemma_insert_natural(
    w: Seq<Seq<char>>,
    x: Seq<char>,
    pos: int,
    input: Seq<Seq<char>>,
    perm: Seq<int>,
)
    requires
        in_natural_order(w),
        stable_arrangement(input, w, perm),
        0 <= pos <= w.len(),
        pos > 0 ==> natural_order(w[pos - 1], x) != NaturalOrder::Greater,
        forall|j: int|
            pos <= j < w.len() ==> natural_order(w[j], x) == NaturalOrder::Greater && natural_order(
                x,
                #[trigger] w[j],
            ) == NaturalOrder::Less,
    ensures
        in_natural_order(w.insert(pos, x)),
        stable_arrangement(input.push(x), w.insert(pos, x), perm.insert(pos, input.len() as int)),
{
    let v = w.insert(pos, x);
    let k = input.len() as int;
    let input2 = input.push(x);
    let p2 = perm.insert(pos, k);
    assert forall|i: int, j: int|
        #![trigger v[i], v[j]]
        0 <= i && j == i + 1 && j < v.len() implies natural_order(v[i], v[j]) != NaturalOrder::Greater by {
        if j < pos {
            assert(v[i] == w[i] && v[j] == w[j]);
        } else if j == pos {
            assert(v[i] == w[i] && v[j] == x);
        } else if i == pos {
            assert(v[i] == x && v[j] == w[i]);
        } else {
            assert(v[i] == w[i - 1] && v[j] == w[j - 1]);
        }
    }
    assert forall|i: int| 0 <= i < p2.len() implies 0 <= #[trigger] p2[i] < input2.len() && v[i]
        == input2[p2[i]] by {
        if i < pos {
            assert(p2[i] == perm[i] && v[i] == w[i]);
        } else if i > pos {
            assert(p2[i] == perm[i - 1] && v[i] == w[i - 1]);
        }
    }
    assert forall|i: int, j: int| 0 <= i < j < p2.len() implies #[trigger] p2[i] != #[trigger] p2[j] by {
        let i0 = if i < pos {
            i
        } else {
            i - 1
        };
        let j0 = if j < pos {
            j
        } else {
            j - 1
        };
        if i != pos && j != pos {
            assert(p2[i] == perm[i0] && p2[j] == perm[j0]);
        } else if i == pos {
            assert(p2[j] == perm[j0]);
        } else {
            assert(p2[i] == perm[i0]);
        }
    }
    assert forall|i: int, j: int|
        #![trigger p2[i], p2[j]]
        0 <= i < j < p2.len() && p2[i] > p2[j] implies natural_order(v[j], v[i]) == NaturalOrder::Greater by {
        let i0 = if i < pos {
            i
        } else {
            i - 1
        };
        let j0 = if j < pos {
            j
        } else {
            j - 1
        };
        if i != pos && j != pos {
            assert(p2[i] == perm[i0] && p2[j] == perm[j0]);
            assert(v[i] == w[i0] && v[j] == w[j0]);
        } else if i == pos {
            assert(v[j] == w[j0] && v[i] == x);
        } else {
            assert(p2[i] == perm[i0]);
            assert(p2[j] == k);
        }
    }
}

/// Sorts names into their natural order; names that compare equal keep the
/// order they came in.
pub fn sort_natural(names: &Vec<String>) -> (out: Vec<String>)
    ensures
        views(out@).to_multiset() == views(names@).to_multiset(),
        in_natural_order(views(out@)),
        exists|p: Seq<int>| stable_arrangement(views(names@), views(out@), p),
{
    broadcast use {vstd::seq_lib::to_multiset_insert, vstd::seq_lib::to_multiset_build};

    let mut out: Vec<String> = Vec::new();
    let n = names.len();
    let ghost mut perm: Seq<int> = Seq::empty();
    proof {
        assert(views(names@.take(0)) =~= Seq::<Seq<char>>::empty());
        assert(views(out@) =~= Seq::<Seq<char>>::empty());
    }
    for k in 0..n
        invariant
            n == names@.len(),
            views(out@).to_multiset() == views(names@.take(k as int)).to_multiset(),
            in_natural_order(views(out@)),
            stable_arrangement(views(names@.take(k as int)), views(out@), perm),
    {
        let x = names[k].clone();
        let mut pos = out.len();
        let mut done = false;
        while pos > 0 && !done
            invariant
                pos <= out@.len(),
                forall|j: int|
                    pos <= j < out@.len() ==> natural_order(views(out@)[j], x@) == NaturalOrder::Greater
                        && natural_order(x@, #[trigger] views(out@)[j]) == NaturalOrder::Less,
                done ==> pos > 0 && natural_order(views(out@)[pos - 1], x@) != NaturalOrder::Greater,
            decreases pos + (if done {
                0int
            } else {
                1int
            }),
        {
            if natural_compare(out[pos - 1].as_str(), x.as_str()) == NaturalOrder::Greater {
                pos = pos - 1;
            } else {
                done = true;
            }
        }
        let ghost before = out@;
        let ghost xv = x;
        proof {
            lemma_insert_natural(views(before), xv@, pos as int, views(names@.take(k as int)), perm);
            perm = perm.insert(pos as int, k as int);
        }
        out.insert(pos, x);
        proof {
            assert(out@ == before.insert(pos as int, xv));
            assert(views(out@) =~= views(before).insert(pos as int, xv@));
            assert(views(names@.take(k + 1)) =~= views(names@.take(k as int)).push(names@[k as int]@));
        }
    }
    proof {
        assert(names@.take(n as int) =~= names@);
    }
    out
}

/// `s` ends with `k`, ignoring ASCII case.
pub open spec fn ends_with_ci(s: Seq<char>, k: Seq<char>) -> bool {
    k.len() <= s.len() && matches_at(s, k, s.len() - k.len())
}

/// Whether an entry name is that of a page image: it ends, ignoring ASCII
/// case, with `.jpg`, `.jpeg`, `.png`, `.webp`, `.gif`, `.avif` or `.bmp`.
pub open spec fn is_image_name(n: Seq<char>) -> bool {
    ||| ends_with_ci(n, ".jpg"@)
    ||| ends_with_ci(n, ".jpeg"@)
    ||| ends_with_ci(n, ".png"@)
    ||| ends_with_ci(n, ".webp"@)
    ||| ends_with_ci(n, ".gif"@)
    ||| ends_with_ci(n, ".avif"@)
    ||| ends_with_ci(n, ".bmp"@)
}

/// The names of the entries that are page images (entries that open, are
/// not directories and have an image name), in archive order.
pub open spec fn image_names(es: Seq<Option<(Seq<char>, bool)>>) -> Seq<Seq<char>>
    decreases es.len(),
{
    if es.len() == 0 {
        Seq::empty()
    } else {
        let rest = image_names(es.drop_last());
        match es.last() {
            Some((n, d)) => if !d && is_image_name(n) {
                rest.push(n)
            } else {
                rest
            },
            None => rest,
        }
    }
}

/// There are no more page images than entries.
pub proof fn lemma_image_names_len(es: Seq<Option<(Seq<char>, bool)>>)
    ensures
        image_names(es).len() <= es.len(),
    decreases es.len(),
{
    if es.len() > 0 {
        lemma_image_names_len(es.drop_last());
    }
}

fn ends_with_ci_exec(s: &Vec<char>, lit: &str) -> (b: bool)
    ensures
        b == ends_with_ci(s@, lit@),
{
    let k = chars_of(lit);
    if k.len() > s.len() {
        return false;
    }
    crate::names::matches_at_exec(s, &k, s.len() - k.len())
}

/// Whether an entry name is that of a page image.
pub fn is_image_entry_name(name: &str) -> (b: bool)
    ensures
        b == is_image_name(name@),
{
    let s = chars_of(name);
    ends_with_ci_exec(&s, ".jpg") || ends_with_ci_exec(&s, ".jpeg") || ends_with_ci_exec(&s, ".png")
        || ends_with_ci_exec(&s, ".webp") || ends_with_ci_exec(&s, ".gif") || ends_with_ci_exec(
        &s,
        ".avif",
    ) || ends_with_ci_exec(&s, ".bmp")
}

/// The names of the page images among the entries, in archive order.
pub fn image_entry_names(entries: &Vec<Option<(String, bool)>>) -> (r: Vec<String>)
    ensures
        views(r@) == image_names(entry_views(entries@)),
{
    let mut r: Vec<String> = Vec::new();
    let n = entries.len();
    proof {
        assert(entry_views(entries@).take(0) =~= Seq::<Option<(Seq<char>, bool)>>::empty());
        assert(views(r@) =~= Seq::<Seq<char>>::empty());
    }
    for i in 0..n
        invariant
            n == entries@.len(),
            views(r@) == image_names(entry_views(entries@).take(i as int)),
    {
        let ghost es = entry_views(entries@);
        proof {
            assert(es.take(i + 1).drop_last() =~= es.take(i as int));
            assert(es.take(i + 1).last() == es[i as int]);
        }
        match &entries[i] {
            Some((name, is_dir)) => {
                if !*is_dir && is_image_entry_name(name.as_str()) {
                    let ghost before = r@;
                    r.push(name.clone());
                    proof {
                        assert(views(r@) =~= views(before).push(name@));
                    }
                }
            },
            None => {},
        }
    }
    proof {
        assert(entry_views(entries@).take(n as int) =~= entry_views(entries@));
    }
    r
}

/// The message for bytes that do not begin as a zip archive does.
pub open spec fn not_zip_message() -> Seq<char> {
    "File is not a valid ZIP/CBZ archive (missing PK magic header)"@
}

/// The message for a zip archive the crate refuses.
pub open spec fn unreadable_zip_message(e: Seq<char>) -> Seq<char> {
    "Failed to read ZIP archive: "@ + e
}

/// The message for an archive with `n` entries, over the limit.
pub open spec fn too_many_entries_message(n: nat) -> Seq<char> {
    "Archive contains too many entries ("@ + decimal(n) + " > maximum "@ + decimal(
        MAX_ARCHIVE_ENTRIES as nat,
    ) + ")"@
}

/// The file name of the archive's path, or `Unknown.cbz` when it has none.
pub open spec fn archive_file_name(path: Seq<char>) -> Seq<char> {
    match file_name_span(path, path.len() as int) {
        Some((a, b)) => path.subrange(a, b),
        None => "Unknown.cbz"@,
    }
}

/// A zip listing as plain values.
pub open spec fn listing_view(l: Result<Vec<Option<(String, bool)>>, String>) -> Result<
    Seq<Option<(Seq<char>, bool)>>,
    Seq<char>,
> {
    match l {
        Ok(v) => Ok(entry_views(v@)),
        Err(e) => Err(e@),
    }
}

/// What opening an archive gives, once its zip listing is known: the
/// crate's refusal as an error; too many entries as an error; else the
/// archive, with its page images in natural order.
pub open spec fn listing_outcome(
    path: Seq<char>,
    data: Seq<u8>,
    listing: Result<Seq<Option<(Seq<char>, bool)>>, Seq<char>>,
    r: Result<CbzArchive, String>,
) -> bool {
    match listing {
        Err(m) => r matches Err(e) && e@ == unreadable_zip_message(m),
        Ok(es) => if es.len() > MAX_ARCHIVE_ENTRIES {
            r matches Err(e) && e@ == too_many_entries_message(es.len())
        } else {
            r matches Ok(a) && a.opened_from(path, data, es)
        },
    }
}

fn message_from(v: Vec<char>) -> (s: String)
    ensures
        s@ == v@,
{
    string_from_chars(&v)
}

/// What `ZipFile::size` declares of the entry `name` of the zip archive in
/// `data`, or the message of the error met on the way there.
pub uninterp spec fn zip_entry_size(data: Seq<u8>, name: Seq<char>) -> Result<u64, Seq<char>>;

/// What reading at most `cap` bytes of the entry `name` of the zip archive
/// in `data` gives, or the message of the error met on the way.
pub uninterp spec fn zip_entry_content(data: Seq<u8>, name: Seq<char>, cap: u64) -> Result<Seq<u8>, Seq<char>>;

/// The declared unpacked size of an entry: `zip::ZipArchive::new`,
/// `by_name`, `ZipFile::size`. Claimed of the crate: the outcome is a
/// function of the bytes and the name, named `zip_entry_size`.
#[verifier::external_body]
fn read_zip_entry_size(data: &[u8], name: &str) -> (r: Result<u64, String>)
    ensures
        match r {
            Ok(n) => zip_entry_size(data@, name@) == Ok::<u64, Seq<char>>(n),
            Err(e) => zip_entry_size(data@, name@) == Err::<u64, Seq<char>>(e@),
        },
{
    let mut zip = match zip::ZipArchive::new(std::io::Cursor::new(data)) {
        Ok(z) => z,
        Err(e) => return Err(e.to_string()),
    };
    let r = match zip.by_name(name) {
        Ok(f) => Ok(f.size()),
        Err(e) => Err(e.to_string()),
    };
    r
}

/// The unpacked bytes of an entry, at most `cap` of them: `by_name`, then
/// `Read::take(cap)` and `read_to_end` on the entry. Claimed of the crate
/// and of std: the outcome is a function of the bytes, the name and the
/// cap, named `zip_entry_content`, and holds no more than `cap` bytes.
#[verifier::external_body]
fn read_zip_entry(data: &[u8], name: &str, cap: u64) -> (r: Result<Vec<u8>, String>)
    ensures
        match r {
            Ok(b) => zip_entry_content(data@, name@, cap) == Ok::<Seq<u8>, Seq<char>>(b@) && b@.len() <= cap,
            Err(e) => zip_entry_content(data@, name@, cap) == Err::<Seq<u8>, Seq<char>>(e@),
        },
{
    let mut zip = match zip::ZipArchive::new(std::io::Cursor::new(data)) {
        Ok(z) => z,
        Err(e) => return Err(e.to_string()),
    };
    let entry = match zip.by_name(name) {
        Ok(f) => f,
        Err(e) => return Err(e.to_string()),
    };
    let mut buf = Vec::new();
    let r = match std::io::Read::read_to_end(&mut std::io::Read::take(entry, cap), &mut buf) {
        Ok(_) => Ok(buf),
        Err(e) => Err(e.to_string()),
    };
    r
}

/// The message for an entry that declares more than the limit.
pub open spec fn declared_too_large_message(name: Seq<char>, size: u64) -> Seq<char> {
    "Entry '"@ + name + "' declares size exceeding limit ("@ + decimal(size as nat) + " > "@
        + decimal(MAX_PAGE_FILE_SIZE as nat) + " bytes)"@
}

/// The message for an entry that unpacks to more than the limit.
pub open spec fn unpacked_too_large_message(name: Seq<char>) -> Seq<char> {
    "Entry '"@ + name + "' decompressed beyond maximum limit ("@ + decimal(MAX_PAGE_FILE_SIZE as nat)
        + " bytes)"@
}

/// A page entry's declared size, checked against the limit: an error
/// passes on, a size over the limit is refused.
pub fn check_declared_size(name: &str, declared: Result<u64, String>) -> (r: Result<(), String>)
    ensures
        declared matches Err(m) ==> (r matches Err(e) && e@ == m@),
        declared matches Ok(n) ==> (n > MAX_PAGE_FILE_SIZE <==> r is Err),
        declared matches Ok(n) ==> (r matches Err(e) ==> e@ == declared_too_large_message(name@, n)),
{
    match declared {
        Err(m) => Err(m),
        Ok(n) => if n > MAX_PAGE_FILE_SIZE {
            let mut v: Vec<char> = Vec::new();
            push_str(&mut v, "Entry '");
            push_str(&mut v, name);
            push_str(&mut v, "' declares size exceeding limit (");
            push_decimal(&mut v, n);
            push_str(&mut v, " > ");
            push_decimal(&mut v, MAX_PAGE_FILE_SIZE);
            push_str(&mut v, " bytes)");
            Err(message_from(v))
        } else {
            Ok(())
        },
    }
}

/// A page entry's unpacked bytes, checked against the limit: an error
/// passes on, more bytes than the limit are refused, else the bytes.
pub fn check_unpacked_size(name: &str, read: Result<Vec<u8>, String>) -> (r: Result<Vec<u8>, String>)
    ensures
        read matches Err(m) ==> (r matches Err(e) && e@ == m@),
        read matches Ok(b) ==> (b@.len() > MAX_PAGE_FILE_SIZE ==> (r matches Err(e) && e@
            == unpacked_too_large_message(name@))),
        read matches Ok(b) ==> (b@.len() <= MAX_PAGE_FILE_SIZE ==> (r matches Ok(c) && c@ == b@)),
{
    match read {
        Err(m) => Err(m),
        Ok(b) => if b.len() as u64 > MAX_PAGE_FILE_SIZE {
            let mut v: Vec<char> = Vec::new();
            push_str(&mut v, "Entry '");
            push_str(&mut v, name);
            push_str(&mut v, "' decompressed beyond maximum limit (");
            push_decimal(&mut v, MAX_PAGE_FILE_SIZE);
            push_str(&mut v, " bytes)");
            Err(message_from(v))
        } else {
            Ok(b)
        },
    }
}

/// The outcome of extracting the entry `name` from the zip archive in
/// `data`, given what the crate reports of it: the declared size first,
/// then at most one byte more than the limit of its content.
pub open spec fn extraction_outcome(data: Seq<u8>, name: Seq<char>, r: Result<Vec<u8>, String>) -> bool {
    match zip_entry_size(data, name) {
        Err(m) => r matches Err(e) && e@ == m,
        Ok(n) => if n > MAX_PAGE_FILE_SIZE {
            r matches Err(e) && e@ == declared_too_large_message(name, n)
        } else {
            match zip_entry_content(data, name, (MAX_PAGE_FILE_SIZE + 1) as u64) {
                Err(m) => r matches Err(e) && e@ == m,
                Ok(b) => if b.len() > MAX_PAGE_FILE_SIZE {
                    r matches Err(e) && e@ == unpacked_too_large_message(name)
                } else {
                    r matches Ok(c) && c@ == b
                },
            }
        },
    }
}

/// What the `image` crate makes of an encoded image with the given limits
/// on width and height and on allocation: its width, height and RGBA8
/// pixels; or whether the format went unrecognised, and the error's
/// message.
pub uninterp spec fn decoded_image(bytes: Seq<u8>, max_dimension: u32, max_alloc: u64) -> Result<
    (u32, u32, Seq<u8>),
    (bool, Seq<char>),
>;

/// Decodes an encoded image with `image::ImageReader` (`with_guessed_format`,
/// `limits`, `decode`, `into_rgba8`). Claimed of the crate: the outcome is a
/// function of the bytes and the limits, named `decoded_image`; a decoded
/// image is no wider or higher than `max_dimension` (the limits are checked
/// before decoding) and has four bytes per pixel.
#[verifier::external_body]
fn decode_rgba(bytes: &[u8], max_dimension: u32, max_alloc: u64) -> (r: Result<(u32, u32, Vec<u8>), (bool, String)>)
    ensures
        match r {
            Ok((w, h, px)) => decoded_image(bytes@, max_dimension, max_alloc) == Ok::<
                (u32, u32, Seq<u8>),
                (bool, Seq<char>),
            >((w, h, px@)) && w <= max_dimension && h <= max_dimension && px@.len() == w * h * 4,
            Err((f, e)) => decoded_image(bytes@, max_dimension, max_alloc) == Err::<
                (u32, u32, Seq<u8>),
                (bool, Seq<char>),
            >((f, e@)),
        },
{
    let mut limits = image::Limits::default();
    limits.max_image_width = Some(max_dimension);
    limits.max_image_height = Some(max_dimension);
    limits.max_alloc = Some(max_alloc);
    let mut reader = match image::ImageReader::new(std::io::Cursor::new(bytes)).with_guessed_format() {
        Ok(r) => r,
        Err(e) => return Err((true, e.to_string())),
    };
    reader.limits(limits);
    let rgba = match reader.decode() {
        Ok(img) => img.into_rgba8(),
        Err(e) => return Err((false, e.to_string())),
    };
    Ok((rgba.width(), rgba.height(), rgba.into_raw()))
}

/// A page that decodes always passes the texture's size check: its pixels
/// number four bytes per pixel, and that count fits in 32 bits.
pub proof fn lemma_decoded_page_fits_texture(width: u32, height: u32, len: nat)
    requires
        width <= MAX_IMAGE_DIMENSION,
        height <= MAX_IMAGE_DIMENSION,
        len == width * height * 4,
    ensures
        width * height * 4 <= u32::MAX,
{
    assert(width * height <= 16384 * 16384) by (nonlinear_arith)
        requires
            width <= 16384,
            height <= 16384,
    ;
}

/// The message for pixels whose count does not fit the image's size.
pub open spec fn rgba_mismatch_message(expected: nat, got: nat) -> Seq<char> {
    "RGBA byte count mismatch: expected "@ + decimal(expected) + " but got "@ + decimal(got)
}

/// The message for an encoded image over the size limit.
pub open spec fn payload_too_large_message(len: nat) -> Seq<char> {
    "Image byte payload exceeds maximum allowed size ("@ + decimal(len) + " > "@ + decimal(
        MAX_PAGE_FILE_SIZE as nat,
    ) + " bytes)"@
}

/// The message for a decoding failure: an unrecognised format, or another
/// error.
pub open spec fn decode_failure_message(unrecognised: bool, e: Seq<char>) -> Seq<char> {
    if unrecognised {
        "Failed to recognize image format: "@ + e
    } else {
        "Failed to decode image: "@ + e
    }
}

/// The decoder's outcome as the reader reports it: the image, or an error
/// message that says which step failed.
pub fn decode_outcome(outcome: Result<(u32, u32, Vec<u8>), (bool, String)>) -> (r: Result<(u32, u32, Vec<u8>), String>)
    ensures
        outcome matches Ok((w, h, px)) ==> (r matches Ok((w2, h2, px2)) && w2 == w && h2 == h && px2@
            == px@),
        outcome matches Err((f, m)) ==> (r matches Err(e) && e@ == decode_failure_message(f, m@)),
{
    match outcome {
        Ok((w, h, px)) => Ok((w, h, px)),
        Err((f, m)) => {
            let mut v: Vec<char> = Vec::new();
            if f {
                push_str(&mut v, "Failed to recognize image format: ");
            } else {
                push_str(&mut v, "Failed to decode image: ");
            }
            push_str(&mut v, m.as_str());
            Err(message_from(v))
        },
    }
}

/// The outcome of decoding a page's bytes: refused when they are more than
/// `MAX_PAGE_FILE_SIZE`, else what the decoder makes of them under the
/// dimension and allocation limits.
pub open spec fn decoding_outcome(bytes: Seq<u8>, r: Result<(u32, u32, Vec<u8>), String>) -> bool {
    if bytes.len() > MAX_PAGE_FILE_SIZE {
        r matches Err(e) && e@ == payload_too_large_message(bytes.len())
    } else {
        match decoded_image(bytes, MAX_IMAGE_DIMENSION, MAX_IMAGE_ALLOC_BYTES) {
            Ok((w, h, px)) => r matches Ok((w2, h2, px2)) && w2 == w && h2 == h && px2@ == px,
            Err((f, m)) => r matches Err(e) && e@ == decode_failure_message(f, m),
        }
    }
}

impl CbzArchive {
    /// Number of pages.
    pub fn page_count(&self) -> (n: usize)
        ensures
            n == self.image_entries@.len(),
    {
        self.image_entries.len()
    }

    /// The archive was read from the file at `path` with bytes `data`,
    /// whose zip listing is `es`: its page images are those of the listing,
    /// in natural order, names that compare equal in listing order.
    pub open spec fn opened_from(
        &self,
        path: Seq<char>,
        data: Seq<u8>,
        es: Seq<Option<(Seq<char>, bool)>>,
    ) -> bool {
        &&& self.path@ == path
        &&& self.filename@ == archive_file_name(path)
        &&& self.data@ == data
        &&& views(self.image_entries@).to_multiset() == image_names(es).to_multiset()
        &&& in_natural_order(views(self.image_entries@))
        &&& exists|p: Seq<int>| stable_arrangement(image_names(es), views(self.image_entries@), p)
    }

    /// Builds the archive of the file at `path`, with bytes `data`, from the
    /// zip listing read from those bytes.
    pub fn from_listing(
        path: &str,
        data: Vec<u8>,
        listing: Result<Vec<Option<(String, bool)>>, String>,
    ) -> (r: Result<CbzArchive, String>)
        ensures
            listing_outcome(path@, data@, listing_view(listing), r),
            r matches Ok(a) ==> a.image_entries@.len() <= MAX_ARCHIVE_ENTRIES,
    {
        match listing {
            Err(m) => {
                let mut v: Vec<char> = Vec::new();
                push_str(&mut v, "Failed to read ZIP archive: ");
                push_str(&mut v, m.as_str());
                Err(message_from(v))
            },
            Ok(es) => {
                if es.len() > MAX_ARCHIVE_ENTRIES {
                    let mut v: Vec<char> = Vec::new();
                    push_str(&mut v, "Archive contains too many entries (");
                    push_decimal(&mut v, es.len() as u64);
                    push_str(&mut v, " > maximum ");
                    push_decimal(&mut v, MAX_ARCHIVE_ENTRIES as u64);
                    push_str(&mut v, ")");
                    return Err(message_from(v));
                }
                let names = image_entry_names(&es);
                let image_entries = sort_natural(&names);
                proof {
                    broadcast use vstd::seq_lib::to_multiset_len;

                    lemma_image_names_len(entry_views(es@));
                    assert(views(names@).len() == names@.len());
                    assert(views(image_entries@).len() == image_entries@.len());
                    assert(views(image_entries@).to_multiset().len() == views(names@).to_multiset().len());
                }
                let p = chars_of(path);
                let filename = match file_name_span_of(&p) {
                    Some((a, b)) => message_from(slice_chars(&p, a, b)),
                    None => message_from(chars_of("Unknown.cbz")),
                };
                let path_copy = message_from(p);
                Ok(CbzArchive { path: path_copy, filename, image_entries, data })
            },
        }
    }

    /// Opens the archive of the file at `path`, whose bytes are `data`: bytes
    /// that do not begin as a zip archive are refused; otherwise the outcome
    /// is that of `from_listing` on the zip listing of the bytes.
    pub fn open(path: &str, data: Vec<u8>) -> (r: Result<CbzArchive, String>)
        ensures
            !is_zip_header(data@) ==> (r matches Err(e) && e@ == not_zip_message()),
            is_zip_header(data@) ==> listing_outcome(path@, data@, zip_directory(data@), r),
            r matches Ok(a) ==> a.image_entries@.len() <= MAX_ARCHIVE_ENTRIES,
    {
        if !is_valid_zip_file(data.as_slice()) {
            return Err(message_from(chars_of(
                "File is not a valid ZIP/CBZ archive (missing PK magic header)",
            )));
        }
        let listing = read_zip_directory(data.as_slice());
        proof {
            assert(listing_view(listing) == zip_directory(data@));
        }
        Self::from_listing(path, data, listing)
    }

    /// The unpacked bytes of the entry `entry_name` of the zip archive in
    /// `data`, refused when it declares, or unpacks to, more than
    /// `MAX_PAGE_FILE_SIZE` bytes.
    pub fn extract_entry_bytes(data: &[u8], entry_name: &str) -> (r: Result<Vec<u8>, String>)
        ensures
            extraction_outcome(data@, entry_name@, r),
            r matches Ok(b) ==> b@.len() <= MAX_PAGE_FILE_SIZE,
    {
        let declared = read_zip_entry_size(data, entry_name);
        match check_declared_size(entry_name, declared) {
            Err(e) => Err(e),
            Ok(()) => {
                let read = read_zip_entry(data, entry_name, MAX_PAGE_FILE_SIZE + 1);
                check_unpacked_size(entry_name, read)
            },
        }
    }

    /// Decodes a page's bytes into its width, height and RGBA8 pixels.
    pub fn decode_page_bytes(bytes: &[u8]) -> (r: Result<(u32, u32, Vec<u8>), String>)
        ensures
            decoding_outcome(bytes@, r),
            r matches Ok((w, h, px)) ==> w <= MAX_IMAGE_DIMENSION && h <= MAX_IMAGE_DIMENSION && px@.len()
                == w * h * 4,
    {
        if bytes.len() as u64 > MAX_PAGE_FILE_SIZE {
            let mut v: Vec<char> = Vec::new();
            push_str(&mut v, "Image byte payload exceeds maximum allowed size (");
            push_decimal(&mut v, bytes.len() as u64);
            push_str(&mut v, " > ");
            push_decimal(&mut v, MAX_PAGE_FILE_SIZE);
            push_str(&mut v, " bytes)");
            return Err(message_from(v));
        }
        let outcome = decode_rgba(bytes, MAX_IMAGE_DIMENSION, MAX_IMAGE_ALLOC_BYTES);
        decode_outcome(outcome)
    }

    /// The size of RGBA pixels for an image of `width` by `height`, checked
    /// against the `len` bytes at hand before they become a texture.
    pub fn rgba_byte_size(width: u32, height: u32, len: usize) -> (r: Result<usize, String>)
        requires
            width * height * 4 <= u32::MAX,
        ensures
            r is Ok <==> len == width * height * 4,
            r matches Ok(n) ==> n == width * height * 4,
            r matches Err(e) ==> e@ == rgba_mismatch_message((width * height * 4) as nat, len as nat),
    {
        proof {
            vstd::arithmetic::mul::lemma_mul_nonnegative(width as int, height as int);
        }
        let byte_size = (width * height * 4) as usize;
        if len != byte_size {
            let mut v: Vec<char> = Vec::new();
            push_str(&mut v, "RGBA byte count mismatch: expected ");
            push_decimal(&mut v, byte_size as u64);
            push_str(&mut v, " but got ");
            push_decimal(&mut v, len as u64);
            return Err(message_from(v));
        }
        Ok(byte_size)
    }

    /// Size that a page is assumed to have before it is decoded.
    pub fn get_dimensions(&self, _index: usize) -> (d: (u32, u32))
        ensures
            d == (800u32, 1400u32),
    {
        (800, 1400)
    }
}

} // verus!
