//! The reader view's state: how pages are laid out, the chapters loaded in
//! the stream with their page images, and the page decodes under way.
use vstd::prelude::*;

use crate::archive::CbzArchive;
use crate::cache::PageKey;
use crate::names::{ci_equal, matches_at_exec};
use crate::requests::{
    lemma_select_requests_fresh, nearest_first, positions_nearest_first, select_into,
    select_requests,
};
use crate::engine::remove_key;
use crate::stream::{
    chapter_pages, lemma_stream_key_has_chapter, stream_keys, ChapterInfo, ChapterStream,
    DirectorySeries,
};
use crate::text::{char_is_whitespace, chars_of, is_whitespace};

verus! {

broadcast use vstd::seq_lib::group_seq_properties;

/// How pages are laid out: one long vertical strip, or side by side.
#[derive(Debug, Clone, Copy, PartialEq, Eq, Structural)]
pub enum ReadingMode {
    ContinuousVertical,
    ContinuousHorizontal,
}

/// `s` without its leading Unicode whitespace.
pub open spec fn trim_start(s: Seq<char>) -> Seq<char>
    decreases s.len(),
{
    if s.len() > 0 && is_whitespace(s[0]) {
        trim_start(s.drop_first())
    } else {
        s
    }
}

/// `s` without its trailing Unicode whitespace.
pub open spec fn trim_end(s: Seq<char>) -> Seq<char>
    decreases s.len(),
{
    if s.len() > 0 && is_whitespace(s.last()) {
        trim_end(s.drop_last())
    } else {
        s
    }
}

/// `s` without whitespace at either end, as `str::trim` gives it.
pub open spec fn trim(s: Seq<char>) -> Seq<char> {
    trim_end(trim_start(s))
}

/// The names that ask for the side-by-side layout: `manga`, `horizontal`
/// and `paged`, in any ASCII case, with whitespace around them.
pub open spec fn names_horizontal(s: Seq<char>) -> bool {
    ci_equal(trim(s), "manga"@) || ci_equal(trim(s), "horizontal"@) || ci_equal(trim(s), "paged"@)
}

/// The characters of `s` without whitespace at either end.
#[verifier::spinoff_prover]
#[verifier::rlimit(30)]
pub fn trimmed_chars(s: &str) -> (t: Vec<char>)
    ensures
        t@ == trim(s@),
{
    let c = chars_of(s);
    let n = c.len();
    let mut i: usize = 0;
    proof {
        assert(c@.skip(0) =~= c@);
    }
    while i < n && char_is_whitespace(c[i])
        invariant
            n == c@.len(),
            c@ == s@,
            i <= n,
            trim_start(c@.skip(i as int)) == trim_start(s@),
        decreases n - i,
    {
        proof {
            assert(c@.skip(i as int).drop_first() =~= c@.skip(i + 1));
        }
        i = i + 1;
    }
    let mut j: usize = n;
    proof {
        assert(c@.subrange(i as int, n as int) =~= c@.skip(i as int));
    }
    while j > i && char_is_whitespace(c[j - 1])
        invariant
            n == c@.len(),
            i <= j <= n,
            trim_end(c@.subrange(i as int, j as int)) == trim_end(c@.skip(i as int)),
        decreases j,
    {
        proof {
            assert(c@.subrange(i as int, j as int).drop_last() =~= c@.subrange(i as int, j - 1));
        }
        j = j - 1;
    }
    let mut t: Vec<char> = Vec::new();
    for k in i..j
        invariant
            i <= j <= n,
            n == c@.len(),
            t@ == c@.subrange(i as int, k as int),
    {
        t.push(c[k]);
        proof {
            assert(c@.subrange(i as int, k + 1) =~= c@.subrange(i as int, k as int).push(c@[k as int]));
        }
    }
    t
}

fn equals_ci(t: &Vec<char>, lit: &str) -> (b: bool)
    ensures
        b == ci_equal(t@, lit@),
{
    let k = chars_of(lit);
    if k.len() != t.len() {
        return false;
    }
    let r = matches_at_exec(t, &k, 0);
    proof {
        assert(t@.subrange(0, k@.len() as int) =~= t@);
    }
    r
}

impl ReadingMode {
    /// The layout a name asks for: side by side for `manga`, `horizontal`
    /// or `paged` (any ASCII case, whitespace around ignored), else the
    /// vertical strip.
    pub fn from_str_loose(s: &str) -> (m: ReadingMode)
        ensures
            m == (if names_horizontal(s@) {
                ReadingMode::ContinuousHorizontal
            } else {
                ReadingMode::ContinuousVertical
            }),
    {
        let t = trimmed_chars(s);
        if equals_ci(&t, "manga") || equals_ci(&t, "horizontal") || equals_ci(&t, "paged") {
            ReadingMode::ContinuousHorizontal
        } else {
            ReadingMode::ContinuousVertical
        }
    }

    /// The layout's name: `webtoon` for the vertical strip, `manga` for
    /// pages side by side.
    pub fn as_str(&self) -> (s: &'static str)
        ensures
            s@ == (match self {
                ReadingMode::ContinuousVertical => "webtoon"@,
                ReadingMode::ContinuousHorizontal => "manga"@,
            }),
    {
        match self {
            ReadingMode::ContinuousVertical => "webtoon",
            ReadingMode::ContinuousHorizontal => "manga",
        }
    }

    /// The other layout.
    pub fn toggled(&self) -> (m: ReadingMode)
        ensures
            m != *self,
    {
        match self {
            ReadingMode::ContinuousVertical => ReadingMode::ContinuousHorizontal,
            ReadingMode::ContinuousHorizontal => ReadingMode::ContinuousVertical,
        }
    }
}

/// Reading a layout's own name gives the layout back: `manga` names the
/// side-by-side layout and `webtoon` does not.
pub proof fn lemma_mode_names_round_trip()
    ensures
        names_horizontal("manga"@),
        !names_horizontal("webtoon"@),
{
    reveal_strlit("manga");
    reveal_strlit("webtoon");
    reveal_strlit("horizontal");
    reveal_strlit("paged");
    let m = "manga"@;
    let w = "webtoon"@;
    assert(!is_whitespace(m[0]) && !is_whitespace(m.last()));
    assert(trim_start(m) == m);
    assert(trim_end(m) == m);
    assert(ci_equal(trim(m), m));
    assert(!is_whitespace(w[0]) && !is_whitespace(w.last()));
    assert(trim_start(w) == w);
    assert(trim_end(w) == w);
    assert(trim(w).len() == 7);
}

/// The size a page is laid out at: its own when both sides are known
/// (non-zero), else 800 by 1200.
pub fn page_dimensions(width: u32, height: u32) -> (d: (u32, u32))
    ensures
        d == (if width > 0 && height > 0 {
            (width, height)
        } else {
            (800u32, 1200u32)
        }),
{
    if width > 0 && height > 0 {
        (width, height)
    } else {
        (800, 1200)
    }
}

/// Most page decodes under way at once.
pub const MAX_CONCURRENT_IN_FLIGHT: usize = 8;

/// Pages before the one on screen whose decoding is asked for.
pub const PAGES_BEHIND: usize = 4;

/// Pages from the one on screen on whose decoding is asked for.
pub const PAGES_AHEAD: usize = 16;

/// A page to decode: its key, the file of its chapter and its entry there.
pub struct PageLoad {
    pub key: PageKey,
    pub archive_path: String,
    pub entry_name: String,
}

/// Position of the loaded chapter with id `id`.
pub open spec fn chapter_index(cs: Seq<ChapterInfo>, id: usize) -> int {
    choose|c: int| 0 <= c < cs.len() && cs[c].chapter_id == id
}

/// The pages whose decoding is considered with page `current` on screen:
/// from four before it to fifteen after it, nearest first.
pub open spec fn dispatch_candidates(keys: Seq<PageKey>, current: usize) -> Seq<PageKey> {
    let start = if current >= PAGES_BEHIND {
        current - PAGES_BEHIND
    } else {
        0
    };
    let end = if current + PAGES_AHEAD < keys.len() {
        current + PAGES_AHEAD
    } else {
        keys.len() as int
    };
    if start < end {
        let order = nearest_first(start, end, current as int);
        Seq::new((end - start) as nat, |k: int| keys[order[k]])
    } else {
        Seq::empty()
    }
}

/// `l` loads page `k` from the loaded chapters `cs`, whose page images are
/// `en`: the file of the chapter with the page's id, and its page image.
pub open spec fn loads_page(l: PageLoad, k: PageKey, cs: Seq<ChapterInfo>, en: Seq<Seq<String>>) -> bool {
    let c = chapter_index(cs, k.chapter_idx);
    &&& l.key == k
    &&& 0 <= c < cs.len()
    &&& cs[c].chapter_id == k.chapter_idx
    &&& c < en.len()
    &&& k.page_idx < en[c].len()
    &&& l.archive_path == cs[c].archive_path
    &&& l.entry_name == en[c][k.page_idx as int]
}

/// What the reader view decides on.
pub struct ReaderState {
    series: Option<DirectorySeries>,
    stream: ChapterStream,
    entries: Vec<Vec<String>>,
    in_flight: Vec<PageKey>,
    generation_id: usize,
    reading_mode: ReadingMode,
}

impl ReaderState {
    /// The loaded chapters, in reading order.
    pub closed spec fn loaded_chapters(&self) -> Seq<ChapterInfo> {
        self.stream.chapter_seq()
    }

    /// The global page order.
    pub closed spec fn page_keys(&self) -> Seq<PageKey> {
        self.stream.key_seq()
    }

    /// The page images of each loaded chapter, in the same order.
    pub closed spec fn entry_names(&self) -> Seq<Seq<String>> {
        Seq::new(self.entries@.len(), |i: int| self.entries@[i]@)
    }

    /// The series being read.
    pub closed spec fn series(&self) -> Option<Seq<String>> {
        match self.series {
            Some(s) => Some(s.dir_files@),
            None => None,
        }
    }

    /// The file at series position `i`, when there is one.
    pub open spec fn series_file(&self, i: int) -> Option<String> {
        match self.series() {
            Some(files) => if 0 <= i < files.len() {
                Some(files[i])
            } else {
                None
            },
            None => None,
        }
    }

    /// Series position of the first loaded chapter.
    pub closed spec fn first_loaded(&self) -> usize {
        self.stream.first_series()
    }

    /// Series position of the last loaded chapter.
    pub closed spec fn last_loaded(&self) -> usize {
        self.stream.last_series()
    }

    /// The id the next loaded chapter gets.
    pub closed spec fn next_id(&self) -> usize {
        self.stream.next_id()
    }

    /// Pages being decoded.
    pub closed spec fn in_flight(&self) -> Seq<PageKey> {
        self.in_flight@
    }

    /// The generation: it changes whenever the view is cleared, so that
    /// decodes asked for before are told apart.
    pub closed spec fn generation(&self) -> usize {
        self.generation_id
    }

    /// The layout.
    pub closed spec fn mode(&self) -> ReadingMode {
        self.reading_mode
    }

    /// Both views hold the same series, chapters, pages in flight and
    /// generation.
    pub open spec fn same_content(&self, other: &ReaderState) -> bool {
        &&& self.stream_wf() == other.stream_wf()
        &&& self.loaded_chapters() == other.loaded_chapters()
        &&& self.page_keys() == other.page_keys()
        &&& self.entry_names() == other.entry_names()
        &&& self.series() == other.series()
        &&& self.first_loaded() == other.first_loaded()
        &&& self.last_loaded() == other.last_loaded()
        &&& self.next_id() == other.next_id()
        &&& self.in_flight() == other.in_flight()
        &&& self.generation() == other.generation()
    }

    /// The stream is well formed, each chapter has as many page images as
    /// pages, pages in flight are listed once, and the first loaded chapter
    /// lies inside the series.
    pub open spec fn wf(&self) -> bool {
        &&& self.stream_wf()
        &&& self.entry_names().len() == self.loaded_chapters().len()
        &&& forall|i: int|
            0 <= i < self.loaded_chapters().len() ==> #[trigger] self.entry_names()[i].len()
                == self.loaded_chapters()[i].page_count
        &&& self.in_flight().no_duplicates()
        &&& (self.series() matches Some(files) ==> self.first_loaded() <= files.len())
    }

    /// The stream of chapters is well formed.
    pub closed spec fn stream_wf(&self) -> bool {
        self.stream.wf()
    }

    /// In a well-formed view the global page order is the loaded chapters'
    /// pages in turn, and chapter ids are distinct and below the next id, so
    /// a page's chapter id names one chapter only.
    pub proof fn lemma_chapter_ids(&self)
        requires
            self.wf(),
        ensures
            self.page_keys() == stream_keys(self.loaded_chapters()),
            forall|i: int|
                0 <= i < self.loaded_chapters().len() ==> #[trigger] self.loaded_chapters()[i].chapter_id
                    < self.next_id(),
            forall|i: int, j: int|
                0 <= i < self.loaded_chapters().len() && 0 <= j < self.loaded_chapters().len() && i != j
                    ==> #[trigger] self.loaded_chapters()[i].chapter_id
                    != #[trigger] self.loaded_chapters()[j].chapter_id,
    {
    }

    /// An empty view, in the vertical layout.
    pub fn new() -> (r: ReaderState)
        ensures
            r.wf(),
            r.loaded_chapters().len() == 0,
            r.page_keys().len() == 0,
            r.entry_names().len() == 0,
            r.series() is None,
            r.first_loaded() == 0,
            r.last_loaded() == 0,
            r.in_flight().len() == 0,
            r.generation() == 0,
            r.next_id() == 0,
            r.mode() == ReadingMode::ContinuousVertical,
    {
        let r = ReaderState {
            series: None,
            stream: ChapterStream::new(),
            entries: Vec::new(),
            in_flight: Vec::new(),
            generation_id: 0,
            reading_mode: ReadingMode::ContinuousVertical,
        };
        proof {
            assert(r.entry_names() =~= Seq::<Seq<String>>::empty());
        }
        r
    }

    /// The layout.
    pub fn reading_mode(&self) -> (m: ReadingMode)
        ensures
            m == self.mode(),
    {
        self.reading_mode
    }

    /// Sets the layout.
    pub fn set_reading_mode(&mut self, mode: ReadingMode)
        ensures
            final(self).same_content(old(self)),
            final(self).mode() == mode,
    {
        self.reading_mode = mode;
    }

    /// Switches to the other layout; returns the new one.
    pub fn toggle_reading_mode(&mut self) -> (m: ReadingMode)
        ensures
            m == final(self).mode(),
            m != old(self).mode(),
            final(self).same_content(old(self)),
    {
        self.reading_mode = self.reading_mode.toggled();
        self.reading_mode
    }

    /// The id the next loaded chapter gets.
    pub fn next_chapter_id(&self) -> (n: usize)
        ensures
            n == self.next_id(),
    {
        self.stream.next_chapter_id()
    }

    /// The current generation.
    pub fn generation_id(&self) -> (g: usize)
        ensures
            g == self.generation(),
    {
        self.generation_id
    }

    /// The loaded chapters.
    pub fn chapters(&self) -> (r: &Vec<ChapterInfo>)
        ensures
            r@ == self.loaded_chapters(),
    {
        self.stream.chapters()
    }

    /// The global page order.
    pub fn global_to_key(&self) -> (r: &Vec<PageKey>)
        ensures
            r@ == self.page_keys(),
    {
        self.stream.global_to_key()
    }

    /// Empties the view: no series, no chapter, no decode under way, and a
    /// new generation.
    pub fn clear(&mut self)
        requires
            old(self).generation() < usize::MAX,
        ensures
            final(self).wf(),
            final(self).loaded_chapters().len() == 0,
            final(self).page_keys().len() == 0,
            final(self).series() is None,
            final(self).in_flight().len() == 0,
            final(self).first_loaded() == 0,
            final(self).last_loaded() == 0,
            final(self).next_id() == 0,
            final(self).generation() == old(self).generation() + 1,
            final(self).mode() == old(self).mode(),
    {
        self.series = None;
        self.stream.reset(0);
        self.entries.clear();
        self.in_flight.clear();
        self.generation_id = self.generation_id + 1;
        proof {
            assert(self.entry_names() =~= Seq::<Seq<String>>::empty());
            assert(self.stream.key_seq() == stream_keys(self.stream.chapter_seq()));
        }
    }

    /// Adds a chapter read from `archive` at the end of the stream: the
    /// chapter at series position `series_idx`.
    pub fn append_chapter(&mut self, archive: CbzArchive, series_idx: usize)
        requires
            old(self).wf(),
            old(self).next_id() < usize::MAX,
        ensures
            final(self).wf(),
            final(self).loaded_chapters() == old(self).loaded_chapters().push(
                ChapterInfo {
                    chapter_id: old(self).next_id(),
                    series_idx,
                    filename: archive.filename,
                    page_count: archive.image_entries@.len() as usize,
                    archive_path: archive.path,
                },
            ),
            final(self).entry_names() == old(self).entry_names().push(archive.image_entries@),
            final(self).page_keys() == old(self).page_keys() + chapter_pages(
                old(self).next_id(),
                archive.image_entries@.len(),
            ),
            final(self).next_id() == old(self).next_id() + 1,
            final(self).first_loaded() == old(self).first_loaded(),
            final(self).last_loaded() == series_idx,
            final(self).series() == old(self).series(),
            final(self).in_flight() == old(self).in_flight(),
            final(self).generation() == old(self).generation(),
            final(self).mode() == old(self).mode(),
    {
        let page_count = archive.image_entries.len();
        let CbzArchive { path, filename, image_entries, data: _ } = archive;
        let ghost before = self.entry_names();
        self.stream.append(series_idx, filename, page_count, path);
        self.entries.push(image_entries);
        proof {
            assert(self.entry_names() =~= before.push(image_entries@));
        }
    }

    /// Adds a chapter read from `archive` at the front of the stream: the
    /// chapter at series position `series_idx`.
    pub fn prepend_chapter(&mut self, archive: CbzArchive, series_idx: usize)
        requires
            old(self).wf(),
            old(self).next_id() < usize::MAX,
            old(self).series() matches Some(files) ==> series_idx <= files.len(),
        ensures
            final(self).wf(),
            final(self).loaded_chapters() == seq![
                ChapterInfo {
                    chapter_id: old(self).next_id(),
                    series_idx,
                    filename: archive.filename,
                    page_count: archive.image_entries@.len() as usize,
                    archive_path: archive.path,
                },
            ] + old(self).loaded_chapters(),
            final(self).entry_names() == seq![archive.image_entries@] + old(self).entry_names(),
            final(self).page_keys() == chapter_pages(old(self).next_id(), archive.image_entries@.len())
                + old(self).page_keys(),
            final(self).next_id() == old(self).next_id() + 1,
            final(self).first_loaded() == series_idx,
            final(self).last_loaded() == old(self).last_loaded(),
            final(self).series() == old(self).series(),
            final(self).in_flight() == old(self).in_flight(),
            final(self).generation() == old(self).generation(),
            final(self).mode() == old(self).mode(),
    {
        let page_count = archive.image_entries.len();
        let CbzArchive { path, filename, image_entries, data: _ } = archive;
        let ghost before = self.entry_names();
        let ghost names = image_entries@;
        self.stream.prepend(series_idx, filename, page_count, path);
        self.entries.insert(0, image_entries);
        proof {
            assert(self.entry_names() =~= seq![names] + before);
        }
    }

    /// Opens a comic: the view is emptied, then shows `archive`, the chapter
    /// at the series position that `series` gives, as its only chapter.
    pub fn load_initial(&mut self, series: DirectorySeries, archive: CbzArchive)
        requires
            old(self).generation() < usize::MAX,
            series.current_index <= series.dir_files@.len(),
        ensures
            final(self).wf(),
            final(self).series() == Some(series.dir_files@),
            final(self).loaded_chapters() == seq![
                ChapterInfo {
                    chapter_id: 0,
                    series_idx: series.current_index,
                    filename: archive.filename,
                    page_count: archive.image_entries@.len() as usize,
                    archive_path: archive.path,
                },
            ],
            final(self).entry_names() == seq![archive.image_entries@],
            final(self).page_keys() == chapter_pages(0, archive.image_entries@.len()),
            final(self).first_loaded() == series.current_index,
            final(self).last_loaded() == series.current_index,
            final(self).next_id() == 1,
            final(self).in_flight().len() == 0,
            final(self).generation() == old(self).generation() + 1,
            final(self).mode() == old(self).mode(),
    {
        self.clear();
        let initial_idx = series.current_index;
        self.stream.reset(initial_idx);
        self.series = Some(series);
        proof {
            assert(self.loaded_chapters().len() == 0);
            assert(self.page_keys() =~= Seq::<PageKey>::empty());
        }
        self.append_chapter(archive, initial_idx);
        proof {
            assert(self.page_keys() =~= chapter_pages(0, self.loaded_chapters()[0].page_count as nat));
        }
    }

    /// The series position and file of the chapter after the last loaded
    /// one, when the series has one.
    pub fn next_chapter_file(&self) -> (r: Option<(usize, String)>)
        ensures
            r is Some <==> (self.series() matches Some(files) && self.last_loaded() + 1 < files.len()),
            r matches Some((i, f)) ==> i == self.last_loaded() + 1 && self.series_file(i as int) == Some(f),
    {
        match &self.series {
            Some(s) => {
                let last = self.stream.last_loaded_series_idx();
                let n = s.dir_files.len();
                if last < n && last + 1 < n {
                    Some((last + 1, s.dir_files[last + 1].clone()))
                } else {
                    None
                }
            },
            None => None,
        }
    }

    /// The series position and file of the chapter before the first loaded
    /// one, when there is one.
    pub fn prev_chapter_file(&self) -> (r: Option<(usize, String)>)
        requires
            self.wf(),
        ensures
            r is Some <==> (self.series() is Some && self.first_loaded() > 0),
            r matches Some((i, f)) ==> i == self.first_loaded() - 1 && self.series_file(i as int) == Some(f),
    {
        match &self.series {
            Some(s) => {
                let first = self.stream.first_loaded_series_idx();
                if first > 0 {
                    Some((first - 1, s.dir_files[first - 1].clone()))
                } else {
                    None
                }
            },
            None => None,
        }
    }

    /// The chapter of the loaded chapters that holds page `k`, by id.
    pub open spec fn chapter_of(&self, k: PageKey) -> int {
        chapter_index(self.loaded_chapters(), k.chapter_idx)
    }

    /// The pages to decode with page `current` on screen, given the pages
    /// `loaded` that are shown already: the candidates of
    /// `dispatch_candidates` in turn, each that is neither shown nor in
    /// flight, while fewer than eight decodes are under way.
    pub open spec fn dispatch_choice(&self, current: usize, loaded: Seq<PageKey>) -> Seq<PageKey> {
        select_requests(
            dispatch_candidates(self.page_keys(), current),
            loaded,
            self.in_flight(),
            Some(MAX_CONCURRENT_IN_FLIGHT as nat),
        )
    }

    fn chapter_position(&self, id: usize) -> (r: Option<usize>)
        ensures
            r matches Some(c) ==> c < self.loaded_chapters().len() && self.loaded_chapters()[c as int].chapter_id
                == id,
            r is None ==> forall|c: int|
                0 <= c < self.loaded_chapters().len() ==> #[trigger] self.loaded_chapters()[c].chapter_id != id,
    {
        let cs = self.stream.chapters();
        let n = cs.len();
        for i in 0..n
            invariant
                n == cs@.len(),
                cs@ == self.loaded_chapters(),
                forall|j: int| 0 <= j < i ==> #[trigger] cs@[j].chapter_id != id,
        {
            if cs[i].chapter_id == id {
                return Some(i);
            }
        }
        None
    }

    /// Starts decodes with page `current` on screen and the pages `loaded`
    /// shown already: the pages of `dispatch_choice` go in flight, and each
    /// comes with the file of its chapter and its page image there.
    pub fn plan_dispatch(&mut self, current: usize, loaded: &Vec<PageKey>) -> (loads: Vec<PageLoad>)
        requires
            old(self).wf(),
            current + PAGES_AHEAD <= usize::MAX,
        ensures
            final(self).wf(),
            final(self).loaded_chapters() == old(self).loaded_chapters(),
            final(self).page_keys() == old(self).page_keys(),
            final(self).entry_names() == old(self).entry_names(),
            final(self).series() == old(self).series(),
            final(self).first_loaded() == old(self).first_loaded(),
            final(self).last_loaded() == old(self).last_loaded(),
            final(self).next_id() == old(self).next_id(),
            final(self).generation() == old(self).generation(),
            final(self).mode() == old(self).mode(),
            final(self).in_flight() == old(self).in_flight() + old(self).dispatch_choice(current, loaded@),
            loads@.len() == old(self).dispatch_choice(current, loaded@).len(),
            forall|i: int|
                0 <= i < loads@.len() ==> loads_page(
                    #[trigger] loads@[i],
                    old(self).dispatch_choice(current, loaded@)[i],
                    old(self).loaded_chapters(),
                    old(self).entry_names(),
                ),
    {
        let ghost cs = self.loaded_chapters();
        let ghost ks = self.page_keys();
        let ghost choice = self.dispatch_choice(current, loaded@);
        let ghost en = self.entry_names();
        let mut loads: Vec<PageLoad> = Vec::new();
        let keys = self.stream.global_to_key();
        let total = keys.len();
        let start = if current >= PAGES_BEHIND {
            current - PAGES_BEHIND
        } else {
            0
        };
        let end = if current + PAGES_AHEAD < total {
            current + PAGES_AHEAD
        } else {
            total
        };
        let mut cands: Vec<PageKey> = Vec::new();
        if start < end {
            let order = positions_nearest_first(start, end, current);
            let m = order.len();
            for j in 0..m
                invariant
                    m == order@.len(),
                    m == end - start,
                    end <= total,
                    total == keys@.len(),
                    forall|q: int| 0 <= q < m ==> start <= #[trigger] order@[q] < end,
                    cands@.len() == j,
                    forall|q: int| 0 <= q < j ==> #[trigger] cands@[q] == keys@[order@[q] as int],
            {
                cands.push(keys[order[j]]);
            }
            proof {
                let order_s = nearest_first(start as int, end as int, current as int);
                assert(cands@ =~= dispatch_candidates(ks, current)) by {
                    assert forall|q: int| 0 <= q < m implies cands@[q] == dispatch_candidates(
                        ks,
                        current,
                    )[q] by {
                        assert(order@[q] as int == order_s[q]);
                    }
                }
            }
        } else {
            proof {
                assert(cands@ =~= dispatch_candidates(ks, current));
            }
        }
        let ghost cand_keys = cands@;
        assert(forall|q: int|
            0 <= q < cand_keys.len() ==> exists|g: int| 0 <= g < ks.len() && ks[g] == #[trigger] cand_keys[q]);
        let chosen = select_into(&cands, loaded, &mut self.in_flight, Some(MAX_CONCURRENT_IN_FLIGHT));
        let nc = chosen.len();
        for i in 0..nc
            invariant
                nc == chosen@.len(),
                nc == choice.len(),
                self.loaded_chapters() == cs,
                self.page_keys() == ks,
                ks == stream_keys(cs),
                self.stream.wf(),
                self.entry_names().len() == cs.len(),
                forall|c: int| 0 <= c < cs.len() ==> #[trigger] self.entry_names()[c].len() == cs[c].page_count,
                cands@ == cand_keys,
                forall|q: int|
                    0 <= q < cand_keys.len() ==> exists|g: int| 0 <= g < ks.len() && ks[g] == #[trigger] cand_keys[q],
                forall|q: int| 0 <= q < nc ==> #[trigger] chosen@[q] < cand_keys.len() && cand_keys[chosen@[q] as int] == choice[q],
                loads@.len() == i,
                self.entry_names() == en,
                forall|q: int| 0 <= q < i ==> loads_page(#[trigger] loads@[q], choice[q], cs, en),
        {
            let key = cands[chosen[i]];
            assert(key == choice[i as int]);
            let ghost g = choose|g: int| 0 <= g < ks.len() && ks[g] == cand_keys[chosen@[i as int] as int];
            proof {
                lemma_stream_key_has_chapter(cs, g);
            }
            match self.chapter_position(key.chapter_idx) {
                Some(c) => {
                    proof {
                        let c2 = choose|c2: int|
                            0 <= c2 < cs.len() && #[trigger] cs[c2].chapter_id == ks[g].chapter_idx
                                && ks[g].page_idx < cs[c2].page_count;
                        assert(c2 == c as int);
                        assert(chapter_index(cs, key.chapter_idx) == c as int);
                    }
                    let path = self.stream.chapters()[c].archive_path.clone();
                    assert(self.entry_names()[c as int] == self.entries@[c as int]@);
                    let entry = self.entries[c][key.page_idx].clone();
                    let ghost before = loads@;
                    loads.push(PageLoad { key, archive_path: path, entry_name: entry });
                    proof {
                        assert forall|q: int| 0 <= q < i + 1 implies loads_page(
                            #[trigger] loads@[q],
                            choice[q],
                            cs,
                            en,
                        ) by {
                            if q < i {
                                assert(loads@[q] == before[q]);
                            }
                        }
                    }
                },
                None => {
                    proof {
                        let c2 = choose|c2: int|
                            0 <= c2 < cs.len() && #[trigger] cs[c2].chapter_id == ks[g].chapter_idx
                                && ks[g].page_idx < cs[c2].page_count;
                        assert(cs[c2].chapter_id != key.chapter_idx);
                        assert(false);
                    }
                },
            }
        }
        loads
    }

    /// A decode has ended: page `key` is no longer in flight. Returns
    /// whether the decode belongs to the current generation (when it does
    /// not, its result is to be dropped).
    pub fn finish_load(&mut self, key: &PageKey, generation: usize) -> (current: bool)
        requires
            old(self).wf(),
        ensures
            final(self).wf(),
            current == (generation == old(self).generation()),
            forall|k: PageKey| #[trigger] final(self).in_flight().contains(k) <==> (old(self).in_flight().contains(k) && k != *key),
            final(self).loaded_chapters() == old(self).loaded_chapters(),
            final(self).page_keys() == old(self).page_keys(),
            final(self).entry_names() == old(self).entry_names(),
            final(self).series() == old(self).series(),
            final(self).first_loaded() == old(self).first_loaded(),
            final(self).last_loaded() == old(self).last_loaded(),
            final(self).next_id() == old(self).next_id(),
            final(self).generation() == old(self).generation(),
            final(self).mode() == old(self).mode(),
    {
        remove_key(&mut self.in_flight, key);
        generation == self.generation_id
    }

    /// Starting decodes never asks again for a page shown or in flight,
    /// asks for each page once, and never brings the decodes under way
    /// above eight (or above their number before, when that was more).
    pub proof fn lemma_dispatch_is_bounded(&self, current: usize, loaded: Seq<PageKey>)
        requires
            self.wf(),
        ensures
            forall|k: PageKey|
                #[trigger] self.dispatch_choice(current, loaded).contains(k) ==> !loaded.contains(k)
                    && !self.in_flight().contains(k),
            (self.in_flight() + self.dispatch_choice(current, loaded)).no_duplicates(),
            (self.in_flight() + self.dispatch_choice(current, loaded)).len() <= (if self.in_flight().len()
                > MAX_CONCURRENT_IN_FLIGHT {
                self.in_flight().len() as int
            } else {
                MAX_CONCURRENT_IN_FLIGHT as int
            }),
    {
        lemma_select_requests_fresh(
            dispatch_candidates(self.page_keys(), current),
            loaded,
            self.in_flight(),
            Some(MAX_CONCURRENT_IN_FLIGHT as nat),
        );
    }

    /// A decode asked for before the view is cleared counts as stale when
    /// it ends afterwards: clearing moves the generation on, and
    /// `finish_load` keeps only decodes of the current generation.
    pub proof fn lemma_clear_outdates_decodes(before: ReaderState, after: ReaderState, asked: usize)
        requires
            asked == before.generation(),
            after.generation() == before.generation() + 1,
        ensures
            asked != after.generation(),
    {
    }
}

} // verus!
