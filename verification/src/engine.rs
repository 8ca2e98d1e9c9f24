//! The state of the reading engine behind the QML interface: the opened
//! series, the chapters loaded into the stream, the properties the interface
//! shows, the pages being decoded and the chapters the reader has finished.
use vstd::prelude::*;

use crate::archive::{CbzArchive, MAX_ARCHIVE_ENTRIES};
use crate::cache::{keys_of, MemoryManager, PageKey};
use crate::requests::{select_into, select_requests};
use crate::stream::{
    chapter_pages, lemma_stream_keys_in_chapters, stream_keys, ChapterInfo, ChapterStream,
    DirectorySeries,
};
use crate::text::{decimal, push_decimal, push_str, string_from_chars};

verus! {

broadcast use vstd::seq_lib::group_seq_properties;

/// The page index to show first when a chapter of `page_count` pages opens
/// at the 1-based `initial_page`: that page, kept inside the chapter.
pub open spec fn initial_target(initial_page: i64, page_count: usize) -> i32 {
    if initial_page > 1 {
        let want = ((initial_page - 1) as usize) as int;
        let last = if page_count >= 1 {
            page_count - 1
        } else {
            0
        };
        (if want < last {
            want
        } else {
            last
        }) as i32
    } else {
        0
    }
}

/// Which interface properties a page change altered.
pub struct PageChange {
    pub chapter_changed: bool,
    pub page_changed: bool,
    pub page_count_changed: bool,
}

/// Pages to decode around the page on screen, and whether the next chapter
/// of the series should be loaded.
pub struct PageRequests {
    pub load_next_chapter: bool,
    /// Global index and key of each page to decode.
    pub pages: Vec<(usize, PageKey)>,
}

/// What the reader reports on exit.
pub struct ExitPayload {
    pub last_page: i64,
    pub completed: bool,
    pub completed_chapters: Vec<String>,
    pub completed_filenames: Vec<String>,
    pub completed_chapter_indices: Vec<i64>,
    pub chapter_idx: i32,
    pub chapter_name: String,
    pub file_path: String,
}

/// Position of the first chapter of `cs` at series position `s`.
pub open spec fn first_in_series(cs: Seq<ChapterInfo>, s: usize) -> Option<int> {
    if exists|i: int| 0 <= i < cs.len() && cs[i].series_idx == s {
        Some(
            choose|i: int|
                0 <= i < cs.len() && cs[i].series_idx == s && forall|j: int|
                    0 <= j < i ==> cs[j].series_idx != s,
        )
    } else {
        None
    }
}

/// Finds the first chapter at series position `s`.
fn find_series(cs: &Vec<ChapterInfo>, s: usize) -> (r: Option<usize>)
    ensures
        match r {
            Some(i) => first_in_series(cs@, s) == Some(i as int) && i < cs@.len(),
            None => first_in_series(cs@, s) is None,
        },
{
    let n = cs.len();
    for i in 0..n
        invariant
            n == cs@.len(),
            forall|j: int| 0 <= j < i ==> cs@[j].series_idx != s,
    {
        if cs[i].series_idx == s {
            proof {
                let c = choose|k: int|
                    0 <= k < cs@.len() && cs@[k].series_idx == s && forall|j: int|
                        0 <= j < k ==> cs@[j].series_idx != s;
                assert(0 <= i < cs@.len() && cs@[i as int].series_idx == s);
                if c < i {
                    assert(cs@[c].series_idx != s);
                } else if c > i {
                    assert(cs@[i as int].series_idx != s);
                }
            }
            return Some(i);
        }
    }
    None
}



/// Removes `k` from a list that holds each key once.
pub(crate) fn remove_key(v: &mut Vec<PageKey>, k: &PageKey)
    requires
        old(v)@.no_duplicates(),
    ensures
        final(v)@.no_duplicates(),
        forall|x: PageKey| #[trigger] final(v)@.contains(x) <==> (old(v)@.contains(x) && x != *k),
{
    let n = v.len();
    let mut i: usize = 0;
    while i < n
        invariant
            n == v@.len(),
            v@ == old(v)@,
            old(v)@.no_duplicates(),
            forall|j: int| 0 <= j < i ==> v@[j] != *k,
        decreases n - i,
    {
        if v[i] == *k {
            let ghost before = v@;
            v.remove(i);
            proof {
                before.remove_ensures(i as int);
                assert(before.no_duplicates());
                assert forall|a: int, b: int| 0 <= a < b < v@.len() implies v@[a] != v@[b] by {
                    let a0 = if a < i { a } else { a + 1 };
                    let b0 = if b < i { b } else { b + 1 };
                    assert(v@[a] == before[a0] && v@[b] == before[b0]);
                }
                assert forall|x: PageKey| #[trigger] v@.contains(x) <==> (before.contains(x) && x != *k) by {
                    if v@.contains(x) {
                        let j = choose|j: int| 0 <= j < v@.len() && v@[j] == x;
                        let j0 = if j < i { j } else { j + 1 };
                        assert(before[j0] == x);
                        assert(j0 != i as int);
                    }
                    if before.contains(x) && x != *k {
                        let j = choose|j: int| 0 <= j < before.len() && before[j] == x;
                        if j < i {
                            assert(v@[j] == x);
                        } else {
                            assert(j != i as int);
                            assert(v@[j - 1] == x);
                        }
                    }
                }
            }
            return;
        }
        i = i + 1;
    }
}

/// Whether `v` holds `x`.
fn contains_usize(v: &Vec<usize>, x: usize) -> (b: bool)
    ensures
        b == v@.contains(x),
{
    let n = v.len();
    for i in 0..n
        invariant
            n == v@.len(),
            forall|j: int| 0 <= j < i ==> v@[j] != x,
    {
        if v[i] == x {
            return true;
        }
    }
    false
}

/// Adds `s` to the finished positions unless it is there already.
fn mark_completed(completed: &mut Vec<usize>, s: usize)
    requires
        old(completed)@.no_duplicates(),
    ensures
        final(completed)@.no_duplicates(),
        forall|t: usize| #[trigger] final(completed)@.contains(t) <==> (old(completed)@.contains(t) || t == s),
{
    if !contains_usize(completed, s) {
        let ghost before = completed@;
        completed.push(s);
        proof {
            assert forall|a: int, b: int| 0 <= a < b < completed@.len() implies completed@[a] != completed@[b] by {
                if b == completed@.len() - 1 {
                    assert(completed@[a] == before[a]);
                    assert(before.contains(completed@[a]));
                } else {
                    assert(completed@[a] == before[a] && completed@[b] == before[b]);
                }
            }
            assert forall|t: usize| #[trigger] completed@.contains(t) <==> (before.contains(t) || t == s) by {
                if completed@.contains(t) {
                    let i = choose|i: int| 0 <= i < completed@.len() && completed@[i] == t;
                    if i < before.len() {
                        assert(before[i] == t);
                    }
                }
                if before.contains(t) {
                    let i = choose|i: int| 0 <= i < before.len() && before[i] == t;
                    assert(completed@[i] == t);
                }
                if t == s {
                    assert(completed@[completed@.len() - 1] == s);
                }
            }
        }
    }
}

/// The chapters that the exit report lists as finished: those at a finished
/// series position, and the current one when it is finished.
pub open spec fn reported_chapters(
    cs: Seq<ChapterInfo>,
    completed: Seq<usize>,
    is_completed: bool,
    current: Option<usize>,
) -> Seq<ChapterInfo> {
    cs.filter(|c: ChapterInfo| completed.contains(c.series_idx) || (is_completed && current == Some(c.series_idx)))
}

/// The properties that the interface shows.
pub struct EngineProperties {
    pub has_comic: bool,
    pub comic_title: String,
    /// 0: vertical (manhwa), 1: horizontal (manga).
    pub reading_mode: i32,
    pub current_chapter_name: String,
    pub current_page_number: i32,
    pub current_chapter_page_count: i32,
    pub total_pages_count: i32,
    /// 1-based series position of the chapter on screen.
    pub current_chapter_idx: i32,
    pub total_chapters_count: i32,
    pub loaded_chapters_count: i32,
    pub initial_page_idx: i32,
    pub tui_mode: bool,
}


/// The paths, file names and 1-based series positions of the chapters that
/// the exit report lists as finished.
fn collect_reported(
    chaps: &Vec<ChapterInfo>,
    completed: &Vec<usize>,
    is_completed: bool,
    cur_series: Option<usize>,
) -> (r: (Vec<String>, Vec<String>, Vec<i64>))
    requires
        forall|i: int| 0 <= i < chaps@.len() ==> #[trigger] chaps@[i].series_idx < usize::MAX,
    ensures
        r.0@ == reported_chapters(chaps@, completed@, is_completed, cur_series).map_values(
            |c: ChapterInfo| c.archive_path,
        ),
        r.1@ == reported_chapters(chaps@, completed@, is_completed, cur_series).map_values(
            |c: ChapterInfo| c.filename,
        ),
        r.2@ == reported_chapters(chaps@, completed@, is_completed, cur_series).map_values(
            |c: ChapterInfo| (c.series_idx + 1) as i64,
        ),
{
    let ghost cs = chaps@;
    let ghost pred = |c: ChapterInfo|
        completed@.contains(c.series_idx) || (is_completed && cur_series == Some(c.series_idx));
    let mut paths: Vec<String> = Vec::new();
    let mut names: Vec<String> = Vec::new();
    let mut indices: Vec<i64> = Vec::new();
    let n = chaps.len();
    proof {
        assert(cs.take(0) =~= Seq::<ChapterInfo>::empty());
        assert(cs.take(0).filter(pred) =~= Seq::<ChapterInfo>::empty());
    }
    for i in 0..n
        invariant
            n == cs.len(),
            cs == chaps@,
            forall|i: int| 0 <= i < chaps@.len() ==> #[trigger] chaps@[i].series_idx < usize::MAX,
            pred == (|c: ChapterInfo|
                completed@.contains(c.series_idx) || (is_completed && cur_series == Some(c.series_idx))),
            paths@ == cs.take(i as int).filter(pred).map_values(|c: ChapterInfo| c.archive_path),
            names@ == cs.take(i as int).filter(pred).map_values(|c: ChapterInfo| c.filename),
            indices@ == cs.take(i as int).filter(pred).map_values(|c: ChapterInfo| (c.series_idx + 1) as i64),
    {
        let c = &chaps[i];
        proof {
            cs.take(i as int).lemma_filter_push(cs[i as int], pred);
            assert(cs.take(i + 1) =~= cs.take(i as int).push(cs[i as int]));
        }
        let keep = contains_usize(completed, c.series_idx) || (is_completed && match cur_series {
            Some(s) => s == c.series_idx,
            None => false,
        });
        if keep {
            let ghost f = cs.take(i as int).filter(pred);
            paths.push(c.archive_path.clone());
            names.push(c.filename.clone());
            indices.push((c.series_idx + 1) as i64);
            proof {
                assert(paths@ =~= f.push(cs[i as int]).map_values(|c: ChapterInfo| c.archive_path));
                assert(names@ =~= f.push(cs[i as int]).map_values(|c: ChapterInfo| c.filename));
                assert(indices@ =~= f.push(cs[i as int]).map_values(|c: ChapterInfo| (c.series_idx + 1) as i64));
            }
        }
    }
    proof {
        assert(cs.take(n as int) =~= cs);
    }
    (paths, names, indices)
}

/// The engine's state.
pub struct ContinuumEngine {
    props: EngineProperties,
    series: Option<DirectorySeries>,
    stream: ChapterStream,
    in_flight: Vec<PageKey>,
    completed_chapters: Vec<usize>,
}

impl ContinuumEngine {
    /// The properties that the interface shows.
    pub closed spec fn p(&self) -> EngineProperties {
        self.props
    }

    /// The properties that the interface shows.
    pub fn properties(&self) -> (r: &EngineProperties)
        ensures
            *r == self.p(),
    {
        &self.props
    }

    /// The global page order.
    pub fn global_to_key(&self) -> (r: &Vec<PageKey>)
        ensures
            r@ == self.keys(),
    {
        self.stream.global_to_key()
    }

    /// The loaded chapters, in reading order.
    pub closed spec fn chapters(&self) -> Seq<ChapterInfo> {
        self.stream.chapter_seq()
    }

    /// The global page order.
    pub closed spec fn keys(&self) -> Seq<PageKey> {
        self.stream.key_seq()
    }

    /// The opened series.
    pub closed spec fn series(&self) -> Option<Seq<String>> {
        match self.series {
            Some(s) => Some(s.dir_files@),
            None => None,
        }
    }

    /// Series position of the last loaded chapter.
    pub closed spec fn last_loaded(&self) -> usize {
        self.stream.last_series()
    }

    /// Pages being decoded.
    pub closed spec fn in_flight(&self) -> Seq<PageKey> {
        self.in_flight@
    }

    /// Series positions of the chapters the reader has finished.
    pub closed spec fn completed(&self) -> Seq<usize> {
        self.completed_chapters@
    }

    /// The stream is well formed, chapter ids are their positions, pages in
    /// flight and finished chapters are each listed once, and every loaded
    /// chapter has a series position below `usize::MAX`.
    pub closed spec fn wf(&self) -> bool {
        &&& self.stream.wf()
        &&& self.stream.next_id() == self.stream.chapter_seq().len()
        &&& forall|i: int|
            0 <= i < self.stream.chapter_seq().len() ==> #[trigger] self.stream.chapter_seq()[i].chapter_id
                == i
        &&& forall|i: int|
            0 <= i < self.stream.chapter_seq().len() ==> #[trigger] self.stream.chapter_seq()[i].series_idx
                < usize::MAX
        &&& self.in_flight@.no_duplicates()
        &&& self.completed_chapters@.no_duplicates()
    }

    /// An engine with nothing open.
    pub fn new() -> (e: Self)
        ensures
            e.wf(),
            !e.p().has_comic,
            e.p().comic_title@ == Seq::<char>::empty(),
            e.p().reading_mode == 0,
            e.p().current_chapter_name@ == Seq::<char>::empty(),
            e.p().current_page_number == 1,
            e.p().current_chapter_page_count == 0,
            e.p().total_pages_count == 0,
            e.p().current_chapter_idx == 0,
            e.p().total_chapters_count == 0,
            e.p().loaded_chapters_count == 0,
            e.p().initial_page_idx == 0,
            !e.p().tui_mode,
            e.chapters().len() == 0,
            e.keys().len() == 0,
            e.series() is None,
            e.in_flight().len() == 0,
            e.completed().len() == 0,
    {
        let e = ContinuumEngine {
            props: EngineProperties {
            has_comic: false,
            comic_title: String::new(),
            reading_mode: 0,
            current_chapter_name: String::new(),
            current_page_number: 1,
            current_chapter_page_count: 0,
            total_pages_count: 0,
            current_chapter_idx: 0,
            total_chapters_count: 0,
            loaded_chapters_count: 0,
            initial_page_idx: 0,
            tui_mode: false,
            },
            series: None,
            stream: ChapterStream::new(),
            in_flight: Vec::new(),
            completed_chapters: Vec::new(),
        };
        proof {
            assert(stream_keys(e.stream.chapter_seq()) =~= Seq::<PageKey>::empty());
        }
        e
    }

    /// Turns the terminal mode on or off.
    pub fn set_tui_mode(&mut self, enabled: bool)
        ensures
            final(self).p().tui_mode == enabled,
            final(self).p().reading_mode == old(self).p().reading_mode,
    {
        self.props.tui_mode = enabled;
    }

    /// Switches between the vertical and the horizontal reading mode.
    pub fn toggle_reading_mode(&mut self)
        ensures
            final(self).p().reading_mode == (if old(self).p().reading_mode == 0 {
                1i32
            } else {
                0i32
            }),
    {
        self.props.reading_mode = if self.props.reading_mode == 0 {
            1
        } else {
            0
        };
    }

    /// Icon shown by the interface.
    pub fn get_app_icon(&self) -> (s: &'static str)
        ensures
            s@ == "qrc:/continuum.png"@,
    {
        "qrc:/continuum.png"
    }

    /// Number of loaded chapters.
    pub fn get_chapter_count(&self) -> (n: i32)
        ensures
            n == self.chapters().len() as i32,
    {
        self.stream.chapters().len() as i32
    }

    /// Number of pages in the stream.
    pub fn get_total_page_count(&self) -> (n: i32)
        ensures
            n == self.keys().len() as i32,
    {
        self.stream.global_to_key().len() as i32
    }

    /// File name of the loaded chapter at position `chapter_idx`; empty when
    /// there is none.
    pub fn get_chapter_title(&self, chapter_idx: i32) -> (s: String)
        ensures
            s@ == (if (chapter_idx as usize) < self.chapters().len() {
                self.chapters()[chapter_idx as usize as int].filename@
            } else {
                Seq::<char>::empty()
            }),
    {
        let chaps = self.stream.chapters();
        let i = chapter_idx as usize;
        if i < chaps.len() {
            chaps[i].filename.clone()
        } else {
            String::new()
        }
    }

    /// Page count of the loaded chapter at position `chapter_idx`; 0 when
    /// there is none.
    pub fn get_chapter_page_count(&self, chapter_idx: i32) -> (n: i32)
        ensures
            n == (if (chapter_idx as usize) < self.chapters().len() {
                self.chapters()[chapter_idx as usize as int].page_count as i32
            } else {
                0i32
            }),
    {
        let chaps = self.stream.chapters();
        let i = chapter_idx as usize;
        if i < chaps.len() {
            chaps[i].page_count as i32
        } else {
            0
        }
    }

    /// The page at global index `global_idx` starts its chapter.
    pub fn is_first_page_of_chapter(&self, global_idx: i32) -> (b: bool)
        ensures
            b == (global_idx >= 0 && (global_idx as usize) < self.keys().len() && self.keys()[global_idx as usize as int].page_idx
                == 0),
    {
        if global_idx < 0 {
            return false;
        }
        let keys = self.stream.global_to_key();
        let g = global_idx as usize;
        if g < keys.len() {
            keys[g].page_idx == 0
        } else {
            false
        }
    }

    /// The loaded chapter of the page at `global_idx`, by the key's chapter
    /// id as a position.
    pub open spec fn page_chapter(&self, global_idx: i32) -> Option<ChapterInfo> {
        if global_idx >= 0 && (global_idx as usize) < self.keys().len() {
            let k = self.keys()[global_idx as usize as int];
            if k.chapter_idx < self.chapters().len() {
                Some(self.chapters()[k.chapter_idx as int])
            } else {
                None
            }
        } else {
            None
        }
    }

    fn page_chapter_exec(&self, global_idx: i32) -> (r: Option<&ChapterInfo>)
        ensures
            match r {
                Some(c) => self.page_chapter(global_idx) == Some(*c),
                None => self.page_chapter(global_idx) is None,
            },
    {
        if global_idx < 0 {
            return None;
        }
        let keys = self.stream.global_to_key();
        let g = global_idx as usize;
        if g < keys.len() {
            let chaps = self.stream.chapters();
            let c = keys[g].chapter_idx;
            if c < chaps.len() {
                return Some(&chaps[c]);
            }
        }
        None
    }

    /// File name of the chapter of the page at `global_idx`; empty when none.
    pub fn get_page_chapter_title(&self, global_idx: i32) -> (s: String)
        ensures
            s@ == match self.page_chapter(global_idx) {
                Some(c) => c.filename@,
                None => Seq::<char>::empty(),
            },
    {
        match self.page_chapter_exec(global_idx) {
            Some(c) => c.filename.clone(),
            None => String::new(),
        }
    }

    /// 1-based series position of the chapter of the page at `global_idx`;
    /// 1 when none.
    pub fn get_page_chapter_number(&self, global_idx: i32) -> (n: i32)
        requires
            self.wf(),
        ensures
            n == match self.page_chapter(global_idx) {
                Some(c) => (c.series_idx + 1) as i32,
                None => 1i32,
            },
    {
        match self.page_chapter_exec(global_idx) {
            Some(c) => {
                proof {
                    let k = self.keys()[global_idx as usize as int];
                    assert(self.chapters()[k.chapter_idx as int].series_idx < usize::MAX);
                }
                (c.series_idx + 1) as i32
            },
            None => 1,
        }
    }

    /// Page count of the chapter of the page at `global_idx`; 0 when none.
    pub fn get_page_chapter_page_count(&self, global_idx: i32) -> (n: i32)
        ensures
            n == match self.page_chapter(global_idx) {
                Some(c) => c.page_count as i32,
                None => 0i32,
            },
    {
        match self.page_chapter_exec(global_idx) {
            Some(c) => c.page_count as i32,
            None => 0,
        }
    }

    /// 1-based position of the page at `global_idx` in its chapter; 1 when
    /// there is no such page.
    pub fn get_page_chapter_page_idx(&self, global_idx: i32) -> (n: i32)
        requires
            self.wf(),
        ensures
            n == (if global_idx >= 0 && (global_idx as usize) < self.keys().len() {
                (self.keys()[global_idx as usize as int].page_idx + 1) as i32
            } else {
                1i32
            }),
    {
        if global_idx < 0 {
            return 1;
        }
        let keys = self.stream.global_to_key();
        let g = global_idx as usize;
        if g < keys.len() {
            proof {
                lemma_stream_keys_in_chapters(self.chapters(), g as int);
            }
            (keys[g].page_idx + 1) as i32
        } else {
            1
        }
    }


    /// The page change asks: whether the page at `page_idx` of `total_pages`
    /// finishes its chapter.
    pub open spec fn at_chapter_end(page_idx: usize, total_pages: usize) -> bool {
        total_pages > 0 && page_idx + 1 >= total_pages
    }

    /// `new` holds what `old` holds, plus the series positions of the
    /// chapters before chapter `cur_id` in the stream, plus the position of
    /// chapter `cur_id` itself when the page reached its end.
    pub open spec fn completion_after(
        cs: Seq<ChapterInfo>,
        old: Seq<usize>,
        new: Seq<usize>,
        cur_id: usize,
        at_end: bool,
    ) -> bool {
        forall|s: usize|
            #![trigger new.contains(s)]
            new.contains(s) <==> (old.contains(s) || (exists|i: int|
                0 <= i < cs.len() && #[trigger] cs[i].chapter_id < cur_id && cs[i].series_idx == s) || (
            at_end && exists|i: int| 0 <= i < cs.len() && #[trigger] cs[i].chapter_id == cur_id && cs[i].series_idx == s))
    }

    /// In a well-formed engine each loaded chapter's id is its position in
    /// the stream, so the chapter a page names by id is the one at that
    /// position.
    pub proof fn lemma_chapter_ids_are_positions(&self)
        requires
            self.wf(),
        ensures
            forall|i: int| 0 <= i < self.chapters().len() ==> #[trigger] self.chapters()[i].chapter_id == i,
    {
    }

    /// Progress only moves forward on a page change: a chapter finished
    /// before stays finished, every chapter that comes before the page's
    /// chapter in the stream is finished, and so is the page's own chapter
    /// when the page is at its end.
    pub proof fn lemma_page_change_progress(
        cs: Seq<ChapterInfo>,
        old: Seq<usize>,
        new: Seq<usize>,
        cur_id: usize,
        at_end: bool,
        i: int,
    )
        requires
            Self::completion_after(cs, old, new, cur_id, at_end),
            0 <= i < cs.len(),
        ensures
            forall|s: usize| #[trigger] old.contains(s) ==> new.contains(s),
            cs[i].chapter_id < cur_id ==> new.contains(cs[i].series_idx),
            at_end && cs[i].chapter_id == cur_id ==> new.contains(cs[i].series_idx),
    {
        assert forall|s: usize| #[trigger] old.contains(s) implies new.contains(s) by {
            assert(new.contains(s) <==> (old.contains(s) || (exists|j: int|
                0 <= j < cs.len() && #[trigger] cs[j].chapter_id < cur_id && cs[j].series_idx == s) || (
            at_end && exists|j: int| 0 <= j < cs.len() && #[trigger] cs[j].chapter_id == cur_id && cs[j].series_idx == s)));
        }
        let s = cs[i].series_idx;
        assert(new.contains(s) <==> (old.contains(s) || (exists|j: int|
            0 <= j < cs.len() && #[trigger] cs[j].chapter_id < cur_id && cs[j].series_idx == s) || (
        at_end && exists|j: int| 0 <= j < cs.len() && #[trigger] cs[j].chapter_id == cur_id && cs[j].series_idx == s)));
    }

    /// A page ends its chapter exactly when it is the chapter's last page (or
    /// lies past it); an empty chapter has no such page.
    pub proof fn lemma_chapter_end_is_last_page(page_idx: usize, total_pages: usize)
        ensures
            Self::at_chapter_end(page_idx, total_pages) <==> (total_pages > 0 && page_idx + 1
                >= total_pages),
            total_pages > 1 ==> !Self::at_chapter_end(0, total_pages),
    {
    }

    /// A page change finishes the page's own chapter only on its last page:
    /// for a page at index `page_idx` of a chapter of `total_pages > 0`
    /// pages, where no chapter of the same series position comes earlier in
    /// the stream, that position is finished afterwards exactly when it was
    /// before or `page_idx + 1 >= total_pages`.
    pub proof fn lemma_chapter_finished_only_on_last_page(
        cs: Seq<ChapterInfo>,
        old: Seq<usize>,
        new: Seq<usize>,
        cur_id: usize,
        page_idx: usize,
        total_pages: usize,
        i: int,
    )
        requires
            Self::completion_after(cs, old, new, cur_id, Self::at_chapter_end(page_idx, total_pages)),
            0 <= i < cs.len(),
            cs[i].chapter_id == cur_id,
            total_pages > 0,
            forall|j: int|
                0 <= j < cs.len() && #[trigger] cs[j].series_idx == cs[i].series_idx ==> j == i
                    || cs[j].chapter_id > cur_id,
        ensures
            new.contains(cs[i].series_idx) <==> (old.contains(cs[i].series_idx) || page_idx + 1
                >= total_pages),
    {
        let s = cs[i].series_idx;
        assert(new.contains(s) <==> (old.contains(s) || (exists|j: int|
            0 <= j < cs.len() && #[trigger] cs[j].chapter_id < cur_id && cs[j].series_idx == s) || (
        Self::at_chapter_end(page_idx, total_pages) && exists|j: int|
            0 <= j < cs.len() && #[trigger] cs[j].chapter_id == cur_id && cs[j].series_idx == s)));
        if exists|j: int| 0 <= j < cs.len() && #[trigger] cs[j].chapter_id < cur_id && cs[j].series_idx == s {
            let j = choose|j: int| 0 <= j < cs.len() && #[trigger] cs[j].chapter_id < cur_id && cs[j].series_idx == s;
            assert(cs[j].series_idx == cs[i].series_idx);
        }
        assert(cs[i].chapter_id == cur_id && cs[i].series_idx == s);
    }

    /// Marks the chapters before chapter `cur_id` as finished, and chapter
    /// `cur_id` too when `page_idx` is at or past its last page.
    fn check_chapter_completion(&mut self, cur_id: usize, page_idx: usize, total_pages: usize)
        requires
            old(self).wf(),
        ensures
            final(self).wf(),
            Self::completion_after(
                old(self).chapters(),
                old(self).completed(),
                final(self).completed(),
                cur_id,
                Self::at_chapter_end(page_idx, total_pages),
            ),
            final(self).chapters() == old(self).chapters(),
            final(self).keys() == old(self).keys(),
            final(self).in_flight() == old(self).in_flight(),
            final(self).series() == old(self).series(),
            final(self).last_loaded() == old(self).last_loaded(),
            final(self).p() == old(self).p(),
    {
        let ghost c0 = self.completed_chapters@;
        let ghost cs = self.stream.chapter_seq();
        let n = self.stream.chapters().len();
        for i in 0..n
            invariant
                n == cs.len(),
                cs == self.stream.chapter_seq(),
                self.stream == old(self).stream,
                self.props == old(self).props,
                self.series == old(self).series,
                self.in_flight == old(self).in_flight,
                self.completed_chapters@.no_duplicates(),
                c0 == old(self).completed_chapters@,
                forall|s: usize|
                    #![trigger self.completed_chapters@.contains(s)]
                    self.completed_chapters@.contains(s) <==> (c0.contains(s) || (exists|j: int|
                        0 <= j < i && #[trigger] cs[j].chapter_id < cur_id && cs[j].series_idx == s)),
        {
            let c = &self.stream.chapters()[i];
            if c.chapter_id < cur_id {
                let s = c.series_idx;
                mark_completed(&mut self.completed_chapters, s);
            }
        }
        let ghost c1 = self.completed_chapters@;
        if total_pages > 0 && page_idx >= total_pages - 1 {
            match self.stream.chapter_by_id(cur_id) {
                Some(c) => {
                    let s = c.series_idx;
                    let ghost cg = *c;
                    mark_completed(&mut self.completed_chapters, s);
                    proof {
                        let k = choose|k: int| 0 <= k < cs.len() && cs[k] == cg;
                        assert(cs[k].chapter_id == cur_id && cs[k].series_idx == s);
                        assert forall|t: usize|
                            #![trigger self.completed_chapters@.contains(t)]
                            self.completed_chapters@.contains(t) <==> (c0.contains(t) || (exists|j: int|
                                0 <= j < cs.len() && #[trigger] cs[j].chapter_id < cur_id && cs[j].series_idx == t) || (
                            exists|i: int| 0 <= i < cs.len() && #[trigger] cs[i].chapter_id == cur_id && cs[i].series_idx == t)) by {
                            if exists|i: int| 0 <= i < cs.len() && #[trigger] cs[i].chapter_id == cur_id && cs[i].series_idx == t {
                                let i = choose|i: int| 0 <= i < cs.len() && #[trigger] cs[i].chapter_id == cur_id && cs[i].series_idx == t;
                                if i != k {
                                    assert(cs[i].chapter_id != cs[k].chapter_id);
                                }
                            }
                            if t == s {
                                assert(cs[k].chapter_id == cur_id && cs[k].series_idx == t);
                            }
                        }
                    }
                },
                None => {
                    proof {
                        assert forall|t: usize|
                            #![trigger self.completed_chapters@.contains(t)]
                            !(exists|i: int| 0 <= i < cs.len() && #[trigger] cs[i].chapter_id == cur_id && cs[i].series_idx == t) by {
                        }
                    }
                },
            }
        }
    }

    /// The chapter on screen is finished: its series position is marked, or
    /// the page on screen is at or past its last page.
    pub open spec fn current_completed(&self) -> bool {
        self.p().current_chapter_idx > 0 && {
            let s = (self.p().current_chapter_idx - 1) as usize;
            self.completed().contains(s) || (first_in_series(self.chapters(), s) matches Some(i) && self.chapters()[i].page_count > 0
                && self.p().current_page_number as usize >= self.chapters()[i].page_count)
        }
    }

    /// Whether the chapter on screen is finished.
    pub fn is_current_chapter_completed(&self) -> (b: bool)
        ensures
            b == self.current_completed(),
    {
        if self.props.current_chapter_idx > 0 {
            let s = (self.props.current_chapter_idx - 1) as usize;
            if contains_usize(&self.completed_chapters, s) {
                return true;
            }
            let chaps = self.stream.chapters();
            if let Some(i) = find_series(chaps, s) {
                let c = &chaps[i];
                if c.page_count > 0 && self.props.current_page_number as usize >= c.page_count {
                    return true;
                }
            }
        }
        false
    }

    /// Follows the page on screen: the chapter, page and page count it
    /// shows, and the chapters it finishes. Nothing changes for a page that
    /// the stream does not hold.
    pub fn update_current_page(&mut self, global_idx: i32) -> (ch: PageChange)
        requires
            old(self).wf(),
        ensures
            final(self).wf(),
            final(self).chapters() == old(self).chapters(),
            final(self).keys() == old(self).keys(),
            final(self).in_flight() == old(self).in_flight(),
            final(self).series() == old(self).series(),
            match old(self).page_chapter(global_idx) {
                None => final(self).p() == old(self).p() && final(self).completed() == old(self).completed()
                    && !ch.chapter_changed && !ch.page_changed && !ch.page_count_changed,
                Some(c) => {
                    let k = old(self).keys()[global_idx as usize as int];
                    let new_chap = (c.series_idx + 1) as i32;
                    let new_page = (k.page_idx + 1) as i32;
                    let new_count = c.page_count as i32;
                    &&& ch.chapter_changed == (old(self).p().current_chapter_idx != new_chap)
                    &&& ch.page_changed == (old(self).p().current_page_number != new_page)
                    &&& ch.page_count_changed == (old(self).p().current_chapter_page_count != new_count)
                    &&& final(self).p() == (EngineProperties {
                        current_chapter_idx: new_chap,
                        current_chapter_name: if ch.chapter_changed {
                            c.filename
                        } else {
                            old(self).p().current_chapter_name
                        },
                        current_page_number: new_page,
                        current_chapter_page_count: new_count,
                        ..old(self).p()
                    })
                    &&& Self::completion_after(
                        old(self).chapters(),
                        old(self).completed(),
                        final(self).completed(),
                        k.chapter_idx,
                        Self::at_chapter_end(k.page_idx, c.page_count),
                    )
                    &&& forall|s: usize| #[trigger] old(self).completed().contains(s) ==> final(self).completed().contains(s)
                    &&& forall|i: int|
                        0 <= i < k.chapter_idx ==> final(self).completed().contains(
                            #[trigger] old(self).chapters()[i].series_idx,
                        )
                    &&& (Self::at_chapter_end(k.page_idx, c.page_count) ==> final(self).completed().contains(
                        c.series_idx,
                    ))
                },
            },
    {
        let ghost cs = self.chapters();
        let ghost c0 = self.completed();
        proof {
            self.lemma_chapter_ids_are_positions();
        }
        let none = PageChange { chapter_changed: false, page_changed: false, page_count_changed: false };
        if global_idx < 0 {
            return none;
        }
        let g = global_idx as usize;
        let keys = self.stream.global_to_key();
        if g >= keys.len() {
            return none;
        }
        let key = keys[g];
        let chaps = self.stream.chapters();
        if key.chapter_idx >= chaps.len() {
            return none;
        }
        let chap = chaps[key.chapter_idx].duplicate();
        proof {
            lemma_stream_keys_in_chapters(self.chapters(), g as int);
            assert(chap.series_idx < usize::MAX);
        }
        let new_chap_idx = (chap.series_idx + 1) as i32;
        let new_page_num = (key.page_idx + 1) as i32;
        let new_page_count = chap.page_count as i32;
        let chapter_changed = self.props.current_chapter_idx != new_chap_idx;
        let page_changed = self.props.current_page_number != new_page_num;
        let page_count_changed = self.props.current_chapter_page_count != new_page_count;
        if chapter_changed {
            self.props.current_chapter_idx = new_chap_idx;
            self.props.current_chapter_name = chap.filename;
        }
        if page_changed {
            self.props.current_page_number = new_page_num;
        }
        if page_count_changed {
            self.props.current_chapter_page_count = new_page_count;
        }
        self.check_chapter_completion(key.chapter_idx, key.page_idx, chap.page_count);
        proof {
            let at_end = Self::at_chapter_end(key.page_idx, chap.page_count);
            assert forall|s: usize| #[trigger] c0.contains(s) implies self.completed().contains(s) by {
                Self::lemma_page_change_progress(cs, c0, self.completed(), key.chapter_idx, at_end, 0);
            }
            assert forall|i: int| 0 <= i < key.chapter_idx implies self.completed().contains(
                #[trigger] cs[i].series_idx,
            ) by {
                Self::lemma_page_change_progress(cs, c0, self.completed(), key.chapter_idx, at_end, i);
            }
            if at_end {
                Self::lemma_page_change_progress(
                    cs,
                    c0,
                    self.completed(),
                    key.chapter_idx,
                    at_end,
                    key.chapter_idx as int,
                );
            }
        }
        PageChange { chapter_changed, page_changed, page_count_changed }
    }


    /// Opens `archive` as the first chapter of a fresh stream over `series`,
    /// at the 1-based `initial_page`: the cache and all loading state are
    /// cleared, and the properties describe the new chapter. Returns the page
    /// index to show first.
    pub fn open_archive<T>(
        &mut self,
        mem: &mut MemoryManager<T>,
        series: DirectorySeries,
        archive: &CbzArchive,
        initial_page: i64,
    ) -> (target: i32)
        requires
            old(self).wf(),
            old(mem).wf(),
            archive.image_entries@.len() <= MAX_ARCHIVE_ENTRIES,
            series.current_index < usize::MAX,
        ensures
            final(self).wf(),
            final(mem).wf(),
            final(mem).entries().len() == 0,
            final(mem).budget() == old(mem).budget(),
            target == initial_target(initial_page, archive.image_entries@.len() as usize),
            final(self).chapters() == seq![
                ChapterInfo {
                    chapter_id: 0,
                    series_idx: series.current_index,
                    filename: archive.filename,
                    page_count: archive.image_entries@.len() as usize,
                    archive_path: archive.path,
                },
            ],
            final(self).keys() == chapter_pages(0, archive.image_entries@.len()),
            final(self).series() == Some(series.dir_files@),
            final(self).last_loaded() == series.current_index,
            final(self).in_flight().len() == 0,
            forall|s: usize|
                #[trigger] final(self).completed().contains(s) <==> (s == series.current_index
                    && Self::at_chapter_end(target as usize, archive.image_entries@.len() as usize)),
            final(self).p() == (EngineProperties {
                has_comic: true,
                comic_title: archive.filename,
                current_chapter_name: archive.filename,
                current_chapter_idx: (series.current_index + 1) as i32,
                total_chapters_count: series.dir_files@.len() as i32,
                loaded_chapters_count: 1,
                total_pages_count: archive.image_entries@.len() as i32,
                initial_page_idx: target,
                current_page_number: (target + 1) as i32,
                current_chapter_page_count: archive.image_entries@.len() as i32,
                ..old(self).p()
            }),
    {
        mem.clear();
        let initial_idx = series.current_index;
        let total_series_count = series.dir_files.len() as i32;
        self.stream.reset(initial_idx);
        self.in_flight.clear();
        self.completed_chapters.clear();
        self.series = Some(series);
        let page_count = archive.page_count();
        let title = archive.filename.clone();
        self.stream.append(initial_idx, archive.filename.clone(), page_count, archive.path.clone());
        proof {
            assert(self.stream.key_seq() =~= chapter_pages(0, page_count as nat));
        }
        let target: i32 = if initial_page > 1 {
            let want = (initial_page - 1) as usize;
            let last = if page_count >= 1 {
                page_count - 1
            } else {
                0
            };
            (if want < last {
                want
            } else {
                last
            }) as i32
        } else {
            0
        };
        self.props.initial_page_idx = target;
        self.props.has_comic = true;
        self.props.comic_title = title.clone();
        self.props.current_chapter_name = title;
        self.props.current_chapter_idx = (initial_idx + 1) as i32;
        self.props.total_chapters_count = total_series_count;
        self.props.loaded_chapters_count = self.stream.chapters().len() as i32;
        self.props.total_pages_count = self.stream.global_to_key().len() as i32;
        self.props.current_page_number = target + 1;
        self.props.current_chapter_page_count = page_count as i32;
        proof {
            assert(self.completed_chapters@ =~= Seq::<usize>::empty());
            assert(self.in_flight@ =~= Seq::<PageKey>::empty());
            assert(self.stream.chapter_seq()[0].chapter_id == 0);
        }
        if page_count > 0 && target as usize + 1 >= page_count {
            self.check_chapter_completion(0, target as usize, page_count);
        }
        target
    }

    /// Pages to decode around `current_global_idx` (negative counts as 0):
    /// two before it to five after it, in order, skipping those resident in
    /// `mem` or already in flight; they are now in flight. The next chapter
    /// is wanted when fewer than five pages follow.
    pub fn plan_page_requests<T>(&mut self, current_global_idx: i32, mem: &MemoryManager<T>) -> (r: PageRequests)
        requires
            old(self).wf(),
        ensures
            final(self).wf(),
            final(self).chapters() == old(self).chapters(),
            final(self).keys() == old(self).keys(),
            final(self).completed() == old(self).completed(),
            final(self).series() == old(self).series(),
            final(self).last_loaded() == old(self).last_loaded(),
            final(self).p() == old(self).p(),
            ({
                let g: int = if current_global_idx < 0 {
                    0
                } else {
                    current_global_idx as int
                };
                let total = old(self).keys().len() as int;
                let start = if g >= 2 {
                    g - 2
                } else {
                    0
                };
                let end = if g + 6 < total {
                    g + 6
                } else {
                    total
                };
                let cands = if start < end {
                    old(self).keys().subrange(start, end)
                } else {
                    Seq::<PageKey>::empty()
                };
                let sel = select_requests(cands, keys_of(mem.entries()), old(self).in_flight(), None);
                if total == 0 {
                    !r.load_next_chapter && r.pages@.len() == 0 && final(self).in_flight() == old(self).in_flight()
                } else {
                    &&& r.load_next_chapter == (g + 4 >= total)
                    &&& r.pages@.len() == sel.len()
                    &&& forall|i: int|
                        0 <= i < r.pages@.len() ==> (#[trigger] r.pages@[i]).1 == sel[i] && r.pages@[i].0 < total
                            && old(self).keys()[r.pages@[i].0 as int] == sel[i]
                    &&& final(self).in_flight() == old(self).in_flight() + sel
                }
            }),
    {
        let g: usize = if current_global_idx < 0 {
            0
        } else {
            current_global_idx as usize
        };
        let keys = self.stream.global_to_key();
        let total = keys.len();
        if total == 0 {
            return PageRequests { load_next_chapter: false, pages: Vec::new() };
        }
        let start = if g >= 2 {
            g - 2
        } else {
            0
        };
        let end = if g + 6 < total {
            g + 6
        } else {
            total
        };
        let load_next_chapter = g + 4 >= total;
        let mut cands: Vec<PageKey> = Vec::new();
        if start < end {
            let mut i = start;
            proof {
                assert(keys@.subrange(start as int, start as int) =~= Seq::<PageKey>::empty());
            }
            while i < end
                invariant
                    start <= i <= end,
                    end <= total,
                    total == keys@.len(),
                    cands@ == keys@.subrange(start as int, i as int),
                decreases end - i,
            {
                proof {
                    assert(keys@.subrange(start as int, i + 1) =~= keys@.subrange(start as int, i as int).push(
                        keys@[i as int],
                    ));
                }
                cands.push(keys[i]);
                i = i + 1;
            }
        }
        let loaded = mem.resident_keys();
        let chosen = select_into(&cands, &loaded, &mut self.in_flight, None);
        let mut pages: Vec<(usize, PageKey)> = Vec::new();
        let n = chosen.len();
        for j in 0..n
            invariant
                n == chosen@.len(),
                pages@.len() == j,
                forall|m: int| 0 <= m < j ==> (#[trigger] pages@[m]).0 == start + chosen@[m] && pages@[m].1
                    == cands@[chosen@[m] as int],
                forall|m: int| 0 <= m < chosen@.len() ==> #[trigger] chosen@[m] < cands@.len(),
                cands@.len() == (if start < end {
                    end - start
                } else {
                    0
                }),
                end <= total,
        {
            let c = chosen[j];
            pages.push((start + c, cands[c]));
        }
        PageRequests { load_next_chapter, pages }
    }

    /// A page's decoding is over: it is no longer in flight.
    pub fn finish_request(&mut self, key: &PageKey)
        requires
            old(self).wf(),
        ensures
            final(self).wf(),
            forall|k: PageKey| #[trigger] final(self).in_flight().contains(k) <==> (old(self).in_flight().contains(k) && k != *key),
            final(self).chapters() == old(self).chapters(),
            final(self).keys() == old(self).keys(),
            final(self).completed() == old(self).completed(),
            final(self).series() == old(self).series(),
            final(self).last_loaded() == old(self).last_loaded(),
            final(self).p() == old(self).p(),
    {
        remove_key(&mut self.in_flight, key);
    }

    /// The series position and path of the chapter to load after the last
    /// loaded one, when the series has one.
    pub fn next_chapter_target(&self) -> (r: Option<(usize, String)>)
        ensures
            match r {
                Some((i, path)) => self.series() is Some && i == self.last_loaded() + 1 && i
                    < self.series()->0.len() && path == self.series()->0[i as int],
                None => !(self.series() is Some && self.last_loaded() + 1 < self.series()->0.len()),
            },
    {
        match &self.series {
            Some(series) => {
                match self.stream.next_series_index(series.dir_files.len()) {
                    Some(i) => Some((i, series.dir_files[i].clone())),
                    None => None,
                }
            },
            None => None,
        }
    }

    /// Appends `archive`, at series position `series_idx`, to the stream;
    /// the page and chapter counts follow.
    pub fn append_next_chapter(&mut self, series_idx: usize, archive: &CbzArchive)
        requires
            old(self).wf(),
            series_idx < usize::MAX,
            old(self).chapters().len() < usize::MAX,
        ensures
            final(self).wf(),
            final(self).chapters() == old(self).chapters().push(
                ChapterInfo {
                    chapter_id: old(self).chapters().len() as usize,
                    series_idx,
                    filename: archive.filename,
                    page_count: archive.image_entries@.len() as usize,
                    archive_path: archive.path,
                },
            ),
            final(self).keys() == old(self).keys() + chapter_pages(
                old(self).chapters().len() as usize,
                archive.image_entries@.len(),
            ),
            final(self).last_loaded() == series_idx,
            final(self).in_flight() == old(self).in_flight(),
            final(self).completed() == old(self).completed(),
            final(self).series() == old(self).series(),
            final(self).p() == (EngineProperties {
                total_pages_count: final(self).keys().len() as i32,
                loaded_chapters_count: final(self).chapters().len() as i32,
                ..old(self).p()
            }),
    {
        let page_count = archive.page_count();
        self.stream.append(series_idx, archive.filename.clone(), page_count, archive.path.clone());
        self.props.total_pages_count = self.stream.global_to_key().len() as i32;
        self.props.loaded_chapters_count = self.stream.chapters().len() as i32;
    }

    /// The chapter before the one on screen, as a series position for
    /// `jump_target`, when there is one.
    pub fn prev_chapter_target(&self) -> (r: Option<i32>)
        requires
            self.p().current_chapter_idx > i32::MIN,
        ensures
            r == (if self.p().current_chapter_idx - 1 > 0 {
                Some((self.p().current_chapter_idx - 2) as i32)
            } else {
                None::<i32>
            }),
    {
        let c = self.props.current_chapter_idx - 1;
        let current_chap = if c > 0 {
            c as usize
        } else {
            0
        };
        if current_chap > 0 {
            Some((current_chap - 1) as i32)
        } else {
            None
        }
    }

    /// The path of the chapter at series position `series_idx`, when the
    /// series has it.
    pub fn jump_target(&self, series_idx: i32) -> (r: Option<String>)
        ensures
            r == (if series_idx >= 0 && self.series() is Some && (series_idx as usize) < self.series()->0.len() {
                Some(self.series()->0[series_idx as usize as int])
            } else {
                None::<String>
            }),
    {
        if series_idx < 0 {
            return None;
        }
        let t = series_idx as usize;
        match &self.series {
            Some(series) => {
                if t < series.dir_files.len() {
                    Some(series.dir_files[t].clone())
                } else {
                    None
                }
            },
            None => None,
        }
    }


    /// The chapter that the exit report is about: the first loaded one at the
    /// series position on screen, or the first loaded one when none is on
    /// screen.
    pub open spec fn report_chapter(&self) -> Option<int> {
        if self.p().current_chapter_idx > 0 {
            first_in_series(self.chapters(), (self.p().current_chapter_idx - 1) as usize)
        } else if self.chapters().len() > 0 {
            Some(0)
        } else {
            None
        }
    }

    /// What the reader reports on exit: the page reached, whether its chapter
    /// is finished, and the finished chapters; nothing when no comic was
    /// opened.
    pub fn exit_payload(&self) -> (r: Option<ExitPayload>)
        requires
            self.wf(),
        ensures
            (self.chapters().len() == 0 && !self.p().has_comic) <==> r is None,
            r matches Some(e) ==> {
                let cur = self.report_chapter();
                let cur_series = match cur {
                    Some(i) => Some(self.chapters()[i].series_idx),
                    None => None,
                };
                let done = reported_chapters(self.chapters(), self.completed(), self.current_completed(), cur_series);
                &&& e.last_page == self.p().current_page_number as i64
                &&& e.completed == self.current_completed()
                &&& e.chapter_idx == self.p().current_chapter_idx
                &&& e.chapter_name@ == match cur {
                    Some(i) => self.chapters()[i].filename@,
                    None => Seq::<char>::empty(),
                }
                &&& e.file_path@ == match cur {
                    Some(i) => self.chapters()[i].archive_path@,
                    None => Seq::<char>::empty(),
                }
                &&& e.completed_chapters@ == done.map_values(|c: ChapterInfo| c.archive_path)
                &&& e.completed_filenames@ == done.map_values(|c: ChapterInfo| c.filename)
                &&& e.completed_chapter_indices@ == done.map_values(|c: ChapterInfo| (c.series_idx + 1) as i64)
            },
    {
        let chaps = self.stream.chapters();
        if chaps.len() == 0 && !self.props.has_comic {
            return None;
        }
        let cur: Option<usize> = if self.props.current_chapter_idx > 0 {
            find_series(chaps, (self.props.current_chapter_idx - 1) as usize)
        } else if chaps.len() > 0 {
            Some(0)
        } else {
            None
        };
        let is_completed = self.is_current_chapter_completed();
        let last_page = self.props.current_page_number as i64;
        let (file_path, chapter_name, cur_series) = match cur {
            Some(i) => (chaps[i].archive_path.clone(), chaps[i].filename.clone(), Some(chaps[i].series_idx)),
            None => (String::new(), String::new(), None),
        };
        let (paths, names, indices) = collect_reported(chaps, &self.completed_chapters, is_completed, cur_series);
        proof {
            assert forall|i: int| 0 <= i < chaps@.len() implies #[trigger] chaps@[i].series_idx < usize::MAX by {
                assert(self.chapters()[i].series_idx < usize::MAX);
            }
        }
        Some(
            ExitPayload {
                last_page,
                completed: is_completed,
                completed_chapters: paths,
                completed_filenames: names,
                completed_chapter_indices: indices,
                chapter_idx: self.props.current_chapter_idx,
                chapter_name,
                file_path,
            },
        )
    }

    /// Image source of the page at `global_idx` for the image provider:
    /// `image://cbz/<chapter id>/<page>`; empty when there is no such page.
    pub fn get_page_source(&self, global_idx: i32) -> (s: String)
        ensures
            s@ == (if (global_idx as usize) < self.keys().len() {
                "image://cbz/"@ + decimal(self.keys()[global_idx as usize as int].chapter_idx as nat) + "/"@
                    + decimal(self.keys()[global_idx as usize as int].page_idx as nat)
            } else {
                Seq::<char>::empty()
            }),
    {
        let keys = self.stream.global_to_key();
        let g = global_idx as usize;
        if g < keys.len() {
            let k = keys[g];
            let mut out: Vec<char> = Vec::new();
            push_str(&mut out, "image://cbz/");
            push_decimal(&mut out, k.chapter_idx as u64);
            push_str(&mut out, "/");
            push_decimal(&mut out, k.page_idx as u64);
            proof {
                assert(out@ =~= "image://cbz/"@ + decimal(k.chapter_idx as nat) + "/"@ + decimal(
                    k.page_idx as nat,
                ));
            }
            string_from_chars(&out)
        } else {
            String::new()
        }
    }
}

} // verus!
