//! The reading stream: the chapters of a series that are loaded, in reading
//! order, and the global page index that runs across all of them.
use vstd::prelude::*;

use crate::cache::PageKey;

verus! {

broadcast use vstd::seq_lib::group_seq_properties;

/// The `.cbz` files of the directory that holds the opened chapter, in
/// reading order, and the position of the opened one among them.
pub struct DirectorySeries {
    pub dir_files: Vec<String>,
    pub current_index: usize,
}

/// A chapter loaded into the stream.
pub struct ChapterInfo {
    /// Id of the chapter in the stream; the chapter's pages carry it.
    pub chapter_id: usize,
    /// Position of the chapter's file in the series.
    pub series_idx: usize,
    pub filename: String,
    pub page_count: usize,
    pub archive_path: String,
}

impl ChapterInfo {
    /// A copy of the chapter record.
    pub fn duplicate(&self) -> (c: ChapterInfo)
        ensures
            c == *self,
    {
        ChapterInfo {
            chapter_id: self.chapter_id,
            series_idx: self.series_idx,
            filename: self.filename.clone(),
            page_count: self.page_count,
            archive_path: self.archive_path.clone(),
        }
    }
}

/// The page keys of a chapter with `n` pages.
pub open spec fn chapter_pages(id: usize, n: nat) -> Seq<PageKey> {
    Seq::new(n, |p: int| PageKey { chapter_idx: id, page_idx: p as usize })
}

/// The global page order of a sequence of chapters: each chapter's pages in
/// turn.
pub open spec fn stream_keys(cs: Seq<ChapterInfo>) -> Seq<PageKey>
    decreases cs.len(),
{
    if cs.len() == 0 {
        Seq::empty()
    } else {
        stream_keys(cs.drop_last()) + chapter_pages(cs.last().chapter_id, cs.last().page_count as nat)
    }
}

/// Putting a chapter in front puts its pages in front.
pub proof fn lemma_stream_keys_prepend(c: ChapterInfo, cs: Seq<ChapterInfo>)
    ensures
        stream_keys(seq![c] + cs) == chapter_pages(c.chapter_id, c.page_count as nat) + stream_keys(cs),
    decreases cs.len(),
{
    if cs.len() == 0 {
        assert(seq![c] + cs =~= seq![c]);
        assert(seq![c].drop_last() =~= Seq::<ChapterInfo>::empty());
        assert(Seq::<PageKey>::empty() + chapter_pages(c.chapter_id, c.page_count as nat) =~= chapter_pages(
            c.chapter_id,
            c.page_count as nat,
        ) + Seq::<PageKey>::empty());
    } else {
        lemma_stream_keys_prepend(c, cs.drop_last());
        assert((seq![c] + cs).drop_last() =~= seq![c] + cs.drop_last());
        assert((seq![c] + cs).last() == cs.last());
        let a = chapter_pages(c.chapter_id, c.page_count as nat);
        let b = stream_keys(cs.drop_last());
        let d = chapter_pages(cs.last().chapter_id, cs.last().page_count as nat);
        assert((a + b) + d =~= a + (b + d));
    }
}

/// When chapter ids are their positions, every global page names a loaded
/// chapter and a page inside it.
pub proof fn lemma_stream_keys_in_chapters(cs: Seq<ChapterInfo>, g: int)
    requires
        forall|i: int| 0 <= i < cs.len() ==> #[trigger] cs[i].chapter_id == i,
        0 <= g < stream_keys(cs).len(),
    ensures
        stream_keys(cs)[g].chapter_idx < cs.len(),
        stream_keys(cs)[g].page_idx < cs[stream_keys(cs)[g].chapter_idx as int].page_count,
    decreases cs.len(),
{
    let init = cs.drop_last();
    let pre = stream_keys(init);
    if g < pre.len() {
        assert forall|i: int| 0 <= i < init.len() implies #[trigger] init[i].chapter_id == i by {
            assert(init[i] == cs[i]);
        }
        lemma_stream_keys_in_chapters(init, g);
        assert(stream_keys(cs)[g] == pre[g]);
        assert(init[pre[g].chapter_idx as int] == cs[pre[g].chapter_idx as int]);
    } else {
        assert(cs.last() == cs[cs.len() - 1]);
        assert(stream_keys(cs)[g] == chapter_pages(cs.last().chapter_id, cs.last().page_count as nat)[g
            - pre.len()]);
    }
}

/// Every page of the global order belongs to a loaded chapter, and lies
/// inside its page count.
pub proof fn lemma_stream_key_has_chapter(cs: Seq<ChapterInfo>, g: int)
    requires
        0 <= g < stream_keys(cs).len(),
    ensures
        exists|c: int|
            0 <= c < cs.len() && #[trigger] cs[c].chapter_id == stream_keys(cs)[g].chapter_idx
                && stream_keys(cs)[g].page_idx < cs[c].page_count,
    decreases cs.len(),
{
    let init = cs.drop_last();
    let pre = stream_keys(init);
    if g < pre.len() {
        lemma_stream_key_has_chapter(init, g);
        assert(stream_keys(cs)[g] == pre[g]);
        let c = choose|c: int|
            0 <= c < init.len() && #[trigger] init[c].chapter_id == pre[g].chapter_idx && pre[g].page_idx
                < init[c].page_count;
        assert(cs[c] == init[c]);
    } else {
        let last = cs.len() - 1;
        assert(cs.last() == cs[last]);
        assert(stream_keys(cs)[g] == chapter_pages(cs.last().chapter_id, cs.last().page_count as nat)[g
            - pre.len()]);
        assert(cs[last].chapter_id == stream_keys(cs)[g].chapter_idx);
    }
}

/// Loaded chapters in reading order and the global page order over them.
pub struct ChapterStream {
    chapters: Vec<ChapterInfo>,
    global_to_key: Vec<PageKey>,
    first_loaded_series_idx: usize,
    last_loaded_series_idx: usize,
    next_chapter_id: usize,
}

impl ChapterStream {
    /// The loaded chapters, in reading order.
    pub closed spec fn chapter_seq(&self) -> Seq<ChapterInfo> {
        self.chapters@
    }

    /// The global page order.
    pub closed spec fn key_seq(&self) -> Seq<PageKey> {
        self.global_to_key@
    }

    /// Series position of the first loaded chapter.
    pub closed spec fn first_series(&self) -> usize {
        self.first_loaded_series_idx
    }

    /// Series position of the last loaded chapter.
    pub closed spec fn last_series(&self) -> usize {
        self.last_loaded_series_idx
    }

    /// The id the next loaded chapter gets.
    pub closed spec fn next_id(&self) -> usize {
        self.next_chapter_id
    }

    /// The global page order is made of the chapters' pages; chapter ids are
    /// distinct and below the next id.
    pub open spec fn wf(&self) -> bool {
        &&& self.key_seq() == stream_keys(self.chapter_seq())
        &&& forall|i: int|
            0 <= i < self.chapter_seq().len() ==> #[trigger] self.chapter_seq()[i].chapter_id
                < self.next_id()
        &&& forall|i: int, j: int|
            0 <= i < self.chapter_seq().len() && 0 <= j < self.chapter_seq().len() && i != j
                ==> #[trigger] self.chapter_seq()[i].chapter_id != #[trigger] self.chapter_seq()[j].chapter_id
    }

    /// An empty stream.
    pub fn new() -> (s: Self)
        ensures
            s.wf(),
            s.chapter_seq().len() == 0,
            s.first_series() == 0,
            s.last_series() == 0,
            s.next_id() == 0,
    {
        ChapterStream {
            chapters: Vec::new(),
            global_to_key: Vec::new(),
            first_loaded_series_idx: 0,
            last_loaded_series_idx: 0,
            next_chapter_id: 0,
        }
    }

    /// Empties the stream, to start again at series position `initial_idx`.
    pub fn reset(&mut self, initial_idx: usize)
        ensures
            final(self).wf(),
            final(self).chapter_seq().len() == 0,
            final(self).first_series() == initial_idx,
            final(self).last_series() == initial_idx,
            final(self).next_id() == 0,
    {
        self.chapters.clear();
        self.global_to_key.clear();
        self.first_loaded_series_idx = initial_idx;
        self.last_loaded_series_idx = initial_idx;
        self.next_chapter_id = 0;
        proof {
            assert(self.global_to_key@ =~= stream_keys(self.chapters@));
        }
    }

    /// The loaded chapters.
    pub fn chapters(&self) -> (r: &Vec<ChapterInfo>)
        ensures
            r@ == self.chapter_seq(),
    {
        &self.chapters
    }

    /// The global page order.
    pub fn global_to_key(&self) -> (r: &Vec<PageKey>)
        ensures
            r@ == self.key_seq(),
    {
        &self.global_to_key
    }

    /// Series position of the first loaded chapter.
    pub fn first_loaded_series_idx(&self) -> (r: usize)
        ensures
            r == self.first_series(),
    {
        self.first_loaded_series_idx
    }

    /// Series position of the last loaded chapter.
    pub fn last_loaded_series_idx(&self) -> (r: usize)
        ensures
            r == self.last_series(),
    {
        self.last_loaded_series_idx
    }

    /// The id the next loaded chapter gets.
    pub fn next_chapter_id(&self) -> (r: usize)
        ensures
            r == self.next_id(),
    {
        self.next_chapter_id
    }

    /// Adds a chapter at the end of the stream; its pages follow all others.
    /// Returns the chapter's id.
    pub fn append(
        &mut self,
        series_idx: usize,
        filename: String,
        page_count: usize,
        archive_path: String,
    ) -> (id: usize)
        requires
            old(self).wf(),
            old(self).next_id() < usize::MAX,
        ensures
            final(self).wf(),
            id == old(self).next_id(),
            final(self).next_id() == old(self).next_id() + 1,
            final(self).chapter_seq() == old(self).chapter_seq().push(
                ChapterInfo { chapter_id: id, series_idx, filename, page_count, archive_path },
            ),
            final(self).key_seq() == old(self).key_seq() + chapter_pages(id, page_count as nat),
            final(self).first_series() == old(self).first_series(),
            final(self).last_series() == series_idx,
    {
        let chapter_id = self.next_chapter_id;
        self.next_chapter_id = self.next_chapter_id + 1;
        let ghost before = self.global_to_key@;
        for page_idx in 0..page_count
            invariant
                self.global_to_key@ == before + chapter_pages(chapter_id, page_idx as nat),
                self.chapters@ == old(self).chapters@,
                self.next_chapter_id == chapter_id + 1,
                chapter_id == old(self).next_chapter_id,
                self.first_loaded_series_idx == old(self).first_loaded_series_idx,
                before == old(self).global_to_key@,
        {
            proof {
                assert(chapter_pages(chapter_id, (page_idx + 1) as nat) =~= chapter_pages(
                    chapter_id,
                    page_idx as nat,
                ).push(PageKey { chapter_idx: chapter_id, page_idx }));
                assert(before + chapter_pages(chapter_id, (page_idx + 1) as nat) =~= (before
                    + chapter_pages(chapter_id, page_idx as nat)).push(
                    PageKey { chapter_idx: chapter_id, page_idx },
                ));
            }
            self.global_to_key.push(PageKey { chapter_idx: chapter_id, page_idx });
        }
        let ghost old_chapters = self.chapters@;
        self.chapters.push(ChapterInfo { chapter_id, series_idx, filename, page_count, archive_path });
        proof {
            assert(self.chapters@.drop_last() =~= old_chapters);
            assert forall|i: int| 0 <= i < self.chapters@.len() implies #[trigger] self.chapters@[i].chapter_id
                < self.next_chapter_id by {
                if i < old_chapters.len() {
                    assert(self.chapters@[i] == old_chapters[i]);
                }
            }
            assert forall|i: int, j: int|
                0 <= i < self.chapters@.len() && 0 <= j < self.chapters@.len() && i != j
                    implies #[trigger] self.chapters@[i].chapter_id != #[trigger] self.chapters@[j].chapter_id by {
                if i < old_chapters.len() {
                    assert(self.chapters@[i] == old_chapters[i]);
                }
                if j < old_chapters.len() {
                    assert(self.chapters@[j] == old_chapters[j]);
                }
            }
        }
        self.last_loaded_series_idx = series_idx;
        chapter_id
    }

    /// Adds a chapter at the front of the stream; its pages come before all
    /// others. Returns the chapter's id.
    pub fn prepend(
        &mut self,
        series_idx: usize,
        filename: String,
        page_count: usize,
        archive_path: String,
    ) -> (id: usize)
        requires
            old(self).wf(),
            old(self).next_id() < usize::MAX,
        ensures
            final(self).wf(),
            id == old(self).next_id(),
            final(self).next_id() == old(self).next_id() + 1,
            final(self).chapter_seq() == seq![
                ChapterInfo { chapter_id: id, series_idx, filename, page_count, archive_path },
            ] + old(self).chapter_seq(),
            final(self).key_seq() == chapter_pages(id, page_count as nat) + old(self).key_seq(),
            final(self).first_series() == series_idx,
            final(self).last_series() == old(self).last_series(),
    {
        let chapter_id = self.next_chapter_id;
        self.next_chapter_id = self.next_chapter_id + 1;
        let mut keys: Vec<PageKey> = Vec::new();
        for page_idx in 0..page_count
            invariant
                keys@ == chapter_pages(chapter_id, page_idx as nat),
        {
            proof {
                assert(chapter_pages(chapter_id, (page_idx + 1) as nat) =~= chapter_pages(
                    chapter_id,
                    page_idx as nat,
                ).push(PageKey { chapter_idx: chapter_id, page_idx }));
            }
            keys.push(PageKey { chapter_idx: chapter_id, page_idx });
        }
        let ghost before = self.global_to_key@;
        let n = self.global_to_key.len();
        for i in 0..n
            invariant
                n == before.len(),
                self.global_to_key@ == before,
                keys@ == chapter_pages(chapter_id, page_count as nat) + before.take(i as int),
        {
            proof {
                assert(before.take(i + 1) =~= before.take(i as int).push(before[i as int]));
            }
            keys.push(self.global_to_key[i]);
        }
        proof {
            assert(before.take(n as int) =~= before);
        }
        self.global_to_key = keys;
        let ghost old_chapters = self.chapters@;
        let info = ChapterInfo { chapter_id, series_idx, filename, page_count, archive_path };
        let ghost info_g = info;
        self.chapters.insert(0, info);
        proof {
            assert(self.chapters@ =~= seq![info_g] + old_chapters);
            lemma_stream_keys_prepend(info_g, old_chapters);
            assert forall|i: int, j: int|
                0 <= i < self.chapters@.len() && 0 <= j < self.chapters@.len() && i != j
                    implies #[trigger] self.chapters@[i].chapter_id != #[trigger] self.chapters@[j].chapter_id by {
                if i > 0 && j > 0 {
                    assert(self.chapters@[i] == old_chapters[i - 1]);
                    assert(self.chapters@[j] == old_chapters[j - 1]);
                } else if i > 0 {
                    assert(self.chapters@[i] == old_chapters[i - 1]);
                } else if j > 0 {
                    assert(self.chapters@[j] == old_chapters[j - 1]);
                }
            }
            assert forall|i: int| 0 <= i < self.chapters@.len() implies #[trigger] self.chapters@[i].chapter_id
                < self.next_chapter_id by {
                if i > 0 {
                    assert(self.chapters@[i] == old_chapters[i - 1]);
                }
            }
        }
        self.first_loaded_series_idx = series_idx;
        chapter_id
    }

    /// Series position of the next chapter to load at the end, when the
    /// series of `series_len` files has one.
    pub fn next_series_index(&self, series_len: usize) -> (r: Option<usize>)
        ensures
            r == (if self.last_series() + 1 < series_len {
                Some((self.last_series() + 1) as usize)
            } else {
                None::<usize>
            }),
    {
        if self.last_loaded_series_idx < usize::MAX && self.last_loaded_series_idx + 1 < series_len {
            Some(self.last_loaded_series_idx + 1)
        } else {
            None
        }
    }

    /// Series position of the chapter to load at the front, when there is one.
    pub fn prev_series_index(&self) -> (r: Option<usize>)
        ensures
            r == (if self.first_series() > 0 {
                Some((self.first_series() - 1) as usize)
            } else {
                None::<usize>
            }),
    {
        if self.first_loaded_series_idx > 0 {
            Some(self.first_loaded_series_idx - 1)
        } else {
            None
        }
    }

    /// The chapter with id `id`, if it is loaded.
    pub fn chapter_by_id(&self, id: usize) -> (r: Option<&ChapterInfo>)
        requires
            self.wf(),
        ensures
            r matches Some(c) ==> c.chapter_id == id && self.chapter_seq().contains(*c),
            r is None ==> forall|i: int| 0 <= i < self.chapter_seq().len() ==> #[trigger] self.chapter_seq()[i].chapter_id != id,
    {
        let n = self.chapters.len();
        for i in 0..n
            invariant
                n == self.chapters@.len(),
                forall|j: int| 0 <= j < i ==> #[trigger] self.chapters@[j].chapter_id != id,
        {
            if self.chapters[i].chapter_id == id {
                return Some(&self.chapters[i]);
            }
        }
        None
    }
}

} // verus!
