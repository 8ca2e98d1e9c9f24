use continuum::archive::CbzArchive;
use continuum::cache::{LoadedPageData, MemoryManager, PageKey, MIN_CACHE_BYTES};
use continuum::engine::ContinuumEngine;
use continuum::stream::DirectorySeries;

fn archive(path: &str, pages: usize) -> CbzArchive {
    CbzArchive {
        path: path.to_string(),
        filename: path.rsplit('/').next().unwrap().to_string(),
        image_entries: (0..pages).map(|i| format!("{i:03}.png")).collect(),
        data: Vec::new(),
    }
}

fn series(files: &[&str], current_index: usize) -> DirectorySeries {
    DirectorySeries { dir_files: files.iter().map(|s| s.to_string()).collect(), current_index }
}

fn opened(pages: usize, initial_page: i64) -> (ContinuumEngine, MemoryManager<()>, i32) {
    let mut engine = ContinuumEngine::new();
    let mut mem: MemoryManager<()> = MemoryManager::new(MIN_CACHE_BYTES);
    let s = series(&["/s/c1.cbz", "/s/c2.cbz", "/s/c3.cbz"], 1);
    let target = engine.open_archive(&mut mem, s, &archive("/s/c2.cbz", pages), initial_page);
    (engine, mem, target)
}

#[test]
fn a_fresh_engine_reports_nothing_on_exit() {
    let engine = ContinuumEngine::new();
    assert!(!engine.properties().has_comic);
    assert_eq!(engine.get_chapter_count(), 0);
    assert!(engine.exit_payload().is_none());
    assert_eq!(engine.get_app_icon(), "qrc:/continuum.png");
}

#[test]
fn opening_jumps_to_the_requested_page_inside_the_chapter() {
    let (engine, _, target) = opened(10, 4);
    assert_eq!(target, 3);
    let p = engine.properties();
    assert!(p.has_comic);
    assert_eq!(p.comic_title, "c2.cbz");
    assert_eq!(p.current_chapter_idx, 2);
    assert_eq!(p.total_chapters_count, 3);
    assert_eq!(p.total_pages_count, 10);
    assert_eq!(p.current_page_number, 4);
    assert_eq!(opened(10, 99).2, 9);
    assert_eq!(opened(10, 0).2, 0);
    assert_eq!(opened(0, 5).2, 0);
}

#[test]
fn page_queries_follow_the_stream() {
    let (mut engine, _, _) = opened(3, 1);
    engine.append_next_chapter(2, &archive("/s/c3.cbz", 2));
    assert_eq!(engine.get_total_page_count(), 5);
    assert_eq!(engine.get_chapter_count(), 2);
    assert!(engine.is_first_page_of_chapter(3));
    assert!(!engine.is_first_page_of_chapter(4));
    assert!(!engine.is_first_page_of_chapter(-1));
    assert_eq!(engine.get_page_chapter_title(4), "c3.cbz");
    assert_eq!(engine.get_page_chapter_number(4), 3);
    assert_eq!(engine.get_page_chapter_page_count(4), 2);
    assert_eq!(engine.get_page_chapter_page_idx(4), 2);
    assert_eq!(engine.get_page_chapter_page_idx(40), 1);
    assert_eq!(engine.get_chapter_title(1), "c3.cbz");
    assert_eq!(engine.get_chapter_page_count(7), 0);
    assert_eq!(engine.get_page_source(3), "image://cbz/1/0");
    assert_eq!(engine.get_page_source(9), "");
}

#[test]
fn reaching_a_later_chapter_finishes_the_earlier_ones() {
    let (mut engine, _, _) = opened(3, 1);
    engine.append_next_chapter(2, &archive("/s/c3.cbz", 2));
    assert!(!engine.is_current_chapter_completed());
    let change = engine.update_current_page(3);
    assert!(change.chapter_changed);
    assert_eq!(engine.properties().current_chapter_idx, 3);
    assert_eq!(engine.properties().current_page_number, 1);
    let payload = engine.exit_payload().unwrap();
    assert_eq!(payload.completed_chapters, vec!["/s/c2.cbz".to_string()]);
    assert_eq!(payload.completed_chapter_indices, vec![2]);
    assert!(!payload.completed);
    engine.update_current_page(4);
    let payload = engine.exit_payload().unwrap();
    assert!(payload.completed);
    assert_eq!(payload.last_page, 2);
    assert_eq!(payload.chapter_name, "c3.cbz");
    assert_eq!(payload.file_path, "/s/c3.cbz");
    assert_eq!(payload.completed_filenames, vec!["c2.cbz".to_string(), "c3.cbz".to_string()]);
    // Going back does not undo the progress.
    engine.update_current_page(0);
    let payload = engine.exit_payload().unwrap();
    assert_eq!(payload.completed_filenames, vec!["c2.cbz".to_string(), "c3.cbz".to_string()]);
}

#[test]
fn page_requests_skip_resident_and_pending_pages() {
    let (mut engine, mut mem, _) = opened(10, 1);
    let g: Vec<PageKey> = (0..10).map(|p| PageKey { chapter_idx: 0, page_idx: p }).collect();
    mem.insert(g[4], LoadedPageData { texture: (), width: 1, height: 1, byte_size: 4 }, 4, &g);
    let r = engine.plan_page_requests(4, &mem);
    let pages: Vec<usize> = r.pages.iter().map(|(i, _)| *i).collect();
    assert_eq!(pages, vec![2, 3, 5, 6, 7, 8, 9]);
    assert!(!r.load_next_chapter);
    assert!(engine.plan_page_requests(6, &mem).load_next_chapter);
    let again = engine.plan_page_requests(4, &mem);
    assert!(again.pages.is_empty());
    engine.finish_request(&g[3]);
    let r = engine.plan_page_requests(-5, &mem);
    let pages: Vec<usize> = r.pages.iter().map(|(i, _)| *i).collect();
    assert_eq!(pages, vec![0, 1, 3]);
    assert!(!r.load_next_chapter);
}

#[test]
fn chapter_targets_come_from_the_series() {
    let (engine, _, _) = opened(3, 1);
    assert_eq!(engine.next_chapter_target(), Some((2, "/s/c3.cbz".to_string())));
    assert_eq!(engine.prev_chapter_target(), Some(0));
    assert_eq!(engine.jump_target(0), Some("/s/c1.cbz".to_string()));
    assert_eq!(engine.jump_target(3), None);
    assert_eq!(engine.jump_target(-1), None);
}
