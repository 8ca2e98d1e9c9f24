use continuum::archive::CbzArchive;
use continuum::cache::PageKey;
use continuum::keys::{decide_key, DoubleG, HeldScroll, Key, KeyAction, ScreenStep, ScrollDir};
use continuum::names::{has_comic_extension, is_removable_storage_path, storage_profile_for};
use continuum::reading::{page_dimensions, ReaderState, ReadingMode};
use continuum::stream::DirectorySeries;
use continuum::url::{percent_decode, resolve_file_url};

fn archive(path: &str, pages: usize) -> CbzArchive {
    CbzArchive {
        path: path.to_string(),
        filename: path.rsplit('/').next().unwrap().to_string(),
        image_entries: (0..pages).map(|i| format!("{i:03}.png")).collect(),
        data: Vec::new(),
    }
}

fn series(files: &[&str], current_index: usize) -> DirectorySeries {
    DirectorySeries { dir_files: files.iter().map(|s| s.to_string()).collect(), current_index }
}

fn key(chapter_idx: usize, page_idx: usize) -> PageKey {
    PageKey { chapter_idx, page_idx }
}

#[test]
fn reading_mode_parsing_and_str() {
    assert_eq!(ReadingMode::from_str_loose("manga"), ReadingMode::ContinuousHorizontal);
    assert_eq!(ReadingMode::from_str_loose("horizontal"), ReadingMode::ContinuousHorizontal);
    assert_eq!(ReadingMode::from_str_loose("paged"), ReadingMode::ContinuousHorizontal);
    assert_eq!(ReadingMode::from_str_loose("webtoon"), ReadingMode::ContinuousVertical);
    assert_eq!(ReadingMode::from_str_loose("vertical"), ReadingMode::ContinuousVertical);
    assert_eq!(ReadingMode::from_str_loose("unknown"), ReadingMode::ContinuousVertical);

    assert_eq!(ReadingMode::ContinuousVertical.as_str(), "webtoon");
    assert_eq!(ReadingMode::ContinuousHorizontal.as_str(), "manga");
}

#[test]
fn reading_mode_names_ignore_case_and_surrounding_space() {
    assert_eq!(ReadingMode::from_str_loose("  MANGA\n"), ReadingMode::ContinuousHorizontal);
    assert_eq!(ReadingMode::from_str_loose("\tPaged "), ReadingMode::ContinuousHorizontal);
    assert_eq!(ReadingMode::from_str_loose("man ga"), ReadingMode::ContinuousVertical);
    assert_eq!(ReadingMode::from_str_loose(""), ReadingMode::ContinuousVertical);
    for m in [ReadingMode::ContinuousVertical, ReadingMode::ContinuousHorizontal] {
        assert_eq!(ReadingMode::from_str_loose(m.as_str()), m);
        assert_ne!(m.toggled(), m);
        assert_eq!(m.toggled().toggled(), m);
    }
}

#[test]
fn unknown_page_sizes_fall_back_to_portrait() {
    assert_eq!(page_dimensions(1200, 1800), (1200, 1800));
    assert_eq!(page_dimensions(0, 1800), (800, 1200));
    assert_eq!(page_dimensions(1200, 0), (800, 1200));
}

#[test]
fn loading_a_comic_starts_a_fresh_stream() {
    let mut r = ReaderState::new();
    assert_eq!(r.generation_id(), 0);
    r.load_initial(series(&["/s/a.cbz", "/s/b.cbz", "/s/c.cbz"], 1), archive("/s/b.cbz", 3));
    assert_eq!(r.generation_id(), 1);
    assert_eq!(r.global_to_key(), &vec![key(0, 0), key(0, 1), key(0, 2)]);
    assert_eq!(r.chapters().len(), 1);
    assert_eq!(r.chapters()[0].series_idx, 1);
    assert_eq!(r.chapters()[0].filename, "b.cbz");
    assert_eq!(r.next_chapter_file(), Some((2, "/s/c.cbz".to_string())));
    assert_eq!(r.prev_chapter_file(), Some((0, "/s/a.cbz".to_string())));
}

#[test]
fn chapters_join_at_either_end_of_the_stream() {
    let mut r = ReaderState::new();
    r.load_initial(series(&["/s/a.cbz", "/s/b.cbz", "/s/c.cbz"], 1), archive("/s/b.cbz", 2));
    r.append_chapter(archive("/s/c.cbz", 1), 2);
    r.prepend_chapter(archive("/s/a.cbz", 2), 0);
    assert_eq!(
        r.global_to_key(),
        &vec![key(2, 0), key(2, 1), key(0, 0), key(0, 1), key(1, 0)]
    );
    let names: Vec<&str> = r.chapters().iter().map(|c| c.filename.as_str()).collect();
    assert_eq!(names, vec!["a.cbz", "b.cbz", "c.cbz"]);
    assert_eq!(r.next_chapter_file(), None);
    assert_eq!(r.prev_chapter_file(), None);
}

#[test]
fn decodes_start_nearest_the_page_on_screen_and_stop_at_eight() {
    let mut r = ReaderState::new();
    r.load_initial(series(&["/s/a.cbz"], 0), archive("/s/a.cbz", 30));
    let loads = r.plan_dispatch(10, &vec![key(0, 10), key(0, 9)]);
    let pages: Vec<usize> = loads.iter().map(|l| l.key.page_idx).collect();
    assert_eq!(pages, vec![11, 8, 12, 7, 13, 6, 14, 15]);
    assert!(loads.iter().all(|l| l.archive_path == "/s/a.cbz"));
    assert_eq!(loads[0].entry_name, "011.png");
    // With eight decodes under way nothing more starts.
    assert!(r.plan_dispatch(10, &vec![]).is_empty());
    // A decode that ends frees a place.
    assert!(r.finish_load(&key(0, 11), 1));
    let loads = r.plan_dispatch(10, &vec![key(0, 10), key(0, 9), key(0, 11)]);
    let pages: Vec<usize> = loads.iter().map(|l| l.key.page_idx).collect();
    assert_eq!(pages, vec![16]);
}

#[test]
fn decodes_near_the_end_stay_inside_the_stream() {
    let mut r = ReaderState::new();
    r.load_initial(series(&["/s/a.cbz"], 0), archive("/s/a.cbz", 3));
    let loads = r.plan_dispatch(2, &vec![]);
    let pages: Vec<usize> = loads.iter().map(|l| l.key.page_idx).collect();
    assert_eq!(pages, vec![2, 1, 0]);
    let mut empty = ReaderState::new();
    assert!(empty.plan_dispatch(0, &vec![]).is_empty());
}

#[test]
fn decodes_from_before_a_clear_are_stale() {
    let mut r = ReaderState::new();
    r.load_initial(series(&["/s/a.cbz"], 0), archive("/s/a.cbz", 2));
    let old_generation = r.generation_id();
    let loads = r.plan_dispatch(0, &vec![]);
    assert_eq!(loads.len(), 2);
    r.clear();
    assert!(r.chapters().is_empty());
    assert!(!r.finish_load(&loads[0].key, old_generation));
    assert!(r.finish_load(&loads[1].key, r.generation_id()));
}

#[test]
fn layout_switches_back_and_forth() {
    let mut r = ReaderState::new();
    assert_eq!(r.reading_mode(), ReadingMode::ContinuousVertical);
    assert_eq!(r.toggle_reading_mode(), ReadingMode::ContinuousHorizontal);
    assert_eq!(r.toggle_reading_mode(), ReadingMode::ContinuousVertical);
    r.set_reading_mode(ReadingMode::ContinuousHorizontal);
    assert_eq!(r.reading_mode(), ReadingMode::ContinuousHorizontal);
}

#[test]
fn keys_in_the_vertical_strip_scroll() {
    let v = ReadingMode::ContinuousVertical;
    assert_eq!(decide_key(Key::LowerJ, false, false, v), KeyAction::HoldScroll(ScrollDir::FineDown));
    assert_eq!(decide_key(Key::UpperJ, false, true, v), KeyAction::HoldScroll(ScrollDir::FastDown));
    assert_eq!(decide_key(Key::Down, false, true, v), KeyAction::HoldScroll(ScrollDir::FastDown));
    assert_eq!(decide_key(Key::Up, false, false, v), KeyAction::HoldScroll(ScrollDir::FineUp));
    assert_eq!(decide_key(Key::LowerK, false, true, v), KeyAction::HoldScroll(ScrollDir::FastUp));
    assert_eq!(decide_key(Key::LowerL, false, false, v), KeyAction::NextChapter);
    assert_eq!(decide_key(Key::BracketLeft, false, false, v), KeyAction::PrevChapter);
    assert_eq!(decide_key(Key::LowerJ, true, false, v), KeyAction::Pass);
}

#[test]
fn keys_side_by_side_step_pages() {
    let h = ReadingMode::ContinuousHorizontal;
    assert_eq!(decide_key(Key::LowerJ, false, false, h), KeyAction::NextPage);
    assert_eq!(decide_key(Key::PageDown, false, false, h), KeyAction::NextPage);
    assert_eq!(decide_key(Key::LowerH, false, false, h), KeyAction::PrevPage);
    assert_eq!(decide_key(Key::Up, false, false, h), KeyAction::Pass);
    assert_eq!(decide_key(Key::LowerM, false, false, h), KeyAction::ToggleReadingMode);
    assert_eq!(decide_key(Key::LowerM, true, false, h), KeyAction::Pass);
}

#[test]
fn command_keys() {
    let v = ReadingMode::ContinuousVertical;
    assert_eq!(decide_key(Key::LowerO, true, false, v), KeyAction::OpenFile);
    assert_eq!(decide_key(Key::UpperQ, false, true, v), KeyAction::Quit);
    assert_eq!(decide_key(Key::Slash, false, true, v), KeyAction::ShowShortcuts);
    assert_eq!(decide_key(Key::Slash, false, false, v), KeyAction::Pass);
    assert_eq!(decide_key(Key::LowerF, false, false, v), KeyAction::ToggleFullscreen);
    assert_eq!(decide_key(Key::UpperF, false, true, v), KeyAction::Pass);
    assert_eq!(decide_key(Key::LowerF, true, false, v), KeyAction::ScrollScreen(ScreenStep::NineTenthsDown));
    assert_eq!(decide_key(Key::UpperB, true, true, v), KeyAction::ScrollScreen(ScreenStep::NineTenthsUp));
    assert_eq!(decide_key(Key::LowerD, true, false, v), KeyAction::ScrollScreen(ScreenStep::HalfDown));
    assert_eq!(decide_key(Key::LowerU, false, false, v), KeyAction::ScrollScreen(ScreenStep::HalfUp));
    assert_eq!(decide_key(Key::UpperG, false, true, v), KeyAction::JumpToEnd);
    assert_eq!(decide_key(Key::LowerG, false, false, v), KeyAction::PressG);
    assert_eq!(decide_key(Key::Space, false, true, v), KeyAction::ScrollScreen(ScreenStep::NineTenthsUp));
    assert_eq!(decide_key(Key::Space, false, false, v), KeyAction::ScrollScreen(ScreenStep::NineTenthsDown));
    assert_eq!(decide_key(Key::Other, false, false, v), KeyAction::Pass);
}

#[test]
fn held_scrolling_repeats_until_release() {
    let mut h = HeldScroll::new();
    assert!(h.press(ScrollDir::FineDown));
    assert!(!h.press(ScrollDir::FastDown));
    assert_eq!(h.tick(), Some(ScrollDir::FastDown));
    assert_eq!(ScrollDir::FastDown.delta(), 160);
    h.release(Key::LowerM);
    assert_eq!(h.tick(), Some(ScrollDir::FastDown));
    h.release(Key::UpperJ);
    assert_eq!(h.tick(), None);
    assert!(!h.repeating);
    assert!(h.press(ScrollDir::FineUp));
    assert_eq!(ScrollDir::FineUp.delta(), -40);
}

#[test]
fn g_twice_within_400_ms_is_a_double_press() {
    let mut g = DoubleG::new();
    assert!(!g.press(1_000));
    assert!(g.press(1_399));
    assert!(!g.press(1_400));
    assert!(!g.press(1_800));
    assert!(g.press(1_800));
}

#[test]
fn storage_profile_prefers_the_given_one() {
    assert_eq!(storage_profile_for(Some("ssd"), Some("/media/x/a.cbz")), Some("ssd".to_string()));
    assert_eq!(storage_profile_for(None, Some("/MEDIA/x/a.cbz")), Some("usb".to_string()));
    assert_eq!(storage_profile_for(None, Some("/home/me/a.cbz")), None);
    assert_eq!(storage_profile_for(None, None), None);
    assert!(is_removable_storage_path("/run/media/me/disk/a.cbz"));
    assert!(is_removable_storage_path("/mnt/a.cbz"));
    assert!(is_removable_storage_path("/home/me/USB-stick/a.cbz"));
    assert!(!is_removable_storage_path("/home/media/a.cbz"));
}

#[test]
fn comic_files_are_cbz_or_zip() {
    assert!(has_comic_extension("/s/Ch_01.cbz"));
    assert!(has_comic_extension("/s/Ch_01.ZIP"));
    assert!(!has_comic_extension("/s/Ch_01.cbr"));
    assert!(!has_comic_extension("/s/.cbz"));
    assert!(!has_comic_extension("/s/cbz"));
    assert!(has_comic_extension("/s/a.b.Cbz"));
}

#[test]
fn file_urls_are_decoded() {
    assert_eq!(percent_decode("a%20b%2Fc"), "a b/c");
    assert_eq!(percent_decode("100%"), "100%");
    assert_eq!(percent_decode("%zz!"), "%zz!");
    assert_eq!(percent_decode("%C3%A9t%C3%A9"), "été");
    assert_eq!(percent_decode("%FF"), "\u{FFFD}");
    assert_eq!(percent_decode("/plain/été+1.cbz"), "/plain/été+1.cbz");
    let (decoded, raw) = resolve_file_url("file:///home/me/My%20Comics/a.cbz");
    assert_eq!(decoded, "/home/me/My Comics/a.cbz");
    assert_eq!(raw, "/home/me/My%20Comics/a.cbz");
    let (decoded, raw) = resolve_file_url("/plain/path.cbz");
    assert_eq!((decoded.as_str(), raw.as_str()), ("/plain/path.cbz", "/plain/path.cbz"));
}
