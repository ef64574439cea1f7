use filepanel::cache::DirCache;
use filepanel::entry::display_name;
use filepanel::entry::is_executable_mode;
use filepanel::entry::is_hidden_name;
use filepanel::entry::DirElem;
use filepanel::loader::plan_load;
use filepanel::loader::LoadAction;
use filepanel::loader::LoadTracker;
use filepanel::panel::hash_elements;
use filepanel::panel::DirPanel;

fn file(name: &str, dir: &str) -> DirElem {
    DirElem::new(
        name.to_string(),
        format!("{dir}/{name}"),
        false,
        0o644,
        String::new(),
    )
}

fn subdir(name: &str, dir: &str) -> DirElem {
    DirElem::new(
        name.to_string(),
        format!("{dir}/{name}"),
        true,
        0o755,
        String::new(),
    )
}

fn listing() -> DirPanel {
    let entries = vec![
        file("Z.txt", "/tmp/d"),
        file("a.txt", "/tmp/d"),
        file(".hidden", "/tmp/d"),
        subdir("sub", "/tmp/d"),
    ];
    DirPanel::from_listing(entries, "/tmp/d".to_string(), 7)
}

#[test]
fn hidden_name_rules() {
    assert!(is_hidden_name(".profile"));
    assert!(is_hidden_name("__pycache__"));
    assert!(is_hidden_name("notes.swp"));
    assert!(!is_hidden_name("visible.txt"));
    assert!(!is_hidden_name("swp"));
    assert!(!is_hidden_name(""));
}

#[test]
fn executable_mode_bits() {
    assert!(is_executable_mode(0o100));
    assert!(is_executable_mode(0o010));
    assert!(is_executable_mode(0o001));
    assert!(is_executable_mode(0o755));
    assert!(!is_executable_mode(0o644));
    assert!(!is_executable_mode(0));
}

#[test]
fn entry_lowercase_is_computed() {
    let e = file("MiXeD.TXT", "/tmp/d");
    assert_eq!(e.name_lowercase().as_str(), "mixed.txt");
    assert_eq!(e.name().as_str(), "MiXeD.TXT");
}

#[test]
fn entry_executable_from_mode() {
    let e = DirElem::new(
        "tool".to_string(),
        "/tmp/d/tool".to_string(),
        false,
        0o755,
        String::new(),
    );
    assert!(e.is_executable);
    let p = file("plain.txt", "/tmp/d");
    assert!(!p.is_executable);
}

#[test]
fn entry_mark_roundtrip() {
    let mut e = file("a.txt", "/tmp/d");
    assert!(!e.is_marked());
    e.is_marked = true;
    assert!(e.is_marked());
    e.unmark();
    assert!(!e.is_marked());
}

#[test]
fn entry_into_parts() {
    let e = file("a.txt", "/tmp/d");
    let (name, path) = e.into_parts();
    assert_eq!(name, "a.txt");
    assert_eq!(path, "/tmp/d/a.txt");
}

#[test]
fn sort_puts_directories_first_then_case_insensitive() {
    let p = listing();
    let names: Vec<&str> = p.elements().iter().map(|e| e.name().as_str()).collect();
    assert_eq!(names, ["sub", ".hidden", "a.txt", "Z.txt"]);
}

#[test]
fn hidden_entry_stays_in_elements_but_not_in_index() {
    let p = listing();
    // hidden off by default: the filtered index skips `.hidden` at position 1
    assert_eq!(p.non_hidden, vec![0usize, 2, 3]);
    assert_eq!(p.elements().len(), 4);
    assert!(p.elements()[1].is_hidden());
}

#[test]
fn default_selection_is_first_non_hidden() {
    let p = listing();
    assert_eq!(p.selected_idx, 0);
    assert_eq!(p.selected_path().unwrap().as_str(), "/tmp/d/sub");
}

#[test]
fn down_is_bounded_and_idempotent_at_end() {
    let mut p = listing();
    assert!(p.down(1)); // sub -> a.txt
    assert!(p.down(1)); // a.txt -> Z.txt
    assert_eq!(p.selected_path().unwrap().as_str(), "/tmp/d/Z.txt");
    // at the last visible entry: further steps change nothing
    assert!(!p.down(1));
    assert!(!p.down(5));
    assert_eq!(p.selected_path().unwrap().as_str(), "/tmp/d/Z.txt");
}

#[test]
fn down_with_big_step_clamps_to_last() {
    let mut p = listing();
    assert!(p.down(100));
    assert_eq!(p.selected_path().unwrap().as_str(), "/tmp/d/Z.txt");
}

#[test]
fn up_is_bounded_and_idempotent_at_start() {
    let mut p = listing();
    assert!(!p.up(1));
    assert!(!p.up(3));
    assert_eq!(p.selected_path().unwrap().as_str(), "/tmp/d/sub");
    assert!(p.down(2));
    assert!(p.up(1));
    assert_eq!(p.selected_path().unwrap().as_str(), "/tmp/d/a.txt");
}

#[test]
fn navigation_skips_hidden_when_filtered() {
    let mut p = listing();
    assert!(!p.show_hidden());
    assert!(p.down(1));
    // `.hidden` is skipped: from sub directly to a.txt
    assert_eq!(p.selected_path().unwrap().as_str(), "/tmp/d/a.txt");
}

#[test]
fn navigation_visits_hidden_when_shown() {
    let mut p = listing();
    p.set_hidden(true);
    assert!(p.down(1));
    assert_eq!(p.selected_path().unwrap().as_str(), "/tmp/d/.hidden");
}

#[test]
fn toggle_hidden_round_trip_keeps_visible_selection() {
    let mut p = listing();
    p.set_hidden(true);
    // move to a.txt (index 2), a non-hidden entry
    assert!(p.down(2));
    assert_eq!(p.selected_path().unwrap().as_str(), "/tmp/d/a.txt");
    p.set_hidden(false);
    p.set_hidden(true);
    assert_eq!(p.selected_path().unwrap().as_str(), "/tmp/d/a.txt");
    assert!(p.selected_idx < p.elements().len());
}

#[test]
fn toggle_hidden_moves_off_hidden_selection_to_visible() {
    let mut p = listing();
    p.set_hidden(true);
    assert!(p.down(1)); // on .hidden
    p.set_hidden(false);
    // selection resolved to the next visible entry at or after .hidden
    assert_eq!(p.selected_path().unwrap().as_str(), "/tmp/d/a.txt");
    assert!(p.selected_idx < p.elements().len());
}

#[test]
fn select_path_finds_visible_entry() {
    let mut p = listing();
    p.select_path(&"/tmp/d/Z.txt".to_string());
    assert_eq!(p.selected_path().unwrap().as_str(), "/tmp/d/Z.txt");
    // an unknown path leaves the selection unchanged
    p.select_path(&"/tmp/d/gone.txt".to_string());
    assert_eq!(p.selected_path().unwrap().as_str(), "/tmp/d/Z.txt");
}

#[test]
fn update_content_carries_selection_over() {
    let mut p = listing();
    p.select_path(&"/tmp/d/a.txt".to_string());
    // a refresh of the same directory with one more file
    let refreshed = DirPanel::from_listing(
        vec![
            file("Z.txt", "/tmp/d"),
            file("a.txt", "/tmp/d"),
            file("b.txt", "/tmp/d"),
            file(".hidden", "/tmp/d"),
            subdir("sub", "/tmp/d"),
        ],
        "/tmp/d".to_string(),
        8,
    );
    p.update_content(refreshed);
    assert_eq!(p.selected_path().unwrap().as_str(), "/tmp/d/a.txt");
    assert_eq!(p.elements().len(), 5);
}

#[test]
fn update_content_falls_back_when_entry_deleted() {
    let mut p = listing();
    p.select_path(&"/tmp/d/a.txt".to_string());
    assert_eq!(p.selected_path().unwrap().as_str(), "/tmp/d/a.txt");
    // a.txt was deleted externally; the reload no longer holds it
    let refreshed = DirPanel::from_listing(
        vec![
            file("Z.txt", "/tmp/d"),
            file(".hidden", "/tmp/d"),
            subdir("sub", "/tmp/d"),
        ],
        "/tmp/d".to_string(),
        9,
    );
    p.update_content(refreshed);
    // selection fell back to the fresh snapshot's default, a valid index
    assert!(p.selected_idx < p.elements().len());
    assert_eq!(p.selected_path().unwrap().as_str(), "/tmp/d/sub");
}

#[test]
fn update_content_keeps_hidden_setting() {
    let mut p = listing();
    p.set_hidden(true);
    let refreshed = DirPanel::from_listing(
        vec![file("a.txt", "/tmp/d")],
        "/tmp/d".to_string(),
        10,
    );
    assert!(!refreshed.show_hidden());
    p.update_content(refreshed);
    assert!(p.show_hidden());
}

#[test]
fn update_content_for_other_path_takes_default() {
    let mut p = listing();
    p.select_path(&"/tmp/d/a.txt".to_string());
    let other = DirPanel::from_listing(
        vec![file("x.txt", "/tmp/e"), subdir("y", "/tmp/e")],
        "/tmp/e".to_string(),
        11,
    );
    p.update_content(other);
    assert_eq!(p.selected_path().unwrap().as_str(), "/tmp/e/y");
}

#[test]
fn mark_selected_item_toggles() {
    let mut p = listing();
    p.mark_selected_item();
    assert!(p.selected().unwrap().is_marked());
    p.mark_selected_item();
    assert!(!p.selected().unwrap().is_marked());
}

#[test]
fn index_vs_total_counts_visible_rows() {
    let mut p = listing();
    assert_eq!(p.index_vs_total(), (1, 3));
    p.set_hidden(true);
    assert_eq!(p.index_vs_total(), (1, 4));
}

#[test]
fn index_follows_view() {
    let mut p = listing();
    assert!(p.down(1));
    assert_eq!(p.index(), 1); // second visible row
    p.set_hidden(true);
    assert_eq!(p.index(), p.selected_idx);
}

#[test]
fn empty_and_loading_panels() {
    let e = DirPanel::empty();
    assert_eq!(e.elements().len(), 0);
    assert!(e.selected_path().is_none());
    assert!(!e.is_loading());
    let l = DirPanel::loading("/tmp/d".to_string());
    assert!(l.is_loading());
    assert_eq!(l.path().as_str(), "/tmp/d");
    assert_eq!(l.elements().len(), 0);
}

#[test]
fn empty_panel_navigation_is_safe() {
    let mut e = DirPanel::empty();
    assert!(e.path().is_empty());
    assert!(!e.up(1));
    // an empty visible list absorbs the step: no state change, no redraw
    assert!(!e.down(1));
    assert!(e.selected_path().is_none());
    assert_eq!(e.selected_idx, 0);
}

#[test]
fn zero_step_reports_no_change() {
    let mut p = listing();
    assert!(p.down(1));
    assert!(!p.down(0));
    assert!(!p.up(0));
    assert_eq!(p.selected_path().unwrap().as_str(), "/tmp/d/a.txt");
}

#[test]
fn content_hash_is_deterministic_and_sensitive() {
    let a = vec![file("a.txt", "/tmp/d"), file("b.txt", "/tmp/d")];
    let b = vec![file("a.txt", "/tmp/d"), file("b.txt", "/tmp/d")];
    let c = vec![file("a.txt", "/tmp/d"), file("c.txt", "/tmp/d")];
    assert_eq!(hash_elements(&a), hash_elements(&b));
    assert_ne!(hash_elements(&a), hash_elements(&c));
    // entries equal in name but different in kind or suffix digest apart
    let d = vec![subdir("a.txt", "/tmp/d"), file("b.txt", "/tmp/d")];
    assert_ne!(hash_elements(&a), hash_elements(&d));
    let mut e = vec![file("a.txt", "/tmp/d"), file("b.txt", "/tmp/d")];
    e[0].suffix = "4 K".to_string();
    assert_ne!(hash_elements(&a), hash_elements(&e));
}

#[test]
fn scroll_keeps_cursor_centered() {
    let entries: Vec<DirElem> = (0..50)
        .map(|i| file(&format!("f{i:02}.txt"), "/tmp/d"))
        .collect();
    let mut p = DirPanel::from_listing(entries, "/tmp/d".to_string(), 1);
    p.set_hidden(true);
    // at the top, no scrolling
    assert_eq!(p.scroll_offset(10), 0);
    for _ in 0..25 {
        p.down(1);
    }
    // selection at 25, h = 5: bottom = 30, scroll = 20
    assert_eq!(p.scroll_offset(10), 20);
}

#[test]
fn display_name_pads_and_truncates() {
    assert_eq!(display_name("short", 8), "short   ");
    assert_eq!(display_name("exactly", 7), "exactly");
    assert_eq!(display_name("averylongname", 6), "avery~");
    assert_eq!(display_name("abc", 0), "~");
    // truncation never splits a multi-byte character
    assert_eq!(display_name("héllo wörld", 6), "héllo~");
}

#[test]
fn cache_hit_and_miss() {
    let mut cache = DirCache::with_size(2);
    assert!(cache.get(&"/tmp/d".to_string()).is_none());
    cache.insert("/tmp/d".to_string(), listing());
    let hit = cache.get(&"/tmp/d".to_string()).unwrap();
    assert_eq!(hit.path().as_str(), "/tmp/d");
    assert_eq!(hit.elements().len(), 4);
}

#[test]
fn cache_bound_evicts_least_recently_used() {
    let mut cache = DirCache::with_size(2);
    cache.insert("/a".to_string(), DirPanel::loading("/a".to_string()));
    cache.insert("/b".to_string(), DirPanel::loading("/b".to_string()));
    // touch /a so that /b is the least recently used
    assert!(cache.get(&"/a".to_string()).is_some());
    // a third distinct key: capacity + 1 inserts leave exactly capacity entries
    cache.insert("/c".to_string(), DirPanel::loading("/c".to_string()));
    assert_eq!(cache.len(), 2);
    assert!(cache.get(&"/b".to_string()).is_none());
    assert!(cache.get(&"/a".to_string()).is_some());
    assert!(cache.get(&"/c".to_string()).is_some());
}

#[test]
fn cache_overwrite_does_not_grow() {
    let mut cache = DirCache::with_size(2);
    cache.insert("/a".to_string(), DirPanel::loading("/a".to_string()));
    cache.insert("/a".to_string(), listing());
    assert_eq!(cache.len(), 1);
    let hit = cache.get(&"/a".to_string()).unwrap();
    assert_eq!(hit.elements().len(), 4);
}

#[test]
fn cache_invalidate_removes_entry() {
    let mut cache = DirCache::with_size(2);
    cache.insert("/a".to_string(), DirPanel::loading("/a".to_string()));
    cache.invalidate(&"/a".to_string());
    assert_eq!(cache.len(), 0);
    assert!(cache.get(&"/a".to_string()).is_none());
    // invalidating an absent key is a no-op
    cache.invalidate(&"/a".to_string());
    assert_eq!(cache.len(), 0);
}

#[test]
fn requests_for_same_path_coalesce() {
    let mut t = LoadTracker::new();
    let path = "/tmp/d".to_string();
    // the first request issues the one filesystem read
    assert!(t.note_request(&path));
    // the second arrives before completion: no second read
    assert!(!t.note_request(&path));
    // the one completion owes a notification to both requesters
    assert_eq!(t.complete(&path), 2);
    // nothing left in flight afterwards
    assert_eq!(t.complete(&path), 0);
}

#[test]
fn requests_for_distinct_paths_both_read() {
    let mut t = LoadTracker::new();
    assert!(t.note_request(&"/a".to_string()));
    assert!(t.note_request(&"/b".to_string()));
    assert_eq!(t.complete(&"/a".to_string()), 1);
    assert_eq!(t.complete(&"/b".to_string()), 1);
}

#[test]
fn plan_load_serves_fresh_cache_without_io() {
    assert_eq!(plan_load(Some(7), 7, false), LoadAction::ServeCached);
    assert_eq!(plan_load(Some(7), 7, true), LoadAction::ServeCached);
    assert_eq!(plan_load(Some(7), 8, false), LoadAction::Read);
    assert_eq!(plan_load(Some(7), 8, true), LoadAction::Coalesce);
    assert_eq!(plan_load(None, 8, false), LoadAction::Read);
    assert_eq!(plan_load(None, 8, true), LoadAction::Coalesce);
}

#[test]
fn elements_mut_allows_unmarking_all() {
    let mut p = listing();
    p.mark_selected_item();
    assert!(p.elements().iter().any(|e| e.is_marked()));
    for e in p.elements_mut() {
        e.unmark();
    }
    assert!(!p.elements().iter().any(|e| e.is_marked()));
}
