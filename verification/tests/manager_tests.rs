use fm_core::event::Event;
use fm_core::file::{File, FilesOp};
use fm_core::manager::{create_plan, rename_target, CreatePlan, Manager, Opt};
use fm_core::path::Path;
use fm_core::preview::PreviewData;

fn p(s: &str) -> Path {
    Path::parse(s)
}

fn comps(s: &str) -> Vec<Vec<char>> {
    s.split('/')
        .filter(|c| !c.is_empty())
        .map(|c| c.chars().collect())
        .collect()
}

fn f(s: &str, is_dir: bool) -> File {
    File { path: p(s), is_dir, size: 1, mtime: 0 }
}

fn listing(dir: &str, names: &[&str]) -> FilesOp {
    let files = names
        .iter()
        .map(|n| f(&format!("{}/{}", dir, n), false))
        .collect();
    FilesOp { path: p(dir), files }
}

/// A manager whose active tab sits at /a with parent /.
fn manager_at_a() -> Manager {
    let mut m = Manager::new();
    m.tabs_mut().open(&p("/a"));
    m
}

fn hovered_name(m: &Manager) -> Option<String> {
    m.hovered().map(|h| {
        h.path
            .comps
            .last()
            .map(|c| c.iter().collect::<String>())
            .unwrap_or_default()
    })
}

#[test]
fn parse_splits_on_separators() {
    assert_eq!(p("/a/x.txt").comps, comps("/a/x.txt"));
    assert_eq!(p("a//b/").comps, comps("a/b"));
    assert_eq!(p("/").comps.len(), 0);
    assert_eq!(p("").comps.len(), 0);
}

#[test]
fn parent_drops_last_component() {
    let q = p("/a/b");
    let par = q.parent().unwrap();
    assert_eq!(par.comps, comps("/a"));
    assert!(p("/").parent().is_none());
}

#[test]
fn hover_survives_permuted_listings() {
    // Cursor identity is the path: however the listing is permuted, the
    // hovered path stays hovered while it is present.
    let mut m = manager_at_a();
    m.update_read(listing("/a", &["x", "y", "z"]));
    m.current_mut().hover(&p("/a/y"));
    assert_eq!(hovered_name(&m), Some("y".to_string()));
    m.update_read(listing("/a", &["z", "y", "x"]));
    assert_eq!(hovered_name(&m), Some("y".to_string()));
    m.update_read(listing("/a", &["y", "z", "x"]));
    assert_eq!(hovered_name(&m), Some("y".to_string()));
}

#[test]
fn hover_falls_back_to_index_then_last() {
    let mut m = manager_at_a();
    m.update_read(listing("/a", &["a", "b", "x", "d", "e"]));
    m.current_mut().hover(&p("/a/x"));
    // The hovered entry disappears; the entry at the old index takes over.
    m.update_read(listing("/a", &["a", "b", "d", "e"]));
    assert_eq!(hovered_name(&m), Some("d".to_string()));
    // Fewer entries than the old index leave the last entry hovered.
    m.update_read(listing("/a", &["a", "b"]));
    assert_eq!(hovered_name(&m), Some("b".to_string()));
    // An empty listing leaves nothing hovered.
    m.update_read(listing("/a", &[]));
    assert!(m.hovered().is_none());
}

#[test]
fn removed_hover_fires_one_hover_event() {
    let mut m = manager_at_a();
    m.update_read(listing("/a", &["a", "b", "x", "d", "e"]));
    m.current_mut().hover(&p("/a/x"));
    m.take_events();
    let r = m.update_read(listing("/a", &["a", "b", "d", "e"]));
    assert!(r);
    assert_eq!(hovered_name(&m), Some("d".to_string()));
    let evs = m.take_events();
    let hovers = evs.iter().filter(|e| matches!(e, Event::Hover)).count();
    assert_eq!(hovers, 1);
    assert_eq!(evs.len(), 1);
}

#[test]
fn update_read_for_other_path_lands_in_history() {
    let mut m = manager_at_a();
    let r = m.update_read(listing("/b", &["q"]));
    assert!(!r);
    assert!(m.active().history_contains(&p("/b")));
    assert!(!m.active().history_contains(&p("/c")));
}

#[test]
fn stale_preview_is_discarded() {
    let mut m = manager_at_a();
    m.update_read(listing("/a", &["x", "y"]));
    m.current_mut().hover(&p("/a/x"));
    // An artifact for a path no longer hovered changes nothing.
    let r = m.update_preview(p("/a/y"), PreviewData::Blob(vec![1]));
    assert!(!r);
    assert!(m.active().preview.path.is_none());
    assert!(matches!(m.active().preview.data, PreviewData::Empty));
    // An artifact for the hovered path is taken.
    let r = m.update_preview(p("/a/x"), PreviewData::Blob(vec![2]));
    assert!(r);
    assert_eq!(m.active().preview.path.as_ref().unwrap().comps, comps("/a/x"));
    assert!(matches!(m.active().preview.data, PreviewData::Blob(ref b) if b == &vec![2]));
}

#[test]
fn clipboard_is_a_snapshot() {
    let mut m = manager_at_a();
    m.update_read(listing("/a", &["x", "y"]));
    m.current_mut().hover(&p("/a/x"));
    m.yank(true);
    assert!(m.yanked().0);
    assert_eq!(m.yanked().1.len(), 1);
    assert_eq!(m.yanked().1[0].comps, comps("/a/x"));
    // Reading the selection does not touch the clipboard.
    let _ = m.selected();
    let _ = m.selected();
    assert_eq!(m.yanked().1.len(), 1);
    assert_eq!(m.yanked().1[0].comps, comps("/a/x"));
    // Even moving the cursor afterwards leaves the snapshot alone.
    m.current_mut().hover(&p("/a/y"));
    assert_eq!(m.yanked().1[0].comps, comps("/a/x"));
}

#[test]
fn selection_prefers_multi_select() {
    let mut m = manager_at_a();
    m.update_read(listing("/a", &["x", "y"]));
    m.current_mut().hover(&p("/a/x"));
    m.current_mut().toggle_select(&p("/a/y"));
    let sel = m.selected();
    assert_eq!(sel.len(), 1);
    assert_eq!(sel[0].comps, comps("/a/y"));
    m.current_mut().toggle_select(&p("/a/y"));
    let sel = m.selected();
    assert_eq!(sel.len(), 1);
    assert_eq!(sel[0].comps, comps("/a/x"));
}

#[test]
fn quit_without_jobs_signals_at_once() {
    let mut m = Manager::new();
    let r = m.quit(0);
    assert!(!r);
    let evs = m.take_events();
    assert_eq!(evs.len(), 1);
    assert!(matches!(evs[0], Event::Quit));
}

#[test]
fn quit_with_jobs_only_prompts() {
    let mut m = Manager::new();
    m.quit(3);
    let evs = m.take_events();
    assert_eq!(evs.len(), 1);
    assert!(matches!(evs[0], Event::PromptQuit { jobs: 3 }));
}

#[test]
fn quit_answer_accepts_only_y() {
    let mut m = Manager::new();
    m.quit_answer(Some("y"));
    assert!(matches!(m.take_events()[..], [Event::Quit]));
    m.quit_answer(Some("Y"));
    assert!(matches!(m.take_events()[..], [Event::Quit]));
    m.quit_answer(Some("n"));
    assert!(m.take_events().is_empty());
    m.quit_answer(Some("yes"));
    assert!(m.take_events().is_empty());
    m.quit_answer(Some(""));
    assert!(m.take_events().is_empty());
    m.quit_answer(None);
    assert!(m.take_events().is_empty());
}

#[test]
fn close_non_last_tab_reaims_active() {
    let mut m = Manager::new();
    m.tabs_mut().open(&p("/a"));
    assert_eq!(m.tabs().len(), 2);
    m.tabs_mut().switch(0);
    assert_eq!(m.tabs().idx(), 0);
    let r = m.close(0);
    assert!(r);
    assert_eq!(m.tabs().len(), 1);
    assert_eq!(m.tabs().idx(), 0);
    // What was previously at index 1 is the active tab now.
    assert_eq!(m.current().cwd.comps, comps("/a"));
}

#[test]
fn close_last_tab_delegates_to_quit() {
    let mut m = Manager::new();
    let r = m.close(0);
    assert!(!r);
    assert_eq!(m.tabs().len(), 1);
    assert!(matches!(m.take_events()[..], [Event::Quit]));
}

#[test]
fn create_plan_trailing_separator_makes_directory() {
    match create_plan(&p("/a"), "sub/") {
        CreatePlan::MakeDir(q) => assert_eq!(q.comps, comps("/a/sub")),
        CreatePlan::MakeFile(_) => panic!("expected a directory"),
    }
}

#[test]
fn create_plan_plain_name_makes_file() {
    match create_plan(&p("/a"), "sub/note.txt") {
        CreatePlan::MakeFile(q) => assert_eq!(q.comps, comps("/a/sub/note.txt")),
        CreatePlan::MakeDir(_) => panic!("expected a file"),
    }
}

#[test]
fn rename_stays_in_same_parent() {
    let t = rename_target(&p("/a/x.txt"), "y.txt");
    assert_eq!(t.comps, comps("/a/y.txt"));
}

#[test]
fn redundant_mimetypes_are_a_noop() {
    let mut m = manager_at_a();
    m.update_read(listing("/a", &["x"]));
    m.take_events();
    let pairs = vec![(p("/a/x"), "text/plain".to_string())];
    let r = m.update_mimetype(pairs);
    assert!(r);
    m.take_events();
    let before: Vec<(Vec<Vec<char>>, String)> = m
        .mimetype
        .iter()
        .map(|(q, s)| (q.comps.clone(), s.clone()))
        .collect();
    // The same mapping again changes nothing: no render, no hint, the cache
    // byte for byte as it was.
    let pairs = vec![(p("/a/x"), "text/plain".to_string())];
    let r = m.update_mimetype(pairs);
    assert!(!r);
    assert!(m.take_events().is_empty());
    let after: Vec<(Vec<Vec<char>>, String)> = m
        .mimetype
        .iter()
        .map(|(q, s)| (q.comps.clone(), s.clone()))
        .collect();
    assert_eq!(before, after);
}

#[test]
fn changed_mimetypes_precache_and_redecide() {
    let mut m = manager_at_a();
    m.update_read(listing("/a", &["x"]));
    m.take_events();
    let r = m.update_mimetype(vec![(p("/a/x"), "image/png".to_string())]);
    assert!(r);
    let evs = m.take_events();
    assert!(evs.iter().any(|e| matches!(e, Event::Precache { mimes } if mimes.len() == 1)));
    // The hovered file's mimetype is now known, so the preview slot points at it.
    assert_eq!(m.active().preview.path.as_ref().unwrap().comps, comps("/a/x"));
    assert_eq!(m.active().preview.mime.as_ref().unwrap(), "image/png");
}

#[test]
fn preview_probes_unknown_mimetype_once() {
    let mut m = manager_at_a();
    m.update_read(listing("/a", &["x"]));
    m.take_events();
    let r = m.preview();
    assert!(!r);
    let evs = m.take_events();
    assert_eq!(evs.len(), 1);
    assert!(
        matches!(&evs[0], Event::ProbeMime { paths } if paths.len() == 1 && paths[0].comps == comps("/a/x"))
    );
}

#[test]
fn preview_of_directory_uses_folder_renderer() {
    let mut m = manager_at_a();
    let op = FilesOp { path: p("/a"), files: vec![f("/a/sub", true)] };
    m.update_read(op);
    m.take_events();
    m.preview();
    assert_eq!(m.active().preview.mime.as_ref().unwrap(), "inode/directory");
    // No archived snapshot for /a/sub yet, so nothing is shown at once.
    assert!(m.take_events().is_empty());
    // Once a snapshot exists in the archive, the preview is emitted at once.
    m.update_read(listing("/a/sub", &["inner"]));
    m.take_events();
    m.preview();
    let evs = m.take_events();
    assert!(evs.iter().any(|e| matches!(e, Event::PreviewShow { .. })));
}

#[test]
fn ioerr_backs_out_to_parent() {
    let mut m = manager_at_a();
    m.update_read(listing("/a", &["x"]));
    m.take_events();
    // An unrelated path changes nothing.
    assert!(!m.update_ioerr(FilesOp { path: p("/b"), files: vec![] }));
    assert_eq!(m.current().cwd.comps, comps("/a"));
    // The current directory becoming unreadable backs the tab out to /.
    assert!(m.update_ioerr(FilesOp { path: p("/a"), files: vec![] }));
    assert_eq!(m.current().cwd.comps.len(), 0);
    assert!(m.parent().is_none());
}

#[test]
fn search_replaces_and_archives() {
    let mut m = manager_at_a();
    m.update_read(listing("/a", &["x"]));
    m.take_events();
    assert!(m.update_search(listing("/a", &["x"])));
    assert!(m.current().in_search);
    // The real listing was archived under its path.
    assert!(m.active().history_contains(&p("/a")));
    // A second search merges in place instead of archiving the search.
    assert!(m.update_search(listing("/a", &["x", "y"])));
    assert!(m.current().in_search);
    assert_eq!(m.current().files.len(), 2);
}

#[test]
fn read_results_for_search_listing_are_kept_apart() {
    let mut m = manager_at_a();
    m.update_search(listing("/a", &["hit"]));
    m.take_events();
    // A plain read for the same path must not clobber the search listing.
    m.update_read(listing("/a", &["x", "y", "z"]));
    assert!(m.current().in_search);
    assert_eq!(m.current().files.len(), 1);
    assert!(m.active().history_contains(&p("/a")));
}

#[test]
fn link_requires_copy_mode() {
    let mut m = manager_at_a();
    m.update_read(listing("/a", &["x"]));
    m.current_mut().hover(&p("/a/x"));
    m.take_events();
    m.yank(true);
    assert!(!m.link(Opt { relative: false, force: false }));
    assert!(m.take_events().is_empty());
    m.yank(false);
    assert!(m.link(Opt { relative: true, force: false }));
    let evs = m.take_events();
    assert!(matches!(&evs[..], [Event::FileLink { src, relative: true, force: false, .. }]
        if src.len() == 1 && src[0].comps == comps("/a/x")));
}

#[test]
fn refresh_watches_each_directory_once() {
    let mut m = Manager::new();
    m.tabs_mut().open(&p("/a"));
    m.tabs_mut().open(&p("/a"));
    m.take_events();
    m.refresh();
    let evs = m.take_events();
    let watch = evs
        .iter()
        .find_map(|e| match e {
            Event::Watch { paths } => Some(paths),
            _ => None,
        })
        .expect("a watch replacement");
    // Three tabs at two distinct locations: /, /a (parent / shared).
    let mut seen: Vec<Vec<Vec<char>>> = watch.iter().map(|q| q.comps.clone()).collect();
    seen.sort();
    let mut expect = vec![comps("/"), comps("/a")];
    expect.sort();
    assert_eq!(seen, expect);
    assert!(evs.iter().any(|e| matches!(e, Event::Hover)));
}

#[test]
fn mimetype_batch_answers_in_input_order() {
    let mut m = Manager::new();
    let files = vec![p("/a/x"), p("/a/y")];
    let missing = m.mimetypes_missing(&files);
    assert_eq!(missing.len(), 2);
    m.absorb_mimes(&vec![(p("/a/y"), "text/plain".to_string())]);
    let missing = m.mimetypes_missing(&files);
    assert_eq!(missing.len(), 1);
    assert_eq!(missing[0].comps, comps("/a/x"));
    let answers = m.mimetypes_cached(&files);
    assert_eq!(answers.len(), 2);
    assert!(answers[0].is_none());
    assert_eq!(answers[1].as_deref(), Some("text/plain"));
}

#[test]
fn duplicate_keeps_cursor_and_selection() {
    let mut m = manager_at_a();
    m.update_read(listing("/a", &["x", "y"]));
    m.current_mut().hover(&p("/a/y"));
    m.current_mut().toggle_select(&p("/a/x"));
    m.tabs_mut().duplicate();
    assert_eq!(m.tabs().len(), 3);
    assert_eq!(hovered_name(&m), Some("y".to_string()));
    assert_eq!(m.current().selected.len(), 1);
}

#[test]
fn switch_refuses_out_of_range_and_same_index() {
    let mut m = Manager::new();
    m.tabs_mut().open(&p("/a"));
    assert!(!m.tabs_mut().switch(5));
    assert_eq!(m.tabs().idx(), 1);
    assert!(!m.tabs_mut().switch(1));
    assert!(m.tabs_mut().switch(0));
    assert_eq!(m.tabs().idx(), 0);
}

#[test]
fn close_active_last_tab_moves_to_previous() {
    let mut m = Manager::new();
    m.tabs_mut().open(&p("/a"));
    assert_eq!(m.tabs().idx(), 1);
    let r = m.close(0);
    assert!(r);
    assert_eq!(m.tabs().len(), 1);
    assert_eq!(m.tabs().idx(), 0);
    assert_eq!(m.current().cwd.comps.len(), 0);
}
