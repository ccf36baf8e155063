use kicad_finder::fs_model::{collect_matches, collect_matches_cancelled, join_path, FsEntry};
use kicad_finder::matcher::{has_project_extension, should_visit};
use kicad_finder::search::{find_project_in_tree, merge_candidates, resolve_outcome,
    select_project, SearchError, WalkOutcome};

fn file(name: &str) -> FsEntry {
    FsEntry::File { name: name.to_string() }
}

fn dir(name: &str, entries: Vec<FsEntry>) -> FsEntry {
    FsEntry::Dir { name: name.to_string(), entries }
}

fn link(name: &str, target: FsEntry) -> FsEntry {
    FsEntry::Link { name: name.to_string(), target: Box::new(target) }
}

fn unreadable(name: &str) -> FsEntry {
    FsEntry::Unreadable { name: name.to_string() }
}

#[test]
fn extension_exact_match() {
    assert!(has_project_extension("project.kicad_pro"));
    assert!(has_project_extension("a.kicad_pro"));
    assert!(has_project_extension("archive.tar.kicad_pro"));
}

#[test]
fn extension_similar_names_rejected() {
    assert!(!has_project_extension("project.kicad_pro.bak"));
    assert!(!has_project_extension("project.kicad_prj"));
    assert!(!has_project_extension("kicad_pro"));
    assert!(!has_project_extension("project_kicad_pro"));
    assert!(!has_project_extension(""));
}

#[test]
fn extension_bare_dot_file_rejected() {
    assert!(!has_project_extension(".kicad_pro"));
    assert!(has_project_extension("..kicad_pro"));
}

#[test]
fn visit_denied_after_cancellation() {
    assert!(!should_visit(true, true, false, "sub"));
    assert!(!should_visit(true, false, true, "a.kicad_pro"));
}

#[test]
fn visit_directories_always_eligible() {
    assert!(should_visit(false, true, false, "sub"));
    assert!(should_visit(false, true, false, "a.txt"));
}

#[test]
fn visit_files_filtered_by_extension() {
    assert!(should_visit(false, false, true, "a.kicad_pro"));
    assert!(!should_visit(false, false, true, "readme.txt"));
    assert!(!should_visit(false, false, false, "oddity"));
}

#[test]
fn join_path_inserts_separator() {
    assert_eq!(join_path("/p", "a.kicad_pro"), "/p/a.kicad_pro");
    assert_eq!(join_path("", "a"), "/a");
}

#[test]
fn collect_finds_nested_matches() {
    let tree = vec![
        file("readme.txt"),
        dir("hw", vec![dir("rev2", vec![file("board.kicad_pro")]), file("notes.md")]),
    ];
    assert_eq!(collect_matches("/p", &tree), vec!["/p/hw/rev2/board.kicad_pro".to_string()]);
}

#[test]
fn collect_skips_links_to_matches() {
    let tree = vec![
        link("direct", file("a.kicad_pro")),
        link("indirect", dir("other", vec![file("b.kicad_pro")])),
        file("c.kicad_pro"),
    ];
    assert_eq!(collect_matches("/p", &tree), vec!["/p/c.kicad_pro".to_string()]);
}

#[test]
fn immediate_cancellation_collects_nothing() {
    let tree = vec![file("a.kicad_pro"), file("b.kicad_pro")];
    assert_eq!(collect_matches_cancelled("/p", &tree, 0), Vec::<String>::new());
}

#[test]
fn late_cancellation_collects_a_prefix() {
    let tree = vec![file("a.kicad_pro"), file("b.kicad_pro"), file("c.kicad_pro")];
    assert_eq!(collect_matches_cancelled("/p", &tree, 2), vec![
        "/p/a.kicad_pro".to_string(),
        "/p/b.kicad_pro".to_string(),
    ]);
}

#[test]
fn unhindered_walk_collects_everything() {
    let tree = vec![
        file("a.kicad_pro"),
        dir("sub", vec![file("b.kicad_pro")]),
        link("link", file("c.kicad_pro")),
    ];
    assert_eq!(collect_matches_cancelled("/p", &tree, 1000), collect_matches("/p", &tree));
}

#[test]
fn cancellation_can_turn_a_unique_match_into_no_match() {
    let tree = vec![dir("sub", vec![file("a.kicad_pro")])];
    assert_eq!(collect_matches("/p", &tree), vec!["/p/sub/a.kicad_pro".to_string()]);
    assert_eq!(collect_matches_cancelled("/p", &tree, 1), Vec::<String>::new());
}

#[test]
fn unreadable_entries_reduce_what_is_found() {
    let tree = vec![unreadable("a.kicad_pro"), unreadable("secrets")];
    assert_eq!(
        find_project_in_tree("/p", &tree),
        Err(SearchError::NoProjectsFound("/p".to_string()))
    );
    let mixed = vec![unreadable("a.kicad_pro"), file("b.kicad_pro")];
    assert_eq!(find_project_in_tree("/p", &mixed), Ok("/p/b.kicad_pro".to_string()));
}

#[test]
fn unique_match_found() {
    let tree = vec![file("a.kicad_pro")];
    assert_eq!(find_project_in_tree("/p", &tree), Ok("/p/a.kicad_pro".to_string()));
}

#[test]
fn two_matches_are_ambiguous() {
    let tree = vec![file("a.kicad_pro"), dir("sub", vec![file("b.kicad_pro")])];
    match find_project_in_tree("/p", &tree) {
        Err(SearchError::MultipleProjectsFound(mut paths)) => {
            paths.sort();
            assert_eq!(paths, vec![
                "/p/a.kicad_pro".to_string(),
                "/p/sub/b.kicad_pro".to_string(),
            ]);
        }
        other => panic!("expected MultipleProjectsFound, got {:?}", other),
    }
}

#[test]
fn no_match_reports_the_root() {
    let tree = vec![file("readme.txt")];
    assert_eq!(
        find_project_in_tree("/p", &tree),
        Err(SearchError::NoProjectsFound("/p".to_string()))
    );
}

#[test]
fn match_behind_link_only_is_not_found() {
    let tree = vec![link("link", file("a.kicad_pro"))];
    assert_eq!(
        find_project_in_tree("/p", &tree),
        Err(SearchError::NoProjectsFound("/p".to_string()))
    );
}

#[test]
fn ambiguity_counts_every_match() {
    let tree = vec![
        file("a.kicad_pro"),
        dir("s1", vec![file("b.kicad_pro")]),
        dir("s2", vec![dir("deep", vec![file("c.kicad_pro")]), file("d.kicad_pro")]),
    ];
    match find_project_in_tree("/r", &tree) {
        Err(SearchError::MultipleProjectsFound(paths)) => assert_eq!(paths.len(), 4),
        other => panic!("expected MultipleProjectsFound, got {:?}", other),
    }
}

#[test]
fn repeated_search_resolves_alike() {
    let tree = vec![file("a.kicad_pro"), file("b.kicad_pro")];
    let first = find_project_in_tree("/p", &tree);
    let second = find_project_in_tree("/p", &tree);
    assert_eq!(first, second);
    let empty: Vec<FsEntry> = Vec::new();
    assert_eq!(find_project_in_tree("/q", &empty), find_project_in_tree("/q", &empty));
}

#[test]
fn selection_of_nothing_fails_with_root() {
    assert_eq!(
        select_project("/p", Vec::new()),
        Err(SearchError::NoProjectsFound("/p".to_string()))
    );
}

#[test]
fn selection_of_one_succeeds() {
    let one = vec!["/p/a.kicad_pro".to_string()];
    assert_eq!(select_project("/p", one), Ok("/p/a.kicad_pro".to_string()));
}

#[test]
fn selection_of_many_keeps_merge_order() {
    let many = vec!["/p/b.kicad_pro".to_string(), "/p/a.kicad_pro".to_string()];
    assert_eq!(
        select_project("/p", many.clone()),
        Err(SearchError::MultipleProjectsFound(many))
    );
}

#[test]
fn merge_moves_the_whole_buffer() {
    let mut shared = vec!["/p/a.kicad_pro".to_string()];
    let mut buffer = vec!["/p/b.kicad_pro".to_string(), "/p/c.kicad_pro".to_string()];
    merge_candidates(&mut shared, &mut buffer);
    assert!(buffer.is_empty());
    assert_eq!(shared, vec![
        "/p/a.kicad_pro".to_string(),
        "/p/b.kicad_pro".to_string(),
        "/p/c.kicad_pro".to_string(),
    ]);
}

#[test]
fn timed_out_wait_fails_with_timeout() {
    assert_eq!(
        resolve_outcome("/p", WalkOutcome::TimedOut),
        Err(SearchError::Timeout)
    );
}

#[test]
fn lost_walk_fails_with_join_error() {
    assert_eq!(
        resolve_outcome("/p", WalkOutcome::JoinFailed),
        Err(SearchError::JoinError)
    );
}

#[test]
fn completed_walk_is_selected() {
    let one = WalkOutcome::Completed(vec!["/p/a.kicad_pro".to_string()]);
    assert_eq!(resolve_outcome("/p", one), Ok("/p/a.kicad_pro".to_string()));
    let none = WalkOutcome::Completed(Vec::new());
    assert_eq!(
        resolve_outcome("/p", none),
        Err(SearchError::NoProjectsFound("/p".to_string()))
    );
}
