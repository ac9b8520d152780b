use adof_core::changelog::{
    accumulate_changes, get_change_logs, render_change_line, render_change_log, DiffLineEvent,
};

fn event(path: &str, origin: char) -> DiffLineEvent {
    DiffLineEvent {
        path: Some(String::from(path)),
        origin,
    }
}

#[test]
fn empty_diff_yields_empty_body() {
    let events: Vec<DiffLineEvent> = Vec::new();
    assert_eq!(get_change_logs(&events), "");
}

#[test]
fn end_to_end_scenario_renders_exact_lines() {
    let events = vec![
        event("a.txt", '+'),
        event("a.txt", '+'),
        event("a.txt", ' '),
        event("b.txt", '-'),
    ];
    let body = get_change_logs(&events);
    // Each line's content must match exactly; the two lines may come in
    // either order, since the file iteration order is not part of the
    // contract of the original store.
    let one = "a.txt +2 -0 ~1\nb.txt +0 -1 ~0";
    let other = "b.txt +0 -1 ~0\na.txt +2 -0 ~1";
    assert!(body == one || body == other, "unexpected body: {body}");
}

#[test]
fn rendered_triple_is_order_independent_per_file() {
    let forward = vec![
        event("notes.md", '+'),
        event("notes.md", '-'),
        event("notes.md", ' '),
        event("notes.md", '+'),
    ];
    let backward = vec![
        event("notes.md", '+'),
        event("notes.md", ' '),
        event("notes.md", '-'),
        event("notes.md", '+'),
    ];
    assert_eq!(get_change_logs(&forward), get_change_logs(&backward));
    assert_eq!(get_change_logs(&forward), "notes.md +2 -1 ~1");
}

#[test]
fn counters_reach_multiple_digits() {
    let mut events = Vec::new();
    for _ in 0..12 {
        events.push(event("big.rs", '+'));
    }
    for _ in 0..103 {
        events.push(event("big.rs", ' '));
    }
    assert_eq!(get_change_logs(&events), "big.rs +12 -0 ~103");
}

#[test]
fn context_only_file_is_still_rendered() {
    let events = vec![event("same.txt", ' '), event("same.txt", ' ')];
    assert_eq!(get_change_logs(&events), "same.txt +0 -0 ~2");
}

#[test]
fn pathless_events_and_unknown_origins_are_skipped() {
    let events = vec![
        DiffLineEvent {
            path: None,
            origin: '+',
        },
        event("a.txt", 'H'),
        event("a.txt", '+'),
        DiffLineEvent {
            path: None,
            origin: '-',
        },
    ];
    assert_eq!(get_change_logs(&events), "a.txt +1 -0 ~0");
}

#[test]
fn accumulate_keeps_first_appearance_order() {
    let events = vec![
        event("b.txt", '-'),
        event("a.txt", '+'),
        event("b.txt", '+'),
    ];
    let counts = accumulate_changes(&events);
    assert_eq!(counts.len(), 2);
    assert_eq!(counts[0].path, "b.txt");
    assert_eq!(counts[0].added, 1);
    assert_eq!(counts[0].removed, 1);
    assert_eq!(counts[0].unchanged, 0);
    assert_eq!(counts[1].path, "a.txt");
    assert_eq!(counts[1].added, 1);
    assert_eq!(render_change_line(&counts[1]), "a.txt +1 -0 ~0");
    assert_eq!(
        render_change_log(&counts),
        "b.txt +1 -1 ~0\na.txt +1 -0 ~0"
    );
}
