use context_keeper::render::format_git_status;
use context_keeper::repo::assemble_git_info;
use context_keeper::repo::count_status;
use context_keeper::repo::truncate_commit;
use context_keeper::repo::GitInfo;
use context_keeper::workstate::parse_work_state;
use context_keeper::workstate::render_work_state;
use context_keeper::workstate::TodoItem;
use context_keeper::workstate::WorkState;

fn s(x: &str) -> String {
    x.to_string()
}

fn info(modified: usize, untracked: usize) -> GitInfo {
    GitInfo {
        repo_path: s("."),
        branch: s("main"),
        is_dirty: modified > 0 || untracked > 0,
        modified_files: modified,
        untracked_files: untracked,
        last_commit_short: s(""),
    }
}

#[test]
fn status_code_both_counts() {
    assert_eq!(format_git_status(&info(2, 3)), "2M 3U");
}

#[test]
fn status_code_clean() {
    assert_eq!(format_git_status(&info(0, 0)), "clean");
}

#[test]
fn status_code_modified_only() {
    assert_eq!(format_git_status(&info(5, 0)), "5M");
}

#[test]
fn status_code_untracked_only() {
    assert_eq!(format_git_status(&info(0, 1)), "1U");
}

#[test]
fn porcelain_lines_classified() {
    let out = " M a.rs\nM  b.rs\nMM c.rs\n?? d.rs\n\n   \nR  e.rs\n";
    let (m, u) = count_status(out);
    assert_eq!(m, 4);
    assert_eq!(u, 1);
}

#[test]
fn commit_summary_capped_at_fifty_characters() {
    let short = "a".repeat(50);
    assert_eq!(truncate_commit(&short), short);
    let long = "b".repeat(51);
    let capped = truncate_commit(&long);
    assert_eq!(capped, format!("{}...", "b".repeat(47)));
    assert_eq!(capped.chars().count(), 50);
    // counted by character, not byte
    let wide = "\u{00e9}".repeat(51);
    let capped = truncate_commit(&wide);
    assert_eq!(capped.chars().count(), 50);
    assert!(capped.ends_with("..."));
}

#[test]
fn assemble_uses_trimmed_branch() {
    let g = assemble_git_info(
        s("."),
        Some(s("main\n")),
        None,
        Some(s("?? x\n")),
        Some(s("abc123 fix the bug\n")),
    );
    assert_eq!(g.branch, "main");
    assert_eq!(g.modified_files, 0);
    assert_eq!(g.untracked_files, 1);
    assert!(g.is_dirty);
    assert_eq!(g.last_commit_short, "abc123 fix the bug");
}

#[test]
fn assemble_falls_back_to_detached_label() {
    let g = assemble_git_info(s("."), Some(s("  \n")), Some(s("v1.2-4-gdeadbee\n")), None, None);
    assert_eq!(g.branch, "(v1.2-4-gdeadbee)");
    assert_eq!(g.modified_files, 0);
    assert_eq!(g.untracked_files, 0);
    assert!(!g.is_dirty);
    assert_eq!(g.last_commit_short, "");
}

fn sample_state() -> WorkState {
    WorkState {
        saved_at: s("2024-05-01T12:00:00+00:00"),
        trigger: s("manual"),
        task_summary: s("fix \"quoting\"\nand newlines\ttabs \\ slashes"),
        working_files: vec![s("src/a.rs"), s("b/c.rs"), s("src/a.rs")],
        notes: s("half done"),
        todos: vec![
            TodoItem { content: s("write tests"), status: s("in_progress") },
            TodoItem { content: s("ship"), status: s("pending") },
        ],
    }
}

#[test]
fn save_then_load_round_trips_every_field() {
    let state = sample_state();
    let text = render_work_state(&state);
    let back = parse_work_state(&text).expect("rendered state must parse");
    assert_eq!(back.saved_at, state.saved_at);
    assert_eq!(back.trigger, state.trigger);
    assert_eq!(back.task_summary, state.task_summary);
    assert_eq!(back.working_files, state.working_files);
    assert_eq!(back.notes, state.notes);
    assert_eq!(back.todos.len(), state.todos.len());
    for (a, b) in back.todos.iter().zip(state.todos.iter()) {
        assert_eq!(a.content, b.content);
        assert_eq!(a.status, b.status);
    }
}

#[test]
fn empty_state_round_trips() {
    let state = WorkState {
        saved_at: s(""),
        trigger: s(""),
        task_summary: s(""),
        working_files: vec![],
        notes: s(""),
        todos: vec![],
    };
    let text = render_work_state(&state);
    let back = parse_work_state(&text).expect("rendered state must parse");
    assert_eq!(back.saved_at, "");
    assert_eq!(back.working_files, Vec::<String>::new());
    assert_eq!(back.todos.len(), 0);
}

#[test]
fn corrupt_text_loads_as_nothing() {
    assert!(parse_work_state("").is_none());
    assert!(parse_work_state("garbage").is_none());
    assert!(parse_work_state("{\"saved_at\": 3}").is_none());
    let state = sample_state();
    let text = render_work_state(&state);
    let truncated: String = text.chars().take(text.chars().count() - 1).collect();
    assert!(parse_work_state(&truncated).is_none());
}

#[test]
fn rendered_state_is_the_documented_text() {
    let state = WorkState {
        saved_at: s("t1"),
        trigger: s("manual"),
        task_summary: s("task"),
        working_files: vec![s("a"), s("b")],
        notes: s(""),
        todos: vec![TodoItem { content: s("x"), status: s("pending") }],
    };
    let expected = "{\n  \"saved_at\": \"t1\",\n  \"trigger\": \"manual\",\n  \"task_summary\": \"task\",\n  \"working_files\": [\"a\", \"b\"],\n  \"notes\": \"\",\n  \"todos\": [{\"content\": \"x\", \"status\": \"pending\"}]\n}";
    assert_eq!(render_work_state(&state), expected);
}
