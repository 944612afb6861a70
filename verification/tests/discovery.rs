use context_keeper::repo::select_repo_paths;
use context_keeper::scan::keep_dir_name_exec;
use context_keeper::scan::ScanState;

fn s(x: &str) -> String {
    x.to_string()
}

fn path_of(parts: &[String]) -> String {
    parts.join("/")
}

#[test]
fn scan_records_repos_without_descending() {
    let mut st = ScanState::new(2);
    let mut guard = 0;
    while !st.done() {
        guard += 1;
        assert!(guard < 100);
        let cur = path_of(&st.current());
        match cur.as_str() {
            "" => st.step(false, &vec![s("a"), s("b"), s("node_modules"), s(".hidden")]),
            "a" => st.step(true, &vec![s("inner")]),
            "b" => st.step(false, &vec![s("c"), s("target")]),
            "b/c" => st.step(true, &vec![]),
            other => panic!("unexpected directory examined: {}", other),
        }
    }
    let repos = st.finish();
    assert_eq!(repos, vec![s("a"), s("b/c")]);
    for i in 0..repos.len() {
        for j in 0..repos.len() {
            if i != j {
                let prefix = format!("{}/", repos[i]);
                assert!(!repos[j].starts_with(&prefix));
            }
        }
    }
}

#[test]
fn scan_depth_zero_never_descends() {
    let mut st = ScanState::new(0);
    assert!(!st.done());
    st.step(false, &vec![s("a"), s("b")]);
    assert!(st.done());
    assert_eq!(st.finish(), Vec::<String>::new());
}

#[test]
fn scan_output_is_sorted() {
    let mut st = ScanState::new(1);
    st.step(false, &vec![s("zeta"), s("alpha"), s("mid")]);
    // the frontier is a stack: the last-found directory is examined first
    let mut seen = Vec::new();
    while !st.done() {
        let cur = path_of(&st.current());
        seen.push(cur);
        st.step(true, &vec![]);
    }
    assert_eq!(seen, vec![s("mid"), s("alpha"), s("zeta")]);
    assert_eq!(st.finish(), vec![s("alpha"), s("mid"), s("zeta")]);
}

#[test]
fn skip_rules_drop_hidden_and_denied_names() {
    assert!(keep_dir_name_exec("src"));
    assert!(!keep_dir_name_exec(".git"));
    assert!(!keep_dir_name_exec(".hidden"));
    assert!(!keep_dir_name_exec("node_modules"));
    assert!(!keep_dir_name_exec("target"));
    assert!(!keep_dir_name_exec("out"));
    assert!(keep_dir_name_exec("output"));
}

#[test]
fn root_short_circuit_overrides_everything() {
    let r = select_repo_paths(true, Some(vec![s("x"), s("y")]), true, vec![s("z")]);
    assert_eq!(r, vec![s(".")]);
    let r = select_repo_paths(true, None, false, vec![]);
    assert_eq!(r, vec![s(".")]);
}

#[test]
fn explicit_paths_win_over_scan() {
    let r = select_repo_paths(false, Some(vec![s("x"), s("y")]), true, vec![s("z")]);
    assert_eq!(r, vec![s("x"), s("y")]);
}

#[test]
fn auto_detect_falls_back_to_scan() {
    let r = select_repo_paths(false, None, true, vec![s("z"), s("w")]);
    assert_eq!(r, vec![s("z"), s("w")]);
    let r = select_repo_paths(false, None, false, vec![s("z")]);
    assert_eq!(r, Vec::<String>::new());
}
