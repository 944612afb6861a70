use context_keeper::context::build_context;
use context_keeper::context::AdbDevice;
use context_keeper::context::BuildTarget;
use context_keeper::context::Config;
use context_keeper::context::ContainerInfo;
use context_keeper::context::Context;
use context_keeper::history::HistoryEntry;
use context_keeper::render::format_context_markdown;
use context_keeper::render::format_full;
use context_keeper::render::format_minimal;
use context_keeper::render::format_normal;
use context_keeper::render::push_cmd_display;
use context_keeper::repo::GitInfo;
use context_keeper::text::string_of;
use context_keeper::workstate::TodoItem;
use context_keeper::workstate::WorkState;

fn s(x: &str) -> String {
    x.to_string()
}

fn empty_ctx() -> Context {
    Context {
        project_name: s(""),
        project_type: s(""),
        targets: vec![],
        containers: vec![],
        available_commands: vec![],
        hints: s(""),
        command_history: vec![],
        git_repos: vec![],
        adb_devices: vec![],
        work_state: None,
    }
}

fn rich_ctx() -> Context {
    Context {
        project_name: s("demo"),
        project_type: s("aosp"),
        targets: vec![
            BuildTarget {
                name: s("dev"),
                description: s("Dev board"),
                container_name: s("builder"),
                lunch_target: s("aosp_dev-userdebug"),
                can_emulator: true,
                can_flash: true,
            },
            BuildTarget {
                name: s("bare"),
                description: s(""),
                container_name: s(""),
                lunch_target: s(""),
                can_emulator: false,
                can_flash: false,
            },
        ],
        containers: vec![ContainerInfo { name: s("web"), status: s("Up"), runtime: s("podman") }],
        available_commands: vec![s("./build.sh all")],
        hints: s("build inside the container"),
        command_history: vec![HistoryEntry { timestamp: s("t1"), command: s("make | tee log") }],
        git_repos: vec![
            GitInfo {
                repo_path: s("."),
                branch: s("main"),
                is_dirty: true,
                modified_files: 2,
                untracked_files: 0,
                last_commit_short: s("abc fix|bug"),
            },
            GitInfo {
                repo_path: s("lib"),
                branch: s("dev"),
                is_dirty: false,
                modified_files: 0,
                untracked_files: 0,
                last_commit_short: s("ddd start"),
            },
        ],
        adb_devices: vec![AdbDevice {
            serial: s("SER1"),
            state: s("device"),
            device_type: s("adb"),
        }],
        work_state: Some(WorkState {
            saved_at: s("t0"),
            trigger: s("manual"),
            task_summary: s("finish renderer"),
            working_files: vec![s("src/render.rs")],
            notes: s("halfway"),
            todos: vec![TodoItem { content: s("tests"), status: s("completed") }],
        }),
    }
}

#[test]
fn minimal_on_empty_snapshot_is_exact() {
    let expected = "# Context Recovery (Minimal)\n\n\n---\n*Run `get_dev_context` with level=\"normal\" or \"full\" for more details.*\n";
    assert_eq!(format_minimal(&empty_ctx()), expected);
}

#[test]
fn normal_on_empty_snapshot_is_exact() {
    let expected =
        "# Development Context\n\n---\n*Run `get_dev_context` with level=\"full\" for complete information.*\n";
    assert_eq!(format_normal(&empty_ctx()), expected);
}

#[test]
fn minimal_never_holds_the_target_table() {
    let out = format_minimal(&rich_ctx());
    assert!(!out.contains("## Available Build Targets"));
    assert!(out.contains("**Task:** finish renderer"));
    assert!(out.contains("**Changed repos:** . (2M)"));
    assert!(out.contains("**Device:** SER1 (adb)"));
}

#[test]
fn full_holds_the_target_table_when_targets_exist() {
    let out = format_full(&rich_ctx());
    assert!(out.contains("## Available Build Targets"));
    assert!(out.contains("| dev | Dev board | builder | aosp_dev-userdebug |\n"));
    assert!(out.contains("### Target Capabilities\n- **dev:** emulator, flash\n"));
    // pipes in free text cannot break table cells
    assert!(out.contains("`make \\| tee log`"));
    assert!(out.contains("| abc fix\\|bug |"));
    // every repository appears, dirty or not
    assert!(out.contains("| lib | dev | clean | ddd start |\n"));
}

#[test]
fn normal_shows_only_dirty_repositories() {
    let out = format_normal(&rich_ctx());
    assert!(out.contains("| . | main | 2M |\n"));
    assert!(!out.contains("| lib |"));
    assert!(out.contains("## Saved Work State\n- **Saved at:** t0\n"));
    assert!(out.contains("  - [x] tests\n"));
}

#[test]
fn unrecognized_level_renders_as_normal() {
    let ctx = rich_ctx();
    let normal = format_context_markdown(&ctx, "normal");
    assert_eq!(format_context_markdown(&ctx, "whatever"), normal);
    assert_eq!(format_context_markdown(&ctx, ""), normal);
    assert_ne!(format_context_markdown(&ctx, "minimal"), normal);
    assert_eq!(format_context_markdown(&ctx, "full"), format_full(&ctx));
}

#[test]
fn command_display_cap_is_eighty_characters() {
    let long = "a".repeat(81);
    let mut out: Vec<char> = Vec::new();
    push_cmd_display(&mut out, &long);
    let shown = string_of(out);
    assert_eq!(shown, format!("{}...", "a".repeat(77)));
    assert_eq!(shown.chars().count(), 80);
    let exact = "b".repeat(80);
    let mut out: Vec<char> = Vec::new();
    push_cmd_display(&mut out, &exact);
    assert_eq!(string_of(out), exact);
}

#[test]
fn build_context_carries_configured_identity() {
    let mut config = Config::empty();
    config.project_name = Some(s("demo"));
    config.hints = Some(s("hint"));
    let ctx = build_context(&config, vec![], vec![], vec![], vec![], vec![], vec![], None);
    assert_eq!(ctx.project_name, "demo");
    assert_eq!(ctx.project_type, "");
    assert_eq!(ctx.hints, "hint");
    assert_eq!(Config::empty().scan_depth_or_default(), 2);
    assert_eq!(Config::empty().max_entries_or_default(), 20);
    assert!(Config::empty().auto_detect_or_default());
    assert!(Config::empty().history_enabled_or_default());
    assert_eq!(Config::empty().runtime_or_default(), "podman");
    assert_eq!(Config::empty().config_pattern_or_default(), "*.conf");
}

#[test]
fn full_on_small_snapshot_is_exact() {
    let mut ctx = empty_ctx();
    ctx.project_name = s("p");
    ctx.git_repos = vec![GitInfo {
        repo_path: s("."),
        branch: s("main"),
        is_dirty: false,
        modified_files: 0,
        untracked_files: 0,
        last_commit_short: s("abc start"),
    }];
    ctx.adb_devices = vec![AdbDevice { serial: s("S1"), state: s("device"), device_type: s("adb") }];
    let expected = "# Development Context (Full)\n\n\
                    ## Project\n- **Name:** p\n\n\
                    ## Git Status\n\n\
                    | Repository | Branch | Status | Last Commit |\n\
                    |------------|--------|--------|-------------|\n\
                    | . | main | clean | abc start |\n\n\
                    ## Connected Devices\n\
                    | Serial | State | Type |\n\
                    |--------|-------|------|\n\
                    | S1 | device | adb |\n\n";
    assert_eq!(format_full(&ctx), expected);
}
