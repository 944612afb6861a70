use context_keeper::context::clean_file_list;
use context_keeper::context::parse_adb_output;
use context_keeper::context::parse_build_config;
use context_keeper::context::parse_container_list;
use context_keeper::context::parse_entry_point_commands;
use context_keeper::context::parse_fastboot_output;
use context_keeper::context::parse_var_assignment;
use context_keeper::history::default_history_patterns;
use context_keeper::history::filter_history;
use context_keeper::setup::default_patterns_for;
use context_keeper::setup::render_init_config;

fn s(x: &str) -> String {
    x.to_string()
}

#[test]
fn var_assignment_strips_quotes_and_space() {
    let (k, v) = parse_var_assignment("  TARGET_NAME = \"dev board\" ").unwrap();
    assert_eq!(k, "TARGET_NAME");
    assert_eq!(v, "dev board");
    let (k, v) = parse_var_assignment("KEY='single'").unwrap();
    assert_eq!(k, "KEY");
    assert_eq!(v, "single");
    let (k, v) = parse_var_assignment("A=b=c").unwrap();
    assert_eq!(k, "A");
    assert_eq!(v, "b=c");
    assert!(parse_var_assignment("no assignment here").is_none());
}

#[test]
fn build_config_reads_known_keys() {
    let content = "# comment\n\nTARGET_NAME=\"dev\"\nTARGET_DESCRIPTION=A board\nCONTAINER_NAME=builder\nLUNCH_TARGET=aosp_dev-userdebug\nCAN_EMULATOR=true\nCAN_FLASH=false\nUNKNOWN=ignored\n";
    let t = parse_build_config("fallback", content);
    assert_eq!(t.name, "dev");
    assert_eq!(t.description, "A board");
    assert_eq!(t.container_name, "builder");
    assert_eq!(t.lunch_target, "aosp_dev-userdebug");
    assert!(t.can_emulator);
    assert!(!t.can_flash);
}

#[test]
fn build_config_name_falls_back_to_stem() {
    let t = parse_build_config("boardfile", "CAN_FLASH=true\n");
    assert_eq!(t.name, "boardfile");
    assert!(t.can_flash);
}

#[test]
fn entry_point_commands_sorted_deduped_capped() {
    let content = "echo hi\n./build.sh all\n  ./asan.sh quick  \n./build.sh all\nnot a script\n";
    let cmds = parse_entry_point_commands(content);
    assert_eq!(cmds, vec![s("./asan.sh quick"), s("./build.sh all")]);
    let mut many = String::new();
    for i in 0..15 {
        many.push_str(&format!("./run.sh job{:02}\n", i));
    }
    let cmds = parse_entry_point_commands(&many);
    assert_eq!(cmds.len(), 10);
    assert_eq!(cmds[0], "./run.sh job00");
    assert_eq!(cmds[9], "./run.sh job09");
}

#[test]
fn container_lines_need_two_fields() {
    let out = "web\tUp 2 hours\nmalformed line\ndb\tExited\textra\n";
    let cs = parse_container_list(out, "podman");
    assert_eq!(cs.len(), 2);
    assert_eq!(cs[0].name, "web");
    assert_eq!(cs[0].status, "Up 2 hours");
    assert_eq!(cs[0].runtime, "podman");
    assert_eq!(cs[1].name, "db");
    assert_eq!(cs[1].status, "Exited");
}

#[test]
fn adb_listing_skips_heading_and_offline() {
    let out = "List of devices attached\nSER123\tdevice usb:1\n\nSER456\toffline\nSER789\tunauthorized\n";
    let ds = parse_adb_output(out);
    assert_eq!(ds.len(), 2);
    assert_eq!(ds[0].serial, "SER123");
    assert_eq!(ds[0].state, "device");
    assert_eq!(ds[0].device_type, "adb");
    assert_eq!(ds[1].serial, "SER789");
}

#[test]
fn fastboot_listing_takes_first_token() {
    let out = "SER1\tfastboot\n\nSER2 fastboot usb:2\n";
    let ds = parse_fastboot_output(out);
    assert_eq!(ds.len(), 2);
    assert_eq!(ds[0].serial, "SER1");
    assert_eq!(ds[0].state, "fastboot");
    assert_eq!(ds[1].device_type, "fastboot");
}

#[test]
fn file_list_trimmed_and_prefix_free() {
    let out = "./a.rs\n\n  b.rs \n././c.rs\n";
    let fs = clean_file_list(out);
    assert_eq!(fs, vec![s("a.rs"), s("b.rs"), s("c.rs")]);
}

fn log_line(ts: &str, cmd: &str) -> String {
    format!("{{\"timestamp\": \"{}\", \"command\": \"{}\"}}", ts, cmd)
}

#[test]
fn empty_pattern_set_keeps_every_nonempty_command() {
    let lines = vec![
        log_line("t1", "make all"),
        log_line("t2", ""),
        s("not json"),
        log_line("t3", "git status"),
    ];
    let kept = filter_history(&lines, &vec![], 10);
    assert_eq!(kept.len(), 2);
    assert_eq!(kept[0].command, "make all");
    assert_eq!(kept[1].command, "git status");
    assert_eq!(kept[1].timestamp, "t3");
}

#[test]
fn bounded_to_most_recent_entries() {
    let lines: Vec<String> = (1..=5).map(|i| log_line(&format!("t{}", i), &format!("cmd{}", i))).collect();
    let kept = filter_history(&lines, &vec![], 2);
    assert_eq!(kept.len(), 2);
    assert_eq!(kept[0].command, "cmd4");
    assert_eq!(kept[1].command, "cmd5");
}

#[test]
fn patterns_select_matching_commands() {
    let lines = vec![
        log_line("t1", "git push"),
        log_line("t2", "make all"),
        log_line("t3", "git pull"),
    ];
    let kept = filter_history(&lines, &vec![s("^git")], 10);
    assert_eq!(kept.len(), 2);
    assert_eq!(kept[0].command, "git push");
    assert_eq!(kept[1].command, "git pull");
}

#[test]
fn uncompilable_patterns_are_dropped() {
    let lines = vec![log_line("t1", "anything")];
    let kept = filter_history(&lines, &vec![s("(")], 10);
    // the only pattern fails to compile; the empty remainder matches all
    assert_eq!(kept.len(), 1);
}

#[test]
fn default_pattern_set_targets_build_idioms() {
    let ps = default_history_patterns();
    assert_eq!(ps.len(), 6);
    assert_eq!(ps[0], "lunch\\s+\\S+");
    assert_eq!(ps[2], "export\\s+\\w+=");
}

#[test]
fn per_type_defaults() {
    assert_eq!(default_patterns_for("ros")[1], "colcon\\s+build");
    assert_eq!(default_patterns_for("yocto")[1], "bitbake\\s+\\S+");
    assert_eq!(default_patterns_for("custom"), vec![s("export\\s+\\w+="), s("source\\s+")]);
}

#[test]
fn init_config_escapes_patterns_and_skips_empty_sections() {
    let text = render_init_config(
        "proj",
        "aosp",
        "none",
        "",
        "",
        "",
        &vec![s("lunch\\s+\\S+")],
    );
    assert!(text.contains("[project]\nname = \"proj\"\ntype = \"aosp\"\n"));
    assert!(!text.contains("[containers]"));
    assert!(!text.contains("[scripts]"));
    assert!(!text.contains("[hints]"));
    assert!(text.contains("    \"lunch\\\\s+\\\\S+\",\n"));
    assert!(text.contains("[git]\nauto_detect = true\nscan_depth = 2\n"));
    let text = render_init_config("p", "t", "docker", "./b.sh", "conf", "use docker", &vec![]);
    assert!(text.contains("[containers]\nruntime = \"docker\"\n"));
    assert!(text.contains("[scripts]\nentry_point = \"./b.sh\"\nconfig_dir = \"conf\"\nconfig_pattern = \"*.conf\"\n"));
    assert!(text.contains("[hints]\ndefault = \"use docker\"\n"));
}
