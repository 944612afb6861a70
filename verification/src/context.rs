//! The snapshot data model, the configuration with its defaults, and the
//! parsers behind the build-target, container, command and device
//! collectors.
//!
//! The collectors' outside work — globbing, reading files, running the
//! container runtime or the device bridge — happens outside; its raw text
//! arrives here as plain values and everything derived from it is verified.

use vstd::prelude::*;
use crate::history::HistoryEntry;
use crate::repo::GitInfo;
use crate::text;
use crate::text::find_char;
use crate::text::lex_le;
use crate::text::split_lines;
use crate::text::string_views;
use crate::text::trim_spec;
use crate::text::ws_tokens;
use crate::workstate::WorkState;
use vstd::string::StrSliceExecFns;
use vstd::string::StringExecFns;

verus! {

/// One build target read from a configuration file.
pub struct BuildTarget {
    pub name: String,
    pub description: String,
    pub container_name: String,
    pub lunch_target: String,
    pub can_emulator: bool,
    pub can_flash: bool,
}

/// One running container.
pub struct ContainerInfo {
    pub name: String,
    pub status: String,
    pub runtime: String,
}

/// One attached device, over the debug bridge or in flashing mode.
pub struct AdbDevice {
    pub serial: String,
    pub state: String,
    /// "adb" or "fastboot".
    pub device_type: String,
}

/// The resolved configuration; every field has a stated default.
pub struct Config {
    pub project_name: Option<String>,
    pub project_type: Option<String>,
    pub entry_point: Option<String>,
    pub config_dir: Option<String>,
    pub config_pattern: Option<String>,
    pub container_runtime: Option<String>,
    pub hints: Option<String>,
    pub history_enabled: Option<bool>,
    pub history_log_file: Option<String>,
    pub history_patterns: Option<Vec<String>>,
    pub history_max_entries: Option<usize>,
    pub git_paths: Option<Vec<String>>,
    pub git_auto_detect: Option<bool>,
    pub git_scan_depth: Option<usize>,
}

impl Config {
    /// A configuration with nothing set: every default applies.
    pub fn empty() -> (c: Config)
        ensures
            c.project_name is None,
            c.project_type is None,
            c.entry_point is None,
            c.config_dir is None,
            c.config_pattern is None,
            c.container_runtime is None,
            c.hints is None,
            c.history_enabled is None,
            c.history_log_file is None,
            c.history_patterns is None,
            c.history_max_entries is None,
            c.git_paths is None,
            c.git_auto_detect is None,
            c.git_scan_depth is None,
    {
        Config {
            project_name: None,
            project_type: None,
            entry_point: None,
            config_dir: None,
            config_pattern: None,
            container_runtime: None,
            hints: None,
            history_enabled: None,
            history_log_file: None,
            history_patterns: None,
            history_max_entries: None,
            git_paths: None,
            git_auto_detect: None,
            git_scan_depth: None,
        }
    }

    /// History collection is enabled unless switched off.
    pub fn history_enabled_or_default(&self) -> (r: bool)
        ensures
            r == match self.history_enabled {
                Some(b) => b,
                None => true,
            },
    {
        match self.history_enabled {
            Some(b) => b,
            None => true,
        }
    }

    /// At most this many history entries are kept; twenty by default.
    pub fn max_entries_or_default(&self) -> (r: usize)
        ensures
            r == match self.history_max_entries {
                Some(n) => n,
                None => 20usize,
            },
    {
        match self.history_max_entries {
            Some(n) => n,
            None => 20,
        }
    }

    /// Auto-detection of repositories is on unless switched off.
    pub fn auto_detect_or_default(&self) -> (r: bool)
        ensures
            r == match self.git_auto_detect {
                Some(b) => b,
                None => true,
            },
    {
        match self.git_auto_detect {
            Some(b) => b,
            None => true,
        }
    }

    /// The container runtime to query; "podman" by default.
    pub fn runtime_or_default(&self) -> (r: String)
        ensures
            r@ == match self.container_runtime {
                Some(ref s) => s@,
                None => "podman"@,
            },
    {
        match &self.container_runtime {
            Some(s) => s.clone(),
            None => String::from_str("podman"),
        }
    }

    /// The build-target file pattern; "*.conf" by default.
    pub fn config_pattern_or_default(&self) -> (r: String)
        ensures
            r@ == match self.config_pattern {
                Some(ref s) => s@,
                None => "*.conf"@,
            },
    {
        match &self.config_pattern {
            Some(s) => s.clone(),
            None => String::from_str("*.conf"),
        }
    }

    /// Depth bound of the repository scan; two by default.
    pub fn scan_depth_or_default(&self) -> (r: usize)
        ensures
            r == match self.git_scan_depth {
                Some(d) => d,
                None => 2usize,
            },
    {
        match self.git_scan_depth {
            Some(d) => d,
            None => 2,
        }
    }
}

/// The aggregated snapshot: immutable once built, rendered by the tiers.
pub struct Context {
    pub project_name: String,
    pub project_type: String,
    pub targets: Vec<BuildTarget>,
    pub containers: Vec<ContainerInfo>,
    pub available_commands: Vec<String>,
    pub hints: String,
    pub command_history: Vec<HistoryEntry>,
    pub git_repos: Vec<GitInfo>,
    pub adb_devices: Vec<AdbDevice>,
    pub work_state: Option<WorkState>,
}

/// The key and value of a shell-style variable assignment: the text around
/// the first '=', both trimmed, the value stripped of surrounding quotes.
pub open spec fn var_assignment(l: Seq<char>) -> Option<(Seq<char>, Seq<char>)> {
    let i = find_char(l, '=');
    if 0 <= i < l.len() {
        Some(
            (
                trim_spec(l.take(i)),
                text::strip_ends(text::strip_ends(trim_spec(l.skip(i + 1)), '"'), '\''),
            ),
        )
    } else {
        None
    }
}

/// Splits a shell-style variable assignment, as [`var_assignment`] says.
#[verifier::loop_isolation(false)]
pub fn parse_var_assignment(line: &str) -> (r: Option<(String, String)>)
    ensures
        match r {
            Some(kv) => var_assignment(line@) == Some((kv.0@, kv.1@)),
            None => var_assignment(line@) is None,
        },
{
    let cs = text::chars_of(line);
    let n: usize = cs.len();
    let mut i: usize = 0;
    while i < n && cs[i] != '='
        invariant
            i <= n,
            forall|k: int| 0 <= k < i ==> line@[k] != '=',
        decreases n - i,
    {
        i = i + 1;
    }
    proof {
        text::lemma_find_char_at(line@, '=', i as int);
    }
    if i == n {
        return None;
    }
    let key_raw = text::string_of(text::sub_chars(&cs, 0, i));
    let key = text::trim_str(key_raw.as_str());
    let val_raw = text::string_of(text::sub_chars(&cs, i + 1, n));
    let val_trimmed = text::trim_str(val_raw.as_str());
    let vt = text::chars_of(val_trimmed.as_str());
    let v1 = text::strip_ends_exec(&vt, '"');
    let v2 = text::strip_ends_exec(&v1, '\'');
    proof {
        assert(key_raw@ == line@.take(i as int));
        assert(val_raw@ == line@.skip(i + 1));
    }
    Some((key, text::string_of(v2)))
}

/// The model of a build target while its file is read.
#[verifier::ext_equal]
pub struct TargetModel {
    pub name: Seq<char>,
    pub description: Seq<char>,
    pub container_name: Seq<char>,
    pub lunch_target: Seq<char>,
    pub can_emulator: bool,
    pub can_flash: bool,
}

/// A target with nothing set.
pub open spec fn empty_target_model() -> TargetModel {
    TargetModel {
        name: Seq::empty(),
        description: Seq::empty(),
        container_name: Seq::empty(),
        lunch_target: Seq::empty(),
        can_emulator: false,
        can_flash: false,
    }
}

/// How one configuration line changes the target being read: comments and
/// blank lines change nothing, known keys set their field, unknown keys are
/// ignored.
pub open spec fn apply_conf_line(m: TargetModel, l: Seq<char>) -> TargetModel {
    let t = trim_spec(l);
    if t.len() == 0 || t[0] == '#' {
        m
    } else {
        match var_assignment(t) {
            Some(kv) => {
                if kv.0 == "TARGET_NAME"@ {
                    TargetModel { name: kv.1, ..m }
                } else if kv.0 == "TARGET_DESCRIPTION"@ {
                    TargetModel { description: kv.1, ..m }
                } else if kv.0 == "CONTAINER_NAME"@ {
                    TargetModel { container_name: kv.1, ..m }
                } else if kv.0 == "LUNCH_TARGET"@ {
                    TargetModel { lunch_target: kv.1, ..m }
                } else if kv.0 == "CAN_EMULATOR"@ {
                    TargetModel { can_emulator: kv.1 == "true"@, ..m }
                } else if kv.0 == "CAN_FLASH"@ {
                    TargetModel { can_flash: kv.1 == "true"@, ..m }
                } else {
                    m
                }
            },
            None => m,
        }
    }
}

/// The target read from a sequence of configuration lines.
pub open spec fn conf_fold(lines: Seq<Seq<char>>, m: TargetModel) -> TargetModel
    decreases lines.len(),
{
    if lines.len() == 0 {
        m
    } else {
        conf_fold(lines.drop_first(), apply_conf_line(m, lines[0]))
    }
}

/// The model of a finished build target.
pub open spec fn target_model(t: BuildTarget) -> TargetModel {
    TargetModel {
        name: t.name@,
        description: t.description@,
        container_name: t.container_name@,
        lunch_target: t.lunch_target@,
        can_emulator: t.can_emulator,
        can_flash: t.can_flash,
    }
}

/// Reads one build-target configuration file: shell-style assignments set
/// the fields, comments and unknown keys are ignored, and a missing target
/// name falls back to the file's stem.
#[verifier::loop_isolation(false)]
pub fn parse_build_config(stem: &str, content: &str) -> (t: BuildTarget)
    ensures
        ({
            let f = conf_fold(split_lines(content@), empty_target_model());
            target_model(t) == if f.name.len() == 0 {
                TargetModel { name: stem@, ..f }
            } else {
                f
            }
        }),
{
    let lines = text::split_lines_exec(content);
    let ghost lv = string_views(lines@);
    let empty_chars: Vec<char> = Vec::new();
    let mut t = BuildTarget {
        name: text::string_of(text::sub_chars(&empty_chars, 0, 0)),
        description: text::string_of(text::sub_chars(&empty_chars, 0, 0)),
        container_name: text::string_of(text::sub_chars(&empty_chars, 0, 0)),
        lunch_target: text::string_of(text::sub_chars(&empty_chars, 0, 0)),
        can_emulator: false,
        can_flash: false,
    };
    let mut i: usize = 0;
    proof {
        assert(target_model(t) =~= empty_target_model());
        assert(lv.skip(0) =~= lv);
    }
    while i < lines.len()
        invariant
            i <= lines@.len(),
            conf_fold(lv.skip(i as int), target_model(t)) == conf_fold(lv, empty_target_model()),
        decreases lines@.len() - i,
    {
        let ghost before = target_model(t);
        let ghost l = lv[i as int];
        let trimmed = text::trim_str(lines[i].as_str());
        let tc = text::chars_of(trimmed.as_str());
        if tc.len() == 0 || tc[0] == '#' {
        } else {
            match parse_var_assignment(trimmed.as_str()) {
                Some((key, value)) => {
                    if text::str_eq(key.as_str(), "TARGET_NAME") {
                        t.name = value;
                    } else if text::str_eq(key.as_str(), "TARGET_DESCRIPTION") {
                        t.description = value;
                    } else if text::str_eq(key.as_str(), "CONTAINER_NAME") {
                        t.container_name = value;
                    } else if text::str_eq(key.as_str(), "LUNCH_TARGET") {
                        t.lunch_target = value;
                    } else if text::str_eq(key.as_str(), "CAN_EMULATOR") {
                        t.can_emulator = text::str_eq(value.as_str(), "true");
                    } else if text::str_eq(key.as_str(), "CAN_FLASH") {
                        t.can_flash = text::str_eq(value.as_str(), "true");
                    }
                },
                None => {},
            }
        }
        proof {
            assert(target_model(t) == apply_conf_line(before, l));
            assert(lv.skip(i as int)[0] == l);
            assert(lv.skip(i as int).drop_first() =~= lv.skip(i + 1));
        }
        i = i + 1;
    }
    proof {
        assert(lv.skip(lines@.len() as int) =~= Seq::<Seq<char>>::empty());
    }
    if t.name.as_str().unicode_len() == 0 {
        t.name = text::string_of(text::chars_of(stem));
    }
    t
}

/// Lines of a build entry-point script that look like runnable commands:
/// trimmed lines mentioning a relative script invocation.
pub open spec fn command_candidates(lines: Seq<Seq<char>>) -> Seq<Seq<char>>
    decreases lines.len(),
{
    if lines.len() == 0 {
        Seq::empty()
    } else {
        let t = trim_spec(lines[0]);
        let rest = command_candidates(lines.drop_first());
        if text::contains_sub(t, "./"@) && text::contains_sub(t, ".sh "@) {
            seq![t] + rest
        } else {
            rest
        }
    }
}

/// The first `n` strings, or all of them if fewer.
pub open spec fn bounded_head(s: Seq<Seq<char>>, n: nat) -> Seq<Seq<char>> {
    if s.len() <= n {
        s
    } else {
        s.take(n as int)
    }
}

/// Extracts the example commands of an entry-point script: candidate lines,
/// sorted, duplicates removed, capped at ten.
#[verifier::loop_isolation(false)]
pub fn parse_entry_point_commands(content: &str) -> (r: Vec<String>)
    ensures
        exists|sorted: Seq<Seq<char>>|
            #![trigger text::dedup_views(sorted)]
            {
                &&& sorted.to_multiset() == command_candidates(split_lines(content@)).to_multiset()
                &&& (forall|i: int, j: int|
                    0 <= i < j < sorted.len() ==> lex_le(sorted[i], sorted[j]))
                &&& string_views(r@) == bounded_head(text::dedup_views(sorted), 10)
            },
{
    let lines = text::split_lines_exec(content);
    let ghost lv = string_views(lines@);
    let mut cands: Vec<String> = Vec::new();
    let mut i: usize = 0;
    proof {
        assert(lv.skip(0) =~= lv);
        assert(string_views(cands@) + command_candidates(lv.skip(0)) =~= command_candidates(lv));
    }
    while i < lines.len()
        invariant
            i <= lines@.len(),
            string_views(cands@) + command_candidates(lv.skip(i as int)) == command_candidates(lv),
        decreases lines@.len() - i,
    {
        let ghost before = string_views(cands@);
        let ghost t = lv.skip(i as int);
        let trimmed = text::trim_str(lines[i].as_str());
        let tc = text::chars_of(trimmed.as_str());
        let dotslash = text::chars_of("./");
        let dotsh = text::chars_of(".sh ");
        let keep = text::contains_exec(&tc, &dotslash) && text::contains_exec(&tc, &dotsh);
        proof {
            assert(t[0] == lv[i as int]);
            assert(t.drop_first() =~= lv.skip(i + 1));
        }
        if keep {
            cands.push(trimmed);
            proof {
                assert(string_views(cands@) =~= before.push(trim_spec(lv[i as int])));
                assert(string_views(cands@) + command_candidates(lv.skip(i + 1))
                    =~= before + command_candidates(t));
            }
        }
        i = i + 1;
    }
    proof {
        assert(lv.skip(lines@.len() as int) =~= Seq::<Seq<char>>::empty());
        assert(command_candidates(lv.skip(lines@.len() as int)) =~= Seq::<Seq<char>>::empty());
        assert(string_views(cands@) + command_candidates(lv.skip(lines@.len() as int))
            =~= string_views(cands@));
    }
    let sorted = text::sort_strings(&cands);
    let ghost sorted_views = string_views(sorted@);
    let deduped = text::dedup_strings(sorted);
    let r = text::take_strings(deduped, 10);
    proof {
        assert(string_views(r@) =~= bounded_head(text::dedup_views(sorted_views), 10));
    }
    r
}

/// The name and status of one container-list line: the text before the
/// first tab and the text between the first and second tab; a line without
/// a tab reports no container.
pub open spec fn container_fields(l: Seq<char>) -> Option<(Seq<char>, Seq<char>)> {
    let i = find_char(l, '\t');
    if 0 <= i < l.len() {
        let rest = l.skip(i + 1);
        let j = find_char(rest, '\t');
        if 0 <= j <= rest.len() {
            Some((l.take(i), rest.take(j)))
        } else {
            None
        }
    } else {
        None
    }
}

/// The containers of a runtime listing.
pub open spec fn container_list(lines: Seq<Seq<char>>) -> Seq<(Seq<char>, Seq<char>)>
    decreases lines.len(),
{
    if lines.len() == 0 {
        Seq::empty()
    } else {
        let rest = container_list(lines.drop_first());
        match container_fields(lines[0]) {
            Some(f) => seq![f] + rest,
            None => rest,
        }
    }
}

/// The name, status and runtime views of collected containers.
pub open spec fn container_views(s: Seq<ContainerInfo>) -> Seq<(Seq<char>, Seq<char>, Seq<char>)> {
    s.map_values(|c: ContainerInfo| (c.name@, c.status@, c.runtime@))
}

/// Parses the container runtime's listing: each line with tab-separated
/// fields yields a container with the given runtime label.
#[verifier::loop_isolation(false)]
pub fn parse_container_list(output: &str, runtime: &str) -> (r: Vec<ContainerInfo>)
    ensures
        ({
            let cl = container_list(split_lines(output@));
            container_views(r@) == cl.map_values(
                |f: (Seq<char>, Seq<char>)| (f.0, f.1, runtime@),
            )
        }),
{
    let lines = text::split_lines_exec(output);
    let ghost lv = string_views(lines@);
    let ghost goal = container_list(lv).map_values(
        |f: (Seq<char>, Seq<char>)| (f.0, f.1, runtime@),
    );
    let mut r: Vec<ContainerInfo> = Vec::new();
    let mut i: usize = 0;
    proof {
        assert(lv.skip(0) =~= lv);
        assert(container_views(r@) + container_list(lv.skip(0)).map_values(
            |f: (Seq<char>, Seq<char>)| (f.0, f.1, runtime@),
        ) =~= goal);
    }
    while i < lines.len()
        invariant
            i <= lines@.len(),
            container_views(r@) + container_list(lv.skip(i as int)).map_values(
                |f: (Seq<char>, Seq<char>)| (f.0, f.1, runtime@),
            ) == goal,
        decreases lines@.len() - i,
    {
        let ghost before = container_views(r@);
        let ghost t = lv.skip(i as int);
        let ghost l = lv[i as int];
        proof {
            assert(t[0] == l);
            assert(t.drop_first() =~= lv.skip(i + 1));
        }
        let cs = text::chars_of(lines[i].as_str());
        let n: usize = cs.len();
        let mut a: usize = 0;
        while a < n && cs[a] != '\t'
            invariant
                a <= n,
                n == l.len(),
                cs@ == l,
                forall|k: int| 0 <= k < a ==> l[k] != '\t',
            decreases n - a,
        {
            a = a + 1;
        }
        proof {
            text::lemma_find_char_at(l, '\t', a as int);
        }
        if a < n {
            let ghost rest = l.skip(a + 1);
            let mut b: usize = a + 1;
            while b < n && cs[b] != '\t'
                invariant
                    a + 1 <= b <= n,
                    n == l.len(),
                    cs@ == l,
                    forall|k: int| a + 1 <= k < b ==> l[k] != '\t',
                decreases n - b,
            {
                b = b + 1;
            }
            proof {
                assert(forall|k: int| 0 <= k < b - a - 1 ==> rest[k] == l[a + 1 + k]);
                if b < n {
                    assert(rest[b - a - 1] == l[b as int]);
                }
                text::lemma_find_char_at(rest, '\t', b - a - 1);
                assert(rest.take(b - a - 1) =~= l.subrange(a + 1, b as int));
            }
            let name = text::string_of(text::sub_chars(&cs, 0, a));
            let status = text::string_of(text::sub_chars(&cs, a + 1, b));
            let rt = text::string_of(text::chars_of(runtime));
            r.push(ContainerInfo { name, status, runtime: rt });
            proof {
                assert(container_views(r@) =~= before.push((l.take(a as int), rest.take(b - a - 1), runtime@)));
                assert(container_views(r@) + container_list(lv.skip(i + 1)).map_values(
                    |f: (Seq<char>, Seq<char>)| (f.0, f.1, runtime@),
                ) =~= before + container_list(t).map_values(
                    |f: (Seq<char>, Seq<char>)| (f.0, f.1, runtime@),
                ));
            }
        } else {
            proof {
                assert(container_fields(l) is None);
                assert(container_views(r@) + container_list(lv.skip(i + 1)).map_values(
                    |f: (Seq<char>, Seq<char>)| (f.0, f.1, runtime@),
                ) =~= before + container_list(t).map_values(
                    |f: (Seq<char>, Seq<char>)| (f.0, f.1, runtime@),
                ));
            }
        }
        i = i + 1;
    }
    proof {
        assert(lv.skip(lines@.len() as int) =~= Seq::<Seq<char>>::empty());
        assert(container_list(lv.skip(lines@.len() as int)) =~= Seq::<(Seq<char>, Seq<char>)>::empty());
        assert(container_views(r@) + container_list(lv.skip(lines@.len() as int)).map_values(
            |f: (Seq<char>, Seq<char>)| (f.0, f.1, runtime@),
        ) =~= container_views(r@));
    }
    r
}

/// The serial and state of one debug-bridge listing line: its first two
/// whitespace-separated tokens; lines with fewer report no device.
pub open spec fn adb_line_fields(l: Seq<char>) -> Option<(Seq<char>, Seq<char>)> {
    let toks = ws_tokens(l);
    if toks.len() >= 2 {
        Some((toks[0], toks[1]))
    } else {
        None
    }
}

/// The devices of a debug-bridge listing: every line after the heading with
/// two tokens whose state is not "offline".
pub open spec fn adb_devices_of(lines: Seq<Seq<char>>) -> Seq<(Seq<char>, Seq<char>)>
    decreases lines.len(),
{
    if lines.len() == 0 {
        Seq::empty()
    } else {
        let rest = adb_devices_of(lines.drop_first());
        match adb_line_fields(lines[0]) {
            Some(f) => if f.1 == "offline"@ {
                rest
            } else {
                seq![f] + rest
            },
            None => rest,
        }
    }
}

/// The serials of a flashing-mode listing: the first token of every
/// non-blank line.
pub open spec fn fastboot_serials_of(lines: Seq<Seq<char>>) -> Seq<Seq<char>>
    decreases lines.len(),
{
    if lines.len() == 0 {
        Seq::empty()
    } else {
        let rest = fastboot_serials_of(lines.drop_first());
        let toks = ws_tokens(lines[0]);
        if toks.len() >= 1 {
            seq![toks[0]] + rest
        } else {
            rest
        }
    }
}

/// The serial, state and kind views of collected devices.
pub open spec fn device_views(s: Seq<AdbDevice>) -> Seq<(Seq<char>, Seq<char>, Seq<char>)> {
    s.map_values(|d: AdbDevice| (d.serial@, d.state@, d.device_type@))
}

/// Parses the debug-bridge device listing: the heading line is skipped,
/// each remaining line with a serial and a state yields a device of kind
/// "adb", and offline devices are dropped.
#[verifier::loop_isolation(false)]
pub fn parse_adb_output(output: &str) -> (r: Vec<AdbDevice>)
    ensures
        split_lines(output@).len() == 0 ==> device_views(r@) == Seq::<(
            Seq<char>,
            Seq<char>,
            Seq<char>,
        )>::empty(),
        split_lines(output@).len() > 0 ==> device_views(r@) == adb_devices_of(
            split_lines(output@).drop_first(),
        ).map_values(|f: (Seq<char>, Seq<char>)| (f.0, f.1, "adb"@)),
{
    let lines = text::split_lines_exec(output);
    let ghost all = string_views(lines@);
    let mut r: Vec<AdbDevice> = Vec::new();
    if lines.len() == 0 {
        proof {
            assert(device_views(r@) =~= Seq::<(Seq<char>, Seq<char>, Seq<char>)>::empty());
        }
        return r;
    }
    let ghost lv = all.drop_first();
    let ghost goal = adb_devices_of(lv).map_values(|f: (Seq<char>, Seq<char>)| (f.0, f.1, "adb"@));
    let mut i: usize = 1;
    proof {
        assert(lv.skip(0) =~= lv);
        assert(device_views(r@) + adb_devices_of(lv.skip(0)).map_values(
            |f: (Seq<char>, Seq<char>)| (f.0, f.1, "adb"@),
        ) =~= goal);
    }
    while i < lines.len()
        invariant
            1 <= i <= lines@.len(),
            lines@.len() >= 1,
            lv == string_views(lines@).drop_first(),
            device_views(r@) + adb_devices_of(lv.skip(i - 1)).map_values(
                |f: (Seq<char>, Seq<char>)| (f.0, f.1, "adb"@),
            ) == goal,
        decreases lines@.len() - i,
    {
        let ghost before = device_views(r@);
        let ghost t = lv.skip(i - 1);
        let ghost l = lv[i - 1];
        proof {
            assert(l == lines@[i as int]@);
            assert(t[0] == l);
            assert(t.drop_first() =~= lv.skip(i as int));
        }
        let toks = text::split_ws_exec(lines[i].as_str());
        if toks.len() >= 2 {
            if !text::str_eq(toks[1].as_str(), "offline") {
                let serial = toks[0].clone();
                let state = toks[1].clone();
                let kind = text::string_of(text::chars_of("adb"));
                r.push(AdbDevice { serial, state, device_type: kind });
                proof {
                    assert(device_views(r@) =~= before.push(
                        (ws_tokens(l)[0], ws_tokens(l)[1], "adb"@),
                    ));
                    assert(device_views(r@) + adb_devices_of(lv.skip(i as int)).map_values(
                        |f: (Seq<char>, Seq<char>)| (f.0, f.1, "adb"@),
                    ) =~= before + adb_devices_of(t).map_values(
                        |f: (Seq<char>, Seq<char>)| (f.0, f.1, "adb"@),
                    ));
                }
            } else {
                proof {
                    assert(device_views(r@) + adb_devices_of(lv.skip(i as int)).map_values(
                        |f: (Seq<char>, Seq<char>)| (f.0, f.1, "adb"@),
                    ) =~= before + adb_devices_of(t).map_values(
                        |f: (Seq<char>, Seq<char>)| (f.0, f.1, "adb"@),
                    ));
                }
            }
        } else {
            proof {
                assert(adb_line_fields(l) is None);
                assert(device_views(r@) + adb_devices_of(lv.skip(i as int)).map_values(
                    |f: (Seq<char>, Seq<char>)| (f.0, f.1, "adb"@),
                ) =~= before + adb_devices_of(t).map_values(
                    |f: (Seq<char>, Seq<char>)| (f.0, f.1, "adb"@),
                ));
            }
        }
        i = i + 1;
    }
    proof {
        assert(lv.skip(lines@.len() - 1) =~= Seq::<Seq<char>>::empty());
        assert(adb_devices_of(lv.skip(lines@.len() - 1)) =~= Seq::<(Seq<char>, Seq<char>)>::empty());
        assert(device_views(r@) + adb_devices_of(lv.skip(lines@.len() - 1)).map_values(
            |f: (Seq<char>, Seq<char>)| (f.0, f.1, "adb"@),
        ) =~= device_views(r@));
    }
    r
}

/// Parses the flashing-mode device listing: the first token of every
/// non-blank line is a device in "fastboot" state and kind.
#[verifier::loop_isolation(false)]
pub fn parse_fastboot_output(output: &str) -> (r: Vec<AdbDevice>)
    ensures
        device_views(r@) == fastboot_serials_of(split_lines(output@)).map_values(
            |serial: Seq<char>| (serial, "fastboot"@, "fastboot"@),
        ),
{
    let lines = text::split_lines_exec(output);
    let ghost lv = string_views(lines@);
    let ghost goal = fastboot_serials_of(lv).map_values(
        |serial: Seq<char>| (serial, "fastboot"@, "fastboot"@),
    );
    let mut r: Vec<AdbDevice> = Vec::new();
    let mut i: usize = 0;
    proof {
        assert(lv.skip(0) =~= lv);
        assert(device_views(r@) + fastboot_serials_of(lv.skip(0)).map_values(
            |serial: Seq<char>| (serial, "fastboot"@, "fastboot"@),
        ) =~= goal);
    }
    while i < lines.len()
        invariant
            i <= lines@.len(),
            device_views(r@) + fastboot_serials_of(lv.skip(i as int)).map_values(
                |serial: Seq<char>| (serial, "fastboot"@, "fastboot"@),
            ) == goal,
        decreases lines@.len() - i,
    {
        let ghost before = device_views(r@);
        let ghost t = lv.skip(i as int);
        let ghost l = lv[i as int];
        proof {
            assert(t[0] == l);
            assert(t.drop_first() =~= lv.skip(i + 1));
        }
        let toks = text::split_ws_exec(lines[i].as_str());
        if toks.len() >= 1 {
            let serial = toks[0].clone();
            let state = text::string_of(text::chars_of("fastboot"));
            let kind = text::string_of(text::chars_of("fastboot"));
            r.push(AdbDevice { serial, state, device_type: kind });
            proof {
                assert(device_views(r@) =~= before.push((ws_tokens(l)[0], "fastboot"@, "fastboot"@)));
                assert(device_views(r@) + fastboot_serials_of(lv.skip(i + 1)).map_values(
                    |serial: Seq<char>| (serial, "fastboot"@, "fastboot"@),
                ) =~= before + fastboot_serials_of(t).map_values(
                    |serial: Seq<char>| (serial, "fastboot"@, "fastboot"@),
                ));
            }
        } else {
            proof {
                assert(device_views(r@) + fastboot_serials_of(lv.skip(i + 1)).map_values(
                    |serial: Seq<char>| (serial, "fastboot"@, "fastboot"@),
                ) =~= before + fastboot_serials_of(t).map_values(
                    |serial: Seq<char>| (serial, "fastboot"@, "fastboot"@),
                ));
            }
        }
        i = i + 1;
    }
    proof {
        assert(lv.skip(lines@.len() as int) =~= Seq::<Seq<char>>::empty());
        assert(fastboot_serials_of(lv.skip(lines@.len() as int)) =~= Seq::<Seq<char>>::empty());
        assert(device_views(r@) + fastboot_serials_of(lv.skip(lines@.len() as int)).map_values(
            |serial: Seq<char>| (serial, "fastboot"@, "fastboot"@),
        ) =~= device_views(r@));
    }
    r
}

/// The cleaned working-file lines: trimmed, blank lines dropped, every
/// leading "./" removed.
pub open spec fn cleaned_files(lines: Seq<Seq<char>>) -> Seq<Seq<char>>
    decreases lines.len(),
{
    if lines.len() == 0 {
        Seq::empty()
    } else {
        let t = trim_spec(lines[0]);
        let rest = cleaned_files(lines.drop_first());
        if t.len() > 0 {
            seq![text::strip_all_prefix(t, "./"@)] + rest
        } else {
            rest
        }
    }
}

/// Cleans the raw listing of changed files, as [`cleaned_files`] says.
#[verifier::loop_isolation(false)]
pub fn clean_file_list(output: &str) -> (r: Vec<String>)
    ensures
        string_views(r@) == cleaned_files(split_lines(output@)),
{
    let lines = text::split_lines_exec(output);
    let ghost lv = string_views(lines@);
    let mut r: Vec<String> = Vec::new();
    let mut i: usize = 0;
    proof {
        assert(lv.skip(0) =~= lv);
        assert(string_views(r@) + cleaned_files(lv.skip(0)) =~= cleaned_files(lv));
    }
    while i < lines.len()
        invariant
            i <= lines@.len(),
            string_views(r@) + cleaned_files(lv.skip(i as int)) == cleaned_files(lv),
        decreases lines@.len() - i,
    {
        let ghost before = string_views(r@);
        let ghost t = lv.skip(i as int);
        proof {
            assert(t[0] == lv[i as int]);
            assert(t.drop_first() =~= lv.skip(i + 1));
        }
        let trimmed = text::trim_str(lines[i].as_str());
        let tc = text::chars_of(trimmed.as_str());
        if tc.len() > 0 {
            let prefix = text::chars_of("./");
            proof {
                reveal_strlit("./");
            }
            let stripped = text::strip_all_prefix_exec(&tc, &prefix);
            r.push(text::string_of(stripped));
            proof {
                assert(string_views(r@) =~= before.push(
                    text::strip_all_prefix(trim_spec(lv[i as int]), "./"@),
                ));
                assert(string_views(r@) + cleaned_files(lv.skip(i + 1)) =~= before + cleaned_files(
                    t,
                ));
            }
        }
        i = i + 1;
    }
    proof {
        assert(lv.skip(lines@.len() as int) =~= Seq::<Seq<char>>::empty());
        assert(cleaned_files(lv.skip(lines@.len() as int)) =~= Seq::<Seq<char>>::empty());
        assert(string_views(r@) + cleaned_files(lv.skip(lines@.len() as int)) =~= string_views(r@));
    }
    r
}

/// Assembles the immutable snapshot from the collected parts and the
/// configured project identity and hints; collectors have no
/// interdependencies, so each part carries over unchanged.
pub fn build_context(
    config: &Config,
    targets: Vec<BuildTarget>,
    containers: Vec<ContainerInfo>,
    available_commands: Vec<String>,
    command_history: Vec<HistoryEntry>,
    git_repos: Vec<GitInfo>,
    adb_devices: Vec<AdbDevice>,
    work_state: Option<WorkState>,
) -> (ctx: Context)
    ensures
        ctx.project_name@ == match config.project_name {
            Some(n) => n@,
            None => Seq::<char>::empty(),
        },
        ctx.project_type@ == match config.project_type {
            Some(n) => n@,
            None => Seq::<char>::empty(),
        },
        ctx.hints@ == match config.hints {
            Some(h) => h@,
            None => Seq::<char>::empty(),
        },
        ctx.targets == targets,
        ctx.containers == containers,
        ctx.available_commands == available_commands,
        ctx.command_history == command_history,
        ctx.git_repos == git_repos,
        ctx.adb_devices == adb_devices,
        ctx.work_state == work_state,
{
    let project_name = match &config.project_name {
        Some(n) => n.clone(),
        None => {
            let v: Vec<char> = Vec::new();
            text::string_of(v)
        },
    };
    let project_type = match &config.project_type {
        Some(n) => n.clone(),
        None => {
            let v: Vec<char> = Vec::new();
            text::string_of(v)
        },
    };
    let hints = match &config.hints {
        Some(h) => h.clone(),
        None => {
            let v: Vec<char> = Vec::new();
            text::string_of(v)
        },
    };
    Context {
        project_name,
        project_type,
        targets,
        containers,
        available_commands,
        hints,
        command_history,
        git_repos,
        adb_devices,
        work_state,
    }
}

} // verus!
