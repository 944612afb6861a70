//! The initial configuration file that the setup flow writes.
//!
//! Prompting the user and detecting the project type or container runtime
//! are outside work; the answers arrive here as plain values and the file's
//! text is rendered exactly as stated.

use vstd::prelude::*;
use crate::text;
use crate::text::string_views;
use vstd::string::StrSliceExecFns;
use vstd::string::StringExecFns;

verus! {

/// The default history patterns for a project type, aimed at its build and
/// environment-setup idioms.
pub open spec fn patterns_for_type(t: Seq<char>) -> Seq<Seq<char>> {
    if t == "aosp"@ {
        seq![
            "lunch\\s+\\S+"@,
            "source.*envsetup"@,
            "export\\s+\\w+="@,
            "m\\s+\\S+"@,
            "mm\\b"@,
            "mma\\b"@,
        ]
    } else if t == "ros"@ {
        seq![
            "source.*setup\\.bash"@,
            "colcon\\s+build"@,
            "catkin_make"@,
            "ros2\\s+run"@,
            "ros2\\s+launch"@,
            "roslaunch"@,
        ]
    } else if t == "yocto"@ {
        seq!["source.*oe-init"@, "bitbake\\s+\\S+"@, "MACHINE="@, "devtool\\s+\\S+"@]
    } else {
        seq!["export\\s+\\w+="@, "source\\s+"@]
    }
}

/// The default history patterns for a project type, as
/// [`patterns_for_type`] lists them.
pub fn default_patterns_for(project_type: &str) -> (r: Vec<String>)
    ensures
        string_views(r@) == patterns_for_type(project_type@),
{
    let mut r: Vec<String> = Vec::new();
    if text::str_eq(project_type, "aosp") {
        r.push(String::from_str("lunch\\s+\\S+"));
        r.push(String::from_str("source.*envsetup"));
        r.push(String::from_str("export\\s+\\w+="));
        r.push(String::from_str("m\\s+\\S+"));
        r.push(String::from_str("mm\\b"));
        r.push(String::from_str("mma\\b"));
        proof {
            assert(string_views(r@) =~= patterns_for_type(project_type@));
        }
    } else if text::str_eq(project_type, "ros") {
        r.push(String::from_str("source.*setup\\.bash"));
        r.push(String::from_str("colcon\\s+build"));
        r.push(String::from_str("catkin_make"));
        r.push(String::from_str("ros2\\s+run"));
        r.push(String::from_str("ros2\\s+launch"));
        r.push(String::from_str("roslaunch"));
        proof {
            assert(string_views(r@) =~= patterns_for_type(project_type@));
        }
    } else if text::str_eq(project_type, "yocto") {
        r.push(String::from_str("source.*oe-init"));
        r.push(String::from_str("bitbake\\s+\\S+"));
        r.push(String::from_str("MACHINE="));
        r.push(String::from_str("devtool\\s+\\S+"));
        proof {
            assert(string_views(r@) =~= patterns_for_type(project_type@));
        }
    } else {
        r.push(String::from_str("export\\s+\\w+="));
        r.push(String::from_str("source\\s+"));
        proof {
            assert(string_views(r@) =~= patterns_for_type(project_type@));
        }
    }
    r
}

/// Every backslash doubled, the escape the configuration format wants.
pub open spec fn esc_backslashes(s: Seq<char>) -> Seq<char>
    decreases s.len(),
{
    if s.len() == 0 {
        Seq::empty()
    } else {
        (if s[0] == '\\' {
            seq!['\\', '\\']
        } else {
            seq![s[0]]
        }) + esc_backslashes(s.drop_first())
    }
}

/// Appending one character extends the escaped form at the end.
proof fn lemma_esc_backslashes_snoc(s: Seq<char>, c: char)
    ensures
        esc_backslashes(s.push(c)) == esc_backslashes(s) + (if c == '\\' {
            seq!['\\', '\\']
        } else {
            seq![c]
        }),
    decreases s.len(),
{
    if s.len() == 0 {
        assert(s.push(c)[0] == c);
        assert(s.push(c).drop_first() =~= Seq::<char>::empty());
        assert(esc_backslashes(s.push(c)) == (if c == '\\' {
            seq!['\\', '\\']
        } else {
            seq![c]
        }) + esc_backslashes(Seq::<char>::empty()));
        assert(esc_backslashes(s.push(c)) =~= esc_backslashes(s) + (if c == '\\' {
            seq!['\\', '\\']
        } else {
            seq![c]
        }));
    } else {
        assert(s.push(c)[0] == s[0]);
        assert(s.push(c).drop_first() =~= s.drop_first().push(c));
        assert(esc_backslashes(s.push(c)) == (if s[0] == '\\' {
            seq!['\\', '\\']
        } else {
            seq![s[0]]
        }) + esc_backslashes(s.drop_first().push(c)));
        lemma_esc_backslashes_snoc(s.drop_first(), c);
        assert(esc_backslashes(s.push(c)) =~= esc_backslashes(s) + (if c == '\\' {
            seq!['\\', '\\']
        } else {
            seq![c]
        }));
    }
}

/// Appends the backslash-escaped form of a string.
#[verifier::loop_isolation(false)]
fn push_esc_backslashes(out: &mut Vec<char>, s: &str)
    ensures
        final(out)@ == old(out)@ + esc_backslashes(s@),
{
    let cs = text::chars_of(s);
    let n: usize = cs.len();
    let mut i: usize = 0;
    proof {
        assert(s@.take(0) =~= Seq::<char>::empty());
        assert(out@ =~= old(out)@ + esc_backslashes(s@.take(0)));
    }
    while i < n
        invariant
            i <= n,
            n == s@.len(),
            cs@ == s@,
            out@ == old(out)@ + esc_backslashes(s@.take(i as int)),
        decreases n - i,
    {
        let c = cs[i];
        if c == '\\' {
            out.push('\\');
            out.push('\\');
        } else {
            out.push(c);
        }
        i = i + 1;
        proof {
            assert(s@.take(i as int) =~= s@.take(i - 1).push(s@[i - 1]));
            lemma_esc_backslashes_snoc(s@.take(i - 1), s@[i - 1]);
            assert(out@ =~= old(out)@ + esc_backslashes(s@.take(i as int)));
        }
    }
    proof {
        assert(s@.take(n as int) =~= s@);
    }
}

/// One quoted, escaped pattern line of the configuration.
pub open spec fn pattern_lines(ps: Seq<Seq<char>>) -> Seq<char>
    decreases ps.len(),
{
    if ps.len() == 0 {
        Seq::empty()
    } else {
        "    \""@ + esc_backslashes(ps[0]) + "\",\n"@ + pattern_lines(ps.drop_first())
    }
}

/// Appends the pattern lines.
#[verifier::loop_isolation(false)]
fn push_pattern_lines(out: &mut Vec<char>, ps: &Vec<String>)
    ensures
        final(out)@ == old(out)@ + pattern_lines(string_views(ps@)),
{
    let ghost pv = string_views(ps@);
    let n: usize = ps.len();
    let mut i: usize = 0;
    proof {
        assert(pv.skip(0) =~= pv);
        assert(out@ + pattern_lines(pv.skip(0)) =~= old(out)@ + pattern_lines(pv));
    }
    while i < n
        invariant
            i <= n,
            n == ps@.len(),
            out@ + pattern_lines(pv.skip(i as int)) == old(out)@ + pattern_lines(pv),
        decreases n - i,
    {
        proof {
            assert(pv.skip(i as int)[0] == pv[i as int]);
            assert(pv.skip(i as int).drop_first() =~= pv.skip(i + 1));
        }
        text::push_str_chars(out, "    \"");
        push_esc_backslashes(out, ps[i].as_str());
        text::push_str_chars(out, "\",\n");
        i = i + 1;
        proof {
            assert(out@ + pattern_lines(pv.skip(i as int)) =~= old(out)@ + pattern_lines(pv));
        }
    }
    proof {
        assert(pattern_lines(pv.skip(n as int)) =~= Seq::<char>::empty());
        assert(out@ =~= old(out)@ + pattern_lines(pv));
    }
}

/// The text of the initial configuration file: project identity, the
/// optional script, container and hint sections, the history section with
/// its pattern list, and the repository-scan defaults.
pub open spec fn init_config_spec(
    name: Seq<char>,
    ptype: Seq<char>,
    runtime: Seq<char>,
    entry: Seq<char>,
    cdir: Seq<char>,
    hint: Seq<char>,
    patterns: Seq<Seq<char>>,
) -> Seq<char> {
    "# ContextKeeper Configuration\n# https://github.com/sat0sh-dev/context-keeper\n\n[project]\nname = \""@
        + name + "\"\ntype = \""@ + ptype + "\"\n\n"@ + (if entry.len() > 0 {
        "[scripts]\nentry_point = \""@ + entry + "\"\n"@ + (if cdir.len() > 0 {
            "config_dir = \""@ + cdir + "\"\nconfig_pattern = \"*.conf\"\n"@
        } else {
            Seq::empty()
        }) + "\n"@
    } else {
        Seq::empty()
    }) + (if runtime != "none"@ {
        "[containers]\nruntime = \""@ + runtime + "\"\n\n"@
    } else {
        Seq::empty()
    }) + (if hint.len() > 0 {
        "[hints]\ndefault = \""@ + hint + "\"\n\n"@
    } else {
        Seq::empty()
    }) + "[history]\nenabled = true\npatterns = [\n"@ + pattern_lines(patterns)
        + "]\nmax_entries = 20\n\n[git]\nauto_detect = true\nscan_depth = 2\n"@
}

/// Renders the initial configuration file, as [`init_config_spec`] states.
#[verifier::rlimit(100)]
pub fn render_init_config(
    name: &str,
    ptype: &str,
    runtime: &str,
    entry: &str,
    cdir: &str,
    hint: &str,
    patterns: &Vec<String>,
) -> (r: String)
    ensures
        r@ == init_config_spec(name@, ptype@, runtime@, entry@, cdir@, hint@, string_views(
            patterns@,
        )),
{
    let mut out: Vec<char> = Vec::new();
    text::push_str_chars(
        &mut out,
        "# ContextKeeper Configuration\n# https://github.com/sat0sh-dev/context-keeper\n\n[project]\nname = \"",
    );
    text::push_str_chars(&mut out, name);
    text::push_str_chars(&mut out, "\"\ntype = \"");
    text::push_str_chars(&mut out, ptype);
    text::push_str_chars(&mut out, "\"\n\n");
    let ghost a1 = out@;
    if entry.unicode_len() > 0 {
        text::push_str_chars(&mut out, "[scripts]\nentry_point = \"");
        text::push_str_chars(&mut out, entry);
        text::push_str_chars(&mut out, "\"\n");
        if cdir.unicode_len() > 0 {
            text::push_str_chars(&mut out, "config_dir = \"");
            text::push_str_chars(&mut out, cdir);
            text::push_str_chars(&mut out, "\"\nconfig_pattern = \"*.conf\"\n");
        }
        text::push_str_chars(&mut out, "\n");
        proof {
            assert(out@ =~= a1 + ("[scripts]\nentry_point = \""@ + entry@ + "\"\n"@ + (
            if cdir@.len() > 0 {
                "config_dir = \""@ + cdir@ + "\"\nconfig_pattern = \"*.conf\"\n"@
            } else {
                Seq::<char>::empty()
            }) + "\n"@));
        }
    }
    let ghost a2 = out@;
    if !text::str_eq(runtime, "none") {
        text::push_str_chars(&mut out, "[containers]\nruntime = \"");
        text::push_str_chars(&mut out, runtime);
        text::push_str_chars(&mut out, "\"\n\n");
        proof {
            assert(out@ =~= a2 + ("[containers]\nruntime = \""@ + runtime@ + "\"\n\n"@));
        }
    }
    let ghost a3 = out@;
    if hint.unicode_len() > 0 {
        text::push_str_chars(&mut out, "[hints]\ndefault = \"");
        text::push_str_chars(&mut out, hint);
        text::push_str_chars(&mut out, "\"\n\n");
        proof {
            assert(out@ =~= a3 + ("[hints]\ndefault = \""@ + hint@ + "\"\n\n"@));
        }
    }
    text::push_str_chars(&mut out, "[history]\nenabled = true\npatterns = [\n");
    push_pattern_lines(&mut out, patterns);
    text::push_str_chars(&mut out, "]\nmax_entries = 20\n\n[git]\nauto_detect = true\nscan_depth = 2\n");
    proof {
        assert(out@ =~= init_config_spec(
            name@,
            ptype@,
            runtime@,
            entry@,
            cdir@,
            hint@,
            string_views(patterns@),
        ));
    }
    text::string_of(out)
}

} // verus!
