//! The three-tier renderer: one snapshot in, report text out.
//!
//! Each tier has a specification that states the produced text exactly, and
//! the executable renderers are proved to emit it.  An unrecognized level
//! falls back to the normal tier, never to an error.

use vstd::prelude::*;
use crate::context::AdbDevice;
use crate::context::BuildTarget;
use crate::context::ContainerInfo;
use crate::context::Context;
use crate::history::HistoryEntry;
use crate::repo::GitInfo;
use crate::text;
use crate::text::dec_digits;
use crate::workstate::TodoItem;
use crate::workstate::WorkState;
use vstd::string::StrSliceExecFns;

verus! {


/// Re-associates one appended pair onto a base text.
proof fn lemma_cat2(base: Seq<char>, x: Seq<char>, y: Seq<char>)
    ensures
        (base + x) + y == base + (x + y),
{
    vstd::seq_lib::lemma_concat_associative(base, x, y);
}

/// Re-associates three appended parts onto a base text.
proof fn lemma_cat3(base: Seq<char>, x: Seq<char>, y: Seq<char>, z: Seq<char>)
    ensures
        ((base + x) + y) + z == base + (x + y + z),
{
    vstd::seq_lib::lemma_concat_associative(base, x, y);
    vstd::seq_lib::lemma_concat_associative(base, x + y, z);
}

/// The compact status code of a repository: counts with M and U marks when
/// dirty, the word "clean" otherwise.
pub open spec fn git_status_code(g: GitInfo) -> Seq<char> {
    if g.is_dirty {
        if g.modified_files > 0 && g.untracked_files > 0 {
            dec_digits(g.modified_files as nat) + "M "@ + dec_digits(g.untracked_files as nat)
                + "U"@
        } else if g.modified_files > 0 {
            dec_digits(g.modified_files as nat) + "M"@
        } else {
            dec_digits(g.untracked_files as nat) + "U"@
        }
    } else {
        "clean"@
    }
}

/// Appends the compact status code of a repository.
pub fn push_git_status(out: &mut Vec<char>, g: &GitInfo)
    ensures
        final(out)@ == old(out)@ + git_status_code(*g),
{
    if g.is_dirty {
        if g.modified_files > 0 && g.untracked_files > 0 {
            let m = text::usize_to_chars(g.modified_files);
            text::push_chars(out, &m);
            text::push_str_chars(out, "M ");
            let u = text::usize_to_chars(g.untracked_files);
            text::push_chars(out, &u);
            text::push_str_chars(out, "U");
            proof {
                assert(out@ =~= old(out)@ + git_status_code(*g));
            }
        } else if g.modified_files > 0 {
            let m = text::usize_to_chars(g.modified_files);
            text::push_chars(out, &m);
            text::push_str_chars(out, "M");
            proof {
                assert(out@ =~= old(out)@ + git_status_code(*g));
            }
        } else {
            let u = text::usize_to_chars(g.untracked_files);
            text::push_chars(out, &u);
            text::push_str_chars(out, "U");
            proof {
                assert(out@ =~= old(out)@ + git_status_code(*g));
            }
        }
    } else {
        text::push_str_chars(out, "clean");
    }
}

/// The compact status code as a string.
pub fn format_git_status(g: &GitInfo) -> (r: String)
    ensures
        r@ == git_status_code(*g),
{
    let mut out: Vec<char> = Vec::new();
    push_git_status(&mut out, g);
    text::string_of(out)
}

/// A command as the report displays it: at most eighty visible characters,
/// longer ones cut to seventy-seven plus an ellipsis.
pub open spec fn cmd_display(c: Seq<char>) -> Seq<char> {
    if c.len() > 80 {
        c.take(77) + "..."@
    } else {
        c
    }
}

/// The text with every pipe escaped, so that it cannot break a table cell.
pub open spec fn esc_pipes(s: Seq<char>) -> Seq<char>
    decreases s.len(),
{
    if s.len() == 0 {
        Seq::empty()
    } else {
        (if s[0] == '|' {
            seq!['\\', '|']
        } else {
            seq![s[0]]
        }) + esc_pipes(s.drop_first())
    }
}

/// Appending one character extends the pipe-escaped form at the end.
proof fn lemma_esc_pipes_snoc(s: Seq<char>, c: char)
    ensures
        esc_pipes(s.push(c)) == esc_pipes(s) + (if c == '|' {
            seq!['\\', '|']
        } else {
            seq![c]
        }),
    decreases s.len(),
{
    if s.len() == 0 {
        assert(s.push(c)[0] == c);
        assert(s.push(c).drop_first() =~= Seq::<char>::empty());
        assert(esc_pipes(s.push(c)) == (if c == '|' {
            seq!['\\', '|']
        } else {
            seq![c]
        }) + esc_pipes(Seq::<char>::empty()));
        assert(esc_pipes(s.push(c)) =~= esc_pipes(s) + (if c == '|' {
            seq!['\\', '|']
        } else {
            seq![c]
        }));
    } else {
        assert(s.push(c)[0] == s[0]);
        assert(s.push(c).drop_first() =~= s.drop_first().push(c));
        assert(esc_pipes(s.push(c)) == (if s[0] == '|' {
            seq!['\\', '|']
        } else {
            seq![s[0]]
        }) + esc_pipes(s.drop_first().push(c)));
        lemma_esc_pipes_snoc(s.drop_first(), c);
        assert(esc_pipes(s.push(c)) =~= esc_pipes(s) + (if c == '|' {
            seq!['\\', '|']
        } else {
            seq![c]
        }));
    }
}

/// Appends the pipe-escaped form of the characters.
#[verifier::loop_isolation(false)]
pub fn push_piped(out: &mut Vec<char>, s: &Vec<char>)
    ensures
        final(out)@ == old(out)@ + esc_pipes(s@),
{
    let n: usize = s.len();
    let mut i: usize = 0;
    proof {
        assert(s@.take(0) =~= Seq::<char>::empty());
        assert(out@ =~= old(out)@ + esc_pipes(s@.take(0)));
    }
    while i < n
        invariant
            i <= n,
            n == s@.len(),
            out@ == old(out)@ + esc_pipes(s@.take(i as int)),
        decreases n - i,
    {
        let c = s[i];
        if c == '|' {
            out.push('\\');
            out.push('|');
        } else {
            out.push(c);
        }
        i = i + 1;
        proof {
            assert(s@.take(i as int) =~= s@.take(i - 1).push(s@[i - 1]));
            lemma_esc_pipes_snoc(s@.take(i - 1), s@[i - 1]);
            assert(out@ =~= old(out)@ + esc_pipes(s@.take(i as int)));
        }
    }
    proof {
        assert(s@.take(n as int) =~= s@);
    }
}

/// Appends a command as displayed: capped at eighty characters.
pub fn push_cmd_display(out: &mut Vec<char>, c: &str)
    ensures
        final(out)@ == old(out)@ + cmd_display(c@),
{
    let cs = text::chars_of(c);
    if cs.len() > 80 {
        let head = text::sub_chars(&cs, 0, 77);
        proof {
            assert(head@ =~= c@.take(77));
        }
        text::push_chars(out, &head);
        text::push_str_chars(out, "...");
        proof {
            assert(out@ =~= old(out)@ + cmd_display(c@));
        }
    } else {
        text::push_chars(out, &cs);
    }
}

/// The lines listing the working files of a saved state.
pub open spec fn ws_file_lines(fs: Seq<Seq<char>>) -> Seq<char>
    decreases fs.len(),
{
    if fs.len() == 0 {
        Seq::empty()
    } else {
        "  - "@ + fs[0] + "\n"@ + ws_file_lines(fs.drop_first())
    }
}

/// The checkbox that marks a todo's status.
pub open spec fn todo_checkbox(status: Seq<char>) -> Seq<char> {
    if status == "completed"@ {
        "[x]"@
    } else if status == "in_progress"@ {
        "[>]"@
    } else {
        "[ ]"@
    }
}

/// The lines listing the todos of a saved state.
pub open spec fn ws_todo_lines(ts: Seq<(Seq<char>, Seq<char>)>) -> Seq<char>
    decreases ts.len(),
{
    if ts.len() == 0 {
        Seq::empty()
    } else {
        "  - "@ + todo_checkbox(ts[0].1) + " "@ + ts[0].0 + "\n"@ + ws_todo_lines(ts.drop_first())
    }
}

/// The saved-work-state block of the normal and full tiers.
pub open spec fn ws_section(w: WorkState) -> Seq<char> {
    "## Saved Work State\n- **Saved at:** "@ + w.saved_at@ + "\n"@ + (if w.task_summary@.len()
        > 0 {
        "- **Task:** "@ + w.task_summary@ + "\n"@
    } else {
        Seq::empty()
    }) + (if w.working_files@.len() > 0 {
        "- **Working files:**\n"@ + ws_file_lines(crate::text::string_views(w.working_files@))
    } else {
        Seq::empty()
    }) + (if w.notes@.len() > 0 {
        "- **Notes:** "@ + w.notes@ + "\n"@
    } else {
        Seq::empty()
    }) + (if w.todos@.len() > 0 {
        "- **Todos:**\n"@ + ws_todo_lines(crate::workstate::todo_views(w.todos@))
    } else {
        Seq::empty()
    }) + "\n"@
}

/// Appends the working-file lines.
#[verifier::loop_isolation(false)]
fn push_ws_file_lines(out: &mut Vec<char>, fs: &Vec<String>)
    ensures
        final(out)@ == old(out)@ + ws_file_lines(crate::text::string_views(fs@)),
{
    let ghost fv = crate::text::string_views(fs@);
    let n: usize = fs.len();
    let mut i: usize = 0;
    proof {
        assert(fv.skip(0) =~= fv);
        assert(out@ + ws_file_lines(fv.skip(0)) =~= old(out)@ + ws_file_lines(fv));
    }
    while i < n
        invariant
            i <= n,
            n == fs@.len(),
            out@ + ws_file_lines(fv.skip(i as int)) == old(out)@ + ws_file_lines(fv),
        decreases n - i,
    {
        proof {
            assert(fv.skip(i as int)[0] == fv[i as int]);
            assert(fv.skip(i as int).drop_first() =~= fv.skip(i + 1));
        }
        text::push_str_chars(out, "  - ");
        text::push_str_chars(out, fs[i].as_str());
        text::push_str_chars(out, "\n");
        i = i + 1;
        proof {
            assert(out@ + ws_file_lines(fv.skip(i as int)) =~= old(out)@ + ws_file_lines(fv));
        }
    }
    proof {
        assert(ws_file_lines(fv.skip(n as int)) =~= Seq::<char>::empty());
        assert(out@ =~= old(out)@ + ws_file_lines(fv));
    }
}

/// Appends the todo lines.
#[verifier::loop_isolation(false)]
fn push_ws_todo_lines(out: &mut Vec<char>, ts: &Vec<TodoItem>)
    ensures
        final(out)@ == old(out)@ + ws_todo_lines(crate::workstate::todo_views(ts@)),
{
    let ghost tv = crate::workstate::todo_views(ts@);
    let n: usize = ts.len();
    let mut i: usize = 0;
    proof {
        assert(tv.skip(0) =~= tv);
        assert(out@ + ws_todo_lines(tv.skip(0)) =~= old(out)@ + ws_todo_lines(tv));
    }
    while i < n
        invariant
            i <= n,
            n == ts@.len(),
            out@ + ws_todo_lines(tv.skip(i as int)) == old(out)@ + ws_todo_lines(tv),
        decreases n - i,
    {
        proof {
            assert(tv.skip(i as int)[0] == tv[i as int]);
            assert(tv.skip(i as int).drop_first() =~= tv.skip(i + 1));
        }
        text::push_str_chars(out, "  - ");
        let status = &ts[i].status;
        if text::str_eq(status.as_str(), "completed") {
            text::push_str_chars(out, "[x]");
        } else if text::str_eq(status.as_str(), "in_progress") {
            text::push_str_chars(out, "[>]");
        } else {
            text::push_str_chars(out, "[ ]");
        }
        text::push_str_chars(out, " ");
        text::push_str_chars(out, ts[i].content.as_str());
        text::push_str_chars(out, "\n");
        i = i + 1;
        proof {
            assert(out@ + ws_todo_lines(tv.skip(i as int)) =~= old(out)@ + ws_todo_lines(tv));
        }
    }
    proof {
        assert(ws_todo_lines(tv.skip(n as int)) =~= Seq::<char>::empty());
        assert(out@ =~= old(out)@ + ws_todo_lines(tv));
    }
}

/// Appends the saved-work-state block.
#[verifier::rlimit(100)]
fn push_ws_section(out: &mut Vec<char>, w: &WorkState)
    ensures
        final(out)@ == old(out)@ + ws_section(*w),
{
    let ghost base = out@;
    text::push_str_chars(out, "## Saved Work State\n- **Saved at:** ");
    text::push_str_chars(out, w.saved_at.as_str());
    text::push_str_chars(out, "\n");
    proof {
        lemma_cat3(base, "## Saved Work State\n- **Saved at:** "@, w.saved_at@, "\n"@);
    }
    let ghost a1 = out@;
    let ghost p1 = "## Saved Work State\n- **Saved at:** "@ + w.saved_at@ + "\n"@;
    if w.task_summary.as_str().unicode_len() > 0 {
        text::push_str_chars(out, "- **Task:** ");
        text::push_str_chars(out, w.task_summary.as_str());
        text::push_str_chars(out, "\n");
        proof {
            lemma_cat3(a1, "- **Task:** "@, w.task_summary@, "\n"@);
        }
    } else {
        proof {
            Seq::add_empty_right(a1, Seq::<char>::empty());
        }
    }
    let ghost a2 = out@;
    let ghost p2 = if w.task_summary@.len() > 0 {
        "- **Task:** "@ + w.task_summary@ + "\n"@
    } else {
        Seq::<char>::empty()
    };
    if w.working_files.len() > 0 {
        text::push_str_chars(out, "- **Working files:**\n");
        push_ws_file_lines(out, &w.working_files);
        proof {
            lemma_cat2(
                a2,
                "- **Working files:**\n"@,
                ws_file_lines(crate::text::string_views(w.working_files@)),
            );
        }
    } else {
        proof {
            Seq::add_empty_right(a2, Seq::<char>::empty());
        }
    }
    let ghost a3 = out@;
    let ghost p3 = if w.working_files@.len() > 0 {
        "- **Working files:**\n"@ + ws_file_lines(crate::text::string_views(w.working_files@))
    } else {
        Seq::<char>::empty()
    };
    if w.notes.as_str().unicode_len() > 0 {
        text::push_str_chars(out, "- **Notes:** ");
        text::push_str_chars(out, w.notes.as_str());
        text::push_str_chars(out, "\n");
        proof {
            lemma_cat3(a3, "- **Notes:** "@, w.notes@, "\n"@);
        }
    } else {
        proof {
            Seq::add_empty_right(a3, Seq::<char>::empty());
        }
    }
    let ghost a4 = out@;
    let ghost p4 = if w.notes@.len() > 0 {
        "- **Notes:** "@ + w.notes@ + "\n"@
    } else {
        Seq::<char>::empty()
    };
    if w.todos.len() > 0 {
        text::push_str_chars(out, "- **Todos:**\n");
        push_ws_todo_lines(out, &w.todos);
        proof {
            lemma_cat2(a4, "- **Todos:**\n"@, ws_todo_lines(crate::workstate::todo_views(w.todos@)));
        }
    } else {
        proof {
            Seq::add_empty_right(a4, Seq::<char>::empty());
        }
    }
    let ghost a5 = out@;
    let ghost p5 = if w.todos@.len() > 0 {
        "- **Todos:**\n"@ + ws_todo_lines(crate::workstate::todo_views(w.todos@))
    } else {
        Seq::<char>::empty()
    };
    text::push_str_chars(out, "\n");
    proof {
        assert(a1 == base + p1);
        assert(a2 == a1 + p2);
        assert(a3 == a2 + p3);
        assert(a4 == a3 + p4);
        assert(a5 == a4 + p5);
        lemma_cat2(base, p1, p2);
        lemma_cat2(base, p1 + p2, p3);
        lemma_cat2(base, p1 + p2 + p3, p4);
        lemma_cat2(base, p1 + p2 + p3 + p4, p5);
        lemma_cat2(base, p1 + p2 + p3 + p4 + p5, "\n"@);
        assert(out@ == base + ws_section(*w));
    }
}

/// The path-and-status entries of the dirty repositories.
pub open spec fn dirty_pairs(rs: Seq<GitInfo>) -> Seq<(Seq<char>, Seq<char>)>
    decreases rs.len(),
{
    if rs.len() == 0 {
        Seq::empty()
    } else {
        let rest = dirty_pairs(rs.drop_first());
        if rs[0].is_dirty {
            seq![(rs[0].repo_path@, git_status_code(rs[0]))] + rest
        } else {
            rest
        }
    }
}

/// The dirty repositories joined as "path (status)" entries.
pub open spec fn dirty_join(ps: Seq<(Seq<char>, Seq<char>)>) -> Seq<char>
    decreases ps.len(),
{
    if ps.len() == 0 {
        Seq::empty()
    } else if ps.len() == 1 {
        ps[0].0 + " ("@ + ps[0].1 + ")"@
    } else {
        ps[0].0 + " ("@ + ps[0].1 + ")"@ + ", "@ + dirty_join(ps.drop_first())
    }
}

/// The files of a saved state joined with commas.
pub open spec fn comma_join(fs: Seq<Seq<char>>) -> Seq<char>
    decreases fs.len(),
{
    if fs.len() == 0 {
        Seq::empty()
    } else if fs.len() == 1 {
        fs[0]
    } else {
        fs[0] + ", "@ + comma_join(fs.drop_first())
    }
}

/// The work-state block of the minimal tier.
pub open spec fn minimal_ws(w: WorkState) -> Seq<char> {
    (if w.task_summary@.len() > 0 {
        "**Task:** "@ + w.task_summary@ + "\n"@
    } else {
        Seq::empty()
    }) + (if w.working_files@.len() > 0 {
        "**Files:** "@ + comma_join(crate::text::string_views(w.working_files@)) + "\n"@
    } else {
        Seq::empty()
    }) + (if w.notes@.len() > 0 {
        "**Notes:** "@ + w.notes@ + "\n"@
    } else {
        Seq::empty()
    }) + "\n"@
}

/// The minimal tier: the saved state, only the dirty repositories, the
/// first device, and a footer pointing at the richer levels.  Build
/// targets, containers, commands and history play no part here.
pub open spec fn minimal_spec(ctx: Context) -> Seq<char> {
    "# Context Recovery (Minimal)\n\n"@ + (match ctx.work_state {
        Some(w) => minimal_ws(w),
        None => Seq::empty(),
    }) + (if dirty_pairs(ctx.git_repos@).len() > 0 {
        "**Changed repos:** "@ + dirty_join(dirty_pairs(ctx.git_repos@)) + "\n"@
    } else {
        Seq::empty()
    }) + (if ctx.adb_devices@.len() > 0 {
        "**Device:** "@ + ctx.adb_devices@[0].serial@ + " ("@ + ctx.adb_devices@[0].device_type@
            + ")\n"@
    } else {
        Seq::empty()
    }) + "\n---\n*Run `get_dev_context` with level=\"normal\" or \"full\" for more details.*\n"@
}

/// Appends the comma-joined file list.
#[verifier::loop_isolation(false)]
fn push_comma_join(out: &mut Vec<char>, fs: &Vec<String>)
    ensures
        final(out)@ == old(out)@ + comma_join(crate::text::string_views(fs@)),
{
    let ghost fv = crate::text::string_views(fs@);
    let n: usize = fs.len();
    let mut i: usize = 0;
    proof {
        assert(fv.skip(0) =~= fv);
        assert(out@ + comma_join(fv.skip(0)) =~= old(out)@ + comma_join(fv));
    }
    while i < n
        invariant
            i <= n,
            n == fs@.len(),
            out@ + comma_join(fv.skip(i as int)) == old(out)@ + comma_join(fv),
        decreases n - i,
    {
        proof {
            assert(fv.skip(i as int)[0] == fv[i as int]);
            assert(fv.skip(i as int).drop_first() =~= fv.skip(i + 1));
            if i + 1 < n {
                assert(comma_join(fv.skip(i as int)) == fv[i as int] + ", "@ + comma_join(
                    fv.skip(i + 1),
                ));
            } else {
                assert(comma_join(fv.skip(i as int)) == fv[i as int]);
                assert(comma_join(fv.skip(i + 1)) =~= Seq::<char>::empty());
            }
        }
        text::push_str_chars(out, fs[i].as_str());
        if i + 1 < n {
            text::push_str_chars(out, ", ");
        }
        i = i + 1;
        proof {
            assert(out@ + comma_join(fv.skip(i as int)) =~= old(out)@ + comma_join(fv));
        }
    }
    proof {
        assert(comma_join(fv.skip(n as int)) =~= Seq::<char>::empty());
        assert(out@ =~= old(out)@ + comma_join(fv));
    }
}

/// The dirty repositories as owned path-and-status pairs.
#[verifier::loop_isolation(false)]
fn collect_dirty_pairs(rs: &Vec<GitInfo>) -> (r: Vec<(String, String)>)
    ensures
        r@.map_values(|p: (String, String)| (p.0@, p.1@)) == dirty_pairs(rs@),
{
    let ghost goal = dirty_pairs(rs@);
    let mut r: Vec<(String, String)> = Vec::new();
    let n: usize = rs.len();
    let mut i: usize = 0;
    proof {
        assert(rs@.skip(0) =~= rs@);
        assert(r@.map_values(|p: (String, String)| (p.0@, p.1@)) + dirty_pairs(rs@.skip(0))
            =~= goal);
    }
    while i < n
        invariant
            i <= n,
            n == rs@.len(),
            r@.map_values(|p: (String, String)| (p.0@, p.1@)) + dirty_pairs(rs@.skip(i as int))
                == goal,
        decreases n - i,
    {
        let ghost before = r@.map_values(|p: (String, String)| (p.0@, p.1@));
        let ghost t = rs@.skip(i as int);
        proof {
            assert(t[0] == rs@[i as int]);
            assert(t.drop_first() =~= rs@.skip(i + 1));
        }
        if rs[i].is_dirty {
            let path = rs[i].repo_path.clone();
            let code = format_git_status(&rs[i]);
            r.push((path, code));
            proof {
                assert(r@.map_values(|p: (String, String)| (p.0@, p.1@)) =~= before.push(
                    (rs@[i as int].repo_path@, git_status_code(rs@[i as int])),
                ));
                assert(r@.map_values(|p: (String, String)| (p.0@, p.1@)) + dirty_pairs(
                    rs@.skip(i + 1),
                ) =~= before + dirty_pairs(t));
            }
        }
        i = i + 1;
    }
    proof {
        assert(rs@.skip(n as int) =~= Seq::<GitInfo>::empty());
        assert(dirty_pairs(rs@.skip(n as int)) =~= Seq::<(Seq<char>, Seq<char>)>::empty());
        assert(r@.map_values(|p: (String, String)| (p.0@, p.1@)) + dirty_pairs(rs@.skip(n as int))
            =~= r@.map_values(|p: (String, String)| (p.0@, p.1@)));
    }
    r
}

/// Appends the joined dirty-repository entries.
#[verifier::loop_isolation(false)]
fn push_dirty_join(out: &mut Vec<char>, ps: &Vec<(String, String)>)
    ensures
        final(out)@ == old(out)@ + dirty_join(ps@.map_values(|p: (String, String)| (p.0@, p.1@))),
{
    let ghost pv = ps@.map_values(|p: (String, String)| (p.0@, p.1@));
    let n: usize = ps.len();
    let mut i: usize = 0;
    proof {
        assert(pv.skip(0) =~= pv);
        assert(out@ + dirty_join(pv.skip(0)) =~= old(out)@ + dirty_join(pv));
    }
    while i < n
        invariant
            i <= n,
            n == ps@.len(),
            out@ + dirty_join(pv.skip(i as int)) == old(out)@ + dirty_join(pv),
        decreases n - i,
    {
        proof {
            assert(pv.skip(i as int)[0] == pv[i as int]);
            assert(pv.skip(i as int).drop_first() =~= pv.skip(i + 1));
            if i + 1 < n {
                assert(dirty_join(pv.skip(i as int)) == pv[i as int].0 + " ("@ + pv[i as int].1
                    + ")"@ + ", "@ + dirty_join(pv.skip(i + 1)));
            } else {
                assert(dirty_join(pv.skip(i as int)) == pv[i as int].0 + " ("@ + pv[i as int].1
                    + ")"@);
                assert(dirty_join(pv.skip(i + 1)) =~= Seq::<char>::empty());
            }
        }
        text::push_str_chars(out, ps[i].0.as_str());
        text::push_str_chars(out, " (");
        text::push_str_chars(out, ps[i].1.as_str());
        text::push_str_chars(out, ")");
        if i + 1 < n {
            text::push_str_chars(out, ", ");
        }
        i = i + 1;
        proof {
            assert(out@ + dirty_join(pv.skip(i as int)) =~= old(out)@ + dirty_join(pv));
        }
    }
    proof {
        assert(dirty_join(pv.skip(n as int)) =~= Seq::<char>::empty());
        assert(out@ =~= old(out)@ + dirty_join(pv));
    }
}

/// Renders the minimal tier, as [`minimal_spec`] states.
#[verifier::rlimit(100)]
pub fn format_minimal(ctx: &Context) -> (r: String)
    ensures
        r@ == minimal_spec(*ctx),
{
    let mut out: Vec<char> = Vec::new();
    text::push_str_chars(&mut out, "# Context Recovery (Minimal)\n\n");
    match &ctx.work_state {
        Some(w) => {
            if w.task_summary.as_str().unicode_len() > 0 {
                text::push_str_chars(&mut out, "**Task:** ");
                text::push_str_chars(&mut out, w.task_summary.as_str());
                text::push_str_chars(&mut out, "\n");
            }
            if w.working_files.len() > 0 {
                text::push_str_chars(&mut out, "**Files:** ");
                push_comma_join(&mut out, &w.working_files);
                text::push_str_chars(&mut out, "\n");
            }
            if w.notes.as_str().unicode_len() > 0 {
                text::push_str_chars(&mut out, "**Notes:** ");
                text::push_str_chars(&mut out, w.notes.as_str());
                text::push_str_chars(&mut out, "\n");
            }
            text::push_str_chars(&mut out, "\n");
            proof {
                assert(out@ =~= "# Context Recovery (Minimal)\n\n"@ + minimal_ws(*w));
            }
        },
        None => {},
    }
    let ghost head = out@;
    let dirty = collect_dirty_pairs(&ctx.git_repos);
    if dirty.len() > 0 {
        text::push_str_chars(&mut out, "**Changed repos:** ");
        push_dirty_join(&mut out, &dirty);
        text::push_str_chars(&mut out, "\n");
        proof {
            assert(out@ =~= head + ("**Changed repos:** "@ + dirty_join(dirty_pairs(ctx.git_repos@))
                + "\n"@));
        }
    }
    let ghost head2 = out@;
    if ctx.adb_devices.len() > 0 {
        text::push_str_chars(&mut out, "**Device:** ");
        text::push_str_chars(&mut out, ctx.adb_devices[0].serial.as_str());
        text::push_str_chars(&mut out, " (");
        text::push_str_chars(&mut out, ctx.adb_devices[0].device_type.as_str());
        text::push_str_chars(&mut out, ")\n");
        proof {
            assert(out@ =~= head2 + ("**Device:** "@ + ctx.adb_devices@[0].serial@ + " ("@
                + ctx.adb_devices@[0].device_type@ + ")\n"@));
        }
    }
    text::push_str_chars(
        &mut out,
        "\n---\n*Run `get_dev_context` with level=\"normal\" or \"full\" for more details.*\n",
    );
    proof {
        assert(out@ =~= minimal_spec(*ctx));
    }
    text::string_of(out)
}

/// Whether the pair list of dirty repositories is non-empty exactly when
/// some repository is dirty.
pub proof fn lemma_dirty_pairs_nonempty(rs: Seq<GitInfo>)
    ensures
        (dirty_pairs(rs).len() > 0) == (exists|i: int| 0 <= i < rs.len() && rs[i].is_dirty),
    decreases rs.len(),
{
    if rs.len() > 0 {
        lemma_dirty_pairs_nonempty(rs.drop_first());
        if rs[0].is_dirty {
        } else {
            if exists|i: int| 0 <= i < rs.len() && rs[i].is_dirty {
                let i = choose|i: int| 0 <= i < rs.len() && rs[i].is_dirty;
                assert(rs.drop_first()[i - 1].is_dirty);
            }
            if dirty_pairs(rs).len() > 0 {
                let j = choose|j: int| 0 <= j < rs.drop_first().len() && rs.drop_first()[j].is_dirty;
                assert(rs[j + 1].is_dirty);
            }
        }
    }
}

/// Whether any repository is dirty.
#[verifier::loop_isolation(false)]
fn any_dirty(rs: &Vec<GitInfo>) -> (r: bool)
    ensures
        r == (dirty_pairs(rs@).len() > 0),
{
    proof {
        lemma_dirty_pairs_nonempty(rs@);
    }
    let n: usize = rs.len();
    let mut i: usize = 0;
    while i < n
        invariant
            i <= n,
            forall|k: int| 0 <= k < i ==> !rs@[k].is_dirty,
        decreases n - i,
    {
        if rs[i].is_dirty {
            return true;
        }
        i = i + 1;
    }
    false
}

/// The table rows of the dirty repositories in the normal tier.
pub open spec fn normal_repo_rows(rs: Seq<GitInfo>) -> Seq<char>
    decreases rs.len(),
{
    if rs.len() == 0 {
        Seq::empty()
    } else {
        let rest = normal_repo_rows(rs.drop_first());
        if rs[0].is_dirty {
            "| "@ + rs[0].repo_path@ + " | "@ + rs[0].branch@ + " | "@ + git_status_code(rs[0])
                + " |\n"@ + rest
        } else {
            rest
        }
    }
}

/// Appends the dirty-repository table rows of the normal tier.
#[verifier::loop_isolation(false)]
fn push_normal_repo_rows(out: &mut Vec<char>, rs: &Vec<GitInfo>)
    ensures
        final(out)@ == old(out)@ + normal_repo_rows(rs@),
{
    let n: usize = rs.len();
    let mut i: usize = 0;
    proof {
        assert(rs@.skip(0) =~= rs@);
        assert(out@ + normal_repo_rows(rs@.skip(0)) =~= old(out)@ + normal_repo_rows(rs@));
    }
    while i < n
        invariant
            i <= n,
            n == rs@.len(),
            out@ + normal_repo_rows(rs@.skip(i as int)) == old(out)@ + normal_repo_rows(rs@),
        decreases n - i,
    {
        proof {
            assert(rs@.skip(i as int)[0] == rs@[i as int]);
            assert(rs@.skip(i as int).drop_first() =~= rs@.skip(i + 1));
        }
        if rs[i].is_dirty {
            text::push_str_chars(out, "| ");
            text::push_str_chars(out, rs[i].repo_path.as_str());
            text::push_str_chars(out, " | ");
            text::push_str_chars(out, rs[i].branch.as_str());
            text::push_str_chars(out, " | ");
            push_git_status(out, &rs[i]);
            text::push_str_chars(out, " |\n");
        }
        i = i + 1;
        proof {
            assert(out@ + normal_repo_rows(rs@.skip(i as int)) =~= old(out)@ + normal_repo_rows(
                rs@,
            ));
        }
    }
    proof {
        assert(normal_repo_rows(rs@.skip(n as int)) =~= Seq::<char>::empty());
        assert(out@ =~= old(out)@ + normal_repo_rows(rs@));
    }
}

/// The container lines of the normal tier.
pub open spec fn normal_container_lines(cs: Seq<ContainerInfo>) -> Seq<char>
    decreases cs.len(),
{
    if cs.len() == 0 {
        Seq::empty()
    } else {
        "- "@ + cs[0].name@ + " ("@ + cs[0].status@ + ")\n"@ + normal_container_lines(
            cs.drop_first(),
        )
    }
}

/// Appends the container lines of the normal tier.
#[verifier::loop_isolation(false)]
fn push_normal_container_lines(out: &mut Vec<char>, cs: &Vec<ContainerInfo>)
    ensures
        final(out)@ == old(out)@ + normal_container_lines(cs@),
{
    let n: usize = cs.len();
    let mut i: usize = 0;
    proof {
        assert(cs@.skip(0) =~= cs@);
        assert(out@ + normal_container_lines(cs@.skip(0)) =~= old(out)@ + normal_container_lines(
            cs@,
        ));
    }
    while i < n
        invariant
            i <= n,
            n == cs@.len(),
            out@ + normal_container_lines(cs@.skip(i as int)) == old(out)@
                + normal_container_lines(cs@),
        decreases n - i,
    {
        proof {
            assert(cs@.skip(i as int)[0] == cs@[i as int]);
            assert(cs@.skip(i as int).drop_first() =~= cs@.skip(i + 1));
        }
        text::push_str_chars(out, "- ");
        text::push_str_chars(out, cs[i].name.as_str());
        text::push_str_chars(out, " (");
        text::push_str_chars(out, cs[i].status.as_str());
        text::push_str_chars(out, ")\n");
        i = i + 1;
        proof {
            assert(out@ + normal_container_lines(cs@.skip(i as int)) =~= old(out)@
                + normal_container_lines(cs@));
        }
    }
    proof {
        assert(normal_container_lines(cs@.skip(n as int)) =~= Seq::<char>::empty());
        assert(out@ =~= old(out)@ + normal_container_lines(cs@));
    }
}

/// The device lines of the normal tier.
pub open spec fn normal_device_lines(ds: Seq<AdbDevice>) -> Seq<char>
    decreases ds.len(),
{
    if ds.len() == 0 {
        Seq::empty()
    } else {
        "- "@ + ds[0].serial@ + " ("@ + ds[0].state@ + ", "@ + ds[0].device_type@ + ")\n"@
            + normal_device_lines(ds.drop_first())
    }
}

/// Appends the device lines of the normal tier.
#[verifier::loop_isolation(false)]
fn push_normal_device_lines(out: &mut Vec<char>, ds: &Vec<AdbDevice>)
    ensures
        final(out)@ == old(out)@ + normal_device_lines(ds@),
{
    let n: usize = ds.len();
    let mut i: usize = 0;
    proof {
        assert(ds@.skip(0) =~= ds@);
        assert(out@ + normal_device_lines(ds@.skip(0)) =~= old(out)@ + normal_device_lines(ds@));
    }
    while i < n
        invariant
            i <= n,
            n == ds@.len(),
            out@ + normal_device_lines(ds@.skip(i as int)) == old(out)@ + normal_device_lines(ds@),
        decreases n - i,
    {
        proof {
            assert(ds@.skip(i as int)[0] == ds@[i as int]);
            assert(ds@.skip(i as int).drop_first() =~= ds@.skip(i + 1));
        }
        text::push_str_chars(out, "- ");
        text::push_str_chars(out, ds[i].serial.as_str());
        text::push_str_chars(out, " (");
        text::push_str_chars(out, ds[i].state.as_str());
        text::push_str_chars(out, ", ");
        text::push_str_chars(out, ds[i].device_type.as_str());
        text::push_str_chars(out, ")\n");
        i = i + 1;
        proof {
            assert(out@ + normal_device_lines(ds@.skip(i as int)) =~= old(out)@
                + normal_device_lines(ds@));
        }
    }
    proof {
        assert(normal_device_lines(ds@.skip(n as int)) =~= Seq::<char>::empty());
        assert(out@ =~= old(out)@ + normal_device_lines(ds@));
    }
}

/// The normal tier: the full work-state block, the hint, only the dirty
/// repositories as a table, the containers, every device, and a footer
/// pointing at the full level.
pub open spec fn normal_spec(ctx: Context) -> Seq<char> {
    "# Development Context\n\n"@ + (match ctx.work_state {
        Some(w) => ws_section(w),
        None => Seq::empty(),
    }) + (if ctx.hints@.len() > 0 {
        "## AI Hints\n> "@ + ctx.hints@ + "\n\n"@
    } else {
        Seq::empty()
    }) + (if dirty_pairs(ctx.git_repos@).len() > 0 {
        "## Git Status (changes only)\n\n| Repository | Branch | Status |\n|------------|--------|--------|\n"@
            + normal_repo_rows(ctx.git_repos@) + "\n"@
    } else {
        Seq::empty()
    }) + (if ctx.containers@.len() > 0 {
        "## Active Containers\n"@ + normal_container_lines(ctx.containers@) + "\n"@
    } else {
        Seq::empty()
    }) + (if ctx.adb_devices@.len() > 0 {
        "## Connected Devices\n"@ + normal_device_lines(ctx.adb_devices@) + "\n"@
    } else {
        Seq::empty()
    }) + "---\n*Run `get_dev_context` with level=\"full\" for complete information.*\n"@
}

/// Renders the normal tier, as [`normal_spec`] states.
#[verifier::rlimit(100)]
pub fn format_normal(ctx: &Context) -> (r: String)
    ensures
        r@ == normal_spec(*ctx),
{
    let mut out: Vec<char> = Vec::new();
    text::push_str_chars(&mut out, "# Development Context\n\n");
    match &ctx.work_state {
        Some(w) => {
            push_ws_section(&mut out, w);
        },
        None => {},
    }
    let ghost w1 = out@;
    if ctx.hints.as_str().unicode_len() > 0 {
        text::push_str_chars(&mut out, "## AI Hints\n> ");
        text::push_str_chars(&mut out, ctx.hints.as_str());
        text::push_str_chars(&mut out, "\n\n");
        proof {
            assert(out@ =~= w1 + ("## AI Hints\n> "@ + ctx.hints@ + "\n\n"@));
        }
    }
    let ghost w2 = out@;
    if any_dirty(&ctx.git_repos) {
        text::push_str_chars(
            &mut out,
            "## Git Status (changes only)\n\n| Repository | Branch | Status |\n|------------|--------|--------|\n",
        );
        push_normal_repo_rows(&mut out, &ctx.git_repos);
        text::push_str_chars(&mut out, "\n");
        proof {
            assert(out@ =~= w2 + (
            "## Git Status (changes only)\n\n| Repository | Branch | Status |\n|------------|--------|--------|\n"@
                + normal_repo_rows(ctx.git_repos@) + "\n"@));
        }
    }
    let ghost w3 = out@;
    if ctx.containers.len() > 0 {
        text::push_str_chars(&mut out, "## Active Containers\n");
        push_normal_container_lines(&mut out, &ctx.containers);
        text::push_str_chars(&mut out, "\n");
        proof {
            assert(out@ =~= w3 + ("## Active Containers\n"@ + normal_container_lines(
                ctx.containers@,
            ) + "\n"@));
        }
    }
    let ghost w4 = out@;
    if ctx.adb_devices.len() > 0 {
        text::push_str_chars(&mut out, "## Connected Devices\n");
        push_normal_device_lines(&mut out, &ctx.adb_devices);
        text::push_str_chars(&mut out, "\n");
        proof {
            assert(out@ =~= w4 + ("## Connected Devices\n"@ + normal_device_lines(ctx.adb_devices@)
                + "\n"@));
        }
    }
    text::push_str_chars(
        &mut out,
        "---\n*Run `get_dev_context` with level=\"full\" for complete information.*\n",
    );
    proof {
        assert(out@ =~= normal_spec(*ctx));
    }
    text::string_of(out)
}

/// The build-target table rows of the full tier.
pub open spec fn target_rows(ts: Seq<BuildTarget>) -> Seq<char>
    decreases ts.len(),
{
    if ts.len() == 0 {
        Seq::empty()
    } else {
        "| "@ + ts[0].name@ + " | "@ + ts[0].description@ + " | "@ + ts[0].container_name@ + " | "@
            + ts[0].lunch_target@ + " |\n"@ + target_rows(ts.drop_first())
    }
}

/// The capability list of one target.
pub open spec fn caps_of(t: BuildTarget) -> Seq<Seq<char>> {
    (if t.can_emulator {
        seq!["emulator"@]
    } else {
        Seq::empty()
    }) + (if t.can_flash {
        seq!["flash"@]
    } else {
        Seq::empty()
    })
}

/// The capability lines of the full tier: one line per target that has any.
pub open spec fn cap_lines(ts: Seq<BuildTarget>) -> Seq<char>
    decreases ts.len(),
{
    if ts.len() == 0 {
        Seq::empty()
    } else {
        let rest = cap_lines(ts.drop_first());
        if caps_of(ts[0]).len() > 0 {
            "- **"@ + ts[0].name@ + ":** "@ + comma_join(caps_of(ts[0])) + "\n"@ + rest
        } else {
            rest
        }
    }
}

/// Appends the build-target table rows.
#[verifier::loop_isolation(false)]
fn push_target_rows(out: &mut Vec<char>, ts: &Vec<BuildTarget>)
    ensures
        final(out)@ == old(out)@ + target_rows(ts@),
{
    let n: usize = ts.len();
    let mut i: usize = 0;
    proof {
        assert(ts@.skip(0) =~= ts@);
        assert(out@ + target_rows(ts@.skip(0)) =~= old(out)@ + target_rows(ts@));
    }
    while i < n
        invariant
            i <= n,
            n == ts@.len(),
            out@ + target_rows(ts@.skip(i as int)) == old(out)@ + target_rows(ts@),
        decreases n - i,
    {
        proof {
            assert(ts@.skip(i as int)[0] == ts@[i as int]);
            assert(ts@.skip(i as int).drop_first() =~= ts@.skip(i + 1));
        }
        text::push_str_chars(out, "| ");
        text::push_str_chars(out, ts[i].name.as_str());
        text::push_str_chars(out, " | ");
        text::push_str_chars(out, ts[i].description.as_str());
        text::push_str_chars(out, " | ");
        text::push_str_chars(out, ts[i].container_name.as_str());
        text::push_str_chars(out, " | ");
        text::push_str_chars(out, ts[i].lunch_target.as_str());
        text::push_str_chars(out, " |\n");
        i = i + 1;
        proof {
            assert(out@ + target_rows(ts@.skip(i as int)) =~= old(out)@ + target_rows(ts@));
        }
    }
    proof {
        assert(target_rows(ts@.skip(n as int)) =~= Seq::<char>::empty());
        assert(out@ =~= old(out)@ + target_rows(ts@));
    }
}

/// Appends the capability lines.
#[verifier::loop_isolation(false)]
#[verifier::rlimit(100)]
fn push_cap_lines(out: &mut Vec<char>, ts: &Vec<BuildTarget>)
    ensures
        final(out)@ == old(out)@ + cap_lines(ts@),
{
    let n: usize = ts.len();
    let mut i: usize = 0;
    proof {
        assert(ts@.skip(0) =~= ts@);
        assert(out@ + cap_lines(ts@.skip(0)) =~= old(out)@ + cap_lines(ts@));
    }
    while i < n
        invariant
            i <= n,
            n == ts@.len(),
            out@ + cap_lines(ts@.skip(i as int)) == old(out)@ + cap_lines(ts@),
        decreases n - i,
    {
        let ghost t = ts@[i as int];
        proof {
            assert(ts@.skip(i as int)[0] == t);
            assert(ts@.skip(i as int).drop_first() =~= ts@.skip(i + 1));
        }
        let e = ts[i].can_emulator;
        let f = ts[i].can_flash;
        if e || f {
            text::push_str_chars(out, "- **");
            text::push_str_chars(out, ts[i].name.as_str());
            text::push_str_chars(out, ":** ");
            if e && f {
                text::push_str_chars(out, "emulator, flash");
                proof {
                    assert(caps_of(t) =~= seq!["emulator"@, "flash"@]);
                    assert(caps_of(t).drop_first() =~= seq!["flash"@]);
                    assert(comma_join(seq!["flash"@]) =~= "flash"@);
                    assert(comma_join(caps_of(t)) =~= "emulator"@ + ", "@ + "flash"@);
                    reveal_strlit("emulator, flash");
                    reveal_strlit("emulator");
                    reveal_strlit(", ");
                    reveal_strlit("flash");
                    assert("emulator, flash"@ =~= "emulator"@ + ", "@ + "flash"@);
                }
            } else if e {
                text::push_str_chars(out, "emulator");
                proof {
                    assert(caps_of(t) =~= seq!["emulator"@]);
                    assert(comma_join(caps_of(t)) =~= "emulator"@);
                }
            } else {
                text::push_str_chars(out, "flash");
                proof {
                    assert(caps_of(t) =~= seq!["flash"@]);
                    assert(comma_join(caps_of(t)) =~= "flash"@);
                }
            }
            text::push_str_chars(out, "\n");
        } else {
            proof {
                assert(caps_of(t) =~= Seq::<Seq<char>>::empty());
            }
        }
        i = i + 1;
        proof {
            assert(out@ + cap_lines(ts@.skip(i as int)) =~= old(out)@ + cap_lines(ts@));
        }
    }
    proof {
        assert(cap_lines(ts@.skip(n as int)) =~= Seq::<char>::empty());
        assert(out@ =~= old(out)@ + cap_lines(ts@));
    }
}

/// The container lines of the full tier.
pub open spec fn full_container_lines(cs: Seq<ContainerInfo>) -> Seq<char>
    decreases cs.len(),
{
    if cs.len() == 0 {
        Seq::empty()
    } else {
        "- **"@ + cs[0].name@ + "** ("@ + cs[0].runtime@ + "): "@ + cs[0].status@ + "\n"@
            + full_container_lines(cs.drop_first())
    }
}

/// Appends the container lines of the full tier.
#[verifier::loop_isolation(false)]
fn push_full_container_lines(out: &mut Vec<char>, cs: &Vec<ContainerInfo>)
    ensures
        final(out)@ == old(out)@ + full_container_lines(cs@),
{
    let n: usize = cs.len();
    let mut i: usize = 0;
    proof {
        assert(cs@.skip(0) =~= cs@);
        assert(out@ + full_container_lines(cs@.skip(0)) =~= old(out)@ + full_container_lines(cs@));
    }
    while i < n
        invariant
            i <= n,
            n == cs@.len(),
            out@ + full_container_lines(cs@.skip(i as int)) == old(out)@ + full_container_lines(
                cs@,
            ),
        decreases n - i,
    {
        proof {
            assert(cs@.skip(i as int)[0] == cs@[i as int]);
            assert(cs@.skip(i as int).drop_first() =~= cs@.skip(i + 1));
        }
        text::push_str_chars(out, "- **");
        text::push_str_chars(out, cs[i].name.as_str());
        text::push_str_chars(out, "** (");
        text::push_str_chars(out, cs[i].runtime.as_str());
        text::push_str_chars(out, "): ");
        text::push_str_chars(out, cs[i].status.as_str());
        text::push_str_chars(out, "\n");
        i = i + 1;
        proof {
            assert(out@ + full_container_lines(cs@.skip(i as int)) =~= old(out)@
                + full_container_lines(cs@));
        }
    }
    proof {
        assert(full_container_lines(cs@.skip(n as int)) =~= Seq::<char>::empty());
        assert(out@ =~= old(out)@ + full_container_lines(cs@));
    }
}

/// The example-command lines of the full tier.
pub open spec fn command_lines(cs: Seq<Seq<char>>) -> Seq<char>
    decreases cs.len(),
{
    if cs.len() == 0 {
        Seq::empty()
    } else {
        cs[0] + "\n"@ + command_lines(cs.drop_first())
    }
}

/// Appends the example-command lines.
#[verifier::loop_isolation(false)]
fn push_command_lines(out: &mut Vec<char>, cs: &Vec<String>)
    ensures
        final(out)@ == old(out)@ + command_lines(crate::text::string_views(cs@)),
{
    let ghost cv = crate::text::string_views(cs@);
    let n: usize = cs.len();
    let mut i: usize = 0;
    proof {
        assert(cv.skip(0) =~= cv);
        assert(out@ + command_lines(cv.skip(0)) =~= old(out)@ + command_lines(cv));
    }
    while i < n
        invariant
            i <= n,
            n == cs@.len(),
            out@ + command_lines(cv.skip(i as int)) == old(out)@ + command_lines(cv),
        decreases n - i,
    {
        proof {
            assert(cv.skip(i as int)[0] == cv[i as int]);
            assert(cv.skip(i as int).drop_first() =~= cv.skip(i + 1));
        }
        text::push_str_chars(out, cs[i].as_str());
        text::push_str_chars(out, "\n");
        i = i + 1;
        proof {
            assert(out@ + command_lines(cv.skip(i as int)) =~= old(out)@ + command_lines(cv));
        }
    }
    proof {
        assert(command_lines(cv.skip(n as int)) =~= Seq::<char>::empty());
        assert(out@ =~= old(out)@ + command_lines(cv));
    }
}

/// The history table rows of the full tier: the command capped at eighty
/// characters and its pipes escaped, so that it cannot break the table.
pub open spec fn history_rows(es: Seq<(Seq<char>, Seq<char>)>) -> Seq<char>
    decreases es.len(),
{
    if es.len() == 0 {
        Seq::empty()
    } else {
        "| "@ + es[0].0 + " | `"@ + esc_pipes(cmd_display(es[0].1)) + "` |\n"@ + history_rows(
            es.drop_first(),
        )
    }
}

/// Appends the history table rows.
#[verifier::loop_isolation(false)]
fn push_history_rows(out: &mut Vec<char>, es: &Vec<HistoryEntry>)
    ensures
        final(out)@ == old(out)@ + history_rows(crate::history::entry_views(es@)),
{
    let ghost ev = crate::history::entry_views(es@);
    let n: usize = es.len();
    let mut i: usize = 0;
    proof {
        assert(ev.skip(0) =~= ev);
        assert(out@ + history_rows(ev.skip(0)) =~= old(out)@ + history_rows(ev));
    }
    while i < n
        invariant
            i <= n,
            n == es@.len(),
            out@ + history_rows(ev.skip(i as int)) == old(out)@ + history_rows(ev),
        decreases n - i,
    {
        proof {
            assert(ev.skip(i as int)[0] == ev[i as int]);
            assert(ev.skip(i as int).drop_first() =~= ev.skip(i + 1));
        }
        text::push_str_chars(out, "| ");
        text::push_str_chars(out, es[i].timestamp.as_str());
        text::push_str_chars(out, " | `");
        let mut shown: Vec<char> = Vec::new();
        push_cmd_display(&mut shown, es[i].command.as_str());
        push_piped(out, &shown);
        text::push_str_chars(out, "` |\n");
        i = i + 1;
        proof {
            assert(out@ + history_rows(ev.skip(i as int)) =~= old(out)@ + history_rows(ev));
        }
    }
    proof {
        assert(history_rows(ev.skip(n as int)) =~= Seq::<char>::empty());
        assert(out@ =~= old(out)@ + history_rows(ev));
    }
}

/// The repository table rows of the full tier: every repository, dirty or
/// not, the commit summary's pipes escaped.
pub open spec fn full_repo_rows(rs: Seq<GitInfo>) -> Seq<char>
    decreases rs.len(),
{
    if rs.len() == 0 {
        Seq::empty()
    } else {
        "| "@ + rs[0].repo_path@ + " | "@ + rs[0].branch@ + " | "@ + git_status_code(rs[0]) + " | "@
            + esc_pipes(rs[0].last_commit_short@) + " |\n"@ + full_repo_rows(rs.drop_first())
    }
}

/// Appends the repository table rows of the full tier.
#[verifier::loop_isolation(false)]
fn push_full_repo_rows(out: &mut Vec<char>, rs: &Vec<GitInfo>)
    ensures
        final(out)@ == old(out)@ + full_repo_rows(rs@),
{
    let n: usize = rs.len();
    let mut i: usize = 0;
    proof {
        assert(rs@.skip(0) =~= rs@);
        assert(out@ + full_repo_rows(rs@.skip(0)) =~= old(out)@ + full_repo_rows(rs@));
    }
    while i < n
        invariant
            i <= n,
            n == rs@.len(),
            out@ + full_repo_rows(rs@.skip(i as int)) == old(out)@ + full_repo_rows(rs@),
        decreases n - i,
    {
        proof {
            assert(rs@.skip(i as int)[0] == rs@[i as int]);
            assert(rs@.skip(i as int).drop_first() =~= rs@.skip(i + 1));
        }
        text::push_str_chars(out, "| ");
        text::push_str_chars(out, rs[i].repo_path.as_str());
        text::push_str_chars(out, " | ");
        text::push_str_chars(out, rs[i].branch.as_str());
        text::push_str_chars(out, " | ");
        push_git_status(out, &rs[i]);
        text::push_str_chars(out, " | ");
        let commit = text::chars_of(rs[i].last_commit_short.as_str());
        push_piped(out, &commit);
        text::push_str_chars(out, " |\n");
        i = i + 1;
        proof {
            assert(out@ + full_repo_rows(rs@.skip(i as int)) =~= old(out)@ + full_repo_rows(rs@));
        }
    }
    proof {
        assert(full_repo_rows(rs@.skip(n as int)) =~= Seq::<char>::empty());
        assert(out@ =~= old(out)@ + full_repo_rows(rs@));
    }
}

/// The device table rows of the full tier.
pub open spec fn full_device_rows(ds: Seq<AdbDevice>) -> Seq<char>
    decreases ds.len(),
{
    if ds.len() == 0 {
        Seq::empty()
    } else {
        "| "@ + ds[0].serial@ + " | "@ + ds[0].state@ + " | "@ + ds[0].device_type@ + " |\n"@
            + full_device_rows(ds.drop_first())
    }
}

/// Appends the device table rows of the full tier.
#[verifier::loop_isolation(false)]
fn push_full_device_rows(out: &mut Vec<char>, ds: &Vec<AdbDevice>)
    ensures
        final(out)@ == old(out)@ + full_device_rows(ds@),
{
    let n: usize = ds.len();
    let mut i: usize = 0;
    proof {
        assert(ds@.skip(0) =~= ds@);
        assert(out@ + full_device_rows(ds@.skip(0)) =~= old(out)@ + full_device_rows(ds@));
    }
    while i < n
        invariant
            i <= n,
            n == ds@.len(),
            out@ + full_device_rows(ds@.skip(i as int)) == old(out)@ + full_device_rows(ds@),
        decreases n - i,
    {
        proof {
            assert(ds@.skip(i as int)[0] == ds@[i as int]);
            assert(ds@.skip(i as int).drop_first() =~= ds@.skip(i + 1));
        }
        text::push_str_chars(out, "| ");
        text::push_str_chars(out, ds[i].serial.as_str());
        text::push_str_chars(out, " | ");
        text::push_str_chars(out, ds[i].state.as_str());
        text::push_str_chars(out, " | ");
        text::push_str_chars(out, ds[i].device_type.as_str());
        text::push_str_chars(out, " |\n");
        i = i + 1;
        proof {
            assert(out@ + full_device_rows(ds@.skip(i as int)) =~= old(out)@ + full_device_rows(
                ds@,
            ));
        }
    }
    proof {
        assert(full_device_rows(ds@.skip(n as int)) =~= Seq::<char>::empty());
        assert(out@ =~= old(out)@ + full_device_rows(ds@));
    }
}

/// The build-target section of the full tier: the table and the capability
/// list, present exactly when at least one target exists.
pub open spec fn targets_section(ts: Seq<BuildTarget>) -> Seq<char> {
    if ts.len() > 0 {
        "## Available Build Targets\n\n"@
            + "| Target | Description | Container | Lunch Target |\n|--------|-------------|-----------|---------------|\n"@
            + target_rows(ts) + "\n"@ + "### Target Capabilities\n"@ + cap_lines(ts) + "\n"@
    } else {
        Seq::empty()
    }
}

/// The leading half of the full tier: project identity, work state, hints
/// and the build-target section.
pub open spec fn full_head_spec(ctx: Context) -> Seq<char> {
    "# Development Context (Full)\n\n"@ + (if ctx.project_name@.len() > 0 {
        "## Project\n- **Name:** "@ + ctx.project_name@ + "\n"@ + (if ctx.project_type@.len() > 0 {
            "- **Type:** "@ + ctx.project_type@ + "\n"@
        } else {
            Seq::empty()
        }) + "\n"@
    } else {
        Seq::empty()
    }) + (match ctx.work_state {
        Some(w) => ws_section(w),
        None => Seq::empty(),
    }) + (if ctx.hints@.len() > 0 {
        "## AI Hints (Important)\n> "@ + ctx.hints@ + "\n\n"@
    } else {
        Seq::empty()
    }) + targets_section(ctx.targets@)
}

/// The full tier: every section — project identity, work state, hints, all
/// build targets with capabilities, containers, example commands, the
/// history table, every repository, and every device.
pub open spec fn full_spec(ctx: Context) -> Seq<char> {
    full_head_spec(ctx) + (if ctx.containers@.len() > 0 {
        "## Active Containers\n"@ + full_container_lines(ctx.containers@) + "\n"@
    } else {
        Seq::empty()
    }) + (if ctx.available_commands@.len() > 0 {
        "## Example Commands\n```bash\n"@ + command_lines(
            crate::text::string_views(ctx.available_commands@),
        ) + "```\n"@
    } else {
        Seq::empty()
    }) + (if ctx.command_history@.len() > 0 {
        "## Recent Relevant Commands\nThese commands were executed in previous sessions (useful after context compression):\n\n| Time | Command |\n|------|--------|\n"@
            + history_rows(crate::history::entry_views(ctx.command_history@)) + "\n"@
    } else {
        Seq::empty()
    }) + (if ctx.git_repos@.len() > 0 {
        "## Git Status\n\n| Repository | Branch | Status | Last Commit |\n|------------|--------|--------|-------------|\n"@
            + full_repo_rows(ctx.git_repos@) + "\n"@
    } else {
        Seq::empty()
    }) + (if ctx.adb_devices@.len() > 0 {
        "## Connected Devices\n| Serial | State | Type |\n|--------|-------|------|\n"@
            + full_device_rows(ctx.adb_devices@) + "\n"@
    } else {
        Seq::empty()
    })
}

/// Renders the leading half of the full tier.
#[verifier::rlimit(100)]
fn format_full_head(ctx: &Context) -> (out: Vec<char>)
    ensures
        out@ == full_head_spec(*ctx),
{
    let mut out: Vec<char> = Vec::new();
    text::push_str_chars(&mut out, "# Development Context (Full)\n\n");
    if ctx.project_name.as_str().unicode_len() > 0 {
        let ghost p0 = out@;
        text::push_str_chars(&mut out, "## Project\n- **Name:** ");
        text::push_str_chars(&mut out, ctx.project_name.as_str());
        text::push_str_chars(&mut out, "\n");
        if ctx.project_type.as_str().unicode_len() > 0 {
            text::push_str_chars(&mut out, "- **Type:** ");
            text::push_str_chars(&mut out, ctx.project_type.as_str());
            text::push_str_chars(&mut out, "\n");
        }
        text::push_str_chars(&mut out, "\n");
        proof {
            assert(out@ =~= p0 + ("## Project\n- **Name:** "@ + ctx.project_name@ + "\n"@ + (
            if ctx.project_type@.len() > 0 {
                "- **Type:** "@ + ctx.project_type@ + "\n"@
            } else {
                Seq::<char>::empty()
            }) + "\n"@));
        }
    } else {
        proof {
            assert(out@ =~= out@ + Seq::<char>::empty());
        }
    }
    let ghost w0 = out@;
    match &ctx.work_state {
        Some(w) => {
            push_ws_section(&mut out, w);
        },
        None => {
            proof {
                assert(out@ =~= w0 + Seq::<char>::empty());
            }
        },
    }
    let ghost w1 = out@;
    if ctx.hints.as_str().unicode_len() > 0 {
        text::push_str_chars(&mut out, "## AI Hints (Important)\n> ");
        text::push_str_chars(&mut out, ctx.hints.as_str());
        text::push_str_chars(&mut out, "\n\n");
        proof {
            assert(out@ =~= w1 + ("## AI Hints (Important)\n> "@ + ctx.hints@ + "\n\n"@));
        }
    } else {
        proof {
            assert(out@ =~= w1 + Seq::<char>::empty());
        }
    }
    let ghost w2 = out@;
    if ctx.targets.len() > 0 {
        text::push_str_chars(&mut out, "## Available Build Targets\n\n");
        text::push_str_chars(
            &mut out,
            "| Target | Description | Container | Lunch Target |\n|--------|-------------|-----------|---------------|\n",
        );
        push_target_rows(&mut out, &ctx.targets);
        text::push_str_chars(&mut out, "\n");
        text::push_str_chars(&mut out, "### Target Capabilities\n");
        push_cap_lines(&mut out, &ctx.targets);
        text::push_str_chars(&mut out, "\n");
        proof {
            assert(out@ =~= w2 + targets_section(ctx.targets@));
        }
    } else {
        proof {
            assert(targets_section(ctx.targets@) =~= Seq::<char>::empty());
            assert(out@ =~= w2 + targets_section(ctx.targets@));
        }
    }
    proof {
        assert(out@ == full_head_spec(*ctx));
    }
    out
}

/// Renders the full tier, as [`full_spec`] states.
#[verifier::rlimit(100)]
pub fn format_full(ctx: &Context) -> (r: String)
    ensures
        r@ == full_spec(*ctx),
{
    let mut out = format_full_head(ctx);
    let ghost w3 = out@;
    if ctx.containers.len() > 0 {
        text::push_str_chars(&mut out, "## Active Containers\n");
        push_full_container_lines(&mut out, &ctx.containers);
        text::push_str_chars(&mut out, "\n");
        proof {
            lemma_cat3(w3, "## Active Containers\n"@, full_container_lines(ctx.containers@), "\n"@);
        }
    } else {
        proof {
            Seq::add_empty_right(w3, Seq::<char>::empty());
        }
    }
    let ghost w4 = out@;
    let ghost p6 = if ctx.containers@.len() > 0 {
        "## Active Containers\n"@ + full_container_lines(ctx.containers@) + "\n"@
    } else {
        Seq::<char>::empty()
    };
    if ctx.available_commands.len() > 0 {
        text::push_str_chars(&mut out, "## Example Commands\n```bash\n");
        push_command_lines(&mut out, &ctx.available_commands);
        text::push_str_chars(&mut out, "```\n");
        proof {
            lemma_cat3(
                w4,
                "## Example Commands\n```bash\n"@,
                command_lines(crate::text::string_views(ctx.available_commands@)),
                "```\n"@,
            );
        }
    } else {
        proof {
            Seq::add_empty_right(w4, Seq::<char>::empty());
        }
    }
    let ghost w5 = out@;
    let ghost p7 = if ctx.available_commands@.len() > 0 {
        "## Example Commands\n```bash\n"@ + command_lines(
            crate::text::string_views(ctx.available_commands@),
        ) + "```\n"@
    } else {
        Seq::<char>::empty()
    };
    if ctx.command_history.len() > 0 {
        text::push_str_chars(
            &mut out,
            "## Recent Relevant Commands\nThese commands were executed in previous sessions (useful after context compression):\n\n| Time | Command |\n|------|--------|\n",
        );
        push_history_rows(&mut out, &ctx.command_history);
        text::push_str_chars(&mut out, "\n");
        proof {
            lemma_cat3(
                w5,
                "## Recent Relevant Commands\nThese commands were executed in previous sessions (useful after context compression):\n\n| Time | Command |\n|------|--------|\n"@,
                history_rows(crate::history::entry_views(ctx.command_history@)),
                "\n"@,
            );
        }
    } else {
        proof {
            Seq::add_empty_right(w5, Seq::<char>::empty());
        }
    }
    let ghost w6 = out@;
    let ghost p8 = if ctx.command_history@.len() > 0 {
        "## Recent Relevant Commands\nThese commands were executed in previous sessions (useful after context compression):\n\n| Time | Command |\n|------|--------|\n"@
            + history_rows(crate::history::entry_views(ctx.command_history@)) + "\n"@
    } else {
        Seq::<char>::empty()
    };
    if ctx.git_repos.len() > 0 {
        text::push_str_chars(
            &mut out,
            "## Git Status\n\n| Repository | Branch | Status | Last Commit |\n|------------|--------|--------|-------------|\n",
        );
        push_full_repo_rows(&mut out, &ctx.git_repos);
        text::push_str_chars(&mut out, "\n");
        proof {
            lemma_cat3(
                w6,
                "## Git Status\n\n| Repository | Branch | Status | Last Commit |\n|------------|--------|--------|-------------|\n"@,
                full_repo_rows(ctx.git_repos@),
                "\n"@,
            );
        }
    } else {
        proof {
            Seq::add_empty_right(w6, Seq::<char>::empty());
        }
    }
    let ghost w7 = out@;
    let ghost p9 = if ctx.git_repos@.len() > 0 {
        "## Git Status\n\n| Repository | Branch | Status | Last Commit |\n|------------|--------|--------|-------------|\n"@
            + full_repo_rows(ctx.git_repos@) + "\n"@
    } else {
        Seq::<char>::empty()
    };
    if ctx.adb_devices.len() > 0 {
        text::push_str_chars(
            &mut out,
            "## Connected Devices\n| Serial | State | Type |\n|--------|-------|------|\n",
        );
        push_full_device_rows(&mut out, &ctx.adb_devices);
        text::push_str_chars(&mut out, "\n");
        proof {
            lemma_cat3(
                w7,
                "## Connected Devices\n| Serial | State | Type |\n|--------|-------|------|\n"@,
                full_device_rows(ctx.adb_devices@),
                "\n"@,
            );
        }
    } else {
        proof {
            Seq::add_empty_right(w7, Seq::<char>::empty());
        }
    }
    let ghost p10 = if ctx.adb_devices@.len() > 0 {
        "## Connected Devices\n| Serial | State | Type |\n|--------|-------|------|\n"@
            + full_device_rows(ctx.adb_devices@) + "\n"@
    } else {
        Seq::<char>::empty()
    };
    proof {
        assert(w4 == w3 + p6);
        assert(w5 == w4 + p7);
        assert(w6 == w5 + p8);
        assert(w7 == w6 + p9);
        assert(out@ == w7 + p10);
        assert(out@ == full_spec(*ctx));
    }
    text::string_of(out)
}

/// What the report says at a given level: an unrecognized level renders as
/// the normal tier.
pub open spec fn render_spec(ctx: Context, level: Seq<char>) -> Seq<char> {
    if level == "minimal"@ {
        minimal_spec(ctx)
    } else if level == "full"@ {
        full_spec(ctx)
    } else {
        normal_spec(ctx)
    }
}

/// Renders the snapshot at the requested level, as [`render_spec`] states.
pub fn format_context_markdown(ctx: &Context, level: &str) -> (r: String)
    ensures
        r@ == render_spec(*ctx, level@),
{
    if text::str_eq(level, "minimal") {
        format_minimal(ctx)
    } else if text::str_eq(level, "full") {
        format_full(ctx)
    } else {
        format_normal(ctx)
    }
}

/// Rendering with an unrecognized level is identical to rendering with
/// "normal": only the three known level names change the output.
pub proof fn lemma_unrecognized_level_is_normal(ctx: Context, level: Seq<char>)
    requires
        level != "minimal"@,
        level != "full"@,
    ensures
        render_spec(ctx, level) == render_spec(ctx, "normal"@),
{
    reveal_strlit("normal");
    reveal_strlit("minimal");
    reveal_strlit("full");
    assert("normal"@.len() == 6 && "minimal"@.len() == 7 && "full"@.len() == 4);
}

/// The minimal tier does not depend on the build targets at all: its output
/// never holds the build-target table, whatever targets were collected.
pub proof fn lemma_minimal_ignores_targets(ctx: Context, other: Vec<BuildTarget>)
    ensures
        minimal_spec(Context { targets: other, ..ctx }) == minimal_spec(ctx),
{
}

/// A text containing the needle still contains it with more text around.
proof fn lemma_contains_left(x: Seq<char>, y: Seq<char>, n: Seq<char>)
    requires
        text::contains_sub(x, n),
    ensures
        text::contains_sub(x + y, n),
{
    let i = choose|i: int| 0 <= i && i + n.len() <= x.len() && #[trigger] x.subrange(i, i + n.len())
        == n;
    assert((x + y).subrange(i, i + n.len()) =~= n);
}

/// A text containing the needle still contains it with more text before.
proof fn lemma_contains_right(x: Seq<char>, y: Seq<char>, n: Seq<char>)
    requires
        text::contains_sub(y, n),
    ensures
        text::contains_sub(x + y, n),
{
    let i = choose|i: int| 0 <= i && i + n.len() <= y.len() && #[trigger] y.subrange(i, i + n.len())
        == n;
    assert((x + y).subrange(x.len() + i, x.len() + i + n.len()) =~= n);
}

/// The full tier holds the build-target table whenever at least one target
/// exists: its header stands in the output.
#[verifier::rlimit(100)]
pub proof fn lemma_full_shows_target_table(ctx: Context)
    requires
        ctx.targets@.len() > 0,
    ensures
        text::contains_sub(full_spec(ctx), "## Available Build Targets"@),
{
    let needle = "## Available Build Targets"@;
    reveal_strlit("## Available Build Targets");
    reveal_strlit("## Available Build Targets\n\n");
    let b = targets_section(ctx.targets@);
    assert forall|k: int| 0 <= k < needle.len() implies b.subrange(0, 0 + needle.len() as int)[k]
        == needle[k] by {
        assert(b[k] == "## Available Build Targets\n\n"@[k]);
    }
    assert(b.subrange(0, 0 + needle.len() as int) =~= needle);
    text::lemma_contains_at(b, needle, 0);
    let a1 = "# Development Context (Full)\n\n"@ + (if ctx.project_name@.len() > 0 {
        "## Project\n- **Name:** "@ + ctx.project_name@ + "\n"@ + (if ctx.project_type@.len() > 0 {
            "- **Type:** "@ + ctx.project_type@ + "\n"@
        } else {
            Seq::<char>::empty()
        }) + "\n"@
    } else {
        Seq::<char>::empty()
    });
    let a2 = a1 + (match ctx.work_state {
        Some(w) => ws_section(w),
        None => Seq::<char>::empty(),
    });
    let a3 = a2 + (if ctx.hints@.len() > 0 {
        "## AI Hints (Important)\n> "@ + ctx.hints@ + "\n\n"@
    } else {
        Seq::<char>::empty()
    });
    lemma_contains_right(a3, b, needle);
    assert(a3 + b == full_head_spec(ctx));
    let p6 = if ctx.containers@.len() > 0 {
        "## Active Containers\n"@ + full_container_lines(ctx.containers@) + "\n"@
    } else {
        Seq::<char>::empty()
    };
    lemma_contains_left(full_head_spec(ctx), p6, needle);
    let a5 = full_head_spec(ctx) + p6;
    let p7 = if ctx.available_commands@.len() > 0 {
        "## Example Commands\n```bash\n"@ + command_lines(
            crate::text::string_views(ctx.available_commands@),
        ) + "```\n"@
    } else {
        Seq::<char>::empty()
    };
    lemma_contains_left(a5, p7, needle);
    let a6 = a5 + p7;
    let p8 = if ctx.command_history@.len() > 0 {
        "## Recent Relevant Commands\nThese commands were executed in previous sessions (useful after context compression):\n\n| Time | Command |\n|------|--------|\n"@
            + history_rows(crate::history::entry_views(ctx.command_history@)) + "\n"@
    } else {
        Seq::<char>::empty()
    };
    lemma_contains_left(a6, p8, needle);
    let a7 = a6 + p8;
    let p9 = if ctx.git_repos@.len() > 0 {
        "## Git Status\n\n| Repository | Branch | Status | Last Commit |\n|------------|--------|--------|-------------|\n"@
            + full_repo_rows(ctx.git_repos@) + "\n"@
    } else {
        Seq::<char>::empty()
    };
    lemma_contains_left(a7, p9, needle);
    let a8 = a7 + p9;
    let p10 = if ctx.adb_devices@.len() > 0 {
        "## Connected Devices\n| Serial | State | Type |\n|--------|-------|------|\n"@
            + full_device_rows(ctx.adb_devices@) + "\n"@
    } else {
        Seq::<char>::empty()
    };
    lemma_contains_left(a8, p10, needle);
    assert(a8 + p10 == full_spec(ctx));
}

} // verus!
