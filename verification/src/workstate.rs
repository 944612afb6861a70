//! The work-state recovery snapshot and its persistence codec.
//!
//! Exactly one snapshot exists at a time; a save fully replaces it.  The
//! file itself is written and read outside; this module renders a snapshot
//! to its structured text and parses it back.  Parsing anything that does
//! not follow the format yields nothing — a corrupt file is "no saved
//! state", never an error — and parsing a rendered snapshot gives back
//! every field exactly.

use vstd::prelude::*;
use crate::text;

verus! {

/// One todo item of a snapshot.
pub struct TodoItem {
    /// What is to be done.
    pub content: String,
    /// One of "pending", "in_progress", "completed".
    pub status: String,
}

/// A saved work state.
pub struct WorkState {
    /// When the snapshot was taken, an opaque timestamp string.
    pub saved_at: String,
    /// What caused the save: "manual", "pre_compact" or "auto".
    pub trigger: String,
    /// Brief summary of the task in progress.
    pub task_summary: String,
    /// Files being worked on, ordered, duplicates allowed.
    pub working_files: Vec<String>,
    /// Free-form progress notes.
    pub notes: String,
    /// Ordered todo list.
    pub todos: Vec<TodoItem>,
}

/// The mathematical model of a snapshot: every field as character data.
#[verifier::ext_equal]
pub struct WsModel {
    pub saved_at: Seq<char>,
    pub trigger: Seq<char>,
    pub task_summary: Seq<char>,
    pub working_files: Seq<Seq<char>>,
    pub notes: Seq<char>,
    pub todos: Seq<(Seq<char>, Seq<char>)>,
}

/// The model of a todo item: its content and status.
pub open spec fn todo_view(t: TodoItem) -> (Seq<char>, Seq<char>) {
    (t.content@, t.status@)
}

/// The models of a todo list.
pub open spec fn todo_views(s: Seq<TodoItem>) -> Seq<(Seq<char>, Seq<char>)> {
    s.map_values(|t: TodoItem| todo_view(t))
}

/// The model of a snapshot.
pub open spec fn ws_model(w: WorkState) -> WsModel {
    WsModel {
        saved_at: w.saved_at@,
        trigger: w.trigger@,
        task_summary: w.task_summary@,
        working_files: crate::text::string_views(w.working_files@),
        notes: w.notes@,
        todos: todo_views(w.todos@),
    }
}

/// How one character is written inside a quoted string.
pub open spec fn esc_char(c: char) -> Seq<char> {
    if c == '"' {
        seq!['\\', '"']
    } else if c == '\\' {
        seq!['\\', '\\']
    } else if c == '\n' {
        seq!['\\', 'n']
    } else if c == '\t' {
        seq!['\\', 't']
    } else if c == '\r' {
        seq!['\\', 'r']
    } else {
        seq![c]
    }
}

/// The escaped form of a string's characters.
pub open spec fn escape(s: Seq<char>) -> Seq<char>
    decreases s.len(),
{
    if s.len() == 0 {
        Seq::empty()
    } else {
        esc_char(s[0]) + escape(s.drop_first())
    }
}

/// Appending one character extends the escaped form at the end.
pub proof fn lemma_escape_snoc(s: Seq<char>, c: char)
    ensures
        escape(s.push(c)) == escape(s) + esc_char(c),
    decreases s.len(),
{
    if s.len() == 0 {
        assert(s.push(c)[0] == c);
        assert(s.push(c).drop_first() =~= Seq::<char>::empty());
        assert(escape(s.push(c)) == esc_char(c) + escape(Seq::<char>::empty()));
        assert(escape(s.push(c)) =~= escape(s) + esc_char(c));
    } else {
        assert(s.push(c)[0] == s[0]);
        assert(s.push(c).drop_first() =~= s.drop_first().push(c));
        assert(escape(s.push(c)) == esc_char(s[0]) + escape(s.drop_first().push(c)));
        lemma_escape_snoc(s.drop_first(), c);
        assert(escape(s.push(c)) =~= escape(s) + esc_char(c));
    }
}

/// A quoted string: the escaped characters between double quotes.
pub open spec fn quoted(s: Seq<char>) -> Seq<char> {
    seq!['"'] + escape(s) + seq!['"']
}

/// The inline rendering of the file list.
pub open spec fn str_items(fs: Seq<Seq<char>>) -> Seq<char>
    decreases fs.len(),
{
    if fs.len() == 0 {
        Seq::empty()
    } else if fs.len() == 1 {
        quoted(fs[0])
    } else {
        quoted(fs[0]) + ", "@ + str_items(fs.drop_first())
    }
}

/// The file list as a bracketed array.
pub open spec fn str_array(fs: Seq<Seq<char>>) -> Seq<char> {
    "["@ + str_items(fs) + "]"@
}

/// One todo item as an inline object.
pub open spec fn todo_item_text(t: (Seq<char>, Seq<char>)) -> Seq<char> {
    "{\"content\": "@ + quoted(t.0) + ", \"status\": "@ + quoted(t.1) + "}"@
}

/// The inline rendering of the todo list.
pub open spec fn todo_items(ts: Seq<(Seq<char>, Seq<char>)>) -> Seq<char>
    decreases ts.len(),
{
    if ts.len() == 0 {
        Seq::empty()
    } else if ts.len() == 1 {
        todo_item_text(ts[0])
    } else {
        todo_item_text(ts[0]) + ", "@ + todo_items(ts.drop_first())
    }
}

/// The todo list as a bracketed array.
pub open spec fn todo_array(ts: Seq<(Seq<char>, Seq<char>)>) -> Seq<char> {
    "["@ + todo_items(ts) + "]"@
}

/// The persisted text of a snapshot: one object with the six fields in
/// fixed order, strings escaped, the arrays inline.
pub open spec fn ws_render(m: WsModel) -> Seq<char> {
    "{\n  \"saved_at\": "@ + quoted(m.saved_at) + ",\n  \"trigger\": "@ + quoted(m.trigger)
        + ",\n  \"task_summary\": "@ + quoted(m.task_summary) + ",\n  \"working_files\": "@
        + str_array(m.working_files) + ",\n  \"notes\": "@ + quoted(m.notes)
        + ",\n  \"todos\": "@ + todo_array(m.todos) + "\n}"@
}

/// Appends the escaped form of a string.
#[verifier::loop_isolation(false)]
fn push_escaped(out: &mut Vec<char>, s: &str)
    ensures
        final(out)@ == old(out)@ + escape(s@),
{
    let cs = text::chars_of(s);
    let n: usize = cs.len();
    let mut i: usize = 0;
    proof {
        assert(s@.take(0) =~= Seq::<char>::empty());
        assert(out@ =~= old(out)@ + escape(s@.take(0)));
    }
    while i < n
        invariant
            i <= n,
            n == s@.len(),
            cs@ == s@,
            out@ == old(out)@ + escape(s@.take(i as int)),
        decreases n - i,
    {
        let c = cs[i];
        if c == '"' {
            out.push('\\');
            out.push('"');
        } else if c == '\\' {
            out.push('\\');
            out.push('\\');
        } else if c == '\n' {
            out.push('\\');
            out.push('n');
        } else if c == '\t' {
            out.push('\\');
            out.push('t');
        } else if c == '\r' {
            out.push('\\');
            out.push('r');
        } else {
            out.push(c);
        }
        i = i + 1;
        proof {
            assert(s@.take(i as int) =~= s@.take(i - 1).push(s@[i - 1]));
            lemma_escape_snoc(s@.take(i - 1), s@[i - 1]);
            assert(out@ =~= old(out)@ + escape(s@.take(i as int)));
        }
    }
    proof {
        assert(s@.take(n as int) =~= s@);
    }
}

/// Appends a quoted string.
fn push_quoted(out: &mut Vec<char>, s: &str)
    ensures
        final(out)@ == old(out)@ + quoted(s@),
{
    out.push('"');
    push_escaped(out, s);
    out.push('"');
    proof {
        assert(out@ =~= old(out)@ + quoted(s@));
    }
}

/// Appends the file array.
#[verifier::loop_isolation(false)]
fn push_str_array(out: &mut Vec<char>, fs: &Vec<String>)
    ensures
        final(out)@ == old(out)@ + str_array(crate::text::string_views(fs@)),
{
    let ghost fv = crate::text::string_views(fs@);
    text::push_str_chars(out, "[");
    let n: usize = fs.len();
    let mut i: usize = 0;
    proof {
        assert(fv.skip(0) =~= fv);
        assert(out@ + str_items(fv.skip(0)) =~= old(out)@ + "["@ + str_items(fv));
    }
    while i < n
        invariant
            i <= n,
            n == fs@.len(),
            out@ + str_items(fv.skip(i as int)) == old(out)@ + "["@ + str_items(fv),
        decreases n - i,
    {
        proof {
            assert(fv.skip(i as int)[0] == fv[i as int]);
            assert(fv.skip(i as int).drop_first() =~= fv.skip(i + 1));
            if i + 1 < n {
                assert(str_items(fv.skip(i as int)) == quoted(fv[i as int]) + ", "@ + str_items(
                    fv.skip(i + 1),
                ));
            } else {
                assert(str_items(fv.skip(i as int)) == quoted(fv[i as int]));
                assert(str_items(fv.skip(i + 1)) =~= Seq::<char>::empty());
            }
        }
        push_quoted(out, fs[i].as_str());
        if i + 1 < n {
            text::push_str_chars(out, ", ");
        }
        i = i + 1;
        proof {
            assert(out@ + str_items(fv.skip(i as int)) =~= old(out)@ + "["@ + str_items(fv));
        }
    }
    text::push_str_chars(out, "]");
    proof {
        assert(str_items(fv.skip(n as int)) =~= Seq::<char>::empty());
        assert(out@ =~= old(out)@ + str_array(fv));
    }
}

/// Appends the todo array.
#[verifier::loop_isolation(false)]
fn push_todo_array(out: &mut Vec<char>, ts: &Vec<TodoItem>)
    ensures
        final(out)@ == old(out)@ + todo_array(todo_views(ts@)),
{
    let ghost tv = todo_views(ts@);
    text::push_str_chars(out, "[");
    let n: usize = ts.len();
    let mut i: usize = 0;
    proof {
        assert(tv.skip(0) =~= tv);
        assert(out@ + todo_items(tv.skip(0)) =~= old(out)@ + "["@ + todo_items(tv));
    }
    while i < n
        invariant
            i <= n,
            n == ts@.len(),
            out@ + todo_items(tv.skip(i as int)) == old(out)@ + "["@ + todo_items(tv),
        decreases n - i,
    {
        proof {
            assert(tv.skip(i as int)[0] == tv[i as int]);
            assert(tv.skip(i as int).drop_first() =~= tv.skip(i + 1));
            if i + 1 < n {
                assert(todo_items(tv.skip(i as int)) == todo_item_text(tv[i as int]) + ", "@
                    + todo_items(tv.skip(i + 1)));
            } else {
                assert(todo_items(tv.skip(i as int)) == todo_item_text(tv[i as int]));
                assert(todo_items(tv.skip(i + 1)) =~= Seq::<char>::empty());
            }
        }
        text::push_str_chars(out, "{\"content\": ");
        push_quoted(out, ts[i].content.as_str());
        text::push_str_chars(out, ", \"status\": ");
        push_quoted(out, ts[i].status.as_str());
        text::push_str_chars(out, "}");
        if i + 1 < n {
            text::push_str_chars(out, ", ");
        }
        i = i + 1;
        proof {
            assert(out@ + todo_items(tv.skip(i as int)) =~= old(out)@ + "["@ + todo_items(tv));
        }
    }
    text::push_str_chars(out, "]");
    proof {
        assert(todo_items(tv.skip(n as int)) =~= Seq::<char>::empty());
        assert(out@ =~= old(out)@ + todo_array(tv));
    }
}

/// Renders a snapshot to its persisted text.
pub fn render_work_state(w: &WorkState) -> (r: String)
    ensures
        r@ == ws_render(ws_model(*w)),
{
    let mut out: Vec<char> = Vec::new();
    text::push_str_chars(&mut out, "{\n  \"saved_at\": ");
    push_quoted(&mut out, w.saved_at.as_str());
    text::push_str_chars(&mut out, ",\n  \"trigger\": ");
    push_quoted(&mut out, w.trigger.as_str());
    text::push_str_chars(&mut out, ",\n  \"task_summary\": ");
    push_quoted(&mut out, w.task_summary.as_str());
    text::push_str_chars(&mut out, ",\n  \"working_files\": ");
    push_str_array(&mut out, &w.working_files);
    text::push_str_chars(&mut out, ",\n  \"notes\": ");
    push_quoted(&mut out, w.notes.as_str());
    text::push_str_chars(&mut out, ",\n  \"todos\": ");
    push_todo_array(&mut out, &w.todos);
    text::push_str_chars(&mut out, "\n}");
    proof {
        assert(out@ =~= ws_render(ws_model(*w)));
    }
    text::string_of(out)
}

/// The character that an escape code stands for.
pub open spec fn unesc(c: char) -> Option<char> {
    if c == '"' {
        Some('"')
    } else if c == '\\' {
        Some('\\')
    } else if c == 'n' {
        Some('\n')
    } else if c == 't' {
        Some('\t')
    } else if c == 'r' {
        Some('\r')
    } else {
        None
    }
}

/// Consumes an expected literal from the front of the input.
pub open spec fn p_lit(s: Seq<char>, lit: Seq<char>) -> Option<Seq<char>> {
    if crate::text::starts_with(s, lit) {
        Some(s.skip(lit.len() as int))
    } else {
        None
    }
}

/// Parses a string body up to its closing quote, undoing escapes.
pub open spec fn p_string_body(s: Seq<char>) -> Option<(Seq<char>, Seq<char>)>
    decreases s.len(),
{
    if s.len() == 0 {
        None
    } else if s[0] == '"' {
        Some((Seq::empty(), s.drop_first()))
    } else if s[0] == '\\' {
        if s.len() < 2 {
            None
        } else {
            match unesc(s[1]) {
                Some(c) => match p_string_body(s.skip(2)) {
                    Some(p) => Some((seq![c] + p.0, p.1)),
                    None => None,
                },
                None => None,
            }
        }
    } else {
        match p_string_body(s.drop_first()) {
            Some(p) => Some((seq![s[0]] + p.0, p.1)),
            None => None,
        }
    }
}

/// Parses a quoted string.
pub open spec fn p_quoted(s: Seq<char>) -> Option<(Seq<char>, Seq<char>)> {
    if s.len() > 0 && s[0] == '"' {
        p_string_body(s.drop_first())
    } else {
        None
    }
}

/// Parses the comma-separated items of a non-empty string array.
pub open spec fn p_str_items(s: Seq<char>) -> Option<(Seq<Seq<char>>, Seq<char>)>
    decreases s.len(),
{
    match p_quoted(s) {
        Some(p) => {
            let rest = p.1;
            if rest.len() >= 2 && rest[0] == ',' && rest[1] == ' ' {
                if rest.skip(2).len() < s.len() {
                    match p_str_items(rest.skip(2)) {
                        Some(q) => Some((seq![p.0] + q.0, q.1)),
                        None => None,
                    }
                } else {
                    None
                }
            } else {
                Some((seq![p.0], rest))
            }
        },
        None => None,
    }
}

/// Parses a bracketed string array.
pub open spec fn p_str_array(s: Seq<char>) -> Option<(Seq<Seq<char>>, Seq<char>)> {
    if s.len() == 0 || s[0] != '[' {
        None
    } else {
        let t = s.drop_first();
        if t.len() > 0 && t[0] == ']' {
            Some((Seq::empty(), t.drop_first()))
        } else {
            match p_str_items(t) {
                Some(p) => if p.1.len() > 0 && p.1[0] == ']' {
                    Some((p.0, p.1.drop_first()))
                } else {
                    None
                },
                None => None,
            }
        }
    }
}

/// Parses one todo object.
pub open spec fn p_todo_item(s: Seq<char>) -> Option<((Seq<char>, Seq<char>), Seq<char>)> {
    match p_lit(s, "{\"content\": "@) {
        Some(s1) => match p_quoted(s1) {
            Some(p1) => match p_lit(p1.1, ", \"status\": "@) {
                Some(s2) => match p_quoted(s2) {
                    Some(p2) => if p2.1.len() > 0 && p2.1[0] == '}' {
                        Some(((p1.0, p2.0), p2.1.drop_first()))
                    } else {
                        None
                    },
                    None => None,
                },
                None => None,
            },
            None => None,
        },
        None => None,
    }
}

/// Parses the comma-separated items of a non-empty todo array.
pub open spec fn p_todo_items(s: Seq<char>) -> Option<(Seq<(Seq<char>, Seq<char>)>, Seq<char>)>
    decreases s.len(),
{
    match p_todo_item(s) {
        Some(p) => {
            let rest = p.1;
            if rest.len() >= 2 && rest[0] == ',' && rest[1] == ' ' {
                if rest.skip(2).len() < s.len() {
                    match p_todo_items(rest.skip(2)) {
                        Some(q) => Some((seq![p.0] + q.0, q.1)),
                        None => None,
                    }
                } else {
                    None
                }
            } else {
                Some((seq![p.0], rest))
            }
        },
        None => None,
    }
}

/// Parses a bracketed todo array.
pub open spec fn p_todo_array(s: Seq<char>) -> Option<(Seq<(Seq<char>, Seq<char>)>, Seq<char>)> {
    if s.len() == 0 || s[0] != '[' {
        None
    } else {
        let t = s.drop_first();
        if t.len() > 0 && t[0] == ']' {
            Some((Seq::empty(), t.drop_first()))
        } else {
            match p_todo_items(t) {
                Some(p) => if p.1.len() > 0 && p.1[0] == ']' {
                    Some((p.0, p.1.drop_first()))
                } else {
                    None
                },
                None => None,
            }
        }
    }
}

/// What the persisted text of a snapshot parses to: the model when the text
/// follows the format exactly, nothing otherwise.
pub open spec fn ws_parse(s: Seq<char>) -> Option<WsModel> {
    match p_lit(s, "{\n  \"saved_at\": "@) {
        Some(s1) => match p_quoted(s1) {
            Some(a) => match p_lit(a.1, ",\n  \"trigger\": "@) {
                Some(s2) => match p_quoted(s2) {
                    Some(b) => match p_lit(b.1, ",\n  \"task_summary\": "@) {
                        Some(s3) => match p_quoted(s3) {
                            Some(c) => match p_lit(c.1, ",\n  \"working_files\": "@) {
                                Some(s4) => match p_str_array(s4) {
                                    Some(d) => match p_lit(d.1, ",\n  \"notes\": "@) {
                                        Some(s5) => match p_quoted(s5) {
                                            Some(e) => match p_lit(e.1, ",\n  \"todos\": "@) {
                                                Some(s6) => match p_todo_array(s6) {
                                                    Some(f) => match p_lit(f.1, "\n}"@) {
                                                        Some(s7) => if s7.len() == 0 {
                                                            Some(
                                                                WsModel {
                                                                    saved_at: a.0,
                                                                    trigger: b.0,
                                                                    task_summary: c.0,
                                                                    working_files: d.0,
                                                                    notes: e.0,
                                                                    todos: f.0,
                                                                },
                                                            )
                                                        } else {
                                                            None
                                                        },
                                                        None => None,
                                                    },
                                                    None => None,
                                                },
                                                None => None,
                                            },
                                            None => None,
                                        },
                                        None => None,
                                    },
                                    None => None,
                                },
                                None => None,
                            },
                            None => None,
                        },
                        None => None,
                    },
                    None => None,
                },
                None => None,
            },
            None => None,
        },
        None => None,
    }
}

/// A literal at the front of the input is consumed exactly.
pub proof fn lemma_p_lit_roundtrip(lit: Seq<char>, rest: Seq<char>)
    ensures
        p_lit(lit + rest, lit) == Some(rest),
{
    assert((lit + rest).subrange(0, lit.len() as int) =~= lit);
    assert((lit + rest).skip(lit.len() as int) =~= rest);
}

/// A rendered string body parses back to its content.
pub proof fn lemma_p_string_body_roundtrip(content: Seq<char>, rest: Seq<char>)
    ensures
        p_string_body(escape(content) + seq!['"'] + rest) == Some((content, rest)),
    decreases content.len(),
{
    let s = escape(content) + seq!['"'] + rest;
    if content.len() == 0 {
        assert(s[0] == '"');
        assert(s.drop_first() =~= rest);
        assert(p_string_body(s) == Some((Seq::<char>::empty(), rest)));
    } else {
        let c = content[0];
        let tail = content.drop_first();
        assert(escape(content) == esc_char(c) + escape(tail));
        lemma_p_string_body_roundtrip(tail, rest);
        if c == '"' || c == '\\' || c == '\n' || c == '\t' || c == '\r' {
            assert(esc_char(c).len() == 2 && esc_char(c)[0] == '\\');
            assert(s[0] == '\\');
            assert(s[1] == esc_char(c)[1]);
            assert(unesc(esc_char(c)[1]) == Some(c));
            assert(s.skip(2) =~= escape(tail) + seq!['"'] + rest);
            assert(p_string_body(s) == Some((seq![c] + tail, rest)));
            assert(seq![c] + tail =~= content);
        } else {
            assert(esc_char(c) =~= seq![c]);
            assert(s[0] == c);
            assert(s.drop_first() =~= escape(tail) + seq!['"'] + rest);
            assert(p_string_body(s) == Some((seq![c] + tail, rest)));
            assert(seq![c] + tail =~= content);
        }
    }
}

/// A rendered quoted string parses back to its content.
pub proof fn lemma_p_quoted_roundtrip(content: Seq<char>, rest: Seq<char>)
    ensures
        p_quoted(quoted(content) + rest) == Some((content, rest)),
{
    let s = quoted(content) + rest;
    assert(s[0] == '"');
    assert(s.drop_first() =~= escape(content) + seq!['"'] + rest);
    lemma_p_string_body_roundtrip(content, rest);
}

/// Rendered string-array items parse back, stopping where no separator
/// follows.
pub proof fn lemma_p_str_items_roundtrip(fs: Seq<Seq<char>>, rest: Seq<char>)
    requires
        fs.len() > 0,
        rest.len() == 0 || rest[0] != ',',
    ensures
        p_str_items(str_items(fs) + rest) == Some((fs, rest)),
    decreases fs.len(),
{
    let s = str_items(fs) + rest;
    if fs.len() == 1 {
        assert(s =~= quoted(fs[0]) + rest);
        lemma_p_quoted_roundtrip(fs[0], rest);
        assert(p_str_items(s) == Some((seq![fs[0]], rest)));
        assert(seq![fs[0]] =~= fs);
    } else {
        let tail = fs.drop_first();
        let rest1 = ", "@ + str_items(tail) + rest;
        assert(s =~= quoted(fs[0]) + rest1);
        lemma_p_quoted_roundtrip(fs[0], rest1);
        reveal_strlit(", ");
        assert(rest1.len() >= 2 && rest1[0] == ',' && rest1[1] == ' ');
        assert(rest1.skip(2) =~= str_items(tail) + rest);
        assert(quoted(fs[0]).len() >= 2);
        assert(rest1.skip(2).len() < s.len());
        lemma_p_str_items_roundtrip(tail, rest);
        assert(p_str_items(s) == Some((seq![fs[0]] + tail, rest)));
        assert(seq![fs[0]] + tail =~= fs);
    }
}

/// A rendered string array parses back to its items.
pub proof fn lemma_p_str_array_roundtrip(fs: Seq<Seq<char>>, rest: Seq<char>)
    ensures
        p_str_array(str_array(fs) + rest) == Some((fs, rest)),
{
    let s = str_array(fs) + rest;
    reveal_strlit("[");
    reveal_strlit("]");
    assert(s[0] == '[');
    let t = s.drop_first();
    if fs.len() == 0 {
        assert(str_items(fs) =~= Seq::<char>::empty());
        assert(t =~= "]"@ + rest);
        assert(t[0] == ']');
        assert(t.drop_first() =~= rest);
        assert(p_str_array(s) == Some((Seq::<Seq<char>>::empty(), rest)));
        assert(Seq::<Seq<char>>::empty() =~= fs);
    } else {
        let close = "]"@ + rest;
        assert(t =~= str_items(fs) + close);
        assert(str_items(fs).len() >= 2) by {
            if fs.len() == 1 {
                assert(str_items(fs) == quoted(fs[0]));
            }
        }
        assert(t[0] == str_items(fs)[0]);
        assert(str_items(fs)[0] == quoted(fs[0])[0]) by {
            if fs.len() > 1 {
                assert(str_items(fs) == quoted(fs[0]) + ", "@ + str_items(fs.drop_first()));
            }
        }
        assert(t[0] == '"');
        assert(close[0] == ']');
        lemma_p_str_items_roundtrip(fs, close);
        assert(close.drop_first() =~= rest);
    }
}

/// A rendered todo object parses back to its fields.
pub proof fn lemma_p_todo_item_roundtrip(t: (Seq<char>, Seq<char>), rest: Seq<char>)
    ensures
        p_todo_item(todo_item_text(t) + rest) == Some((t, rest)),
{
    let s = todo_item_text(t) + rest;
    let r1 = quoted(t.0) + ", \"status\": "@ + quoted(t.1) + "}"@ + rest;
    assert(s =~= "{\"content\": "@ + r1);
    lemma_p_lit_roundtrip("{\"content\": "@, r1);
    let r2 = ", \"status\": "@ + quoted(t.1) + "}"@ + rest;
    assert(r1 =~= quoted(t.0) + r2);
    lemma_p_quoted_roundtrip(t.0, r2);
    let r3 = quoted(t.1) + "}"@ + rest;
    assert(r2 =~= ", \"status\": "@ + r3);
    lemma_p_lit_roundtrip(", \"status\": "@, r3);
    let r4 = "}"@ + rest;
    assert(r3 =~= quoted(t.1) + r4);
    lemma_p_quoted_roundtrip(t.1, r4);
    reveal_strlit("}");
    assert(r4[0] == '}');
    assert(r4.drop_first() =~= rest);
    assert((t.0, t.1) == t);
}

/// Rendered todo-array items parse back, stopping where no separator
/// follows.
pub proof fn lemma_p_todo_items_roundtrip(ts: Seq<(Seq<char>, Seq<char>)>, rest: Seq<char>)
    requires
        ts.len() > 0,
        rest.len() == 0 || rest[0] != ',',
    ensures
        p_todo_items(todo_items(ts) + rest) == Some((ts, rest)),
    decreases ts.len(),
{
    let s = todo_items(ts) + rest;
    reveal_strlit("{\"content\": ");
    if ts.len() == 1 {
        assert(s =~= todo_item_text(ts[0]) + rest);
        lemma_p_todo_item_roundtrip(ts[0], rest);
        assert(p_todo_items(s) == Some((seq![ts[0]], rest)));
        assert(seq![ts[0]] =~= ts);
    } else {
        let tail = ts.drop_first();
        let rest1 = ", "@ + todo_items(tail) + rest;
        assert(s =~= todo_item_text(ts[0]) + rest1);
        lemma_p_todo_item_roundtrip(ts[0], rest1);
        reveal_strlit(", ");
        assert(rest1.len() >= 2 && rest1[0] == ',' && rest1[1] == ' ');
        assert(rest1.skip(2) =~= todo_items(tail) + rest);
        assert(todo_item_text(ts[0]).len() >= 1);
        assert(rest1.skip(2).len() < s.len());
        lemma_p_todo_items_roundtrip(tail, rest);
        assert(p_todo_items(s) == Some((seq![ts[0]] + tail, rest)));
        assert(seq![ts[0]] + tail =~= ts);
    }
}

/// A rendered todo array parses back to its items.
pub proof fn lemma_p_todo_array_roundtrip(ts: Seq<(Seq<char>, Seq<char>)>, rest: Seq<char>)
    ensures
        p_todo_array(todo_array(ts) + rest) == Some((ts, rest)),
{
    let s = todo_array(ts) + rest;
    reveal_strlit("[");
    reveal_strlit("]");
    reveal_strlit("{\"content\": ");
    assert(s[0] == '[');
    let t = s.drop_first();
    if ts.len() == 0 {
        assert(todo_items(ts) =~= Seq::<char>::empty());
        assert(t =~= "]"@ + rest);
        assert(t[0] == ']');
        assert(t.drop_first() =~= rest);
        assert(p_todo_array(s) == Some((Seq::<(Seq<char>, Seq<char>)>::empty(), rest)));
        assert(Seq::<(Seq<char>, Seq<char>)>::empty() =~= ts);
    } else {
        let close = "]"@ + rest;
        assert(t =~= todo_items(ts) + close);
        assert(todo_items(ts)[0] == todo_item_text(ts[0])[0]) by {
            if ts.len() > 1 {
                assert(todo_items(ts) == todo_item_text(ts[0]) + ", "@ + todo_items(
                    ts.drop_first(),
                ));
            }
        }
        assert(todo_item_text(ts[0])[0] == '{');
        assert(t[0] == '{');
        assert(close[0] == ']');
        lemma_p_todo_items_roundtrip(ts, close);
        assert(close.drop_first() =~= rest);
    }
}

/// Saving and loading round-trips every field exactly: parsing the rendered
/// text of any snapshot gives back that snapshot's model.
#[verifier::rlimit(100)]
pub proof fn lemma_save_load_round_trip(m: WsModel)
    ensures
        ws_parse(ws_render(m)) == Some(m),
{
    let t13 = Seq::<char>::empty();
    let t12 = "\n}"@ + t13;
    let t11 = todo_array(m.todos) + t12;
    let t10 = ",\n  \"todos\": "@ + t11;
    let t9 = quoted(m.notes) + t10;
    let t8 = ",\n  \"notes\": "@ + t9;
    let t7 = str_array(m.working_files) + t8;
    let t6 = ",\n  \"working_files\": "@ + t7;
    let t5 = quoted(m.task_summary) + t6;
    let t4 = ",\n  \"task_summary\": "@ + t5;
    let t3 = quoted(m.trigger) + t4;
    let t2 = ",\n  \"trigger\": "@ + t3;
    let t1 = quoted(m.saved_at) + t2;
    let t0 = "{\n  \"saved_at\": "@ + t1;
    assert(ws_render(m) =~= t0);
    lemma_p_lit_roundtrip("{\n  \"saved_at\": "@, t1);
    lemma_p_quoted_roundtrip(m.saved_at, t2);
    lemma_p_lit_roundtrip(",\n  \"trigger\": "@, t3);
    lemma_p_quoted_roundtrip(m.trigger, t4);
    lemma_p_lit_roundtrip(",\n  \"task_summary\": "@, t5);
    lemma_p_quoted_roundtrip(m.task_summary, t6);
    lemma_p_lit_roundtrip(",\n  \"working_files\": "@, t7);
    lemma_p_str_array_roundtrip(m.working_files, t8);
    lemma_p_lit_roundtrip(",\n  \"notes\": "@, t9);
    lemma_p_quoted_roundtrip(m.notes, t10);
    lemma_p_lit_roundtrip(",\n  \"todos\": "@, t11);
    lemma_p_todo_array_roundtrip(m.todos, t12);
    lemma_p_lit_roundtrip("\n}"@, t13);
    assert(ws_parse(t0) == Some(
        WsModel {
            saved_at: m.saved_at,
            trigger: m.trigger,
            task_summary: m.task_summary,
            working_files: m.working_files,
            notes: m.notes,
            todos: m.todos,
        },
    ));
}

/// Matches an expected literal at a position of the input.
#[verifier::loop_isolation(false)]
fn e_lit(cs: &Vec<char>, pos: usize, lit: &str) -> (r: Option<usize>)
    requires
        pos <= cs@.len(),
    ensures
        match r {
            Some(p2) => pos <= p2 <= cs@.len() && p_lit(cs@.skip(pos as int), lit@) == Some(
                cs@.skip(p2 as int),
            ),
            None => p_lit(cs@.skip(pos as int), lit@) is None,
        },
{
    let ghost t = cs@.skip(pos as int);
    let lv = text::chars_of(lit);
    let m: usize = lv.len();
    if cs.len() - pos < m {
        proof {
            assert(!crate::text::starts_with(t, lit@));
        }
        return None;
    }
    let mut k: usize = 0;
    while k < m && cs[pos + k] == lv[k]
        invariant
            k <= m,
            m == lit@.len(),
            pos + m <= cs@.len(),
            forall|x: int| 0 <= x < k ==> t[x] == lit@[x],
        decreases m - k,
    {
        proof {
            assert(t[k as int] == cs@[pos + k]);
        }
        k = k + 1;
    }
    if k < m {
        proof {
            assert(t[k as int] == cs@[pos + k]);
            assert(t.subrange(0, m as int)[k as int] != lit@[k as int]);
            assert(!crate::text::starts_with(t, lit@));
        }
        return None;
    }
    proof {
        assert(t.subrange(0, m as int) =~= lit@);
        assert(crate::text::starts_with(t, lit@));
        assert(t.skip(m as int) =~= cs@.skip(pos + m));
    }
    Some(pos + m)
}

/// Parses a string body at a position of the input.
#[verifier::loop_isolation(false)]
fn e_string_body(cs: &Vec<char>, pos: usize) -> (r: Option<(Vec<char>, usize)>)
    requires
        pos <= cs@.len(),
    ensures
        match r {
            Some(p) => pos <= p.1 <= cs@.len() && p_string_body(cs@.skip(pos as int)) == Some(
                (p.0@, cs@.skip(p.1 as int)),
            ),
            None => p_string_body(cs@.skip(pos as int)) is None,
        },
    decreases cs@.len() - pos,
{
    let ghost t = cs@.skip(pos as int);
    if pos == cs.len() {
        return None;
    }
    let c = cs[pos];
    proof {
        assert(t[0] == c);
    }
    if c == '"' {
        proof {
            assert(t.drop_first() =~= cs@.skip(pos + 1));
        }
        let content: Vec<char> = Vec::new();
        proof {
            assert(content@ =~= Seq::<char>::empty());
        }
        return Some((content, pos + 1));
    }
    if c == '\\' {
        if cs.len() - pos < 2 {
            return None;
        }
        let x = cs[pos + 1];
        proof {
            assert(t[1] == x);
        }
        let u: Option<char> = if x == '"' {
            Some('"')
        } else if x == '\\' {
            Some('\\')
        } else if x == 'n' {
            Some('\n')
        } else if x == 't' {
            Some('\t')
        } else if x == 'r' {
            Some('\r')
        } else {
            None
        };
        proof {
            assert(u == unesc(x));
            assert(t.skip(2) =~= cs@.skip(pos + 2));
        }
        match u {
            Some(u0) => {
                match e_string_body(cs, pos + 2) {
                    Some((mut content, p2)) => {
                        let ghost inner = content@;
                        content.insert(0, u0);
                        proof {
                            assert(content@ =~= seq![u0] + inner);
                        }
                        Some((content, p2))
                    },
                    None => None,
                }
            },
            None => None,
        }
    } else {
        proof {
            assert(t.drop_first() =~= cs@.skip(pos + 1));
        }
        match e_string_body(cs, pos + 1) {
            Some((mut content, p2)) => {
                let ghost inner = content@;
                content.insert(0, c);
                proof {
                    assert(content@ =~= seq![c] + inner);
                }
                Some((content, p2))
            },
            None => None,
        }
    }
}

/// Parses a quoted string at a position of the input.
fn e_quoted(cs: &Vec<char>, pos: usize) -> (r: Option<(Vec<char>, usize)>)
    requires
        pos <= cs@.len(),
    ensures
        match r {
            Some(p) => pos <= p.1 <= cs@.len() && p_quoted(cs@.skip(pos as int)) == Some(
                (p.0@, cs@.skip(p.1 as int)),
            ),
            None => p_quoted(cs@.skip(pos as int)) is None,
        },
{
    let ghost t = cs@.skip(pos as int);
    if pos == cs.len() {
        return None;
    }
    if cs[pos] != '"' {
        proof {
            assert(t[0] != '"');
        }
        return None;
    }
    proof {
        assert(t[0] == '"');
        assert(t.drop_first() =~= cs@.skip(pos + 1));
    }
    e_string_body(cs, pos + 1)
}

/// Parses the items of a non-empty string array at a position.
#[verifier::loop_isolation(false)]
fn e_str_items(cs: &Vec<char>, pos: usize) -> (r: Option<(Vec<String>, usize)>)
    requires
        pos <= cs@.len(),
    ensures
        match r {
            Some(p) => pos <= p.1 <= cs@.len() && p_str_items(cs@.skip(pos as int)) == Some(
                (crate::text::string_views(p.0@), cs@.skip(p.1 as int)),
            ),
            None => p_str_items(cs@.skip(pos as int)) is None,
        },
    decreases cs@.len() - pos,
{
    let ghost t = cs@.skip(pos as int);
    match e_quoted(cs, pos) {
        Some((content, p1)) => {
            let ghost rest = cs@.skip(p1 as int);
            if cs.len() - p1 >= 2 && cs[p1] == ',' && cs[p1 + 1] == ' ' {
                proof {
                    assert(rest.len() >= 2 && rest[0] == ',' && rest[1] == ' ');
                    assert(rest.skip(2) =~= cs@.skip(p1 + 2));
                    assert(quoted(content@).len() >= 2);
                    assert(rest.skip(2).len() < t.len());
                }
                match e_str_items(cs, p1 + 2) {
                    Some((mut items, p2)) => {
                        let ghost inner = crate::text::string_views(items@);
                        items.insert(0, text::string_of(content));
                        proof {
                            assert(crate::text::string_views(items@) =~= seq![content@] + inner);
                        }
                        Some((items, p2))
                    },
                    None => None,
                }
            } else {
                proof {
                    assert(!(rest.len() >= 2 && rest[0] == ',' && rest[1] == ' '));
                }
                let mut items: Vec<String> = Vec::new();
                items.push(text::string_of(content));
                proof {
                    assert(crate::text::string_views(items@) =~= seq![items@[0]@]);
                }
                Some((items, p1))
            }
        },
        None => None,
    }
}

/// Parses a bracketed string array at a position.
fn e_str_array(cs: &Vec<char>, pos: usize) -> (r: Option<(Vec<String>, usize)>)
    requires
        pos <= cs@.len(),
    ensures
        match r {
            Some(p) => pos <= p.1 <= cs@.len() && p_str_array(cs@.skip(pos as int)) == Some(
                (crate::text::string_views(p.0@), cs@.skip(p.1 as int)),
            ),
            None => p_str_array(cs@.skip(pos as int)) is None,
        },
{
    let ghost t = cs@.skip(pos as int);
    if pos == cs.len() {
        return None;
    }
    if cs[pos] != '[' {
        proof {
            assert(t[0] != '[');
        }
        return None;
    }
    proof {
        assert(t[0] == '[');
        assert(t.drop_first() =~= cs@.skip(pos + 1));
    }
    if pos + 1 < cs.len() && cs[pos + 1] == ']' {
        proof {
            assert(t.drop_first()[0] == ']');
            assert(t.drop_first().drop_first() =~= cs@.skip(pos + 2));
        }
        let items: Vec<String> = Vec::new();
        proof {
            assert(crate::text::string_views(items@) =~= Seq::<Seq<char>>::empty());
        }
        return Some((items, pos + 2));
    }
    match e_str_items(cs, pos + 1) {
        Some((items, p1)) => {
            let ghost rest = cs@.skip(p1 as int);
            if p1 < cs.len() && cs[p1] == ']' {
                proof {
                    assert(rest[0] == ']');
                    assert(rest.drop_first() =~= cs@.skip(p1 + 1));
                }
                Some((items, p1 + 1))
            } else {
                proof {
                    assert(!(rest.len() > 0 && rest[0] == ']'));
                }
                None
            }
        },
        None => None,
    }
}

/// Parses one todo object at a position.
fn e_todo_item(cs: &Vec<char>, pos: usize) -> (r: Option<(TodoItem, usize)>)
    requires
        pos <= cs@.len(),
    ensures
        match r {
            Some(p) => pos <= p.1 <= cs@.len() && p_todo_item(cs@.skip(pos as int)) == Some(
                (todo_view(p.0), cs@.skip(p.1 as int)),
            ),
            None => p_todo_item(cs@.skip(pos as int)) is None,
        },
{
    let s1 = match e_lit(cs, pos, "{\"content\": ") {
        Some(p) => p,
        None => {
            return None;
        },
    };
    let (content, c1) = match e_quoted(cs, s1) {
        Some(p) => p,
        None => {
            return None;
        },
    };
    let s2 = match e_lit(cs, c1, ", \"status\": ") {
        Some(p) => p,
        None => {
            return None;
        },
    };
    let (status, c2) = match e_quoted(cs, s2) {
        Some(p) => p,
        None => {
            return None;
        },
    };
    let ghost rest = cs@.skip(c2 as int);
    if c2 < cs.len() && cs[c2] == '}' {
        proof {
            assert(rest[0] == '}');
            assert(rest.drop_first() =~= cs@.skip(c2 + 1));
        }
        let item = TodoItem { content: text::string_of(content), status: text::string_of(status) };
        Some((item, c2 + 1))
    } else {
        proof {
            assert(!(rest.len() > 0 && rest[0] == '}'));
        }
        None
    }
}

/// Parses the items of a non-empty todo array at a position.
#[verifier::loop_isolation(false)]
fn e_todo_items(cs: &Vec<char>, pos: usize) -> (r: Option<(Vec<TodoItem>, usize)>)
    requires
        pos <= cs@.len(),
    ensures
        match r {
            Some(p) => pos <= p.1 <= cs@.len() && p_todo_items(cs@.skip(pos as int)) == Some(
                (todo_views(p.0@), cs@.skip(p.1 as int)),
            ),
            None => p_todo_items(cs@.skip(pos as int)) is None,
        },
    decreases cs@.len() - pos,
{
    let ghost t = cs@.skip(pos as int);
    match e_todo_item(cs, pos) {
        Some((item, p1)) => {
            let ghost rest = cs@.skip(p1 as int);
            proof {
                assert(t.len() - rest.len() >= 1) by {
                    assert(p_todo_item(t) is Some);
                    lemma_p_todo_item_consumes(t);
                }
            }
            if cs.len() - p1 >= 2 && cs[p1] == ',' && cs[p1 + 1] == ' ' {
                proof {
                    assert(rest.len() >= 2 && rest[0] == ',' && rest[1] == ' ');
                    assert(rest.skip(2) =~= cs@.skip(p1 + 2));
                    assert(rest.skip(2).len() < t.len());
                }
                match e_todo_items(cs, p1 + 2) {
                    Some((mut items, p2)) => {
                        let ghost inner = todo_views(items@);
                        let ghost iv = todo_view(item);
                        items.insert(0, item);
                        proof {
                            assert(todo_views(items@) =~= seq![iv] + inner);
                        }
                        Some((items, p2))
                    },
                    None => None,
                }
            } else {
                proof {
                    assert(!(rest.len() >= 2 && rest[0] == ',' && rest[1] == ' '));
                }
                let ghost iv = todo_view(item);
                let mut items: Vec<TodoItem> = Vec::new();
                items.push(item);
                proof {
                    assert(todo_views(items@) =~= seq![iv]);
                }
                Some((items, p1))
            }
        },
        None => None,
    }
}

/// A parsed string body ends before the input does.
proof fn lemma_p_string_body_shrinks(s: Seq<char>)
    requires
        p_string_body(s) is Some,
    ensures
        p_string_body(s).unwrap().1.len() < s.len(),
    decreases s.len(),
{
    if s[0] == '"' {
    } else if s[0] == '\\' {
        lemma_p_string_body_shrinks(s.skip(2));
    } else {
        lemma_p_string_body_shrinks(s.drop_first());
    }
}

/// A parsed quoted string ends before the input does.
proof fn lemma_p_quoted_shrinks(s: Seq<char>)
    requires
        p_quoted(s) is Some,
    ensures
        p_quoted(s).unwrap().1.len() < s.len(),
{
    lemma_p_string_body_shrinks(s.drop_first());
}

/// A parsed todo object consumes at least one character.
proof fn lemma_p_todo_item_consumes(s: Seq<char>)
    requires
        p_todo_item(s) is Some,
    ensures
        p_todo_item(s).unwrap().1.len() < s.len(),
{
    let s1 = p_lit(s, "{\"content\": "@).unwrap();
    assert(s1.len() <= s.len());
    let p1 = p_quoted(s1).unwrap();
    lemma_p_quoted_shrinks(s1);
    let s2 = p_lit(p1.1, ", \"status\": "@).unwrap();
    assert(s2.len() <= p1.1.len());
    let p2 = p_quoted(s2).unwrap();
    lemma_p_quoted_shrinks(s2);
}

/// Parses a bracketed todo array at a position.
fn e_todo_array(cs: &Vec<char>, pos: usize) -> (r: Option<(Vec<TodoItem>, usize)>)
    requires
        pos <= cs@.len(),
    ensures
        match r {
            Some(p) => pos <= p.1 <= cs@.len() && p_todo_array(cs@.skip(pos as int)) == Some(
                (todo_views(p.0@), cs@.skip(p.1 as int)),
            ),
            None => p_todo_array(cs@.skip(pos as int)) is None,
        },
{
    let ghost t = cs@.skip(pos as int);
    if pos == cs.len() {
        return None;
    }
    if cs[pos] != '[' {
        proof {
            assert(t[0] != '[');
        }
        return None;
    }
    proof {
        assert(t[0] == '[');
        assert(t.drop_first() =~= cs@.skip(pos + 1));
    }
    if pos + 1 < cs.len() && cs[pos + 1] == ']' {
        proof {
            assert(t.drop_first()[0] == ']');
            assert(t.drop_first().drop_first() =~= cs@.skip(pos + 2));
        }
        let items: Vec<TodoItem> = Vec::new();
        proof {
            assert(todo_views(items@) =~= Seq::<(Seq<char>, Seq<char>)>::empty());
        }
        return Some((items, pos + 2));
    }
    match e_todo_items(cs, pos + 1) {
        Some((items, p1)) => {
            let ghost rest = cs@.skip(p1 as int);
            if p1 < cs.len() && cs[p1] == ']' {
                proof {
                    assert(rest[0] == ']');
                    assert(rest.drop_first() =~= cs@.skip(p1 + 1));
                }
                Some((items, p1 + 1))
            } else {
                proof {
                    assert(!(rest.len() > 0 && rest[0] == ']'));
                }
                None
            }
        },
        None => None,
    }
}

/// Parses the persisted text of a snapshot.  Text that does not follow the
/// format exactly yields nothing — a corrupt file means "no saved state".
#[verifier::rlimit(50)]
pub fn parse_work_state(s: &str) -> (r: Option<WorkState>)
    ensures
        match r {
            Some(w) => ws_parse(s@) == Some(ws_model(w)),
            None => ws_parse(s@) is None,
        },
{
    let cs = text::chars_of(s);
    proof {
        assert(cs@.skip(0) =~= s@);
    }
    let s1 = match e_lit(&cs, 0, "{\n  \"saved_at\": ") {
        Some(p) => p,
        None => {
            return None;
        },
    };
    let (saved_at, c1) = match e_quoted(&cs, s1) {
        Some(p) => p,
        None => {
            return None;
        },
    };
    let s2 = match e_lit(&cs, c1, ",\n  \"trigger\": ") {
        Some(p) => p,
        None => {
            return None;
        },
    };
    let (trigger, c2) = match e_quoted(&cs, s2) {
        Some(p) => p,
        None => {
            return None;
        },
    };
    let s3 = match e_lit(&cs, c2, ",\n  \"task_summary\": ") {
        Some(p) => p,
        None => {
            return None;
        },
    };
    let (task_summary, c3) = match e_quoted(&cs, s3) {
        Some(p) => p,
        None => {
            return None;
        },
    };
    let s4 = match e_lit(&cs, c3, ",\n  \"working_files\": ") {
        Some(p) => p,
        None => {
            return None;
        },
    };
    let (working_files, c4) = match e_str_array(&cs, s4) {
        Some(p) => p,
        None => {
            return None;
        },
    };
    let s5 = match e_lit(&cs, c4, ",\n  \"notes\": ") {
        Some(p) => p,
        None => {
            return None;
        },
    };
    let (notes, c5) = match e_quoted(&cs, s5) {
        Some(p) => p,
        None => {
            return None;
        },
    };
    let s6 = match e_lit(&cs, c5, ",\n  \"todos\": ") {
        Some(p) => p,
        None => {
            return None;
        },
    };
    let (todos, c6) = match e_todo_array(&cs, s6) {
        Some(p) => p,
        None => {
            return None;
        },
    };
    let s7 = match e_lit(&cs, c6, "\n}") {
        Some(p) => p,
        None => {
            return None;
        },
    };
    if s7 != cs.len() {
        proof {
            assert(cs@.skip(s7 as int).len() != 0);
        }
        return None;
    }
    let w = WorkState {
        saved_at: text::string_of(saved_at),
        trigger: text::string_of(trigger),
        task_summary: text::string_of(task_summary),
        working_files,
        notes: text::string_of(notes),
        todos,
    };
    proof {
        assert(cs@.skip(s7 as int).len() == 0);
        assert(ws_parse(s@) == Some(ws_model(w)));
    }
    Some(w)
}

} // verus!
