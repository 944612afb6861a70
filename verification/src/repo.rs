//! Per-repository status and the policy that aggregates repositories.
//!
//! The queries themselves (whether a path is a working tree, the raw branch,
//! porcelain-status and log output) are outside work; their text comes in as
//! plain values and every judgement made on it is verified here.  A failed
//! query arrives as `None` and leaves the matching field at its empty
//! default: partial results are expected and correct.

use vstd::prelude::*;
use crate::text;
use crate::text::is_ws;
use crate::text::lex_le;
use crate::text::split_lines;
use crate::text::string_views;
use crate::text::trim_spec;
use vstd::string::StringExecFns;

verus! {

/// Status of one working tree.
pub struct GitInfo {
    /// Path of the repository relative to the working directory, or ".".
    pub repo_path: String,
    /// Branch name, or a parenthesized descriptive label when detached.
    pub branch: String,
    /// Whether the tree has uncommitted modifications or untracked files.
    pub is_dirty: bool,
    /// Lines classified as modifications or other changes.
    pub modified_files: usize,
    /// Lines classified as untracked files.
    pub untracked_files: usize,
    /// Last-commit summary, capped at fifty visible characters.
    pub last_commit_short: String,
}

/// Classification of one porcelain status line.
#[derive(PartialEq, Eq, Structural, Clone, Copy, Debug)]
pub enum StatusClass {
    /// A staged or unstaged modification.
    Modified,
    /// An untracked file.
    Untracked,
    /// Any other non-blank change line; counted among the modified.
    Other,
}

/// How one status line is classified; a blank line counts as nothing.
pub open spec fn classify_status_line(l: Seq<char>) -> Option<StatusClass> {
    if l.len() >= 2 && ((l[0] == ' ' && l[1] == 'M') || (l[0] == 'M' && l[1] == ' ') || (l[0] == 'M'
        && l[1] == 'M')) {
        Some(StatusClass::Modified)
    } else if l.len() >= 2 && l[0] == '?' && l[1] == '?' {
        Some(StatusClass::Untracked)
    } else if exists|k: int| 0 <= k < l.len() && !is_ws(l[k]) {
        Some(StatusClass::Other)
    } else {
        None
    }
}

/// Decides [`classify_status_line`] on one line.
#[verifier::loop_isolation(false)]
pub fn classify_status_line_exec(line: &str) -> (r: Option<StatusClass>)
    ensures
        r == classify_status_line(line@),
{
    let cs = text::chars_of(line);
    if cs.len() >= 2 {
        let c0 = cs[0];
        let c1 = cs[1];
        if (c0 == ' ' && c1 == 'M') || (c0 == 'M' && c1 == ' ') || (c0 == 'M' && c1 == 'M') {
            return Some(StatusClass::Modified);
        }
        if c0 == '?' && c1 == '?' {
            return Some(StatusClass::Untracked);
        }
    }
    let n: usize = cs.len();
    let mut k: usize = 0;
    while k < n && (cs[k] == ' ' || cs[k] == '\t' || cs[k] == '\r' || cs[k] == '\n')
        invariant
            k <= n,
            forall|x: int| 0 <= x < k ==> is_ws(line@[x]),
        decreases n - k,
    {
        k = k + 1;
    }
    if k < n {
        proof {
            assert(!is_ws(line@[k as int]));
        }
        Some(StatusClass::Other)
    } else {
        None
    }
}

/// Lines counted as modifications: explicit modification markers and any
/// other non-blank change line.
pub open spec fn modified_count(lines: Seq<Seq<char>>) -> nat
    decreases lines.len(),
{
    if lines.len() == 0 {
        0
    } else {
        modified_count(lines.drop_last()) + match classify_status_line(lines.last()) {
            Some(StatusClass::Modified) => 1nat,
            Some(StatusClass::Other) => 1nat,
            _ => 0nat,
        }
    }
}

/// Lines counted as untracked files.
pub open spec fn untracked_count(lines: Seq<Seq<char>>) -> nat
    decreases lines.len(),
{
    if lines.len() == 0 {
        0
    } else {
        untracked_count(lines.drop_last()) + match classify_status_line(lines.last()) {
            Some(StatusClass::Untracked) => 1nat,
            _ => 0nat,
        }
    }
}

/// Counts the modified and untracked entries of a porcelain status output.
#[verifier::loop_isolation(false)]
pub fn count_status(status_output: &str) -> (counts: (usize, usize))
    ensures
        counts.0 == modified_count(split_lines(status_output@)),
        counts.1 == untracked_count(split_lines(status_output@)),
{
    let lines = text::split_lines_exec(status_output);
    let ghost lv = string_views(lines@);
    let mut m: usize = 0;
    let mut u: usize = 0;
    let mut i: usize = 0;
    proof {
        assert(lv.take(0) =~= Seq::<Seq<char>>::empty());
    }
    while i < lines.len()
        invariant
            i <= lines@.len(),
            m + u <= i,
            m == modified_count(lv.take(i as int)),
            u == untracked_count(lv.take(i as int)),
        decreases lines@.len() - i,
    {
        let c = classify_status_line_exec(lines[i].as_str());
        match c {
            Some(StatusClass::Modified) => {
                m = m + 1;
            },
            Some(StatusClass::Other) => {
                m = m + 1;
            },
            Some(StatusClass::Untracked) => {
                u = u + 1;
            },
            None => {},
        }
        i = i + 1;
        proof {
            assert(lv.take(i as int).drop_last() =~= lv.take(i - 1));
            assert(lv.take(i as int).last() == lines@[i - 1]@);
        }
    }
    proof {
        assert(lv.take(lines@.len() as int) =~= lv);
    }
    (m, u)
}

/// A commit summary capped at fifty visible characters: longer summaries are
/// cut to forty-seven characters plus an ellipsis.
pub open spec fn commit_summary_display(s: Seq<char>) -> Seq<char> {
    if s.len() > 50 {
        s.take(47) + "..."@
    } else {
        s
    }
}

/// Caps a commit summary as [`commit_summary_display`] describes.
pub fn truncate_commit(s: &str) -> (r: String)
    ensures
        r@ == commit_summary_display(s@),
{
    let cs = text::chars_of(s);
    if cs.len() > 50 {
        let mut head = text::sub_chars(&cs, 0, 47);
        proof {
            assert(head@ =~= s@.take(47));
        }
        text::push_str_chars(&mut head, "...");
        text::string_of(head)
    } else {
        text::string_of(cs)
    }
}

/// The view of an optional query output.
pub open spec fn opt_view(o: Option<String>) -> Option<Seq<char>> {
    match o {
        Some(s) => Some(s@),
        None => None,
    }
}

/// The branch label: the trimmed branch name when present and non-empty,
/// else the trimmed detached-head description in parentheses, else empty.
pub open spec fn branch_label(branch_out: Option<Seq<char>>, describe_out: Option<Seq<char>>) -> Seq<
    char,
> {
    let b = match branch_out {
        Some(t) => trim_spec(t),
        None => Seq::empty(),
    };
    if b.len() > 0 {
        b
    } else {
        match describe_out {
            Some(d) => seq!['('] + trim_spec(d) + seq![')'],
            None => Seq::empty(),
        }
    }
}

/// Builds the status of one working tree from the raw query outputs.  A
/// `None` means the query failed; the matching field keeps its empty
/// default, and collection never fails as a whole.
pub fn assemble_git_info(
    repo_path: String,
    branch_out: Option<String>,
    describe_out: Option<String>,
    status_out: Option<String>,
    log_out: Option<String>,
) -> (g: GitInfo)
    ensures
        g.repo_path == repo_path,
        g.branch@ == branch_label(opt_view(branch_out), opt_view(describe_out)),
        match status_out {
            Some(t) => g.modified_files == modified_count(split_lines(t@)) && g.untracked_files
                == untracked_count(split_lines(t@)),
            None => g.modified_files == 0 && g.untracked_files == 0,
        },
        g.is_dirty == (g.modified_files > 0 || g.untracked_files > 0),
        match log_out {
            Some(t) => g.last_commit_short@ == commit_summary_display(trim_spec(t@)),
            None => g.last_commit_short@.len() == 0,
        },
{
    let branch: String = match &branch_out {
        Some(t) => {
            let b = text::trim_str(t.as_str());
            if b.as_str().unicode_len() > 0 {
                b
            } else {
                detached_label(&describe_out)
            }
        },
        None => detached_label(&describe_out),
    };
    let (m, u) = match &status_out {
        Some(t) => count_status(t.as_str()),
        None => (0usize, 0usize),
    };
    let last_commit_short: String = match &log_out {
        Some(t) => {
            let trimmed = text::trim_str(t.as_str());
            truncate_commit(trimmed.as_str())
        },
        None => {
            let empty: Vec<char> = Vec::new();
            text::string_of(empty)
        },
    };
    GitInfo {
        repo_path,
        branch,
        is_dirty: m > 0 || u > 0,
        modified_files: m,
        untracked_files: u,
        last_commit_short,
    }
}

/// The parenthesized detached-head label, or empty when the description
/// query failed.
fn detached_label(describe_out: &Option<String>) -> (r: String)
    ensures
        r@ == match describe_out {
            Some(d) => seq!['('] + trim_spec(d@) + seq![')'],
            None => Seq::<char>::empty(),
        },
{
    match describe_out {
        Some(d) => {
            let t = text::trim_str(d.as_str());
            let mut out: Vec<char> = Vec::new();
            out.push('(');
            proof {
                assert(out@ =~= seq!['(']);
            }
            text::push_str_chars(&mut out, t.as_str());
            out.push(')');
            proof {
                assert(out@ =~= seq!['('] + trim_spec(d@) + seq![')']);
            }
            text::string_of(out)
        },
        None => {
            let empty: Vec<char> = Vec::new();
            let r = text::string_of(empty);
            proof {
                assert(r@ =~= Seq::<char>::empty());
            }
            r
        },
    }
}

/// The repository-selection policy: the root short-circuit wins, else the
/// explicitly configured paths, else the scanned paths when auto-detection
/// is on, else nothing.
pub open spec fn selected_path_views(
    root_is_repo: bool,
    explicit: Option<Seq<Seq<char>>>,
    auto_detect: bool,
    scanned: Seq<Seq<char>>,
) -> Seq<Seq<char>> {
    if root_is_repo {
        seq!["."@]
    } else {
        match explicit {
            Some(p) => p,
            None => if auto_detect {
                scanned
            } else {
                Seq::empty()
            },
        }
    }
}

/// Selects which repository paths to collect, as [`selected_path_views`]
/// describes.
pub fn select_repo_paths(
    root_is_repo: bool,
    explicit: Option<Vec<String>>,
    auto_detect: bool,
    scanned: Vec<String>,
) -> (r: Vec<String>)
    ensures
        string_views(r@) == selected_path_views(
            root_is_repo,
            match explicit {
                Some(v) => Some(string_views(v@)),
                None => None,
            },
            auto_detect,
            string_views(scanned@),
        ),
{
    if root_is_repo {
        let mut r: Vec<String> = Vec::new();
        r.push(String::from_str("."));
        proof {
            assert(string_views(r@) =~= seq!["."@]);
        }
        r
    } else {
        match explicit {
            Some(v) => v,
            None => {
                if auto_detect {
                    scanned
                } else {
                    let r: Vec<String> = Vec::new();
                    proof {
                        assert(string_views(r@) =~= Seq::<Seq<char>>::empty());
                    }
                    r
                }
            },
        }
    }
}

/// The root short-circuit has system-wide effect: when the working directory
/// is itself a working tree, the selection is exactly `["."]`, whatever
/// explicit paths were configured and whether or not auto-detection is on.
pub proof fn lemma_root_short_circuit(
    explicit: Option<Seq<Seq<char>>>,
    auto_detect: bool,
    scanned: Seq<Seq<char>>,
)
    ensures
        selected_path_views(true, explicit, auto_detect, scanned) == seq!["."@],
{
}

/// Repositories ordered by path.
pub open spec fn repos_sorted(s: Seq<GitInfo>) -> bool {
    forall|i: int, j: int| 0 <= i < j < s.len() ==> lex_le(s[i].repo_path@, s[j].repo_path@)
}

/// Inserts a repository into an already sorted vector, keeping it sorted.
#[verifier::loop_isolation(false)]
fn insert_sorted_repo(r: &mut Vec<GitInfo>, g: GitInfo)
    requires
        repos_sorted(old(r)@),
    ensures
        repos_sorted(final(r)@),
        final(r)@.to_multiset() == old(r)@.to_multiset().insert(g),
{
    let mut j: usize = 0;
    loop
        invariant
            j <= r@.len(),
            forall|k: int| 0 <= k < j ==> lex_le(r@[k].repo_path@, g.repo_path@),
        decreases r@.len() - j,
    {
        if j == r.len() {
            break ;
        }
        if !text::str_le(r[j].repo_path.as_str(), g.repo_path.as_str()) {
            break ;
        }
        j = j + 1;
    }
    proof {
        assert(j < r@.len() ==> !lex_le(r@[j as int].repo_path@, g.repo_path@));
    }
    let ghost prev = r@;
    r.insert(j, g);
    proof {
        broadcast use vstd::seq_lib::to_multiset_insert;

        assert(r@.to_multiset() =~= prev.to_multiset().insert(g));
        assert forall|x: int, y: int| 0 <= x < y < r@.len() implies lex_le(
            r@[x].repo_path@,
            r@[y].repo_path@,
        ) by {
            let ji = j as int;
            if y == ji {
                assert(lex_le(prev[x].repo_path@, g.repo_path@));
            } else if x == ji {
                text::lemma_lex_le_total(prev[ji].repo_path@, g.repo_path@);
                if y - 1 > ji {
                    text::lemma_lex_le_trans(
                        g.repo_path@,
                        prev[ji].repo_path@,
                        prev[y - 1].repo_path@,
                    );
                }
            } else if x < ji && y > ji {
                assert(lex_le(prev[x].repo_path@, prev[y - 1].repo_path@));
            }
        }
    }
}

/// Sorts collected repositories by path; the result is a permutation of the
/// input.
#[verifier::loop_isolation(false)]
pub fn sort_repos(v: Vec<GitInfo>) -> (r: Vec<GitInfo>)
    ensures
        repos_sorted(r@),
        r@.to_multiset() == v@.to_multiset(),
{
    let ghost orig = v@;
    let mut v = v;
    let mut r: Vec<GitInfo> = Vec::new();
    proof {
        broadcast use vstd::seq_lib::group_to_multiset_ensures;

        assert(r@.to_multiset().add(v@.to_multiset()) =~= v@.to_multiset());
    }
    while v.len() > 0
        invariant
            repos_sorted(r@),
            r@.to_multiset().add(v@.to_multiset()) == orig.to_multiset(),
        decreases v@.len(),
    {
        let ghost vprev = v@;
        let ghost rms = r@.to_multiset();
        let g = v.pop().unwrap();
        proof {
            broadcast use vstd::seq_lib::group_to_multiset_ensures;

            assert(v@ =~= vprev.remove(vprev.len() - 1));
            assert(v@.to_multiset() =~= vprev.to_multiset().remove(g));
        }
        insert_sorted_repo(&mut r, g);
        proof {
            assert(vprev.to_multiset().count(g) > 0) by {
                broadcast use vstd::seq_lib::group_to_multiset_ensures;

                assert(vprev.contains(g));
            }
            assert(r@.to_multiset().add(v@.to_multiset()) =~= rms.insert(g).add(
                vprev.to_multiset().remove(g),
            ));
            assert(rms.insert(g).add(vprev.to_multiset().remove(g)) =~= rms.add(
                vprev.to_multiset(),
            ));
        }
    }
    proof {
        broadcast use vstd::seq_lib::group_to_multiset_ensures;

        assert(r@.to_multiset() =~= r@.to_multiset().add(v@.to_multiset()));
    }
    r
}

/// Sorts the collected repositories by path and keeps only the first ten of
/// the sorted order, the fixed cap that bounds report size.
#[verifier::loop_isolation(false)]
pub fn finalize_repos(v: Vec<GitInfo>) -> (r: Vec<GitInfo>)
    ensures
        repos_sorted(r@),
        r@.len() == if v@.len() <= 10 {
            v@.len() as int
        } else {
            10
        },
        exists|full: Seq<GitInfo>|
            repos_sorted(full) && full.to_multiset() == v@.to_multiset() && r@ == #[trigger] full.take(
                r@.len() as int,
            ),
{
    let mut sorted = sort_repos(v);
    let ghost full = sorted@;
    proof {
        broadcast use vstd::seq_lib::group_to_multiset_ensures;

        assert(full.len() == full.to_multiset().len());
        assert(v@.len() == v@.to_multiset().len());
    }
    let mut r: Vec<GitInfo> = Vec::new();
    while r.len() < 10 && sorted.len() > 0
        invariant
            repos_sorted(full),
            r@.len() <= 10,
            r@ == full.take(r@.len() as int),
            sorted@ == full.skip(r@.len() as int),
            r@.len() + sorted@.len() == full.len(),
        decreases sorted@.len(),
    {
        let ghost done = r@.len() as int;
        let g = sorted.remove(0);
        proof {
            assert(full.skip(done)[0] == full[done]);
            assert(sorted@ =~= full.skip(done + 1));
        }
        r.push(g);
        proof {
            assert(r@ =~= full.take(done + 1));
        }
    }
    proof {
        if full.len() <= 10 {
            assert(r@.len() == full.len());
        } else {
            assert(r@.len() == 10);
        }
        assert(repos_sorted(r@)) by {
            assert(forall|x: int, y: int|
                0 <= x < y < r@.len() ==> r@[x] == full.take(r@.len() as int)[x] && r@[y]
                    == full.take(r@.len() as int)[y]);
        }
    }
    r
}

} // verus!
