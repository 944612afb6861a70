//! Bounded-depth discovery of version-controlled working trees.
//!
//! The directory walk itself is outside work: the caller repeatedly asks for
//! the next directory to examine, looks at the file system, and reports back
//! whether that directory is a working tree and which subdirectories it has.
//! Every decision is made here: the depth bound, the skip rules for hidden and
//! denied directory names, recording a working tree, and never descending
//! into one.

use vstd::prelude::*;
use crate::text;
use crate::text::string_views;
use crate::text::strings_sorted;

verus! {

/// A directory path relative to the scan base, as its components.
pub struct RelPath {
    pub parts: Vec<String>,
}

/// The component views of a path.
pub open spec fn path_model(p: RelPath) -> Seq<Seq<char>> {
    p.parts@.map_values(|s: String| s@)
}

/// A usable directory component: non-empty and without a path separator.
pub open spec fn valid_component(c: Seq<char>) -> bool {
    c.len() > 0 && !c.contains('/')
}

/// All components of a path are usable.
pub open spec fn path_wf(p: RelPath) -> bool {
    forall|k: int| 0 <= k < path_model(p).len() ==> valid_component(#[trigger] path_model(p)[k])
}

/// Whether the scan descends into a directory with this name: hidden names
/// and a fixed deny list are skipped.
pub open spec fn keep_dir_name(n: Seq<char>) -> bool {
    &&& !(n.len() > 0 && n[0] == '.')
    &&& n != "node_modules"@
    &&& n != "target"@
    &&& n != "out"@
}

/// Decides [`keep_dir_name`] on a directory name.
pub fn keep_dir_name_exec(name: &str) -> (r: bool)
    ensures
        r == keep_dir_name(name@),
{
    let cs = text::chars_of(name);
    if cs.len() > 0 {
        if cs[0] == '.' {
            return false;
        }
    }
    if text::str_eq(name, "node_modules") {
        return false;
    }
    if text::str_eq(name, "target") {
        return false;
    }
    if text::str_eq(name, "out") {
        return false;
    }
    true
}

/// `a` is a leading part of `b` (possibly all of it).
pub open spec fn prefix_le(a: Seq<Seq<char>>, b: Seq<Seq<char>>) -> bool {
    a.len() <= b.len() && b.subrange(0, a.len() as int) == a
}

/// No element of the sequence is a leading part of another.
pub open spec fn pairwise_free(s: Seq<Seq<Seq<char>>>) -> bool {
    forall|i: int, j: int|
        0 <= i < s.len() && 0 <= j < s.len() && i != j ==> !prefix_le(#[trigger] s[i], #[trigger] s[j])
}

/// The subdirectories that pass the skip rules, each extending the examined
/// path by its name, in the order given.
pub open spec fn children_list(cur: Seq<Seq<char>>, names: Seq<Seq<char>>) -> Seq<Seq<Seq<char>>>
    decreases names.len(),
{
    if names.len() == 0 {
        Seq::empty()
    } else {
        let rest = children_list(cur, names.drop_last());
        if keep_dir_name(names.last()) {
            rest.push(cur.push(names.last()))
        } else {
            rest
        }
    }
}

/// The directories a step adds to the frontier: the subdirectories that pass
/// the skip rules, each extending the examined path — or none at all when the
/// depth bound forbids descending.
pub open spec fn children_models(
    cur: Seq<Seq<char>>,
    names: Seq<Seq<char>>,
    descend: bool,
) -> Seq<Seq<Seq<char>>> {
    if descend {
        children_list(cur, names)
    } else {
        Seq::empty()
    }
}

/// State of one bounded-depth scan.
pub struct ScanState {
    /// Directories discovered but not yet examined; the next one is last.
    pub pending: Vec<RelPath>,
    /// Working trees recorded so far.
    pub repos: Vec<RelPath>,
    /// Depth up to which the scan descends; the base is at depth zero.
    pub max_depth: usize,
}

impl ScanState {
    /// Models of the not-yet-examined directories.
    pub open spec fn pend_models(self) -> Seq<Seq<Seq<char>>> {
        self.pending@.map_values(|p: RelPath| path_model(p))
    }

    /// Models of the recorded working trees.
    pub open spec fn repo_models(self) -> Seq<Seq<Seq<char>>> {
        self.repos@.map_values(|p: RelPath| path_model(p))
    }

    /// Recorded and not-yet-examined directories together.
    pub open spec fn all_models(self) -> Seq<Seq<Seq<char>>> {
        self.repo_models() + self.pend_models()
    }

    /// The scan invariant: no tracked directory is a leading part of another
    /// (so no recorded repository can be a descendant of another), every
    /// component is usable, the frontier respects the depth bound, and the
    /// base itself is never recorded.
    pub open spec fn wf(self) -> bool {
        &&& pairwise_free(self.all_models())
        &&& forall|k: int|
            0 <= k < self.pending@.len() ==> path_wf(#[trigger] self.pending@[k])
                && path_model(self.pending@[k]).len() <= self.max_depth
        &&& forall|k: int|
            0 <= k < self.repos@.len() ==> path_wf(#[trigger] self.repos@[k]) && path_model(
                self.repos@[k],
            ).len() >= 1
    }

    /// A fresh scan: only the base directory is waiting, nothing is recorded.
    pub fn new(max_depth: usize) -> (st: ScanState)
        ensures
            st.wf(),
            st.repo_models() == Seq::<Seq<Seq<char>>>::empty(),
            st.pend_models() == seq![Seq::<Seq<char>>::empty()],
            st.max_depth == max_depth,
    {
        let root = RelPath { parts: Vec::new() };
        let mut pending: Vec<RelPath> = Vec::new();
        pending.push(root);
        let st = ScanState { pending, repos: Vec::new(), max_depth };
        proof {
            assert(st.repo_models() =~= Seq::<Seq<Seq<char>>>::empty());
            assert(path_model(st.pending@[0]) =~= Seq::<Seq<char>>::empty());
            assert(st.pend_models() =~= seq![Seq::<Seq<char>>::empty()]);
            assert(st.all_models() =~= st.pend_models());
        }
        st
    }

    /// Whether every discovered directory has been examined.
    pub fn done(&self) -> (r: bool)
        ensures
            r == (self.pend_models().len() == 0),
    {
        self.pending.len() == 0
    }

    /// The components of the directory to examine next.
    pub fn current(&self) -> (r: Vec<String>)
        requires
            self.pend_models().len() > 0,
        ensures
            string_views(r@) == self.pend_models().last(),
    {
        let r = text::clone_strings(&self.pending[self.pending.len() - 1].parts);
        proof {
            assert(string_views(r@) =~= self.pend_models().last());
        }
        r
    }

    /// Examines the next directory of the frontier: `is_repo` reports whether
    /// it is a working tree, `subdirs` its subdirectory names.  A working
    /// tree is recorded (unless it is the base itself) and not descended
    /// into; otherwise, subdirectories that pass the skip rules join the
    /// frontier as long as the depth bound allows.
    #[verifier::loop_isolation(false)]
    pub fn step(&mut self, is_repo: bool, subdirs: &Vec<String>)
        requires
            old(self).wf(),
            old(self).pend_models().len() > 0,
            forall|k: int| 0 <= k < subdirs@.len() ==> valid_component(#[trigger] subdirs@[k]@),
            forall|i: int, j: int|
                0 <= i < subdirs@.len() && 0 <= j < subdirs@.len() && i != j ==> subdirs@[i]@
                    != subdirs@[j]@,
        ensures
            final(self).wf(),
            final(self).max_depth == old(self).max_depth,
            is_repo ==> final(self).repo_models() == if old(self).pend_models().last().len() > 0 {
                old(self).repo_models().push(old(self).pend_models().last())
            } else {
                old(self).repo_models()
            },
            is_repo ==> final(self).pend_models() == old(self).pend_models().drop_last(),
            !is_repo ==> final(self).repo_models() == old(self).repo_models(),
            !is_repo ==> final(self).pend_models() == old(self).pend_models().drop_last()
                + children_models(
                old(self).pend_models().last(),
                string_views(subdirs@),
                old(self).pend_models().last().len() < old(self).max_depth,
            ),
    {
        let ghost all0 = self.all_models();
        let ghost r0 = self.repo_models();
        let ghost p0 = self.pend_models();
        let ghost cur = p0.last();
        let p = self.pending.pop().unwrap();
        proof {
            assert(path_model(p) == cur);
            assert(self.pend_models() =~= p0.drop_last());
        }
        if is_repo {
            if p.parts.len() > 0 {
                let ghost rold = self.repos@;
                self.repos.push(p);
                proof {
                    assert(self.repo_models() =~= r0.push(cur));
                    assert forall|i: int, j: int|
                        0 <= i < self.all_models().len() && 0 <= j < self.all_models().len() && i
                            != j implies !prefix_le(
                        #[trigger] self.all_models()[i],
                        #[trigger] self.all_models()[j],
                    ) by {
                        let n = self.all_models().len();
                        let rlen = r0.len() as int;
                        let f = |x: int|
                            if x < rlen {
                                x
                            } else if x == rlen {
                                all0.len() - 1
                            } else {
                                x - 1
                            };
                        assert(self.all_models() =~= r0.push(cur) + p0.drop_last());
                        assert(self.all_models()[i] == all0[f(i)]);
                        assert(self.all_models()[j] == all0[f(j)]);
                        assert(f(i) != f(j));
                    }
                }
            } else {
                proof {
                    assert(self.all_models() =~= r0 + p0.drop_last());
                    assert forall|i: int, j: int|
                        0 <= i < self.all_models().len() && 0 <= j < self.all_models().len() && i
                            != j implies !prefix_le(
                        #[trigger] self.all_models()[i],
                        #[trigger] self.all_models()[j],
                    ) by {
                        assert(self.all_models()[i] == all0[i]);
                        assert(self.all_models()[j] == all0[j]);
                    }
                }
            }
        } else {
            let descend = p.parts.len() < self.max_depth;
            proof {
                assert(self.all_models() =~= r0 + p0.drop_last());
                assert forall|i: int, j: int|
                    0 <= i < self.all_models().len() && 0 <= j < self.all_models().len() && i
                        != j implies !prefix_le(
                    #[trigger] self.all_models()[i],
                    #[trigger] self.all_models()[j],
                ) by {
                    assert(self.all_models()[i] == all0[i]);
                    assert(self.all_models()[j] == all0[j]);
                }
                assert(forall|x: int|
                    0 <= x < self.all_models().len() ==> #[trigger] self.all_models()[x] == all0[x]);
                assert(forall|x: int|
                    0 <= x < self.all_models().len() ==> !prefix_le(self.all_models()[x], cur)
                        && !prefix_le(cur, self.all_models()[x])) by {
                    assert(forall|x: int|
                        0 <= x < self.all_models().len() ==> all0[x] == #[trigger] self.all_models()[x]
                            && cur == all0[all0.len() - 1] && x < all0.len() - 1);
                }
            }
            if descend {
                let ghost base = self.pend_models();
                let ghost base_all = self.all_models();
                let names = subdirs;
                let mut k: usize = 0;
                proof {
                    assert(string_views(names@).take(0) =~= Seq::<Seq<char>>::empty());
                    assert(children_models(cur, string_views(names@).take(0), true)
                        =~= Seq::<Seq<Seq<char>>>::empty());
                    assert(self.pend_models() =~= base + children_models(
                        cur,
                        string_views(names@).take(0),
                        true,
                    ));
                }
                while k < names.len()
                    invariant
                        k <= names@.len(),
                        self.repos@ == old(self).repos@,
                        self.max_depth == old(self).max_depth,
                        self.pend_models() =~= base + children_models(
                            cur,
                            string_views(names@).take(k as int),
                            true,
                        ),
                        forall|x: int|
                            0 <= x < self.pending@.len() ==> path_wf(#[trigger] self.pending@[x])
                                && path_model(self.pending@[x]).len() <= self.max_depth,
                        pairwise_free(self.all_models()),
                        base.len() <= self.pend_models().len(),
                        base_all.len() == self.repos@.len() + base.len(),
                        forall|x: int|
                            0 <= x < base_all.len() ==> #[trigger] self.all_models()[x]
                                == base_all[x],
                        forall|x: int|
                            0 <= x < base_all.len() ==> !prefix_le(#[trigger] base_all[x], cur)
                                && !prefix_le(cur, base_all[x]),
                        forall|x: int|
                            base.len() <= x < self.pend_models().len()
                                ==> #[trigger] self.pend_models()[x].len() == cur.len() + 1
                                && self.pend_models()[x].subrange(0, cur.len() as int) == cur
                                && (exists|y: int|
                                0 <= y < k && self.pend_models()[x].last() == subdirs@[y]@),
                    decreases names@.len() - k,
                {
                    let ghost pend_before = self.pend_models();
                    let ghost all_before = self.all_models();
                    let keep = keep_dir_name_exec(names[k].as_str());
                    if keep {
                        let mut child_parts = text::clone_strings(&p.parts);
                        child_parts.push(names[k].clone());
                        let child = RelPath { parts: child_parts };
                        let ghost cm = path_model(child);
                        proof {
                            assert(cm =~= cur.push(names@[k as int]@));
                        }
                        self.pending.push(child);
                        proof {
                            assert(self.pend_models() =~= pend_before.push(cm));
                            assert(self.all_models() =~= all_before.push(cm));
                            lemma_new_child_free(all_before, cur, names@[k as int]@);
                            assert forall|x: int|
                                0 <= x < all_before.len() implies !prefix_le(all_before[x], cm)
                                && !prefix_le(cm, all_before[x]) by {
                                if x < base_all.len() {
                                    // recorded repos and untouched frontier: not related to cur
                                    assert(all_before[x] == base_all[x]);
                                    lemma_child_keeps_free(all_before[x], cur, names@[k as int]@);
                                } else {
                                    // an earlier child of this very step: same length, other last name
                                    let pi = x - (all_before.len() - pend_before.len());
                                    assert(all_before[x] == pend_before[pi]);
                                    assert(pend_before[pi].len() == cur.len() + 1);
                                    let y = choose|y: int|
                                        0 <= y < k && pend_before[pi].last() == subdirs@[y]@;
                                    assert(subdirs@[y]@ != subdirs@[k as int]@);
                                    lemma_siblings_free(cur, pend_before[pi], names@[k as int]@);
                                }
                            }
                            assert forall|i: int, j: int|
                                0 <= i < self.all_models().len() && 0 <= j
                                    < self.all_models().len() && i != j implies !prefix_le(
                                #[trigger] self.all_models()[i],
                                #[trigger] self.all_models()[j],
                            ) by {
                                let n = self.all_models().len();
                                if i < n - 1 && j < n - 1 {
                                    assert(self.all_models()[i] == all_before[i]);
                                    assert(self.all_models()[j] == all_before[j]);
                                }
                            }
                            let nv = string_views(names@);
                            assert(nv.take(k + 1).drop_last() =~= nv.take(k as int));
                            assert(nv.take(k + 1).last() == names@[k as int]@);
                            assert(children_models(cur, string_views(names@).take(k + 1), true)
                                =~= children_models(cur, string_views(names@).take(k as int), true).push(
                                cm,
                            ));
                            assert(self.pend_models() =~= base + children_models(
                                cur,
                                string_views(names@).take(k + 1),
                                true,
                            ));
                        }
                    } else {
                        proof {
                            let nv = string_views(names@);
                            assert(nv.take(k + 1).drop_last() =~= nv.take(k as int));
                            assert(nv.take(k + 1).last() == names@[k as int]@);
                            assert(children_models(cur, string_views(names@).take(k + 1), true)
                                =~= children_models(cur, string_views(names@).take(k as int), true));
                            assert(self.pend_models() =~= base + children_models(
                                cur,
                                string_views(names@).take(k + 1),
                                true,
                            ));
                        }
                    }
                    k = k + 1;
                }
                proof {
                    assert(string_views(names@).take(names@.len() as int) =~= string_views(names@));
                    assert(self.pend_models() =~= p0.drop_last() + children_models(
                        cur,
                        string_views(subdirs@),
                        true,
                    ));
                }
            } else {
                proof {
                    assert(children_models(cur, string_views(subdirs@), false)
                        =~= Seq::<Seq<Seq<char>>>::empty());
                    assert(self.pend_models() =~= p0.drop_last() + children_models(
                        cur,
                        string_views(subdirs@),
                        false,
                    ));
                }
            }
        }
    }
}

/// The joined relative path: components separated by a single '/'.
pub open spec fn join_path(parts: Seq<Seq<char>>) -> Seq<char>
    decreases parts.len(),
{
    if parts.len() == 0 {
        Seq::empty()
    } else if parts.len() == 1 {
        parts[0]
    } else {
        join_path(parts.drop_last()) + seq!['/'] + parts.last()
    }
}

/// Joins each path of a list of component lists.
pub open spec fn join_all(rs: Seq<Seq<Seq<char>>>) -> Seq<Seq<char>>
    decreases rs.len(),
{
    if rs.len() == 0 {
        Seq::empty()
    } else {
        join_all(rs.drop_last()).push(join_path(rs.last()))
    }
}

/// Joins the components of one path with '/' separators.
#[verifier::loop_isolation(false)]
pub fn join_path_exec(parts: &Vec<String>) -> (r: String)
    ensures
        r@ == join_path(string_views(parts@)),
{
    let ghost pv = string_views(parts@);
    let mut out: Vec<char> = Vec::new();
    let mut i: usize = 0;
    proof {
        assert(pv.take(0) =~= Seq::<Seq<char>>::empty());
        assert(out@ =~= join_path(pv.take(0)));
    }
    while i < parts.len()
        invariant
            i <= parts@.len(),
            out@ == join_path(pv.take(i as int)),
        decreases parts@.len() - i,
    {
        if i > 0 {
            out.push('/');
        }
        text::push_str_chars(&mut out, parts[i].as_str());
        i = i + 1;
        proof {
            assert(pv.take(i as int).drop_last() =~= pv.take(i - 1));
            assert(pv.take(i as int).last() == pv[i - 1]);
            if i == 1 {
                assert(out@ =~= join_path(pv.take(1)));
            } else {
                assert(out@ =~= join_path(pv.take(i - 1)) + seq!['/'] + pv[i - 1]);
                assert(out@ =~= join_path(pv.take(i as int)));
            }
        }
    }
    proof {
        assert(pv.take(parts@.len() as int) =~= pv);
    }
    text::string_of(out)
}

impl ScanState {
    /// The discovered repositories once the scan is complete: their joined
    /// relative paths, sorted for deterministic output.
    #[verifier::loop_isolation(false)]
    pub fn finish(self) -> (r: Vec<String>)
        requires
            self.wf(),
            self.pend_models().len() == 0,
        ensures
            strings_sorted(r@),
            string_views(r@).to_multiset() == join_all(self.repo_models()).to_multiset(),
    {
        let mut joined: Vec<String> = Vec::new();
        let mut i: usize = 0;
        proof {
            assert(self.repo_models().take(0) =~= Seq::<Seq<Seq<char>>>::empty());
            assert(string_views(joined@) =~= join_all(self.repo_models().take(0)));
        }
        while i < self.repos.len()
            invariant
                i <= self.repos@.len(),
                string_views(joined@) == join_all(self.repo_models().take(i as int)),
            decreases self.repos@.len() - i,
        {
            let s = join_path_exec(&self.repos[i].parts);
            joined.push(s);
            i = i + 1;
            proof {
                let rm = self.repo_models();
                assert(rm.take(i as int).drop_last() =~= rm.take(i - 1));
                assert(rm.take(i as int).last() == rm[i - 1]);
                assert(string_views(joined@) =~= join_all(rm.take(i - 1)).push(join_path(rm[i - 1])));
                assert(string_views(joined@) =~= join_all(rm.take(i as int)));
            }
        }
        proof {
            assert(self.repo_models().take(self.repos@.len() as int) =~= self.repo_models());
        }
        text::sort_strings(&joined)
    }
}

/// No discovered repository path is a descendant of another discovered one: a
/// working tree is recorded without descending into it, so two recorded paths
/// never stand in an ancestor line.
pub proof fn lemma_discovered_ancestor_free(st: ScanState, i: int, j: int)
    requires
        st.wf(),
        0 <= i < st.repo_models().len(),
        0 <= j < st.repo_models().len(),
        i != j,
    ensures
        !prefix_le(st.repo_models()[i], st.repo_models()[j]),
{
    assert(st.all_models()[i] == st.repo_models()[i]);
    assert(st.all_models()[j] == st.repo_models()[j]);
}

/// `d` names a directory below `a`: it extends `a` past a separator.
pub open spec fn path_descends(d: Seq<char>, a: Seq<char>) -> bool {
    a.len() < d.len() && d.subrange(0, a.len() as int) == a && d[a.len() as int] == '/'
}

/// A joined path decomposes at the front as well.
proof fn lemma_join_front(y: Seq<Seq<char>>)
    requires
        y.len() >= 2,
    ensures
        join_path(y) == y[0] + seq!['/'] + join_path(y.drop_first()),
    decreases y.len(),
{
    let ydl = y.drop_last();
    let ydf = y.drop_first();
    if y.len() == 2 {
        assert(ydl[0] == y[0] && ydl.len() == 1);
        assert(ydf[0] == y[1] && ydf.len() == 1);
        assert(join_path(y) == join_path(ydl) + seq!['/'] + y[1]);
        assert(join_path(ydl) == y[0]);
        assert(join_path(ydf) == y[1]);
    } else {
        lemma_join_front(ydl);
        assert(ydl.len() >= 2);
        assert(ydl[0] == y[0]);
        assert(ydl.drop_first() =~= ydf.drop_last());
        assert(ydf.last() == y.last());
        assert(ydf.len() >= 2);
        assert(join_path(y) == join_path(ydl) + seq!['/'] + y.last());
        assert(join_path(ydl) == y[0] + seq!['/'] + join_path(ydf.drop_last()));
        assert(join_path(ydf) == join_path(ydf.drop_last()) + seq!['/'] + y.last());
        assert((y[0] + seq!['/'] + join_path(ydf.drop_last())) + seq!['/'] + y.last() =~= y[0]
            + seq!['/'] + (join_path(ydf.drop_last()) + seq!['/'] + y.last()));
    }
}

/// A list of joined paths has one entry per path.
proof fn lemma_join_all_len(rs: Seq<Seq<Seq<char>>>)
    ensures
        join_all(rs).len() == rs.len(),
    decreases rs.len(),
{
    if rs.len() > 0 {
        lemma_join_all_len(rs.drop_last());
    }
}

/// Indexing a list of joined paths joins the indexed path.
proof fn lemma_join_all_index(rs: Seq<Seq<Seq<char>>>, i: int)
    requires
        0 <= i < rs.len(),
    ensures
        join_all(rs)[i] == join_path(rs[i]),
    decreases rs.len(),
{
    lemma_join_all_len(rs);
    lemma_join_all_len(rs.drop_last());
    if i < rs.len() - 1 {
        lemma_join_all_index(rs.drop_last(), i);
        assert(rs.drop_last()[i] == rs[i]);
    }
}

/// When one component list is not a leading part of another, the joined
/// path of the second does not descend below the joined path of the first.
proof fn lemma_join_not_descend(x: Seq<Seq<char>>, y: Seq<Seq<char>>)
    requires
        x.len() >= 1,
        y.len() >= 1,
        forall|k: int| 0 <= k < x.len() ==> valid_component(#[trigger] x[k]),
        forall|k: int| 0 <= k < y.len() ==> valid_component(#[trigger] y[k]),
        !prefix_le(x, y),
    ensures
        !path_descends(join_path(y), join_path(x)),
    decreases x.len(),
{
    let jx = join_path(x);
    let jy = join_path(y);
    if path_descends(jy, jx) {
        assert(forall|k: int| 0 <= k < jx.len() ==> jy[k] == #[trigger] jx[k]) by {
            assert(forall|k: int|
                0 <= k < jx.len() ==> #[trigger] jy.subrange(0, jx.len() as int)[k] == jy[k]);
        }
        let x0 = x[0];
        let y0 = y[0];
        if x.len() == 1 {
            assert(jx == x0);
            if y.len() == 1 {
                assert(jy == y0);
                assert(y0[x0.len() as int] == '/');
                assert(y0.contains('/'));
            } else {
                lemma_join_front(y);
                if x0.len() < y0.len() {
                    assert(jy[x0.len() as int] == y0[x0.len() as int]);
                    assert(y0.contains('/'));
                } else if x0.len() == y0.len() {
                    assert(forall|k: int| 0 <= k < y0.len() ==> jy[k] == #[trigger] y0[k]);
                    assert(forall|k: int| 0 <= k < x0.len() ==> jx[k] == #[trigger] x0[k]);
                    assert(x0 =~= y0);
                    assert(y.subrange(0, 1)[0] == y0);
                    assert(y.subrange(0, x.len() as int) =~= x);
                    assert(prefix_le(x, y));
                } else {
                    assert(jy[y0.len() as int] == '/');
                    assert(jx[y0.len() as int] == x0[y0.len() as int]);
                    assert(x0[y0.len() as int] == '/');
                    assert(x0.contains('/'));
                }
            }
        } else {
            lemma_join_front(x);
            assert(jx[x0.len() as int] == '/');
            if y.len() == 1 {
                assert(jy == y0);
                assert(y0[x0.len() as int] == '/');
                assert(y0.contains('/'));
            } else {
                lemma_join_front(y);
                if x0.len() < y0.len() {
                    assert(jy[x0.len() as int] == y0[x0.len() as int]);
                    assert(y0.contains('/'));
                } else if x0.len() > y0.len() {
                    assert(jy[y0.len() as int] == '/');
                    assert(jx[y0.len() as int] == x0[y0.len() as int]);
                    assert(x0.contains('/'));
                } else {
                    assert(forall|k: int| 0 <= k < y0.len() ==> jy[k] == #[trigger] y0[k]);
                    assert(forall|k: int| 0 <= k < x0.len() ==> jx[k] == #[trigger] x0[k]);
                    assert(x0 =~= y0);
                    let xr = x.drop_first();
                    let yr = y.drop_first();
                    let jxr = join_path(xr);
                    let jyr = join_path(yr);
                    let d = x0.len() as int + 1;
                    assert(jx == x0 + seq!['/'] + jxr);
                    assert(jy == y0 + seq!['/'] + jyr);
                    assert(forall|k: int| 0 <= k < jxr.len() ==> #[trigger] jxr[k] == jx[d + k]);
                    assert(forall|k: int| 0 <= k < jyr.len() ==> #[trigger] jyr[k] == jy[d + k]);
                    assert(jxr.len() < jyr.len());
                    assert(forall|k: int| 0 <= k < jxr.len() ==> #[trigger] jyr[k] == jxr[k]);
                    assert(jyr.subrange(0, jxr.len() as int) =~= jxr);
                    assert(jyr[jxr.len() as int] == jy[jx.len() as int]);
                    assert(path_descends(jyr, jxr));
                    assert(!prefix_le(xr, yr)) by {
                        if prefix_le(xr, yr) {
                            assert(forall|k: int|
                                1 <= k < x.len() ==> #[trigger] y[k] == yr.subrange(
                                    0,
                                    xr.len() as int,
                                )[k - 1]);
                            assert(y.subrange(0, x.len() as int) =~= x);
                            assert(prefix_le(x, y));
                        }
                    }
                    assert(forall|k: int| 0 <= k < xr.len() ==> valid_component(#[trigger] xr[k]));
                    assert(forall|k: int| 0 <= k < yr.len() ==> valid_component(#[trigger] yr[k]));
                    lemma_join_not_descend(xr, yr);
                }
            }
        }
    }
}

/// No discovered repository path is a descendant of another discovered one,
/// also as the joined relative paths that the finished scan reports: one
/// never extends another past a separator.
pub proof fn lemma_discovered_paths_ancestor_free(st: ScanState, i: int, j: int)
    requires
        st.wf(),
        0 <= i < st.repo_models().len(),
        0 <= j < st.repo_models().len(),
        i != j,
    ensures
        !path_descends(join_all(st.repo_models())[j], join_all(st.repo_models())[i]),
{
    let rs = st.repo_models();
    lemma_join_all_index(rs, i);
    lemma_join_all_index(rs, j);
    lemma_discovered_ancestor_free(st, i, j);
    assert(rs[i] == path_model(st.repos@[i]));
    assert(rs[j] == path_model(st.repos@[j]));
    assert(path_wf(st.repos@[i]) && path_wf(st.repos@[j]));
    lemma_join_not_descend(rs[i], rs[j]);
}

/// The property carries to any listing of the discovered paths: in every
/// sequence of strings holding exactly the joined repository paths — the
/// sorted list that [`ScanState::finish`] returns among them — no entry is
/// a descendant of another.
pub proof fn lemma_finish_paths_ancestor_free(st: ScanState, out: Seq<String>, i: int, j: int)
    requires
        st.wf(),
        string_views(out).to_multiset() == join_all(st.repo_models()).to_multiset(),
        0 <= i < out.len(),
        0 <= j < out.len(),
        i != j,
    ensures
        !path_descends(out[j]@, out[i]@),
{
    broadcast use vstd::seq_lib::group_to_multiset_ensures;

    if out[i]@ != out[j]@ {
        let joined = join_all(st.repo_models());
        assert(string_views(out)[i] == out[i]@);
        assert(string_views(out)[j] == out[j]@);
        assert(string_views(out).contains(out[i]@));
        assert(string_views(out).contains(out[j]@));
        assert(string_views(out).to_multiset().count(out[i]@) > 0);
        assert(string_views(out).to_multiset().count(out[j]@) > 0);
        assert(joined.to_multiset().count(out[i]@) > 0);
        assert(joined.to_multiset().count(out[j]@) > 0);
        assert(joined.contains(out[i]@));
        assert(joined.contains(out[j]@));
        let ki = choose|k: int| 0 <= k < joined.len() && joined[k] == out[i]@;
        let kj = choose|k: int| 0 <= k < joined.len() && joined[k] == out[j]@;
        lemma_join_all_len(st.repo_models());
        lemma_discovered_paths_ancestor_free(st, ki, kj);
    }
}

/// A child of a directory that is unrelated to another tracked directory is
/// itself unrelated to it.
proof fn lemma_child_keeps_free(o: Seq<Seq<char>>, cur: Seq<Seq<char>>, n: Seq<char>)
    requires
        !prefix_le(o, cur),
        !prefix_le(cur, o),
    ensures
        !prefix_le(o, cur.push(n)),
        !prefix_le(cur.push(n), o),
{
    let c = cur.push(n);
    if prefix_le(o, c) {
        if o.len() <= cur.len() {
            assert(c.subrange(0, o.len() as int) =~= cur.subrange(0, o.len() as int));
            assert(prefix_le(o, cur));
        } else {
            assert(o.len() == c.len());
            assert(o =~= c);
            assert(o.subrange(0, cur.len() as int) =~= cur);
            assert(prefix_le(cur, o));
        }
    }
    if prefix_le(c, o) {
        assert(o.subrange(0, cur.len() as int) =~= o.subrange(0, c.len() as int).subrange(
            0,
            cur.len() as int,
        ));
        assert(o.subrange(0, c.len() as int).subrange(0, cur.len() as int) =~= cur);
        assert(prefix_le(cur, o));
    }
}

/// The new child is not a leading part of the directory it was split from.
proof fn lemma_new_child_free(all: Seq<Seq<Seq<char>>>, cur: Seq<Seq<char>>, n: Seq<char>)
    ensures
        !prefix_le(cur.push(n), cur),
{
}

/// Two children of one directory with different final components are not
/// leading parts of each other.
proof fn lemma_siblings_free(cur: Seq<Seq<char>>, c1: Seq<Seq<char>>, n2: Seq<char>)
    requires
        c1.len() == cur.len() + 1,
        c1.subrange(0, cur.len() as int) == cur,
        c1.last() != n2,
    ensures
        !prefix_le(c1, cur.push(n2)),
        !prefix_le(cur.push(n2), c1),
{
    let c2 = cur.push(n2);
    if prefix_le(c1, c2) {
        assert(c2.subrange(0, c1.len() as int) =~= c2);
        assert(c1 == c2);
        assert(c1.last() == n2);
    }
    if prefix_le(c2, c1) {
        assert(c1.subrange(0, c2.len() as int) =~= c1);
        assert(c2 == c1);
        assert(c1.last() == n2);
    }
}

} // verus!
