//! Filtering of the line-delimited command-history log.
//!
//! The log file is read outside and arrives as plain lines.  Parsing a line
//! and matching a pattern are the work of outside crates; each call stands
//! behind a trusted item whose result is a function of its arguments alone,
//! and every decision that uses those results is verified here.

use vstd::prelude::*;
use crate::text;
use crate::text::string_views;
use vstd::string::StrSliceExecFns;
use vstd::string::StringExecFns;

verus! {

/// One qualifying record of the history log.
pub struct HistoryEntry {
    /// The record's timestamp, an opaque string.
    pub timestamp: String,
    /// The command text.
    pub command: String,
}

/// The timestamp and command views of a sequence of entries.
pub open spec fn entry_views(s: Seq<HistoryEntry>) -> Seq<(Seq<char>, Seq<char>)> {
    s.map_values(|e: HistoryEntry| (e.timestamp@, e.command@))
}

/// What parsing one history-log line yields: nothing when the line is not
/// valid JSON, otherwise the `timestamp` and `command` string fields, each
/// empty when missing or not a string.  The outcome is a function of the
/// line alone.
pub uninterp spec fn history_record_of(line: Seq<char>) -> Option<(Seq<char>, Seq<char>)>;

/// Relies on `serde_json::from_str::<Value>`, `Value::get` and
/// `Value::as_str`: parsing is deterministic in the line text, and a missing
/// or non-string field is read as empty.
#[verifier::external_body]
fn parse_history_line(line: &str) -> (r: Option<HistoryEntry>)
    ensures
        match r {
            Some(e) => history_record_of(line@) == Some((e.timestamp@, e.command@)),
            None => history_record_of(line@) is None,
        },
{
    let v: serde_json::Value = match serde_json::from_str(line) {
        Ok(v) => v,
        Err(_) => return None,
    };
    let command = v.get("command").and_then(|x| x.as_str()).unwrap_or("").to_string();
    let timestamp = v.get("timestamp").and_then(|x| x.as_str()).unwrap_or("").to_string();
    Some(HistoryEntry { timestamp, command })
}

#[verifier::external_type_specification]
#[verifier::external_body]
pub struct ExRegex(regex::Regex);

/// Whether `regex::Regex::new` accepts the pattern under its default
/// configuration; deterministic in the pattern text.
pub uninterp spec fn regex_accepts(pattern: Seq<char>) -> bool;

/// Whether the pattern matches anywhere in the text; deterministic in the
/// pattern source and the text.
pub uninterp spec fn regex_match(pattern: Seq<char>, text: Seq<char>) -> bool;

/// A compiled pattern, kept together with its source text so that contracts
/// can speak of the pattern it was compiled from.  Values are only ever
/// built by [`CompiledPattern::compile`], so the held automaton is the one
/// compiled from `source`.
pub struct CompiledPattern {
    source: String,
    regex: regex::Regex,
}

/// The source text a pattern was compiled from.
pub closed spec fn pattern_source(cp: CompiledPattern) -> Seq<char> {
    cp.source@
}

/// The sources of a sequence of compiled patterns.
pub open spec fn pattern_sources(s: Seq<CompiledPattern>) -> Seq<Seq<char>> {
    s.map_values(|c: CompiledPattern| pattern_source(c))
}

impl CompiledPattern {
    /// Relies on `regex::Regex::new`: compilation of a pattern succeeds or
    /// fails deterministically in the pattern text alone.
    #[verifier::external_body]
    pub fn compile(pattern: &str) -> (r: Option<CompiledPattern>)
        ensures
            r is Some <==> regex_accepts(pattern@),
            match r {
                Some(cp) => pattern_source(cp) == pattern@,
                None => true,
            },
    {
        match regex::Regex::new(pattern) {
            Ok(re) => Some(CompiledPattern { source: pattern.to_string(), regex: re }),
            Err(_) => None,
        }
    }

    /// Relies on `regex::Regex::is_match`: the outcome is a function of the
    /// pattern source and the haystack alone.
    #[verifier::external_body]
    pub fn is_match(&self, text: &str) -> (r: bool)
        ensures
            r == regex_match(pattern_source(*self), text@),
    {
        self.regex.is_match(text)
    }
}

/// The patterns of the configured set that compile, in order; the others
/// are dropped silently.
pub open spec fn accepted_patterns(ps: Seq<Seq<char>>) -> Seq<Seq<char>>
    decreases ps.len(),
{
    if ps.len() == 0 {
        Seq::empty()
    } else {
        let rest = accepted_patterns(ps.drop_last());
        if regex_accepts(ps.last()) {
            rest.push(ps.last())
        } else {
            rest
        }
    }
}

/// A line qualifies when it parses, its command is non-empty, and the
/// pattern set is empty or some pattern matches the command.
pub open spec fn line_kept(line: Seq<char>, pats: Seq<Seq<char>>) -> bool {
    match history_record_of(line) {
        Some(rec) => rec.1.len() > 0 && (pats.len() == 0 || exists|k: int|
            0 <= k < pats.len() && regex_match(#[trigger] pats[k], rec.1)),
        None => false,
    }
}

/// The records of the qualifying lines, in file order.
pub open spec fn kept_records(lines: Seq<Seq<char>>, pats: Seq<Seq<char>>) -> Seq<
    (Seq<char>, Seq<char>),
>
    decreases lines.len(),
{
    if lines.len() == 0 {
        Seq::empty()
    } else {
        let rest = kept_records(lines.drop_last(), pats);
        if line_kept(lines.last(), pats) {
            rest.push(history_record_of(lines.last()).unwrap())
        } else {
            rest
        }
    }
}

/// The last `max` elements, or all of them if fewer.
pub open spec fn bounded_tail<A>(s: Seq<A>, max: nat) -> Seq<A> {
    if s.len() <= max {
        s
    } else {
        s.skip(s.len() - max)
    }
}

/// With an empty pattern set, a line is kept exactly when it parses and its
/// command is non-empty: every non-empty command qualifies.
pub proof fn lemma_empty_patterns_keep_all(line: Seq<char>)
    ensures
        line_kept(line, Seq::empty()) == match history_record_of(line) {
            Some(rec) => rec.1.len() > 0,
            None => false,
        },
{
}

/// Filters the history log: of the lines that parse, have a non-empty
/// command, and match the compiled pattern set (an empty set matches every
/// command), the most recent `max_entries` are kept, in file order.
#[verifier::loop_isolation(false)]
pub fn filter_history(lines: &Vec<String>, patterns: &Vec<String>, max_entries: usize) -> (r: Vec<
    HistoryEntry,
>)
    ensures
        entry_views(r@) == bounded_tail(
            kept_records(string_views(lines@), accepted_patterns(string_views(patterns@))),
            max_entries as nat,
        ),
{
    let ghost pv = string_views(patterns@);
    let mut cps: Vec<CompiledPattern> = Vec::new();
    let mut k: usize = 0;
    proof {
        assert(pv.take(0) =~= Seq::<Seq<char>>::empty());
        assert(pattern_sources(cps@) =~= accepted_patterns(pv.take(0)));
    }
    while k < patterns.len()
        invariant
            k <= patterns@.len(),
            pattern_sources(cps@) == accepted_patterns(pv.take(k as int)),
        decreases patterns@.len() - k,
    {
        let ghost before = pattern_sources(cps@);
        match CompiledPattern::compile(patterns[k].as_str()) {
            Some(cp) => {
                cps.push(cp);
                proof {
                    assert(pattern_sources(cps@) =~= before.push(pv[k as int]));
                }
            },
            None => {},
        }
        k = k + 1;
        proof {
            assert(pv.take(k as int).drop_last() =~= pv.take(k - 1));
            assert(pv.take(k as int).last() == pv[k - 1]);
            assert(pattern_sources(cps@) =~= accepted_patterns(pv.take(k as int)));
        }
    }
    proof {
        assert(pv.take(patterns@.len() as int) =~= pv);
    }
    let ghost pats = accepted_patterns(pv);
    let ghost lv = string_views(lines@);
    let mut acc: Vec<HistoryEntry> = Vec::new();
    let mut i: usize = 0;
    proof {
        assert(lv.take(0) =~= Seq::<Seq<char>>::empty());
        assert(entry_views(acc@) =~= kept_records(lv.take(0), pats));
    }
    while i < lines.len()
        invariant
            i <= lines@.len(),
            pattern_sources(cps@) == pats,
            entry_views(acc@) == kept_records(lv.take(i as int), pats),
        decreases lines@.len() - i,
    {
        let ghost before = entry_views(acc@);
        match parse_history_line(lines[i].as_str()) {
            Some(e) => {
                if e.command.as_str().unicode_len() > 0 {
                    let matched = if cps.len() == 0 {
                        true
                    } else {
                        any_pattern_matches(&cps, e.command.as_str())
                    };
                    proof {
                        assert(matched == (pats.len() == 0 || exists|x: int|
                            0 <= x < pats.len() && regex_match(#[trigger] pats[x], e.command@)));
                    }
                    if matched {
                        proof {
                            assert(line_kept(lv[i as int], pats));
                        }
                        acc.push(e);
                        proof {
                            assert(entry_views(acc@) =~= before.push(
                                history_record_of(lv[i as int]).unwrap(),
                            ));
                        }
                    } else {
                        proof {
                            assert(!line_kept(lv[i as int], pats));
                        }
                    }
                } else {
                    proof {
                        assert(!line_kept(lv[i as int], pats));
                    }
                }
            },
            None => {
                proof {
                    assert(!line_kept(lv[i as int], pats));
                }
            },
        }
        i = i + 1;
        proof {
            assert(lv.take(i as int).drop_last() =~= lv.take(i - 1));
            assert(lv.take(i as int).last() == lv[i - 1]);
            assert(entry_views(acc@) =~= kept_records(lv.take(i as int), pats));
        }
    }
    proof {
        assert(lv.take(lines@.len() as int) =~= lv);
    }
    let ghost full = entry_views(acc@);
    let ghost mut dropped: int = 0;
    while acc.len() > max_entries
        invariant
            0 <= dropped <= full.len(),
            entry_views(acc@) == full.skip(dropped),
            dropped > 0 ==> full.len() - dropped + 1 > max_entries,
            acc@.len() == full.len() - dropped,
        decreases acc@.len(),
    {
        let ghost before = acc@;
        let _ = acc.remove(0);
        proof {
            dropped = dropped + 1;
            assert(entry_views(acc@) =~= entry_views(before).drop_first());
            assert(entry_views(before).drop_first() =~= full.skip(dropped));
        }
    }
    proof {
        if full.len() <= max_entries {
            assert(dropped == 0);
            assert(full.skip(0) =~= full);
        } else {
            assert(acc@.len() == max_entries);
            assert(dropped == full.len() - max_entries);
        }
    }
    acc
}

/// Whether any compiled pattern matches the command.
#[verifier::loop_isolation(false)]
fn any_pattern_matches(cps: &Vec<CompiledPattern>, command: &str) -> (r: bool)
    ensures
        r == exists|x: int|
            0 <= x < cps@.len() && regex_match(#[trigger] pattern_sources(cps@)[x], command@),
{
    let mut j: usize = 0;
    while j < cps.len()
        invariant
            j <= cps@.len(),
            forall|x: int| 0 <= x < j ==> !regex_match(#[trigger] pattern_sources(cps@)[x], command@),
        decreases cps@.len() - j,
    {
        if cps[j].is_match(command) {
            proof {
                assert(regex_match(pattern_sources(cps@)[j as int], command@));
            }
            return true;
        }
        j = j + 1;
    }
    false
}

/// The default pattern set, aimed at build and environment-setup command
/// idioms; a configured set fully overrides it.
pub fn default_history_patterns() -> (r: Vec<String>)
    ensures
        string_views(r@) == seq![
            "lunch\\s+\\S+"@,
            "source\\s+.*envsetup"@,
            "export\\s+\\w+="@,
            "m\\s+\\S+"@,
            "mm\\b"@,
            "mma\\b"@,
        ],
{
    let mut r: Vec<String> = Vec::new();
    r.push(String::from_str("lunch\\s+\\S+"));
    r.push(String::from_str("source\\s+.*envsetup"));
    r.push(String::from_str("export\\s+\\w+="));
    r.push(String::from_str("m\\s+\\S+"));
    r.push(String::from_str("mm\\b"));
    r.push(String::from_str("mma\\b"));
    proof {
        assert(string_views(r@) =~= seq![
            "lunch\\s+\\S+"@,
            "source\\s+.*envsetup"@,
            "export\\s+\\w+="@,
            "m\\s+\\S+"@,
            "mm\\b"@,
            "mma\\b"@,
        ]);
    }
    r
}

} // verus!
