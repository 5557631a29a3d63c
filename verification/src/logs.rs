//! Log files: which file a request reads, the tail it shows, and which
//! lines and files the retention clean-up keeps.
use vstd::prelude::*;

use crate::text::{ends_with, ends_with_spec, find, first_match, has_match, starts_with, starts_with_spec};

verus! {

/// The instant an RFC 3339 timestamp denotes, as `chrono`'s
/// `DateTime::parse_from_rfc3339` reads it (seconds since the epoch and
/// nanoseconds), or `None` where it rejects the text.
pub uninterp spec fn rfc3339_instant(s: Seq<char>) -> Option<(i64, u32)>;

/// Parses an RFC 3339 timestamp with `chrono::DateTime::parse_from_rfc3339`:
/// the named instant.
#[verifier::external_body]
pub(crate) fn parse_rfc3339(s: &str) -> (r: Option<(i64, u32)>)
    ensures
        r == rfc3339_instant(s@),
{
    chrono::DateTime::parse_from_rfc3339(s).ok().map(|dt| (dt.timestamp(), dt.timestamp_subsec_nanos()))
}

/// `a` is earlier than `b`.
pub open spec fn instant_before(a: (i64, u32), b: (i64, u32)) -> bool {
    a.0 < b.0 || (a.0 == b.0 && a.1 < b.1)
}

/// The value of the first `"time":"…"` field of a JSON log line: the text
/// between the marker and the next quote.
pub open spec fn json_time_spec(line: Seq<char>) -> Option<Seq<char>> {
    let marker = "\"time\":\""@;
    if has_match(line, marker) {
        let rest = line.skip(first_match(line, marker) + 8);
        if has_match(rest, "\""@) {
            Some(rest.take(first_match(rest, "\""@)))
        } else {
            None
        }
    } else {
        None
    }
}

/// Reads the `time` field of a JSON log line without parsing the JSON.
pub fn extract_json_time(line: &str) -> (r: Option<String>)
    ensures
        match (r, json_time_spec(line@)) {
            (Some(t), Some(w)) => t@ == w,
            (None, None) => true,
            _ => false,
        },
{
    proof {
        reveal_strlit("\"time\":\"");
    }
    let i = match find(line, "\"time\":\"") {
        Some(i) => i,
        None => return None,
    };
    let n = line.unicode_len();
    let rest = line.substring_char(i + 8, n);
    proof {
        assert(rest@ =~= line@.skip(i + 8));
    }
    let j = match find(rest, "\"") {
        Some(j) => j,
        None => return None,
    };
    let t = String::from_str(rest.substring_char(0, j));
    proof {
        assert(t@ =~= rest@.take(j as int));
    }
    Some(t)
}

/// A JSON log line is kept unless its `time` is a timestamp before `cutoff`.
pub open spec fn keep_line_spec(line: Seq<char>, cutoff: (i64, u32)) -> bool {
    match json_time_spec(line) {
        Some(t) => match rfc3339_instant(t) {
            Some(i) => !instant_before(i, cutoff),
            None => true,
        },
        None => true,
    }
}

/// Whether the retention clean-up keeps a JSON log line.
pub fn keep_log_line(line: &str, cutoff: (i64, u32)) -> (r: bool)
    ensures
        r == keep_line_spec(line@, cutoff),
{
    match extract_json_time(line) {
        Some(t) => match parse_rfc3339(t.as_str()) {
            Some(i) => !(i.0 < cutoff.0 || (i.0 == cutoff.0 && i.1 < cutoff.1)),
            None => true,
        },
        None => true,
    }
}

/// The lines of a log, and how many the whole file has.
#[derive(Debug, Clone)]
pub struct LogChunk {
    pub lines: Vec<String>,
    pub total_lines: usize,
}

/// The last `tail` lines of a log (all of them when it has fewer).
pub fn log_tail(all_lines: Vec<String>, tail: usize) -> (r: LogChunk)
    ensures
        r.total_lines == all_lines@.len(),
        r.lines@ == all_lines@.skip(
            if all_lines@.len() > tail {
                all_lines@.len() - tail
            } else {
                0
            },
        ),
{
    let total = all_lines.len();
    let start = if total > tail {
        total - tail
    } else {
        0
    };
    let mut lines: Vec<String> = Vec::new();
    let mut all = all_lines;
    let ghost orig = all@;
    let mut i: usize = total;
    while i > start
        invariant
            start <= i <= total,
            total == orig.len(),
            all@ == orig.subrange(0, i as int),
            lines@ == orig.subrange(i as int, total as int),
        decreases i,
    {
        let x = all.pop().unwrap();
        proof {
            assert(orig.subrange(i - 1, total as int) =~= seq![x] + lines@);
        }
        lines.insert(0, x);
        proof {
            assert(lines@ =~= orig.subrange(i - 1, total as int));
        }
        i = i - 1;
    }
    proof {
        assert(orig.subrange(start as int, total as int) =~= orig.skip(start as int));
    }
    LogChunk { lines, total_lines: total }
}

/// The access log a request reads: the rule's own log where a rule id is
/// given, the shared one otherwise.
pub open spec fn access_log_name_spec(rule_id: Option<Seq<char>>) -> Seq<char> {
    match rule_id {
        Some(id) => if id.len() > 0 {
            "rule_"@ + id + ".access.log"@
        } else {
            "access.log"@
        },
        None => "access.log"@,
    }
}

/// The file name of the access log a request reads.
pub fn access_log_name(rule_id: Option<&str>) -> (r: String)
    ensures
        r@ == access_log_name_spec(
            match rule_id {
                Some(s) => Some(s@),
                None => None,
            },
        ),
{
    match rule_id {
        Some(id) => if id.unicode_len() > 0 {
            let mut s = String::from_str("rule_");
            s.append(id);
            s.append(".access.log");
            s
        } else {
            String::from_str("access.log")
        },
        None => String::from_str("access.log"),
    }
}

/// A per-rule access log, as the metrics read them.
pub open spec fn is_rule_access_log_spec(name: Seq<char>) -> bool {
    starts_with_spec(name, "rule_"@) && ends_with_spec(name, ".access.log"@)
}

/// The file is a per-rule access log.
pub fn is_rule_access_log(name: &str) -> (r: bool)
    ensures
        r == is_rule_access_log_spec(name@),
{
    starts_with(name, "rule_") && ends_with(name, ".access.log")
}

/// What the retention clean-up does with a file of the logs directory.
#[derive(Debug, Clone, Copy, PartialEq, Eq)]
pub enum LogCleanup {
    /// Leave it alone.
    Skip,
    /// Empty it: it was last changed before the cutoff.
    Truncate,
    /// Drop its lines older than the cutoff.
    TrimLines,
}

/// The clean-up of one file: only `.log` files whose change time is known
/// are touched; stale ones are emptied, per-rule ones lose their old lines.
pub open spec fn log_cleanup_spec(name: Seq<char>, is_file: bool, modified_before_cutoff: Option<bool>) -> LogCleanup {
    if !is_file || !ends_with_spec(name, ".log"@) {
        LogCleanup::Skip
    } else {
        match modified_before_cutoff {
            None => LogCleanup::Skip,
            Some(true) => LogCleanup::Truncate,
            Some(false) => if starts_with_spec(name, "rule_"@) {
                LogCleanup::TrimLines
            } else {
                LogCleanup::Skip
            },
        }
    }
}

/// What the retention clean-up does with a file, given whether it is a
/// regular file and whether its change time (if known) is before the cutoff.
pub fn log_cleanup(name: &str, is_file: bool, modified_before_cutoff: Option<bool>) -> (r: LogCleanup)
    ensures
        r == log_cleanup_spec(name@, is_file, modified_before_cutoff),
{
    if !is_file || !ends_with(name, ".log") {
        return LogCleanup::Skip;
    }
    match modified_before_cutoff {
        None => LogCleanup::Skip,
        Some(true) => LogCleanup::Truncate,
        Some(false) => if starts_with(name, "rule_") {
            LogCleanup::TrimLines
        } else {
            LogCleanup::Skip
        },
    }
}

/// The kept lines written back, one per line.
pub open spec fn trimmed_text(kept: Seq<Seq<char>>) -> Seq<char>
    decreases kept.len(),
{
    if kept.len() == 0 {
        Seq::empty()
    } else {
        trimmed_text(kept.drop_last()) + kept.last() + seq!['\n']
    }
}

/// The text of a log file after its old lines are dropped.
pub fn trim_old_lines(lines: &[String], cutoff: (i64, u32)) -> (r: String)
    ensures
        r@ == trimmed_text(
            lines@.filter(|l: String| keep_line_spec(l@, cutoff)).map_values(|l: String| l@),
        ),
{
    let mut out = String::new();
    let mut i: usize = 0;
    let ghost keep = |l: String| keep_line_spec(l@, cutoff);
    proof {
        reveal_strlit("\n");
        assert(lines@.subrange(0, 0).filter(keep) =~= Seq::<String>::empty());
        assert(Seq::<String>::empty().map_values(|l: String| l@) =~= Seq::<Seq<char>>::empty());
    }
    while i < lines.len()
        invariant
            i <= lines@.len(),
            keep == (|l: String| keep_line_spec(l@, cutoff)),
            out@ == trimmed_text(lines@.subrange(0, i as int).filter(keep).map_values(|l: String| l@)),
            "\n"@ == seq!['\n'],
        decreases lines@.len() - i,
    {
        let ghost pre = lines@.subrange(0, i as int);
        let ghost next = lines@.subrange(0, i + 1);
        proof {
            assert(next.drop_last() =~= pre);
            reveal(Seq::filter);
            assert(next =~= pre.push(lines@[i as int]));
        }
        if keep_log_line(lines[i].as_str(), cutoff) {
            out.append(lines[i].as_str());
            out.append("\n");
            proof {
                let f = pre.filter(keep);
                assert(next.filter(keep) == f.push(lines@[i as int]));
                assert(f.push(lines@[i as int]).map_values(|l: String| l@) =~= f.map_values(
                    |l: String| l@,
                ).push(lines@[i as int]@));
                let m = f.map_values(|l: String| l@).push(lines@[i as int]@);
                assert(m.drop_last() =~= f.map_values(|l: String| l@));
            }
        } else {
            proof {
                assert(next.filter(keep) == pre.filter(keep));
            }
        }
        i = i + 1;
    }
    proof {
        assert(lines@.subrange(0, lines@.len() as int) =~= lines@);
    }
    out
}

} // verus!

verus! {

/// The log retention in days: the setting read as a `u64`, seven by default.
pub fn retention_days(setting: Option<&str>) -> (r: u64)
    ensures
        r == match setting {
            Some(s) => match crate::text::parse_u64_spec(s@) {
                Some(n) => n,
                None => 7,
            },
            None => 7,
        },
{
    match setting {
        Some(s) => match crate::text::parse_u64(s) {
            Some(n) => n,
            None => 7,
        },
        None => 7,
    }
}

} // verus!
