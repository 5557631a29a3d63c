//! The managed block of the system hosts file: how it is rendered from host
//! entries, how it replaces an earlier block, and how the outcome of an
//! elevated write is reported.
use vstd::prelude::*;

use crate::error::{outcome_is, AppError, ErrorKind};
use crate::models::HostEntry;
use crate::text::{
    contains, ends_with, find, first_match, has_match, is_first_match, lemma_first_match_exists, lemma_first_match_unique,
    matches_at, starts_with_spec, ends_with_spec,
};

verus! {

/// The first line of the managed block.
pub const BLOCK_START: &'static str = "# >>> Meridian managed — DO NOT EDIT THIS BLOCK";

/// The last line of the managed block.
pub const BLOCK_END: &'static str = "# <<< Meridian managed";

/// A line break.
pub open spec fn newline() -> Seq<char> {
    seq!['\n']
}

/// The platform whose hosts file is managed.
#[derive(Debug, Clone, Copy, PartialEq, Eq)]
pub enum HostOs {
    MacOs,
    Windows,
    Linux,
}

/// The path of the system hosts file.
pub open spec fn hosts_path_spec(windows: bool) -> Seq<char> {
    if windows {
        "C:\\Windows\\System32\\drivers\\etc\\hosts"@
    } else {
        "/etc/hosts"@
    }
}

/// The system hosts file path on Windows (`windows`) or elsewhere.
pub fn hosts_file_path(windows: bool) -> (r: &'static str)
    ensures
        r@ == hosts_path_spec(windows),
{
    if windows {
        "C:\\Windows\\System32\\drivers\\etc\\hosts"
    } else {
        "/etc/hosts"
    }
}

/// The hosts-file line of one entry: address, tab, host name, and the
/// comment after a tab and `# ` when there is one.
pub open spec fn entry_line(e: HostEntry) -> Seq<char> {
    match e.comment {
        Some(c) => e.ip@ + "\t"@ + e.hostname@ + "\t# "@ + c@,
        None => e.ip@ + "\t"@ + e.hostname@,
    }
}

/// Each entry's line, each preceded by a line break.
pub open spec fn entry_lines(es: Seq<HostEntry>) -> Seq<char>
    decreases es.len(),
{
    if es.len() == 0 {
        Seq::empty()
    } else {
        entry_lines(es.drop_last()) + newline() + entry_line(es.last())
    }
}

/// The managed block: the start marker, one line per entry, the end marker,
/// joined by line breaks.
pub open spec fn block_spec(es: Seq<HostEntry>) -> Seq<char> {
    BLOCK_START@ + entry_lines(es) + newline() + BLOCK_END@
}

fn entry_line_exec(e: &HostEntry) -> (r: String)
    ensures
        r@ == entry_line(*e),
{
    let mut s = String::from_str(e.ip.as_str());
    s.append("\t");
    s.append(e.hostname.as_str());
    match &e.comment {
        Some(c) => {
            s.append("\t# ");
            s.append(c.as_str());
        },
        None => {},
    }
    s
}

/// The managed block for the given entries.
pub fn generate_block(entries: &[HostEntry]) -> (r: String)
    ensures
        r@ == block_spec(entries@),
{
    let mut s = String::from_str(BLOCK_START);
    let mut i: usize = 0;
    proof {
        reveal_strlit("\n");
        assert(entries@.subrange(0, 0) =~= Seq::<HostEntry>::empty());
    }
    while i < entries.len()
        invariant
            i <= entries@.len(),
            s@ == BLOCK_START@ + entry_lines(entries@.subrange(0, i as int)),
            "\n"@ == newline(),
        decreases entries@.len() - i,
    {
        let line = entry_line_exec(&entries[i]);
        s.append("\n");
        s.append(line.as_str());
        proof {
            let es = entries@.subrange(0, i as int + 1);
            assert(es.drop_last() =~= entries@.subrange(0, i as int));
            assert(es.last() == entries@[i as int]);
        }
        i = i + 1;
    }
    proof {
        assert(entries@.subrange(0, entries@.len() as int) =~= entries@);
    }
    s.append("\n");
    s.append(BLOCK_END);
    s
}

/// Where the old block's text ends: after the first end marker and the line
/// break that follows it, if any.
pub open spec fn old_block_end(h: Seq<char>) -> int {
    let e0 = first_match(h, BLOCK_END@) + BLOCK_END@.len();
    if e0 < h.len() && h[e0] == '\n' {
        e0 + 1
    } else {
        e0
    }
}

/// The hosts text with `b` in place of the managed block. Where both markers
/// occur, the text from the first start marker to the end of the old block
/// gives way to `b` and a line break; otherwise `b` is appended after a blank
/// line (the text is first ended with a line break if it lacks one).
pub open spec fn replace_block_spec(h: Seq<char>, b: Seq<char>) -> Seq<char> {
    if has_match(h, BLOCK_START@) && has_match(h, BLOCK_END@) {
        h.subrange(0, first_match(h, BLOCK_START@)) + b + newline() + h.subrange(
            old_block_end(h),
            h.len() as int,
        )
    } else {
        let base = if h.len() > 0 && h.last() == '\n' {
            h
        } else {
            h + newline()
        };
        base + newline() + b + newline()
    }
}

/// Replaces the managed block of `hosts_content` by `new_block`, or appends
/// it when the text holds no block.
pub fn replace_block(hosts_content: &str, new_block: &str) -> (r: String)
    ensures
        r@ == replace_block_spec(hosts_content@, new_block@),
{
    let h = hosts_content;
    proof {
        reveal_strlit("\n");
    }
    let n = h.unicode_len();
    match (find(h, BLOCK_START), find(h, BLOCK_END)) {
        (Some(start_pos), Some(end_pos)) => {
            let end_len = BLOCK_END.unicode_len();
            let e0 = end_pos + end_len;
            let e = if e0 < n && h.get_char(e0) == '\n' {
                e0 + 1
            } else {
                e0
            };
            let mut result = String::from_str(h.substring_char(0, start_pos));
            result.append(new_block);
            result.append("\n");
            result.append(h.substring_char(e, n));
            result
        },
        _ => {
            let mut result = String::from_str(h);
            if !ends_with(h, "\n") {
                result.append("\n");
            }
            proof {
                if n > 0 {
                    assert(matches_at(h@, "\n"@, n - 1) <==> h@.last() == '\n') by {
                        assert(h@[n - 1 + 0] == h@.last());
                    }
                }
            }
            result.append("\n");
            result.append(new_block);
            result.append("\n");
            result
        },
    }
}

/// The new hosts text that a sync writes: the current text with its managed
/// block rendered from `entries`.
pub fn sync_to_system(current: &str, entries: &[HostEntry]) -> (r: String)
    ensures
        r@ == replace_block_spec(current@, block_spec(entries@)),
{
    let block = generate_block(entries);
    replace_block(current, block.as_str())
}

/// The AppleScript that writes standard input to `path` with administrator
/// rights.
pub fn macos_write_script(path: &str) -> (r: String)
    ensures
        r@ == "do shell script \"cat > '"@ + path@ + "'\" with administrator privileges"@,
{
    let mut s = String::from_str("do shell script \"cat > '");
    s.append(path);
    s.append("'\" with administrator privileges");
    s
}

/// The elevation helper reported that the user dismissed the prompt.
pub open spec fn cancelled_spec(os: HostOs, stderr: Seq<char>) -> bool {
    match os {
        HostOs::MacOs => has_match(stderr, "User canceled"@) || has_match(stderr, "-128"@),
        HostOs::Linux => has_match(stderr, "dismissed"@) || has_match(stderr, "Not authorized"@),
        HostOs::Windows => false,
    }
}

/// What an elevated write of the hosts file reports, given whether the write
/// (or the elevated helper) succeeded and what the helper wrote to stderr.
pub open spec fn write_outcome_spec(os: HostOs, succeeded: bool, stderr: Seq<char>) -> Result<
    (),
    (ErrorKind, Seq<char>),
> {
    if succeeded {
        Ok(())
    } else {
        match os {
            HostOs::Windows => Err(
                (
                    ErrorKind::Validation,
                    "Permission denied: please run Meridian as administrator to manage hosts"@,
                ),
            ),
            _ => if cancelled_spec(os, stderr) {
                Err((ErrorKind::Validation, "Permission denied: user cancelled authentication"@))
            } else {
                Err((ErrorKind::Config, "Failed to write hosts file: "@ + stderr))
            },
        }
    }
}

/// Reports the outcome of an elevated write of the hosts file on `os`:
/// success, a refused permission, or the helper's error output.
pub fn write_hosts_elevated(os: HostOs, succeeded: bool, stderr: &str) -> (r: Result<(), AppError>)
    ensures
        outcome_is(r, write_outcome_spec(os, succeeded, stderr@)),
{
    if succeeded {
        return Ok(());
    }
    let cancelled = match os {
        HostOs::MacOs => contains(stderr, "User canceled") || contains(stderr, "-128"),
        HostOs::Linux => contains(stderr, "dismissed") || contains(stderr, "Not authorized"),
        HostOs::Windows => false,
    };
    match os {
        HostOs::Windows => Err(
            AppError::Validation(
                String::from_str(
                    "Permission denied: please run Meridian as administrator to manage hosts",
                ),
            ),
        ),
        _ => if cancelled {
            Err(
                AppError::Validation(
                    String::from_str("Permission denied: user cancelled authentication"),
                ),
            )
        } else {
            let mut m = String::from_str("Failed to write hosts file: ");
            m.append(stderr);
            Err(AppError::Config(m))
        },
    }
}

} // verus!

verus! {

/// The characters of the start marker.
pub open spec fn start_marker_chars() -> Seq<char> {
    seq![
        '#', ' ', '>', '>', '>', ' ', 'M', 'e', 'r', 'i', 'd', 'i', 'a', 'n', ' ', 'm', 'a', 'n',
        'a', 'g', 'e', 'd', ' ', '—', ' ', 'D', 'O', ' ', 'N', 'O', 'T', ' ', 'E', 'D', 'I', 'T',
        ' ', 'T', 'H', 'I', 'S', ' ', 'B', 'L', 'O', 'C', 'K',
    ]
}

/// The characters of the end marker.
pub open spec fn end_marker_chars() -> Seq<char> {
    seq![
        '#', ' ', '<', '<', '<', ' ', 'M', 'e', 'r', 'i', 'd', 'i', 'a', 'n', ' ', 'm', 'a', 'n',
        'a', 'g', 'e', 'd',
    ]
}

/// A marker starts with `#`, holds no other `#` and no line break.
pub open spec fn marker_shape(m: Seq<char>) -> bool {
    &&& m.len() > 2
    &&& m[0] == '#'
    &&& forall|k: int| 0 < k < m.len() ==> #[trigger] m[k] != '#'
    &&& forall|k: int| 0 <= k < m.len() ==> #[trigger] m[k] != '\n'
}

proof fn lemma_markers()
    ensures
        BLOCK_START@ == start_marker_chars(),
        BLOCK_END@ == end_marker_chars(),
        marker_shape(BLOCK_START@),
        marker_shape(BLOCK_END@),
{
    reveal_strlit("# >>> Meridian managed — DO NOT EDIT THIS BLOCK");
    reveal_strlit("# <<< Meridian managed");
    assert(BLOCK_START@ =~= start_marker_chars());
    assert(BLOCK_END@ =~= end_marker_chars());
    assert(marker_shape(start_marker_chars()));
    assert(marker_shape(end_marker_chars()));
}

} // verus!

verus! {

/// A marker occurrence cannot cover a line break, nor a `#` after its first
/// character.
proof fn lemma_match_avoids(s: Seq<char>, m: Seq<char>, j: int, q: int)
    requires
        marker_shape(m),
        j <= q < j + m.len(),
        s[q] == '\n' || (j < q && s[q] == '#'),
    ensures
        !matches_at(s, m, j),
{
    if matches_at(s, m, j) {
        assert(s[j + (q - j)] == m[q - j]);
    }
}

proof fn lemma_match_in_prefix(a: Seq<char>, b: Seq<char>, m: Seq<char>, j: int)
    requires
        matches_at(a + b, m, j),
        j + m.len() <= a.len(),
    ensures
        matches_at(a, m, j),
{
    assert forall|k: int| 0 <= k < m.len() implies #[trigger] a[j + k] == m[k] by {
        assert((a + b)[j + k] == m[k]);
    }
}

proof fn lemma_match_in_suffix(a: Seq<char>, b: Seq<char>, m: Seq<char>, j: int)
    requires
        matches_at(a + b, m, j),
        a.len() <= j,
    ensures
        matches_at(b, m, j - a.len()),
{
    assert forall|k: int| 0 <= k < m.len() implies #[trigger] b[(j - a.len()) + k] == m[k] by {
        assert((a + b)[j + k] == m[k]);
    }
}

/// The text `pre`, then the block for `es` and a line break, then `post`, is
/// left as it is by a second replacement with the same block, when `pre`
/// holds neither marker and the block holds the end marker only as its last
/// line.
proof fn lemma_block_in_place(pre: Seq<char>, post: Seq<char>, es: Seq<HostEntry>)
    requires
        !has_match(pre, BLOCK_START@),
        !has_match(pre, BLOCK_END@),
        !has_match(BLOCK_START@ + entry_lines(es), BLOCK_END@),
    ensures
        replace_block_spec(pre + block_spec(es) + newline() + post, block_spec(es)) == pre
            + block_spec(es) + newline() + post,
{
    lemma_markers();
    let s_m = BLOCK_START@;
    let e_m = BLOCK_END@;
    let g = block_spec(es);
    let head = s_m + entry_lines(es);
    assert(g == head + newline() + e_m);
    let r = pre + g + newline() + post;
    let s = pre.len() as int;
    let t = s + g.len() - e_m.len();
    assert(r[s] == '#') by {
        assert(r[s] == g[0]);
        assert(g[0] == s_m[0]);
    }
    // The start marker first occurs where the block begins.
    assert(matches_at(r, s_m, s)) by {
        assert forall|k: int| 0 <= k < s_m.len() implies #[trigger] r[s + k] == s_m[k] by {
            assert(r[s + k] == g[k]);
            assert(g[k] == head[k]);
        }
    }
    assert forall|j: int| 0 <= j < s implies !matches_at(r, s_m, j) by {
        if matches_at(r, s_m, j) {
            if j + s_m.len() <= s {
                assert(r == pre + (g + newline() + post));
                lemma_match_in_prefix(pre, g + newline() + post, s_m, j);
            } else {
                lemma_match_avoids(r, s_m, j, s);
            }
        }
    }
    lemma_first_match_unique(r, s_m, s);
    // The end marker first occurs as the block's last line.
    assert(matches_at(r, e_m, t)) by {
        assert forall|k: int| 0 <= k < e_m.len() implies #[trigger] r[t + k] == e_m[k] by {
            assert(r[t + k] == g[g.len() - e_m.len() + k]);
        }
    }
    assert forall|j: int| 0 <= j < t implies !matches_at(r, e_m, j) by {
        if matches_at(r, e_m, j) {
            assert(r == pre + (g + newline() + post));
            if j + e_m.len() <= s {
                lemma_match_in_prefix(pre, g + newline() + post, e_m, j);
            } else if j < s {
                lemma_match_avoids(r, e_m, j, s);
            } else {
                lemma_match_in_suffix(pre, g + newline() + post, e_m, j);
                assert(g + newline() + post == g + (newline() + post));
                lemma_match_in_prefix(g, newline() + post, e_m, j - s);
                assert(g == head + (newline() + e_m));
                if j - s + e_m.len() <= head.len() {
                    lemma_match_in_prefix(head, newline() + e_m, e_m, j - s);
                } else {
                    assert(g[head.len() as int] == '\n');
                    lemma_match_avoids(g, e_m, j - s, head.len() as int);
                }
            }
        }
    }
    lemma_first_match_unique(r, e_m, t);
    assert(old_block_end(r) == s + g.len() + 1) by {
        assert(r[s + g.len()] == '\n');
    }
    assert(r.subrange(0, s) =~= pre);
    assert(r.subrange(s + g.len() + 1, r.len() as int) =~= post);
}

/// Syncing twice gives what syncing once gave: replacing the managed block
/// of a hosts text by the block of `entries`, then again by the same block,
/// changes nothing the second time. This holds for a text with no block, or
/// whose first end marker does not come before its first start marker, and
/// for entries whose lines do not hold the end marker.
pub proof fn law_sync_idempotent(h: Seq<char>, entries: Seq<HostEntry>)
    requires
        !has_match(BLOCK_START@ + entry_lines(entries), BLOCK_END@),
        (!has_match(h, BLOCK_START@) && !has_match(h, BLOCK_END@)) || (has_match(h, BLOCK_START@)
            && has_match(h, BLOCK_END@) && first_match(h, BLOCK_START@) <= first_match(
            h,
            BLOCK_END@,
        )),
    ensures
        replace_block_spec(
            replace_block_spec(h, block_spec(entries)),
            block_spec(entries),
        ) == replace_block_spec(h, block_spec(entries)),
{
    lemma_markers();
    let s_m = BLOCK_START@;
    let e_m = BLOCK_END@;
    let g = block_spec(entries);
    if has_match(h, s_m) && has_match(h, e_m) {
        let s = first_match(h, s_m);
        let pre = h.subrange(0, s);
        let post = h.subrange(old_block_end(h), h.len() as int);
        lemma_first_match_exists(h, s_m);
        lemma_first_match_exists(h, e_m);
        assert(h == pre + h.subrange(s, h.len() as int));
        assert forall|j: int| !matches_at(pre, s_m, j) by {
            if matches_at(pre, s_m, j) {
                assert(matches_at(h, s_m, j)) by {
                    assert forall|k: int| 0 <= k < s_m.len() implies #[trigger] h[j + k]
                        == s_m[k] by {
                        assert(pre[j + k] == s_m[k]);
                    }
                }
            }
        }
        assert forall|j: int| !matches_at(pre, e_m, j) by {
            if matches_at(pre, e_m, j) {
                assert(matches_at(h, e_m, j)) by {
                    assert forall|k: int| 0 <= k < e_m.len() implies #[trigger] h[j + k]
                        == e_m[k] by {
                        assert(pre[j + k] == e_m[k]);
                    }
                }
            }
        }
        lemma_block_in_place(pre, post, entries);
    } else {
        let base = if h.len() > 0 && h.last() == '\n' {
            h
        } else {
            h + newline()
        };
        let pre = base + newline();
        assert(pre[h.len() as int] == '\n');
        assert forall|j: int| !matches_at(pre, s_m, j) by {
            if matches_at(pre, s_m, j) {
                if j + s_m.len() <= h.len() {
                    assert(matches_at(h, s_m, j)) by {
                        assert forall|k: int| 0 <= k < s_m.len() implies #[trigger] h[j + k]
                            == s_m[k] by {
                            assert(pre[j + k] == s_m[k]);
                        }
                    }
                } else if j <= h.len() {
                    lemma_match_avoids(pre, s_m, j, h.len() as int);
                } else {
                    lemma_match_avoids(pre, s_m, j, base.len() as int);
                }
            }
        }
        assert forall|j: int| !matches_at(pre, e_m, j) by {
            if matches_at(pre, e_m, j) {
                if j + e_m.len() <= h.len() {
                    assert(matches_at(h, e_m, j)) by {
                        assert forall|k: int| 0 <= k < e_m.len() implies #[trigger] h[j + k]
                            == e_m[k] by {
                            assert(pre[j + k] == e_m[k]);
                        }
                    }
                } else if j <= h.len() {
                    lemma_match_avoids(pre, e_m, j, h.len() as int);
                } else {
                    lemma_match_avoids(pre, e_m, j, base.len() as int);
                }
            }
        }
        lemma_block_in_place(pre, Seq::empty(), entries);
        assert(pre + g + newline() + Seq::<char>::empty() =~= base + newline() + g + newline());
    }
}

} // verus!

verus! {

/// A managed block begins with the start marker and ends with the end marker.
pub proof fn law_block_framed(entries: Seq<HostEntry>)
    ensures
        starts_with_spec(block_spec(entries), BLOCK_START@),
        ends_with_spec(block_spec(entries), BLOCK_END@),
{
    let g = block_spec(entries);
    let head = BLOCK_START@ + entry_lines(entries) + newline();
    assert(g == head + BLOCK_END@);
    assert forall|k: int| 0 <= k < BLOCK_START@.len() implies #[trigger] g[0 + k]
        == BLOCK_START@[k] by {
        assert(g[k] == (BLOCK_START@ + entry_lines(entries))[k]);
    }
    assert forall|k: int| 0 <= k < BLOCK_END@.len() implies #[trigger] g[(g.len()
        - BLOCK_END@.len()) + k] == BLOCK_END@[k] by {
        assert(g[head.len() + k] == BLOCK_END@[k]);
    }
}

/// After a replacement the hosts text holds the new block.
pub proof fn law_replace_holds_block(h: Seq<char>, b: Seq<char>)
    ensures
        has_match(replace_block_spec(h, b), b),
{
    let r = replace_block_spec(h, b);
    if has_match(h, BLOCK_START@) && has_match(h, BLOCK_END@) {
        let pre = h.subrange(0, first_match(h, BLOCK_START@));
        assert forall|k: int| 0 <= k < b.len() implies #[trigger] r[pre.len() + k] == b[k] by {
            assert(r == pre + b + (newline() + h.subrange(old_block_end(h), h.len() as int)));
        }
        assert(matches_at(r, b, pre.len() as int));
    } else {
        let base = if h.len() > 0 && h.last() == '\n' {
            h
        } else {
            h + newline()
        };
        let pre = base + newline();
        assert forall|k: int| 0 <= k < b.len() implies #[trigger] r[pre.len() + k] == b[k] by {
            assert(r == pre + b + newline());
        }
        assert(matches_at(r, b, pre.len() as int));
    }
}

} // verus!

verus! {

/// The error of a host name that another entry already uses.
pub open spec fn hostname_taken(e: HostEntry) -> (ErrorKind, Seq<char>) {
    (ErrorKind::Conflict, "Hostname '"@ + e.hostname@ + "' already exists (id: "@ + e.id@ + ")"@)
}

/// Checks that no other entry uses a host name: `existing` is the entry found
/// with that name, `own_id` the id of the entry being changed (none when it
/// is being created).
pub fn check_hostname_free(existing: Option<&HostEntry>, own_id: Option<&str>) -> (r: Result<(), AppError>)
    ensures
        outcome_is(
            r,
            match existing {
                Some(e) => if own_id matches Some(id) && id@ == e.id@ {
                    Ok(())
                } else {
                    Err(hostname_taken(*e))
                },
                None => Ok(()),
            },
        ),
{
    match existing {
        None => Ok(()),
        Some(e) => {
            let own = match own_id {
                Some(id) => crate::text::str_eq(id, e.id.as_str()),
                None => false,
            };
            if own {
                Ok(())
            } else {
                let mut s = String::from_str("Hostname '");
                s.append(e.hostname.as_str());
                s.append("' already exists (id: ");
                s.append(e.id.as_str());
                s.append(")");
                Err(AppError::Conflict(s))
            }
        },
    }
}

/// The entry reported as already using a host name: the one found, unless
/// it is the entry being edited.
pub fn hostname_in_use(found: Option<HostEntry>, exclude_id: Option<&str>) -> (r: Option<HostEntry>)
    ensures
        r == match found {
            Some(e) => if exclude_id matches Some(x) && x@ == e.id@ {
                None
            } else {
                Some(e)
            },
            None => None,
        },
{
    match found {
        Some(e) => {
            let excluded = match exclude_id {
                Some(x) => crate::text::str_eq(x, e.id.as_str()),
                None => false,
            };
            if excluded {
                None
            } else {
                Some(e)
            }
        },
        None => None,
    }
}

} // verus!
