//! Cross-process snapshots of script threads: how their files are named, which
//! files a collection reads, and which snapshots it keeps.

use vstd::prelude::*;

use crate::decimal::{
    decimal, is_digit, lemma_decimal_injective, lemma_decimal_roundtrip, parse_u32, parse_unsigned,
    push_decimal,
};
use crate::procfs::{file_name, find_last, path_file_name};
use crate::text::{chars_of, push_str};

use std::time::{SystemTime, SystemTimeError, UNIX_EPOCH};

verus! {

/// Snapshots older than this many milliseconds are dropped.
pub const STALE_MS: u64 = 10_000;

/// Live script-thread stats for one tab (or one origin of a tab).
#[derive(Clone)]
pub struct ScriptTabStats {
    /// Process that owns the script thread.
    pub pid: u32,
    /// OS thread id of the script thread.
    pub tid: u32,
    /// Embedder webview id display string.
    pub webview_id: String,
    /// Top-level document URL on this thread.
    pub url: String,
    /// SpiderMonkey heap size (`JSGC_BYTES`).
    pub js_heap_bytes: u64,
    /// Unix time in milliseconds when this snapshot was written.
    pub updated_ms: u64,
}

// ---------------------------------------------------------------------------
// File names
// ---------------------------------------------------------------------------

/// `{pid}-{tid}.json`: the file that holds the snapshot of one script thread.
pub open spec fn stats_file_name_text(pid: u32, tid: u32) -> Seq<char> {
    decimal(pid as nat) + seq!['-'] + decimal(tid as nat) + ".json"@
}

/// `{pid}-{tid}.{stamp}.tmp`: the file a snapshot is first written to.
pub open spec fn temporary_file_name_text(pid: u32, tid: u32, stamp: u64) -> Seq<char> {
    decimal(pid as nat) + seq!['-'] + decimal(tid as nat) + seq!['.'] + decimal(stamp as nat)
        + ".tmp"@
}

/// The name of the file holding the snapshot of thread `tid` of process `pid`.
pub fn stats_file_name(pid: u32, tid: u32) -> (name: String)
    ensures
        name@ == stats_file_name_text(pid, tid),
{
    let mut name = String::new();
    push_decimal(&mut name, pid as u64);
    push_str(&mut name, "-");
    push_decimal(&mut name, tid as u64);
    push_str(&mut name, ".json");
    proof {
        reveal_strlit("-");
    }
    assert(name@ =~= stats_file_name_text(pid, tid));
    name
}

/// The name of the temporary file a snapshot is written to before it is
/// moved into place.
pub fn temporary_file_name(pid: u32, tid: u32, stamp: u64) -> (name: String)
    ensures
        name@ == temporary_file_name_text(pid, tid, stamp),
{
    let mut name = String::new();
    push_decimal(&mut name, pid as u64);
    push_str(&mut name, "-");
    push_decimal(&mut name, tid as u64);
    push_str(&mut name, ".");
    push_decimal(&mut name, stamp);
    push_str(&mut name, ".tmp");
    proof {
        reveal_strlit("-");
        reveal_strlit(".");
    }
    assert(name@ =~= temporary_file_name_text(pid, tid, stamp));
    name
}

/// `Path::extension` of a file name: what follows its last `.`, unless that
/// `.` starts the name, or the name is `..`.
pub open spec fn file_extension(name: Seq<char>) -> Option<Seq<char>> {
    if name == seq!['.', '.'] {
        None
    } else {
        match name.index_of_last('.') {
            Some(i) => if i > 0 {
                Some(name.skip(i + 1))
            } else {
                None
            },
            None => None,
        }
    }
}

/// A file that a collection skips: one being written, named `*.tmp`.
pub open spec fn is_temporary_name(name: Seq<char>) -> bool {
    file_extension(name) == Some("tmp"@)
}

/// Whether the file `name` in the snapshot directory is a temporary one.
pub fn is_temporary_file(name: &str) -> (r: bool)
    ensures
        r == is_temporary_name(name@),
{
    let cs = chars_of(name);
    proof {
        reveal_strlit("tmp");
        cs@.index_of_last_ensures('.');
    }
    if cs.len() == 2 && cs[0] == '.' && cs[1] == '.' {
        assert(cs@ =~= seq!['.', '.']);
        return false;
    }
    assert(cs@ != seq!['.', '.']);
    match find_last(cs.as_slice(), '.') {
        Some(i) => {
            if i == 0 {
                return false;
            }
            let r = cs.len() - i == 4 && cs[i + 1] == 't' && cs[i + 2] == 'm' && cs[i + 3] == 'p';
            assert(r ==> cs@.skip(i + 1) =~= "tmp"@);
            assert(cs@.skip(i + 1) == "tmp"@ ==> cs@.skip(i + 1).len() == 3 && cs@.skip(i + 1)[0]
                == 't' && cs@.skip(i + 1)[1] == 'm' && cs@.skip(i + 1)[2] == 'p');
            r
        },
        None => false,
    }
}

// ---------------------------------------------------------------------------
// Collecting snapshots
// ---------------------------------------------------------------------------

/// A snapshot written at `updated_ms` is stale at `now` when more than
/// `STALE_MS` have passed (a clock that went back counts as no time).
pub open spec fn is_stale(now: u64, updated_ms: u64) -> bool {
    now > updated_ms && now - updated_ms > STALE_MS
}

/// What a collection does with one snapshot file.
pub enum StatsEntry {
    /// Report this snapshot.
    Keep(ScriptTabStats),
    /// Delete the file: it could not be read as a snapshot, or it is stale.
    Remove,
}

/// The decision for one snapshot file read at `now`: `parsed` is the snapshot
/// it holds, or `None` when its contents are not a snapshot.
pub fn triage_stats_file(now: u64, parsed: Option<ScriptTabStats>) -> (r: StatsEntry)
    ensures
        match parsed {
            None => r is Remove,
            Some(stats) => if is_stale(now, stats.updated_ms) {
                r is Remove
            } else {
                r == StatsEntry::Keep(stats)
            },
        },
{
    match parsed {
        None => StatsEntry::Remove,
        Some(stats) => {
            if now.saturating_sub(stats.updated_ms) > STALE_MS {
                StatsEntry::Remove
            } else {
                StatsEntry::Keep(stats)
            }
        },
    }
}

// ---------------------------------------------------------------------------
// Thread ids and the clock
// ---------------------------------------------------------------------------

/// The id of the current thread from the target of `/proc/thread-self`
/// (`None` when it could not be read), else the process id.
pub open spec fn thread_id_from(link: Option<Seq<char>>, process_id: u32) -> u32 {
    match link {
        Some(l) => match path_file_name(l) {
            Some(n) => match parse_unsigned(n, u32::MAX as nat) {
                Some(v) => v as u32,
                None => process_id,
            },
            None => process_id,
        },
        None => process_id,
    }
}

/// The current thread's id, from the target of `/proc/thread-self`, falling
/// back to the process id.
pub fn thread_id_from_link(link: Option<&str>, process_id: u32) -> (tid: u32)
    ensures
        tid == thread_id_from(
            match link {
                Some(l) => Some(l@),
                None => None,
            },
            process_id,
        ),
{
    match link {
        Some(l) => match file_name(l) {
            Some(n) => match parse_u32(n.as_slice()) {
                Some(v) => v,
                None => process_id,
            },
            None => process_id,
        },
        None => process_id,
    }
}

/// `std::time::SystemTime`, carried through opaquely.
#[verifier::external_type_specification]
#[verifier::external_body]
pub struct ExSystemTime(SystemTime);

/// `std::time::SystemTimeError`, carried through opaquely.
#[verifier::external_type_specification]
#[verifier::external_body]
pub struct ExSystemTimeError(SystemTimeError);

/// Calls `SystemTime::now`; the clock's reading is not stated.
#[verifier::external_body]
fn system_now() -> SystemTime {
    SystemTime::now()
}

/// Calls `SystemTime::duration_since(UNIX_EPOCH)`; which outcome comes back
/// depends on the clock and is not stated.
#[verifier::external_body]
fn since_unix_epoch(t: &SystemTime) -> Result<std::time::Duration, SystemTimeError> {
    t.duration_since(UNIX_EPOCH)
}

/// Calls `Duration::as_millis`; the duration's length is not modelled, so
/// nothing is stated of the result.
#[verifier::external_body]
fn duration_as_millis(d: &std::time::Duration) -> u128 {
    d.as_millis()
}

/// The millisecond count stamped on a snapshot, from the milliseconds since
/// the Unix epoch (`None` when the clock reads before the epoch): the count
/// truncated to 64 bits, or 0.
pub fn epoch_millis_or_zero(m: Option<u128>) -> (r: u64)
    ensures
        r == match m {
            Some(v) => v as u64,
            None => 0,
        },
{
    match m {
        Some(v) => v as u64,
        None => 0,
    }
}

/// Milliseconds since the Unix epoch, truncated to 64 bits; 0 when the clock
/// reads before the epoch. The wall clock may read any time and is not
/// monotonic, so every `u64` is a possible result and none is promised; what
/// becomes of the reading is stated by `epoch_millis_or_zero`.
fn now_ms() -> u64 {
    let since_epoch = match since_unix_epoch(&system_now()) {
        Ok(d) => Some(duration_as_millis(&d)),
        Err(_) => None,
    };
    epoch_millis_or_zero(since_epoch)
}

/// Current time in milliseconds since the Unix epoch, as `now_ms` reads it:
/// the clock's reading is not promised, its conversion is that of
/// `epoch_millis_or_zero`.
pub fn unix_time_ms() -> u64 {
    now_ms()
}

// ---------------------------------------------------------------------------
// Laws
// ---------------------------------------------------------------------------

/// Different script threads never share a snapshot file.
pub proof fn law_stats_names_distinct(pid1: u32, tid1: u32, pid2: u32, tid2: u32)
    requires
        stats_file_name_text(pid1, tid1) == stats_file_name_text(pid2, tid2),
    ensures
        pid1 == pid2,
        tid1 == tid2,
{
    reveal_strlit(".json");
    let a = decimal(pid1 as nat);
    let b = decimal(pid2 as nat);
    let s = stats_file_name_text(pid1, tid1);
    lemma_decimal_roundtrip(pid1 as nat);
    lemma_decimal_roundtrip(pid2 as nat);
    lemma_decimal_roundtrip(tid1 as nat);
    lemma_decimal_roundtrip(tid2 as nat);
    assert(s == a + (seq!['-'] + decimal(tid1 as nat) + ".json"@));
    assert(s == b + (seq!['-'] + decimal(tid2 as nat) + ".json"@));
    if a.len() < b.len() {
        assert(s[a.len() as int] == '-');
        assert(s[a.len() as int] == b[a.len() as int]);
        assert(is_digit(b[a.len() as int]));
    }
    if b.len() < a.len() {
        assert(s[b.len() as int] == '-');
        assert(s[b.len() as int] == a[b.len() as int]);
        assert(is_digit(a[b.len() as int]));
    }
    assert(a.len() == b.len());
    assert(a =~= s.take(a.len() as int));
    assert(b =~= s.take(b.len() as int));
    lemma_decimal_injective(pid1 as nat, pid2 as nat);
    let c = decimal(tid1 as nat);
    let d = decimal(tid2 as nat);
    assert(s.len() == a.len() + 1 + c.len() + 5);
    assert(s.len() == b.len() + 1 + d.len() + 5);
    assert(c =~= s.subrange(a.len() + 1 as int, (a.len() + 1 + c.len()) as int));
    assert(d =~= s.subrange(b.len() + 1 as int, (b.len() + 1 + d.len()) as int));
    lemma_decimal_injective(tid1 as nat, tid2 as nat);
}

/// The index of the last `.` in `name`, when `name` ends with the `.` at `i`
/// followed by characters that are not `.`.
proof fn lemma_last_dot(name: Seq<char>, i: int)
    requires
        0 <= i < name.len(),
        name[i] == '.',
        forall|j: int| i < j < name.len() ==> name[j] != '.',
    ensures
        name.index_of_last('.') == Some(i),
{
    name.index_of_last_ensures('.');
    assert(name.contains('.'));
}

/// A collection never skips a published snapshot: the final file of a
/// snapshot is not a temporary one.
pub proof fn law_stats_file_not_temporary(pid: u32, tid: u32)
    ensures
        !is_temporary_name(stats_file_name_text(pid, tid)),
{
    reveal_strlit(".json");
    reveal_strlit("tmp");
    let s = stats_file_name_text(pid, tid);
    lemma_decimal_roundtrip(pid as nat);
    lemma_decimal_roundtrip(tid as nat);
    let i = s.len() - 5;
    assert(s[i] == '.');
    lemma_last_dot(s, i);
    assert(s.skip(i + 1) =~= seq!['j', 's', 'o', 'n']);
    assert(s.skip(i + 1).len() != 3);
}

/// A collection never reads a snapshot that is still being written: the
/// temporary file of a snapshot is always a temporary one.
pub proof fn law_temporary_file_is_skipped(pid: u32, tid: u32, stamp: u64)
    ensures
        is_temporary_name(temporary_file_name_text(pid, tid, stamp)),
{
    reveal_strlit(".tmp");
    reveal_strlit("tmp");
    let s = temporary_file_name_text(pid, tid, stamp);
    lemma_decimal_roundtrip(pid as nat);
    let i = s.len() - 4;
    assert(s[i] == '.');
    lemma_last_dot(s, i);
    assert(s.skip(i + 1) =~= "tmp"@);
    assert(i > 0);
    assert(s != seq!['.', '.']);
}


/// A collection keeps a snapshot until it is more than ten seconds old (a
/// clock that went back counts as no time) and removes it after that.
pub proof fn law_snapshots_live_ten_seconds(now: u64, updated_ms: u64)
    ensures
        is_stale(now, updated_ms) <==> now > updated_ms + 10_000,
{
}

} // verus!
