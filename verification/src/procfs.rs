//! Reading the process table: `/proc/<pid>/stat` lines, command lines,
//! process names, and the tree of processes below the browser.

use vstd::prelude::*;

use crate::decimal::{parse_u32, parse_u64, parse_unsigned};
use crate::text::{
    chars_of, nul_fields, separator_pred, slash_fields, split_fields, split_nul_fields,
    string_from_chars, text_equal, whitespace_fields, Separator,
};

verus! {

// ---------------------------------------------------------------------------
// `/proc/<pid>/stat`
// ---------------------------------------------------------------------------

/// The fields of a `stat` line that the process list shows.
pub struct StatFields {
    /// The command name, between the first `(` and the last `)`.
    pub comm: String,
    /// Parent process id.
    pub ppid: u32,
    /// User plus system CPU time, in clock ticks (saturating).
    pub cpu_ticks: u64,
}

impl View for StatFields {
    type V = (Seq<char>, u32, u64);

    open spec fn view(&self) -> (Seq<char>, u32, u64) {
        (self.comm@, self.ppid, self.cpu_ticks)
    }
}

pub open spec fn saturating_sum(a: nat, b: nat) -> u64 {
    if a + b > u64::MAX {
        u64::MAX
    } else {
        (a + b) as u64
    }
}

/// What `parse_stat` reads from a `stat` line: the command name between the
/// first `(` and the last `)`, then, among the whitespace-separated fields
/// after that `)`, the parent id (field 1) and the user and system times
/// (fields 11 and 12), summed with saturation. `None` if any of these is
/// missing or is not a number of its type.
pub open spec fn stat_fields_of(s: Seq<char>) -> Option<(Seq<char>, u32, u64)> {
    match (s.index_of_first('('), s.index_of_last(')')) {
        (Some(start), Some(end)) => if end <= start {
            None
        } else {
            let rest = whitespace_fields(s.skip(end + 1));
            if rest.len() > 12 {
                match (
                    parse_unsigned(rest[1], u32::MAX as nat),
                    parse_unsigned(rest[11], u64::MAX as nat),
                    parse_unsigned(rest[12], u64::MAX as nat),
                ) {
                    (Some(ppid), Some(utime), Some(stime)) => Some(
                        (s.subrange(start + 1, end), ppid as u32, saturating_sum(utime, stime)),
                    ),
                    _ => None,
                }
            } else {
                None
            }
        },
        _ => None,
    }
}

/// The index of the first `c` in `s`.
pub(crate) fn find_first(s: &[char], c: char) -> (r: Option<usize>)
    ensures
        r matches Some(i) ==> s@.index_of_first(c) == Some(i as int),
        r is None ==> s@.index_of_first(c) is None,
{
    proof {
        s@.index_of_first_ensures(c);
    }
    for i in 0..s.len()
        invariant
            forall|j: int| 0 <= j < i ==> s@[j] != c,
            match s@.index_of_first(c) {
                Some(index) => {
                    &&& s@.contains(c)
                    &&& 0 <= index < s@.len()
                    &&& s@[index] == c
                    &&& forall|j: int| 0 <= j < index < s@.len() ==> s@[j] != c
                },
                None => !s@.contains(c),
            },
    {
        if s[i] == c {
            assert(s@.contains(c));
            return Some(i);
        }
    }
    assert(!s@.contains(c));
    None
}

/// The index of the last `c` in `s`.
pub(crate) fn find_last(s: &[char], c: char) -> (r: Option<usize>)
    ensures
        r matches Some(i) ==> s@.index_of_last(c) == Some(i as int),
        r is None ==> s@.index_of_last(c) is None,
{
    proof {
        s@.index_of_last_ensures(c);
    }
    let mut i = s.len();
    while i > 0
        invariant
            i <= s@.len(),
            forall|j: int| i <= j < s@.len() ==> s@[j] != c,
            match s@.index_of_last(c) {
                Some(index) => {
                    &&& s@.contains(c)
                    &&& 0 <= index < s@.len()
                    &&& s@[index] == c
                    &&& forall|j: int| 0 <= index < j < s@.len() ==> s@[j] != c
                },
                None => !s@.contains(c),
            },
        decreases i,
    {
        if s[i - 1] == c {
            assert(s@.contains(c));
            return Some(i - 1);
        }
        i = i - 1;
    }
    assert(!s@.contains(c));
    None
}

/// The items `from..to` of `s`.
pub fn sub_chars(s: &[char], from: usize, to: usize) -> (out: Vec<char>)
    requires
        from <= to <= s@.len(),
    ensures
        out@ == s@.subrange(from as int, to as int),
{
    let mut out: Vec<char> = Vec::new();
    for i in from..to
        invariant
            from <= i <= to <= s@.len(),
            out@ == s@.subrange(from as int, i as int),
    {
        out.push(s[i]);
        assert(s@.subrange(from as int, i as int).push(s@[i as int]) =~= s@.subrange(
            from as int,
            i + 1,
        ));
    }
    out
}

/// Reads the command name, parent id and CPU ticks from a `/proc/<pid>/stat` line.
pub fn parse_stat(contents: &str) -> (r: Option<StatFields>)
    ensures
        r matches Some(f) ==> stat_fields_of(contents@) == Some(f@),
        r is None ==> stat_fields_of(contents@) is None,
{
    let s = chars_of(contents);
    let start = match find_first(s.as_slice(), '(') {
        Some(i) => i,
        None => return None,
    };
    let end = match find_last(s.as_slice(), ')') {
        Some(i) => i,
        None => return None,
    };
    proof {
        s@.index_of_first_ensures('(');
        s@.index_of_last_ensures(')');
    }
    if end <= start {
        return None;
    }
    assert(end < s.len());
    let comm_chars = sub_chars(s.as_slice(), start + 1, end);
    let after = sub_chars(s.as_slice(), end + 1, s.len());
    assert(after@ =~= s@.skip(end + 1));
    let rest = split_fields(after.as_slice(), Separator::Whitespace);
    assert(separator_pred(Separator::Whitespace) == (|c: char|
        crate::text::is_unicode_whitespace(c)));
    assert(rest.deep_view() == whitespace_fields(contents@.skip(end + 1)));
    if rest.len() <= 12 {
        return None;
    }
    assert(rest.deep_view()[1] == rest[1]@);
    assert(rest.deep_view()[11] == rest[11]@);
    assert(rest.deep_view()[12] == rest[12]@);
    let ppid = match parse_u32(rest[1].as_slice()) {
        Some(v) => v,
        None => return None,
    };
    let utime = match parse_u64(rest[11].as_slice()) {
        Some(v) => v,
        None => return None,
    };
    let stime = match parse_u64(rest[12].as_slice()) {
        Some(v) => v,
        None => return None,
    };
    Some(StatFields { comm: string_from_chars(comm_chars.as_slice()), ppid, cpu_ticks: utime.saturating_add(stime) })
}

// ---------------------------------------------------------------------------
// Process names
// ---------------------------------------------------------------------------

/// The last field of `segs` that is not `.`.
pub open spec fn last_named(segs: Seq<Seq<char>>) -> Option<Seq<char>>
    decreases segs.len(),
{
    if segs.len() == 0 {
        None
    } else if segs.last() == seq!['.'] {
        last_named(segs.drop_last())
    } else {
        Some(segs.last())
    }
}

/// `Path::file_name` for a Unix path: the final component, ignoring empty and
/// `.` components; `None` when there is none or it is `..`.
pub open spec fn path_file_name(p: Seq<char>) -> Option<Seq<char>> {
    match last_named(slash_fields(p)) {
        Some(n) => if n == seq!['.', '.'] {
            None
        } else {
            Some(n)
        },
        None => None,
    }
}

fn is_dot(seg: &[char]) -> (r: bool)
    ensures
        r == (seg@ == seq!['.']),
{
    let r = seg.len() == 1 && seg[0] == '.';
    assert(r ==> seg@ =~= seq!['.']);
    r
}

fn is_dot_dot(seg: &[char]) -> (r: bool)
    ensures
        r == (seg@ == seq!['.', '.']),
{
    let r = seg.len() == 2 && seg[0] == '.' && seg[1] == '.';
    assert(r ==> seg@ =~= seq!['.', '.']);
    r
}

/// The final component of the path `p`.
pub fn file_name(p: &str) -> (r: Option<Vec<char>>)
    ensures
        r matches Some(n) ==> path_file_name(p@) == Some(n@),
        r is None ==> path_file_name(p@) is None,
{
    let cs = chars_of(p);
    let segs = split_fields(cs.as_slice(), Separator::Slash);
    assert(separator_pred(Separator::Slash) == (|c: char| c == '/'));
    let ghost dv = segs.deep_view();
    assert(dv == slash_fields(p@));
    let mut i = segs.len();
    assert(dv.take(i as int) =~= dv);
    while i > 0
        invariant
            i <= segs@.len(),
            dv == segs.deep_view(),
            dv == slash_fields(p@),
            last_named(dv.take(i as int)) == last_named(dv),
        decreases i,
    {
        let ghost pre = dv.take(i as int);
        assert(pre.drop_last() =~= dv.take(i - 1));
        assert(pre.last() == segs[i - 1]@);
        if !is_dot(segs[i - 1].as_slice()) {
            if is_dot_dot(segs[i - 1].as_slice()) {
                return None;
            }
            let mut name: Vec<char> = Vec::new();
            name.extend_from_slice(segs[i - 1].as_slice());
            assert(name@ =~= segs[i - 1]@);
            return Some(name);
        }
        i = i - 1;
    }
    None
}

/// The name shown for a process: `Browser` for the browser itself, `Content
/// Process` for a content process, otherwise the file name of its program,
/// then its command name, then `Process`.
pub open spec fn display_name_text(is_root: bool, cmdline: Seq<Seq<char>>, comm: Seq<char>) -> Seq<
    char,
> {
    if is_root {
        "Browser"@
    } else if cmdline.contains("--content-process"@) {
        "Content Process"@
    } else {
        let program = if cmdline.len() > 0 {
            path_file_name(cmdline[0])
        } else {
            None
        };
        match program {
            Some(n) => if n.len() > 0 {
                n
            } else if comm.len() == 0 {
                "Process"@
            } else {
                comm
            },
            None => if comm.len() == 0 {
                "Process"@
            } else {
                comm
            },
        }
    }
}

/// The name shown for a process, from whether it is the browser, its command
/// line and its command name.
pub fn display_name(is_root: bool, cmdline: &[String], comm: &str) -> (r: String)
    ensures
        r@ == display_name_text(is_root, cmdline.deep_view(), comm@),
{
    if is_root {
        return "Browser".to_owned();
    }
    let ghost cl = cmdline.deep_view();
    for i in 0..cmdline.len()
        invariant
            cl == cmdline.deep_view(),
            !is_root,
            forall|j: int| 0 <= j < i ==> cl[j] != "--content-process"@,
    {
        assert(cl[i as int] == cmdline[i as int]@);
        if text_equal(cmdline[i].as_str(), "--content-process") {
            assert(cl.contains("--content-process"@));
            return "Content Process".to_owned();
        }
    }
    assert(!cl.contains("--content-process"@));
    if cmdline.len() > 0 {
        assert(cl[0] == cmdline[0]@);
        if let Some(name) = file_name(cmdline[0].as_str()) {
            if name.len() > 0 {
                return string_from_chars(name.as_slice());
            }
        }
    }
    if comm.is_empty() {
        "Process".to_owned()
    } else {
        comm.to_owned()
    }
}

/// `s` without its trailing `\n` and `\r` characters.
pub open spec fn trim_line_end(s: Seq<char>) -> Seq<char>
    decreases s.len(),
{
    if s.len() > 0 && (s.last() == '\n' || s.last() == '\r') {
        trim_line_end(s.drop_last())
    } else {
        s
    }
}

/// The name of a thread: its `comm` file without the line end, or the command
/// name from its `stat` line when that is empty.
pub open spec fn thread_name_text(comm_file: Seq<char>, stat_comm: Seq<char>) -> Seq<char> {
    if trim_line_end(comm_file).len() == 0 {
        stat_comm
    } else {
        trim_line_end(comm_file)
    }
}

/// `comm_file` without its trailing line-end characters.
pub fn trim_line_end_chars(comm_file: &str) -> (r: Vec<char>)
    ensures
        r@ == trim_line_end(comm_file@),
{
    let cs = chars_of(comm_file);
    let mut k = cs.len();
    assert(cs@.take(k as int) =~= cs@);
    while k > 0 && (cs[k - 1] == '\n' || cs[k - 1] == '\r')
        invariant
            k <= cs@.len(),
            trim_line_end(cs@.take(k as int)) == trim_line_end(cs@),
        decreases k,
    {
        assert(cs@.take(k as int).drop_last() =~= cs@.take(k - 1));
        k = k - 1;
    }
    let out = sub_chars(cs.as_slice(), 0, k);
    assert(out@ =~= cs@.take(k as int));
    out
}

// ---------------------------------------------------------------------------
// Processes and threads
// ---------------------------------------------------------------------------

/// One thread of a process, as sampled.
pub struct RawThread {
    pub tid: u32,
    pub name: String,
    pub cpu_ticks: u64,
}

/// One process, as sampled.
pub struct RawProcess {
    pub pid: u32,
    pub ppid: u32,
    pub name: String,
    /// Resident memory in bytes, when known.
    pub memory: Option<u64>,
    pub cpu_ticks: u64,
    pub threads: Vec<RawThread>,
}

/// A thread from the contents of its `comm` file and its parsed `stat` line.
pub fn thread_from_stat(tid: u32, comm_file: &str, stat: StatFields) -> (t: RawThread)
    ensures
        t.tid == tid,
        t.name@ == thread_name_text(comm_file@, stat.comm@),
        t.cpu_ticks == stat.cpu_ticks,
{
    let trimmed = trim_line_end_chars(comm_file);
    let name = if trimmed.len() == 0 {
        stat.comm
    } else {
        string_from_chars(trimmed.as_slice())
    };
    RawThread { tid, name, cpu_ticks: stat.cpu_ticks }
}

/// The threads of `threads` other than the one whose id is `pid`, in order:
/// the main thread stands for the process itself.
pub fn other_threads(pid: u32, threads: Vec<RawThread>) -> (out: Vec<RawThread>)
    ensures
        out@ == threads@.filter(|t: RawThread| t.tid != pid),
{
    let ghost input = threads@;
    let ghost keep = |t: RawThread| t.tid != pid;
    let mut out: Vec<RawThread> = Vec::new();
    assert(input.take(0).filter(keep) =~= Seq::<RawThread>::empty()) by {
        reveal(Seq::filter);
    }
    for t in it: threads
        invariant
            it.seq() == input,
            keep == (|t: RawThread| t.tid != pid),
            out@ == input.take(it.index() as int).filter(keep),
    {
        let ghost i = it.index() as int;
        proof {
            reveal(Seq::filter);
            assert(input.take(i + 1).drop_last() =~= input.take(i));
            assert(input.take(i + 1).last() == t);
        }
        if t.tid != pid {
            out.push(t);
        }
    }
    assert(input.take(input.len() as int) =~= input);
    out
}

/// A process from its parsed `stat` line, command line, memory and the
/// threads listed for it; its main thread (id `pid`) is left out.
pub fn process_from_stat(
    pid: u32,
    is_root: bool,
    stat: StatFields,
    cmdline: &[String],
    memory: Option<u64>,
    threads: Vec<RawThread>,
) -> (p: RawProcess)
    ensures
        p.pid == pid,
        p.ppid == stat.ppid,
        p.name@ == display_name_text(is_root, cmdline.deep_view(), stat.comm@),
        p.memory == memory,
        p.cpu_ticks == stat.cpu_ticks,
        p.threads@ == threads@.filter(|t: RawThread| t.tid != pid),
{
    let name = display_name(is_root, cmdline, stat.comm.as_str());
    let threads = other_threads(pid, threads);
    RawProcess { pid, ppid: stat.ppid, name, memory, cpu_ticks: stat.cpu_ticks, threads }
}

/// The only process listed when the process table cannot be read: the browser
/// itself, with no memory, CPU time or threads.
pub fn fallback_process(pid: u32) -> (p: RawProcess)
    ensures
        p.pid == pid,
        p.ppid == 0,
        p.name@ == "Browser"@,
        p.memory is None,
        p.cpu_ticks == 0,
        p.threads@.len() == 0,
{
    let no_args: Vec<String> = Vec::new();
    let name = display_name(true, no_args.as_slice(), "Browser");
    RawProcess { pid, ppid: 0, name, memory: None, cpu_ticks: 0, threads: Vec::new() }
}

/// The non-empty NUL-separated arguments of a `/proc/<pid>/cmdline` file.
pub fn cmdline_args(contents: &[u8]) -> (args: Vec<Vec<u8>>)
    ensures
        args.deep_view() == nul_fields(contents@),
{
    split_nul_fields(contents)
}

/// Resident memory in bytes from a `/proc/<pid>/statm` line: its second
/// whitespace-separated field, in pages, times the page size (saturating).
pub open spec fn resident_bytes_of(statm: Seq<char>, page_size: u64) -> Option<u64> {
    let f = whitespace_fields(statm);
    if f.len() > 1 {
        match parse_unsigned(f[1], u64::MAX as nat) {
            Some(pages) => Some(
                if pages * page_size > u64::MAX {
                    u64::MAX
                } else {
                    (pages * page_size) as u64
                },
            ),
            None => None,
        }
    } else {
        None
    }
}

/// Resident memory in bytes from a `/proc/<pid>/statm` line.
pub fn resident_bytes(statm: &str, page_size: u64) -> (r: Option<u64>)
    ensures
        r == resident_bytes_of(statm@, page_size),
{
    let cs = chars_of(statm);
    let f = split_fields(cs.as_slice(), Separator::Whitespace);
    assert(separator_pred(Separator::Whitespace) == (|c: char|
        crate::text::is_unicode_whitespace(c)));
    if f.len() <= 1 {
        return None;
    }
    assert(f.deep_view()[1] == f[1]@);
    match parse_u64(f[1].as_slice()) {
        Some(pages) => match pages.checked_mul(page_size) {
            Some(bytes) => Some(bytes),
            None => Some(u64::MAX),
        },
        None => None,
    }
}

/// The page size to use: what the system reports when that is positive, else 4096.
pub fn page_size_or_default(reported: i64) -> (r: u64)
    ensures
        r == if reported > 0 {
            reported as u64
        } else {
            4096
        },
{
    if reported > 0 {
        reported as u64
    } else {
        4096
    }
}


/// A process other than the browser whose command line holds
/// `--content-process`, at any place in it, is named `Content Process`.
pub proof fn law_content_process_named(cmdline: Seq<Seq<char>>, comm: Seq<char>, i: int)
    requires
        0 <= i < cmdline.len(),
        cmdline[i] == "--content-process"@,
    ensures
        display_name_text(false, cmdline, comm) == "Content Process"@,
{
    assert(cmdline.contains("--content-process"@));
}

/// The browser process is named `Browser`, whatever its command line.
pub proof fn law_browser_named(cmdline: Seq<Seq<char>>, comm: Seq<char>)
    ensures
        display_name_text(true, cmdline, comm) == "Browser"@,
{
}

} // verus!
