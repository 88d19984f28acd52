//! The rows of the `servo:processes` page: one per process, with its threads
//! and the tabs it hosts.

use vstd::prelude::*;

use crate::order::{
    is_ranked, is_strict_weak_order, law_stable_sort_ranks, lemma_sorted_items, stable_sort, stable_sorted,
    views, Ranked,
};
use crate::procfs::{RawProcess, RawThread};
use crate::samples::{SampleKey, TickSamples};
use crate::tab_stats::ScriptTabStats;
use crate::text::{chars_of, push_str, text_equal};
use crate::weburl::{display_url, display_url_text};

verus! {

/// Chrome-side tab metadata published from the embedder event loop.
#[derive(Clone)]
pub struct EmbedderTab {
    pub webview_id: String,
    pub title: String,
    pub url: String,
}

// ---------------------------------------------------------------------------
// Rows and their views
// ---------------------------------------------------------------------------

/// A thread as the page shows it: CPU use is given as the ticks spent since
/// the previous sample, `None` when there is no rate to show.
pub struct ThreadRow {
    pub tid: u32,
    pub name: String,
    pub cpu_delta: Option<u64>,
}

pub struct ThreadEntry {
    pub tid: u32,
    pub name: Seq<char>,
    pub cpu_delta: Option<u64>,
}

impl View for ThreadRow {
    type V = ThreadEntry;

    open spec fn view(&self) -> ThreadEntry {
        ThreadEntry { tid: self.tid, name: self.name@, cpu_delta: self.cpu_delta }
    }
}

/// A tab as the page shows it under the process that hosts it: its heap size
/// (`None` when no script thread reported for it) and the tick deltas of the
/// script threads it runs on whose CPU use is known.
pub struct TabRow {
    pub name: String,
    pub url: String,
    pub memory: Option<u64>,
    pub cpu_deltas: Vec<u64>,
}

pub struct TabEntry {
    pub name: Seq<char>,
    pub url: Seq<char>,
    pub memory: Option<u64>,
    pub cpu_deltas: Seq<u64>,
}

impl View for TabRow {
    type V = TabEntry;

    open spec fn view(&self) -> TabEntry {
        TabEntry {
            name: self.name@,
            url: self.url@,
            memory: self.memory,
            cpu_deltas: self.cpu_deltas@,
        }
    }
}

/// A process as the page shows it.
pub struct ProcessRow {
    pub pid: u32,
    pub name: String,
    pub memory: Option<u64>,
    pub cpu_delta: Option<u64>,
    pub threads: Vec<ThreadRow>,
    pub tabs: Vec<TabRow>,
}

pub struct ProcessEntry {
    pub pid: u32,
    pub name: Seq<char>,
    pub memory: Option<u64>,
    pub cpu_delta: Option<u64>,
    pub threads: Seq<ThreadEntry>,
    pub tabs: Seq<TabEntry>,
}

impl View for ProcessRow {
    type V = ProcessEntry;

    open spec fn view(&self) -> ProcessEntry {
        ProcessEntry {
            pid: self.pid,
            name: self.name@,
            memory: self.memory,
            cpu_delta: self.cpu_delta,
            threads: views(self.threads@),
            tabs: views(self.tabs@),
        }
    }
}

// ---------------------------------------------------------------------------
// Orders
// ---------------------------------------------------------------------------

/// The memory a row is sorted by: unknown memory counts as 0.
pub open spec fn memory_key(m: Option<u64>) -> u64 {
    match m {
        Some(v) => v,
        None => 0,
    }
}

fn memory_key_of(m: Option<u64>) -> (k: u64)
    ensures
        k == memory_key(m),
{
    match m {
        Some(v) => v,
        None => 0,
    }
}

/// Tabs are listed by memory, largest first.
impl Ranked for TabRow {
    open spec fn ranks_before(a: TabEntry, b: TabEntry) -> bool {
        memory_key(a.memory) > memory_key(b.memory)
    }

    fn goes_before(&self, other: &Self) -> (r: bool) {
        memory_key_of(self.memory) > memory_key_of(other.memory)
    }
}

/// Processes are listed by memory, largest first.
impl Ranked for ProcessRow {
    open spec fn ranks_before(a: ProcessEntry, b: ProcessEntry) -> bool {
        memory_key(a.memory) > memory_key(b.memory)
    }

    fn goes_before(&self, other: &Self) -> (r: bool) {
        memory_key_of(self.memory) > memory_key_of(other.memory)
    }
}

/// `a` comes before `b` in the order of `str::cmp`: code point by code point,
/// a proper prefix first (UTF-8 byte order and code point order agree).
pub open spec fn name_less(a: Seq<char>, b: Seq<char>) -> bool
    decreases a.len(),
{
    if a.len() == 0 {
        b.len() > 0
    } else if b.len() == 0 {
        false
    } else if a[0] != b[0] {
        a[0] < b[0]
    } else {
        name_less(a.drop_first(), b.drop_first())
    }
}

fn name_less_exec(a: &[char], b: &[char]) -> (r: bool)
    ensures
        r == name_less(a@, b@),
{
    let mut i: usize = 0;
    assert(a@.skip(0) =~= a@ && b@.skip(0) =~= b@);
    while i < a.len() && i < b.len()
        invariant
            i <= a@.len(),
            i <= b@.len(),
            name_less(a@, b@) == name_less(a@.skip(i as int), b@.skip(i as int)),
        decreases a@.len() - i,
    {
        if a[i] != b[i] {
            return a[i] < b[i];
        }
        assert(a@.skip(i as int).drop_first() =~= a@.skip(i + 1));
        assert(b@.skip(i as int).drop_first() =~= b@.skip(i + 1));
        i = i + 1;
    }
    i == a.len() && i < b.len()
}

pub struct ThreadSample {
    pub tid: u32,
    pub name: Seq<char>,
    pub cpu_ticks: u64,
}

impl View for RawThread {
    type V = ThreadSample;

    open spec fn view(&self) -> ThreadSample {
        ThreadSample { tid: self.tid, name: self.name@, cpu_ticks: self.cpu_ticks }
    }
}

/// Threads are listed busiest first, then by name.
impl Ranked for RawThread {
    open spec fn ranks_before(a: ThreadSample, b: ThreadSample) -> bool {
        a.cpu_ticks > b.cpu_ticks || (a.cpu_ticks == b.cpu_ticks && name_less(a.name, b.name))
    }

    fn goes_before(&self, other: &Self) -> (r: bool) {
        if self.cpu_ticks != other.cpu_ticks {
            return self.cpu_ticks > other.cpu_ticks;
        }
        let a = chars_of(self.name.as_str());
        let b = chars_of(other.name.as_str());
        name_less_exec(a.as_slice(), b.as_slice())
    }
}

// ---------------------------------------------------------------------------
// Attaching tabs to processes
// ---------------------------------------------------------------------------

/// The pid of the first row named `Browser`.
pub open spec fn browser_pid(rows: Seq<ProcessEntry>) -> Option<u32>
    decreases rows.len(),
{
    if rows.len() == 0 {
        None
    } else if rows[0].name == "Browser"@ {
        Some(rows[0].pid)
    } else {
        browser_pid(rows.drop_first())
    }
}

/// The process a tab with no reporting script thread is listed under: the
/// browser, else the first process, else pid 0.
pub open spec fn fallback_pid(rows: Seq<ProcessEntry>) -> u32 {
    match browser_pid(rows) {
        Some(pid) => pid,
        None => if rows.len() > 0 {
            rows[0].pid
        } else {
            0
        },
    }
}

/// The snapshots of `stats` reported for the webview `webview`, in order.
pub open spec fn stats_for(stats: Seq<ScriptTabStats>, webview: Seq<char>) -> Seq<ScriptTabStats>
    decreases stats.len(),
{
    if stats.len() == 0 {
        Seq::empty()
    } else if stats.last().webview_id@ == webview {
        stats_for(stats.drop_last(), webview).push(stats.last())
    } else {
        stats_for(stats.drop_last(), webview)
    }
}

pub open spec fn add_saturating(a: u64, b: u64) -> u64 {
    if a + b > u64::MAX {
        u64::MAX
    } else {
        (a + b) as u64
    }
}

/// The heap sizes of `ms`, summed with saturation.
pub open spec fn heap_total(ms: Seq<ScriptTabStats>) -> u64
    decreases ms.len(),
{
    if ms.len() == 0 {
        0
    } else {
        add_saturating(heap_total(ms.drop_last()), ms.last().js_heap_bytes)
    }
}

/// The CPU delta of the first thread `tid` in `threads`: `None` when there is
/// no such thread, `Some(None)` when its CPU use is unknown.
pub open spec fn thread_in(threads: Seq<ThreadEntry>, tid: u32) -> Option<Option<u64>>
    decreases threads.len(),
{
    if threads.len() == 0 {
        None
    } else if threads[0].tid == tid {
        Some(threads[0].cpu_delta)
    } else {
        thread_in(threads.drop_first(), tid)
    }
}

/// The CPU delta of thread `tid` of process `pid`: of the first such thread
/// in the first row with that pid that lists it.
pub open spec fn thread_cpu(rows: Seq<ProcessEntry>, pid: u32, tid: u32) -> Option<u64>
    decreases rows.len(),
{
    if rows.len() == 0 {
        None
    } else if rows[0].pid == pid && thread_in(rows[0].threads, tid) is Some {
        thread_in(rows[0].threads, tid).unwrap()
    } else {
        thread_cpu(rows.drop_first(), pid, tid)
    }
}

/// The known CPU deltas of the script threads `ms`, in order.
pub open spec fn cpu_deltas_of(rows: Seq<ProcessEntry>, ms: Seq<ScriptTabStats>) -> Seq<u64>
    decreases ms.len(),
{
    if ms.len() == 0 {
        Seq::empty()
    } else {
        match thread_cpu(rows, ms.last().pid, ms.last().tid) {
            Some(d) => cpu_deltas_of(rows, ms.drop_last()).push(d),
            None => cpu_deltas_of(rows, ms.drop_last()),
        }
    }
}

/// `Tab: ` and the tab's title, or the display text of its URL when it has no title.
pub open spec fn tab_label(tab: EmbedderTab) -> Seq<char> {
    "Tab: "@ + if tab.title@.len() == 0 {
        display_url_text(tab.url@)
    } else {
        tab.title@
    }
}

/// The entry of a tab.
pub open spec fn tab_entry(rows: Seq<ProcessEntry>, tab: EmbedderTab, stats: Seq<ScriptTabStats>) -> TabEntry {
    let ms = stats_for(stats, tab.webview_id@);
    TabEntry {
        name: tab_label(tab),
        url: tab.url@,
        memory: if ms.len() == 0 {
            None
        } else {
            Some(heap_total(ms))
        },
        cpu_deltas: cpu_deltas_of(rows, ms),
    }
}

/// The process a tab belongs to: that of its first reporting script thread,
/// else the fallback process.
pub open spec fn tab_owner(rows: Seq<ProcessEntry>, tab: EmbedderTab, stats: Seq<ScriptTabStats>) -> u32 {
    let ms = stats_for(stats, tab.webview_id@);
    if ms.len() > 0 {
        ms[0].pid
    } else {
        fallback_pid(rows)
    }
}

/// The entries of the tabs that belong to process `pid`, in tab order.
pub open spec fn tabs_of(rows: Seq<ProcessEntry>, tabs: Seq<EmbedderTab>, stats: Seq<ScriptTabStats>, pid: u32) -> Seq<TabEntry>
    decreases tabs.len(),
{
    if tabs.len() == 0 {
        Seq::empty()
    } else if tab_owner(rows, tabs.last(), stats) == pid {
        tabs_of(rows, tabs.drop_last(), stats, pid).push(tab_entry(rows, tabs.last(), stats))
    } else {
        tabs_of(rows, tabs.drop_last(), stats, pid)
    }
}

/// Row `r` is the first with its pid.
pub open spec fn first_with_pid(rows: Seq<ProcessEntry>, r: int) -> bool {
    forall|q: int| 0 <= q < r ==> rows[q].pid != rows[r].pid
}

/// Thread `tid` of process `pid` runs one of the tabs: it is hidden from the
/// thread list, its tab stands for it.
pub open spec fn runs_a_tab(tabs: Seq<EmbedderTab>, stats: Seq<ScriptTabStats>, pid: u32, tid: u32) -> bool {
    exists|t: int, k: int|
        0 <= t < tabs.len() && 0 <= k < stats.len() && #[trigger] stats[k].webview_id@
            == #[trigger] tabs[t].webview_id@ && stats[k].pid == pid && stats[k].tid == tid
}

/// The threads of process `pid` that run no tab, in order.
pub open spec fn visible_threads(threads: Seq<ThreadEntry>, tabs: Seq<EmbedderTab>, stats: Seq<ScriptTabStats>, pid: u32) -> Seq<ThreadEntry>
    decreases threads.len(),
{
    if threads.len() == 0 {
        Seq::empty()
    } else if runs_a_tab(tabs, stats, pid, threads.last().tid) {
        visible_threads(threads.drop_last(), tabs, stats, pid)
    } else {
        visible_threads(threads.drop_last(), tabs, stats, pid).push(threads.last())
    }
}

/// Row `r` once the tabs are attached: the first row of each pid lists the
/// tabs of that pid, largest first (it keeps its own list when there are none),
/// and every row loses the threads that run a tab.
pub open spec fn attached_row(rows: Seq<ProcessEntry>, tabs: Seq<EmbedderTab>, stats: Seq<ScriptTabStats>, r: int) -> ProcessEntry {
    let row = rows[r];
    let mine = tabs_of(rows, tabs, stats, row.pid);
    ProcessEntry {
        pid: row.pid,
        name: row.name,
        memory: row.memory,
        cpu_delta: row.cpu_delta,
        threads: visible_threads(row.threads, tabs, stats, row.pid),
        tabs: if first_with_pid(rows, r) && mine.len() > 0 {
            stable_sorted::<TabRow>(mine)
        } else {
            row.tabs
        },
    }
}

/// All rows once the tabs are attached.
pub open spec fn attached_rows(rows: Seq<ProcessEntry>, tabs: Seq<EmbedderTab>, stats: Seq<ScriptTabStats>) -> Seq<ProcessEntry> {
    Seq::new(rows.len(), |r: int| attached_row(rows, tabs, stats, r))
}

fn find_fallback_pid(rows: &Vec<ProcessRow>) -> (pid: u32)
    ensures
        pid == fallback_pid(views(rows@)),
{
    let ghost v = views(rows@);
    let mut i: usize = 0;
    assert(v.skip(0) =~= v);
    while i < rows.len()
        invariant
            v == views(rows@),
            i <= rows@.len(),
            browser_pid(v) == browser_pid(v.skip(i as int)),
        decreases rows@.len() - i,
    {
        assert(v.skip(i as int)[0] == rows@[i as int]@);
        if text_equal(rows[i].name.as_str(), "Browser") {
            return rows[i].pid;
        }
        assert(v.skip(i as int).drop_first() =~= v.skip(i + 1));
        i = i + 1;
    }
    assert(v.skip(i as int).len() == 0);
    if rows.len() > 0 {
        rows[0].pid
    } else {
        0
    }
}

fn find_thread_cpu(rows: &Vec<ProcessRow>, pid: u32, tid: u32) -> (r: Option<u64>)
    ensures
        r == thread_cpu(views(rows@), pid, tid),
{
    let ghost v = views(rows@);
    assert(v.skip(0) =~= v);
    for i in 0..rows.len()
        invariant
            v == views(rows@),
            thread_cpu(v, pid, tid) == thread_cpu(v.skip(i as int), pid, tid),
    {
        let row = &rows[i];
        let ghost tv = views(row.threads@);
        assert(v.skip(i as int)[0] == row@);
        assert(v.skip(i as int).drop_first() =~= v.skip(i + 1));
        if row.pid == pid {
            assert(tv.skip(0) =~= tv);
            for j in 0..row.threads.len()
                invariant
                    tv == views(row.threads@),
                    v == views(rows@),
                    row.pid == pid,
                    i < v.len(),
                    v.skip(i as int)[0] == row@,
                    thread_cpu(v, pid, tid) == thread_cpu(v.skip(i as int), pid, tid),
                    v.skip(i as int).drop_first() == v.skip(i + 1),
                    thread_in(tv, tid) == thread_in(tv.skip(j as int), tid),
            {
                assert(tv.skip(j as int)[0] == row.threads@[j as int]@);
                if row.threads[j].tid == tid {
                    assert(thread_in(tv, tid) == Some(row.threads[j as int].cpu_delta));
                    assert(v.skip(i as int)[0].threads == tv);
                    assert(thread_cpu(v.skip(i as int), pid, tid) == row.threads[j as int].cpu_delta);
                    return row.threads[j].cpu_delta;
                }
                assert(tv.skip(j as int).drop_first() =~= tv.skip(j + 1));
            }
            assert(tv.skip(tv.len() as int) =~= Seq::<ThreadEntry>::empty());
        }
    }
    assert(v.skip(v.len() as int) =~= Seq::<ProcessEntry>::empty());
    None
}

/// Some snapshot of `stats` reports thread `tid` of process `pid` for `webview`.
pub open spec fn reports_thread(stats: Seq<ScriptTabStats>, webview: Seq<char>, pid: u32, tid: u32) -> bool {
    exists|k: int|
        0 <= k < stats.len() && #[trigger] stats[k].webview_id@ == webview && stats[k].pid == pid
            && stats[k].tid == tid
}

fn contains_pair(v: &Vec<(u32, u32)>, pid: u32, tid: u32) -> (r: bool)
    ensures
        r == v@.contains((pid, tid)),
{
    for i in 0..v.len()
        invariant
            forall|j: int| 0 <= j < i ==> v@[j] != (pid, tid),
    {
        if v[i].0 == pid && v[i].1 == tid {
            assert(v@[i as int] == (pid, tid));
            return true;
        }
    }
    false
}

/// The row of `tab` and the pid of the process it belongs to; the threads it
/// runs on are added to `hidden`.
fn tab_row_for(
    rows: &Vec<ProcessRow>,
    tab: &EmbedderTab,
    stats: &[ScriptTabStats],
    fallback: u32,
    hidden: &mut Vec<(u32, u32)>,
) -> (res: (u32, TabRow))
    requires
        fallback == fallback_pid(views(rows@)),
    ensures
        res.0 == tab_owner(views(rows@), *tab, stats@),
        res.1@ == tab_entry(views(rows@), *tab, stats@),
        forall|p: u32, t: u32|
            #[trigger] final(hidden)@.contains((p, t)) <==> old(hidden)@.contains((p, t))
                || reports_thread(stats@, tab.webview_id@, p, t),
{
    let ghost rv = views(rows@);
    let ghost wv = tab.webview_id@;
    let mut owner: u32 = fallback;
    let mut memory: u64 = 0;
    let mut any = false;
    let mut deltas: Vec<u64> = Vec::new();
    for k in 0..stats.len()
        invariant
            rv == views(rows@),
            wv == tab.webview_id@,
            ({
                let ms = stats_for(stats@.take(k as int), wv);
                &&& any == (ms.len() > 0)
                &&& owner == if ms.len() > 0 {
                    ms[0].pid
                } else {
                    fallback
                }
                &&& memory == heap_total(ms)
                &&& deltas@ == cpu_deltas_of(rv, ms)
            }),
            forall|p: u32, t: u32|
                #[trigger] hidden@.contains((p, t)) <==> old(hidden)@.contains((p, t))
                    || reports_thread(stats@.take(k as int), wv, p, t),
    {
        let ghost prev = stats_for(stats@.take(k as int), wv);
        let ghost prev_hidden = hidden@;
        assert(stats@.take(k + 1).drop_last() =~= stats@.take(k as int));
        assert(stats@.take(k + 1).last() == stats@[k as int]);
        let st = &stats[k];
        if text_equal(st.webview_id.as_str(), tab.webview_id.as_str()) {
            let ghost now = prev.push(*st);
            assert(stats_for(stats@.take(k + 1), wv) == now);
            assert(now.drop_last() =~= prev);
            if !any {
                owner = st.pid;
            }
            any = true;
            memory = memory.saturating_add(st.js_heap_bytes);
            match find_thread_cpu(rows, st.pid, st.tid) {
                Some(d) => {
                    deltas.push(d);
                },
                None => {},
            }
            if !contains_pair(hidden, st.pid, st.tid) {
                hidden.push((st.pid, st.tid));
            }
            proof {
                assert forall|p: u32, t: u32|
                    #[trigger] hidden@.contains((p, t)) <==> old(hidden)@.contains((p, t))
                        || reports_thread(stats@.take(k + 1), wv, p, t) by {
                    let s1 = stats@.take(k + 1);
                    if hidden@.contains((p, t)) && !prev_hidden.contains((p, t)) {
                        assert(p == st.pid && t == st.tid) by {
                            let j = choose|j: int| 0 <= j < hidden@.len() && hidden@[j] == (p, t);
                            if j < prev_hidden.len() {
                                assert(prev_hidden[j] == (p, t));
                            }
                        }
                        assert(s1[k as int].webview_id@ == wv);
                    }
                    if prev_hidden.contains((p, t)) {
                        let j = choose|j: int| 0 <= j < prev_hidden.len() && prev_hidden[j] == (p, t);
                        assert(hidden@[j] == (p, t));
                    }
                    if reports_thread(s1, wv, p, t) {
                        let j = choose|j: int|
                            0 <= j < s1.len() && #[trigger] s1[j].webview_id@ == wv && s1[j].pid
                                == p && s1[j].tid == t;
                        if j < k {
                            assert(stats@.take(k as int)[j] == s1[j]);
                            assert(reports_thread(stats@.take(k as int), wv, p, t));
                        } else {
                            assert(p == st.pid && t == st.tid);
                            if !prev_hidden.contains((p, t)) {
                                assert(hidden@[hidden@.len() - 1] == (p, t));
                            }
                        }
                    }
                    if reports_thread(stats@.take(k as int), wv, p, t) {
                        let j = choose|j: int|
                            0 <= j < k && #[trigger] stats@.take(k as int)[j].webview_id@ == wv
                                && stats@.take(k as int)[j].pid == p && stats@.take(k as int)[j].tid == t;
                        assert(s1[j] == stats@.take(k as int)[j]);
                    }
                }
            }
        } else {
            assert(stats_for(stats@.take(k + 1), wv) == prev);
            proof {
                assert forall|p: u32, t: u32|
                    reports_thread(stats@.take(k + 1), wv, p, t) <==> reports_thread(
                        stats@.take(k as int),
                        wv,
                        p,
                        t,
                    ) by {
                    let s1 = stats@.take(k + 1);
                    if reports_thread(s1, wv, p, t) {
                        let j = choose|j: int|
                            0 <= j < s1.len() && #[trigger] s1[j].webview_id@ == wv && s1[j].pid
                                == p && s1[j].tid == t;
                        assert(j != k);
                        assert(stats@.take(k as int)[j] == s1[j]);
                    }
                    if reports_thread(stats@.take(k as int), wv, p, t) {
                        let j = choose|j: int|
                            0 <= j < k && #[trigger] stats@.take(k as int)[j].webview_id@ == wv
                                && stats@.take(k as int)[j].pid == p && stats@.take(k as int)[j].tid == t;
                        assert(s1[j] == stats@.take(k as int)[j]);
                    }
                }
            }
        }
    }
    assert(stats@.take(stats@.len() as int) =~= stats@);
    let mut name = String::new();
    push_str(&mut name, "Tab: ");
    if tab.title.as_str().is_empty() {
        let shown = display_url(tab.url.as_str());
        push_str(&mut name, shown.as_str());
    } else {
        push_str(&mut name, tab.title.as_str());
    }
    let url = tab.url.clone();
    (owner, TabRow { name, url, memory: if any {
        Some(memory)
    } else {
        None
    }, cpu_deltas: deltas })
}

/// The index of the first row with pid `pid`.
fn first_row_with_pid(rows: &Vec<ProcessRow>, pid: u32) -> (r: Option<usize>)
    ensures
        r matches Some(i) ==> i < rows@.len() && views(rows@)[i as int].pid == pid && first_with_pid(
            views(rows@),
            i as int,
        ),
        r is None ==> forall|i: int| 0 <= i < rows@.len() ==> views(rows@)[i].pid != pid,
{
    let ghost rv = views(rows@);
    for i in 0..rows.len()
        invariant
            rv == views(rows@),
            forall|q: int| 0 <= q < i ==> rv[q].pid != pid,
    {
        assert(rv[i as int].pid == rows[i as int].pid);
        if rows[i].pid == pid {
            return Some(i);
        }
    }
    None
}

/// The threads of `threads`, of process `pid`, that are not in `hidden`.
fn visible_thread_rows(
    threads: Vec<ThreadRow>,
    pid: u32,
    hidden: &Vec<(u32, u32)>,
    tabs: &[EmbedderTab],
    stats: &[ScriptTabStats],
) -> (out: Vec<ThreadRow>)
    requires
        forall|p: u32, t: u32| #[trigger] hidden@.contains((p, t)) <==> runs_a_tab(tabs@, stats@, p, t),
    ensures
        views(out@) == visible_threads(views(threads@), tabs@, stats@, pid),
{
    let ghost input = threads@;
    let mut out: Vec<ThreadRow> = Vec::new();
    for t in it: threads
        invariant
            it.seq() == input,
            forall|p: u32, t: u32| #[trigger] hidden@.contains((p, t)) <==> runs_a_tab(tabs@, stats@, p, t),
            views(out@) == visible_threads(views(input.take(it.index() as int)), tabs@, stats@, pid),
    {
        let ghost i = it.index() as int;
        assert(views(input.take(i + 1)).drop_last() =~= views(input.take(i)));
        assert(views(input.take(i + 1)).last() == t@);
        let ghost before = views(out@);
        if !contains_pair(hidden, pid, t.tid) {
            out.push(t);
            assert(views(out@) =~= before.push(t@));
        }
    }
    assert(input.take(input.len() as int) =~= input);
    out
}

/// Appends `t` to bucket `r`.
fn push_to_bucket(buckets: &mut Vec<Vec<TabRow>>, r: usize, t: TabRow)
    requires
        r < old(buckets)@.len(),
    ensures
        final(buckets)@.len() == old(buckets)@.len(),
        views(final(buckets)@[r as int]@) == views(old(buckets)@[r as int]@).push(t@),
        forall|q: int| 0 <= q < old(buckets)@.len() && q != r ==> final(buckets)@[q] == old(buckets)@[q],
{
    let mut b: Vec<TabRow> = Vec::new();
    buckets.set_and_swap(r, &mut b);
    let ghost before = views(b@);
    b.push(t);
    assert(views(b@) =~= before.push(t@));
    buckets.set_and_swap(r, &mut b);
}

/// Attaches the open tabs to the processes that host them.
///
/// A tab belongs to the process of the first script thread that reports for
/// its webview, else to the browser process. Its memory is the heap of those
/// threads (none when no thread reports), its CPU the known use of those
/// threads. The first row of each pid lists its tabs, largest first; the
/// script threads of the tabs leave the thread lists.
pub fn attach_tabs_from(rows: Vec<ProcessRow>, tabs: &[EmbedderTab], script_stats: &[ScriptTabStats]) -> (out: Vec<ProcessRow>)
    ensures
        views(out@) == attached_rows(views(rows@), tabs@, script_stats@),
{
    let ghost rv = views(rows@);
    let ghost st = script_stats@;
    let n = rows.len();
    let fallback = find_fallback_pid(&rows);
    let mut buckets: Vec<Vec<TabRow>> = Vec::new();
    for r in 0..n
        invariant
            buckets@.len() == r,
            forall|q: int| 0 <= q < r ==> buckets@[q]@.len() == 0,
    {
        buckets.push(Vec::new());
    }
    let mut hidden: Vec<(u32, u32)> = Vec::new();
    for i in 0..tabs.len()
        invariant
            rv == views(rows@),
            st == script_stats@,
            n == rv.len(),
            fallback == fallback_pid(rv),
            buckets@.len() == n,
            forall|r: int|
                0 <= r < n ==> views(#[trigger] buckets@[r]@) == if first_with_pid(rv, r) {
                    tabs_of(rv, tabs@.take(i as int), st, rv[r].pid)
                } else {
                    Seq::empty()
                },
            forall|p: u32, t: u32|
                #[trigger] hidden@.contains((p, t)) <==> runs_a_tab(tabs@.take(i as int), st, p, t),
    {
        let ghost prev_hidden = hidden@;
        let ghost tk = tabs@.take(i as int);
        let ghost tk1 = tabs@.take(i + 1);
        assert(tk1.drop_last() =~= tk);
        assert(tk1.last() == tabs@[i as int]);
        let (owner, row) = tab_row_for(&rows, &tabs[i], script_stats, fallback, &mut hidden);
        let ghost entry = row@;
        proof {
            assert forall|p: u32, t: u32|
                #[trigger] hidden@.contains((p, t)) <==> runs_a_tab(tk1, st, p, t) by {
                if runs_a_tab(tk1, st, p, t) {
                    let (a, b) = choose|a: int, b: int|
                        0 <= a < tk1.len() && 0 <= b < st.len() && #[trigger] st[b].webview_id@
                            == #[trigger] tk1[a].webview_id@ && st[b].pid == p && st[b].tid == t;
                    if a < i {
                        assert(tk[a] == tk1[a]);
                        assert(runs_a_tab(tk, st, p, t));
                    } else {
                        assert(reports_thread(st, tabs@[i as int].webview_id@, p, t));
                    }
                }
                if runs_a_tab(tk, st, p, t) {
                    let (a, b) = choose|a: int, b: int|
                        0 <= a < tk.len() && 0 <= b < st.len() && #[trigger] st[b].webview_id@
                            == #[trigger] tk[a].webview_id@ && st[b].pid == p && st[b].tid == t;
                    assert(tk1[a] == tk[a]);
                }
                if reports_thread(st, tabs@[i as int].webview_id@, p, t) {
                    let b = choose|b: int|
                        0 <= b < st.len() && #[trigger] st[b].webview_id@ == tabs@[i as int].webview_id@
                            && st[b].pid == p && st[b].tid == t;
                    assert(tk1[i as int] == tabs@[i as int]);
                }
            }
        }
        match first_row_with_pid(&rows, owner) {
            Some(r0) => {
                let ghost old_buckets = buckets@;
                push_to_bucket(&mut buckets, r0, row);
                proof {
                    assert forall|r: int|
                        0 <= r < n implies views(#[trigger] buckets@[r]@) == if first_with_pid(rv, r) {
                            tabs_of(rv, tk1, st, rv[r].pid)
                        } else {
                            Seq::empty()
                        } by {
                        if r == r0 {
                        } else {
                            assert(buckets@[r] == old_buckets[r]);
                            if first_with_pid(rv, r) {
                                if rv[r].pid == owner {
                                    if r < r0 {
                                        assert(rv[r].pid != rv[r0 as int].pid);
                                    } else {
                                        assert(rv[r0 as int].pid != rv[r].pid);
                                    }
                                }
                            }
                        }
                    }
                }
            },
            None => {
                proof {
                    assert forall|r: int|
                        0 <= r < n implies views(#[trigger] buckets@[r]@) == if first_with_pid(rv, r) {
                            tabs_of(rv, tk1, st, rv[r].pid)
                        } else {
                            Seq::empty()
                        } by {
                        assert(rv[r].pid != owner);
                    }
                }
            },
        }
    }
    assert(tabs@.take(tabs@.len() as int) =~= tabs@);
    let mut out: Vec<ProcessRow> = Vec::new();
    for row in it: rows
        invariant
            it.seq() == rows@,
            rv == views(rows@),
            st == script_stats@,
            n == rv.len(),
            buckets@.len() == n,
            forall|r: int|
                it.index() <= r < n ==> views(#[trigger] buckets@[r]@) == if first_with_pid(rv, r) {
                    tabs_of(rv, tabs@, st, rv[r].pid)
                } else {
                    Seq::empty()
                },
            forall|p: u32, t: u32| #[trigger] hidden@.contains((p, t)) <==> runs_a_tab(tabs@, st, p, t),
            out@.len() == it.index(),
            forall|r: int| 0 <= r < it.index() ==> #[trigger] views(out@)[r] == attached_row(rv, tabs@, st, r),
    {
        let r = out.len();
        let ghost old_buckets = buckets@;
        assert(rv[r as int] == row@);
        let mut b: Vec<TabRow> = Vec::new();
        buckets.set_and_swap(r, &mut b);
        let ghost mine = tabs_of(rv, tabs@, st, rv[r as int].pid);
        let row_tabs = if b.len() > 0 {
            stable_sort(b)
        } else {
            row.tabs
        };
        let threads = visible_thread_rows(row.threads, row.pid, &hidden, tabs, script_stats);
        let new_row = ProcessRow {
            pid: row.pid,
            name: row.name,
            memory: row.memory,
            cpu_delta: row.cpu_delta,
            threads,
            tabs: row_tabs,
        };
        assert(new_row@ == attached_row(rv, tabs@, st, r as int));
        let ghost before = out@;
        out.push(new_row);
        proof {
            assert forall|q: int| 0 <= q < r + 1 implies #[trigger] views(out@)[q] == attached_row(rv, tabs@, st, q) by {
                assert(views(out@)[q] == out@[q]@);
                if q < r {
                    assert(out@[q] == before[q]);
                    assert(views(before)[q] == before[q]@);
                }
            }
            assert forall|q: int| r + 1 <= q < n implies views(#[trigger] buckets@[q]@) == if first_with_pid(rv, q) {
                tabs_of(rv, tabs@, st, rv[q].pid)
            } else {
                Seq::empty()
            } by {
                assert(buckets@[q] == old_buckets[q]);
            }
        }
    }
    assert(views(out@) =~= attached_rows(rv, tabs@, st));
    out
}

// ---------------------------------------------------------------------------
// Sampling
// ---------------------------------------------------------------------------

/// The ticks counter `key` spent since the previous sample, when a rate can be
/// shown: there is a previous sample holding that counter and the time between
/// the samples allows a rate (`rates_valid`). A counter that went back counts
/// as no time.
pub open spec fn tick_delta(previous: Option<Map<SampleKey, u64>>, rates_valid: bool, key: SampleKey, ticks: u64) -> Option<u64> {
    match previous {
        Some(m) => if rates_valid && m.contains_key(key) {
            Some(if ticks >= m[key] {
                (ticks - m[key]) as u64
            } else {
                0
            })
        } else {
            None
        },
        None => None,
    }
}

/// The rows of the threads `ts` of process `pid`.
pub open spec fn thread_entries(pid: u32, ts: Seq<ThreadSample>, previous: Option<Map<SampleKey, u64>>, rates_valid: bool) -> Seq<ThreadEntry> {
    Seq::new(
        ts.len(),
        |k: int|
            ThreadEntry {
                tid: ts[k].tid,
                name: ts[k].name,
                cpu_delta: tick_delta(previous, rates_valid, SampleKey::Thread(pid, ts[k].tid), ts[k].cpu_ticks),
            },
    )
}

/// The row of a sampled process, before tabs are attached: its threads
/// busiest first, no tabs.
pub open spec fn sampled_row(p: RawProcess, previous: Option<Map<SampleKey, u64>>, rates_valid: bool) -> ProcessEntry {
    ProcessEntry {
        pid: p.pid,
        name: p.name@,
        memory: p.memory,
        cpu_delta: tick_delta(previous, rates_valid, SampleKey::Process(p.pid), p.cpu_ticks),
        threads: thread_entries(
            p.pid,
            stable_sorted::<RawThread>(views(p.threads@)),
            previous,
            rates_valid,
        ),
        tabs: Seq::empty(),
    }
}

/// The page's rows for a sample: each process with its tabs attached, the
/// processes listed by memory, largest first.
pub open spec fn snapshot_rows(
    procs: Seq<RawProcess>,
    previous: Option<Map<SampleKey, u64>>,
    rates_valid: bool,
    tabs: Seq<EmbedderTab>,
    stats: Seq<ScriptTabStats>,
) -> Seq<ProcessEntry> {
    stable_sorted::<ProcessRow>(
        attached_rows(Seq::new(procs.len(), |i: int| sampled_row(procs[i], previous, rates_valid)), tabs, stats),
    )
}

/// `m` with the tick counts of the threads `ts` of process `pid`.
pub open spec fn record_threads(m: Map<SampleKey, u64>, pid: u32, ts: Seq<ThreadSample>) -> Map<SampleKey, u64>
    decreases ts.len(),
{
    if ts.len() == 0 {
        m
    } else {
        record_threads(m, pid, ts.drop_last()).insert(SampleKey::Thread(pid, ts.last().tid), ts.last().cpu_ticks)
    }
}

/// The tick counts a sample of `procs` remembers, later counters replacing
/// earlier ones with the same key.
pub open spec fn recorded_ticks(procs: Seq<RawProcess>) -> Map<SampleKey, u64>
    decreases procs.len(),
{
    if procs.len() == 0 {
        Map::empty()
    } else {
        let p = procs.last();
        record_threads(
            recorded_ticks(procs.drop_last()).insert(SampleKey::Process(p.pid), p.cpu_ticks),
            p.pid,
            stable_sorted::<RawThread>(views(p.threads@)),
        )
    }
}

fn delta_of(previous: &Option<TickSamples>, rates_valid: bool, key: SampleKey, ticks: u64) -> (d: Option<u64>)
    ensures
        d == tick_delta(
            match previous {
                Some(t) => Some(t@),
                None => None,
            },
            rates_valid,
            key,
            ticks,
        ),
{
    match previous {
        Some(samples) => {
            if !rates_valid {
                return None;
            }
            match samples.get(key) {
                Some(before) => Some(ticks.saturating_sub(before)),
                None => None,
            }
        },
        None => None,
    }
}

/// Samples the process table and turns samples into the page's rows,
/// remembering each sample's tick counts to show CPU rates at the next one.
pub struct ProcessSampler {
    last: Option<TickSamples>,
}

impl Default for ProcessSampler {
    fn default() -> (s: ProcessSampler)
        ensures
            s.previous() is None,
    {
        ProcessSampler::new()
    }
}

impl ProcessSampler {
    /// The tick counts of the previous sample, if any.
    pub closed spec fn previous(&self) -> Option<Map<SampleKey, u64>> {
        match self.last {
            Some(t) => Some(t@),
            None => None,
        }
    }

    /// A sampler that has taken no sample yet.
    pub fn new() -> (s: ProcessSampler)
        ensures
            s.previous() is None,
    {
        ProcessSampler { last: None }
    }

    /// The rows for the sample `processes`, with the tabs attached and the
    /// processes by memory, largest first. `rates_valid` says whether the time
    /// since the previous sample allows CPU rates. The sample's tick counts
    /// replace the previous ones.
    pub fn snapshot(
        &mut self,
        processes: Vec<RawProcess>,
        rates_valid: bool,
        tabs: &[EmbedderTab],
        script_stats: &[ScriptTabStats],
    ) -> (rows: Vec<ProcessRow>)
        ensures
            views(rows@) == snapshot_rows(processes@, old(self).previous(), rates_valid, tabs@, script_stats@),
            final(self).previous() == Some(recorded_ticks(processes@)),
    {
        let ghost procs = processes@;
        let ghost prev = self.previous();
        let previous = self.last.take();
        assert(prev == match previous {
            Some(t) => Some(t@),
            None => None,
        });
        let mut current = TickSamples::new();
        let mut rows: Vec<ProcessRow> = Vec::new();
        for p in it: processes
            invariant
                it.seq() == procs,
                prev == match previous {
                    Some(t) => Some(t@),
                    None => None,
                },
                rows@.len() == it.index(),
                forall|i: int| 0 <= i < it.index() ==> #[trigger] views(rows@)[i] == sampled_row(procs[i], prev, rates_valid),
                current@ == recorded_ticks(procs.take(it.index() as int)),
        {
            let ghost i = it.index() as int;
            assert(procs.take(i + 1).drop_last() =~= procs.take(i));
            assert(procs.take(i + 1).last() == p);
            let ghost sorted_threads = stable_sorted::<RawThread>(views(p.threads@));
            let pid = p.pid;
            let cpu_ticks = p.cpu_ticks;
            let threads = stable_sort(p.threads);
            current.record(SampleKey::Process(pid), cpu_ticks);
            let cpu_delta = delta_of(&previous, rates_valid, SampleKey::Process(pid), cpu_ticks);
            let ghost base = current@;
            let mut thread_rows: Vec<ThreadRow> = Vec::new();
            for t in jt: threads
                invariant
                    jt.seq() == threads@,
                    views(threads@) == sorted_threads,
                    thread_rows@.len() == jt.index(),
                    prev == match previous {
                        Some(t) => Some(t@),
                        None => None,
                    },
                    views(thread_rows@) == thread_entries(pid, sorted_threads.take(jt.index() as int), prev, rates_valid),
                    current@ == record_threads(base, pid, sorted_threads.take(jt.index() as int)),
            {
                let ghost j = jt.index() as int;
                assert(sorted_threads.take(j + 1).drop_last() =~= sorted_threads.take(j));
                assert(sorted_threads[j] == t@);
                assert(sorted_threads.take(j + 1).last() == t@);
                current.record(SampleKey::Thread(pid, t.tid), t.cpu_ticks);
                let d = delta_of(&previous, rates_valid, SampleKey::Thread(pid, t.tid), t.cpu_ticks);
                let ghost before = views(thread_rows@);
                let ghost tv = t@;
                thread_rows.push(ThreadRow { tid: t.tid, name: t.name, cpu_delta: d });
                proof {
                    let after = views(thread_rows@);
                    let want = thread_entries(pid, sorted_threads.take(j + 1), prev, rates_valid);
                    assert(after.len() == j + 1);
                    assert forall|k: int| 0 <= k < j + 1 implies after[k] == want[k] by {
                        assert(after[k] == thread_rows@[k]@);
                        assert(sorted_threads.take(j + 1)[k] == sorted_threads[k]);
                        if k < j {
                            assert(before[k] == thread_rows@[k]@);
                            assert(sorted_threads.take(j)[k] == sorted_threads[k]);
                        } else {
                            assert(thread_rows@[k]@.name == tv.name);
                        }
                    }
                    assert(after =~= want);
                }
            }
            assert(sorted_threads.take(sorted_threads.len() as int) =~= sorted_threads);
            let row = ProcessRow {
                pid,
                name: p.name,
                memory: p.memory,
                cpu_delta,
                threads: thread_rows,
                tabs: Vec::new(),
            };
            assert(row@.tabs =~= Seq::<TabEntry>::empty());
            assert(row@ == sampled_row(procs[i], prev, rates_valid));
            let ghost before = rows@;
            rows.push(row);
            proof {
                assert forall|k: int| 0 <= k < i + 1 implies #[trigger] views(rows@)[k] == sampled_row(procs[k], prev, rates_valid) by {
                    assert(views(rows@)[k] == rows@[k]@);
                    if k < i {
                        assert(rows@[k] == before[k]);
                        assert(views(before)[k] == before[k]@);
                    }
                }
            }
        }
        assert(procs.take(procs.len() as int) =~= procs);
        assert(views(rows@) =~= Seq::new(procs.len(), |i: int| sampled_row(procs[i], prev, rates_valid)));
        let attached = attach_tabs_from(rows, tabs, script_stats);
        let sorted = stable_sort(attached);
        self.last = Some(current);
        sorted
    }
}

// ---------------------------------------------------------------------------
// Laws
// ---------------------------------------------------------------------------

proof fn lemma_memory_orders()
    ensures
        is_strict_weak_order::<ProcessRow>(),
        is_strict_weak_order::<TabRow>(),
{
}

/// A row of the page is one of the rows before sorting.
proof fn lemma_snapshot_row(
    procs: Seq<RawProcess>,
    previous: Option<Map<SampleKey, u64>>,
    rates_valid: bool,
    tabs: Seq<EmbedderTab>,
    stats: Seq<ScriptTabStats>,
    r: int,
) -> (i: int)
    requires
        0 <= r < snapshot_rows(procs, previous, rates_valid, tabs, stats).len(),
    ensures
        0 <= i < procs.len(),
        snapshot_rows(procs, previous, rates_valid, tabs, stats).len() == procs.len(),
        snapshot_rows(procs, previous, rates_valid, tabs, stats)[r] == attached_row(
            Seq::new(procs.len(), |k: int| sampled_row(procs[k], previous, rates_valid)),
            tabs,
            stats,
            i,
        ),
{
    let sampled = Seq::new(procs.len(), |k: int| sampled_row(procs[k], previous, rates_valid));
    let att = attached_rows(sampled, tabs, stats);
    lemma_sorted_items::<ProcessRow>(att, r);
    let out = snapshot_rows(procs, previous, rates_valid, tabs, stats);
    choose|i: int| 0 <= i < att.len() && att[i] == out[r]
}

proof fn lemma_visible_item(threads: Seq<ThreadEntry>, tabs: Seq<EmbedderTab>, stats: Seq<ScriptTabStats>, pid: u32, k: int)
    requires
        0 <= k < visible_threads(threads, tabs, stats, pid).len(),
    ensures
        threads.contains(visible_threads(threads, tabs, stats, pid)[k]),
        !runs_a_tab(tabs, stats, pid, visible_threads(threads, tabs, stats, pid)[k].tid),
    decreases threads.len(),
{
    let rest = threads.drop_last();
    let v = visible_threads(threads, tabs, stats, pid);
    let vr = visible_threads(rest, tabs, stats, pid);
    if runs_a_tab(tabs, stats, pid, threads.last().tid) || k < vr.len() {
        lemma_visible_item(rest, tabs, stats, pid, k);
        assert(v[k] == vr[k]);
        let q = choose|q: int| 0 <= q < rest.len() && rest[q] == vr[k];
        assert(threads[q] == rest[q]);
    } else {
        assert(v[k] == threads.last());
        assert(threads[threads.len() - 1] == threads.last());
    }
}

/// The page lists its processes by memory, largest first.
pub proof fn law_processes_by_memory(
    procs: Seq<RawProcess>,
    previous: Option<Map<SampleKey, u64>>,
    rates_valid: bool,
    tabs: Seq<EmbedderTab>,
    stats: Seq<ScriptTabStats>,
    i: int,
    j: int,
)
    requires
        0 <= i < j < snapshot_rows(procs, previous, rates_valid, tabs, stats).len(),
    ensures
        memory_key(snapshot_rows(procs, previous, rates_valid, tabs, stats)[i].memory) >= memory_key(
            snapshot_rows(procs, previous, rates_valid, tabs, stats)[j].memory,
        ),
        match snapshot_rows(procs, previous, rates_valid, tabs, stats)[i].memory {
            Some(v) => v,
            None => 0u64,
        } >= match snapshot_rows(procs, previous, rates_valid, tabs, stats)[j].memory {
            Some(v) => v,
            None => 0u64,
        },
{
    lemma_memory_orders();
    let sampled = Seq::new(procs.len(), |k: int| sampled_row(procs[k], previous, rates_valid));
    law_stable_sort_ranks::<ProcessRow>(attached_rows(sampled, tabs, stats));
    let out = snapshot_rows(procs, previous, rates_valid, tabs, stats);
    assert(!ProcessRow::ranks_before(out[j], out[i]));
}

/// Under each process the page lists its tabs by memory, largest first.
pub proof fn law_tabs_by_memory(
    procs: Seq<RawProcess>,
    previous: Option<Map<SampleKey, u64>>,
    rates_valid: bool,
    tabs: Seq<EmbedderTab>,
    stats: Seq<ScriptTabStats>,
    r: int,
    i: int,
    j: int,
)
    requires
        0 <= r < snapshot_rows(procs, previous, rates_valid, tabs, stats).len(),
        0 <= i < j < snapshot_rows(procs, previous, rates_valid, tabs, stats)[r].tabs.len(),
    ensures
        memory_key(snapshot_rows(procs, previous, rates_valid, tabs, stats)[r].tabs[i].memory)
            >= memory_key(snapshot_rows(procs, previous, rates_valid, tabs, stats)[r].tabs[j].memory),
        match snapshot_rows(procs, previous, rates_valid, tabs, stats)[r].tabs[i].memory {
            Some(v) => v,
            None => 0u64,
        } >= match snapshot_rows(procs, previous, rates_valid, tabs, stats)[r].tabs[j].memory {
            Some(v) => v,
            None => 0u64,
        },
{
    lemma_memory_orders();
    let sampled = Seq::new(procs.len(), |k: int| sampled_row(procs[k], previous, rates_valid));
    let k = lemma_snapshot_row(procs, previous, rates_valid, tabs, stats, r);
    let mine = tabs_of(sampled, tabs, stats, sampled[k].pid);
    law_stable_sort_ranks::<TabRow>(mine);
    let row = snapshot_rows(procs, previous, rates_valid, tabs, stats)[r];
    if first_with_pid(sampled, k) && mine.len() > 0 {
        assert(row.tabs == stable_sorted::<TabRow>(mine));
        assert(!TabRow::ranks_before(row.tabs[j], row.tabs[i]));
    } else {
        assert(row.tabs.len() == 0);
    }
}

/// The threads that run a tab are not listed: the tab stands for them.
pub proof fn law_tab_threads_hidden(
    procs: Seq<RawProcess>,
    previous: Option<Map<SampleKey, u64>>,
    rates_valid: bool,
    tabs: Seq<EmbedderTab>,
    stats: Seq<ScriptTabStats>,
    r: int,
    t: int,
)
    requires
        0 <= r < snapshot_rows(procs, previous, rates_valid, tabs, stats).len(),
        0 <= t < snapshot_rows(procs, previous, rates_valid, tabs, stats)[r].threads.len(),
    ensures
        !runs_a_tab(
            tabs,
            stats,
            snapshot_rows(procs, previous, rates_valid, tabs, stats)[r].pid,
            snapshot_rows(procs, previous, rates_valid, tabs, stats)[r].threads[t].tid,
        ),
{
    let sampled = Seq::new(procs.len(), |k: int| sampled_row(procs[k], previous, rates_valid));
    let k = lemma_snapshot_row(procs, previous, rates_valid, tabs, stats, r);
    lemma_visible_item(sampled[k].threads, tabs, stats, sampled[k].pid, t);
}

proof fn lemma_no_thread_cpu(rows: Seq<ProcessEntry>, pid: u32, tid: u32)
    requires
        forall|r: int, t: int|
            0 <= r < rows.len() && 0 <= t < rows[r].threads.len() ==> (#[trigger] rows[r].threads[t]).cpu_delta is None,
    ensures
        thread_cpu(rows, pid, tid) is None,
    decreases rows.len(),
{
    if rows.len() > 0 {
        lemma_no_thread_cpu(rows.drop_first(), pid, tid);
        assert forall|r: int, t: int|
            0 <= r < rows.drop_first().len() && 0 <= t < rows.drop_first()[r].threads.len() implies (
            #[trigger] rows.drop_first()[r].threads[t]).cpu_delta is None by {
            assert(rows.drop_first()[r] == rows[r + 1]);
        }
        lemma_no_thread_in(rows[0].threads, tid);
    }
}

proof fn lemma_no_thread_in(threads: Seq<ThreadEntry>, tid: u32)
    requires
        forall|t: int| 0 <= t < threads.len() ==> (#[trigger] threads[t]).cpu_delta is None,
    ensures
        thread_in(threads, tid) is None || thread_in(threads, tid) == Some(None::<u64>),
    decreases threads.len(),
{
    if threads.len() > 0 {
        assert(threads[0].cpu_delta is None);
        lemma_no_thread_in(threads.drop_first(), tid);
    }
}

proof fn lemma_no_cpu_deltas(rows: Seq<ProcessEntry>, ms: Seq<ScriptTabStats>)
    requires
        forall|r: int, t: int|
            0 <= r < rows.len() && 0 <= t < rows[r].threads.len() ==> (#[trigger] rows[r].threads[t]).cpu_delta is None,
    ensures
        cpu_deltas_of(rows, ms).len() == 0,
    decreases ms.len(),
{
    if ms.len() > 0 {
        lemma_no_thread_cpu(rows, ms.last().pid, ms.last().tid);
        lemma_no_cpu_deltas(rows, ms.drop_last());
    }
}

proof fn lemma_tabs_of_items(rows: Seq<ProcessEntry>, tabs: Seq<EmbedderTab>, stats: Seq<ScriptTabStats>, pid: u32, k: int)
    requires
        0 <= k < tabs_of(rows, tabs, stats, pid).len(),
    ensures
        exists|t: int| 0 <= t < tabs.len() && tabs_of(rows, tabs, stats, pid)[k] == tab_entry(rows, #[trigger] tabs[t], stats),
    decreases tabs.len(),
{
    let rest = tabs.drop_last();
    let all = tabs_of(rows, tabs, stats, pid);
    let before = tabs_of(rows, rest, stats, pid);
    if k < before.len() {
        lemma_tabs_of_items(rows, rest, stats, pid, k);
        let t = choose|t: int| 0 <= t < rest.len() && before[k] == tab_entry(rows, #[trigger] rest[t], stats);
        assert(all[k] == before[k]);
        assert(tabs[t] == rest[t]);
    } else {
        assert(all[k] == tab_entry(rows, tabs.last(), stats));
        assert(tabs[tabs.len() - 1] == tabs.last());
    }
}

/// The first sample of a sampler shows no CPU use: there is nothing to take a
/// rate against.
pub proof fn law_first_sample_has_no_rates(
    procs: Seq<RawProcess>,
    rates_valid: bool,
    tabs: Seq<EmbedderTab>,
    stats: Seq<ScriptTabStats>,
    r: int,
)
    requires
        0 <= r < snapshot_rows(procs, None, rates_valid, tabs, stats).len(),
    ensures
        snapshot_rows(procs, None, rates_valid, tabs, stats)[r].cpu_delta is None,
        forall|t: int|
            0 <= t < snapshot_rows(procs, None, rates_valid, tabs, stats)[r].threads.len() ==> (
            #[trigger] snapshot_rows(procs, None, rates_valid, tabs, stats)[r].threads[t]).cpu_delta is None,
        forall|t: int|
            0 <= t < snapshot_rows(procs, None, rates_valid, tabs, stats)[r].tabs.len() ==> (
            #[trigger] snapshot_rows(procs, None, rates_valid, tabs, stats)[r].tabs[t]).cpu_deltas.len() == 0,
{
    let sampled = Seq::new(procs.len(), |k: int| sampled_row(procs[k], None, rates_valid));
    let k = lemma_snapshot_row(procs, None, rates_valid, tabs, stats, r);
    let row = snapshot_rows(procs, None, rates_valid, tabs, stats)[r];
    assert forall|a: int, b: int|
        0 <= a < sampled.len() && 0 <= b < sampled[a].threads.len() implies (#[trigger] sampled[a].threads[b]).cpu_delta is None by {
    }
    assert forall|t: int| 0 <= t < row.threads.len() implies (#[trigger] row.threads[t]).cpu_delta is None by {
        lemma_visible_item(sampled[k].threads, tabs, stats, sampled[k].pid, t);
        let q = choose|q: int| 0 <= q < sampled[k].threads.len() && sampled[k].threads[q] == row.threads[t];
        assert(sampled[k].threads[q].cpu_delta is None);
    }
    assert forall|t: int| 0 <= t < row.tabs.len() implies (#[trigger] row.tabs[t]).cpu_deltas.len() == 0 by {
        let mine = tabs_of(sampled, tabs, stats, sampled[k].pid);
        lemma_sorted_items::<TabRow>(mine, t);
        let q = choose|q: int| 0 <= q < mine.len() && mine[q] == row.tabs[t];
        lemma_tabs_of_items(sampled, tabs, stats, sampled[k].pid, q);
        let u = choose|u: int| 0 <= u < tabs.len() && mine[q] == tab_entry(sampled, #[trigger] tabs[u], stats);
        lemma_no_cpu_deltas(sampled, stats_for(stats, tabs[u].webview_id@));
    }
}

proof fn lemma_record_threads_keeps(m: Map<SampleKey, u64>, pid: u32, ts: Seq<ThreadSample>, key: SampleKey)
    requires
        m.contains_key(key),
    ensures
        record_threads(m, pid, ts).contains_key(key),
    decreases ts.len(),
{
    if ts.len() > 0 {
        lemma_record_threads_keeps(m, pid, ts.drop_last(), key);
    }
}

/// A sample remembers the tick count of every process it saw.
pub proof fn law_sample_remembers_processes(procs: Seq<RawProcess>, i: int)
    requires
        0 <= i < procs.len(),
    ensures
        recorded_ticks(procs).contains_key(SampleKey::Process(procs[i].pid)),
    decreases procs.len(),
{
    let p = procs.last();
    let base = recorded_ticks(procs.drop_last()).insert(SampleKey::Process(p.pid), p.cpu_ticks);
    if i < procs.len() - 1 {
        law_sample_remembers_processes(procs.drop_last(), i);
        assert(procs.drop_last()[i] == procs[i]);
    }
    lemma_record_threads_keeps(base, p.pid, stable_sorted::<RawThread>(views(p.threads@)), SampleKey::Process(procs[i].pid));
}

/// At the sample after `earlier`, every process that was already running shows
/// its CPU use, when the time between the samples allows a rate.
pub proof fn law_next_sample_has_rates(
    earlier: Seq<RawProcess>,
    procs: Seq<RawProcess>,
    tabs: Seq<EmbedderTab>,
    stats: Seq<ScriptTabStats>,
    r: int,
    e: int,
)
    requires
        0 <= r < snapshot_rows(procs, Some(recorded_ticks(earlier)), true, tabs, stats).len(),
        0 <= e < earlier.len(),
        earlier[e].pid == snapshot_rows(procs, Some(recorded_ticks(earlier)), true, tabs, stats)[r].pid,
    ensures
        snapshot_rows(procs, Some(recorded_ticks(earlier)), true, tabs, stats)[r].cpu_delta is Some,
{
    let k = lemma_snapshot_row(procs, Some(recorded_ticks(earlier)), true, tabs, stats, r);
    law_sample_remembers_processes(earlier, e);
}

proof fn lemma_name_less_asym(a: Seq<char>, b: Seq<char>)
    ensures
        name_less(a, b) ==> !name_less(b, a),
    decreases a.len(),
{
    if a.len() > 0 && b.len() > 0 && a[0] == b[0] {
        lemma_name_less_asym(a.drop_first(), b.drop_first());
    }
}

proof fn lemma_name_less_total(a: Seq<char>, b: Seq<char>)
    ensures
        name_less(a, b) || name_less(b, a) || a == b,
    decreases a.len(),
{
    if a.len() == 0 && b.len() == 0 {
        assert(a =~= b);
    } else if a.len() > 0 && b.len() > 0 && a[0] == b[0] {
        lemma_name_less_total(a.drop_first(), b.drop_first());
        if a.drop_first() == b.drop_first() {
            assert(a =~= seq![a[0]] + a.drop_first());
            assert(b =~= seq![b[0]] + b.drop_first());
        }
    }
}

proof fn lemma_name_less_trans(a: Seq<char>, b: Seq<char>, c: Seq<char>)
    requires
        name_less(a, b),
        name_less(b, c),
    ensures
        name_less(a, c),
    decreases a.len(),
{
    if a.len() > 0 && b.len() > 0 && c.len() > 0 && a[0] == b[0] && b[0] == c[0] {
        lemma_name_less_trans(a.drop_first(), b.drop_first(), c.drop_first());
    }
}

proof fn lemma_thread_order()
    ensures
        is_strict_weak_order::<RawThread>(),
{
    assert forall|a: ThreadSample, b: ThreadSample| #[trigger] RawThread::ranks_before(a, b) implies !RawThread::ranks_before(b, a) by {
        lemma_name_less_asym(a.name, b.name);
    }
    assert forall|a: ThreadSample, b: ThreadSample, c: ThreadSample|
        #![trigger RawThread::ranks_before(a, b), RawThread::ranks_before(b, c)]
        !RawThread::ranks_before(a, b) && !RawThread::ranks_before(b, c) implies !RawThread::ranks_before(a, c) by {
        lemma_name_less_total(a.name, b.name);
        lemma_name_less_total(b.name, c.name);
        lemma_name_less_asym(a.name, c.name);
        if a.cpu_ticks == b.cpu_ticks && b.cpu_ticks == c.cpu_ticks && name_less(b.name, a.name) && name_less(c.name, b.name) {
            lemma_name_less_trans(c.name, b.name, a.name);
        }
    }
}

/// Each process lists its threads busiest first, ties by name: no thread is
/// listed after one it goes before.
pub proof fn law_threads_busiest_first(ts: Seq<ThreadSample>)
    ensures
        is_ranked::<RawThread>(stable_sorted::<RawThread>(ts)),
{
    lemma_thread_order();
    law_stable_sort_ranks::<RawThread>(ts);
}

/// Of two threads of a process, the one listed first has used at least as
/// much CPU time, and when both used the same, its name does not come after
/// the other's.
pub proof fn law_threads_by_ticks_then_name(ts: Seq<ThreadSample>, i: int, j: int)
    requires
        0 <= i < j < stable_sorted::<RawThread>(ts).len(),
    ensures
        stable_sorted::<RawThread>(ts)[i].cpu_ticks >= stable_sorted::<RawThread>(ts)[j].cpu_ticks,
        stable_sorted::<RawThread>(ts)[i].cpu_ticks == stable_sorted::<RawThread>(ts)[j].cpu_ticks ==> !name_less(
            stable_sorted::<RawThread>(ts)[j].name,
            stable_sorted::<RawThread>(ts)[i].name,
        ),
{
    law_threads_busiest_first(ts);
    let s = stable_sorted::<RawThread>(ts);
    assert(!RawThread::ranks_before(s[j], s[i]));
}

proof fn lemma_tabs_of_has(rows: Seq<ProcessEntry>, tabs: Seq<EmbedderTab>, stats: Seq<ScriptTabStats>, t: int)
    requires
        0 <= t < tabs.len(),
    ensures
        tabs_of(rows, tabs, stats, tab_owner(rows, tabs[t], stats)).contains(tab_entry(rows, tabs[t], stats)),
    decreases tabs.len(),
{
    let pid = tab_owner(rows, tabs[t], stats);
    let all = tabs_of(rows, tabs, stats, pid);
    let rest = tabs.drop_last();
    if t == tabs.len() - 1 {
        assert(tabs.last() == tabs[t]);
        assert(all[all.len() - 1] == tab_entry(rows, tabs[t], stats));
    } else {
        assert(rest[t] == tabs[t]);
        lemma_tabs_of_has(rows, rest, stats, t);
        let before = tabs_of(rows, rest, stats, pid);
        let k = choose|k: int| 0 <= k < before.len() && before[k] == tab_entry(rows, tabs[t], stats);
        assert(all[k] == before[k]);
    }
}

/// Every open tab is listed under the first process with the pid it belongs to.
pub proof fn law_tab_listed_under_its_process(
    rows: Seq<ProcessEntry>,
    tabs: Seq<EmbedderTab>,
    stats: Seq<ScriptTabStats>,
    t: int,
    r: int,
)
    requires
        0 <= t < tabs.len(),
        0 <= r < rows.len(),
        rows[r].pid == tab_owner(rows, tabs[t], stats),
        first_with_pid(rows, r),
    ensures
        attached_rows(rows, tabs, stats)[r].tabs.contains(tab_entry(rows, tabs[t], stats)),
{
    broadcast use vstd::seq_lib::to_multiset_contains;

    let mine = tabs_of(rows, tabs, stats, rows[r].pid);
    lemma_tabs_of_has(rows, tabs, stats, t);
    crate::order::law_stable_sort_permutes::<TabRow>(mine);
    let e = tab_entry(rows, tabs[t], stats);
    assert(mine.to_multiset().count(e) > 0);
    assert(stable_sorted::<TabRow>(mine).to_multiset().count(e) > 0);
}


proof fn lemma_stats_for_filter(stats: Seq<ScriptTabStats>, webview: Seq<char>, pred: spec_fn(ScriptTabStats) -> bool)
    requires
        forall|s: ScriptTabStats| #[trigger] pred(s) == (s.webview_id@ == webview),
    ensures
        stats_for(stats, webview) == stats.filter(pred),
    decreases stats.len(),
{
    reveal(Seq::filter);
    if stats.len() > 0 {
        lemma_stats_for_filter(stats.drop_last(), webview, pred);
    }
}

proof fn lemma_heap_total_sum(ms: Seq<ScriptTabStats>, sum_step: spec_fn(int, ScriptTabStats) -> int)
    requires
        forall|acc: int, s: ScriptTabStats| #[trigger] sum_step(acc, s) == acc + s.js_heap_bytes,
    ensures
        ms.fold_left(0int, sum_step) >= 0,
        heap_total(ms) == if ms.fold_left(0int, sum_step) <= u64::MAX {
            ms.fold_left(0int, sum_step)
        } else {
            u64::MAX as int
        },
    decreases ms.len(),
{
    if ms.len() > 0 {
        lemma_heap_total_sum(ms.drop_last(), sum_step);
        assert(ms.fold_left(0int, sum_step) == sum_step(ms.drop_last().fold_left(0int, sum_step), ms.last()));
    }
}

/// A tab's memory is the JS heap of every script-thread snapshot reported for
/// it, summed (a sum past `u64::MAX` shows as `u64::MAX`); a tab that no
/// script thread reported for has no memory.
pub proof fn law_tab_memory_sums_heaps(rows: Seq<ProcessEntry>, tab: EmbedderTab, stats: Seq<ScriptTabStats>)
    ensures
        ({
            let ms = stats.filter(|s: ScriptTabStats| s.webview_id@ == tab.webview_id@);
            let total = ms.fold_left(0int, |acc: int, s: ScriptTabStats| acc + s.js_heap_bytes);
            tab_entry(rows, tab, stats).memory == if ms.len() == 0 {
                None::<u64>
            } else if total <= u64::MAX {
                Some(total as u64)
            } else {
                Some(u64::MAX)
            }
        }),
{
    let pred = |s: ScriptTabStats| s.webview_id@ == tab.webview_id@;
    let sum_step = |acc: int, s: ScriptTabStats| acc + s.js_heap_bytes;
    lemma_stats_for_filter(stats, tab.webview_id@, pred);
    lemma_heap_total_sum(stats.filter(pred), sum_step);
}

proof fn lemma_record_threads_process(m: Map<SampleKey, u64>, pid: u32, ts: Seq<ThreadSample>, x: u32)
    ensures
        record_threads(m, pid, ts).contains_key(SampleKey::Process(x)) == m.contains_key(SampleKey::Process(x)),
        record_threads(m, pid, ts)[SampleKey::Process(x)] == m[SampleKey::Process(x)],
    decreases ts.len(),
{
    if ts.len() > 0 {
        lemma_record_threads_process(m, pid, ts.drop_last(), x);
    }
}

/// What a sample remembers of a process is the tick count of the last process
/// of the sample with that pid.
proof fn lemma_recorded_process_ticks(procs: Seq<RawProcess>, e: int)
    requires
        0 <= e < procs.len(),
        forall|q: int| e < q < procs.len() ==> procs[q].pid != procs[e].pid,
    ensures
        recorded_ticks(procs).contains_key(SampleKey::Process(procs[e].pid)),
        recorded_ticks(procs)[SampleKey::Process(procs[e].pid)] == procs[e].cpu_ticks,
    decreases procs.len(),
{
    let p = procs.last();
    let base = recorded_ticks(procs.drop_last()).insert(SampleKey::Process(p.pid), p.cpu_ticks);
    lemma_record_threads_process(base, p.pid, stable_sorted::<RawThread>(views(p.threads@)), procs[e].pid);
    if e < procs.len() - 1 {
        assert(procs.drop_last()[e] == procs[e]);
        assert forall|q: int| e < q < procs.drop_last().len() implies procs.drop_last()[q].pid != procs.drop_last()[e].pid by {
            assert(procs.drop_last()[q] == procs[q]);
        }
        lemma_recorded_process_ticks(procs.drop_last(), e);
        assert(procs[procs.len() - 1] == p);
    }
}

/// At the sample after `earlier`, a process shows as its CPU use the ticks it
/// spent since then: its tick count less the one the earlier sample saw for
/// that pid (0 when the count went back), when the time between the samples
/// allows a rate.
pub proof fn law_next_sample_cpu_is_ticks_spent(
    earlier: Seq<RawProcess>,
    procs: Seq<RawProcess>,
    tabs: Seq<EmbedderTab>,
    stats: Seq<ScriptTabStats>,
    r: int,
    e: int,
)
    requires
        0 <= r < snapshot_rows(procs, Some(recorded_ticks(earlier)), true, tabs, stats).len(),
        0 <= e < earlier.len(),
        earlier[e].pid == snapshot_rows(procs, Some(recorded_ticks(earlier)), true, tabs, stats)[r].pid,
        forall|q: int| e < q < earlier.len() ==> earlier[q].pid != earlier[e].pid,
    ensures
        exists|i: int|
            0 <= i < procs.len() && #[trigger] procs[i].pid == snapshot_rows(
                procs,
                Some(recorded_ticks(earlier)),
                true,
                tabs,
                stats,
            )[r].pid && snapshot_rows(procs, Some(recorded_ticks(earlier)), true, tabs, stats)[r].cpu_delta
                == Some(
                if procs[i].cpu_ticks >= earlier[e].cpu_ticks {
                    (procs[i].cpu_ticks - earlier[e].cpu_ticks) as u64
                } else {
                    0u64
                },
            ),
{
    let k = lemma_snapshot_row(procs, Some(recorded_ticks(earlier)), true, tabs, stats, r);
    lemma_recorded_process_ticks(earlier, e);
    assert(procs[k].pid == snapshot_rows(procs, Some(recorded_ticks(earlier)), true, tabs, stats)[r].pid);
}


/// `a` comes before `b` exactly when, after a prefix the two share, `a` ends
/// where `b` goes on, or `a` holds the smaller char.
pub proof fn law_name_order(a: Seq<char>, b: Seq<char>)
    ensures
        name_less(a, b) <==> exists|k: int|
            0 <= k <= a.len() && k <= b.len() && #[trigger] a.take(k) == b.take(k) && ((k == a.len() && k < b.len()) || (k
                < a.len() && k < b.len() && a[k] < b[k])),
    decreases a.len(),
{
    if a.len() == 0 {
        assert(a.take(0) =~= b.take(0));
    } else if b.len() == 0 {
    } else if a[0] != b[0] {
        assert(a.take(0) =~= b.take(0));
        assert forall|k: int| 0 < k <= a.len() && k <= b.len() implies #[trigger] a.take(k) != b.take(k) by {
            assert(a.take(k)[0] == a[0]);
            assert(b.take(k)[0] == b[0]);
        }
    } else {
        let a1 = a.drop_first();
        let b1 = b.drop_first();
        law_name_order(a1, b1);
        if name_less(a, b) {
            let k1 = choose|k: int|
                0 <= k <= a1.len() && k <= b1.len() && #[trigger] a1.take(k) == b1.take(k) && ((k == a1.len() && k
                    < b1.len()) || (k < a1.len() && k < b1.len() && a1[k] < b1[k]));
            assert forall|m: int| 0 <= m < k1 + 1 implies #[trigger] a.take(k1 + 1)[m] == b.take(k1 + 1)[m] by {
                if m > 0 {
                    assert(a1.take(k1)[m - 1] == b1.take(k1)[m - 1]);
                }
            }
            assert(a.take(k1 + 1) =~= b.take(k1 + 1));
        }
        if exists|k: int|
            0 <= k <= a.len() && k <= b.len() && #[trigger] a.take(k) == b.take(k) && ((k == a.len() && k < b.len())
                || (k < a.len() && k < b.len() && a[k] < b[k])) {
            let k = choose|k: int|
                0 <= k <= a.len() && k <= b.len() && #[trigger] a.take(k) == b.take(k) && ((k == a.len() && k
                    < b.len()) || (k < a.len() && k < b.len() && a[k] < b[k]));
            assert(k > 0);
            assert forall|m: int| 0 <= m < k - 1 implies #[trigger] a1.take(k - 1)[m] == b1.take(k - 1)[m] by {
                assert(a.take(k)[m + 1] == b.take(k)[m + 1]);
            }
            assert(a1.take(k - 1) =~= b1.take(k - 1));
        }
    }
}

proof fn lemma_stats_for_none(stats: Seq<ScriptTabStats>, webview: Seq<char>)
    requires
        forall|q: int| 0 <= q < stats.len() ==> stats[q].webview_id@ != webview,
    ensures
        stats_for(stats, webview).len() == 0,
    decreases stats.len(),
{
    if stats.len() > 0 {
        assert(stats[stats.len() - 1] == stats.last());
        lemma_stats_for_none(stats.drop_last(), webview);
    }
}

proof fn lemma_stats_for_first(stats: Seq<ScriptTabStats>, webview: Seq<char>, k: int)
    requires
        0 <= k < stats.len(),
        stats[k].webview_id@ == webview,
        forall|q: int| 0 <= q < k ==> stats[q].webview_id@ != webview,
    ensures
        stats_for(stats, webview).len() > 0,
        stats_for(stats, webview)[0] == stats[k],
    decreases stats.len(),
{
    let rest = stats.drop_last();
    if k == stats.len() - 1 {
        lemma_stats_for_none(rest, webview);
        assert(stats.last() == stats[k]);
    } else {
        assert(rest[k] == stats[k]);
        lemma_stats_for_first(rest, webview, k);
    }
}

/// A tab is listed under the process of the first script-thread snapshot
/// reported for it.
pub proof fn law_tab_owner_first_report(rows: Seq<ProcessEntry>, tab: EmbedderTab, stats: Seq<ScriptTabStats>, k: int)
    requires
        0 <= k < stats.len(),
        stats[k].webview_id@ == tab.webview_id@,
        forall|q: int| 0 <= q < k ==> stats[q].webview_id@ != tab.webview_id@,
    ensures
        tab_owner(rows, tab, stats) == stats[k].pid,
{
    lemma_stats_for_first(stats, tab.webview_id@, k);
}

/// A tab that no script thread reported for is listed under the first process
/// named `Browser`, else under the first process, else under pid 0.
pub proof fn law_unreported_tab_owner(rows: Seq<ProcessEntry>, tab: EmbedderTab, stats: Seq<ScriptTabStats>)
    requires
        forall|q: int| 0 <= q < stats.len() ==> stats[q].webview_id@ != tab.webview_id@,
    ensures
        tab_owner(rows, tab, stats) == fallback_pid(rows),
        (forall|q: int| 0 <= q < rows.len() ==> rows[q].name != "Browser"@) ==> fallback_pid(rows) == if rows.len() > 0 {
            rows[0].pid
        } else {
            0u32
        },
        forall|b: int|
            0 <= b < rows.len() && #[trigger] rows[b].name == "Browser"@ && (forall|q: int| 0 <= q < b ==> rows[q].name
                != "Browser"@) ==> fallback_pid(rows) == rows[b].pid,
{
    lemma_stats_for_none(stats, tab.webview_id@);
    lemma_browser_pid(rows);
}

proof fn lemma_browser_pid(rows: Seq<ProcessEntry>)
    ensures
        (forall|q: int| 0 <= q < rows.len() ==> rows[q].name != "Browser"@) ==> browser_pid(rows) is None,
        forall|b: int|
            0 <= b < rows.len() && #[trigger] rows[b].name == "Browser"@ && (forall|q: int| 0 <= q < b ==> rows[q].name
                != "Browser"@) ==> browser_pid(rows) == Some(rows[b].pid),
    decreases rows.len(),
{
    if rows.len() > 0 {
        let rest = rows.drop_first();
        lemma_browser_pid(rest);
        if forall|q: int| 0 <= q < rows.len() ==> rows[q].name != "Browser"@ {
            assert forall|q: int| 0 <= q < rest.len() implies rest[q].name != "Browser"@ by {
                assert(rest[q] == rows[q + 1]);
            }
        }
        assert forall|b: int|
            0 <= b < rows.len() && #[trigger] rows[b].name == "Browser"@ && (forall|q: int| 0 <= q < b ==> rows[q].name
                != "Browser"@) implies browser_pid(rows) == Some(rows[b].pid) by {
            if b > 0 {
                assert(rows[0].name != "Browser"@);
                assert(rest[b - 1] == rows[b]);
                assert forall|q: int| 0 <= q < b - 1 implies rest[q].name != "Browser"@ by {
                    assert(rest[q] == rows[q + 1]);
                }
                assert(rest[b - 1].name == "Browser"@);
            }
        }
    }
}

/// When the time since the previous sample allows no rate, the page shows no
/// CPU use at all.
pub proof fn law_no_rates_when_interval_invalid(
    procs: Seq<RawProcess>,
    previous: Option<Map<SampleKey, u64>>,
    tabs: Seq<EmbedderTab>,
    stats: Seq<ScriptTabStats>,
    r: int,
)
    requires
        0 <= r < snapshot_rows(procs, previous, false, tabs, stats).len(),
    ensures
        snapshot_rows(procs, previous, false, tabs, stats)[r].cpu_delta is None,
        forall|t: int|
            0 <= t < snapshot_rows(procs, previous, false, tabs, stats)[r].threads.len() ==> (
            #[trigger] snapshot_rows(procs, previous, false, tabs, stats)[r].threads[t]).cpu_delta is None,
        forall|t: int|
            0 <= t < snapshot_rows(procs, previous, false, tabs, stats)[r].tabs.len() ==> (
            #[trigger] snapshot_rows(procs, previous, false, tabs, stats)[r].tabs[t]).cpu_deltas.len() == 0,
{
    let sampled = Seq::new(procs.len(), |k: int| sampled_row(procs[k], previous, false));
    let k = lemma_snapshot_row(procs, previous, false, tabs, stats, r);
    let row = snapshot_rows(procs, previous, false, tabs, stats)[r];
    assert forall|a: int, b: int|
        0 <= a < sampled.len() && 0 <= b < sampled[a].threads.len() implies (#[trigger] sampled[a].threads[b]).cpu_delta is None by {
    }
    assert forall|t: int| 0 <= t < row.threads.len() implies (#[trigger] row.threads[t]).cpu_delta is None by {
        lemma_visible_item(sampled[k].threads, tabs, stats, sampled[k].pid, t);
        let q = choose|q: int| 0 <= q < sampled[k].threads.len() && sampled[k].threads[q] == row.threads[t];
        assert(sampled[k].threads[q].cpu_delta is None);
    }
    assert forall|t: int| 0 <= t < row.tabs.len() implies (#[trigger] row.tabs[t]).cpu_deltas.len() == 0 by {
        let mine = tabs_of(sampled, tabs, stats, sampled[k].pid);
        lemma_sorted_items::<TabRow>(mine, t);
        let q = choose|q: int| 0 <= q < mine.len() && mine[q] == row.tabs[t];
        lemma_tabs_of_items(sampled, tabs, stats, sampled[k].pid, q);
        let u = choose|u: int| 0 <= u < tabs.len() && mine[q] == tab_entry(sampled, #[trigger] tabs[u], stats);
        lemma_no_cpu_deltas(sampled, stats_for(stats, tabs[u].webview_id@));
    }
}


/// The threads a process lists are its threads that run no tab, in their
/// order.
pub proof fn law_listed_threads_run_no_tab(
    threads: Seq<ThreadEntry>,
    tabs: Seq<EmbedderTab>,
    stats: Seq<ScriptTabStats>,
    pid: u32,
)
    ensures
        visible_threads(threads, tabs, stats, pid) == threads.filter(|t: ThreadEntry| !runs_a_tab(tabs, stats, pid, t.tid)),
{
    let keep = |t: ThreadEntry| !runs_a_tab(tabs, stats, pid, t.tid);
    lemma_visible_threads_filter(threads, tabs, stats, pid, keep);
}

proof fn lemma_visible_threads_filter(
    threads: Seq<ThreadEntry>,
    tabs: Seq<EmbedderTab>,
    stats: Seq<ScriptTabStats>,
    pid: u32,
    keep: spec_fn(ThreadEntry) -> bool,
)
    requires
        forall|t: ThreadEntry| #[trigger] keep(t) == !runs_a_tab(tabs, stats, pid, t.tid),
    ensures
        visible_threads(threads, tabs, stats, pid) == threads.filter(keep),
    decreases threads.len(),
{
    reveal(Seq::filter);
    if threads.len() > 0 {
        lemma_visible_threads_filter(threads.drop_last(), tabs, stats, pid, keep);
    }
}

proof fn lemma_thread_in_found(threads: Seq<ThreadEntry>, tid: u32, t: int)
    requires
        0 <= t < threads.len(),
        threads[t].tid == tid,
        forall|u: int| 0 <= u < t ==> threads[u].tid != tid,
    ensures
        thread_in(threads, tid) == Some(threads[t].cpu_delta),
    decreases threads.len(),
{
    if t > 0 {
        assert(threads[0].tid != tid);
        assert(threads.drop_first()[t - 1] == threads[t]);
        assert forall|u: int| 0 <= u < t - 1 implies threads.drop_first()[u].tid != tid by {
            assert(threads.drop_first()[u] == threads[u + 1]);
        }
        lemma_thread_in_found(threads.drop_first(), tid, t - 1);
    }
}

proof fn lemma_thread_in_missing(threads: Seq<ThreadEntry>, tid: u32)
    requires
        forall|u: int| 0 <= u < threads.len() ==> threads[u].tid != tid,
    ensures
        thread_in(threads, tid) is None,
    decreases threads.len(),
{
    if threads.len() > 0 {
        assert(threads[0].tid != tid);
        assert forall|u: int| 0 <= u < threads.drop_first().len() implies threads.drop_first()[u].tid != tid by {
            assert(threads.drop_first()[u] == threads[u + 1]);
        }
        lemma_thread_in_missing(threads.drop_first(), tid);
    }
}

/// No row with pid `pid` lists a thread `tid`.
pub open spec fn lists_no_thread(rows: Seq<ProcessEntry>, pid: u32, tid: u32) -> bool {
    forall|q: int, u: int|
        0 <= q < rows.len() && rows[q].pid == pid && 0 <= u < rows[q].threads.len() ==> #[trigger] rows[q].threads[u].tid
            != tid
}

/// The CPU use the page knows of thread `tid` of process `pid` is that of the
/// first such thread listed under the first row with that pid that lists one;
/// none when no row lists it.
pub proof fn law_thread_cpu_lookup(rows: Seq<ProcessEntry>, pid: u32, tid: u32, r: int, t: int)
    ensures
        lists_no_thread(rows, pid, tid) ==> thread_cpu(rows, pid, tid) is None,
        0 <= r < rows.len() && rows[r].pid == pid && 0 <= t < rows[r].threads.len() && rows[r].threads[t].tid == tid
            && lists_no_thread(rows.take(r), pid, tid) && (forall|u: int| 0 <= u < t ==> rows[r].threads[u].tid != tid)
            ==> thread_cpu(rows, pid, tid) == rows[r].threads[t].cpu_delta,
    decreases rows.len(),
{
    if rows.len() > 0 {
        let rest = rows.drop_first();
        law_thread_cpu_lookup(rest, pid, tid, r - 1, t);
        if lists_no_thread(rows, pid, tid) {
            assert forall|q: int, u: int|
                0 <= q < rest.len() && rest[q].pid == pid && 0 <= u < rest[q].threads.len() implies #[trigger] rest[q].threads[u].tid
                != tid by {
                assert(rest[q] == rows[q + 1]);
            }
            if rows[0].pid == pid {
                assert forall|u: int| 0 <= u < rows[0].threads.len() implies rows[0].threads[u].tid != tid by {
                    assert(rows[0].threads[u].tid != tid);
                }
                lemma_thread_in_missing(rows[0].threads, tid);
            }
        }
        if 0 <= r < rows.len() && rows[r].pid == pid && 0 <= t < rows[r].threads.len() && rows[r].threads[t].tid == tid
            && lists_no_thread(rows.take(r), pid, tid) && (forall|u: int| 0 <= u < t ==> rows[r].threads[u].tid != tid) {
            if r == 0 {
                lemma_thread_in_found(rows[0].threads, tid, t);
            } else {
                assert(rest[r - 1] == rows[r]);
                assert forall|q: int, u: int|
                    0 <= q < rest.take(r - 1).len() && rest.take(r - 1)[q].pid == pid && 0 <= u < rest.take(
                        r - 1,
                    )[q].threads.len() implies #[trigger] rest.take(r - 1)[q].threads[u].tid != tid by {
                    assert(rest.take(r - 1)[q] == rows.take(r)[q + 1]);
                }
                if rows[0].pid == pid {
                    assert forall|u: int| 0 <= u < rows[0].threads.len() implies rows[0].threads[u].tid != tid by {
                        assert(rows.take(r)[0] == rows[0]);
                        assert(rows.take(r)[0].threads[u].tid != tid);
                    }
                    lemma_thread_in_missing(rows[0].threads, tid);
                }
            }
        }
    }
}

proof fn lemma_cpu_deltas_filter_map(rows: Seq<ProcessEntry>, ms: Seq<ScriptTabStats>, cpu: spec_fn(ScriptTabStats) -> Option<u64>)
    requires
        forall|s: ScriptTabStats| #[trigger] cpu(s) == thread_cpu(rows, s.pid, s.tid),
    ensures
        cpu_deltas_of(rows, ms) == ms.filter_map(cpu),
    decreases ms.len(),
{
    if ms.len() > 0 {
        lemma_cpu_deltas_filter_map(rows, ms.drop_last(), cpu);
        assert(cpu(ms.last()) == thread_cpu(rows, ms.last().pid, ms.last().tid));
        match thread_cpu(rows, ms.last().pid, ms.last().tid) {
            Some(d) => {
                assert(cpu_deltas_of(rows, ms.drop_last()).push(d) =~= ms.drop_last().filter_map(cpu) + seq![d]);
            },
            None => {},
        }
    }
}

/// A tab's CPU use is that of each script thread reported for it whose CPU
/// use the page knows, in the order of the reports.
pub proof fn law_tab_cpu_of_reporting_threads(rows: Seq<ProcessEntry>, tab: EmbedderTab, stats: Seq<ScriptTabStats>)
    ensures
        tab_entry(rows, tab, stats).cpu_deltas == stats.filter(|s: ScriptTabStats| s.webview_id@ == tab.webview_id@).filter_map(
            |s: ScriptTabStats| thread_cpu(rows, s.pid, s.tid),
        ),
{
    let pred = |s: ScriptTabStats| s.webview_id@ == tab.webview_id@;
    let cpu = |s: ScriptTabStats| thread_cpu(rows, s.pid, s.tid);
    lemma_stats_for_filter(stats, tab.webview_id@, pred);
    lemma_cpu_deltas_filter_map(rows, stats.filter(pred), cpu);
}


proof fn lemma_record_threads_other(m: Map<SampleKey, u64>, pid: u32, ts: Seq<ThreadSample>, other: u32, tid: u32)
    requires
        other != pid,
    ensures
        record_threads(m, pid, ts).contains_key(SampleKey::Thread(other, tid)) == m.contains_key(SampleKey::Thread(other, tid)),
        record_threads(m, pid, ts)[SampleKey::Thread(other, tid)] == m[SampleKey::Thread(other, tid)],
    decreases ts.len(),
{
    if ts.len() > 0 {
        lemma_record_threads_other(m, pid, ts.drop_last(), other, tid);
    }
}

proof fn lemma_record_threads_tid(m: Map<SampleKey, u64>, pid: u32, ts: Seq<ThreadSample>, tid: u32, ticks: u64)
    requires
        exists|u: int| 0 <= u < ts.len() && #[trigger] ts[u].tid == tid,
        forall|u: int| 0 <= u < ts.len() && #[trigger] ts[u].tid == tid ==> ts[u].cpu_ticks == ticks,
    ensures
        record_threads(m, pid, ts).contains_key(SampleKey::Thread(pid, tid)),
        record_threads(m, pid, ts)[SampleKey::Thread(pid, tid)] == ticks,
    decreases ts.len(),
{
    let last = ts[ts.len() - 1];
    if last.tid != tid {
        let u = choose|u: int| 0 <= u < ts.len() && #[trigger] ts[u].tid == tid;
        assert(ts.drop_last()[u].tid == tid);
        assert forall|v: int| 0 <= v < ts.drop_last().len() && #[trigger] ts.drop_last()[v].tid == tid implies ts.drop_last()[v].cpu_ticks
            == ticks by {
            assert(ts.drop_last()[v] == ts[v]);
        }
        lemma_record_threads_tid(m, pid, ts.drop_last(), tid, ticks);
    }
}

/// What a sample remembers of a thread is the tick count of that thread in
/// the last process of the sample with its pid.
proof fn lemma_recorded_thread_ticks(procs: Seq<RawProcess>, e: int, w: int)
    requires
        0 <= e < procs.len(),
        forall|q: int| e < q < procs.len() ==> procs[q].pid != procs[e].pid,
        0 <= w < procs[e].threads@.len(),
        forall|v: int|
            0 <= v < procs[e].threads@.len() && v != w ==> procs[e].threads@[v].tid != procs[e].threads@[w].tid,
    ensures
        recorded_ticks(procs).contains_key(SampleKey::Thread(procs[e].pid, procs[e].threads@[w].tid)),
        recorded_ticks(procs)[SampleKey::Thread(procs[e].pid, procs[e].threads@[w].tid)] == procs[e].threads@[w].cpu_ticks,
    decreases procs.len(),
{
    broadcast use vstd::seq_lib::to_multiset_contains;

    let p = procs.last();
    let base = recorded_ticks(procs.drop_last()).insert(SampleKey::Process(p.pid), p.cpu_ticks);
    let sorted = stable_sorted::<RawThread>(views(p.threads@));
    let tid = procs[e].threads@[w].tid;
    if e == procs.len() - 1 {
        let vs = views(p.threads@);
        assert(vs[w] == p.threads@[w]@);
        crate::order::law_stable_sort_permutes::<RawThread>(vs);
        assert(vs.contains(vs[w]));
        assert(vs.to_multiset().count(vs[w]) > 0);
        assert(sorted.contains(vs[w]));
        let u = choose|u: int| 0 <= u < sorted.len() && sorted[u] == vs[w];
        assert(sorted[u].tid == tid);
        assert forall|a: int| 0 <= a < sorted.len() && #[trigger] sorted[a].tid == tid implies sorted[a].cpu_ticks
            == procs[e].threads@[w].cpu_ticks by {
            lemma_sorted_items::<RawThread>(vs, a);
            let v = choose|v: int| 0 <= v < vs.len() && vs[v] == sorted[a];
            assert(vs[v] == p.threads@[v]@);
        }
        lemma_record_threads_tid(base, p.pid, sorted, tid, procs[e].threads@[w].cpu_ticks);
    } else {
        assert(procs.drop_last()[e] == procs[e]);
        assert forall|q: int| e < q < procs.drop_last().len() implies procs.drop_last()[q].pid != procs.drop_last()[e].pid by {
            assert(procs.drop_last()[q] == procs[q]);
        }
        lemma_recorded_thread_ticks(procs.drop_last(), e, w);
        assert(procs[procs.len() - 1] == p);
        lemma_record_threads_other(base, p.pid, sorted, procs[e].pid, tid);
    }
}

/// At the sample after `earlier`, a listed thread shows as its CPU use the
/// ticks it spent since then: its tick count less the one the earlier sample
/// saw for it (0 when the count went back), when the time between the samples
/// allows a rate.
pub proof fn law_next_sample_thread_cpu_is_ticks_spent(
    earlier: Seq<RawProcess>,
    procs: Seq<RawProcess>,
    tabs: Seq<EmbedderTab>,
    stats: Seq<ScriptTabStats>,
    r: int,
    t: int,
    e: int,
    w: int,
)
    requires
        0 <= r < snapshot_rows(procs, Some(recorded_ticks(earlier)), true, tabs, stats).len(),
        0 <= t < snapshot_rows(procs, Some(recorded_ticks(earlier)), true, tabs, stats)[r].threads.len(),
        0 <= e < earlier.len(),
        earlier[e].pid == snapshot_rows(procs, Some(recorded_ticks(earlier)), true, tabs, stats)[r].pid,
        forall|q: int| e < q < earlier.len() ==> earlier[q].pid != earlier[e].pid,
        0 <= w < earlier[e].threads@.len(),
        earlier[e].threads@[w].tid == snapshot_rows(procs, Some(recorded_ticks(earlier)), true, tabs, stats)[r].threads[t].tid,
        forall|v: int|
            0 <= v < earlier[e].threads@.len() && v != w ==> earlier[e].threads@[v].tid != earlier[e].threads@[w].tid,
    ensures
        exists|i: int, u: int|
            0 <= i < procs.len() && 0 <= u < procs[i].threads@.len() && #[trigger] procs[i].threads@[u].tid == snapshot_rows(
                procs,
                Some(recorded_ticks(earlier)),
                true,
                tabs,
                stats,
            )[r].threads[t].tid && procs[i].pid == snapshot_rows(procs, Some(recorded_ticks(earlier)), true, tabs, stats)[r].pid
                && snapshot_rows(procs, Some(recorded_ticks(earlier)), true, tabs, stats)[r].threads[t].cpu_delta == Some(
                if procs[i].threads@[u].cpu_ticks >= earlier[e].threads@[w].cpu_ticks {
                    (procs[i].threads@[u].cpu_ticks - earlier[e].threads@[w].cpu_ticks) as u64
                } else {
                    0u64
                },
            ),
{
    let prev = Some(recorded_ticks(earlier));
    let rows = snapshot_rows(procs, prev, true, tabs, stats);
    let sampled = Seq::new(procs.len(), |k: int| sampled_row(procs[k], prev, true));
    let k = lemma_snapshot_row(procs, prev, true, tabs, stats, r);
    lemma_visible_item(sampled[k].threads, tabs, stats, sampled[k].pid, t);
    let q = choose|q: int| 0 <= q < sampled[k].threads.len() && sampled[k].threads[q] == rows[r].threads[t];
    let vs = views(procs[k].threads@);
    let sorted = stable_sorted::<RawThread>(vs);
    assert(sampled[k].threads[q].tid == sorted[q].tid);
    lemma_sorted_items::<RawThread>(vs, q);
    let u = choose|u: int| 0 <= u < vs.len() && vs[u] == sorted[q];
    assert(vs[u] == procs[k].threads@[u]@);
    lemma_recorded_thread_ticks(earlier, e, w);
    assert(procs[k].threads@[u].tid == rows[r].threads[t].tid);
}


/// The page has one row for each sampled process, with the process's pid,
/// name and memory.
pub proof fn law_snapshot_lists_every_process(
    procs: Seq<RawProcess>,
    previous: Option<Map<SampleKey, u64>>,
    rates_valid: bool,
    tabs: Seq<EmbedderTab>,
    stats: Seq<ScriptTabStats>,
    i: int,
)
    requires
        0 <= i < procs.len(),
    ensures
        snapshot_rows(procs, previous, rates_valid, tabs, stats).len() == procs.len(),
        exists|r: int|
            0 <= r < procs.len() && #[trigger] snapshot_rows(procs, previous, rates_valid, tabs, stats)[r].pid == procs[i].pid
                && snapshot_rows(procs, previous, rates_valid, tabs, stats)[r].name == procs[i].name@
                && snapshot_rows(procs, previous, rates_valid, tabs, stats)[r].memory == procs[i].memory,
{
    broadcast use vstd::seq_lib::to_multiset_contains;
    broadcast use vstd::seq_lib::to_multiset_len;

    let sampled = Seq::new(procs.len(), |k: int| sampled_row(procs[k], previous, rates_valid));
    let att = attached_rows(sampled, tabs, stats);
    let out = snapshot_rows(procs, previous, rates_valid, tabs, stats);
    crate::order::law_stable_sort_permutes::<ProcessRow>(att);
    vstd::seq_lib::to_multiset_len(att);
    vstd::seq_lib::to_multiset_len(out);
    assert(att.contains(att[i]));
    assert(att.to_multiset().count(att[i]) > 0);
    assert(out.to_multiset().count(att[i]) > 0);
    assert(out.contains(att[i]));
    let r = choose|r: int| 0 <= r < out.len() && out[r] == att[i];
    assert(out[r].pid == procs[i].pid);
}

} // verus!
