use aether_procs::processes::{
    attach_tabs_from, EmbedderTab, ProcessRow, ProcessSampler, ThreadRow,
};
use aether_procs::procfs::{RawProcess, RawThread};
use aether_procs::tab_stats::ScriptTabStats;
use aether_procs::weburl::{display_url, display_url_from, ParsedUrl};

// CPU use is carried as clock ticks since the previous sample; the page turns
// ticks into percentages. These rows use one tick per tenth of a percent.
fn process_json(pid: u32, name: &str, memory: u64, threads: Vec<ThreadRow>) -> ProcessRow {
    ProcessRow {
        pid,
        name: name.to_owned(),
        memory: Some(memory),
        cpu_delta: Some(10),
        threads,
        tabs: Vec::new(),
    }
}

fn thread_json(tid: u32, name: &str, cpu_tenths: u64) -> ThreadRow {
    ThreadRow { tid, name: name.to_owned(), cpu_delta: Some(cpu_tenths) }
}

fn tab_stats(pid: u32, tid: u32, webview_id: &str, js_heap_bytes: u64) -> ScriptTabStats {
    ScriptTabStats {
        pid,
        tid,
        webview_id: webview_id.to_owned(),
        url: "https://example.com/".to_owned(),
        js_heap_bytes,
        updated_ms: 1,
    }
}

fn tab(webview_id: &str, title: &str, url: &str) -> EmbedderTab {
    EmbedderTab { webview_id: webview_id.to_owned(), title: title.to_owned(), url: url.to_owned() }
}

#[test]
fn display_url_prefers_host_then_path() {
    assert_eq!(display_url("https://example.com/path?q=1"), "example.com");
    assert_eq!(display_url("file:///tmp/page.html"), "/tmp/page.html");
    assert_eq!(display_url("servo:processes"), "processes");
    assert_eq!(display_url("not a url"), "not a url");
}

#[test]
fn display_url_from_falls_back_to_the_url() {
    let parsed = |host: Option<&str>, path: &str| {
        Some(ParsedUrl { host: host.map(|h| h.to_owned()), path: path.to_owned() })
    };
    assert_eq!(display_url_from("u", parsed(Some("h"), "/p")), "h");
    assert_eq!(display_url_from("u", parsed(Some(""), "/p")), "u");
    assert_eq!(display_url_from("u", parsed(None, "/p")), "/p");
    assert_eq!(display_url_from("u", parsed(None, "")), "u");
    assert_eq!(display_url_from("u", None), "u");
    assert_eq!(display_url("no colon here"), "no colon here");
    assert_eq!(display_url("https://docs.rs/aether"), "docs.rs");
    assert_eq!(display_url("data:text/plain,Stuff"), "text/plain,Stuff");
}

#[test]
fn attach_tabs_uses_title_or_url_and_falls_back_to_browser() {
    let processes = vec![
        process_json(10, "Browser", 100, vec![]),
        process_json(20, "Content Process", 50, vec![]),
    ];
    let tabs = vec![
        tab("tab-1", "Example", "https://example.com/page"),
        tab("tab-2", "", "https://docs.rs/aether"),
    ];
    let processes = attach_tabs_from(processes, &tabs, &[]);

    assert_eq!(processes[0].tabs[0].name, "Tab: Example");
    assert_eq!(processes[0].tabs[0].url, "https://example.com/page");
    assert!(processes[0].tabs[0].memory.is_none());
    assert!(processes[0].tabs[0].cpu_deltas.is_empty());
    assert_eq!(processes[0].tabs[1].name, "Tab: docs.rs");
    assert!(processes[1].tabs.is_empty());
}

#[test]
fn attach_tabs_matches_script_thread_and_hides_it() {
    let processes = vec![process_json(
        20,
        "Content Process",
        50,
        vec![thread_json(7, "Script", 42), thread_json(8, "Layout", 10)],
    )];
    let tabs = vec![tab("wv-1", "News", "https://news.example/")];
    let processes = attach_tabs_from(processes, &tabs, &[tab_stats(20, 7, "wv-1", 1024)]);

    assert_eq!(processes[0].tabs.len(), 1);
    assert_eq!(processes[0].tabs[0].memory, Some(1024));
    assert_eq!(processes[0].tabs[0].cpu_deltas, vec![42]);
    let threads = &processes[0].threads;
    assert_eq!(threads.len(), 1);
    assert_eq!(threads[0].name, "Layout");
}

#[test]
fn attach_tabs_sorts_by_memory_and_sums_cpu_across_threads() {
    let processes = vec![process_json(
        20,
        "Content Process",
        50,
        vec![thread_json(1, "Script A", 13), thread_json(2, "Script B", 23)],
    )];
    let tabs = vec![
        tab("small", "Small", "https://small.test/"),
        tab("large", "Large", "https://large.test/"),
    ];
    let stats = vec![tab_stats(20, 1, "small", 100), tab_stats(20, 2, "large", 500)];
    let processes = attach_tabs_from(processes, &tabs, &stats);

    let attached = &processes[0].tabs;
    assert_eq!(attached[0].name, "Tab: Large");
    assert_eq!(attached[0].memory, Some(500));
    assert_eq!(attached[0].cpu_deltas, vec![23]);
    assert_eq!(attached[1].name, "Tab: Small");
    assert_eq!(attached[1].cpu_deltas, vec![13]);
    assert!(processes[0].threads.is_empty());
}

#[test]
fn attach_tabs_sums_memory_over_all_threads_of_a_tab() {
    let processes = vec![
        process_json(10, "Browser", 100, vec![]),
        process_json(20, "Content Process", 50, vec![thread_json(1, "S1", 5)]),
        process_json(30, "Content Process", 60, vec![thread_json(2, "S2", 6), thread_json(3, "T", 1)]),
    ];
    let tabs = vec![tab("w", "Split", "https://split.test/")];
    let stats = vec![
        tab_stats(30, 2, "w", u64::MAX),
        tab_stats(20, 1, "w", 10),
        tab_stats(20, 9, "other", 7),
    ];
    let processes = attach_tabs_from(processes, &tabs, &stats);
    // the tab goes to the process of its first reporting thread
    assert!(processes[0].tabs.is_empty());
    assert!(processes[1].tabs.is_empty());
    assert_eq!(processes[2].tabs.len(), 1);
    assert_eq!(processes[2].tabs[0].memory, Some(u64::MAX));
    assert_eq!(processes[2].tabs[0].cpu_deltas, vec![6, 5]);
    // both of its threads are hidden, in every process
    assert!(processes[1].threads.is_empty());
    assert_eq!(processes[2].threads.len(), 1);
    assert_eq!(processes[2].threads[0].tid, 3);
}

#[test]
fn attach_tabs_without_browser_uses_first_process() {
    let processes = vec![
        process_json(20, "Content Process", 50, vec![]),
        process_json(30, "Other", 60, vec![]),
    ];
    let processes = attach_tabs_from(processes, &[tab("x", "X", "https://x.test/")], &[]);
    assert_eq!(processes[0].tabs.len(), 1);
    assert!(processes[1].tabs.is_empty());
    let none = attach_tabs_from(Vec::new(), &[tab("x", "X", "https://x.test/")], &[]);
    assert!(none.is_empty());
}

fn raw(pid: u32, memory: Option<u64>, ticks: u64, threads: Vec<(u32, &str, u64)>) -> RawProcess {
    RawProcess {
        pid,
        ppid: 1,
        name: format!("p{pid}"),
        memory,
        cpu_ticks: ticks,
        threads: threads
            .into_iter()
            .map(|(tid, name, cpu_ticks)| RawThread { tid, name: name.to_owned(), cpu_ticks })
            .collect(),
    }
}

#[test]
fn snapshot_json_contains_sorted_process_schema() {
    let mut sampler = ProcessSampler::new();
    let processes = vec![
        raw(1, Some(10), 5, vec![]),
        raw(2, None, 5, vec![]),
        raw(3, Some(300), 5, vec![(4, "w", 1)]),
        raw(5, Some(20), 5, vec![]),
    ];
    let rows = sampler.snapshot(processes, true, &[], &[]);
    assert!(!rows.is_empty());
    let mut previous_memory = u64::MAX;
    for row in &rows {
        assert!(row.cpu_delta.is_none(), "first sample has no CPU delta");
        assert!(row.threads.iter().all(|t| t.cpu_delta.is_none()));
        assert!(row.tabs.is_empty());
        let memory = row.memory.unwrap_or(0);
        assert!(memory <= previous_memory);
        previous_memory = memory;
    }
    let pids: Vec<u32> = rows.iter().map(|r| r.pid).collect();
    assert_eq!(pids, vec![3, 5, 1, 2]);
}

#[test]
fn second_sample_reports_tick_deltas() {
    let mut sampler = ProcessSampler::new();
    sampler.snapshot(
        vec![raw(1, Some(10), 100, vec![(11, "a", 40), (12, "b", 7)])],
        false,
        &[],
        &[],
    );
    let rows = sampler.snapshot(
        vec![raw(1, Some(10), 160, vec![(11, "a", 50), (12, "b", 3), (13, "c", 9)]), raw(2, None, 4, vec![])],
        true,
        &[],
        &[],
    );
    assert_eq!(rows[0].pid, 1);
    assert_eq!(rows[0].cpu_delta, Some(60));
    // threads busiest first: a (50), c (9), b (3)
    let threads: Vec<(u32, Option<u64>)> = rows[0].threads.iter().map(|t| (t.tid, t.cpu_delta)).collect();
    assert_eq!(threads, vec![(11, Some(10)), (13, None), (12, Some(0))]);
    assert_eq!(rows[1].pid, 2);
    assert_eq!(rows[1].cpu_delta, None);
    // without a valid rate window no deltas are reported
    let rows = sampler.snapshot(vec![raw(1, Some(10), 170, vec![])], false, &[], &[]);
    assert_eq!(rows[0].cpu_delta, None);
}

#[test]
fn threads_with_equal_ticks_are_ordered_by_name() {
    let mut sampler = ProcessSampler::new();
    let rows = sampler.snapshot(
        vec![raw(1, None, 0, vec![(1, "b", 5), (2, "a", 5), (3, "ab", 5), (4, "z", 6)])],
        false,
        &[],
        &[],
    );
    let names: Vec<&str> = rows[0].threads.iter().map(|t| t.name.as_str()).collect();
    assert_eq!(names, vec!["z", "a", "ab", "b"]);
}
