use aether_procs::procfs::{
    cmdline_args, display_name, fallback_process, file_name, page_size_or_default, parse_stat,
    other_threads, process_from_stat, resident_bytes, thread_from_stat, RawProcess, RawThread,
    StatFields,
};
use aether_procs::tree::{process_tree, process_tree_or_fallback};

#[test]
fn parse_stat_reads_comm_ppid_and_cpu_ticks() {
    let stat = parse_stat(
        "1234 (aether: Script) S 56 1234 1234 0 -1 0 0 0 0 0 40 10 1 2 20 0 12 0 0 0 0 0",
    )
    .unwrap();
    assert_eq!(stat.comm, "aether: Script");
    assert_eq!(stat.ppid, 56);
    assert_eq!(stat.cpu_ticks, 50);
}

#[test]
fn parse_stat_keeps_parentheses_inside_comm() {
    let stat = parse_stat("9 (foo (bar) baz) S 1 9 9 0 -1 0 0 0 0 0 3 4 0 0 20 0 1 0 0 0 0 0")
        .unwrap();
    assert_eq!(stat.comm, "foo (bar) baz");
    assert_eq!(stat.ppid, 1);
    assert_eq!(stat.cpu_ticks, 7);
}

#[test]
fn parse_stat_rejects_truncated_input() {
    assert!(parse_stat("").is_none());
    assert!(parse_stat("1234 missing-comm").is_none());
    assert!(parse_stat("1234 (name) S 1").is_none());
}

#[test]
fn display_name_uses_browser_and_content_labels() {
    assert_eq!(display_name(true, &[], "aether"), "Browser");
    assert_eq!(
        display_name(
            true,
            &["/usr/bin/aether".to_owned(), "--content-process".to_owned()],
            "aether"
        ),
        "Browser"
    );
    assert_eq!(
        display_name(
            false,
            &["/usr/bin/aether".to_owned(), "--content-process".to_owned()],
            "aether"
        ),
        "Content Process"
    );
    assert_eq!(
        display_name(false, &["/usr/bin/helper".to_owned()], "helper"),
        "helper"
    );
    assert_eq!(display_name(false, &[], "gpu-process"), "gpu-process");
    assert_eq!(display_name(false, &[], ""), "Process");
}

#[test]
fn parse_stat_sums_ticks_with_saturation() {
    let stat = parse_stat(
        "7 (x) S 3 0 0 0 0 0 0 0 0 0 18446744073709551615 5 0 0 0 0 0 0 0 0 0 0",
    )
    .unwrap();
    assert_eq!(stat.cpu_ticks, u64::MAX);
}

#[test]
fn parse_stat_rejects_bad_numbers() {
    // parent id does not fit a u32
    assert!(parse_stat("7 (x) S 4294967296 0 0 0 0 0 0 0 0 0 1 2 0").is_none());
    // a leading plus sign is accepted, as by str::parse
    let stat = parse_stat("7 (x) S +3 0 0 0 0 0 0 0 0 0 1 2 0").unwrap();
    assert_eq!(stat.ppid, 3);
    // a minus sign is not
    assert!(parse_stat("7 (x) S -3 0 0 0 0 0 0 0 0 0 1 2 0").is_none());
    // no closing parenthesis after the opening one
    assert!(parse_stat("7 )x( S 3 0 0 0 0 0 0 0 0 0 1 2 0").is_none());
    // fields are separated by any Unicode whitespace
    let stat = parse_stat("7 (x)\tS\u{3000}3 0 0 0 0 0 0 0 0 0 1 2 0").unwrap();
    assert_eq!(stat.ppid, 3);
    assert_eq!(stat.cpu_ticks, 3);
}

#[test]
fn file_name_follows_path_components() {
    let name = |p: &str| file_name(p).map(|v| v.into_iter().collect::<String>());
    assert_eq!(name("/usr/bin/helper"), Some("helper".to_owned()));
    assert_eq!(name("/usr/bin/"), Some("bin".to_owned()));
    assert_eq!(name("foo.txt/."), Some("foo.txt".to_owned()));
    assert_eq!(name("foo.txt/.//"), Some("foo.txt".to_owned()));
    assert_eq!(name("foo.txt/.."), None);
    assert_eq!(name("/"), None);
    assert_eq!(name(""), None);
    assert_eq!(name("."), None);
}

#[test]
fn display_name_falls_back_to_comm_when_program_has_no_name() {
    assert_eq!(display_name(false, &["/".to_owned()], "worker"), "worker");
    assert_eq!(display_name(false, &["..".to_owned()], ""), "Process");
}

#[test]
fn thread_name_trims_line_end_or_uses_stat_comm() {
    let stat = || StatFields { comm: "from-stat".to_owned(), ppid: 1, cpu_ticks: 9 };
    let thread = thread_from_stat(5, "Script\n", stat());
    assert_eq!(thread.tid, 5);
    assert_eq!(thread.name, "Script");
    assert_eq!(thread.cpu_ticks, 9);
    assert_eq!(thread_from_stat(5, "Layout\r\n", stat()).name, "Layout");
    assert_eq!(thread_from_stat(5, "\n", stat()).name, "from-stat");
}

#[test]
fn process_from_stat_names_the_process() {
    let stat = StatFields { comm: "helper".to_owned(), ppid: 2, cpu_ticks: 11 };
    let p = process_from_stat(3, false, stat, &["/opt/x/gpu".to_owned()], Some(4096), Vec::new());
    assert_eq!(p.pid, 3);
    assert_eq!(p.ppid, 2);
    assert_eq!(p.name, "gpu");
    assert_eq!(p.memory, Some(4096));
    assert_eq!(p.cpu_ticks, 11);
    let browser = fallback_process(42);
    assert_eq!(browser.pid, 42);
    assert_eq!(browser.name, "Browser");
    assert_eq!(browser.memory, None);
}

#[test]
fn cmdline_args_split_on_nul() {
    let args = cmdline_args(b"/usr/bin/aether\0--content-process\0\0x\0");
    assert_eq!(
        args,
        vec![b"/usr/bin/aether".to_vec(), b"--content-process".to_vec(), b"x".to_vec()]
    );
    assert!(cmdline_args(b"").is_empty());
}

#[test]
fn resident_bytes_multiplies_pages() {
    assert_eq!(resident_bytes("100 25 3 1 0 7 0\n", 4096), Some(25 * 4096));
    assert_eq!(resident_bytes("100", 4096), None);
    assert_eq!(resident_bytes("100 x", 4096), None);
    assert_eq!(resident_bytes("1 18446744073709551615", 2), Some(u64::MAX));
    assert_eq!(page_size_or_default(16384), 16384);
    assert_eq!(page_size_or_default(-1), 4096);
}

fn proc_entry(pid: u32, ppid: u32) -> RawProcess {
    RawProcess {
        pid,
        ppid,
        name: format!("p{pid}"),
        memory: None,
        cpu_ticks: 0,
        threads: vec![RawThread { tid: pid + 1000, name: "t".to_owned(), cpu_ticks: 0 }],
    }
}

#[test]
fn process_tree_keeps_descendants_of_the_browser_only() {
    let procs = vec![
        proc_entry(1, 0),
        proc_entry(50, 1),
        proc_entry(100, 50),
        proc_entry(101, 100),
        proc_entry(102, 101),
        proc_entry(200, 1),
        proc_entry(103, 100),
    ];
    let tree = process_tree(procs, 100).unwrap();
    let pids: Vec<u32> = tree.iter().map(|p| p.pid).collect();
    assert_eq!(pids, vec![100, 101, 102, 103]);
}

#[test]
fn process_tree_without_the_browser_is_none() {
    assert!(process_tree(vec![proc_entry(1, 0), proc_entry(2, 1)], 7).is_none());
    assert!(process_tree(Vec::new(), 7).is_none());
}

#[test]
fn process_tree_ignores_self_parented_entries() {
    // a process that names itself as parent is not its own child
    let tree = process_tree(vec![proc_entry(5, 5), proc_entry(6, 5)], 5).unwrap();
    let pids: Vec<u32> = tree.iter().map(|p| p.pid).collect();
    assert_eq!(pids, vec![5, 6]);
}

#[test]
fn whitespace_matches_char_is_whitespace() {
    for code in 0u32..0x3100 {
        if let Some(c) = char::from_u32(code) {
            assert_eq!(aether_procs::text::is_whitespace(c), c.is_whitespace(), "{code:#x}");
        }
    }
}

#[test]
fn file_name_matches_std_path() {
    for p in ["/usr/bin/helper", "a/b/", "./x", "x/./", "..", "a/..", "/", "", ".", "a//b", "./"] {
        let ours = file_name(p).map(|v| v.into_iter().collect::<String>());
        let std_name = std::path::Path::new(p)
            .file_name()
            .and_then(|n| n.to_str())
            .map(|n| n.to_owned());
        assert_eq!(ours, std_name, "{p}");
    }
}

fn thread(tid: u32) -> RawThread {
    RawThread { tid, name: format!("t{tid}"), cpu_ticks: tid as u64 }
}

#[test]
fn process_from_stat_leaves_out_the_main_thread() {
    let stat = StatFields { comm: "aether".to_owned(), ppid: 1, cpu_ticks: 7 };
    let threads = vec![thread(9), thread(10), thread(9), thread(11)];
    let p = process_from_stat(9, true, stat, &[], None, threads);
    let tids: Vec<u32> = p.threads.iter().map(|t| t.tid).collect();
    assert_eq!(tids, vec![10, 11]);
    assert_eq!(p.threads[0].name, "t10");
    assert_eq!(p.threads[1].cpu_ticks, 11);
}

#[test]
fn other_threads_keeps_order_and_drops_the_pid() {
    let kept = other_threads(5, vec![thread(7), thread(5), thread(6)]);
    let tids: Vec<u32> = kept.iter().map(|t| t.tid).collect();
    assert_eq!(tids, vec![7, 6]);
    assert!(other_threads(5, vec![thread(5)]).is_empty());
    assert!(other_threads(5, Vec::new()).is_empty());
}

#[test]
fn tree_or_fallback_keeps_the_tree_when_the_browser_is_there() {
    let procs = vec![proc_entry(1, 0), proc_entry(100, 1), proc_entry(101, 100)];
    let tree = process_tree_or_fallback(procs, 100);
    let pids: Vec<u32> = tree.iter().map(|p| p.pid).collect();
    assert_eq!(pids, vec![100, 101]);
}

#[test]
fn tree_or_fallback_lists_the_browser_alone_when_it_is_missing() {
    let out = process_tree_or_fallback(vec![proc_entry(1, 0), proc_entry(2, 1)], 77);
    assert_eq!(out.len(), 1);
    assert_eq!(out[0].pid, 77);
    assert_eq!(out[0].ppid, 0);
    assert_eq!(out[0].name, "Browser");
    assert_eq!(out[0].memory, None);
    assert_eq!(out[0].cpu_ticks, 0);
    assert!(out[0].threads.is_empty());
    assert_eq!(process_tree_or_fallback(Vec::new(), 3)[0].pid, 3);
}
