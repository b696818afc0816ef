use pwatch::processes::{
    cmdline_parts, parse_cmdline, process_id, process_matches, read_process, read_processes,
    status_name, status_string, status_u32, ProcessFiles, ProcessesQuery,
};

const STATUS: &str = "Name:\tdemo\nUmask:\t0022\nState:\tS (sleeping)\nPid:\t12\nPPid:\t1\n";

fn files(pid: u32, comm: &str) -> ProcessFiles {
    ProcessFiles {
        pid,
        status: Some(STATUS.to_string()),
        comm: Some(comm.to_string()),
        cmdline: Some(b"/usr/bin/Demo\0--Flag\0".to_vec()),
        exe: Some("/usr/bin/Demo".to_string()),
    }
}

fn query(q: Option<&str>, limit: Option<usize>) -> ProcessesQuery {
    ProcessesQuery { q: q.map(|q| q.to_string()), limit }
}

#[test]
fn status_fields() {
    assert_eq!(status_name(STATUS).as_deref(), Some("demo"));
    assert_eq!(status_string("State", STATUS).as_deref(), Some("S (sleeping)"));
    assert_eq!(status_u32("PPid", STATUS), Some(1));
    assert_eq!(status_u32("Name", STATUS), None);
    assert_eq!(status_u32("Missing", STATUS), None);
    assert_eq!(status_string("State", "NoState: x\nState:\nState: late"), Some(String::new()));
    assert_eq!(status_name(" Name: x"), None);
    assert_eq!(status_name("Name: a b \r\n").as_deref(), Some("a b"));
}

#[test]
fn command_lines() {
    assert_eq!(parse_cmdline(b"a\0\0b c\0".to_vec()), vec!["a", "b c"]);
    assert_eq!(parse_cmdline(b"\0\0".to_vec()), Vec::<String>::new());
    assert_eq!(parse_cmdline(vec![]), Vec::<String>::new());
    assert_eq!(parse_cmdline("gr\u{fc}n".as_bytes().to_vec()), vec!["gr\u{fc}n"]);
    assert_eq!(parse_cmdline(vec![b'a', 0xff, b'b']), vec!["a\u{fffd}b"]);
    assert_eq!(parse_cmdline(vec![0xff, 0, 0xc3, 0, b'x']), vec!["\u{fffd}", "\u{fffd}", "x"]);
    assert_eq!(cmdline_parts(b"\0x\0y"), vec![&b"x"[..], &b"y"[..]]);
}

#[test]
fn whole_process() {
    let p = read_process(files(12, " demo-comm\n"));
    assert_eq!(p.pid, 12);
    assert_eq!(p.ppid, Some(1));
    assert_eq!(p.state.as_deref(), Some("S (sleeping)"));
    assert_eq!(p.comm, "demo-comm");
    assert_eq!(p.cmdline, vec!["/usr/bin/Demo", "--Flag"]);
    assert_eq!(p.exe.as_deref(), Some("/usr/bin/Demo"));
}

#[test]
fn names_fall_back() {
    assert_eq!(read_process(files(12, " \n")).comm, "demo");
    let mut bare = files(12, "");
    bare.status = None;
    bare.cmdline = None;
    bare.exe = None;
    let p = read_process(bare);
    assert_eq!(p.comm, "12");
    assert_eq!((p.ppid, p.state, p.exe), (None, None, None));
    assert!(p.cmdline.is_empty());
    let mut blank = files(12, "x");
    blank.comm = None;
    blank.status = Some("Name: \n".to_string());
    assert_eq!(read_process(blank).comm, "");
}

#[test]
fn process_ids() {
    assert_eq!(process_id("12"), Some(12));
    assert_eq!(process_id("+12"), Some(12));
    assert_eq!(process_id("self"), None);
    assert_eq!(process_id("4294967296"), None);
    assert_eq!(process_id(""), None);
}

#[test]
fn needles() {
    let p = read_process(files(123, "Comm"));
    for needle in ["", "23", "comm", "--flag", "bin/demo"] {
        assert!(process_matches(&p, needle), "{}", needle);
    }
    for needle in ["Comm", "124", "zzz"] {
        assert!(!process_matches(&p, needle), "{}", needle);
    }
}

#[test]
fn listing_is_sorted_and_filtered() {
    let all = || vec![files(30, "c"), files(4, "needle"), files(12, "NEEDLE"), files(1, "d")];
    let pids = |q, limit| -> Vec<u32> {
        read_processes(query(q, limit), all()).iter().map(|p| p.pid).collect()
    };
    assert_eq!(pids(None, None), vec![1, 4, 12, 30]);
    assert_eq!(pids(None, Some(2)), vec![1, 4]);
    assert_eq!(pids(None, Some(0)), Vec::<u32>::new());
    assert_eq!(pids(Some("Needle"), None), vec![4, 12]);
    assert_eq!(pids(Some("needle"), None), vec![4, 12]);
    assert_eq!(pids(Some("needle"), Some(1)), vec![4]);
    assert_eq!(pids(Some("nowhere"), None), Vec::<u32>::new());
}

#[test]
fn equal_identifiers_keep_their_order() {
    let listed = read_processes(
        query(None, None),
        vec![files(5, "b"), files(7, "x"), files(5, "a"), files(5, "c")],
    );
    let comms: Vec<&str> = listed.iter().map(|p| p.comm.as_str()).collect();
    assert_eq!(comms, vec!["b", "a", "c", "x"]);
}

#[test]
fn listing_is_capped() {
    let many: Vec<ProcessFiles> = (0..5000)
        .map(|pid| ProcessFiles { pid, status: None, comm: None, cmdline: None, exe: None })
        .collect();
    let listed = read_processes(query(None, Some(100_000)), many);
    assert_eq!(listed.len(), 4096);
    assert_eq!(listed[4095].pid, 4095);
}

#[test]
fn processes_are_copied_whole() {
    let mut process = read_process(files(3, "demo"));
    process.cmdline = vec!["demo".to_string(), "-v".to_string()];
    process.exe = Some("/bin/demo".to_string());
    let copy = process.clone();
    assert_eq!((copy.pid, copy.ppid), (process.pid, process.ppid));
    assert_eq!((copy.state, copy.comm), (process.state, process.comm));
    assert_eq!((copy.cmdline, copy.exe), (process.cmdline, process.exe));
}
