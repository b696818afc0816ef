use pwatch::watch::{
    parse_addr, parse_len, parse_watchpoint_type, passes, start_watch, watch_target, WatchConfig,
    WatchError, WatchTarget,
};

fn config(thread: bool) -> WatchConfig<u8> {
    WatchConfig {
        pid: 12,
        thread,
        type_text: "rw4".to_string(),
        addr_text: "0x0000000000001000".to_string(),
        ty: 3,
        addr: 0x1000,
        len: 4,
        backtrace: false,
        buf_size: 0,
        filter: None,
    }
}

#[test]
fn lengths() {
    assert_eq!(parse_len(""), Some(1));
    assert_eq!(parse_len("1"), Some(1));
    assert_eq!(parse_len("2"), Some(2));
    assert_eq!(parse_len("4"), Some(4));
    assert_eq!(parse_len("8"), Some(8));
    assert_eq!(parse_len("3"), None);
    assert_eq!(parse_len("11"), None);
    assert_eq!(parse_len(" "), None);
}

#[test]
fn watchpoint_types() {
    let sys_r = perf_event_open_sys::bindings::HW_BREAKPOINT_R;
    let sys_w = perf_event_open_sys::bindings::HW_BREAKPOINT_W;
    let sys_rw = perf_event_open_sys::bindings::HW_BREAKPOINT_RW;
    let sys_x = perf_event_open_sys::bindings::HW_BREAKPOINT_X;
    assert_eq!(parse_watchpoint_type("r"), Some((sys_r, 1)));
    assert_eq!(parse_watchpoint_type("r8"), Some((sys_r, 8)));
    assert_eq!(parse_watchpoint_type("w2"), Some((sys_w, 2)));
    assert_eq!(parse_watchpoint_type("rw"), Some((sys_rw, 1)));
    assert_eq!(parse_watchpoint_type("rw4"), Some((sys_rw, 4)));
    assert_eq!(
        parse_watchpoint_type("x"),
        Some((sys_x, std::mem::size_of::<nix::libc::c_long>() as u32))
    );
    for s in ["", "x1", "wr", "rw3", "R", "r 1", "rx", "a"] {
        assert_eq!(parse_watchpoint_type(s), None, "{}", s);
    }
}

#[test]
fn addresses() {
    assert_eq!(parse_addr("0x1f"), Some(0x1f));
    assert_eq!(parse_addr("1F"), Some(0x1f));
    assert_eq!(parse_addr("+1f"), Some(0x1f));
    assert_eq!(parse_addr("0X1f"), None);
    assert_eq!(parse_addr(""), None);
    assert_eq!(parse_addr("0x0000000000001000"), Some(0x1000));
}

#[test]
fn targets() {
    assert_eq!(watch_target(&config(true)), WatchTarget::Thread(12));
    assert_eq!(watch_target(&config(false)), WatchTarget::Tasks(12));
}

#[test]
fn process_watch_leaves_failed_threads_out() {
    let opened = vec![
        (1, Ok("a")),
        (2, Err("busy".to_string())),
        (3, Ok("c")),
    ];
    let (start, maps) = start_watch(&config(false), opened).unwrap();
    assert_eq!(start.threads, vec![1, 3]);
    assert_eq!(maps, vec!["a", "c"]);
}

#[test]
fn process_watch_needs_a_thread() {
    let opened: Vec<(u32, Result<(), String>)> = vec![(2, Err("busy".to_string()))];
    let e = start_watch(&config(false), opened).unwrap_err();
    assert!(matches!(e, WatchError::NoPerfMap));
    assert_eq!(e.message(), "no valid perf map");
    let none: Vec<(u32, Result<(), String>)> = vec![];
    assert!(start_watch(&config(false), none).is_err());
}

#[test]
fn thread_watch_reports_its_failure() {
    let opened: Vec<(u32, Result<(), String>)> = vec![(12, Err("busy".to_string()))];
    let e = start_watch(&config(true), opened).unwrap_err();
    assert!(matches!(e, WatchError::Open(_)));
    assert_eq!(e.message(), "busy");
    let (start, maps) = start_watch(&config(true), vec![(12, Ok(5))]).unwrap();
    assert_eq!((start.threads, maps), (vec![12], vec![5]));
}

#[test]
fn hits_pass_unless_cancelled_or_filtered() {
    assert!(passes(false, None));
    assert!(passes(false, Some(true)));
    assert!(!passes(false, Some(false)));
    assert!(!passes(true, None));
    assert!(!passes(true, Some(true)));
}

#[test]
fn configurations_are_copied_whole() {
    let mut original = config(true);
    original.filter = Some(9);
    let copy = original.clone();
    assert_eq!((copy.pid, copy.thread, copy.ty), (original.pid, true, original.ty));
    assert_eq!((copy.addr, copy.len, copy.buf_size), (original.addr, original.len, original.buf_size));
    assert_eq!((copy.type_text, copy.addr_text), (original.type_text, original.addr_text));
    assert_eq!((copy.backtrace, copy.filter), (original.backtrace, Some(9)));
}

#[test]
fn each_thread_has_its_map() {
    let opened = vec![(4, Ok("d")), (2, Err("busy".to_string())), (1, Ok("a")), (3, Ok("c"))];
    let (start, maps) = start_watch(&config(false), opened).unwrap();
    assert_eq!(start.threads, vec![4, 1, 3]);
    assert_eq!(maps, vec!["d", "a", "c"]);
}
