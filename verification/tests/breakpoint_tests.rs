use pwatch::breakpoints::{
    create_breakpoint_inner, create_with_filter, create_with_maps, BreakpointIds, Breakpoints,
    CreateBreakpointRequest, CreateError, CreateStep, Starting,
};
use pwatch::cache::MapsCache;
use pwatch::server::{
    breakpoints_poisoned, create_breakpoint, delete_breakpoint, list_breakpoints, Reply, Status,
};
use pwatch::watch::WatchStart;

const MAPS: &str = "1000-2000 r-xp 00000000 00:00 0 /bin/demo\n";

fn request(kind: &str, addr: &str, filter: Option<&str>) -> CreateBreakpointRequest {
    CreateBreakpointRequest {
        pid: 7,
        type_text: kind.to_string(),
        addr: addr.to_string(),
        backtrace: true,
        buf_size: 3,
        filter: filter.map(|f| f.to_string()),
    }
}

fn start(ids: &mut BreakpointIds, addr: &str) -> Starting<String> {
    let mut maps = MapsCache::default();
    let mut step = create_breakpoint_inner(&maps, ids, 0, request("w4", addr, None));
    loop {
        match step {
            CreateStep::ReadMaps(waiting) => {
                step = create_with_maps(&mut maps, ids, 1, waiting, Ok(MAPS.to_string()));
            }
            CreateStep::StartWatch(starting) => return starting,
            step => panic!("{:?}", step),
        }
    }
}

fn install(held: &mut Breakpoints<&'static str>, ids: &mut BreakpointIds, watch: &'static str) -> u64 {
    let starting = start(ids, "demo+10");
    let started = Ok((WatchStart { threads: vec![7, 8] }, watch));
    held.finish(starting, started, 55).unwrap().id
}

#[test]
fn watchpoint_is_configured_as_asked() {
    let mut ids = BreakpointIds::default();
    let starting = start(&mut ids, "Demo+0x10");
    assert_eq!(starting.id, 1);
    assert_eq!(starting.expression, "Demo+0x10");
    assert_eq!(starting.map.as_ref().unwrap().pathname.as_deref(), Some("/bin/demo"));
    let config = &starting.config;
    assert_eq!((config.pid, config.thread, config.ty, config.len), (7, false, 2, 4));
    assert_eq!((config.addr, config.addr_text.as_str()), (0x1010, "0x0000000000001010"));
    assert_eq!((config.backtrace, config.buf_size), (true, 3));
    assert_eq!(config.type_text, "w4");
    assert!(config.filter.is_none());
    assert_eq!(start(&mut ids, "1010").id, 2);
}

#[test]
fn made_breakpoint_is_shown_as_running() {
    let mut ids = BreakpointIds::default();
    let mut held: Breakpoints<u8> = Breakpoints::default();
    let starting = start(&mut ids, "demo+10");
    let view = held.finish(starting, Ok((WatchStart { threads: vec![7, 9] }, 1)), 99).unwrap();
    assert_eq!((view.id, view.pid, view.created_at_ms), (1, 7, 99));
    assert_eq!(view.type_text, "w4");
    assert_eq!(view.addr, "demo+10");
    assert_eq!(view.resolved_addr, "0x0000000000001010");
    assert_eq!(view.resolved_map.as_ref().unwrap().perms, "r-xp");
    assert_eq!(view.threads, vec![7, 9]);
    assert_eq!(view.status, "running");
    match create_breakpoint(Ok(view)) {
        Reply::Value(Status::Created, view) => assert_eq!(view.id, 1),
        reply => panic!("{:?}", reply),
    }
}

#[test]
fn invalid_type_is_refused_first() {
    let maps = MapsCache::default();
    let mut ids = BreakpointIds::default();
    let step: CreateStep<u8> =
        create_breakpoint_inner(&maps, &mut ids, 0, request("q", "nonsense", None));
    let error = match step {
        CreateStep::Failed(error) => error,
        step => panic!("{:?}", step),
    };
    assert!(matches!(error, CreateError::InvalidType(_)));
    match create_breakpoint(Err(error)) {
        Reply::Error(Status::BadRequest, text) => assert_eq!(text, "invalid watchpoint type: q"),
        reply => panic!("{:?}", reply),
    }
    assert_eq!(start(&mut ids, "10").id, 1);
}

#[test]
fn unresolved_address_is_refused() {
    let maps = MapsCache::default();
    let mut ids = BreakpointIds::default();
    let step: CreateStep<u8> =
        create_breakpoint_inner(&maps, &mut ids, 0, request("r", "nonsense", Some("f")));
    match step {
        CreateStep::Failed(CreateError::Address(e)) => {
            assert_eq!(e.message(), "invalid address expression: nonsense")
        }
        step => panic!("{:?}", step),
    }
}

#[test]
fn filter_is_parsed_after_the_address() {
    let mut maps = MapsCache::default();
    let mut ids = BreakpointIds::default();
    let mut filtering = |ids: &mut BreakpointIds| {
        let mut step: CreateStep<u32> =
            create_breakpoint_inner(&maps, ids, 0, request("r", "1234", Some("ax==1")));
        loop {
            match step {
                CreateStep::ReadMaps(waiting) => {
                    step = create_with_maps(&mut maps, ids, 0, waiting, Ok(MAPS.to_string()));
                }
                CreateStep::ParseFilter(waiting) => return waiting,
                step => panic!("{:?}", step),
            }
        }
    };
    let first = filtering(&mut ids);
    assert_eq!(first.filter, "ax==1");
    match create_with_filter::<u32>(&mut ids, first, Err("bad filter".to_string())) {
        CreateStep::Failed(e) => assert_eq!(e.message(), "bad filter"),
        step => panic!("{:?}", step),
    }
    let second = filtering(&mut ids);
    match create_with_filter(&mut ids, second, Ok(42u32)) {
        CreateStep::StartWatch(starting) => {
            assert_eq!(starting.id, 1);
            assert_eq!(starting.config.filter, Some(42));
        }
        step => panic!("{:?}", step),
    }
}

#[test]
fn failed_watch_uses_its_identifier_up() {
    let mut ids = BreakpointIds::default();
    let mut held: Breakpoints<u8> = Breakpoints::default();
    let starting = start(&mut ids, "10");
    let e = held.finish(starting, Err("no valid perf map".to_string()), 0).unwrap_err();
    assert!(matches!(e, CreateError::Watch(_)));
    assert_eq!(e.message(), "no valid perf map");
    assert!(held.list().is_empty());
    assert_eq!(start(&mut ids, "10").id, 2);
}

#[test]
fn breakpoints_are_listed_by_identifier() {
    let mut ids = BreakpointIds::default();
    let mut held = Breakpoints::default();
    for expected in 1..=20 {
        assert_eq!(install(&mut held, &mut ids, "w"), expected);
    }
    match list_breakpoints(&held) {
        Reply::Value(Status::Done, views) => {
            let listed: Vec<u64> = views.iter().map(|v| v.id).collect();
            assert_eq!(listed, (1..=20).collect::<Vec<u64>>());
            assert_eq!(views[3].threads, vec![7, 8]);
        }
        reply => panic!("{:?}", reply),
    }
}

#[test]
fn removed_breakpoint_gives_its_watch_back() {
    let mut ids = BreakpointIds::default();
    let mut held = Breakpoints::default();
    install(&mut held, &mut ids, "first");
    install(&mut held, &mut ids, "second");
    let (reply, watch) = delete_breakpoint(&mut held, 1);
    assert!(matches!(reply, Reply::Empty(Status::NoContent)));
    assert_eq!(watch, Some("first"));
    let left: Vec<u64> = held.list().iter().map(|v| v.id).collect();
    assert_eq!(left, vec![2]);
    let (reply, watch) = delete_breakpoint(&mut held, 1);
    assert_eq!(watch, None);
    match reply {
        Reply::Error(Status::NotFound, text) => assert_eq!(text, "breakpoint 1 not found"),
        reply => panic!("{:?}", reply),
    }
}

#[test]
fn poisoned_breakpoints() {
    match breakpoints_poisoned::<()>() {
        Reply::Error(status, text) => {
            assert_eq!(status.code(), 500);
            assert_eq!(text, "breakpoint lock poisoned");
        }
        reply => panic!("{:?}", reply),
    }
    assert_eq!(CreateError::LockPoisoned.message(), "breakpoint lock poisoned");
}

#[test]
fn module_outside_its_region_takes_three_reads() {
    let mut ids = BreakpointIds::default();
    let mut maps = MapsCache::default();
    let asked = request("rw8", "demo+0x5000", None);
    let mut step = create_breakpoint_inner::<String>(&maps, &mut ids, 0, asked);
    let mut reads = 0;
    while let CreateStep::ReadMaps(waiting) = step {
        reads += 1;
        let now = 2_000_000_000 * reads;
        step = create_with_maps(&mut maps, &mut ids, now, waiting, Ok(MAPS.to_string()));
    }
    assert_eq!(reads, 3);
    match step {
        CreateStep::StartWatch(starting) => {
            assert_eq!(starting.config.addr, 0x6000);
            assert!(starting.map.is_none());
        }
        step => panic!("{:?}", step),
    }
}
