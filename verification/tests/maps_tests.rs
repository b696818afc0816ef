use pwatch::cache::{Attempt, ExpressionStep, ExpressionWait, MapsCache, ResolveStep, FRESH_NANOS};
use pwatch::expression::{
    parse_module_offset, parse_numeric_addr, path_names_module, MapsError,
};
use pwatch::maps::{find_region, parse_maps_line, read_maps};

const MAPS: &str = "\
55d0c8a00000-55d0c8a28000 r--p 00000000 fd:01 1311 /usr/bin/Demo App
55d0c8a28000-55d0c8b00000 r-xp 00028000 fd:01 1311 /usr/bin/Demo App
not a region
7f10a0000000-7f10a0028000 r--p 00000000 fd:01 42 /usr/lib/x86_64-linux-gnu/libc.so.6
7f10a0028000-7f10a01bd000 r-xp 00028000 fd:01 42 /usr/lib/x86_64-linux-gnu/libc.so.6
7ffd00000000-7ffd00021000 rw-p 00000000 00:00 0 [stack]
fffffffffffff000-ffffffffffffffff r-xp 00000000 00:00 0 /top/module.bin
7ffd00030000-7ffd00031000 rw-p 00000000 00:00 0
";

fn chars(s: &str) -> Vec<char> {
    s.chars().collect()
}

#[test]
fn line_with_path() {
    let r = parse_maps_line("00400000-00452000 r-xp 00001f00 08:02 173521 /usr/bin/a  b").unwrap();
    assert_eq!((r.start, r.end), (0x400000, 0x452000));
    assert_eq!(r.region.start, "0x0000000000400000");
    assert_eq!(r.region.end, "0x0000000000452000");
    assert_eq!(r.region.perms, "r-xp");
    assert_eq!(r.region.offset, "0x1f00");
    assert_eq!(r.region.dev, "08:02");
    assert_eq!(r.region.inode, 173521);
    assert_eq!(r.region.pathname.as_deref(), Some("/usr/bin/a b"));
}

#[test]
fn line_without_path() {
    let r = parse_maps_line("  0-+10\trw-p 0 00:00 0  ").unwrap();
    assert_eq!((r.start, r.end), (0, 0x10));
    assert_eq!(r.region.offset, "0x0");
    assert_eq!(r.region.pathname, None);
}

#[test]
fn malformed_lines() {
    for line in [
        "",
        "00400000-00452000 r-xp 00000000 08:02",
        "00400000 r-xp 00000000 08:02 1 /a",
        "0040000g-00452000 r-xp 00000000 08:02 1 /a",
        "00400000-0045200- r-xp 00000000 08:02 1 /a",
        "00400000-00452000 r-xp zz 08:02 1 /a",
        "00400000-00452000 r-xp 00000000 08:02 1f /a",
        "00400000-10000000000000000 r-xp 00000000 08:02 1 /a",
        "-00452000 r-xp 00000000 08:02 1 /a",
    ] {
        assert!(parse_maps_line(line).is_none(), "{}", line);
    }
}

#[test]
fn file_skips_malformed_lines() {
    let regions = read_maps(MAPS);
    assert_eq!(regions.len(), 7);
    assert_eq!(regions[0].region.pathname.as_deref(), Some("/usr/bin/Demo App"));
    assert_eq!(regions[6].region.pathname, None);
    assert!(read_maps("").is_empty());
}

#[test]
fn region_bounds_are_half_open() {
    let regions = read_maps(MAPS);
    let at = |addr: u64| find_region(&regions, addr).map(|r| r.start);
    assert_eq!(at(0x55d0c8a00000).as_deref(), Some("0x000055d0c8a00000"));
    assert_eq!(at(0x55d0c8a27fff).as_deref(), Some("0x000055d0c8a00000"));
    assert_eq!(at(0x55d0c8a28000).as_deref(), Some("0x000055d0c8a28000"));
    assert_eq!(at(0x55d0c8b00000), None);
    assert_eq!(at(u64::MAX), None);
}

#[test]
fn numeric_addresses() {
    assert_eq!(parse_numeric_addr(""), None);
    assert_eq!(parse_numeric_addr("0x"), None);
    assert_eq!(parse_numeric_addr("0x1F"), Some(0x1f));
    assert_eq!(parse_numeric_addr("0X1f"), Some(0x1f));
    assert_eq!(parse_numeric_addr("0x+1f"), Some(0x1f));
    assert_eq!(parse_numeric_addr("+1f"), None);
    assert_eq!(parse_numeric_addr("deadBEEF"), Some(0xdead_beef));
    assert_eq!(parse_numeric_addr("0xffffffffffffffff"), Some(u64::MAX));
    assert_eq!(parse_numeric_addr("0x10000000000000000"), None);
    assert_eq!(parse_numeric_addr("libc"), None);
    assert_eq!(parse_numeric_addr(" 1"), None);
}

#[test]
fn module_offsets() {
    let (module, offset) = parse_module_offset(" libc.so.6 + 0x10 ").unwrap();
    assert_eq!((module.as_str(), offset), ("libc.so.6", 0x10));
    assert!(matches!(parse_module_offset("libc.so.6"), Err(MapsError::InvalidExpression(_))));
    assert!(matches!(parse_module_offset(" +10"), Err(MapsError::MissingModule(_))));
    assert!(matches!(parse_module_offset("libc+"), Err(MapsError::InvalidOffset(_))));
    assert!(matches!(parse_module_offset("a+b+c"), Err(MapsError::InvalidOffset(_))));
}

#[test]
fn module_names() {
    let path = "/usr/lib/LibFoo.so";
    for name in ["/usr/lib/libfoo.so", "libfoo.SO", "lib/LIBFOO.so", "usr/lib/libfoo.so"] {
        assert!(path_names_module(path, &chars(name)), "{}", name);
    }
    for name in ["foo.so", "", "/libfoo.so", "libfoo", "lib"] {
        assert!(!path_names_module(path, &chars(name)), "{}", name);
    }
    assert!(path_names_module("/a/b/./", &chars("B")));
    assert!(path_names_module("/a/", &chars("")));
    assert!(!path_names_module("/a/..", &chars("a")));
}

#[test]
fn error_messages() {
    let text = |e: MapsError| e.message();
    assert_eq!(text(MapsError::LockPoisoned), "maps cache lock poisoned");
    assert_eq!(text(MapsError::Read("gone".to_string())), "gone");
    assert_eq!(
        text(parse_module_offset("libc").unwrap_err()),
        "invalid address expression: libc"
    );
    assert_eq!(
        text(parse_module_offset("+1").unwrap_err()),
        "missing module in address expression: +1"
    );
    assert_eq!(text(parse_module_offset("a+x").unwrap_err()), "invalid module offset: a+x");
    assert_eq!(
        text(MapsError::ModuleNotFound { pid: 17, module: "libz".to_string() }),
        "module not found in pid 17 maps: libz"
    );
    assert_eq!(
        text(MapsError::Overflow("m+1".to_string())),
        "resolved address overflow: m+1"
    );
}

#[test]
fn list_gives_every_region_and_fills_the_cache() {
    let mut cache = MapsCache::default();
    let listed = cache.list(0, 7, Ok(MAPS.to_string())).unwrap();
    assert_eq!(listed.len(), 7);
    assert_eq!(listed[4].pathname.as_deref(), Some("[stack]"));
    assert!(cache.regions_with(FRESH_NANOS - 1, 7, false).is_some());
    assert!(cache.regions_with(FRESH_NANOS - 1, 7, true).is_none());
    assert!(cache.regions_with(FRESH_NANOS, 7, false).is_none());
    assert!(cache.regions_with(0, 8, false).is_none());
    let failed = cache.list(5, 8, Err("No such file or directory (os error 2)".to_string()));
    assert_eq!(failed.unwrap_err().message(), "No such file or directory (os error 2)");
    assert!(cache.regions_with(5, 8, false).is_none());
}

#[test]
fn fresh_cache_answers_without_a_read() {
    let mut cache = MapsCache::default();
    cache.list(100, 7, Ok(MAPS.to_string())).unwrap();
    match cache.resolve(200, 7, 0x7ffd00000010) {
        ResolveStep::Done(Some(region)) => assert_eq!(region.perms, "rw-p"),
        step => panic!("{:?}", step),
    }
    match cache.resolve(100 + FRESH_NANOS, 7, 0x7ffd00000010) {
        ResolveStep::Read(lookup) => assert_eq!(lookup.attempt, Attempt::Stale),
        step => panic!("{:?}", step),
    }
    match cache.resolve(50, 7, 0x7ffd00000010) {
        ResolveStep::Done(Some(_)) => {}
        step => panic!("{:?}", step),
    }
}

#[test]
fn missed_address_is_read_once_more() {
    let mut cache = MapsCache::default();
    cache.list(100, 7, Ok(String::new())).unwrap();
    let lookup = match cache.resolve(200, 7, 0x7ffd00000010) {
        ResolveStep::Read(lookup) => lookup,
        step => panic!("{:?}", step),
    };
    assert_eq!(lookup.attempt, Attempt::Missed);
    assert!(matches!(
        cache.continue_resolve(lookup, Ok(MAPS.to_string())),
        ResolveStep::Done(Some(_))
    ));
    assert!(matches!(cache.continue_resolve(lookup, Ok(String::new())), ResolveStep::Done(None)));
    assert!(matches!(
        cache.continue_resolve(lookup, Err("gone".to_string())),
        ResolveStep::Done(None)
    ));
}

#[test]
fn stale_lookup_reads_at_most_twice() {
    let mut cache = MapsCache::default();
    let lookup = match cache.resolve(200, 7, 0x10) {
        ResolveStep::Read(lookup) => lookup,
        step => panic!("{:?}", step),
    };
    assert_eq!(lookup.attempt, Attempt::Stale);
    let again = match cache.continue_resolve(lookup, Err("gone".to_string())) {
        ResolveStep::Read(lookup) => lookup,
        step => panic!("{:?}", step),
    };
    assert_eq!(again.attempt, Attempt::Missed);
    assert!(matches!(cache.continue_resolve(again, Ok(MAPS.to_string())), ResolveStep::Done(None)));
}

fn run(cache: &mut MapsCache, expression: &str, content: &str) -> (ExpressionStep, usize) {
    let mut reads = 0;
    let mut step = cache.resolve_expression(1000, 7, expression);
    loop {
        match step {
            ExpressionStep::Read(wait) => {
                reads += 1;
                step = cache.continue_expression(2000, wait, Ok(content.to_string()));
            }
            done => return (done, reads),
        }
    }
}

#[test]
fn number_resolves_to_its_region() {
    let mut cache = MapsCache::default();
    let (step, reads) = run(&mut cache, " 7ffd00000010 ", MAPS);
    assert_eq!(reads, 1);
    match step {
        ExpressionStep::Done(Ok(resolved)) => {
            assert_eq!(resolved.expression, " 7ffd00000010 ");
            assert_eq!(resolved.address, "0x00007ffd00000010");
            assert_eq!(resolved.value, 0x7ffd00000010);
            assert_eq!(resolved.map.unwrap().pathname.as_deref(), Some("[stack]"));
        }
        step => panic!("{:?}", step),
    }
}

#[test]
fn unmapped_number_resolves_without_region() {
    let mut cache = MapsCache::default();
    let (step, reads) = run(&mut cache, "0x10", MAPS);
    assert_eq!(reads, 2);
    match step {
        ExpressionStep::Done(Ok(resolved)) => {
            assert_eq!(resolved.value, 0x10);
            assert!(resolved.map.is_none());
        }
        step => panic!("{:?}", step),
    }
}

#[test]
fn module_resolves_to_its_first_region() {
    let mut cache = MapsCache::default();
    let (step, reads) = run(&mut cache, "LIBC.so.6+0x28010", MAPS);
    assert_eq!(reads, 1);
    match step {
        ExpressionStep::Done(Ok(resolved)) => {
            assert_eq!(resolved.value, 0x7f10a0028010);
            assert_eq!(resolved.map.unwrap().perms, "r-xp");
            let (again, _) = run(&mut cache, &resolved.address, MAPS);
            match again {
                ExpressionStep::Done(Ok(same)) => assert_eq!(same.value, resolved.value),
                step => panic!("{:?}", step),
            }
        }
        step => panic!("{:?}", step),
    }
}

#[test]
fn module_errors() {
    let mut cache = MapsCache::default();
    let message = |step: ExpressionStep| match step {
        ExpressionStep::Done(Err(e)) => e.message(),
        step => panic!("{:?}", step),
    };
    let (step, reads) = run(&mut cache, "libm.so+1", MAPS);
    assert_eq!((message(step).as_str(), reads), ("module not found in pid 7 maps: libm.so", 1));
    let (step, _) = run(&mut cache, "module.bin+1000", MAPS);
    assert_eq!(message(step), "resolved address overflow: module.bin+1000");
    let (step, reads) = run(&mut cache, "nothing", MAPS);
    assert_eq!((message(step).as_str(), reads), ("invalid address expression: nothing", 0));
    let wait = match cache.resolve_expression(0, 7, "libc.so.6+1") {
        ExpressionStep::Read(wait) => wait,
        step => panic!("{:?}", step),
    };
    assert!(matches!(wait, ExpressionWait::Module { pid: 7, offset: 1, .. }));
    assert_eq!(message(cache.continue_expression(1, wait, Err("denied".to_string()))), "denied");
}

#[test]
fn cached_region_encloses_its_address() {
    let mut cache = MapsCache::default();
    cache.list(100, 7, Ok(MAPS.to_string())).unwrap();
    cache.list(150, 8, Ok("1000-2000 r--p 0 00:00 0\n".to_string())).unwrap();
    assert!(cache.list(160, 7, Err("gone".to_string())).is_err());
    for addr in [0x55d0c8a28000, 0x7f10a0028fff, 0x7ffd00030000] {
        match cache.resolve(200, 7, addr) {
            ResolveStep::Done(Some(region)) => {
                assert!(parse_numeric_addr(&region.start).unwrap() <= addr);
                assert!(addr < parse_numeric_addr(&region.end).unwrap());
            }
            step => panic!("{:?}", step),
        }
    }
}
