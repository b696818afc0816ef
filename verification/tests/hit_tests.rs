use pwatch::hit::{display_address, HitFactory};
use pwatch::maps::{AddressResolution, MapRegion};
use pwatch::perf::SampleData;

fn resolution(display: &str) -> AddressResolution {
    AddressResolution {
        region: MapRegion {
            start: "0x0000000000001000".to_string(),
            end: "0x0000000000002000".to_string(),
            perms: "r-xp".to_string(),
            offset: "0x0".to_string(),
            dev: "00:00".to_string(),
            inode: 3,
            pathname: Some("/bin/demo".to_string()),
        },
        display: display.to_string(),
    }
}

#[test]
fn addresses_are_shown_with_what_is_known() {
    assert_eq!(display_address(0x10, None), "0x0000000000000010");
    assert_eq!(
        display_address(0x1010, Some(&resolution("demo+0x10"))),
        "0x0000000000001010 (demo+0x10)"
    );
}

#[test]
fn hit_without_backtrace() {
    let mut factory = HitFactory::default();
    let names = vec!["ax", "bx", "cx"];
    let data = SampleData { pid: 5, tid: 6, regs: vec![0x1010, 2], backtrace: None };
    let hit =
        factory.make_hit_with_maps(9, data, vec![Some(resolution("demo+0x10"))], None, &names, 77);
    assert_eq!((hit.seq, hit.breakpoint_id, hit.pid, hit.tid), (1, 9, 5, 6));
    assert_eq!(hit.timestamp_ms, 77);
    assert_eq!(hit.regs.len(), 2);
    assert_eq!(hit.regs[0].name, "ax");
    assert_eq!(hit.regs[0].value, "0x0000000000001010");
    assert_eq!(hit.regs[0].display, "0x0000000000001010 (demo+0x10)");
    assert_eq!(hit.regs[0].map.as_ref().unwrap().inode, 3);
    assert_eq!(hit.regs[0].resolved.as_ref().unwrap().display, "demo+0x10");
    assert_eq!(hit.regs[1].name, "bx");
    assert_eq!(hit.regs[1].display, "0x0000000000000002");
    assert!(hit.regs[1].map.is_none());
    assert!(hit.regs[1].resolved.is_none());
    assert!(hit.backtrace.is_none());
    assert!(hit.backtrace_frames.is_none());
}

#[test]
fn hit_with_backtrace() {
    let mut factory = HitFactory::default();
    let names = vec![];
    let data =
        SampleData { pid: 5, tid: 6, regs: vec![], backtrace: Some(vec![0x1010, 0x20, 0x1030]) };
    let known = Some(vec![None, Some(resolution("x"))]);
    let hit = factory.make_hit_with_maps(1, data, vec![], known, &names, 0);
    assert_eq!(
        hit.backtrace.unwrap(),
        vec!["0x0000000000001010", "0x0000000000000020", "0x0000000000001030"]
    );
    let frames = hit.backtrace_frames.unwrap();
    assert_eq!(frames[0].display, "0x0000000000001010");
    assert_eq!(frames[1].display, "0x0000000000000020 (x)");
    assert_eq!(frames[1].value, "0x0000000000000020");
    assert!(frames[2].resolved.is_none());
}

#[test]
fn hits_are_numbered_from_one() {
    let mut factory = HitFactory::default();
    assert_eq!(factory.count(), 0);
    for expected in 1..4 {
        let data = SampleData { pid: 1, tid: 1, regs: vec![], backtrace: Some(vec![1]) };
        let hit = factory.make_hit_with_maps(1, data, vec![], None, &vec![], 0);
        assert_eq!(hit.seq, expected);
        assert_eq!(factory.count(), expected);
        let copy = hit.clone();
        assert_eq!(copy.seq, expected);
        assert_eq!(copy.backtrace, hit.backtrace);
    }
}
