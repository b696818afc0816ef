use pwatch::expression::MapsError;
use pwatch::hit::{Hit, HitFactory};
use pwatch::perf::SampleData;
use pwatch::server::{
    answered_at_once, cors_headers, get_hits, hits_poisoned, list_maps, list_processes, now_ms,
    resolve_address, HitBuffer, Reply, Status,
};

fn hits(count: u64) -> Vec<Hit> {
    let mut factory = HitFactory::default();
    (0..count)
        .map(|_| {
            let data = SampleData { pid: 1, tid: 1, regs: vec![], backtrace: None };
            factory.make_hit_with_maps(1, data, vec![], None, &vec![], 0)
        })
        .collect()
}

fn shown(buffer: &HitBuffer, limit: Option<usize>) -> Vec<u64> {
    match get_hits(buffer, limit) {
        Reply::Value(Status::Done, hits) => hits.iter().map(|h| h.seq).collect(),
        reply => panic!("{:?}", reply),
    }
}

#[test]
fn buffer_keeps_the_last_hits() {
    let mut buffer = HitBuffer::new(3);
    assert_eq!(shown(&buffer, None), Vec::<u64>::new());
    for hit in hits(5) {
        buffer.push_hit(hit);
    }
    assert_eq!(shown(&buffer, None), vec![3, 4, 5]);
    assert_eq!(shown(&buffer, Some(2)), vec![4, 5]);
    assert_eq!(shown(&buffer, Some(0)), Vec::<u64>::new());
    assert_eq!(shown(&buffer, Some(10)), vec![3, 4, 5]);
}

#[test]
fn buffer_for_no_hits_stays_empty() {
    let mut buffer = HitBuffer::new(0);
    for hit in hits(2) {
        buffer.push_hit(hit);
    }
    assert_eq!(shown(&buffer, None), Vec::<u64>::new());
}

#[test]
fn hundred_hits_are_shown_by_default() {
    let mut buffer = HitBuffer::new(1000);
    for hit in hits(150) {
        buffer.push_hit(hit);
    }
    assert_eq!(shown(&buffer, None), (51..=150).collect::<Vec<u64>>());
    assert_eq!(shown(&buffer, Some(149)).len(), 149);
}

#[test]
fn statuses_have_numbers() {
    let codes: Vec<u16> = vec![
        Status::Done,
        Status::Created,
        Status::NoContent,
        Status::BadRequest,
        Status::NotFound,
        Status::InternalServerError,
    ]
    .into_iter()
    .map(|s| s.code())
    .collect();
    assert_eq!(codes, vec![200, 201, 204, 400, 404, 500]);
}

#[test]
fn failures_are_answered() {
    match hits_poisoned::<()>() {
        Reply::Error(Status::InternalServerError, text) => {
            assert_eq!(text, "hit buffer lock poisoned")
        }
        reply => panic!("{:?}", reply),
    }
    match list_processes(Err("no proc".to_string())) {
        Reply::Error(Status::InternalServerError, text) => assert_eq!(text, "no proc"),
        reply => panic!("{:?}", reply),
    }
    match list_maps(Err(MapsError::Read("gone".to_string()))) {
        Reply::Error(Status::BadRequest, text) => assert_eq!(text, "gone"),
        reply => panic!("{:?}", reply),
    }
    match resolve_address(Err(MapsError::InvalidOffset("a+".to_string()))) {
        Reply::Error(Status::BadRequest, text) => assert_eq!(text, "invalid module offset: a+"),
        reply => panic!("{:?}", reply),
    }
    assert!(matches!(list_processes(Ok(vec![])), Reply::Value(Status::Done, _)));
    assert!(matches!(list_maps(Ok(vec![])), Reply::Value(Status::Done, _)));
}

#[test]
fn time_before_the_epoch_counts_as_zero() {
    assert_eq!(now_ms(Some(17)), 17);
    assert_eq!(now_ms(None), 0);
}

#[test]
fn other_origins() {
    assert!(answered_at_once("OPTIONS"));
    assert!(!answered_at_once("options"));
    assert!(!answered_at_once("GET"));
    assert_eq!(
        cors_headers(),
        vec![
            ("access-control-allow-origin", "*"),
            ("access-control-allow-methods", "GET,POST,DELETE,OPTIONS"),
            ("access-control-allow-headers", "content-type,accept"),
        ]
    );
}
