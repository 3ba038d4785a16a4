use photo_index::remote_index::{
    index_url, page_request, response_succeeded, upload_outcome, upload_request, CallError,
    FetchStep, GetIndexResponse, PageReply, PageRequest, QueryParam, RemoteIndexSnapshot,
    SnapshotFetch,
};

fn param(name: &str, value: &str) -> QueryParam {
    QueryParam { name: name.to_string(), value: value.to_string() }
}

fn page(values: &[&str], next_offset: Option<&str>) -> PageReply {
    PageReply {
        status: Some(200),
        page: Some(GetIndexResponse {
            values: values.iter().map(|v| v.to_string()).collect(),
            next_offset: next_offset.map(String::from),
        }),
    }
}

#[test]
fn the_index_lives_below_v1() {
    assert_eq!(index_url("http://localhost:8081"), "http://localhost:8081/v1/index");
    assert_eq!(index_url(""), "/v1/index");
}

#[test]
fn the_first_page_is_asked_without_offset() {
    let request = page_request("http://h/v1/index", None);
    assert_eq!(
        request,
        PageRequest { url: "http://h/v1/index".to_string(), query: vec![param("size", "1000")] }
    );
}

#[test]
fn later_pages_are_asked_from_the_cursor() {
    let cursor = "abc/def".to_string();
    let request = page_request("http://h/v1/index", Some(&cursor));
    assert_eq!(request.query, vec![param("size", "1000"), param("offset", "abc/def")]);
}

#[test]
fn success_is_a_status_from_200_to_299() {
    for status in 0..=u16::MAX {
        assert_eq!(response_succeeded(status), (200..300).contains(&status));
    }
}

#[test]
fn a_fetch_of_three_pages() {
    let (fetch, first) = SnapshotFetch::begin("http://h");
    assert_eq!(first.url, "http://h/v1/index");
    assert_eq!(first.query, vec![param("size", "1000")]);
    let (fetch, second) = match fetch.step(page(&["a.jpg", "b.jpg"], Some("c1"))) {
        FetchStep::Next { fetch, request } => (fetch, request),
        _ => panic!("the fetch should go on"),
    };
    assert_eq!(second.url, "http://h/v1/index");
    assert_eq!(second.query, vec![param("size", "1000"), param("offset", "c1")]);
    let (fetch, third) = match fetch.step(page(&["b.jpg", "d/c.jpg"], Some("c2"))) {
        FetchStep::Next { fetch, request } => (fetch, request),
        _ => panic!("the fetch should go on"),
    };
    assert_eq!(third.query, vec![param("size", "1000"), param("offset", "c2")]);
    let snapshot = match fetch.step(page(&["e.jpg"], None)) {
        FetchStep::Done(snapshot) => snapshot,
        _ => panic!("the fetch should be done"),
    };
    assert_eq!(snapshot.len(), 4);
    for held in ["a.jpg", "b.jpg", "d/c.jpg", "e.jpg"] {
        assert!(snapshot.contains(held));
    }
    assert!(!snapshot.contains("c.jpg"));
    assert!(!snapshot.contains(""));
}

#[test]
fn an_empty_index_is_one_empty_page() {
    let (fetch, _) = SnapshotFetch::begin("http://h");
    match fetch.step(page(&[], None)) {
        FetchStep::Done(snapshot) => assert_eq!(snapshot.len(), 0),
        _ => panic!("the fetch should be done"),
    }
}

#[test]
fn a_failed_page_ends_the_fetch() {
    let failed = |reply: PageReply| {
        let (fetch, _) = SnapshotFetch::begin("http://h");
        let fetch = match fetch.step(page(&["a.jpg"], Some("c1"))) {
            FetchStep::Next { fetch, .. } => fetch,
            _ => panic!("the fetch should go on"),
        };
        match fetch.step(reply) {
            FetchStep::Failed(error) => error,
            _ => panic!("the fetch should fail"),
        }
    };
    assert_eq!(failed(PageReply { status: None, page: None }), CallError::Transport);
    let full = page(&["x"], None).page;
    assert_eq!(failed(PageReply { status: None, page: full.clone() }), CallError::Transport);
    assert_eq!(failed(PageReply { status: Some(500), page: full.clone() }), CallError::Status(500));
    assert_eq!(failed(PageReply { status: Some(404), page: None }), CallError::Status(404));
    assert_eq!(failed(PageReply { status: Some(301), page: full.clone() }), CallError::Status(301));
    assert_eq!(failed(PageReply { status: Some(199), page: full }), CallError::Status(199));
    assert_eq!(failed(PageReply { status: Some(200), page: None }), CallError::Body);
}

#[test]
fn a_snapshot_holds_what_was_put_into_it() {
    let mut snapshot = RemoteIndexSnapshot::new();
    assert_eq!(snapshot.len(), 0);
    assert!(!snapshot.contains("a.jpg"));
    snapshot.insert("a.jpg".to_string());
    snapshot.insert("a.jpg".to_string());
    snapshot.extend(&vec!["b.jpg".to_string(), "a.jpg".to_string()]);
    assert_eq!(snapshot.len(), 2);
    assert!(snapshot.contains("a.jpg"));
    assert!(snapshot.contains("b.jpg"));
    assert!(!snapshot.contains("A.jpg"));
}

#[test]
fn an_upload_is_a_post_of_json_to_the_index() {
    let request = upload_request("http://localhost:8081");
    assert_eq!(request.url, "http://localhost:8081/v1/index");
    assert_eq!(request.content_type, "application/json");
}

#[test]
fn an_upload_succeeds_on_a_status_of_success_alone() {
    assert_eq!(upload_outcome(Some(200)), Ok(()));
    assert_eq!(upload_outcome(Some(201)), Ok(()));
    assert_eq!(upload_outcome(Some(299)), Ok(()));
    assert_eq!(upload_outcome(Some(500)), Err(CallError::Status(500)));
    assert_eq!(upload_outcome(Some(300)), Err(CallError::Status(300)));
    assert_eq!(upload_outcome(Some(400)), Err(CallError::Status(400)));
    assert_eq!(upload_outcome(None), Err(CallError::Transport));
}
