use typed_request::response::RawResponse;
use typed_request::world::completed_requests;
use typed_request::world::failed_requests;
use typed_request::world::handle_typed_response;
use typed_request::world::register_request_type;
use typed_request::world::App;
use typed_request::world::HttpRequest;
use typed_request::world::RequestBundle;
use typed_request::world::RequestType;

const U32_TAG: u64 = 1;
const OTHER_TAG: u64 = 2;

fn get(url: &str) -> HttpRequest {
    HttpRequest {
        method: String::from("GET"),
        url: String::from(url),
        body: Vec::new(),
    }
}

fn success_text(text: &str) -> RawResponse {
    RawResponse {
        text: Some(String::from(text)),
    }
}

#[test]
fn success_carrier_finalizes_in_one_tick() {
    let mut app = App::new();
    register_request_type(&mut app, U32_TAG);
    let e = app.spawn();
    app.attach_bundle(e, RequestBundle::new(get("http://example.test/n"), U32_TAG));
    assert!(app.has_pending(e, U32_TAG));
    app.attach_success(e, success_text("42"));
    app.update();
    let holder = app.typed_response(e, U32_TAG).expect("holder installed");
    assert_eq!(holder.result, Ok(success_text("42")));
    assert!(!app.has_pending(e, U32_TAG));
}

#[test]
fn scenario_a_u32_from_42() {
    let mut app = App::new();
    register_request_type(&mut app, U32_TAG);
    let e = app.spawn();
    app.attach_bundle(e, RequestBundle::new(get("http://example.test/n"), U32_TAG));
    app.attach_success(e, success_text("42"));
    app.update();
    let holder = app.typed_response(e, U32_TAG).expect("holder installed");
    assert_eq!(holder.parse::<u32>(), Some(42));
}

#[test]
fn scenario_b_not_json_is_ok_but_absent() {
    let mut app = App::new();
    register_request_type(&mut app, U32_TAG);
    let e = app.spawn();
    app.attach_bundle(e, RequestBundle::new(get("http://example.test/n"), U32_TAG));
    app.attach_success(e, success_text("not json"));
    app.update();
    let holder = app.typed_response(e, U32_TAG).expect("holder installed");
    assert!(holder.result.is_ok());
    assert_eq!(holder.parse::<u32>(), None);
}

#[test]
fn scenario_c_other_watcher_never_touches_entity() {
    let mut app = App::new();
    register_request_type(&mut app, U32_TAG);
    register_request_type(&mut app, OTHER_TAG);
    let e = app.spawn();
    app.attach_bundle(e, RequestBundle::new(get("http://example.test/n"), U32_TAG));
    app.attach_success(e, success_text("42"));
    for _ in 0..5 {
        app.update();
    }
    assert!(app.typed_response(e, U32_TAG).is_some());
    assert!(app.typed_response(e, OTHER_TAG).is_none());
    assert!(!app.has_pending(e, OTHER_TAG));
}

#[test]
fn scenario_d_removed_marker_is_never_finalized() {
    let mut app = App::new();
    register_request_type(&mut app, U32_TAG);
    let e = app.spawn();
    app.attach_bundle(e, RequestBundle::new(get("http://example.test/n"), U32_TAG));
    app.remove_pending(e, U32_TAG);
    app.attach_success(e, success_text("42"));
    for _ in 0..5 {
        app.update();
    }
    assert!(app.typed_response(e, U32_TAG).is_none());
    assert!(!app.has_pending(e, U32_TAG));
}

#[test]
fn failure_carrier_finalizes_with_err() {
    let mut app = App::new();
    register_request_type(&mut app, U32_TAG);
    let e = app.spawn();
    app.attach_bundle(e, RequestBundle::new(get("http://example.test/n"), U32_TAG));
    app.attach_failure(e, String::from("connection refused"));
    app.update();
    let holder = app.typed_response(e, U32_TAG).expect("holder installed");
    assert_eq!(holder.result, Err(String::from("connection refused")));
    assert_eq!(holder.parse::<u32>(), None);
    assert!(!app.has_pending(e, U32_TAG));
}

#[test]
fn detection_is_edge_triggered() {
    let mut app = App::new();
    register_request_type(&mut app, U32_TAG);
    let e = app.spawn();
    app.attach_bundle(e, RequestBundle::new(get("http://example.test/n"), U32_TAG));
    app.attach_success(e, success_text("42"));
    app.update();
    assert!(app.typed_response(e, U32_TAG).is_some());
    // A later bundle for the same tag must wait for a fresh carrier: the
    // settled carrier from the first completion must not finalize it.
    app.attach_bundle(e, RequestBundle::new(get("http://example.test/n"), U32_TAG));
    for _ in 0..3 {
        app.update();
    }
    assert!(app.has_pending(e, U32_TAG));
    app.attach_success(e, success_text("43"));
    app.update();
    assert!(!app.has_pending(e, U32_TAG));
    let holder = app.typed_response(e, U32_TAG).expect("holder installed");
    assert_eq!(holder.parse::<u32>(), Some(43));
}

#[test]
fn unregistered_tag_stays_pending_forever() {
    let mut app = App::new();
    let e = app.spawn();
    app.attach_bundle(e, RequestBundle::new(get("http://example.test/n"), U32_TAG));
    app.attach_success(e, success_text("42"));
    for _ in 0..5 {
        app.update();
    }
    assert!(app.has_pending(e, U32_TAG));
    assert!(app.typed_response(e, U32_TAG).is_none());
}

#[test]
fn both_carriers_same_tick_failure_wins() {
    let mut app = App::new();
    register_request_type(&mut app, U32_TAG);
    let e = app.spawn();
    app.attach_bundle(e, RequestBundle::new(get("http://example.test/n"), U32_TAG));
    app.attach_success(e, success_text("42"));
    app.attach_failure(e, String::from("late failure"));
    app.update();
    let holder = app.typed_response(e, U32_TAG).expect("holder installed");
    assert_eq!(holder.result, Err(String::from("late failure")));
}

#[test]
fn registering_twice_installs_one_watcher() {
    let mut app = App::new();
    register_request_type(&mut app, U32_TAG);
    register_request_type(&mut app, U32_TAG);
    assert_eq!(app.registered.len(), 1);
}

#[test]
fn despawn_abandons_pending_work() {
    let mut app = App::new();
    register_request_type(&mut app, U32_TAG);
    let e = app.spawn();
    app.attach_bundle(e, RequestBundle::new(get("http://example.test/n"), U32_TAG));
    app.despawn(e);
    app.attach_success(e, success_text("42"));
    app.update();
    assert!(app.typed_response(e, U32_TAG).is_none());
    assert!(!app.has_pending(e, U32_TAG));
}

#[test]
fn bundle_carries_request_and_marker() {
    let bundle = RequestBundle::new(get("http://example.test/n"), U32_TAG);
    assert_eq!(bundle.request.url, "http://example.test/n");
    assert_eq!(bundle.request_type, RequestType(U32_TAG));
    let mut app = App::new();
    let e = app.spawn();
    assert!(app.request_of(e).is_none());
    app.attach_bundle(e, bundle);
    let stored = app.request_of(e).as_ref().expect("request attached");
    assert_eq!(stored.url, "http://example.test/n");
    assert!(app.has_pending(e, U32_TAG));
}

#[test]
fn query_passes_see_exactly_matching_entities() {
    let mut app = App::new();
    register_request_type(&mut app, U32_TAG);
    let with_success = app.spawn();
    let with_failure = app.spawn();
    let without_marker = app.spawn();
    app.attach_bundle(
        with_success,
        RequestBundle::new(get("http://example.test/a"), U32_TAG),
    );
    app.attach_bundle(
        with_failure,
        RequestBundle::new(get("http://example.test/b"), U32_TAG),
    );
    app.attach_success(with_success, success_text("42"));
    app.attach_failure(with_failure, String::from("boom"));
    app.attach_success(without_marker, success_text("42"));
    let ok_rows = completed_requests(&app, U32_TAG);
    assert_eq!(ok_rows.len(), 1);
    assert_eq!(ok_rows[0].entity, with_success);
    assert_eq!(ok_rows[0].response, success_text("42"));
    assert_eq!(ok_rows[0].type_info, RequestType(U32_TAG));
    let err_rows = failed_requests(&app, U32_TAG);
    assert_eq!(err_rows.len(), 1);
    assert_eq!(err_rows[0].entity, with_failure);
    assert_eq!(err_rows[0].response, "boom");
    // After the tick both passes are empty: the carriers are settled and the
    // markers are gone.
    app.update();
    assert!(completed_requests(&app, U32_TAG).is_empty());
    assert!(failed_requests(&app, U32_TAG).is_empty());
}

#[test]
fn single_watcher_pass_only_handles_its_tag() {
    let mut app = App::new();
    let e = app.spawn();
    app.attach_bundle(e, RequestBundle::new(get("http://example.test/n"), U32_TAG));
    app.attach_success(e, success_text("42"));
    handle_typed_response(&mut app, OTHER_TAG);
    assert!(app.typed_response(e, U32_TAG).is_none());
    assert!(app.has_pending(e, U32_TAG));
    handle_typed_response(&mut app, U32_TAG);
    assert!(app.typed_response(e, U32_TAG).is_some());
    assert!(!app.has_pending(e, U32_TAG));
}
