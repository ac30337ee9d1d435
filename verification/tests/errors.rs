use vio_api::routes::errors::{bad_request, catch_status, not_found, unauthorized, unprocessable_entity};

#[test]
fn catchers_answer_with_their_status() {
    let e = unprocessable_entity();
    assert_eq!(e.err, "Unprocessable Entity");
    assert_eq!(
        e.msg.as_deref(),
        Some("The request was well-formed but was unable to be followed due to semantic errors.")
    );
    assert_eq!(e.http_status_code, 422);
    let e = unauthorized();
    assert_eq!(e.err, "Unauthorized");
    assert_eq!(e.msg.as_deref(), Some("The authentication given was incorrect or insufficient."));
    assert_eq!(e.http_status_code, 401);
    let e = not_found();
    assert_eq!(e.err, "Not Found");
    assert_eq!(e.msg.as_deref(), Some("The requested resource could not be found."));
    assert_eq!(e.http_status_code, 404);
    let e = bad_request();
    assert_eq!(e.err, "Bad Request");
    assert_eq!(e.msg.as_deref(), Some("The request was malformed."));
    assert_eq!(e.http_status_code, 400);
}

#[test]
fn catch_status_picks_the_catcher() {
    for code in [400u16, 401, 404, 422] {
        assert_eq!(catch_status(code).unwrap().http_status_code, code);
    }
    assert_eq!(catch_status(404).unwrap().err, "Not Found");
    assert!(catch_status(429).is_none());
    assert!(catch_status(500).is_none());
    assert!(catch_status(200).is_none());
}
