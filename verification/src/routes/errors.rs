use vstd::prelude::*;

verus! {

/// The JSON body that answers a failed request under `/v1`.
pub struct MyError {
    pub err: String,
    pub msg: Option<String>,
    /// The HTTP status of the answer; not part of the body.
    pub http_status_code: u16,
}

/// Whether `e` carries the title `err`, the message `msg` and the status `code`.
pub open spec fn error_is(e: MyError, err: Seq<char>, msg: Seq<char>, code: u16) -> bool {
    &&& e.err@ == err
    &&& e.msg matches Some(m) && m@ == msg
    &&& e.http_status_code == code
}

/// The answer to a request that was well formed but could not be followed (422).
pub fn unprocessable_entity() -> (r: MyError)
    ensures
        error_is(
            r,
            "Unprocessable Entity"@,
            "The request was well-formed but was unable to be followed due to semantic errors."@,
            422,
        ),
{
    MyError {
        err: "Unprocessable Entity".to_owned(),
        msg: Some(
            "The request was well-formed but was unable to be followed due to semantic errors.".to_owned(),
        ),
        http_status_code: 422,
    }
}

/// The answer to a request whose authentication was wrong or missing (401).
pub fn unauthorized() -> (r: MyError)
    ensures
        error_is(r, "Unauthorized"@, "The authentication given was incorrect or insufficient."@, 401),
{
    MyError {
        err: "Unauthorized".to_owned(),
        msg: Some("The authentication given was incorrect or insufficient.".to_owned()),
        http_status_code: 401,
    }
}

/// The answer to a request for a resource that does not exist (404).
pub fn not_found() -> (r: MyError)
    ensures
        error_is(r, "Not Found"@, "The requested resource could not be found."@, 404),
{
    MyError {
        err: "Not Found".to_owned(),
        msg: Some("The requested resource could not be found.".to_owned()),
        http_status_code: 404,
    }
}

/// The answer to a malformed request (400).
pub fn bad_request() -> (r: MyError)
    ensures
        error_is(r, "Bad Request"@, "The request was malformed."@, 400),
{
    MyError {
        err: "Bad Request".to_owned(),
        msg: Some("The request was malformed.".to_owned()),
        http_status_code: 400,
    }
}

/// The statuses for which `/v1` registers a catcher of its own.
pub open spec fn has_catcher(code: u16) -> bool {
    code == 400 || code == 401 || code == 404 || code == 422
}

/// The body that the catchers registered under `/v1` give a failed request
/// with status `code`; `None` where no catcher of `/v1` handles the status.
pub fn catch_status(code: u16) -> (r: Option<MyError>)
    ensures
        r is Some <==> has_catcher(code),
        r matches Some(e) ==> e.http_status_code == code,
        code == 400 ==> (r matches Some(e) && error_is(e, "Bad Request"@, "The request was malformed."@, 400)),
        code == 401 ==> (r matches Some(e) && error_is(
            e,
            "Unauthorized"@,
            "The authentication given was incorrect or insufficient."@,
            401,
        )),
        code == 404 ==> (r matches Some(e) && error_is(
            e,
            "Not Found"@,
            "The requested resource could not be found."@,
            404,
        )),
        code == 422 ==> (r matches Some(e) && error_is(
            e,
            "Unprocessable Entity"@,
            "The request was well-formed but was unable to be followed due to semantic errors."@,
            422,
        )),
{
    if code == 400 {
        Some(bad_request())
    } else if code == 401 {
        Some(unauthorized())
    } else if code == 404 {
        Some(not_found())
    } else if code == 422 {
        Some(unprocessable_entity())
    } else {
        None
    }
}

} // verus!
