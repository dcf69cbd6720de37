use docstore::document::Document;
use docstore::engine::Database;
use docstore::error::StoreError;
use docstore::http::{get_response, handle_request, put_response, read_put_body, route, Method, Response, Route, Status};

fn is_bare(response: &Response, status: Status) -> bool {
    response.status == status && !response.json && response.body.is_empty()
}

#[test]
fn status_codes() {
    assert_eq!(Status::Found.code(), 200);
    assert_eq!(Status::Created.code(), 201);
    assert_eq!(Status::BadRequest.code(), 400);
    assert_eq!(Status::NotFound.code(), 404);
    assert_eq!(Status::InternalServerError.code(), 500);
}

#[test]
fn route_sends_document_paths_to_get_and_put() {
    assert!(matches!(route(Method::Get, "/db/a"), Route::Fetch(id) if id == "a"));
    assert!(matches!(route(Method::Put, "/db/a"), Route::Store(id) if id == "a"));
    assert!(matches!(route(Method::Get, "/db/"), Route::Fetch(id) if id.is_empty()));
    assert!(matches!(route(Method::Put, "/db/x/y z"), Route::Store(id) if id == "x/y z"));
    assert!(matches!(route(Method::Get, "/db/gr\u{fc}n"), Route::Fetch(id) if id == "gr\u{fc}n"));
}

#[test]
fn route_sends_all_else_nowhere() {
    assert!(matches!(route(Method::Other, "/db/a"), Route::Unknown));
    assert!(matches!(route(Method::Get, "/db"), Route::Unknown));
    assert!(matches!(route(Method::Get, "/"), Route::Unknown));
    assert!(matches!(route(Method::Get, ""), Route::Unknown));
    assert!(matches!(route(Method::Put, "/DB/a"), Route::Unknown));
    assert!(matches!(route(Method::Put, "db/a"), Route::Unknown));
    assert!(matches!(route(Method::Get, "/dbx/a"), Route::Unknown));
    assert!(matches!(route(Method::Get, "\u{fc}db/"), Route::Unknown));
}

#[test]
fn get_response_maps_outcomes_to_statuses() {
    let mut document = Document::new("a", None);
    document.set_field("x", "1").unwrap();
    let found = get_response(Ok(Some(document)));
    assert_eq!(found.status, Status::Found);
    assert!(found.json);
    assert_eq!(found.body, b"{\"id\":\"a\",\"rev\":null,\"x\":\"1\"}".to_vec());
    assert!(is_bare(&get_response(Ok(None)), Status::NotFound));
    assert!(is_bare(&get_response(Err(StoreError::Corruption)), Status::InternalServerError));
    assert!(is_bare(&get_response(Err(StoreError::Io)), Status::InternalServerError));
    assert!(is_bare(&get_response(Err(StoreError::MalformedInput)), Status::InternalServerError));
}

#[test]
fn put_response_maps_outcomes_to_statuses() {
    let created = put_response(Ok(Document::new("a", Some("1"))));
    assert_eq!(created.status, Status::Created);
    assert!(created.json);
    assert_eq!(created.body, b"{\"id\":\"a\",\"rev\":\"1\"}".to_vec());
    assert!(is_bare(&put_response(Err(StoreError::MalformedInput)), Status::BadRequest));
    assert!(is_bare(&put_response(Err(StoreError::Io)), Status::InternalServerError));
    assert!(is_bare(&put_response(Err(StoreError::Corruption)), Status::InternalServerError));
}

#[test]
fn read_put_body_wants_the_identifier_of_the_path() {
    let document = read_put_body("a", b"{\"id\":\"a\",\"x\":\"1\"}").unwrap();
    assert_eq!(document.id(), "a");
    assert_eq!(document.field("x"), Some("1"));
    assert_eq!(read_put_body("b", b"{\"id\":\"a\",\"x\":\"1\"}").err(), Some(StoreError::MalformedInput));
    assert_eq!(read_put_body("a", b"{\"x\":\"1\"}").err(), Some(StoreError::MalformedInput));
    assert_eq!(read_put_body("a", b"oops").err(), Some(StoreError::MalformedInput));
    assert_eq!(read_put_body("a", b"").err(), Some(StoreError::MalformedInput));
}

#[test]
fn requests_against_one_store() {
    let mut database = Database::new();

    let missing = handle_request(&mut database, Method::Get, "/db/a", b"");
    assert!(is_bare(&missing, Status::NotFound));

    let created = handle_request(&mut database, Method::Put, "/db/a", b"{\"id\":\"a\",\"rev\":null,\"x\":\"1\"}");
    assert_eq!(created.status, Status::Created);
    assert!(created.json);
    assert_eq!(created.body, b"{\"id\":\"a\",\"rev\":null,\"x\":\"1\"}".to_vec());

    let found = handle_request(&mut database, Method::Get, "/db/a", b"");
    assert_eq!(found.status, Status::Found);
    assert!(found.json);
    assert_eq!(found.body, b"{\"id\":\"a\",\"rev\":null,\"x\":\"1\"}".to_vec());

    let replaced = handle_request(&mut database, Method::Put, "/db/a", b"{\"x\":\"2\",\"id\":\"a\"}");
    assert_eq!(replaced.status, Status::Created);
    let found = handle_request(&mut database, Method::Get, "/db/a", b"ignored");
    assert_eq!(found.body, b"{\"id\":\"a\",\"rev\":null,\"x\":\"2\"}".to_vec());

    let other = handle_request(&mut database, Method::Get, "/db/b", b"");
    assert!(is_bare(&other, Status::NotFound));
}

#[test]
fn bad_requests_do_not_touch_the_store() {
    let mut database = Database::new();
    handle_request(&mut database, Method::Put, "/db/a", b"{\"id\":\"a\"}");
    let before = database.log().as_bytes().to_vec();

    let mismatch = handle_request(&mut database, Method::Put, "/db/b", b"{\"id\":\"a\"}");
    assert!(is_bare(&mismatch, Status::BadRequest));
    let garbage = handle_request(&mut database, Method::Put, "/db/a", b"{{{");
    assert!(is_bare(&garbage, Status::BadRequest));
    let no_identifier = handle_request(&mut database, Method::Put, "/db/", b"{\"id\":\"\"}");
    assert!(is_bare(&no_identifier, Status::BadRequest));
    let nowhere = handle_request(&mut database, Method::Put, "/other", b"{\"id\":\"a\"}");
    assert!(is_bare(&nowhere, Status::NotFound));
    let method = handle_request(&mut database, Method::Other, "/db/a", b"{\"id\":\"a\"}");
    assert!(is_bare(&method, Status::NotFound));

    assert_eq!(database.log().as_bytes(), &before[..]);
    assert_eq!(database.index().lookup("b"), None);
    assert_eq!(database.index().lookup(""), None);
    assert_eq!(database.index().lookup("a"), Some(0));
}

#[test]
fn corrupt_store_answers_with_a_server_error() {
    let mut index = docstore::index::OffsetIndex::new();
    index.upsert("a", 5);
    let mut database = Database::from_parts(docstore::log::RecordLog::new(), index);
    let response = handle_request(&mut database, Method::Get, "/db/a", b"");
    assert!(is_bare(&response, Status::InternalServerError));
}
