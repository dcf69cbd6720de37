//! What the store answers to a request: which requests reach which
//! operation, and which status and body go back. Sockets and connections are
//! the caller's business; here a request is a method, a path and a body.

use vstd::prelude::*;
use vstd::string::*;
use crate::codec::{decode_document, decoded, encode_document, encoding};
use crate::document::{Document, DocumentView};
use crate::engine::{fetched, stored, Database};
use crate::error::StoreError;

verus! {

/// The method of a request, as far as the store tells methods apart.
#[derive(Clone, Copy, Debug, PartialEq, Eq, Structural)]
pub enum Method {
    Get,
    Put,
    Other,
}

/// The status of a response.
#[derive(Clone, Copy, Debug, PartialEq, Eq, Structural)]
pub enum Status {
    /// The document was found; the body carries it.
    Found,
    /// The document was stored; the body echoes it.
    Created,
    /// The request carried no document, or one that does not belong to the
    /// identifier in its path.
    BadRequest,
    /// No such document, or no such path.
    NotFound,
    /// The storage layer failed.
    InternalServerError,
}

impl Status {
    /// The number that stands for the status on the wire.
    pub open spec fn spec_code(self) -> u16 {
        match self {
            Status::Found => 200,
            Status::Created => 201,
            Status::BadRequest => 400,
            Status::NotFound => 404,
            Status::InternalServerError => 500,
        }
    }

    /// The number that stands for the status on the wire.
    #[verifier::when_used_as_spec(spec_code)]
    pub fn code(self) -> (code: u16)
        ensures
            code == self.spec_code(),
    {
        match self {
            Status::Found => 200,
            Status::Created => 201,
            Status::BadRequest => 400,
            Status::NotFound => 404,
            Status::InternalServerError => 500,
        }
    }
}

/// A response: its status, whether the body is to be labelled as JSON, and
/// the body.
#[derive(Debug)]
pub struct Response {
    pub status: Status,
    pub json: bool,
    pub body: Vec<u8>,
}

impl Response {
    /// The response has the given status and no body.
    pub open spec fn is_bare(&self, status: Status) -> bool {
        self.status == status && !self.json && self.body@.len() == 0
    }

    /// The response has the given status and carries `body` as JSON.
    pub open spec fn carries(&self, status: Status, body: Seq<u8>) -> bool {
        self.status == status && self.json && self.body@ == body
    }

    /// A response with the given status and no body.
    pub fn bare(status: Status) -> (response: Self)
        ensures
            response.is_bare(status),
    {
        Response { status, json: false, body: Vec::new() }
    }
}

/// Where a request goes.
#[derive(Debug)]
pub enum Route {
    /// To a get of the document with this identifier.
    Fetch(String),
    /// To a put of the document with this identifier.
    Store(String),
    /// Nowhere.
    Unknown,
}

/// A `Route` as a mathematical value.
pub enum RouteView {
    Fetch(Seq<char>),
    Store(Seq<char>),
    Unknown,
}

impl View for Route {
    type V = RouteView;

    open spec fn view(&self) -> RouteView {
        match self {
            Route::Fetch(id) => RouteView::Fetch(id@),
            Route::Store(id) => RouteView::Store(id@),
            Route::Unknown => RouteView::Unknown,
        }
    }
}

/// Whether `path` names a document: it begins with `/db/`.
pub open spec fn is_document_path(path: Seq<char>) -> bool {
    path.len() >= 4 && path[0] == '/' && path[1] == 'd' && path[2] == 'b' && path[3] == '/'
}

/// The identifier that a document path names: all that follows `/db/`.
pub open spec fn path_id(path: Seq<char>) -> Seq<char> {
    path.subrange(4, path.len() as int)
}

/// Where a request with this method and path goes: a GET or a PUT of a
/// document path goes to the document that the path names, all else nowhere.
pub open spec fn routed(method: Method, path: Seq<char>) -> RouteView {
    if !is_document_path(path) {
        RouteView::Unknown
    } else {
        match method {
            Method::Get => RouteView::Fetch(path_id(path)),
            Method::Put => RouteView::Store(path_id(path)),
            Method::Other => RouteView::Unknown,
        }
    }
}

/// Decides where a request goes.
pub fn route(method: Method, path: &str) -> (r: Route)
    ensures
        r@ == routed(method, path@),
{
    let len: usize = path.unicode_len();
    if len < 4 || path.get_char(0) != '/' || path.get_char(1) != 'd' || path.get_char(2) != 'b'
        || path.get_char(3) != '/' {
        return Route::Unknown;
    }
    match method {
        Method::Get => Route::Fetch(path.substring_char(4, len).to_owned()),
        Method::Put => Route::Store(path.substring_char(4, len).to_owned()),
        Method::Other => Route::Unknown,
    }
}

/// The answer to a get: the document as JSON with status `Found` where one was
/// found, `NotFound` where none was, `InternalServerError` where the store
/// failed or the document cannot be written as JSON.
pub fn get_response(outcome: Result<Option<Document>, StoreError>) -> (response: Response)
    ensures
        match outcome {
            Ok(Some(document)) => match encoding(document@) {
                Some(text) => response.carries(Status::Found, text) && decoded(text) == Some(
                    document@,
                ),
                None => response.is_bare(Status::InternalServerError),
            },
            Ok(None) => response.is_bare(Status::NotFound),
            Err(_) => response.is_bare(Status::InternalServerError),
        },
{
    match outcome {
        Ok(Some(document)) => match encode_document(&document) {
            Ok(body) => Response { status: Status::Found, json: true, body },
            Err(_) => Response::bare(Status::InternalServerError),
        },
        Ok(None) => Response::bare(Status::NotFound),
        Err(_) => Response::bare(Status::InternalServerError),
    }
}

/// The document that the body of a put spells, provided it belongs to the
/// identifier of the request.
pub open spec fn put_body(id: Seq<char>, body: Seq<u8>) -> Option<DocumentView> {
    match decoded(body) {
        Some(document) => if document.id == id {
            Some(document)
        } else {
            None
        },
        None => None,
    }
}

/// Reads the body of a put. A body that spells no document, or a document
/// with another identifier than the request names, is malformed input.
pub fn read_put_body(id: &str, body: &[u8]) -> (r: Result<Document, StoreError>)
    ensures
        match put_body(id@, body@) {
            Some(spelled) => r matches Ok(document) && document@ == spelled,
            None => r matches Err(StoreError::MalformedInput),
        },
{
    match decode_document(body) {
        Some(document) => {
            if document.id().to_owned() == id.to_owned() {
                Ok(document)
            } else {
                Err(StoreError::MalformedInput)
            }
        },
        None => Err(StoreError::MalformedInput),
    }
}

/// The answer to a put: the stored document as JSON with status `Created`,
/// `BadRequest` where the input was malformed, `InternalServerError` where
/// the store failed or the document cannot be written as JSON.
pub fn put_response(outcome: Result<Document, StoreError>) -> (response: Response)
    ensures
        match outcome {
            Ok(document) => match encoding(document@) {
                Some(text) => response.carries(Status::Created, text) && decoded(text) == Some(
                    document@,
                ),
                None => response.is_bare(Status::InternalServerError),
            },
            Err(StoreError::MalformedInput) => response.is_bare(Status::BadRequest),
            Err(_) => response.is_bare(Status::InternalServerError),
        },
{
    match outcome {
        Ok(document) => match encode_document(&document) {
            Ok(body) => Response { status: Status::Created, json: true, body },
            Err(_) => Response::bare(Status::InternalServerError),
        },
        Err(StoreError::MalformedInput) => Response::bare(Status::BadRequest),
        Err(_) => Response::bare(Status::InternalServerError),
    }
}

/// Serves one request on the store. A get never changes the store. A put
/// changes it exactly where the answer is `Created`, and then by one put of
/// the document that the body spells.
pub fn handle_request(database: &mut Database, method: Method, path: &str, body: &[u8]) -> (response:
    Response)
    ensures
        match routed(method, path@) {
            RouteView::Unknown => response.is_bare(Status::NotFound) && final(database)@ == old(
                database,
            )@,
            RouteView::Fetch(id) => final(database)@ == old(database)@ && (match fetched(
                old(database)@,
                id,
            ) {
                Ok(Some(document)) => match encoding(document) {
                    Some(text) => response.carries(Status::Found, text),
                    None => response.is_bare(Status::InternalServerError),
                },
                Ok(None) => response.is_bare(Status::NotFound),
                Err(_) => response.is_bare(Status::InternalServerError),
            }),
            RouteView::Store(id) => match put_body(id, body@) {
                Some(document) => if id.len() == 0 {
                    response.is_bare(Status::BadRequest) && final(database)@ == old(database)@
                } else {
                    match encoding(document) {
                        Some(text) => response.carries(Status::Created, text) && stored(
                            old(database)@,
                            document,
                            text,
                            final(database)@,
                        ),
                        None => response.is_bare(Status::InternalServerError) && final(database)@
                            == old(database)@,
                    }
                },
                None => response.is_bare(Status::BadRequest) && final(database)@ == old(
                    database,
                )@,
            },
        },
{
    match route(method, path) {
        Route::Unknown => Response::bare(Status::NotFound),
        Route::Fetch(id) => get_response(database.get_document(id.as_str())),
        Route::Store(id) => match read_put_body(id.as_str(), body) {
            Ok(document) => put_response(database.put_document(document)),
            Err(error) => put_response(Err(error)),
        },
    }
}

} // verus!
