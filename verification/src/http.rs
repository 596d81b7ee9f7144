//! The HTTP surface: the route table, the shaping of success and
//! failure responses, and the fixed CORS header allow-list.
use vstd::prelude::*;

use crate::CreateTodo;
use crate::Todo;
use crate::json::error_json;
use crate::json::encode_error;
use crate::json::encode_todo;
use crate::json::encode_todos;
use crate::json::todo_json;
use crate::json::todos_json;
use crate::parse::parse_create_todo;
use crate::parse::spec_create;

verus! {

/// A response ready to send: a status code and a JSON body.
pub struct HttpReply {
    pub status: u16,
    pub body: Vec<u8>,
}

/// Where a request is dispatched.
pub enum Route {
    Create,
    List,
    NotFound,
}

/// `POST` as bytes.
pub open spec fn method_post() -> Seq<u8> {
    seq![80u8, 79u8, 83u8, 84u8]
}

/// `GET` as bytes.
pub open spec fn method_get() -> Seq<u8> {
    seq![71u8, 69u8, 84u8]
}

/// The root path `/` as bytes.
pub open spec fn root_path() -> Seq<u8> {
    seq![47u8]
}

/// The route table: `POST /` creates, `GET /` lists, all else is unhandled.
pub open spec fn spec_route(m: Seq<u8>, p: Seq<u8>) -> Route {
    if p == root_path() && m == method_post() {
        Route::Create
    } else if p == root_path() && m == method_get() {
        Route::List
    } else {
        Route::NotFound
    }
}

fn is_root_path(p: &[u8]) -> (r: bool)
    ensures
        r == (p@ == root_path()),
{
    let r = p.len() == 1 && p[0] == 47;
    proof {
        if r {
            assert(p@ =~= root_path());
        } else {
            if p@ == root_path() {
                assert(p@.len() == 1);
                assert(p@[0] == 47);
            }
        }
    }
    r
}

fn is_post(m: &[u8]) -> (r: bool)
    ensures
        r == (m@ == method_post()),
{
    let r = m.len() == 4 && m[0] == 80 && m[1] == 79 && m[2] == 83 && m[3] == 84;
    proof {
        if r {
            assert(m@ =~= method_post());
        } else {
            if m@ == method_post() {
                assert(m@.len() == 4);
                assert(m@[0] == 80 && m@[1] == 79 && m@[2] == 83 && m@[3] == 84);
            }
        }
    }
    r
}

fn is_get(m: &[u8]) -> (r: bool)
    ensures
        r == (m@ == method_get()),
{
    let r = m.len() == 3 && m[0] == 71 && m[1] == 69 && m[2] == 84;
    proof {
        if r {
            assert(m@ =~= method_get());
        } else {
            if m@ == method_get() {
                assert(m@.len() == 3);
                assert(m@[0] == 71 && m@[1] == 69 && m@[2] == 84);
            }
        }
    }
    r
}

/// Dispatches a method and path through the route table.
pub fn route_of(method: &[u8], path: &[u8]) -> (r: Route)
    ensures
        r == spec_route(method@, path@),
{
    if is_root_path(path) {
        if is_post(method) {
            Route::Create
        } else if is_get(method) {
            Route::List
        } else {
            Route::NotFound
        }
    } else {
        Route::NotFound
    }
}

/// Builds the reply to a create request from the backend's outcome:
/// the stored item as JSON on success, the error body otherwise.
pub fn create_reply(r: Result<Todo, Vec<u8>>) -> (rep: HttpReply)
    ensures
        r matches Ok(t) ==> rep.status == 200 && rep.body@ == todo_json(t),
        r matches Err(m) ==> rep.status == 500 && rep.body@ == error_json(m@),
{
    match r {
        Ok(t) => HttpReply { status: 200, body: encode_todo(&t) },
        Err(m) => HttpReply { status: 500, body: encode_error(m.as_slice()) },
    }
}

/// Builds the reply to a list request from the backend's outcome: the
/// rows as a JSON array in the order handed in, or the error body.
pub fn list_reply(r: Result<Vec<Todo>, Vec<u8>>) -> (rep: HttpReply)
    ensures
        r matches Ok(ts) ==> rep.status == 200 && rep.body@ == todos_json(ts@),
        r matches Err(m) ==> rep.status == 500 && rep.body@ == error_json(m@),
{
    match r {
        Ok(ts) => HttpReply { status: 200, body: encode_todos(&ts) },
        Err(m) => HttpReply { status: 500, body: encode_error(m.as_slice()) },
    }
}

/// `malformed request body` as bytes.
pub open spec fn malformed_msg() -> Seq<u8> {
    seq![
        109u8,
        97u8,
        108u8,
        102u8,
        111u8,
        114u8,
        109u8,
        101u8,
        100u8,
        32u8,
        114u8,
        101u8,
        113u8,
        117u8,
        101u8,
        115u8,
        116u8,
        32u8,
        98u8,
        111u8,
        100u8,
        121u8,
    ]
}

/// `not found` as bytes.
pub open spec fn not_found_msg() -> Seq<u8> {
    seq![110u8, 111u8, 116u8, 32u8, 102u8, 111u8, 117u8, 110u8, 100u8]
}

/// What the service decides to do with a request before any backend
/// work: run the create operation, run the list operation, or answer
/// at once (unhandled route, or a malformed creation payload).
pub enum Plan {
    Create(CreateTodo),
    List,
    Reply(HttpReply),
}

fn malformed_reply() -> (rep: HttpReply)
    ensures
        rep.status == 400 && rep.body@ == error_json(malformed_msg()),
{
    let mut m: Vec<u8> = Vec::new();
    m.push(109);
    m.push(97);
    m.push(108);
    m.push(102);
    m.push(111);
    m.push(114);
    m.push(109);
    m.push(101);
    m.push(100);
    m.push(32);
    m.push(114);
    m.push(101);
    m.push(113);
    m.push(117);
    m.push(101);
    m.push(115);
    m.push(116);
    m.push(32);
    m.push(98);
    m.push(111);
    m.push(100);
    m.push(121);
    proof {
        assert(m@ =~= malformed_msg());
    }
    HttpReply { status: 400, body: encode_error(m.as_slice()) }
}

fn not_found_reply() -> (rep: HttpReply)
    ensures
        rep.status == 404 && rep.body@ == error_json(not_found_msg()),
{
    let mut m: Vec<u8> = Vec::new();
    m.push(110);
    m.push(111);
    m.push(116);
    m.push(32);
    m.push(102);
    m.push(111);
    m.push(117);
    m.push(110);
    m.push(100);
    proof {
        assert(m@ =~= not_found_msg());
    }
    HttpReply { status: 404, body: encode_error(m.as_slice()) }
}

/// Decides a request: dispatches through the route table, decodes the
/// creation payload on `POST /`, and answers at once where no backend
/// work is owed. Every immediate answer carries the JSON error body.
pub fn plan_request(method: &[u8], path: &[u8], body: &[u8]) -> (p: Plan)
    ensures
        spec_route(method@, path@) is NotFound ==> (p matches Plan::Reply(rep) && rep.status == 404
            && rep.body@ == error_json(not_found_msg())),
        spec_route(method@, path@) is List ==> p is List,
        spec_route(method@, path@) is Create ==> match spec_create(body@) {
            Some(tc) => p matches Plan::Create(ct) && ct.title@ == tc.0 && ct.completed == tc.1,
            None => p matches Plan::Reply(rep) && rep.status == 400 && rep.body@ == error_json(
                malformed_msg(),
            ),
        },
{
    match route_of(method, path) {
        Route::Create => match parse_create_todo(body) {
            Some(ct) => Plan::Create(ct),
            None => Plan::Reply(malformed_reply()),
        },
        Route::List => Plan::List,
        Route::NotFound => Plan::Reply(not_found_reply()),
    }
}

/// The five header names that CORS allows on every response: `accept`,
/// `accept-encoding`, `authorization`, `content-type`, `origin`.
pub open spec fn cors_allow_headers() -> Seq<Seq<u8>> {
    seq![
        seq![97u8, 99u8, 99u8, 101u8, 112u8, 116u8],
        seq![
            97u8,
            99u8,
            99u8,
            101u8,
            112u8,
            116u8,
            45u8,
            101u8,
            110u8,
            99u8,
            111u8,
            100u8,
            105u8,
            110u8,
            103u8,
        ],
        seq![
            97u8,
            117u8,
            116u8,
            104u8,
            111u8,
            114u8,
            105u8,
            122u8,
            97u8,
            116u8,
            105u8,
            111u8,
            110u8,
        ],
        seq![
            99u8,
            111u8,
            110u8,
            116u8,
            101u8,
            110u8,
            116u8,
            45u8,
            116u8,
            121u8,
            112u8,
            101u8,
        ],
        seq![111u8, 114u8, 105u8, 103u8, 105u8, 110u8],
    ]
}

/// Hands out the CORS header allow-list as byte strings, in order.
pub fn cors_allowed_headers() -> (r: Vec<Vec<u8>>)
    ensures
        r@.len() == 5,
        forall|i: int| 0 <= i < 5 ==> r@[i]@ == cors_allow_headers()[i],
{
    let mut accept: Vec<u8> = Vec::new();
    accept.push(97);
    accept.push(99);
    accept.push(99);
    accept.push(101);
    accept.push(112);
    accept.push(116);
    let mut accept_encoding: Vec<u8> = Vec::new();
    accept_encoding.push(97);
    accept_encoding.push(99);
    accept_encoding.push(99);
    accept_encoding.push(101);
    accept_encoding.push(112);
    accept_encoding.push(116);
    accept_encoding.push(45);
    accept_encoding.push(101);
    accept_encoding.push(110);
    accept_encoding.push(99);
    accept_encoding.push(111);
    accept_encoding.push(100);
    accept_encoding.push(105);
    accept_encoding.push(110);
    accept_encoding.push(103);
    let mut authorization: Vec<u8> = Vec::new();
    authorization.push(97);
    authorization.push(117);
    authorization.push(116);
    authorization.push(104);
    authorization.push(111);
    authorization.push(114);
    authorization.push(105);
    authorization.push(122);
    authorization.push(97);
    authorization.push(116);
    authorization.push(105);
    authorization.push(111);
    authorization.push(110);
    let mut content_type: Vec<u8> = Vec::new();
    content_type.push(99);
    content_type.push(111);
    content_type.push(110);
    content_type.push(116);
    content_type.push(101);
    content_type.push(110);
    content_type.push(116);
    content_type.push(45);
    content_type.push(116);
    content_type.push(121);
    content_type.push(112);
    content_type.push(101);
    let mut origin: Vec<u8> = Vec::new();
    origin.push(111);
    origin.push(114);
    origin.push(105);
    origin.push(103);
    origin.push(105);
    origin.push(110);
    proof {
        assert(accept@ =~= cors_allow_headers()[0]);
        assert(accept_encoding@ =~= cors_allow_headers()[1]);
        assert(authorization@ =~= cors_allow_headers()[2]);
        assert(content_type@ =~= cors_allow_headers()[3]);
        assert(origin@ =~= cors_allow_headers()[4]);
    }
    let mut r: Vec<Vec<u8>> = Vec::new();
    r.push(accept);
    r.push(accept_encoding);
    r.push(authorization);
    r.push(content_type);
    r.push(origin);
    r
}

} // verus!
