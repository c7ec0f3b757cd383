//! The local HTTP bridge: which requests are let in and what each of them is answered.

use crate::json::{
    distinct_keys, json_document, json_object_text, lookup, member, members_read, read_as,
    render_object, scalar_views, Scalar, ScalarView,
};
use crate::quality::{ingest_of_body, with_ingest, ClipView, QualityStore, StoreView};
use crate::text::{
    begins_with, chars_ignoring_case, chars_of, decimal, push_decimal, same_ignoring_case,
    same_text, starts_with,
};
use vstd::prelude::*;

verus! {

/// The request methods that the bridge tells apart.
#[derive(Clone, Copy, Debug, PartialEq, Eq, Structural)]
pub enum Method {
    Options,
    Get,
    Post,
    Other,
}

/// The head of a request: its headers are pairs of field and value, in the order they came.
#[derive(Debug)]
pub struct Request {
    pub method: Method,
    pub url: String,
    pub headers: Vec<(String, String)>,
}

/// The model of a request head.
pub struct RequestView {
    pub method: Method,
    pub url: Seq<char>,
    pub headers: Seq<(Seq<char>, Seq<char>)>,
}

pub open spec fn header_views(headers: Seq<(String, String)>) -> Seq<(Seq<char>, Seq<char>)> {
    headers.map_values(|h: (String, String)| (h.0@, h.1@))
}

impl View for Request {
    type V = RequestView;

    open spec fn view(&self) -> RequestView {
        RequestView { method: self.method, url: self.url@, headers: header_views(self.headers@) }
    }
}

/// A response.
#[derive(Debug)]
pub struct Reply {
    pub code: u16,
    pub body: String,
    pub headers: Vec<(String, String)>,
}

/// The model of a response.
pub struct ReplyView {
    pub code: u16,
    pub body: Seq<char>,
    pub headers: Seq<(Seq<char>, Seq<char>)>,
}

impl View for Reply {
    type V = ReplyView;

    open spec fn view(&self) -> ReplyView {
        ReplyView { code: self.code, body: self.body@, headers: header_views(self.headers@) }
    }
}

/// The headers of every response.
pub open spec fn cors_headers() -> Seq<(Seq<char>, Seq<char>)> {
    seq![
        ("Access-Control-Allow-Origin"@, "*"@),
        ("Access-Control-Allow-Methods"@, "POST, GET, OPTIONS"@),
        ("Access-Control-Allow-Headers"@, "Content-Type, X-Orochi-Token"@),
        ("Content-Type"@, "application/json"@),
    ]
}

/// The response with the given body and code.
pub open spec fn cors_reply(body: Seq<char>, code: u16) -> ReplyView {
    ReplyView { code, body, headers: cors_headers() }
}

/// A JSON response carrying permissive CORS headers.
pub fn cors_resp(body: String, code: u16) -> (r: Reply)
    ensures
        r@ == cors_reply(body@, code),
{
    let mut headers: Vec<(String, String)> = Vec::new();
    headers.push(("Access-Control-Allow-Origin".to_string(), "*".to_string()));
    headers.push(("Access-Control-Allow-Methods".to_string(), "POST, GET, OPTIONS".to_string()));
    headers.push(
        ("Access-Control-Allow-Headers".to_string(), "Content-Type, X-Orochi-Token".to_string()),
    );
    headers.push(("Content-Type".to_string(), "application/json".to_string()));
    assert(header_views(headers@) =~= cors_headers());
    Reply { code, body, headers }
}

/// The address that the bridge listens on.
pub open spec fn loopback_address(port: u16) -> Seq<char> {
    "127.0.0.1:"@ + decimal(port as nat)
}

/// The address to listen on: the loopback interface only, so nothing ever touches the LAN.
pub fn bind_address(port: u16) -> (r: String)
    ensures
        r@ == loopback_address(port),
{
    let mut address: String = "127.0.0.1:".to_string();
    push_decimal(&mut address, port as u64);
    address
}

/// The value of the first token header, or the empty text where there is none.
pub open spec fn provided_token(headers: Seq<(Seq<char>, Seq<char>)>) -> Seq<char>
    decreases headers.len(),
{
    if headers.len() == 0 {
        Seq::empty()
    } else if same_ignoring_case(headers[0].0, "X-Orochi-Token"@) {
        headers[0].1
    } else {
        provided_token(headers.drop_first())
    }
}

/// Finds the token that a request carries.
pub fn token_of(headers: &Vec<(String, String)>) -> (r: String)
    ensures
        r@ == provided_token(header_views(headers@)),
{
    let name = chars_of("X-Orochi-Token");
    let ghost all = header_views(headers@);
    let mut i: usize = 0;
    assert(all.skip(0) =~= all);
    while i < headers.len()
        invariant
            i <= headers.len(),
            name@ == "X-Orochi-Token"@,
            all == header_views(headers@),
            provided_token(all) == provided_token(all.skip(i as int)),
        decreases headers.len() - i,
    {
        assert(all.skip(i as int)[0] == (headers@[i as int].0@, headers@[i as int].1@));
        let field = chars_of(headers[i].0.as_str());
        if chars_ignoring_case(field.as_slice(), name.as_slice()) {
            return headers[i].1.clone();
        }
        assert(all.skip(i as int).drop_first() =~= all.skip(i + 1));
        i = i + 1;
    }
    String::new()
}

/// What to do with a request once its head is read.
#[derive(Debug)]
pub enum Route {
    /// Answer at once.
    Reply(Reply),
    /// Read the body, then `answer` it.
    ReadBody,
}

/// The model of a route.
pub enum RouteView {
    Reply(ReplyView),
    ReadBody,
}

impl View for Route {
    type V = RouteView;

    open spec fn view(&self) -> RouteView {
        match self {
            Route::Reply(reply) => RouteView::Reply(reply@),
            Route::ReadBody => RouteView::ReadBody,
        }
    }
}

/// A request that hands in comments.
pub open spec fn is_ingest(request: RequestView) -> bool {
    request.method == Method::Post && begins_with(request.url, "/ingest"@)
}

/// A request that asks whether the bridge is up.
pub open spec fn is_health_check(request: RequestView) -> bool {
    request.method == Method::Get && begins_with(request.url, "/health"@)
}

/// The answer to a request that lacks the token.
pub open spec fn forbidden() -> ReplyView {
    cors_reply("{\"ok\":false,\"error\":\"forbidden\"}"@, 403)
}

/// How requests are routed: preflights, which cannot carry the token, are answered as they come;
/// health checks are answered and comments are let in with the right token only; and there is
/// nothing else.
pub open spec fn routed(request: RequestView, token: Seq<char>) -> RouteView {
    if request.method == Method::Options {
        RouteView::Reply(cors_reply(""@, 204))
    } else if is_health_check(request) {
        if provided_token(request.headers) == token {
            RouteView::Reply(cors_reply("{\"ok\":true}"@, 200))
        } else {
            RouteView::Reply(forbidden())
        }
    } else if is_ingest(request) {
        if provided_token(request.headers) == token {
            RouteView::ReadBody
        } else {
            RouteView::Reply(forbidden())
        }
    } else {
        RouteView::Reply(cors_reply("{\"ok\":false,\"error\":\"not found\"}"@, 404))
    }
}

/// Routes a request by its head.
pub fn route(request: &Request, token: &str) -> (r: Route)
    ensures
        r@ == routed(request@, token@),
{
    if request.method == Method::Options {
        return Route::Reply(cors_resp("".to_string(), 204));
    }
    let health: bool = request.method == Method::Get && starts_with(
        request.url.as_str(),
        "/health",
    );
    let ingest: bool = request.method == Method::Post && starts_with(
        request.url.as_str(),
        "/ingest",
    );
    if health || ingest {
        let provided = token_of(&request.headers);
        if !same_text(provided.as_str(), token) {
            return Route::Reply(
                cors_resp("{\"ok\":false,\"error\":\"forbidden\"}".to_string(), 403),
            );
        }
        if ingest {
            return Route::ReadBody;
        }
        return Route::Reply(cors_resp("{\"ok\":true}".to_string(), 200));
    }
    Route::Reply(cors_resp("{\"ok\":false,\"error\":\"not found\"}".to_string(), 404))
}

/// Every request must carry the token: one whose first token header does not hold it is answered
/// with no success, whatever it asks for, unless it is a preflight. A body is read exactly where a
/// request hands in comments and carries the token; health checks and comments without the token
/// are answered 403. Where the token is not empty, a request without the header lacks it.
pub proof fn token_is_required(request: RequestView, token: Seq<char>)
    ensures
        routed(request, token) is ReadBody <==> is_ingest(request) && provided_token(
            request.headers,
        ) == token,
        request.method != Method::Options && provided_token(request.headers) != token ==> (routed(
            request,
            token,
        ) matches RouteView::Reply(r) && !(200 <= r.code < 300)),
        (is_ingest(request) || is_health_check(request)) && provided_token(request.headers) != token
            ==> routed(request, token) == RouteView::Reply(forbidden()),
        token.len() > 0 && (forall|i: int|
            0 <= i < request.headers.len() ==> !same_ignoring_case(
                #[trigger] request.headers[i].0,
                "X-Orochi-Token"@,
            )) ==> provided_token(request.headers) != token,
{
    if forall|i: int|
        0 <= i < request.headers.len() ==> !same_ignoring_case(
            #[trigger] request.headers[i].0,
            "X-Orochi-Token"@,
        ) {
        lemma_no_token_header(request.headers);
    }
}

proof fn lemma_no_token_header(headers: Seq<(Seq<char>, Seq<char>)>)
    requires
        forall|i: int|
            0 <= i < headers.len() ==> !same_ignoring_case(
                #[trigger] headers[i].0,
                "X-Orochi-Token"@,
            ),
    ensures
        provided_token(headers) == Seq::<char>::empty(),
    decreases headers.len(),
{
    if headers.len() > 0 {
        let rest = headers.drop_first();
        assert forall|i: int| 0 <= i < rest.len() implies !same_ignoring_case(
            #[trigger] rest[i].0,
            "X-Orochi-Token"@,
        ) by {
            assert(rest[i] == headers[i + 1]);
        }
        assert(!same_ignoring_case(headers[0].0, "X-Orochi-Token"@));
        lemma_no_token_header(rest);
    }
}

/// The body of an answer to an accepted payload: `clips` clips are known now.
pub open spec fn accepted_body(clips: nat) -> Seq<char> {
    "{\"ok\":true,\"clips\":"@ + decimal(clips) + "}"@
}

/// The members of an answer to a payload that could not be read.
pub open spec fn refusal_members(error: Seq<char>) -> Seq<(Seq<char>, ScalarView)> {
    seq![("ok"@, ScalarView::Flag(false)), ("error"@, ScalarView::Text(error))]
}

/// The answer to a payload, by what became of it.
pub open spec fn ingest_answer(outcome: Result<nat, Seq<char>>) -> ReplyView {
    match outcome {
        Ok(clips) => cors_reply(accepted_body(clips), 200),
        Err(e) => cors_reply(json_object_text(refusal_members(e)), 400),
    }
}

/// Every response carries the same headers.
pub proof fn replies_carry_cors_headers(
    request: RequestView,
    token: Seq<char>,
    outcome: Result<nat, Seq<char>>,
)
    ensures
        routed(request, token) matches RouteView::Reply(reply) ==> reply.headers == cors_headers(),
        ingest_answer(outcome).headers == cors_headers(),
{
}

/// A text is JSON that says `ok` is false and gives `error` as the reason.
pub open spec fn says_refused(body: Seq<char>, error: Seq<char>) -> bool {
    &&& json_document(body) is Ok
    &&& lookup(json_document(body)->Ok_0, "ok"@) == Some(read_as(ScalarView::Flag(false)))
    &&& lookup(json_document(body)->Ok_0, "error"@) == Some(read_as(ScalarView::Text(error)))
}

/// Answers a payload by what became of it: the number of clips known now, or the reason why it
/// was refused. The reason can be read back from the answer.
pub fn ingest_reply(outcome: Result<usize, String>) -> (r: Reply)
    ensures
        outcome matches Ok(n) ==> r@ == ingest_answer(Ok(n as nat)),
        outcome matches Err(e) ==> r@ == ingest_answer(Err(e@)) && says_refused(r@.body, e@),
{
    match outcome {
        Ok(n) => {
            let mut body: String = "{\"ok\":true,\"clips\":".to_string();
            push_decimal(&mut body, n as u64);
            body.push('}');
            proof {
                reveal_strlit("}");
                assert(body@ =~= accepted_body(n as nat));
            }
            cors_resp(body, 200)
        },
        Err(e) => {
            let ghost error = e@;
            let mut fields: Vec<(String, Scalar)> = Vec::new();
            fields.push(("ok".to_string(), Scalar::Flag(false)));
            fields.push(("error".to_string(), Scalar::Text(e)));
            let ghost members = refusal_members(error);
            proof {
                assert(scalar_views(fields@) =~= members);
                reveal_strlit("ok");
                reveal_strlit("error");
                assert("ok"@.len() != "error"@.len());
                assert(distinct_keys(members));
                let read = members_read(members);
                assert(read[0] == ("ok"@, read_as(ScalarView::Flag(false))));
                assert(read.drop_first()[0] == ("error"@, read_as(ScalarView::Text(error))));
                reveal_with_fuel(member, 3);
                assert(member(read, "ok"@) == Some(read_as(ScalarView::Flag(false))));
                assert(member(read, "error"@) == Some(read_as(ScalarView::Text(error))));
            }
            cors_resp(render_object(fields), 400)
        },
    }
}

/// What comes of a body: the response, and, where a clip was updated, its id and the number of
/// clips known now.
#[derive(Debug)]
pub struct Answer {
    pub reply: Reply,
    pub updated: Option<(String, usize)>,
}

/// Answers a request whose body was read (`None` where reading failed), and applies its payload
/// to the store.
pub fn answer(store: &mut QualityStore, body: Option<&str>) -> (r: Answer)
    ensures
        body is None ==> {
            &&& r.reply@ == cors_reply("{\"ok\":false,\"error\":\"bad body\"}"@, 400)
            &&& r.updated is None
            &&& final(store)@ == old(store)@
        },
        body matches Some(text) ==> match ingest_of_body(text@) {
            Err(e) => {
                &&& r.reply@ == ingest_answer(Err(e))
                &&& says_refused(r.reply@.body, e)
                &&& r.updated is None
                &&& final(store)@ == old(store)@
            },
            Ok(i) => {
                &&& final(store)@ == with_ingest(
                    old(store)@,
                    i,
                    final(store)@.clips[i.clip_id].ts,
                )
                &&& final(store)@.clips.dom().finite()
                &&& r.reply@ == ingest_answer(Ok(final(store)@.clips.dom().len()))
                &&& r.updated is Some
                &&& r.updated->Some_0.0@ == i.clip_id
                &&& r.updated->Some_0.1 == final(store)@.clips.dom().len()
            },
        },
{
    let text: &str = match body {
        Some(text) => text,
        None => return Answer {
            reply: cors_resp("{\"ok\":false,\"error\":\"bad body\"}".to_string(), 400),
            updated: None,
        },
    };
    match store.handle_ingest(text) {
        Ok((clip_id, count)) => Answer {
            reply: ingest_reply(Ok(count)),
            updated: Some((clip_id, count)),
        },
        Err(e) => Answer { reply: ingest_reply(Err(e)), updated: None },
    }
}

/// The store after a request is served: only a request whose body is read, and whose payload can
/// be, changes it. `body` is `None` where reading failed, and `ts` the time of the payload.
pub open spec fn store_after(
    store: StoreView,
    request: RequestView,
    token: Seq<char>,
    body: Option<Seq<char>>,
    ts: u64,
) -> StoreView {
    match (routed(request, token), body) {
        (RouteView::ReadBody, Some(text)) => match ingest_of_body(text) {
            Ok(i) => with_ingest(store, i, ts),
            Err(_) => store,
        },
        _ => store,
    }
}

/// Comments that are handed in with the token arrive: the store then shows them for their clip.
/// Any other request leaves the store as it was: one without the token, one that hands in no
/// comments, and one whose body cannot be read or names no clip.
pub proof fn comments_arrive_with_the_token(
    store: StoreView,
    request: RequestView,
    token: Seq<char>,
    body: Option<Seq<char>>,
    ts: u64,
)
    ensures
        ({
            let after = store_after(store, request, token, body, ts);
            let let_in = is_ingest(request) && provided_token(request.headers) == token;
            &&& !let_in ==> after == store
            &&& body is None ==> after == store
            &&& body matches Some(text) ==> match ingest_of_body(text) {
                Err(_) => after == store,
                Ok(i) => let_in ==> after.clips.contains_pair(
                    i.clip_id,
                    ClipView { ts, comments: i.comments },
                ),
            }
        }),
{
    token_is_required(request, token);
}

// ---------- What is answered to whom ----------

/// The token of a request is the value of its first header named `X-Orochi-Token`, in whatever
/// case; without such a header it is the empty text.
pub proof fn token_is_the_first_header(headers: Seq<(Seq<char>, Seq<char>)>, i: int)
    ensures
        0 <= i < headers.len() && same_ignoring_case(headers[i].0, "X-Orochi-Token"@) && (forall|
            j: int,
        |
            0 <= j < i ==> !same_ignoring_case((#[trigger] headers[j]).0, "X-Orochi-Token"@))
            ==> provided_token(headers) == headers[i].1,
        (forall|j: int|
            0 <= j < headers.len() ==> !same_ignoring_case(
                (#[trigger] headers[j]).0,
                "X-Orochi-Token"@,
            )) ==> provided_token(headers).len() == 0,
    decreases headers.len(),
{
    if headers.len() > 0 && !same_ignoring_case(headers[0].0, "X-Orochi-Token"@) {
        let rest = headers.drop_first();
        token_is_the_first_header(rest, i - 1);
        assert forall|j: int| 0 <= j < rest.len() implies #[trigger] rest[j] == headers[j + 1] by {}
        if 0 < i < headers.len() {
            assert(rest[i - 1] == headers[i]);
        }
    }
}

/// Every answer is told by the request alone: 204 with no body to a preflight; 200 to a health
/// check and a read body for comments, both with the token; 403 to these without it; and 404 to
/// anything else.
pub proof fn every_request_has_its_answer(request: RequestView, token: Seq<char>)
    ensures
        ({
            let route = routed(request, token);
            let has_token = provided_token(request.headers) == token;
            let health = request.method == Method::Get && begins_with(request.url, "/health"@);
            let ingest = request.method == Method::Post && begins_with(request.url, "/ingest"@);
            &&& is_health_check(request) == health
            &&& is_ingest(request) == ingest
            &&& request.method == Method::Options ==> route is Reply && route->Reply_0.code == 204
                && route->Reply_0.body.len() == 0
            &&& health && has_token ==> route is Reply && route->Reply_0.code == 200
                && route->Reply_0.body == "{\"ok\":true}"@
            &&& ingest && has_token ==> route is ReadBody
            &&& (health || ingest) && !has_token ==> route is Reply && route->Reply_0.code == 403
                && route->Reply_0.body == "{\"ok\":false,\"error\":\"forbidden\"}"@
            &&& request.method != Method::Options && !health && !ingest ==> route is Reply
                && route->Reply_0.code == 404 && route->Reply_0.body
                == "{\"ok\":false,\"error\":\"not found\"}"@
        }),
{
    reveal_strlit("");
}

/// A reply has the code and the body it was made with, and lets any page read it.
pub proof fn reply_lets_any_page_read_it(body: Seq<char>, code: u16)
    ensures
        cors_reply(body, code).code == code,
        cors_reply(body, code).body == body,
        cors_reply(body, code).headers.len() == 4,
        cors_reply(body, code).headers[0] == ("Access-Control-Allow-Origin"@, "*"@),
        cors_reply(body, code).headers[1] == (
            "Access-Control-Allow-Methods"@,
            "POST, GET, OPTIONS"@,
        ),
        cors_reply(body, code).headers[2] == (
            "Access-Control-Allow-Headers"@,
            "Content-Type, X-Orochi-Token"@,
        ),
        cors_reply(body, code).headers[3] == ("Content-Type"@, "application/json"@),
        cors_headers() == cors_reply(body, code).headers,
{
}

/// An accepted payload is answered 200 with the number of clips, and a refused one 400 with the
/// reason.
pub proof fn payload_is_answered_by_its_fate(clips: nat, error: Seq<char>)
    ensures
        ingest_answer(Ok(clips)).code == 200,
        ingest_answer(Ok(clips)).body == "{\"ok\":true,\"clips\":"@ + decimal(clips) + "}"@,
        ingest_answer(Err(error)).code == 400,
        ingest_answer(Err(error)).body == json_object_text(
            seq![("ok"@, ScalarView::Flag(false)), ("error"@, ScalarView::Text(error))],
        ),
{
}

/// A body that says it was refused holds `ok`, false, and `error`, the reason.
pub proof fn refusal_gives_its_reason(body: Seq<char>, error: Seq<char>)
    requires
        says_refused(body, error),
    ensures
        json_document(body) is Ok,
        lookup(json_document(body)->Ok_0, "ok"@) is Some,
        lookup(json_document(body)->Ok_0, "ok"@)->Some_0.flag == Some(false),
        lookup(json_document(body)->Ok_0, "error"@) is Some,
        lookup(json_document(body)->Ok_0, "error"@)->Some_0.text == Some(error),
{
}

/// The bridge listens on the loopback interface, at its port.
pub proof fn bridge_stays_on_this_machine(port: u16)
    ensures
        loopback_address(port) == seq!['1', '2', '7', '.', '0', '.', '0', '.', '1', ':'] + decimal(
            port as nat,
        ),
{
    reveal_strlit("127.0.0.1:");
    assert("127.0.0.1:"@ =~= seq!['1', '2', '7', '.', '0', '.', '0', '.', '1', ':']);
}

/// Requests, replies and routes are seen as they are, every header at its place.
pub proof fn requests_are_seen_as_they_are(request: Request, reply: Reply, i: int)
    ensures
        request@.method == request.method,
        request@.url == request.url@,
        request@.headers.len() == request.headers@.len(),
        0 <= i < request.headers@.len() ==> request@.headers[i].0 == request.headers@[i].0@
            && request@.headers[i].1 == request.headers@[i].1@,
        reply@.code == reply.code,
        reply@.body == reply.body@,
        reply@.headers.len() == reply.headers@.len(),
        0 <= i < reply.headers@.len() ==> reply@.headers[i].0 == reply.headers@[i].0@
            && reply@.headers[i].1 == reply.headers@[i].1@,
        Route::Reply(reply)@ == RouteView::Reply(reply@),
        Route::ReadBody@ == RouteView::ReadBody,
{
}

} // verus!
