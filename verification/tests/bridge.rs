use orochi::bridge::{
    answer, bind_address, cors_resp, ingest_reply, route, token_of, Method, Reply, Request, Route,
};
use orochi::quality::QualityStore;

fn request(method: Method, url: &str, headers: &[(&str, &str)]) -> Request {
    Request {
        method,
        url: url.to_string(),
        headers: headers.iter().map(|h| (h.0.to_string(), h.1.to_string())).collect(),
    }
}

fn reply(r: Route) -> Reply {
    match r {
        Route::Reply(reply) => reply,
        Route::ReadBody => panic!("an answer was expected"),
    }
}

fn body_is_read(r: Route) -> bool {
    matches!(r, Route::ReadBody)
}

#[test]
fn every_reply_carries_cors_headers() {
    let r = cors_resp("x".to_string(), 418);
    assert_eq!((r.code, r.body.as_str()), (418, "x"));
    let headers: Vec<(&str, &str)> =
        r.headers.iter().map(|h| (h.0.as_str(), h.1.as_str())).collect();
    assert_eq!(
        headers,
        vec![
            ("Access-Control-Allow-Origin", "*"),
            ("Access-Control-Allow-Methods", "POST, GET, OPTIONS"),
            ("Access-Control-Allow-Headers", "Content-Type, X-Orochi-Token"),
            ("Content-Type", "application/json"),
        ]
    );
    let r = reply(route(&request(Method::Other, "/", &[]), "t"));
    assert_eq!(r.headers.len(), 4);
}

#[test]
fn bridge_listens_on_loopback() {
    assert_eq!(bind_address(47800), "127.0.0.1:47800");
    assert_eq!(bind_address(0), "127.0.0.1:0");
}

#[test]
fn preflight_is_answered() {
    let r = reply(route(&request(Method::Options, "/ingest", &[]), "t"));
    assert_eq!((r.code, r.body.as_str()), (204, ""));
}

#[test]
fn health_is_answered() {
    let token = [("X-Orochi-Token", "t")];
    let r = reply(route(&request(Method::Get, "/healthz?x", &token), "t"));
    assert_eq!((r.code, r.body.as_str()), (200, "{\"ok\":true}"));
    let r = reply(route(&request(Method::Post, "/health", &token), "t"));
    assert_eq!(r.code, 404);
}

#[test]
fn health_needs_the_token() {
    for headers in [vec![], vec![("X-Orochi-Token", "wrong")], vec![("X-Other", "t")]] {
        let r = reply(route(&request(Method::Get, "/health", &headers), "t"));
        assert_eq!((r.code, r.body.as_str()), (403, "{\"ok\":false,\"error\":\"forbidden\"}"));
        assert_eq!(r.headers.len(), 4);
    }
}

#[test]
fn nothing_but_a_preflight_succeeds_without_the_token() {
    for method in [Method::Options, Method::Get, Method::Post, Method::Other] {
        for url in ["/", "/health", "/healthz", "/ingest", "/ingest/x", "", "*"] {
            let r = reply(route(&request(method, url, &[("X-Orochi-Token", "u")]), "t"));
            assert_eq!((200..300).contains(&r.code), method == Method::Options);
        }
    }
}

#[test]
fn unknown_requests_are_not_found() {
    for q in [
        request(Method::Get, "/", &[]),
        request(Method::Get, "/ingest", &[("X-Orochi-Token", "t")]),
        request(Method::Other, "/ingest", &[("X-Orochi-Token", "t")]),
        request(Method::Post, "/", &[("X-Orochi-Token", "t")]),
    ] {
        let r = reply(route(&q, "t"));
        assert_eq!((r.code, r.body.as_str()), (404, "{\"ok\":false,\"error\":\"not found\"}"));
    }
}

#[test]
fn comments_need_the_token() {
    for headers in [
        vec![],
        vec![("X-Orochi-Token", "wrong")],
        vec![("X-Orochi-Token", "T")],
        vec![("X-Other", "t")],
        vec![("X-Orochi-Token", "wrong"), ("X-Orochi-Token", "t")],
    ] {
        let r = reply(route(&request(Method::Post, "/ingest", &headers), "t"));
        assert_eq!((r.code, r.body.as_str()), (403, "{\"ok\":false,\"error\":\"forbidden\"}"));
    }
    assert!(body_is_read(route(
        &request(Method::Post, "/ingest", &[("Host", "x"), ("x-orochi-TOKEN", "t")]),
        "t"
    )));
    assert!(body_is_read(route(
        &request(Method::Post, "/ingest/more", &[("X-Orochi-Token", "t"), ("X-Orochi-Token", "u")]),
        "t"
    )));
}

#[test]
fn first_token_header_counts() {
    let headers = vec![
        ("Accept".to_string(), "a".to_string()),
        ("X-OROCHI-TOKEN".to_string(), "b".to_string()),
        ("X-Orochi-Token".to_string(), "c".to_string()),
    ];
    assert_eq!(token_of(&headers), "b");
    assert_eq!(token_of(&vec![]), "");
}

#[test]
fn header_names_compare_like_the_server_does() {
    for name in ["X-Orochi-Token", "x-orochi-token", "X-OROCHI-TOKEN", "X-Orochi-Toke", "X_Orochi_Token"] {
        let field: tiny_http::HeaderField = name.parse().unwrap();
        let found = token_of(&vec![(name.to_string(), "v".to_string())]) == "v";
        assert_eq!(found, field.equiv("X-Orochi-Token"));
    }
}

#[test]
fn accepted_payload_is_counted_in_the_answer() {
    let mut store = QualityStore::default();
    let a = answer(&mut store, Some("{\"clipId\":\"c1\",\"comments\":[\"a\"]}"));
    assert_eq!((a.reply.code, a.reply.body.as_str()), (200, "{\"ok\":true,\"clips\":1}"));
    assert_eq!(a.updated, Some(("c1".to_string(), 1)));
    let a = answer(&mut store, Some("{\"clipId\":\"c2\"}"));
    assert_eq!(a.reply.body, "{\"ok\":true,\"clips\":2}");
    let a = answer(&mut store, Some("{\"clipId\":\"c1\"}"));
    assert_eq!(a.reply.body, "{\"ok\":true,\"clips\":2}");
    assert_eq!(store.clip_count(), 2);
    assert_eq!(ingest_reply(Ok(1234567)).body, "{\"ok\":true,\"clips\":1234567}");
}

#[test]
fn unreadable_body_is_refused() {
    let mut store = QualityStore::default();
    let a = answer(&mut store, None);
    assert_eq!(
        (a.reply.code, a.reply.body.as_str()),
        (400, "{\"ok\":false,\"error\":\"bad body\"}")
    );
    assert_eq!(a.updated, None);
    assert_eq!(store.clip_count(), 0);
}

#[test]
fn refused_payload_is_told_why() {
    let mut store = QualityStore::default();
    let a = answer(&mut store, Some("{}"));
    assert_eq!(a.reply.code, 400);
    assert_eq!(a.updated, None);
    let v: serde_json::Value = serde_json::from_str(&a.reply.body).unwrap();
    assert_eq!(v.get("ok"), Some(&serde_json::Value::Bool(false)));
    assert_eq!(v.get("error").and_then(|e| e.as_str()), Some("missing clipId"));
    assert_eq!(v.as_object().unwrap().len(), 2);
}

#[test]
fn reason_survives_the_answer() {
    for reason in ["", "plain", "quote \" slash \\ line\n tab\t nul\u{0} é \u{1F600}"] {
        let r = ingest_reply(Err(reason.to_string()));
        let v: serde_json::Value = serde_json::from_str(&r.body).unwrap();
        assert_eq!(v.get("error").and_then(|e| e.as_str()), Some(reason));
        assert_eq!(v.get("ok").and_then(|e| e.as_bool()), Some(false));
    }
}

/// Serves a request as the listener does; returns the code of the answer.
fn serve(store: &mut QualityStore, q: &Request, body: Option<&str>) -> u16 {
    match route(q, "t") {
        Route::Reply(r) => r.code,
        Route::ReadBody => answer(store, body).reply.code,
    }
}

#[test]
fn comments_with_the_token_arrive() {
    let mut store = QualityStore::default();
    let body = Some("{\"clipId\":\"c1\",\"comments\":[\"a\"]}");
    let without = request(Method::Post, "/ingest", &[]);
    let with = request(Method::Post, "/ingest", &[("X-Orochi-Token", "t")]);
    let elsewhere = request(Method::Post, "/other", &[("X-Orochi-Token", "t")]);
    assert_eq!(serve(&mut store, &without, body), 403);
    assert_eq!(serve(&mut store, &elsewhere, body), 404);
    assert_eq!(serve(&mut store, &with, None), 400);
    assert_eq!(store.clip_count(), 0);
    assert_eq!(serve(&mut store, &with, body), 200);
    assert_eq!(store.clip_count(), 1);
    assert_eq!(store.entries()[0].0, "c1");
    assert_eq!(store.entries()[0].1.comments, vec!["a"]);
}
