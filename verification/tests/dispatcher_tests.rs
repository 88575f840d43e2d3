//! Tests for the dispatcher: line framing, method routing, tool routing,
//! argument decoding, count clamping, and id correlation.

use x_mcp_server::client::HttpOutcome;
use x_mcp_server::json::{parse_json, to_json_bytes, get_field, JsonValue};
use x_mcp_server::server::{process_line, resume, LineOutcome, Step};
use x_mcp_server::tools::{
    decode_get_user_args, decode_search_tweets_args, default_max_results,
};
use x_mcp_server::types::{ContextAnnotation, Domain, Entity, ReferencedTweet, SearchTweetsParams,
    Tweet, TweetMetrics, User, UserMetrics};
use x_mcp_server::VERSION;

fn base() -> Vec<u8> {
    b"https://api.twitter.com/2".to_vec()
}

fn field<'a>(v: &'a JsonValue, name: &str) -> &'a JsonValue {
    get_field(v, &name.as_bytes().to_vec()).expect("field present")
}

fn str_of(v: &JsonValue) -> String {
    match v {
        JsonValue::Str(b) => String::from_utf8(b.clone()).unwrap(),
        _ => panic!("not a string"),
    }
}

/// The business envelope inside a tool reply: the parsed `text` content.
fn envelope_of(resp: &JsonValue) -> JsonValue {
    let result = field(resp, "result");
    let content = match field(result, "content") {
        JsonValue::Arr(items) => items,
        _ => panic!("content is not an array"),
    };
    let text = match &content[0] {
        JsonValue::Obj(_) => field(&content[0], "text"),
        _ => panic!("content item is not an object"),
    };
    match text {
        JsonValue::Str(b) => parse_json(b).expect("envelope is valid JSON"),
        _ => panic!("text is not a string"),
    }
}

#[test]
fn test_version() {
    assert!(!VERSION.is_empty());
    assert!(VERSION.chars().next().unwrap().is_ascii_digit());
}

#[test]
fn test_search_params() {
    let params = SearchTweetsParams {
        query: "test query".to_string(),
        max_results: Some(50),
        tweet_fields: Some(vec!["id".to_string(), "text".to_string()]),
        user_fields: Some(vec!["username".to_string()]),
        expansions: Some(vec!["author_id".to_string()]),
    };

    assert_eq!(params.query, "test query");
    assert_eq!(params.max_results, Some(50));
    assert!(params.tweet_fields.is_some());
    assert!(params.user_fields.is_some());
    assert!(params.expansions.is_some());
}

#[test]
fn test_tool_args_parsing() {
    let user_args_json = parse_json(br#"{"identifier":"testuser","is_user_id":false}"#).unwrap();
    let args = match decode_get_user_args(&user_args_json) {
        Ok(a) => a,
        Err(_) => panic!("get_user arguments should decode"),
    };
    assert_eq!(args.identifier, "testuser");
    assert!(!args.is_user_id);

    let search_args_json =
        parse_json(br#"{"query":"test query","max_results":20,"include_users":true}"#).unwrap();
    let search_args = match decode_search_tweets_args(&search_args_json) {
        Ok(a) => a,
        Err(_) => panic!("search_tweets arguments should decode"),
    };
    assert_eq!(search_args.query, "test query");
    assert_eq!(search_args.max_results, 20);
    assert!(search_args.include_users);
}

#[test]
fn test_default_max_results() {
    assert_eq!(default_max_results(), 10);
    let args_json = parse_json(br#"{"query":"q"}"#).unwrap();
    let args = match decode_search_tweets_args(&args_json) {
        Ok(a) => a,
        Err(_) => panic!("search_tweets arguments should decode"),
    };
    assert_eq!(args.max_results, 10);
}

#[test]
fn test_framing_invalid_json_is_silent() {
    let b = base();
    assert!(matches!(process_line(&b"not json at all".to_vec(), &b), LineOutcome::Silent));
    assert!(matches!(process_line(&b"{\"unterminated\": ".to_vec(), &b), LineOutcome::Silent));
    assert!(matches!(process_line(&b"".to_vec(), &b), LineOutcome::Silent));
    assert!(matches!(process_line(&b"{} trailing".to_vec(), &b), LineOutcome::Silent));
}

#[test]
fn test_framing_unknown_method() {
    let line = br#"{"jsonrpc":"2.0","id":9,"method":"bogus"}"#.to_vec();
    let out = process_line(&line, &base());
    let bytes = match out {
        LineOutcome::Reply(bytes) => bytes,
        _ => panic!("a parsed line with an unknown method gets exactly one reply"),
    };
    let resp = parse_json(&bytes).expect("the reply is valid JSON");
    let error = field(&resp, "error");
    assert_eq!(to_json_bytes(field(error, "code")), b"-32601");
    assert_eq!(str_of(field(error, "message")), "Method not found");
    assert_eq!(to_json_bytes(field(&resp, "id")), b"9");
}

#[test]
fn test_initialize_reply() {
    let line = br#"{"jsonrpc":"2.0","id":1,"method":"initialize"}"#.to_vec();
    let out = process_line(&line, &base());
    let bytes = match out {
        LineOutcome::Reply(bytes) => bytes,
        _ => panic!("initialize always replies"),
    };
    let resp = parse_json(&bytes).unwrap();
    let result = field(&resp, "result");
    assert_eq!(str_of(field(result, "protocol_version")), "2024-11-05");
    let info = field(result, "server_info");
    assert_eq!(str_of(field(info, "name")), "x-mcp-server");
}

#[test]
fn test_tools_list_reply() {
    let line = br#"{"jsonrpc":"2.0","id":2,"method":"tools/list"}"#.to_vec();
    let out = process_line(&line, &base());
    let bytes = match out {
        LineOutcome::Reply(bytes) => bytes,
        _ => panic!("tools/list always replies"),
    };
    let resp = parse_json(&bytes).unwrap();
    let tools = match field(field(&resp, "result"), "tools") {
        JsonValue::Arr(items) => items,
        _ => panic!("tools is an array"),
    };
    assert_eq!(tools.len(), 5);
    let names: Vec<String> = tools.iter().map(|t| str_of(field(t, "name"))).collect();
    assert_eq!(names, ["get_user", "post_tweet", "search_tweets", "get_tweet", "get_user_tweets"]);
}

#[test]
fn test_get_user_routing_found() {
    let line = br#"{"jsonrpc":"2.0","id":7,"method":"tools/call","params":{"name":"get_user","arguments":{"identifier":"jack"}}}"#.to_vec();
    let (plan, pending) = match process_line(&line, &base()) {
        LineOutcome::Call { plan, pending } => (plan, pending),
        _ => panic!("a well-formed get_user call issues an HTTP request"),
    };
    assert_eq!(plan.method, b"GET");
    assert_eq!(plan.url, b"https://api.twitter.com/2/users/by/username/jack".to_vec());

    let body = br#"{"data":{"id":"12","name":"Jack","username":"jack"}}"#.to_vec();
    let step = resume(pending, HttpOutcome::Response { status: 200, body }, &base());
    let resp = match step {
        Step::Reply(resp) => resp,
        _ => panic!("the user fetch finishes in one reply"),
    };
    let env = envelope_of(&resp);
    assert!(matches!(field(&env, "success"), JsonValue::Bool(true)));
    let user = field(&env, "user");
    assert_eq!(str_of(field(user, "id")), "12");
    assert_eq!(str_of(field(user, "username")), "jack");
    assert_eq!(to_json_bytes(field(&resp, "id")), b"7");
}

#[test]
fn test_get_user_routing_not_found() {
    let line = br#"{"jsonrpc":"2.0","id":8,"method":"tools/call","params":{"name":"get_user","arguments":{"identifier":"jack"}}}"#.to_vec();
    let (_, pending) = match process_line(&line, &base()) {
        LineOutcome::Call { plan, pending } => (plan, pending),
        _ => panic!("a well-formed get_user call issues an HTTP request"),
    };
    let body = br#"{"data":null}"#.to_vec();
    let step = resume(pending, HttpOutcome::Response { status: 200, body }, &base());
    let resp = match step {
        Step::Reply(resp) => resp,
        _ => panic!("a missing user still gets a reply"),
    };
    let env = envelope_of(&resp);
    assert!(matches!(field(&env, "success"), JsonValue::Bool(false)));
    assert_eq!(str_of(field(&env, "error")), "User not found");
}

#[test]
fn test_unknown_tool() {
    let line = br#"{"jsonrpc":"2.0","id":3,"method":"tools/call","params":{"name":"mystery","arguments":{}}}"#.to_vec();
    let bytes = match process_line(&line, &base()) {
        LineOutcome::Reply(bytes) => bytes,
        _ => panic!("an unknown tool is a business failure, not an HTTP call"),
    };
    let resp = parse_json(&bytes).unwrap();
    let env = envelope_of(&resp);
    assert!(matches!(field(&env, "success"), JsonValue::Bool(false)));
    assert_eq!(str_of(field(&env, "error")), "Unknown tool: mystery");
}

#[test]
fn test_decode_failure_envelope() {
    let line = br#"{"jsonrpc":"2.0","id":4,"method":"tools/call","params":{"name":"get_user","arguments":{}}}"#.to_vec();
    let bytes = match process_line(&line, &base()) {
        LineOutcome::Reply(bytes) => bytes,
        _ => panic!("bad arguments are a business failure, not an HTTP call"),
    };
    let resp = parse_json(&bytes).unwrap();
    let env = envelope_of(&resp);
    assert!(matches!(field(&env, "success"), JsonValue::Bool(false)));
    assert!(str_of(field(&env, "error")).contains("identifier"));
}

#[test]
fn test_search_clamps_max_results() {
    let line = br#"{"jsonrpc":"2.0","id":5,"method":"tools/call","params":{"name":"search_tweets","arguments":{"query":"rust","max_results":500}}}"#.to_vec();
    let (plan, _) = match process_line(&line, &base()) {
        LineOutcome::Call { plan, pending } => (plan, pending),
        _ => panic!("a well-formed search issues an HTTP request"),
    };
    assert_eq!(plan.url, b"https://api.twitter.com/2/tweets/search/recent".to_vec());
    let entries = plan.params.entries();
    let max = entries.iter().find(|e| e.0 == b"max_results").expect("max_results forwarded");
    assert_eq!(max.1, b"100");
    let query = entries.iter().find(|e| e.0 == b"query").unwrap();
    assert_eq!(query.1, b"rust");
}

#[test]
fn test_search_envelope_counts() {
    let line = br#"{"jsonrpc":"2.0","id":6,"method":"tools/call","params":{"name":"search_tweets","arguments":{"query":"rust"}}}"#.to_vec();
    let (_, pending) = match process_line(&line, &base()) {
        LineOutcome::Call { plan, pending } => (plan, pending),
        _ => panic!("a well-formed search issues an HTTP request"),
    };
    let body =
        br#"{"data":[{"id":"1","text":"a"},{"id":"2","text":"b"}],"meta":{"result_count":2}}"#
            .to_vec();
    let step = resume(pending, HttpOutcome::Response { status: 200, body }, &base());
    let resp = match step {
        Step::Reply(resp) => resp,
        _ => panic!("the search finishes in one reply"),
    };
    let env = envelope_of(&resp);
    assert!(matches!(field(&env, "success"), JsonValue::Bool(true)));
    assert_eq!(to_json_bytes(field(&env, "count")), b"2");
    match field(&env, "tweets") {
        JsonValue::Arr(items) => assert_eq!(items.len(), 2),
        _ => panic!("tweets is an array"),
    }
}

#[test]
fn test_user_tweets_two_steps() {
    let line = br#"{"jsonrpc":"2.0","id":10,"method":"tools/call","params":{"name":"get_user_tweets","arguments":{"identifier":"jack","max_results":500}}}"#.to_vec();
    let (plan, pending) = match process_line(&line, &base()) {
        LineOutcome::Call { plan, pending } => (plan, pending),
        _ => panic!("the timeline tool resolves the username first"),
    };
    assert_eq!(plan.url, b"https://api.twitter.com/2/users/by/username/jack".to_vec());

    let body = br#"{"data":{"id":"12","name":"Jack","username":"jack"}}"#.to_vec();
    let step = resume(pending, HttpOutcome::Response { status: 200, body }, &base());
    let (plan2, pending2) = match step {
        Step::Call { plan, pending } => (plan, pending),
        _ => panic!("a resolved user leads to the timeline fetch"),
    };
    assert_eq!(plan2.url, b"https://api.twitter.com/2/users/12/tweets".to_vec());
    let entries = plan2.params.entries();
    let max = entries.iter().find(|e| e.0 == b"max_results").expect("count forwarded");
    assert_eq!(max.1, b"100");

    let body2 = br#"{"data":[{"id":"t1","text":"hi"}]}"#.to_vec();
    let step2 = resume(pending2, HttpOutcome::Response { status: 200, body: body2 }, &base());
    let resp = match step2 {
        Step::Reply(resp) => resp,
        _ => panic!("the timeline fetch finishes in one reply"),
    };
    let env = envelope_of(&resp);
    assert!(matches!(field(&env, "success"), JsonValue::Bool(true)));
    assert_eq!(to_json_bytes(field(&env, "count")), b"1");
    assert_eq!(str_of(field(&env, "user_id")), "12");
    assert_eq!(to_json_bytes(field(&resp, "id")), b"10");
}

#[test]
fn test_user_tweets_unresolved() {
    let line = br#"{"jsonrpc":"2.0","id":11,"method":"tools/call","params":{"name":"get_user_tweets","arguments":{"identifier":"ghost"}}}"#.to_vec();
    let (_, pending) = match process_line(&line, &base()) {
        LineOutcome::Call { plan, pending } => (plan, pending),
        _ => panic!("the timeline tool resolves the username first"),
    };
    let step = resume(
        pending,
        HttpOutcome::Response { status: 200, body: b"{}".to_vec() },
        &base(),
    );
    let resp = match step {
        Step::Reply(resp) => resp,
        _ => panic!("an unresolved user short-circuits with a reply"),
    };
    let env = envelope_of(&resp);
    assert!(matches!(field(&env, "success"), JsonValue::Bool(false)));
    assert_eq!(str_of(field(&env, "error")), "User not found");
}

#[test]
fn test_collaborator_errors_become_envelopes() {
    let line = br#"{"jsonrpc":"2.0","id":12,"method":"tools/call","params":{"name":"get_tweet","arguments":{"tweet_id":"t9"}}}"#.to_vec();
    let (plan, pending) = match process_line(&line, &base()) {
        LineOutcome::Call { plan, pending } => (plan, pending),
        _ => panic!("a well-formed get_tweet call issues an HTTP request"),
    };
    assert_eq!(plan.url, b"https://api.twitter.com/2/tweets/t9".to_vec());

    let step = resume(
        pending,
        HttpOutcome::Response { status: 500, body: b"upstream broke".to_vec() },
        &base(),
    );
    let resp = match step {
        Step::Reply(resp) => resp,
        _ => panic!("an upstream failure still gets a reply"),
    };
    let env = envelope_of(&resp);
    assert!(matches!(field(&env, "success"), JsonValue::Bool(false)));
    assert_eq!(str_of(field(&env, "error")), "X API error: 500 - upstream broke");

    let line2 = br#"{"jsonrpc":"2.0","id":13,"method":"tools/call","params":{"name":"get_tweet","arguments":{"tweet_id":"t9"}}}"#.to_vec();
    let (_, pending2) = match process_line(&line2, &base()) {
        LineOutcome::Call { plan, pending } => (plan, pending),
        _ => panic!("a well-formed get_tweet call issues an HTTP request"),
    };
    let step2 = resume(pending2, HttpOutcome::Transport("connection refused".to_string()), &base());
    let resp2 = match step2 {
        Step::Reply(resp) => resp,
        _ => panic!("a transport failure still gets a reply"),
    };
    let env2 = envelope_of(&resp2);
    assert_eq!(str_of(field(&env2, "error")), "HTTP request failed: connection refused");
}

#[test]
fn test_id_correlation() {
    for (id_lit, expect) in
        [("\"abc\"", "\"abc\""), ("42", "42"), ("null", "null"), ("1.50", "1.50")] {
        let line = format!(
            "{{\"jsonrpc\":\"2.0\",\"id\":{},\"method\":\"initialize\"}}",
            id_lit
        );
        let bytes = match process_line(&line.into_bytes(), &base()) {
            LineOutcome::Reply(bytes) => bytes,
            _ => panic!("initialize always replies"),
        };
        let resp = parse_json(&bytes).unwrap();
        assert_eq!(to_json_bytes(field(&resp, "id")), expect.as_bytes());
    }

    // A request with no id at all answers under null.
    let line = br#"{"jsonrpc":"2.0","method":"initialize"}"#.to_vec();
    let bytes = match process_line(&line, &base()) {
        LineOutcome::Reply(bytes) => bytes,
        _ => panic!("initialize always replies"),
    };
    let resp = parse_json(&bytes).unwrap();
    assert!(matches!(field(&resp, "id"), JsonValue::Null));
}

#[test]
fn test_json_escapes_round_trip() {
    let v = parse_json(br#"{"s":"line\nbreak \u0041 \"quoted\" \u00e9 \ud83d\ude00"}"#)
        .unwrap();
    let s = str_of(field(&v, "s"));
    assert_eq!(s, "line\nbreak A \"quoted\" \u{e9} \u{1f600}");
    let re = to_json_bytes(&v);
    let v2 = parse_json(&re).unwrap();
    assert_eq!(str_of(field(&v2, "s")), s);
}

#[test]
fn test_user_to_json() {
    let user = User {
        id: "12".to_string(),
        name: "Jack".to_string(),
        username: "jack".to_string(),
        description: None,
        public_metrics: Some(UserMetrics {
            followers_count: 1,
            following_count: 2,
            tweet_count: 3,
            listed_count: 4,
        }),
        profile_image_url: None,
        verified: Some(true),
        created_at: None,
    };
    let rendered = String::from_utf8(to_json_bytes(&user.to_json())).unwrap();
    let mut expected = String::new();
    expected.push_str("{\"id\":\"12\",\"name\":\"Jack\",\"username\":\"jack\",");
    expected.push_str("\"description\":null,");
    expected.push_str("\"public_metrics\":{\"followers_count\":1,\"following_count\":2,");
    expected.push_str("\"tweet_count\":3,\"listed_count\":4},");
    expected.push_str("\"profile_image_url\":null,\"verified\":true,\"created_at\":null}");
    assert_eq!(rendered, expected);
}

#[test]
fn test_tweet_to_json() {
    let tweet = Tweet {
        id: "t1".to_string(),
        text: "hi".to_string(),
        author_id: Some("12".to_string()),
        created_at: None,
        public_metrics: Some(TweetMetrics {
            retweet_count: 5,
            like_count: 6,
            reply_count: 7,
            quote_count: 8,
        }),
        context_annotations: Some(vec![ContextAnnotation {
            domain: Domain { id: "d".to_string(), name: "dom".to_string(), description: None },
            entity: Entity { id: "e".to_string(), name: "ent".to_string(), description: None },
        }]),
        referenced_tweets: Some(vec![ReferencedTweet {
            tweet_type: "replied_to".to_string(),
            id: "t0".to_string(),
        }]),
    };
    let rendered = String::from_utf8(to_json_bytes(&tweet.to_json())).unwrap();
    let mut expected = String::new();
    expected.push_str("{\"id\":\"t1\",\"text\":\"hi\",\"author_id\":\"12\",\"created_at\":null,");
    expected.push_str("\"public_metrics\":{\"retweet_count\":5,\"like_count\":6,");
    expected.push_str("\"reply_count\":7,\"quote_count\":8},");
    expected.push_str("\"context_annotations\":[{\"domain\":{\"id\":\"d\",\"name\":\"dom\",\"description\":null},");
    expected.push_str("\"entity\":{\"id\":\"e\",\"name\":\"ent\",\"description\":null}}],");
    expected.push_str("\"referenced_tweets\":[{\"type\":\"replied_to\",\"id\":\"t0\"}]}");
    assert_eq!(rendered, expected);
}
