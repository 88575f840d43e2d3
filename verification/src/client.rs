//! X API request construction and response interpretation.
//!
//! Each endpoint becomes a `RequestPlan`: method, URL, canonical query
//! parameters and an optional JSON body, all stated exactly. Sending the
//! request is the transport's business; what came back is handed to
//! [`interpret_response`], which turns status, body and transport failures
//! into the result the tool handlers consume.

use vstd::prelude::*;
use vstd::string::StrSliceExecFns;
use vstd::string::StringExecFns;
use crate::encoding::{dec_u64, u64_to_decimal, utf8_bytes, utf8_to_string, push_all};
use crate::error::{XError, XResult};
use crate::json::{JsonValue, JSpec, jget, jv_view, parse_json, sp_text, to_json_bytes,
    jobj_view, lemma_jobj_view_index};
use crate::params::{ParamMap, sorted_insert};
use crate::types::{PostTweetRequest, SearchTweetsParams};

verus! {

/// One HTTP request the library asks the transport to perform: method, URL
/// without a query string, query/body parameters in canonical order, and an
/// optional JSON body.
pub struct RequestPlan {
    pub method: Vec<u8>,
    pub url: Vec<u8>,
    pub params: ParamMap,
    pub body: Option<JsonValue>,
}

/// What the transport hands back: a transport-level failure, or a status
/// code with the raw response body.
pub enum HttpOutcome {
    Transport(String),
    Response { status: u16, body: Vec<u8> },
}

/// The user fields every profile request asks for.
pub open spec fn spec_user_fields() -> Seq<u8> {
    utf8_bytes("id,name,username,description,public_metrics,profile_image_url,verified,created_at"@)
}

/// The tweet fields a single-tweet request asks for.
pub open spec fn spec_tweet_fields_get() -> Seq<u8> {
    utf8_bytes("id,text,author_id,created_at,public_metrics,context_annotations,referenced_tweets"@)
}

/// The tweet fields a timeline request asks for.
pub open spec fn spec_tweet_fields_timeline() -> Seq<u8> {
    utf8_bytes("id,text,author_id,created_at,public_metrics"@)
}

fn str_bytes(s: &str) -> (r: Vec<u8>)
    ensures
        r@ == utf8_bytes(s@),
{
    s.as_bytes_vec()
}

/// Fetch a user's profile by username.
pub fn user_by_username_request(base_url: &Vec<u8>, username: &str) -> (r: RequestPlan)
    ensures
        r.method@ == utf8_bytes("GET"@),
        r.url@ == base_url@ + utf8_bytes("/users/by/username/"@) + utf8_bytes(username@),
        r.params@ == sorted_insert(
            Seq::empty(),
            utf8_bytes("user.fields"@),
            spec_user_fields(),
        ),
        r.params.wf(),
        r.body is None,
{
    let mut url = base_url.clone();
    let seg = str_bytes("/users/by/username/");
    push_all(&mut url, seg.as_slice());
    let name_bytes = str_bytes(username);
    push_all(&mut url, name_bytes.as_slice());
    let mut params = ParamMap::new();
    params.insert(
        str_bytes("user.fields"),
        str_bytes(
            "id,name,username,description,public_metrics,profile_image_url,verified,created_at",
        ),
    );
    proof {
        assert(url@ =~= base_url@ + utf8_bytes("/users/by/username/"@) + utf8_bytes(username@));
    }
    RequestPlan { method: str_bytes("GET"), url, params, body: None }
}

/// Fetch a user's profile by user id.
pub fn user_by_id_request(base_url: &Vec<u8>, user_id: &str) -> (r: RequestPlan)
    ensures
        r.method@ == utf8_bytes("GET"@),
        r.url@ == base_url@ + utf8_bytes("/users/"@) + utf8_bytes(user_id@),
        r.params@ == sorted_insert(
            Seq::empty(),
            utf8_bytes("user.fields"@),
            spec_user_fields(),
        ),
        r.params.wf(),
        r.body is None,
{
    let mut url = base_url.clone();
    let seg = str_bytes("/users/");
    push_all(&mut url, seg.as_slice());
    let id_bytes = str_bytes(user_id);
    push_all(&mut url, id_bytes.as_slice());
    let mut params = ParamMap::new();
    params.insert(
        str_bytes("user.fields"),
        str_bytes(
            "id,name,username,description,public_metrics,profile_image_url,verified,created_at",
        ),
    );
    proof {
        assert(url@ =~= base_url@ + utf8_bytes("/users/"@) + utf8_bytes(user_id@));
    }
    RequestPlan { method: str_bytes("GET"), url, params, body: None }
}

/// The JSON body of a post-tweet request, from the text and the reply
/// settings: the outer option is whether reply settings are present, the
/// inner one whether they name a tweet.
pub open spec fn spec_post_body_parts(text: Seq<u8>, reply: Option<Option<Seq<u8>>>) -> JSpec {
    JSpec::Obj(
        seq![
            (utf8_bytes("text"@), JSpec::Str(text)),
            (
                utf8_bytes("reply"@),
                match reply {
                    Some(inner) => JSpec::Obj(
                        seq![
                            (
                                utf8_bytes("in_reply_to_tweet_id"@),
                                match inner {
                                    Some(tid) => JSpec::Str(tid),
                                    None => JSpec::Null,
                                },
                            ),
                        ],
                    ),
                    None => JSpec::Null,
                },
            ),
        ],
    )
}

/// The reply settings of a request, as the byte sequences that reach the
/// wire.
pub open spec fn spec_reply_parts(req: PostTweetRequest) -> Option<Option<Seq<u8>>> {
    match req.reply {
        Some(settings) => Some(
            match settings.in_reply_to_tweet_id {
                Some(tid) => Some(utf8_bytes(tid@)),
                None => None,
            },
        ),
        None => None,
    }
}

/// The JSON body of a post-tweet request: the text, and the reply settings
/// or `null`.
pub open spec fn spec_post_body(req: PostTweetRequest) -> JSpec {
    spec_post_body_parts(utf8_bytes(req.text@), spec_reply_parts(req))
}

/// Create a post, optionally as a reply.
pub fn post_tweet_request(base_url: &Vec<u8>, req: PostTweetRequest) -> (r: RequestPlan)
    ensures
        r.method@ == utf8_bytes("POST"@),
        r.url@ == base_url@ + utf8_bytes("/tweets"@),
        r.params@ == Seq::<(Seq<u8>, Seq<u8>)>::empty(),
        r.params.wf(),
        r.body matches Some(b) && b@ == spec_post_body(req),
{
    let mut url = base_url.clone();
    let seg = str_bytes("/tweets");
    push_all(&mut url, seg.as_slice());
    let reply_value = match &req.reply {
        Some(settings) => {
            proof {
                assert(req.reply == Some(*settings));
            }
            let inner = match &settings.in_reply_to_tweet_id {
                Some(tid) => {
                    proof {
                        assert(settings.in_reply_to_tweet_id == Some(*tid));
                    }
                    JsonValue::Str(str_bytes(tid.as_str()))
                },
                None => JsonValue::Null,
            };
            let mut reply_members: Vec<(Vec<u8>, JsonValue)> = Vec::new();
            reply_members.push((str_bytes("in_reply_to_tweet_id"), inner));
            proof {
                lemma_jobj_view_index(reply_members@);
                assert(jobj_view(reply_members@) =~~= seq![
                    (
                        utf8_bytes("in_reply_to_tweet_id"@),
                        match req.reply->Some_0.in_reply_to_tweet_id {
                            Some(tid) => JSpec::Str(utf8_bytes(tid@)),
                            None => JSpec::Null,
                        },
                    ),
                ]);
            }
            JsonValue::Obj(reply_members)
        },
        None => JsonValue::Null,
    };
    proof {
        assert(reply_value@ == (match req.reply {
            Some(settings) => JSpec::Obj(
                seq![
                    (
                        utf8_bytes("in_reply_to_tweet_id"@),
                        match settings.in_reply_to_tweet_id {
                            Some(tid) => JSpec::Str(utf8_bytes(tid@)),
                            None => JSpec::Null,
                        },
                    ),
                ],
            ),
            None => JSpec::Null,
        }));
    }
    let mut members: Vec<(Vec<u8>, JsonValue)> = Vec::new();
    members.push((str_bytes("text"), JsonValue::Str(str_bytes(req.text.as_str()))));
    members.push((str_bytes("reply"), reply_value));
    proof {
        lemma_jobj_view_index(members@);
        assert(members@.len() == 2);
        let ghost e0 = members@[0];
        let ghost e1 = members@[1];
        assert(e0.0@ == utf8_bytes("text"@));
        assert(e1.0@ == utf8_bytes("reply"@));
        assert(jobj_view(members@)[0] == (e0.0@, jv_view(e0.1)));
        assert(jobj_view(members@)[1] == (e1.0@, jv_view(e1.1)));
        assert(jobj_view(members@) =~~= spec_post_body(req)->Obj_0);
    }
    RequestPlan {
        method: str_bytes("POST"),
        url,
        params: ParamMap::new(),
        body: Some(JsonValue::Obj(members)),
    }
}

/// Items joined with commas.
pub open spec fn spec_comma_join(s: Seq<Seq<u8>>) -> Seq<u8>
    decreases s.len(),
{
    if s.len() == 0 {
        Seq::empty()
    } else if s.len() == 1 {
        s[0]
    } else {
        s[0] + seq![0x2cu8] + spec_comma_join(s.drop_first())
    }
}

proof fn lemma_comma_join_push(s: Seq<Seq<u8>>, x: Seq<u8>)
    ensures
        s.len() == 0 ==> spec_comma_join(s.push(x)) == x,
        s.len() > 0 ==> spec_comma_join(s.push(x)) == spec_comma_join(s) + seq![0x2cu8] + x,
    decreases s.len(),
{
    if s.len() == 0 {
        assert(s.push(x).len() == 1);
        assert(s.push(x)[0] == x);
    } else {
        assert(s.push(x)[0] == s[0]);
        assert(s.push(x).drop_first() =~= s.drop_first().push(x));
        lemma_comma_join_push(s.drop_first(), x);
        if s.len() == 1 {
            assert(spec_comma_join(s.push(x)) =~= spec_comma_join(s) + seq![0x2cu8] + x);
        } else {
            assert(spec_comma_join(s.push(x)) =~= spec_comma_join(s) + seq![0x2cu8] + x);
        }
    }
}

/// Join the strings with commas, as the API's list-valued query parameters
/// want them.
pub fn join_comma(items: &Vec<String>) -> (r: Vec<u8>)
    ensures
        r@ == spec_comma_join(items@.map_values(|s: String| utf8_bytes(s@))),
{
    let ghost views = items@.map_values(|s: String| utf8_bytes(s@));
    let mut r: Vec<u8> = Vec::new();
    let mut i: usize = 0;
    proof {
        assert(views.take(0) =~= Seq::<Seq<u8>>::empty());
    }
    while i < items.len()
        invariant
            i <= items@.len(),
            views == items@.map_values(|s: String| utf8_bytes(s@)),
            views.len() == items@.len(),
            r@ == spec_comma_join(views.take(i as int)),
        decreases items@.len() - i,
    {
        if i > 0 {
            r.push(0x2c);
        }
        let item_bytes = str_bytes(items[i].as_str());
        push_all(&mut r, item_bytes.as_slice());
        proof {
            lemma_comma_join_push(views.take(i as int), views[i as int]);
            assert(views.take(i as int).push(views[i as int]) =~= views.take(i + 1));
            assert(views[i as int] == utf8_bytes(items@[i as int]@));
            assert(r@ =~= spec_comma_join(views.take(i + 1)));
        }
        i = i + 1;
    }
    proof {
        assert(views.take(views.len() as int) =~= views);
    }
    r
}

/// The canonical query parameters of a recent-search request.
pub open spec fn spec_search_query_params(p: SearchTweetsParams) -> Seq<(Seq<u8>, Seq<u8>)> {
    let s1 = sorted_insert(Seq::empty(), utf8_bytes("query"@), utf8_bytes(p.query@));
    let s2 = match p.max_results {
        Some(m) => sorted_insert(s1, utf8_bytes("max_results"@), dec_u64(m as nat)),
        None => s1,
    };
    let s3 = match p.tweet_fields {
        Some(fs) => sorted_insert(
            s2,
            utf8_bytes("tweet.fields"@),
            spec_comma_join(fs@.map_values(|s: String| utf8_bytes(s@))),
        ),
        None => s2,
    };
    let s4 = match p.user_fields {
        Some(fs) => sorted_insert(
            s3,
            utf8_bytes("user.fields"@),
            spec_comma_join(fs@.map_values(|s: String| utf8_bytes(s@))),
        ),
        None => s3,
    };
    match p.expansions {
        Some(fs) => sorted_insert(
            s4,
            utf8_bytes("expansions"@),
            spec_comma_join(fs@.map_values(|s: String| utf8_bytes(s@))),
        ),
        None => s4,
    }
}

/// Recent-search for tweets.
pub fn search_tweets_request(base_url: &Vec<u8>, p: SearchTweetsParams) -> (r: RequestPlan)
    ensures
        r.method@ == utf8_bytes("GET"@),
        r.url@ == base_url@ + utf8_bytes("/tweets/search/recent"@),
        r.params@ == spec_search_query_params(p),
        r.params.wf(),
        r.body is None,
{
    let mut url = base_url.clone();
    let seg = str_bytes("/tweets/search/recent");
    push_all(&mut url, seg.as_slice());
    let mut params = ParamMap::new();
    params.insert(str_bytes("query"), str_bytes(p.query.as_str()));
    match &p.max_results {
        Some(m) => {
            params.insert(str_bytes("max_results"), u64_to_decimal(*m as u64));
        },
        None => {},
    }
    match &p.tweet_fields {
        Some(fs) => {
            params.insert(str_bytes("tweet.fields"), join_comma(fs));
        },
        None => {},
    }
    match &p.user_fields {
        Some(fs) => {
            params.insert(str_bytes("user.fields"), join_comma(fs));
        },
        None => {},
    }
    match &p.expansions {
        Some(fs) => {
            params.insert(str_bytes("expansions"), join_comma(fs));
        },
        None => {},
    }
    proof {
        assert(url@ =~= base_url@ + utf8_bytes("/tweets/search/recent"@));
    }
    RequestPlan { method: str_bytes("GET"), url, params, body: None }
}

/// Fetch one tweet by id.
pub fn get_tweet_request(base_url: &Vec<u8>, tweet_id: &str) -> (r: RequestPlan)
    ensures
        r.method@ == utf8_bytes("GET"@),
        r.url@ == base_url@ + utf8_bytes("/tweets/"@) + utf8_bytes(tweet_id@),
        r.params@ == sorted_insert(
            sorted_insert(Seq::empty(), utf8_bytes("tweet.fields"@), spec_tweet_fields_get()),
            utf8_bytes("expansions"@),
            utf8_bytes("author_id"@),
        ),
        r.params.wf(),
        r.body is None,
{
    let mut url = base_url.clone();
    let seg = str_bytes("/tweets/");
    push_all(&mut url, seg.as_slice());
    let id_bytes = str_bytes(tweet_id);
    push_all(&mut url, id_bytes.as_slice());
    let mut params = ParamMap::new();
    params.insert(
        str_bytes("tweet.fields"),
        str_bytes("id,text,author_id,created_at,public_metrics,context_annotations,referenced_tweets"),
    );
    params.insert(str_bytes("expansions"), str_bytes("author_id"));
    proof {
        assert(url@ =~= base_url@ + utf8_bytes("/tweets/"@) + utf8_bytes(tweet_id@));
    }
    RequestPlan { method: str_bytes("GET"), url, params, body: None }
}

/// The canonical query parameters of a timeline request.
pub open spec fn spec_user_tweets_params(max_results: Option<u32>) -> Seq<(Seq<u8>, Seq<u8>)> {
    let s1 = sorted_insert(
        Seq::empty(),
        utf8_bytes("tweet.fields"@),
        spec_tweet_fields_timeline(),
    );
    match max_results {
        Some(m) => sorted_insert(s1, utf8_bytes("max_results"@), dec_u64(m as nat)),
        None => s1,
    }
}

/// Fetch a user's recent tweets.
pub fn user_tweets_request(base_url: &Vec<u8>, user_id: &Vec<u8>, max_results: Option<u32>) -> (r:
    RequestPlan)
    ensures
        r.method@ == utf8_bytes("GET"@),
        r.url@ == base_url@ + utf8_bytes("/users/"@) + user_id@ + utf8_bytes("/tweets"@),
        r.params@ == spec_user_tweets_params(max_results),
        r.params.wf(),
        r.body is None,
{
    let mut url = base_url.clone();
    let seg = str_bytes("/users/");
    push_all(&mut url, seg.as_slice());
    push_all(&mut url, user_id.as_slice());
    let seg2 = str_bytes("/tweets");
    push_all(&mut url, seg2.as_slice());
    let mut params = ParamMap::new();
    params.insert(
        str_bytes("tweet.fields"),
        str_bytes("id,text,author_id,created_at,public_metrics"),
    );
    match max_results {
        Some(m) => {
            params.insert(str_bytes("max_results"), u64_to_decimal(m as u64));
        },
        None => {},
    }
    proof {
        assert(url@ =~= base_url@ + utf8_bytes("/users/"@) + user_id@ + utf8_bytes("/tweets"@));
    }
    RequestPlan { method: str_bytes("GET"), url, params, body: None }
}

/// The `errors` array of a response is present and non-empty.
pub open spec fn spec_has_api_errors(v: JSpec) -> bool {
    match jget(v, utf8_bytes("errors"@)) {
        Some(errs) => errs matches JSpec::Arr(a) && a.len() > 0,
        None => false,
    }
}

/// A success status, as HTTP defines it.
pub open spec fn spec_status_ok(status: u16) -> bool {
    200 <= status < 300
}

/// Turn what the transport returned into the parsed response body, or the
/// error it stands for: transport failures, non-success statuses with the
/// body text, unparseable bodies, and responses carrying a non-empty
/// `errors` array.
pub fn interpret_response(outcome: HttpOutcome) -> (r: XResult<JsonValue>)
    ensures
        match outcome {
            HttpOutcome::Transport(m) => r matches Err(XError::Http(msg)) && msg@ == m@,
            HttpOutcome::Response { status, body } => {
                if !spec_status_ok(status) {
                    r matches Err(XError::Api { status: s2, message }) && s2 == status && (
                    vstd::utf8::valid_utf8(body@) ==> vstd::utf8::encode_utf8(message@) == body@)
                } else {
                    match sp_text(body@) {
                        None => r matches Err(XError::Json(_)),
                        Some(v) => if spec_has_api_errors(v) {
                            r matches Err(XError::Api { status: s2, .. }) && s2 == 400
                        } else {
                            r matches Ok(parsed) && parsed@ == v
                        },
                    }
                }
            },
        },
{
    match outcome {
        HttpOutcome::Transport(m) => Err(XError::Http(m)),
        HttpOutcome::Response { status, body } => {
            if !(200 <= status && status < 300) {
                let message = match utf8_to_string(body) {
                    Some(t) => t,
                    None => String::new(),
                };
                return Err(XError::Api { status, message });
            }
            match parse_json(body.as_slice()) {
                None => Err(
                    XError::Json(String::from_str("invalid JSON in response body")),
                ),
                Some(v) => {
                    let errors_key = str_bytes("errors");
                    let has_errors = match crate::json::get_field(&v, &errors_key) {
                        Some(errs) => match errs {
                            JsonValue::Arr(a) => a.len() > 0,
                            _ => false,
                        },
                        None => false,
                    };
                    if has_errors {
                        let mut message = String::from_str("API errors: ");
                        let errs = crate::json::get_field(&v, &errors_key);
                        match errs {
                            Some(e) => {
                                let rendered = to_json_bytes(e);
                                match utf8_to_string(rendered) {
                                    Some(t) => {
                                        message.append(t.as_str());
                                    },
                                    None => {},
                                }
                            },
                            None => {},
                        }
                        Err(XError::Api { status: 400, message })
                    } else {
                        Ok(v)
                    }
                },
            }
        },
    }
}

} // verus!
