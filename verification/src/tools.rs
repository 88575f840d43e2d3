//! MCP tools for X API operations: typed tool arguments decoded from the
//! request's `arguments` object, the request plan each tool issues, and the
//! `{success, ...}` envelope built from what the collaborator returned.

use vstd::prelude::*;
use vstd::utf8::valid_utf8;
use vstd::string::StrSliceExecFns;
use vstd::string::StringExecFns;
use crate::client::{RequestPlan, spec_user_fields, user_by_username_request,
    user_by_id_request, post_tweet_request, search_tweets_request, get_tweet_request,
    user_tweets_request, spec_search_query_params, spec_user_tweets_params};
use crate::encoding::{dec_u64, dec_val, lex_u32_ok, parse_u32_digits, u64_to_decimal,
    utf8_bytes, utf8_to_string};
use crate::error::{XError, XResult, spec_error_message};
use crate::json::{JsonValue, JSpec, jget, jarr_view, jobj_view, get_field, deep_clone,
    obj_push, lemma_jarr_view_index};
use crate::types::{PostTweetRequest, ReplySettings, SearchTweetsParams};

verus! {

/// Tool arguments for getting user information.
pub struct GetUserArgs {
    /// Username (without a leading `@`) or user ID.
    pub identifier: String,
    /// Whether the identifier is a user ID (true) or username (false).
    pub is_user_id: bool,
}

/// Tool arguments for posting a tweet.
pub struct PostTweetArgs {
    /// The text content of the tweet.
    pub text: String,
    /// Optional tweet ID to reply to.
    pub reply_to: Option<String>,
}

/// Tool arguments for searching tweets.
pub struct SearchTweetsArgs {
    /// Search query.
    pub query: String,
    /// Maximum number of results (default 10, capped at 100 when forwarded).
    pub max_results: u32,
    /// Include user information in results.
    pub include_users: bool,
    /// Include tweet metrics.
    pub include_metrics: bool,
}

/// Tool arguments for getting a specific tweet.
pub struct GetTweetArgs {
    /// The tweet ID.
    pub tweet_id: String,
}

/// Tool arguments for getting a user's tweets.
pub struct GetUserTweetsArgs {
    /// Username or user ID.
    pub identifier: String,
    /// Whether the identifier is a user ID (true) or username (false).
    pub is_user_id: bool,
    /// Maximum number of tweets to retrieve (default 10, capped at 100).
    pub max_results: u32,
}

/// The default for the optional result-count arguments.
pub fn default_max_results() -> (r: u32)
    ensures
        r == 10,
{
    10
}

// ------------------------------------------------------------------
// Argument decoding
// ------------------------------------------------------------------

/// A required string field is present, a string, and valid UTF-8.
pub open spec fn str_field_ok(v: JSpec, k: Seq<char>) -> bool {
    &&& jget(v, utf8_bytes(k)) matches Some(f)
    &&& jget(v, utf8_bytes(k))->Some_0 matches JSpec::Str(b)
    &&& valid_utf8(jget(v, utf8_bytes(k))->Some_0->Str_0)
}

/// The bytes of a string field.
pub open spec fn str_field(v: JSpec, k: Seq<char>) -> Seq<u8> {
    jget(v, utf8_bytes(k))->Some_0->Str_0
}

/// An optional string field is absent, `null`, or a valid UTF-8 string.
pub open spec fn opt_str_field_ok(v: JSpec, k: Seq<char>) -> bool {
    match jget(v, utf8_bytes(k)) {
        None => true,
        Some(f) => match f {
            JSpec::Null => true,
            JSpec::Str(b) => valid_utf8(b),
            _ => false,
        },
    }
}

/// The bytes of an optional string field, when it holds a string.
pub open spec fn opt_str_field(v: JSpec, k: Seq<char>) -> Option<Seq<u8>> {
    match jget(v, utf8_bytes(k)) {
        Some(f) => match f {
            JSpec::Str(b) => Some(b),
            _ => None,
        },
        None => None,
    }
}

/// A defaulted boolean field is absent or a boolean.
pub open spec fn bool_field_ok(v: JSpec, k: Seq<char>) -> bool {
    match jget(v, utf8_bytes(k)) {
        None => true,
        Some(f) => f is Bool,
    }
}

/// The value of a defaulted boolean field; false when absent.
pub open spec fn bool_field(v: JSpec, k: Seq<char>) -> bool {
    match jget(v, utf8_bytes(k)) {
        Some(f) => f matches JSpec::Bool(b) && b,
        None => false,
    }
}

/// A defaulted count field is absent or an unsigned integer in range.
pub open spec fn u32_field_ok(v: JSpec, k: Seq<char>) -> bool {
    match jget(v, utf8_bytes(k)) {
        None => true,
        Some(f) => f matches JSpec::Num(lx) && lex_u32_ok(lx),
    }
}

/// The value of a defaulted count field; 10 when absent.
pub open spec fn u32_field(v: JSpec, k: Seq<char>) -> u32 {
    match jget(v, utf8_bytes(k)) {
        Some(f) => match f {
            JSpec::Num(lx) => dec_val(lx) as u32,
            _ => 10,
        },
        None => 10,
    }
}

fn key_bytes(k: &str) -> (r: Vec<u8>)
    ensures
        r@ == utf8_bytes(k@),
{
    k.as_bytes_vec()
}

fn json_err(msg: &str) -> (r: XError)
    ensures
        r matches XError::Json(m) && m@ == msg@,
{
    XError::Json(String::from_str(msg))
}

/// Decode a required string field.
fn decode_str_field(v: &JsonValue, k: &str) -> (r: Option<String>)
    ensures
        match r {
            Some(s) => str_field_ok(v@, k@) && utf8_bytes(s@) == str_field(v@, k@),
            None => !str_field_ok(v@, k@),
        },
{
    let kb = key_bytes(k);
    match get_field(v, &kb) {
        Some(f) => match f {
            JsonValue::Str(b) => utf8_to_string(b.clone()),
            _ => None,
        },
        None => None,
    }
}

/// Decode an optional string field: absent and `null` both mean none.
fn decode_opt_str_field(v: &JsonValue, k: &str) -> (r: Result<Option<String>, ()>)
    ensures
        match r {
            Ok(o) => opt_str_field_ok(v@, k@) && (match o {
                Some(s) => opt_str_field(v@, k@) == Some(utf8_bytes(s@)),
                None => opt_str_field(v@, k@) is None,
            }),
            Err(_) => !opt_str_field_ok(v@, k@),
        },
{
    let kb = key_bytes(k);
    match get_field(v, &kb) {
        Some(f) => match f {
            JsonValue::Null => Ok(None),
            JsonValue::Str(b) => match utf8_to_string(b.clone()) {
                Some(s) => Ok(Some(s)),
                None => Err(()),
            },
            _ => Err(()),
        },
        None => Ok(None),
    }
}

/// Decode a defaulted boolean field.
fn decode_bool_field(v: &JsonValue, k: &str) -> (r: Result<bool, ()>)
    ensures
        match r {
            Ok(b) => bool_field_ok(v@, k@) && b == bool_field(v@, k@),
            Err(_) => !bool_field_ok(v@, k@),
        },
{
    let kb = key_bytes(k);
    match get_field(v, &kb) {
        Some(f) => match f {
            JsonValue::Bool(b) => Ok(*b),
            _ => Err(()),
        },
        None => Ok(false),
    }
}

/// Decode a defaulted count field.
fn decode_u32_field(v: &JsonValue, k: &str) -> (r: Result<u32, ()>)
    ensures
        match r {
            Ok(n) => u32_field_ok(v@, k@) && n == u32_field(v@, k@),
            Err(_) => !u32_field_ok(v@, k@),
        },
{
    let kb = key_bytes(k);
    match get_field(v, &kb) {
        Some(f) => match f {
            JsonValue::Num(lx) => match parse_u32_digits(lx) {
                Some(n) => Ok(n),
                None => Err(()),
            },
            _ => Err(()),
        },
        None => Ok(10),
    }
}

/// The `get_user` arguments decode.
pub open spec fn spec_get_user_args_ok(v: JSpec) -> bool {
    str_field_ok(v, "identifier"@) && bool_field_ok(v, "is_user_id"@)
}

/// Decode `get_user` arguments: a required identifier and an optional flag.
pub fn decode_get_user_args(v: &JsonValue) -> (r: XResult<GetUserArgs>)
    ensures
        match r {
            Ok(a) => spec_get_user_args_ok(v@) && utf8_bytes(a.identifier@) == str_field(
                v@,
                "identifier"@,
            ) && a.is_user_id == bool_field(v@, "is_user_id"@),
            Err(e) => !spec_get_user_args_ok(v@) && e matches XError::Json(_),
        },
{
    let identifier = match decode_str_field(v, "identifier") {
        Some(s) => s,
        None => {
            return Err(json_err("missing or invalid field: identifier"));
        },
    };
    let is_user_id = match decode_bool_field(v, "is_user_id") {
        Ok(b) => b,
        Err(_) => {
            return Err(json_err("invalid field: is_user_id"));
        },
    };
    Ok(GetUserArgs { identifier, is_user_id })
}

/// The `post_tweet` arguments decode.
pub open spec fn spec_post_tweet_args_ok(v: JSpec) -> bool {
    str_field_ok(v, "text"@) && opt_str_field_ok(v, "reply_to"@)
}

/// Decode `post_tweet` arguments: the text, and an optional reply target.
pub fn decode_post_tweet_args(v: &JsonValue) -> (r: XResult<PostTweetArgs>)
    ensures
        match r {
            Ok(a) => spec_post_tweet_args_ok(v@) && utf8_bytes(a.text@) == str_field(v@, "text"@)
                && (match a.reply_to {
                Some(t) => opt_str_field(v@, "reply_to"@) == Some(utf8_bytes(t@)),
                None => opt_str_field(v@, "reply_to"@) is None,
            }),
            Err(e) => !spec_post_tweet_args_ok(v@) && e matches XError::Json(_),
        },
{
    let text = match decode_str_field(v, "text") {
        Some(s) => s,
        None => {
            return Err(json_err("missing or invalid field: text"));
        },
    };
    let reply_to = match decode_opt_str_field(v, "reply_to") {
        Ok(o) => o,
        Err(_) => {
            return Err(json_err("invalid field: reply_to"));
        },
    };
    Ok(PostTweetArgs { text, reply_to })
}

/// The `search_tweets` arguments decode.
pub open spec fn spec_search_tweets_args_ok(v: JSpec) -> bool {
    str_field_ok(v, "query"@) && u32_field_ok(v, "max_results"@) && bool_field_ok(
        v,
        "include_users"@,
    ) && bool_field_ok(v, "include_metrics"@)
}

/// Decode `search_tweets` arguments.
pub fn decode_search_tweets_args(v: &JsonValue) -> (r: XResult<SearchTweetsArgs>)
    ensures
        match r {
            Ok(a) => spec_search_tweets_args_ok(v@) && utf8_bytes(a.query@) == str_field(
                v@,
                "query"@,
            ) && a.max_results == u32_field(v@, "max_results"@) && a.include_users == bool_field(
                v@,
                "include_users"@,
            ) && a.include_metrics == bool_field(v@, "include_metrics"@),
            Err(e) => !spec_search_tweets_args_ok(v@) && e matches XError::Json(_),
        },
{
    let query = match decode_str_field(v, "query") {
        Some(s) => s,
        None => {
            return Err(json_err("missing or invalid field: query"));
        },
    };
    let max_results = match decode_u32_field(v, "max_results") {
        Ok(n) => n,
        Err(_) => {
            return Err(json_err("invalid field: max_results"));
        },
    };
    let include_users = match decode_bool_field(v, "include_users") {
        Ok(b) => b,
        Err(_) => {
            return Err(json_err("invalid field: include_users"));
        },
    };
    let include_metrics = match decode_bool_field(v, "include_metrics") {
        Ok(b) => b,
        Err(_) => {
            return Err(json_err("invalid field: include_metrics"));
        },
    };
    Ok(SearchTweetsArgs { query, max_results, include_users, include_metrics })
}

/// The `get_tweet` arguments decode.
pub open spec fn spec_get_tweet_args_ok(v: JSpec) -> bool {
    str_field_ok(v, "tweet_id"@)
}

/// Decode `get_tweet` arguments.
pub fn decode_get_tweet_args(v: &JsonValue) -> (r: XResult<GetTweetArgs>)
    ensures
        match r {
            Ok(a) => spec_get_tweet_args_ok(v@) && utf8_bytes(a.tweet_id@) == str_field(
                v@,
                "tweet_id"@,
            ),
            Err(e) => !spec_get_tweet_args_ok(v@) && e matches XError::Json(_),
        },
{
    let tweet_id = match decode_str_field(v, "tweet_id") {
        Some(s) => s,
        None => {
            return Err(json_err("missing or invalid field: tweet_id"));
        },
    };
    Ok(GetTweetArgs { tweet_id })
}

/// The `get_user_tweets` arguments decode.
pub open spec fn spec_get_user_tweets_args_ok(v: JSpec) -> bool {
    str_field_ok(v, "identifier"@) && bool_field_ok(v, "is_user_id"@) && u32_field_ok(
        v,
        "max_results"@,
    )
}

/// Decode `get_user_tweets` arguments.
pub fn decode_get_user_tweets_args(v: &JsonValue) -> (r: XResult<GetUserTweetsArgs>)
    ensures
        match r {
            Ok(a) => spec_get_user_tweets_args_ok(v@) && utf8_bytes(a.identifier@) == str_field(
                v@,
                "identifier"@,
            ) && a.is_user_id == bool_field(v@, "is_user_id"@) && a.max_results == u32_field(
                v@,
                "max_results"@,
            ),
            Err(e) => !spec_get_user_tweets_args_ok(v@) && e matches XError::Json(_),
        },
{
    let identifier = match decode_str_field(v, "identifier") {
        Some(s) => s,
        None => {
            return Err(json_err("missing or invalid field: identifier"));
        },
    };
    let is_user_id = match decode_bool_field(v, "is_user_id") {
        Ok(b) => b,
        Err(_) => {
            return Err(json_err("invalid field: is_user_id"));
        },
    };
    let max_results = match decode_u32_field(v, "max_results") {
        Ok(n) => n,
        Err(_) => {
            return Err(json_err("invalid field: max_results"));
        },
    };
    Ok(GetUserTweetsArgs { identifier, is_user_id, max_results })
}

// ------------------------------------------------------------------
// Envelopes
// ------------------------------------------------------------------

/// The business-failure envelope: `{"success": false, "error": msg}`.
pub open spec fn spec_fail_envelope(msg: Seq<u8>) -> JSpec {
    JSpec::Obj(
        seq![
            (utf8_bytes("success"@), JSpec::Bool(false)),
            (utf8_bytes("error"@), JSpec::Str(msg)),
        ],
    )
}

/// The success envelope with one named payload value.
pub open spec fn spec_success_envelope(key: Seq<char>, value: JSpec) -> JSpec {
    JSpec::Obj(
        seq![(utf8_bytes("success"@), JSpec::Bool(true)), (utf8_bytes(key), value)],
    )
}

/// Build a failure envelope.
pub fn fail_envelope(msg: Vec<u8>) -> (r: JsonValue)
    ensures
        r@ == spec_fail_envelope(msg@),
{
    let ghost m = msg@;
    let mut members: Vec<(Vec<u8>, JsonValue)> = Vec::new();
    proof {
        assert(jobj_view(members@) =~= Seq::<(Seq<u8>, JSpec)>::empty());
    }
    obj_push(&mut members, "success", JsonValue::Bool(false));
    obj_push(&mut members, "error", JsonValue::Str(msg));
    proof {
        assert(jobj_view(members@) =~= spec_fail_envelope(m)->Obj_0);
    }
    JsonValue::Obj(members)
}

/// Build a failure envelope from an error's rendered message.
pub fn fail_envelope_of(e: &XError) -> (r: JsonValue)
    ensures
        r@ == spec_fail_envelope(utf8_bytes(spec_error_message(*e))),
{
    let msg = e.message();
    fail_envelope(msg.as_str().as_bytes_vec())
}

/// Build a one-payload success envelope.
pub fn success_envelope(key: &str, value: JsonValue) -> (r: JsonValue)
    ensures
        r@ == spec_success_envelope(key@, value@),
{
    let ghost kv = key@;
    let ghost vv = value@;
    let mut members: Vec<(Vec<u8>, JsonValue)> = Vec::new();
    proof {
        assert(jobj_view(members@) =~= Seq::<(Seq<u8>, JSpec)>::empty());
    }
    obj_push(&mut members, "success", JsonValue::Bool(true));
    obj_push(&mut members, key, value);
    proof {
        assert(jobj_view(members@) =~= spec_success_envelope(kv, vv)->Obj_0);
    }
    JsonValue::Obj(members)
}

/// The `data` value of a parsed response, when present and not `null`.
pub open spec fn spec_data_of(v: JSpec) -> Option<JSpec> {
    match jget(v, utf8_bytes("data"@)) {
        Some(d) => if d is Null {
            None
        } else {
            Some(d)
        },
        None => None,
    }
}

/// Take the `data` value out of a parsed response.
pub fn data_of(v: &JsonValue) -> (r: Option<JsonValue>)
    ensures
        match r {
            Some(d) => spec_data_of(v@) == Some(d@),
            None => spec_data_of(v@) is None,
        },
{
    let kb = key_bytes("data");
    match get_field(v, &kb) {
        Some(d) => match d {
            JsonValue::Null => None,
            _ => Some(deep_clone(d)),
        },
        None => None,
    }
}

/// The envelope of a profile fetch: the user on success, `User not found`
/// when the response carried no data.
pub open spec fn spec_get_user_env(v: JSpec) -> JSpec {
    match spec_data_of(v) {
        Some(d) => spec_success_envelope("user"@, d),
        None => spec_fail_envelope(utf8_bytes("User not found"@)),
    }
}

/// Build the `get_user` envelope from a parsed response body.
pub fn get_user_envelope(v: &JsonValue) -> (r: JsonValue)
    ensures
        r@ == spec_get_user_env(v@),
{
    match data_of(v) {
        Some(d) => success_envelope("user", d),
        None => fail_envelope(key_bytes("User not found")),
    }
}

/// The envelope of a post: the created tweet, or an API error when no data
/// came back.
pub open spec fn spec_post_tweet_env(v: JSpec) -> JSpec {
    match spec_data_of(v) {
        Some(d) => spec_success_envelope("tweet"@, d),
        None => spec_fail_envelope(
            utf8_bytes(
                "X API error: "@ + dec_u64(400).map_values(|b: u8| b as char) + " - "@
                    + "No data returned from post tweet"@,
            ),
        ),
    }
}

/// Build the `post_tweet` envelope from a parsed response body.
pub fn post_tweet_envelope(v: &JsonValue) -> (r: JsonValue)
    ensures
        r@ == spec_post_tweet_env(v@),
{
    match data_of(v) {
        Some(d) => success_envelope("tweet", d),
        None => {
            let e = XError::Api {
                status: 400,
                message: String::from_str("No data returned from post tweet"),
            };
            fail_envelope_of(&e)
        },
    }
}

/// The tweets and count of a search or timeline response: the `data` array,
/// or empty when the response carried none.
pub open spec fn spec_tweets_of(v: JSpec) -> Seq<JSpec> {
    match jget(v, utf8_bytes("data"@)) {
        Some(d) => match d {
            JSpec::Arr(a) => a,
            _ => Seq::empty(),
        },
        None => Seq::empty(),
    }
}

/// Take the `data` array out of a parsed response; empty when missing.
pub fn tweets_of(v: &JsonValue) -> (r: Vec<JsonValue>)
    ensures
        jarr_view(r@) == spec_tweets_of(v@),
{
    let kb = key_bytes("data");
    match get_field(v, &kb) {
        Some(d) => match d {
            JsonValue::Arr(_) => match deep_clone(d) {
                JsonValue::Arr(items) => items,
                _ => Vec::new(),
            },
            _ => {
                let r: Vec<JsonValue> = Vec::new();
                proof {
                    assert(jarr_view(r@) =~= Seq::<JSpec>::empty());
                }
                r
            },
        },
        None => {
            let r: Vec<JsonValue> = Vec::new();
            proof {
                assert(jarr_view(r@) =~= Seq::<JSpec>::empty());
            }
            r
        },
    }
}

/// The envelope of a search: the tweets and their count.
pub open spec fn spec_search_env(v: JSpec) -> JSpec {
    let tweets = spec_tweets_of(v);
    JSpec::Obj(
        seq![
            (utf8_bytes("success"@), JSpec::Bool(true)),
            (utf8_bytes("tweets"@), JSpec::Arr(tweets)),
            (utf8_bytes("count"@), JSpec::Num(dec_u64(tweets.len() as nat))),
        ],
    )
}

/// Build the `search_tweets` envelope from a parsed response body.
pub fn search_tweets_envelope(v: &JsonValue) -> (r: JsonValue)
    ensures
        r@ == spec_search_env(v@),
{
    let tweets = tweets_of(v);
    let count = tweets.len();
    proof {
        lemma_jarr_view_index(tweets@);
    }
    let mut members: Vec<(Vec<u8>, JsonValue)> = Vec::new();
    proof {
        assert(jobj_view(members@) =~= Seq::<(Seq<u8>, JSpec)>::empty());
    }
    obj_push(&mut members, "success", JsonValue::Bool(true));
    obj_push(&mut members, "tweets", JsonValue::Arr(tweets));
    obj_push(&mut members, "count", JsonValue::Num(u64_to_decimal(count as u64)));
    proof {
        assert(jobj_view(members@) =~~= spec_search_env(v@)->Obj_0);
    }
    JsonValue::Obj(members)
}

/// The envelope of a tweet fetch.
pub open spec fn spec_get_tweet_env(v: JSpec) -> JSpec {
    match spec_data_of(v) {
        Some(d) => spec_success_envelope("tweet"@, d),
        None => spec_fail_envelope(utf8_bytes("Tweet not found"@)),
    }
}

/// Build the `get_tweet` envelope from a parsed response body.
pub fn get_tweet_envelope(v: &JsonValue) -> (r: JsonValue)
    ensures
        r@ == spec_get_tweet_env(v@),
{
    match data_of(v) {
        Some(d) => success_envelope("tweet", d),
        None => fail_envelope(key_bytes("Tweet not found")),
    }
}

/// The envelope of a timeline fetch: tweets, count and the resolved user id.
pub open spec fn spec_user_tweets_env(v: JSpec, user_id: Seq<u8>) -> JSpec {
    let tweets = spec_tweets_of(v);
    JSpec::Obj(
        seq![
            (utf8_bytes("success"@), JSpec::Bool(true)),
            (utf8_bytes("tweets"@), JSpec::Arr(tweets)),
            (utf8_bytes("count"@), JSpec::Num(dec_u64(tweets.len() as nat))),
            (utf8_bytes("user_id"@), JSpec::Str(user_id)),
        ],
    )
}

/// Build the `get_user_tweets` envelope from a parsed response body.
pub fn user_tweets_envelope(v: &JsonValue, user_id: Vec<u8>) -> (r: JsonValue)
    ensures
        r@ == spec_user_tweets_env(v@, user_id@),
{
    let ghost uid = user_id@;
    let tweets = tweets_of(v);
    let count = tweets.len();
    proof {
        lemma_jarr_view_index(tweets@);
    }
    let mut members: Vec<(Vec<u8>, JsonValue)> = Vec::new();
    proof {
        assert(jobj_view(members@) =~= Seq::<(Seq<u8>, JSpec)>::empty());
    }
    obj_push(&mut members, "success", JsonValue::Bool(true));
    obj_push(&mut members, "tweets", JsonValue::Arr(tweets));
    obj_push(&mut members, "count", JsonValue::Num(u64_to_decimal(count as u64)));
    obj_push(&mut members, "user_id", JsonValue::Str(user_id));
    proof {
        assert(jobj_view(members@) =~~= spec_user_tweets_env(v@, uid)->Obj_0);
    }
    JsonValue::Obj(members)
}

/// The id of the user a resolution response names, when it names one.
pub open spec fn spec_resolved_user_id(v: JSpec) -> Option<Seq<u8>> {
    match spec_data_of(v) {
        Some(d) => match jget(d, utf8_bytes("id"@)) {
            Some(f) => match f {
                JSpec::Str(b) => Some(b),
                _ => None,
            },
            None => None,
        },
        None => None,
    }
}

/// Take the resolved user id out of a resolution response.
pub fn resolved_user_id(v: &JsonValue) -> (r: Option<Vec<u8>>)
    ensures
        match r {
            Some(uid) => spec_resolved_user_id(v@) == Some(uid@),
            None => spec_resolved_user_id(v@) is None,
        },
{
    let kb = key_bytes("data");
    match get_field(v, &kb) {
        Some(d) => match d {
            JsonValue::Null => None,
            _ => {
                let idk = key_bytes("id");
                match get_field(d, &idk) {
                    Some(f) => match f {
                        JsonValue::Str(b) => Some(b.clone()),
                        _ => None,
                    },
                    None => None,
                }
            },
        },
        None => None,
    }
}

// ------------------------------------------------------------------
// Tool request plans
// ------------------------------------------------------------------

/// The request a `get_user` call issues: a profile fetch by id or username.
pub fn get_user_plan(args: &GetUserArgs, base_url: &Vec<u8>) -> (r: RequestPlan)
    ensures
        r.method@ == utf8_bytes("GET"@),
        args.is_user_id ==> r.url@ == base_url@ + utf8_bytes("/users/"@) + utf8_bytes(
            args.identifier@,
        ),
        !args.is_user_id ==> r.url@ == base_url@ + utf8_bytes("/users/by/username/"@)
            + utf8_bytes(args.identifier@),
        r.params@ == crate::params::sorted_insert(
            Seq::empty(),
            utf8_bytes("user.fields"@),
            spec_user_fields(),
        ),
        r.params.wf(),
        r.body is None,
{
    if args.is_user_id {
        user_by_id_request(base_url, args.identifier.as_str())
    } else {
        user_by_username_request(base_url, args.identifier.as_str())
    }
}

/// The request a `post_tweet` call issues.
pub fn post_tweet_plan(args: &PostTweetArgs, base_url: &Vec<u8>) -> (r: RequestPlan)
    ensures
        r.method@ == utf8_bytes("POST"@),
        r.url@ == base_url@ + utf8_bytes("/tweets"@),
        r.params@ == Seq::<(Seq<u8>, Seq<u8>)>::empty(),
        r.params.wf(),
        r.body matches Some(b) && b@ == crate::client::spec_post_body_parts(
            utf8_bytes(args.text@),
            if args.reply_to is Some {
                Some(Some(utf8_bytes(args.reply_to->Some_0@)))
            } else {
                None
            },
        ),
{
    let reply = match &args.reply_to {
        Some(tid) => {
            proof {
                assert(args.reply_to == Some(*tid));
            }
            Some(ReplySettings { in_reply_to_tweet_id: Some(clone_string(tid)) })
        },
        None => None,
    };
    let req = PostTweetRequest { text: clone_string(&args.text), reply };
    let ghost reqg = req;
    let r = post_tweet_request(base_url, req);
    proof {
        if args.reply_to is Some {
            assert(reqg.reply matches Some(st) && st.in_reply_to_tweet_id matches Some(t2) && t2@
                == args.reply_to->Some_0@);
            assert(crate::client::spec_reply_parts(reqg) == Some(
                Some(utf8_bytes(args.reply_to->Some_0@)),
            ));
        } else {
            assert(reqg.reply is None);
        }
    }
    r
}

fn clone_string(s: &String) -> (r: String)
    ensures
        r@ == s@,
{
    String::from_str(s.as_str())
}

/// The clamp every forwarded result count goes through: at most 100, never
/// rejected.
pub open spec fn spec_clamped(n: u32) -> u32 {
    if n > 100 {
        100u32
    } else {
        n
    }
}

/// The search request of a `search_tweets` call: the query as given, the
/// count clamped to at most 100, and field selection driven by the flags.
pub open spec fn spec_search_plan_ok(
    query: Seq<u8>,
    max_results: u32,
    include_users: bool,
    include_metrics: bool,
    plan: RequestPlan,
) -> bool {
    exists|p: SearchTweetsParams|
        {
            &&& #[trigger] spec_search_query_params(p) == plan.params@
            &&& utf8_bytes(p.query@) == query
            &&& p.max_results == Some(spec_clamped(max_results))
            &&& p.tweet_fields matches Some(fs) && fs@.map_values(
                |s: String| utf8_bytes(s@),
            ) == (if include_metrics {
                seq![
                    utf8_bytes("id"@),
                    utf8_bytes("text"@),
                    utf8_bytes("author_id"@),
                    utf8_bytes("created_at"@),
                    utf8_bytes("public_metrics"@),
                ]
            } else {
                seq![
                    utf8_bytes("id"@),
                    utf8_bytes("text"@),
                    utf8_bytes("author_id"@),
                    utf8_bytes("created_at"@),
                ]
            })
            &&& (include_users ==> (p.user_fields matches Some(us) && us@.map_values(
                |s: String| utf8_bytes(s@),
            ) == seq![utf8_bytes("id"@), utf8_bytes("name"@), utf8_bytes("username"@)]) && (
            p.expansions matches Some(es) && es@.map_values(|s: String| utf8_bytes(s@)) == seq![
                utf8_bytes("author_id"@),
            ]))
            &&& (!include_users ==> p.user_fields is None && p.expansions is None)
        }
}

/// The search request a `search_tweets` call issues: field selection driven
/// by the flags, and `max_results` silently capped at 100.
pub fn search_tweets_plan(args: &SearchTweetsArgs, base_url: &Vec<u8>) -> (r: RequestPlan)
    ensures
        r.method@ == utf8_bytes("GET"@),
        r.url@ == base_url@ + utf8_bytes("/tweets/search/recent"@),
        r.body is None,
        r.params.wf(),
        spec_search_plan_ok(
            utf8_bytes(args.query@),
            args.max_results,
            args.include_users,
            args.include_metrics,
            r,
        ),
{
    let mut tweet_fields: Vec<String> = Vec::new();
    tweet_fields.push(clone_str("id"));
    tweet_fields.push(clone_str("text"));
    tweet_fields.push(clone_str("author_id"));
    tweet_fields.push(clone_str("created_at"));
    if args.include_metrics {
        tweet_fields.push(clone_str("public_metrics"));
    }
    let mut user_fields: Vec<String> = Vec::new();
    let mut expansions: Vec<String> = Vec::new();
    if args.include_users {
        user_fields.push(clone_str("id"));
        user_fields.push(clone_str("name"));
        user_fields.push(clone_str("username"));
        expansions.push(clone_str("author_id"));
    }
    let max = if args.max_results > 100 {
        100
    } else {
        args.max_results
    };
    let p = SearchTweetsParams {
        query: clone_string(&args.query),
        max_results: Some(max),
        tweet_fields: Some(tweet_fields),
        user_fields: if args.include_users {
            Some(user_fields)
        } else {
            None
        },
        expansions: if args.include_users {
            Some(expansions)
        } else {
            None
        },
    };
    let ghost pg = p;
    let r = search_tweets_request(base_url, p);
    proof {
        assert(spec_search_query_params(pg) == r.params@);
        if args.include_metrics {
            assert(pg.tweet_fields->Some_0@.map_values(|s: String| utf8_bytes(s@)) =~= seq![
                utf8_bytes("id"@),
                utf8_bytes("text"@),
                utf8_bytes("author_id"@),
                utf8_bytes("created_at"@),
                utf8_bytes("public_metrics"@),
            ]);
        } else {
            assert(pg.tweet_fields->Some_0@.map_values(|s: String| utf8_bytes(s@)) =~= seq![
                utf8_bytes("id"@),
                utf8_bytes("text"@),
                utf8_bytes("author_id"@),
                utf8_bytes("created_at"@),
            ]);
        }
        if args.include_users {
            assert(pg.user_fields->Some_0@.map_values(|s: String| utf8_bytes(s@)) =~= seq![
                utf8_bytes("id"@),
                utf8_bytes("name"@),
                utf8_bytes("username"@),
            ]);
            assert(pg.expansions->Some_0@.map_values(|s: String| utf8_bytes(s@)) =~= seq![
                utf8_bytes("author_id"@),
            ]);
        }
    }
    r
}

fn clone_str(s: &str) -> (r: String)
    ensures
        r@ == s@,
{
    String::from_str(s)
}

/// The request a `get_tweet` call issues.
pub fn get_tweet_plan(args: &GetTweetArgs, base_url: &Vec<u8>) -> (r: RequestPlan)
    ensures
        r.method@ == utf8_bytes("GET"@),
        r.url@ == base_url@ + utf8_bytes("/tweets/"@) + utf8_bytes(args.tweet_id@),
        r.params.wf(),
        r.body is None,
{
    get_tweet_request(base_url, args.tweet_id.as_str())
}

/// The timeline request a `get_user_tweets` call issues once the user id is
/// known, with the count capped at 100.
pub fn user_tweets_fetch_plan(base_url: &Vec<u8>, user_id: &Vec<u8>, max_results: u32) -> (r:
    RequestPlan)
    ensures
        r.method@ == utf8_bytes("GET"@),
        r.url@ == base_url@ + utf8_bytes("/users/"@) + user_id@ + utf8_bytes("/tweets"@),
        r.params@ == spec_user_tweets_params(Some(spec_clamped(max_results))),
        r.params.wf(),
        r.body is None,
{
    let max = if max_results > 100 {
        100
    } else {
        max_results
    };
    user_tweets_request(base_url, user_id, Some(max))
}

} // verus!
