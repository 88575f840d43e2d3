//! The MCP dispatcher: one JSON object per input line, one JSON object per
//! reply line.
//!
//! A line that does not parse is dropped silently. A parsed request is
//! routed by its `method`: `initialize` and `tools/list` answer from static
//! configuration, `tools/call` becomes an HTTP request plan for the
//! transport to perform, and anything else gets the JSON-RPC
//! method-not-found error. Every reply carries the id of the request that
//! produced it; that correlation is the ensures of every function here.

use vstd::prelude::*;
use vstd::string::StrSliceExecFns;
use vstd::utf8::is_ascii_chars;
use vstd::utf8::is_ascii_chars_encode_utf8;
use crate::client::{RequestPlan, HttpOutcome, interpret_response, spec_user_fields,
    spec_status_ok, spec_has_api_errors, spec_user_tweets_params};
use crate::encoding::{utf8_bytes, push_all};
use crate::error::{XError, spec_error_message};
use crate::json::{JsonValue, JSpec, jget, jobj_view, jarr_view, obj_lookup, get_field,
    deep_clone, obj_push, arr_push, jstr, to_json_bytes, parse_json, ser, sp_text};
use crate::params::sorted_insert;
use crate::tools::{spec_get_user_args_ok, spec_post_tweet_args_ok, spec_search_tweets_args_ok,
    spec_get_tweet_args_ok, spec_get_user_tweets_args_ok, decode_get_user_args,
    decode_post_tweet_args, decode_search_tweets_args, decode_get_tweet_args,
    decode_get_user_tweets_args, str_field, bool_field, u32_field, opt_str_field, spec_clamped,
    spec_search_plan_ok, spec_fail_envelope, spec_get_user_env, spec_post_tweet_env,
    spec_search_env, spec_get_tweet_env, spec_user_tweets_env, spec_resolved_user_id,
    get_user_plan, post_tweet_plan, search_tweets_plan, get_tweet_plan, user_tweets_fetch_plan,
    get_user_envelope, post_tweet_envelope, search_tweets_envelope, get_tweet_envelope,
    user_tweets_envelope, resolved_user_id, fail_envelope, fail_envelope_of};

verus! {

/// What a tool invocation still has to do once its HTTP call returns.
pub enum Cont {
    GetUser,
    PostTweet,
    SearchTweets,
    GetTweet,
    /// Resolving a username first; holds the requested count.
    UserTweetsResolve(u32),
    /// Fetching the timeline of this user id.
    UserTweetsFetch(Vec<u8>),
}

/// An in-flight tool invocation: the request id to answer under, and the
/// continuation.
pub struct Pending {
    pub id: JsonValue,
    pub cont: Cont,
}

/// What one dispatch step decided: reply now, or perform an HTTP request
/// and continue.
pub enum Step {
    Reply(JsonValue),
    Call { plan: RequestPlan, pending: Pending },
}

/// What one input line produces: nothing, a serialized reply line, or an
/// HTTP request to perform.
pub enum LineOutcome {
    Silent,
    Reply(Vec<u8>),
    Call { plan: RequestPlan, pending: Pending },
}

// ------------------------------------------------------------------
// Request readers
// ------------------------------------------------------------------

/// The request's `id`, echoed verbatim into the reply; null when absent.
pub open spec fn spec_req_id(req: JSpec) -> JSpec {
    match jget(req, utf8_bytes("id"@)) {
        Some(v) => v,
        None => JSpec::Null,
    }
}

/// The request's `method`; empty when absent or not a string.
pub open spec fn spec_method(req: JSpec) -> Seq<u8> {
    match jget(req, utf8_bytes("method"@)) {
        Some(m) => match m {
            JSpec::Str(b) => b,
            _ => Seq::empty(),
        },
        None => Seq::empty(),
    }
}

/// The request's `params`; null when absent.
pub open spec fn spec_params(req: JSpec) -> JSpec {
    match jget(req, utf8_bytes("params"@)) {
        Some(p) => p,
        None => JSpec::Null,
    }
}

/// The tool name of a `tools/call`; empty when absent or not a string.
pub open spec fn spec_call_name(req: JSpec) -> Seq<u8> {
    match jget(spec_params(req), utf8_bytes("name"@)) {
        Some(n) => match n {
            JSpec::Str(b) => b,
            _ => Seq::empty(),
        },
        None => Seq::empty(),
    }
}

/// The tool arguments of a `tools/call`; null when absent.
pub open spec fn spec_call_args(req: JSpec) -> JSpec {
    match jget(spec_params(req), utf8_bytes("arguments"@)) {
        Some(a) => a,
        None => JSpec::Null,
    }
}

/// The three methods the dispatcher understands.
pub open spec fn known_method(m: Seq<u8>) -> bool {
    m == utf8_bytes("initialize"@) || m == utf8_bytes("tools/list"@) || m == utf8_bytes(
        "tools/call"@,
    )
}

/// The five tools of the routing table.
pub open spec fn known_tool(n: Seq<u8>) -> bool {
    n == utf8_bytes("get_user"@) || n == utf8_bytes("post_tweet"@) || n == utf8_bytes(
        "search_tweets"@,
    ) || n == utf8_bytes("get_tweet"@) || n == utf8_bytes("get_user_tweets"@)
}

/// Whether the named tool's arguments decode.
pub open spec fn spec_tool_args_ok(name: Seq<u8>, args: JSpec) -> bool {
    if name == utf8_bytes("get_user"@) {
        spec_get_user_args_ok(args)
    } else if name == utf8_bytes("post_tweet"@) {
        spec_post_tweet_args_ok(args)
    } else if name == utf8_bytes("search_tweets"@) {
        spec_search_tweets_args_ok(args)
    } else if name == utf8_bytes("get_tweet"@) {
        spec_get_tweet_args_ok(args)
    } else if name == utf8_bytes("get_user_tweets"@) {
        spec_get_user_tweets_args_ok(args)
    } else {
        true
    }
}

// ------------------------------------------------------------------
// Replies
// ------------------------------------------------------------------

/// A JSON-RPC result reply.
pub open spec fn spec_result_reply(id: JSpec, result: JSpec) -> JSpec {
    JSpec::Obj(
        seq![
            (utf8_bytes("jsonrpc"@), JSpec::Str(utf8_bytes("2.0"@))),
            (utf8_bytes("id"@), id),
            (utf8_bytes("result"@), result),
        ],
    )
}

/// A JSON-RPC error reply.
pub open spec fn spec_error_reply(id: JSpec, code: Seq<u8>, msg: Seq<u8>) -> JSpec {
    JSpec::Obj(
        seq![
            (utf8_bytes("jsonrpc"@), JSpec::Str(utf8_bytes("2.0"@))),
            (utf8_bytes("id"@), id),
            (
                utf8_bytes("error"@),
                JSpec::Obj(
                    seq![
                        (utf8_bytes("code"@), JSpec::Num(code)),
                        (utf8_bytes("message"@), JSpec::Str(msg)),
                    ],
                ),
            ),
        ],
    )
}

/// The result value of a tool reply: the serialized envelope as one text
/// content item.
pub open spec fn spec_tool_content(envelope: JSpec) -> JSpec {
    JSpec::Obj(
        seq![
            (
                utf8_bytes("content"@),
                JSpec::Arr(
                    seq![
                        JSpec::Obj(
                            seq![
                                (utf8_bytes("type"@), JSpec::Str(utf8_bytes("text"@))),
                                (utf8_bytes("text"@), JSpec::Str(ser(envelope))),
                            ],
                        ),
                    ],
                ),
            ),
        ],
    )
}

/// A tool reply: the envelope, serialized, as the text content of the
/// result.
pub open spec fn spec_tool_reply(id: JSpec, envelope: JSpec) -> JSpec {
    spec_result_reply(id, spec_tool_content(envelope))
}

proof fn lemma_reply_key_facts()
    ensures
        utf8_bytes("jsonrpc"@) != utf8_bytes("id"@),
        utf8_bytes("initialize"@) != utf8_bytes("tools/list"@),
        utf8_bytes("initialize"@) != utf8_bytes("tools/call"@),
        utf8_bytes("tools/list"@) != utf8_bytes("tools/call"@),
{
    reveal_strlit("jsonrpc");
    reveal_strlit("id");
    reveal_strlit("initialize");
    reveal_strlit("tools/list");
    reveal_strlit("tools/call");
    assert(is_ascii_chars("jsonrpc"@));
    assert(is_ascii_chars("id"@));
    assert(is_ascii_chars("initialize"@));
    assert(is_ascii_chars("tools/list"@));
    assert(is_ascii_chars("tools/call"@));
    is_ascii_chars_encode_utf8("jsonrpc"@);
    is_ascii_chars_encode_utf8("id"@);
    is_ascii_chars_encode_utf8("initialize"@);
    is_ascii_chars_encode_utf8("tools/list"@);
    is_ascii_chars_encode_utf8("tools/call"@);
    assert(utf8_bytes("jsonrpc"@).len() == 7 && utf8_bytes("id"@).len() == 2);
    assert(utf8_bytes("initialize"@)[0] == 0x69 && utf8_bytes("tools/list"@)[0] == 0x74);
    assert(utf8_bytes("tools/list"@)[6] == 0x6c && utf8_bytes("tools/call"@)[6] == 0x63);
}

/// Every constructed reply answers under the given id.
pub proof fn lemma_result_reply_id(id: JSpec, result: JSpec)
    ensures
        jget(spec_result_reply(id, result), utf8_bytes("id"@)) == Some(id),
{
    lemma_reply_key_facts();
    let m = spec_result_reply(id, result)->Obj_0;
    assert(m[0].0 != utf8_bytes("id"@));
    assert(m.drop_first()[0].0 == utf8_bytes("id"@));
    assert(obj_lookup(m, utf8_bytes("id"@)) == obj_lookup(m.drop_first(), utf8_bytes("id"@)));
    assert(obj_lookup(m.drop_first(), utf8_bytes("id"@)) == Some(id));
}

/// The tool reply answers under the given id.
pub proof fn lemma_tool_reply_id(id: JSpec, envelope: JSpec)
    ensures
        jget(spec_tool_reply(id, envelope), utf8_bytes("id"@)) == Some(id),
{
    lemma_result_reply_id(id, spec_tool_content(envelope));
}

/// The error reply also answers under the given id.
pub proof fn lemma_error_reply_id(id: JSpec, code: Seq<u8>, msg: Seq<u8>)
    ensures
        jget(spec_error_reply(id, code, msg), utf8_bytes("id"@)) == Some(id),
{
    lemma_reply_key_facts();
    let m = spec_error_reply(id, code, msg)->Obj_0;
    assert(m[0].0 != utf8_bytes("id"@));
    assert(m.drop_first()[0].0 == utf8_bytes("id"@));
    assert(obj_lookup(m, utf8_bytes("id"@)) == obj_lookup(m.drop_first(), utf8_bytes("id"@)));
    assert(obj_lookup(m.drop_first(), utf8_bytes("id"@)) == Some(id));
}

/// Build a result reply.
fn result_reply(id: JsonValue, result: JsonValue) -> (r: JsonValue)
    ensures
        r@ == spec_result_reply(id@, result@),
{
    let ghost idv = id@;
    let ghost resv = result@;
    let mut members: Vec<(Vec<u8>, JsonValue)> = Vec::new();
    proof {
        assert(jobj_view(members@) =~= Seq::<(Seq<u8>, JSpec)>::empty());
    }
    obj_push(&mut members, "jsonrpc", jstr("2.0"));
    obj_push(&mut members, "id", id);
    obj_push(&mut members, "result", result);
    proof {
        assert(jobj_view(members@) =~= spec_result_reply(idv, resv)->Obj_0);
    }
    JsonValue::Obj(members)
}

/// Build an error reply.
fn error_reply(id: JsonValue, code: Vec<u8>, msg: &str) -> (r: JsonValue)
    ensures
        r@ == spec_error_reply(id@, code@, utf8_bytes(msg@)),
{
    let ghost idv = id@;
    let ghost codev = code@;
    let mut error_members: Vec<(Vec<u8>, JsonValue)> = Vec::new();
    proof {
        assert(jobj_view(error_members@) =~= Seq::<(Seq<u8>, JSpec)>::empty());
    }
    obj_push(&mut error_members, "code", JsonValue::Num(code));
    obj_push(&mut error_members, "message", jstr(msg));
    proof {
        assert(jobj_view(error_members@) =~= seq![
            (utf8_bytes("code"@), JSpec::Num(codev)),
            (utf8_bytes("message"@), JSpec::Str(utf8_bytes(msg@))),
        ]);
    }
    let mut members: Vec<(Vec<u8>, JsonValue)> = Vec::new();
    proof {
        assert(jobj_view(members@) =~= Seq::<(Seq<u8>, JSpec)>::empty());
    }
    obj_push(&mut members, "jsonrpc", jstr("2.0"));
    obj_push(&mut members, "id", id);
    obj_push(&mut members, "error", JsonValue::Obj(error_members));
    proof {
        assert(jobj_view(members@) =~= spec_error_reply(idv, codev, utf8_bytes(msg@))->Obj_0);
    }
    JsonValue::Obj(members)
}

/// Build a tool reply around a serialized envelope.
fn tool_reply(id: JsonValue, envelope: &JsonValue) -> (r: JsonValue)
    ensures
        r@ == spec_tool_reply(id@, envelope@),
{
    let text_bytes = to_json_bytes(envelope);
    let mut item_members: Vec<(Vec<u8>, JsonValue)> = Vec::new();
    proof {
        assert(jobj_view(item_members@) =~= Seq::<(Seq<u8>, JSpec)>::empty());
    }
    obj_push(&mut item_members, "type", jstr("text"));
    obj_push(&mut item_members, "text", JsonValue::Str(text_bytes));
    proof {
        assert(jobj_view(item_members@) =~= seq![
            (utf8_bytes("type"@), JSpec::Str(utf8_bytes("text"@))),
            (utf8_bytes("text"@), JSpec::Str(ser(envelope@))),
        ]);
    }
    let mut content: Vec<JsonValue> = Vec::new();
    proof {
        assert(jarr_view(content@) =~= Seq::<JSpec>::empty());
    }
    arr_push(&mut content, JsonValue::Obj(item_members));
    proof {
        assert(jarr_view(content@) =~= seq![
            JSpec::Obj(
                seq![
                    (utf8_bytes("type"@), JSpec::Str(utf8_bytes("text"@))),
                    (utf8_bytes("text"@), JSpec::Str(ser(envelope@))),
                ],
            ),
        ]);
    }
    let mut result_members: Vec<(Vec<u8>, JsonValue)> = Vec::new();
    proof {
        assert(jobj_view(result_members@) =~= Seq::<(Seq<u8>, JSpec)>::empty());
    }
    obj_push(&mut result_members, "content", JsonValue::Arr(content));
    proof {
        assert(jobj_view(result_members@) =~= seq![
            (
                utf8_bytes("content"@),
                JSpec::Arr(
                    seq![
                        JSpec::Obj(
                            seq![
                                (utf8_bytes("type"@), JSpec::Str(utf8_bytes("text"@))),
                                (utf8_bytes("text"@), JSpec::Str(ser(envelope@))),
                            ],
                        ),
                    ],
                ),
            ),
        ]);
    }
    result_reply(id, JsonValue::Obj(result_members))
}

// ------------------------------------------------------------------
// Static configuration
// ------------------------------------------------------------------

/// The initialize result: protocol version, capability flags, server name
/// and version.
pub open spec fn spec_init_result() -> JSpec {
    JSpec::Obj(
        seq![
            (utf8_bytes("protocol_version"@), JSpec::Str(utf8_bytes("2024-11-05"@))),
            (
                utf8_bytes("capabilities"@),
                JSpec::Obj(
                    seq![
                        (
                            utf8_bytes("tools"@),
                            JSpec::Obj(
                                seq![(utf8_bytes("list_changed"@), JSpec::Bool(false))],
                            ),
                        ),
                    ],
                ),
            ),
            (
                utf8_bytes("server_info"@),
                JSpec::Obj(
                    seq![
                        (utf8_bytes("name"@), JSpec::Str(utf8_bytes("x-mcp-server"@))),
                        (utf8_bytes("version"@), JSpec::Str(utf8_bytes("0.1.0"@))),
                    ],
                ),
            ),
        ],
    )
}

/// Build the initialize result.
fn init_result() -> (r: JsonValue)
    ensures
        r@ == spec_init_result(),
{
    let mut tools_members: Vec<(Vec<u8>, JsonValue)> = Vec::new();
    proof {
        assert(jobj_view(tools_members@) =~= Seq::<(Seq<u8>, JSpec)>::empty());
    }
    obj_push(&mut tools_members, "list_changed", JsonValue::Bool(false));
    proof {
        assert(jobj_view(tools_members@) =~= seq![
            (utf8_bytes("list_changed"@), JSpec::Bool(false)),
        ]);
    }
    let mut caps_members: Vec<(Vec<u8>, JsonValue)> = Vec::new();
    proof {
        assert(jobj_view(caps_members@) =~= Seq::<(Seq<u8>, JSpec)>::empty());
    }
    obj_push(&mut caps_members, "tools", JsonValue::Obj(tools_members));
    proof {
        assert(jobj_view(caps_members@) =~= seq![
            (
                utf8_bytes("tools"@),
                JSpec::Obj(seq![(utf8_bytes("list_changed"@), JSpec::Bool(false))]),
            ),
        ]);
    }
    let mut info_members: Vec<(Vec<u8>, JsonValue)> = Vec::new();
    proof {
        assert(jobj_view(info_members@) =~= Seq::<(Seq<u8>, JSpec)>::empty());
    }
    obj_push(&mut info_members, "name", jstr("x-mcp-server"));
    obj_push(&mut info_members, "version", jstr("0.1.0"));
    proof {
        assert(jobj_view(info_members@) =~= seq![
            (utf8_bytes("name"@), JSpec::Str(utf8_bytes("x-mcp-server"@))),
            (utf8_bytes("version"@), JSpec::Str(utf8_bytes("0.1.0"@))),
        ]);
    }
    let mut members: Vec<(Vec<u8>, JsonValue)> = Vec::new();
    proof {
        assert(jobj_view(members@) =~= Seq::<(Seq<u8>, JSpec)>::empty());
    }
    obj_push(&mut members, "protocol_version", jstr("2024-11-05"));
    obj_push(&mut members, "capabilities", JsonValue::Obj(caps_members));
    obj_push(&mut members, "server_info", JsonValue::Obj(info_members));
    proof {
        assert(jobj_view(members@) =~= spec_init_result()->Obj_0);
    }
    JsonValue::Obj(members)
}

/// One property of a tool's input schema: a type and a description.
pub open spec fn spec_prop(ty: Seq<char>, desc: Seq<char>) -> JSpec {
    JSpec::Obj(
        seq![
            (utf8_bytes("type"@), JSpec::Str(utf8_bytes(ty))),
            (utf8_bytes("description"@), JSpec::Str(utf8_bytes(desc))),
        ],
    )
}

fn prop(ty: &str, desc: &str) -> (r: JsonValue)
    ensures
        r@ == spec_prop(ty@, desc@),
{
    let ghost t = ty@;
    let ghost d = desc@;
    let mut members: Vec<(Vec<u8>, JsonValue)> = Vec::new();
    proof {
        assert(jobj_view(members@) =~= Seq::<(Seq<u8>, JSpec)>::empty());
    }
    obj_push(&mut members, "type", jstr(ty));
    obj_push(&mut members, "description", jstr(desc));
    proof {
        assert(jobj_view(members@) =~= spec_prop(t, d)->Obj_0);
    }
    JsonValue::Obj(members)
}

/// A tool definition: name, description and input schema.
pub open spec fn spec_tool_def(name: Seq<char>, desc: Seq<char>, schema: JSpec) -> JSpec {
    JSpec::Obj(
        seq![
            (utf8_bytes("name"@), JSpec::Str(utf8_bytes(name))),
            (utf8_bytes("description"@), JSpec::Str(utf8_bytes(desc))),
            (utf8_bytes("inputSchema"@), schema),
        ],
    )
}

fn tool_def(name: &str, desc: &str, schema: JsonValue) -> (r: JsonValue)
    ensures
        r@ == spec_tool_def(name@, desc@, schema@),
{
    let ghost n = name@;
    let ghost d = desc@;
    let ghost s = schema@;
    let mut members: Vec<(Vec<u8>, JsonValue)> = Vec::new();
    proof {
        assert(jobj_view(members@) =~= Seq::<(Seq<u8>, JSpec)>::empty());
    }
    obj_push(&mut members, "name", jstr(name));
    obj_push(&mut members, "description", jstr(desc));
    obj_push(&mut members, "inputSchema", schema);
    proof {
        assert(jobj_view(members@) =~= spec_tool_def(n, d, s)->Obj_0);
    }
    JsonValue::Obj(members)
}

/// An object schema: its properties and its required property names.
pub open spec fn spec_schema(props: JSpec, required: JSpec) -> JSpec {
    JSpec::Obj(
        seq![
            (utf8_bytes("type"@), JSpec::Str(utf8_bytes("object"@))),
            (utf8_bytes("properties"@), props),
            (utf8_bytes("required"@), required),
        ],
    )
}

fn schema(props: JsonValue, required: JsonValue) -> (r: JsonValue)
    ensures
        r@ == spec_schema(props@, required@),
{
    let ghost p = props@;
    let ghost q = required@;
    let mut members: Vec<(Vec<u8>, JsonValue)> = Vec::new();
    proof {
        assert(jobj_view(members@) =~= Seq::<(Seq<u8>, JSpec)>::empty());
    }
    obj_push(&mut members, "type", jstr("object"));
    obj_push(&mut members, "properties", props);
    obj_push(&mut members, "required", required);
    proof {
        assert(jobj_view(members@) =~= spec_schema(p, q)->Obj_0);
    }
    JsonValue::Obj(members)
}

/// The identifier/is_user_id property pair shared by the two user tools.
pub open spec fn spec_user_props() -> JSpec {
    JSpec::Obj(
        seq![
            (
                utf8_bytes("identifier"@),
                spec_prop("string"@, "Username (without @) or user ID"@),
            ),
            (
                utf8_bytes("is_user_id"@),
                spec_prop(
                    "boolean"@,
                    "Whether the identifier is a user ID (true) or username (false)"@,
                ),
            ),
        ],
    )
}

/// The static tool definitions the router serves for `tools/list`.
pub open spec fn spec_tools_list_result() -> JSpec {
    JSpec::Obj(
        seq![
            (
                utf8_bytes("tools"@),
                JSpec::Arr(
                    seq![
                        spec_tool_def(
                            "get_user"@,
                            "Get user information by username or user ID"@,
                            spec_schema(
                                spec_user_props(),
                                JSpec::Arr(seq![JSpec::Str(utf8_bytes("identifier"@))]),
                            ),
                        ),
                        spec_tool_def(
                            "post_tweet"@,
                            "Post a new tweet"@,
                            spec_schema(
                                JSpec::Obj(
                                    seq![
                                        (
                                            utf8_bytes("text"@),
                                            spec_prop(
                                                "string"@,
                                                "The text content of the tweet"@,
                                            ),
                                        ),
                                        (
                                            utf8_bytes("reply_to"@),
                                            spec_prop(
                                                "string"@,
                                                "Optional tweet ID to reply to"@,
                                            ),
                                        ),
                                    ],
                                ),
                                JSpec::Arr(seq![JSpec::Str(utf8_bytes("text"@))]),
                            ),
                        ),
                        spec_tool_def(
                            "search_tweets"@,
                            "Search for tweets"@,
                            spec_schema(
                                JSpec::Obj(
                                    seq![
                                        (
                                            utf8_bytes("query"@),
                                            spec_prop("string"@, "Search query"@),
                                        ),
                                        (
                                            utf8_bytes("max_results"@),
                                            spec_prop(
                                                "integer"@,
                                                "Maximum number of results (default: 10, max: 100)"@,
                                            ),
                                        ),
                                        (
                                            utf8_bytes("include_users"@),
                                            spec_prop(
                                                "boolean"@,
                                                "Include user information in results"@,
                                            ),
                                        ),
                                        (
                                            utf8_bytes("include_metrics"@),
                                            spec_prop("boolean"@, "Include tweet metrics"@),
                                        ),
                                    ],
                                ),
                                JSpec::Arr(seq![JSpec::Str(utf8_bytes("query"@))]),
                            ),
                        ),
                        spec_tool_def(
                            "get_tweet"@,
                            "Get a specific tweet by ID"@,
                            spec_schema(
                                JSpec::Obj(
                                    seq![
                                        (
                                            utf8_bytes("tweet_id"@),
                                            spec_prop("string"@, "The tweet ID"@),
                                        ),
                                    ],
                                ),
                                JSpec::Arr(seq![JSpec::Str(utf8_bytes("tweet_id"@))]),
                            ),
                        ),
                        spec_tool_def(
                            "get_user_tweets"@,
                            "Get user's recent tweets"@,
                            spec_schema(
                                JSpec::Obj(
                                    seq![
                                        (
                                            utf8_bytes("identifier"@),
                                            spec_prop(
                                                "string"@,
                                                "Username (without @) or user ID"@,
                                            ),
                                        ),
                                        (
                                            utf8_bytes("is_user_id"@),
                                            spec_prop(
                                                "boolean"@,
                                                "Whether the identifier is a user ID (true) or username (false)"@,
                                            ),
                                        ),
                                        (
                                            utf8_bytes("max_results"@),
                                            spec_prop(
                                                "integer"@,
                                                "Maximum number of tweets to retrieve (default: 10)"@,
                                            ),
                                        ),
                                    ],
                                ),
                                JSpec::Arr(seq![JSpec::Str(utf8_bytes("identifier"@))]),
                            ),
                        ),
                    ],
                ),
            ),
        ],
    )
}

fn required1(name: &str) -> (r: JsonValue)
    ensures
        r@ == JSpec::Arr(seq![JSpec::Str(utf8_bytes(name@))]),
{
    let ghost n = name@;
    let mut items: Vec<JsonValue> = Vec::new();
    proof {
        assert(jarr_view(items@) =~= Seq::<JSpec>::empty());
    }
    arr_push(&mut items, jstr(name));
    proof {
        assert(jarr_view(items@) =~= seq![JSpec::Str(utf8_bytes(n))]);
    }
    JsonValue::Arr(items)
}

fn user_props() -> (r: JsonValue)
    ensures
        r@ == spec_user_props(),
{
    let mut members: Vec<(Vec<u8>, JsonValue)> = Vec::new();
    proof {
        assert(jobj_view(members@) =~= Seq::<(Seq<u8>, JSpec)>::empty());
    }
    obj_push(&mut members, "identifier", prop("string", "Username (without @) or user ID"));
    obj_push(
        &mut members,
        "is_user_id",
        prop("boolean", "Whether the identifier is a user ID (true) or username (false)"),
    );
    proof {
        assert(jobj_view(members@) =~= spec_user_props()->Obj_0);
    }
    JsonValue::Obj(members)
}

/// Build the `get_user` definition.
fn def_get_user() -> (r: JsonValue)
    ensures
        r@ == spec_tool_def(
            "get_user"@,
            "Get user information by username or user ID"@,
            spec_schema(
                spec_user_props(),
                JSpec::Arr(seq![JSpec::Str(utf8_bytes("identifier"@))]),
            ),
        ),
{
    tool_def(
        "get_user",
        "Get user information by username or user ID",
        schema(user_props(), required1("identifier")),
    )
}

/// Build the `post_tweet` definition.
fn def_post_tweet() -> (r: JsonValue)
    ensures
        r@ == spec_tool_def(
            "post_tweet"@,
            "Post a new tweet"@,
            spec_schema(
                JSpec::Obj(
                    seq![
                        (
                            utf8_bytes("text"@),
                            spec_prop("string"@, "The text content of the tweet"@),
                        ),
                        (
                            utf8_bytes("reply_to"@),
                            spec_prop("string"@, "Optional tweet ID to reply to"@),
                        ),
                    ],
                ),
                JSpec::Arr(seq![JSpec::Str(utf8_bytes("text"@))]),
            ),
        ),
{
    let mut post_props: Vec<(Vec<u8>, JsonValue)> = Vec::new();
    proof {
        assert(jobj_view(post_props@) =~= Seq::<(Seq<u8>, JSpec)>::empty());
    }
    obj_push(&mut post_props, "text", prop("string", "The text content of the tweet"));
    obj_push(&mut post_props, "reply_to", prop("string", "Optional tweet ID to reply to"));
    proof {
        assert(jobj_view(post_props@) =~= seq![
            (utf8_bytes("text"@), spec_prop("string"@, "The text content of the tweet"@)),
            (
                utf8_bytes("reply_to"@),
                spec_prop("string"@, "Optional tweet ID to reply to"@),
            ),
        ]);
    }
    tool_def(
        "post_tweet",
        "Post a new tweet",
        schema(JsonValue::Obj(post_props), required1("text")),
    )
}

/// Build the `search_tweets` definition.
fn def_search_tweets() -> (r: JsonValue)
    ensures
        r@ == spec_tool_def(
            "search_tweets"@,
            "Search for tweets"@,
            spec_schema(
                JSpec::Obj(
                    seq![
                        (utf8_bytes("query"@), spec_prop("string"@, "Search query"@)),
                        (
                            utf8_bytes("max_results"@),
                            spec_prop(
                                "integer"@,
                                "Maximum number of results (default: 10, max: 100)"@,
                            ),
                        ),
                        (
                            utf8_bytes("include_users"@),
                            spec_prop("boolean"@, "Include user information in results"@),
                        ),
                        (
                            utf8_bytes("include_metrics"@),
                            spec_prop("boolean"@, "Include tweet metrics"@),
                        ),
                    ],
                ),
                JSpec::Arr(seq![JSpec::Str(utf8_bytes("query"@))]),
            ),
        ),
{
    let mut search_props: Vec<(Vec<u8>, JsonValue)> = Vec::new();
    proof {
        assert(jobj_view(search_props@) =~= Seq::<(Seq<u8>, JSpec)>::empty());
    }
    obj_push(&mut search_props, "query", prop("string", "Search query"));
    obj_push(
        &mut search_props,
        "max_results",
        prop("integer", "Maximum number of results (default: 10, max: 100)"),
    );
    obj_push(
        &mut search_props,
        "include_users",
        prop("boolean", "Include user information in results"),
    );
    obj_push(&mut search_props, "include_metrics", prop("boolean", "Include tweet metrics"));
    proof {
        assert(jobj_view(search_props@) =~= seq![
            (utf8_bytes("query"@), spec_prop("string"@, "Search query"@)),
            (
                utf8_bytes("max_results"@),
                spec_prop("integer"@, "Maximum number of results (default: 10, max: 100)"@),
            ),
            (
                utf8_bytes("include_users"@),
                spec_prop("boolean"@, "Include user information in results"@),
            ),
            (
                utf8_bytes("include_metrics"@),
                spec_prop("boolean"@, "Include tweet metrics"@),
            ),
        ]);
    }
    tool_def(
        "search_tweets",
        "Search for tweets",
        schema(JsonValue::Obj(search_props), required1("query")),
    )
}

/// Build the `get_tweet` definition.
fn def_get_tweet() -> (r: JsonValue)
    ensures
        r@ == spec_tool_def(
            "get_tweet"@,
            "Get a specific tweet by ID"@,
            spec_schema(
                JSpec::Obj(
                    seq![(utf8_bytes("tweet_id"@), spec_prop("string"@, "The tweet ID"@))],
                ),
                JSpec::Arr(seq![JSpec::Str(utf8_bytes("tweet_id"@))]),
            ),
        ),
{
    let mut tweet_props: Vec<(Vec<u8>, JsonValue)> = Vec::new();
    proof {
        assert(jobj_view(tweet_props@) =~= Seq::<(Seq<u8>, JSpec)>::empty());
    }
    obj_push(&mut tweet_props, "tweet_id", prop("string", "The tweet ID"));
    proof {
        assert(jobj_view(tweet_props@) =~= seq![
            (utf8_bytes("tweet_id"@), spec_prop("string"@, "The tweet ID"@)),
        ]);
    }
    tool_def(
        "get_tweet",
        "Get a specific tweet by ID",
        schema(JsonValue::Obj(tweet_props), required1("tweet_id")),
    )
}

/// Build the `get_user_tweets` definition.
fn def_get_user_tweets() -> (r: JsonValue)
    ensures
        r@ == spec_tool_def(
            "get_user_tweets"@,
            "Get user's recent tweets"@,
            spec_schema(
                JSpec::Obj(
                    seq![
                        (
                            utf8_bytes("identifier"@),
                            spec_prop("string"@, "Username (without @) or user ID"@),
                        ),
                        (
                            utf8_bytes("is_user_id"@),
                            spec_prop(
                                "boolean"@,
                                "Whether the identifier is a user ID (true) or username (false)"@,
                            ),
                        ),
                        (
                            utf8_bytes("max_results"@),
                            spec_prop(
                                "integer"@,
                                "Maximum number of tweets to retrieve (default: 10)"@,
                            ),
                        ),
                    ],
                ),
                JSpec::Arr(seq![JSpec::Str(utf8_bytes("identifier"@))]),
            ),
        ),
{
    let mut timeline_props: Vec<(Vec<u8>, JsonValue)> = Vec::new();
    proof {
        assert(jobj_view(timeline_props@) =~= Seq::<(Seq<u8>, JSpec)>::empty());
    }
    obj_push(&mut timeline_props, "identifier", prop("string", "Username (without @) or user ID"));
    obj_push(
        &mut timeline_props,
        "is_user_id",
        prop("boolean", "Whether the identifier is a user ID (true) or username (false)"),
    );
    obj_push(
        &mut timeline_props,
        "max_results",
        prop("integer", "Maximum number of tweets to retrieve (default: 10)"),
    );
    proof {
        assert(jobj_view(timeline_props@) =~= seq![
            (utf8_bytes("identifier"@), spec_prop("string"@, "Username (without @) or user ID"@)),
            (
                utf8_bytes("is_user_id"@),
                spec_prop(
                    "boolean"@,
                    "Whether the identifier is a user ID (true) or username (false)"@,
                ),
            ),
            (
                utf8_bytes("max_results"@),
                spec_prop("integer"@, "Maximum number of tweets to retrieve (default: 10)"@),
            ),
        ]);
    }
    tool_def(
        "get_user_tweets",
        "Get user's recent tweets",
        schema(JsonValue::Obj(timeline_props), required1("identifier")),
    )
}

/// Build the static tool list.
fn tools_list_result() -> (r: JsonValue)
    ensures
        r@ == spec_tools_list_result(),
{
    let mut tools: Vec<JsonValue> = Vec::new();
    proof {
        assert(jarr_view(tools@) =~= Seq::<JSpec>::empty());
    }
    arr_push(&mut tools, def_get_user());
    arr_push(&mut tools, def_post_tweet());
    arr_push(&mut tools, def_search_tweets());
    arr_push(&mut tools, def_get_tweet());
    arr_push(&mut tools, def_get_user_tweets());
    let ghost tools_view = jarr_view(tools@);
    let mut members: Vec<(Vec<u8>, JsonValue)> = Vec::new();
    proof {
        assert(jobj_view(members@) =~= Seq::<(Seq<u8>, JSpec)>::empty());
    }
    obj_push(&mut members, "tools", JsonValue::Arr(tools));
    proof {
        assert(tools_view =~= spec_tools_list_result()->Obj_0[0].1->Arr_0);
        assert(jobj_view(members@) =~= spec_tools_list_result()->Obj_0);
    }
    JsonValue::Obj(members)
}

// ------------------------------------------------------------------
// Dispatch
// ------------------------------------------------------------------

fn kb(k: &str) -> (r: Vec<u8>)
    ensures
        r@ == utf8_bytes(k@),
{
    k.as_bytes_vec()
}

proof fn lemma_tool_names_distinct()
    ensures
        utf8_bytes("get_user"@).len() == 8,
        utf8_bytes("post_tweet"@).len() == 10,
        utf8_bytes("search_tweets"@).len() == 13,
        utf8_bytes("get_tweet"@).len() == 9,
        utf8_bytes("get_user_tweets"@).len() == 15,
{
    reveal_strlit("get_user");
    reveal_strlit("post_tweet");
    reveal_strlit("search_tweets");
    reveal_strlit("get_tweet");
    reveal_strlit("get_user_tweets");
    assert(is_ascii_chars("get_user"@));
    assert(is_ascii_chars("post_tweet"@));
    assert(is_ascii_chars("search_tweets"@));
    assert(is_ascii_chars("get_tweet"@));
    assert(is_ascii_chars("get_user_tweets"@));
    is_ascii_chars_encode_utf8("get_user"@);
    is_ascii_chars_encode_utf8("post_tweet"@);
    is_ascii_chars_encode_utf8("search_tweets"@);
    is_ascii_chars_encode_utf8("get_tweet"@);
    is_ascii_chars_encode_utf8("get_user_tweets"@);
}

/// What must hold of a reply the dispatcher returns for a parsed request:
/// it answers under the request's id, and each method gets exactly its
/// defined reply.
pub open spec fn spec_reply_ok(req: JSpec, resp: JSpec) -> bool {
    let id = spec_req_id(req);
    let m = spec_method(req);
    let name = spec_call_name(req);
    let args = spec_call_args(req);
    &&& jget(resp, utf8_bytes("id"@)) == Some(id)
    &&& (m == utf8_bytes("initialize"@) ==> resp == spec_result_reply(id, spec_init_result()))
    &&& (m == utf8_bytes("tools/list"@) ==> resp == spec_result_reply(
        id,
        spec_tools_list_result(),
    ))
    &&& (!known_method(m) ==> resp == spec_error_reply(
        id,
        utf8_bytes("-32601"@),
        utf8_bytes("Method not found"@),
    ))
    &&& (m == utf8_bytes("tools/call"@) ==> (if !known_tool(name) {
        resp == spec_tool_reply(
            id,
            spec_fail_envelope(utf8_bytes("Unknown tool: "@) + name),
        )
    } else {
        &&& !spec_tool_args_ok(name, args)
        &&& exists|e: XError| #![auto]
            e is Json && resp == spec_tool_reply(
                id,
                spec_fail_envelope(utf8_bytes(spec_error_message(e))),
            )
    }))
}

/// What must hold of an HTTP request plan the dispatcher hands out for a
/// `tools/call`: it belongs to the named tool, carries the request's id,
/// and its fields are exactly what that tool's arguments dictate.
pub open spec fn spec_call_ok(req: JSpec, base: Seq<u8>, plan: RequestPlan, pending: Pending) -> bool {
    let id = spec_req_id(req);
    let name = spec_call_name(req);
    let args = spec_call_args(req);
    &&& spec_method(req) == utf8_bytes("tools/call"@)
    &&& pending.id@ == id
    &&& known_tool(name)
    &&& spec_tool_args_ok(name, args)
    &&& plan.params.wf()
    &&& (name == utf8_bytes("get_user"@) ==> {
        &&& pending.cont is GetUser
        &&& plan.method@ == utf8_bytes("GET"@)
        &&& plan.url@ == base + (if bool_field(args, "is_user_id"@) {
            utf8_bytes("/users/"@)
        } else {
            utf8_bytes("/users/by/username/"@)
        }) + str_field(args, "identifier"@)
        &&& plan.params@ == sorted_insert(
            Seq::empty(),
            utf8_bytes("user.fields"@),
            spec_user_fields(),
        )
        &&& plan.body is None
    })
    &&& (name == utf8_bytes("post_tweet"@) ==> {
        &&& pending.cont is PostTweet
        &&& plan.method@ == utf8_bytes("POST"@)
        &&& plan.url@ == base + utf8_bytes("/tweets"@)
        &&& plan.params@ == Seq::<(Seq<u8>, Seq<u8>)>::empty()
        &&& (plan.body matches Some(b) && b@ == crate::client::spec_post_body_parts(
            str_field(args, "text"@),
            match opt_str_field(args, "reply_to"@) {
                Some(t) => Some(Some(t)),
                None => None,
            },
        ))
    })
    &&& (name == utf8_bytes("search_tweets"@) ==> {
        &&& pending.cont is SearchTweets
        &&& plan.method@ == utf8_bytes("GET"@)
        &&& plan.url@ == base + utf8_bytes("/tweets/search/recent"@)
        &&& plan.body is None
        &&& spec_search_plan_ok(
            str_field(args, "query"@),
            u32_field(args, "max_results"@),
            bool_field(args, "include_users"@),
            bool_field(args, "include_metrics"@),
            plan,
        )
    })
    &&& (name == utf8_bytes("get_tweet"@) ==> {
        &&& pending.cont is GetTweet
        &&& plan.method@ == utf8_bytes("GET"@)
        &&& plan.url@ == base + utf8_bytes("/tweets/"@) + str_field(args, "tweet_id"@)
        &&& plan.body is None
    })
    &&& (name == utf8_bytes("get_user_tweets"@) ==> (if bool_field(args, "is_user_id"@) {
        &&& pending.cont is UserTweetsFetch
        &&& pending.cont->UserTweetsFetch_0@ == str_field(args, "identifier"@)
        &&& plan.method@ == utf8_bytes("GET"@)
        &&& plan.url@ == base + utf8_bytes("/users/"@) + str_field(args, "identifier"@)
            + utf8_bytes("/tweets"@)
        &&& plan.params@ == spec_user_tweets_params(
            Some(spec_clamped(u32_field(args, "max_results"@))),
        )
        &&& plan.body is None
    } else {
        &&& pending.cont is UserTweetsResolve
        &&& pending.cont->UserTweetsResolve_0 == u32_field(args, "max_results"@)
        &&& plan.method@ == utf8_bytes("GET"@)
        &&& plan.url@ == base + utf8_bytes("/users/by/username/"@) + str_field(
            args,
            "identifier"@,
        )
        &&& plan.params@ == sorted_insert(
            Seq::empty(),
            utf8_bytes("user.fields"@),
            spec_user_fields(),
        )
        &&& plan.body is None
    }))
}

/// Handle one parsed MCP request: route it by method, and for a tool call
/// either report the business failure at once or hand out the HTTP request
/// the tool performs.
#[verifier::rlimit(100)]
pub fn handle_request(req: &JsonValue, base_url: &Vec<u8>) -> (r: Step)
    ensures
        match r {
            Step::Reply(resp) => spec_reply_ok(req@, resp@),
            Step::Call { plan, pending } => spec_call_ok(req@, base_url@, plan, pending),
        },
{
    proof {
        lemma_reply_key_facts();
        lemma_tool_names_distinct();
    }
    let idkey = kb("id");
    let id: JsonValue = match get_field(req, &idkey) {
        Some(v) => deep_clone(v),
        None => JsonValue::Null,
    };
    proof {
        assert(id@ == spec_req_id(req@));
    }
    let methodkey = kb("method");
    let method: Vec<u8> = match get_field(req, &methodkey) {
        Some(mv) => match mv {
            JsonValue::Str(b) => b.clone(),
            _ => Vec::new(),
        },
        None => Vec::new(),
    };
    proof {
        assert(method@ == spec_method(req@));
    }
    if crate::params::bytes_eq(&method, &kb("initialize")) {
        let resp = result_reply(id, init_result());
        proof {
            lemma_result_reply_id(spec_req_id(req@), spec_init_result());
        }
        Step::Reply(resp)
    } else if crate::params::bytes_eq(&method, &kb("tools/list")) {
        let resp = result_reply(id, tools_list_result());
        proof {
            lemma_result_reply_id(spec_req_id(req@), spec_tools_list_result());
        }
        Step::Reply(resp)
    } else if crate::params::bytes_eq(&method, &kb("tools/call")) {
        let paramskey = kb("params");
        let params_field = get_field(req, &paramskey);
        let namekey = kb("name");
        let name: Vec<u8> = match params_field {
            Some(p) => match get_field(p, &namekey) {
                Some(nv) => match nv {
                    JsonValue::Str(b) => b.clone(),
                    _ => Vec::new(),
                },
                None => Vec::new(),
            },
            None => Vec::new(),
        };
        let argskey = kb("arguments");
        let arguments: JsonValue = match params_field {
            Some(p) => match get_field(p, &argskey) {
                Some(a) => deep_clone(a),
                None => JsonValue::Null,
            },
            None => JsonValue::Null,
        };
        proof {
            assert(name@ == spec_call_name(req@));
            assert(arguments@ == spec_call_args(req@));
        }
        if crate::params::bytes_eq(&name, &kb("get_user")) {
            match decode_get_user_args(&arguments) {
                Ok(a) => {
                    let plan = get_user_plan(&a, base_url);
                    Step::Call { plan, pending: Pending { id, cont: Cont::GetUser } }
                },
                Err(e) => Step::Reply(decode_failure_reply(id, &e, Ghost(req@))),
            }
        } else if crate::params::bytes_eq(&name, &kb("post_tweet")) {
            match decode_post_tweet_args(&arguments) {
                Ok(a) => {
                    let plan = post_tweet_plan(&a, base_url);
                    Step::Call { plan, pending: Pending { id, cont: Cont::PostTweet } }
                },
                Err(e) => Step::Reply(decode_failure_reply(id, &e, Ghost(req@))),
            }
        } else if crate::params::bytes_eq(&name, &kb("search_tweets")) {
            match decode_search_tweets_args(&arguments) {
                Ok(a) => {
                    let plan = search_tweets_plan(&a, base_url);
                    Step::Call { plan, pending: Pending { id, cont: Cont::SearchTweets } }
                },
                Err(e) => Step::Reply(decode_failure_reply(id, &e, Ghost(req@))),
            }
        } else if crate::params::bytes_eq(&name, &kb("get_tweet")) {
            match decode_get_tweet_args(&arguments) {
                Ok(a) => {
                    let plan = get_tweet_plan(&a, base_url);
                    Step::Call { plan, pending: Pending { id, cont: Cont::GetTweet } }
                },
                Err(e) => Step::Reply(decode_failure_reply(id, &e, Ghost(req@))),
            }
        } else if crate::params::bytes_eq(&name, &kb("get_user_tweets")) {
            match decode_get_user_tweets_args(&arguments) {
                Ok(a) => {
                    if a.is_user_id {
                        let uid = a.identifier.as_str().as_bytes_vec();
                        let plan = user_tweets_fetch_plan(base_url, &uid, a.max_results);
                        Step::Call {
                            plan,
                            pending: Pending { id, cont: Cont::UserTweetsFetch(uid) },
                        }
                    } else {
                        let plan = crate::client::user_by_username_request(
                            base_url,
                            a.identifier.as_str(),
                        );
                        Step::Call {
                            plan,
                            pending: Pending {
                                id,
                                cont: Cont::UserTweetsResolve(a.max_results),
                            },
                        }
                    }
                },
                Err(e) => Step::Reply(decode_failure_reply(id, &e, Ghost(req@))),
            }
        } else {
            let mut msg = kb("Unknown tool: ");
            push_all(&mut msg, name.as_slice());
            let env = fail_envelope(msg);
            let resp = tool_reply(id, &env);
            proof {
                lemma_tool_reply_id(spec_req_id(req@), env@);
            }
            Step::Reply(resp)
        }
    } else {
        let resp = error_reply(id, kb("-32601"), "Method not found");
        proof {
            lemma_error_reply_id(
                spec_req_id(req@),
                utf8_bytes("-32601"@),
                utf8_bytes("Method not found"@),
            );
        }
        Step::Reply(resp)
    }
}

/// The reply for tool arguments that did not decode: the decode error's
/// message inside a business-failure envelope.
fn decode_failure_reply(id: JsonValue, e: &XError, Ghost(req): Ghost<JSpec>) -> (resp: JsonValue)
    requires
        e is Json,
    ensures
        resp@ == spec_tool_reply(id@, spec_fail_envelope(utf8_bytes(spec_error_message(*e)))),
        jget(resp@, utf8_bytes("id"@)) == Some(id@),
        exists|e2: XError| #![auto]
            e2 is Json && resp@ == spec_tool_reply(
                id@,
                spec_fail_envelope(utf8_bytes(spec_error_message(e2))),
            ),
{
    let env = fail_envelope_of(e);
    let resp = tool_reply(id, &env);
    proof {
        lemma_tool_reply_id(id@, env@);
        assert(exists|e2: XError| #![auto]
            e2 is Json && resp@ == spec_tool_reply(
                id@,
                spec_fail_envelope(utf8_bytes(spec_error_message(e2))),
            )) by {
            assert(*e is Json && resp@ == spec_tool_reply(
                id@,
                spec_fail_envelope(utf8_bytes(spec_error_message(*e))),
            ));
        }
    }
    resp
}

// ------------------------------------------------------------------
// Resuming after the HTTP call
// ------------------------------------------------------------------

/// The parsed, error-free body of an HTTP outcome, when there is one: a
/// success status whose body is one JSON text without an `errors` array.
pub open spec fn spec_outcome_parsed(outcome: HttpOutcome) -> Option<JSpec> {
    match outcome {
        HttpOutcome::Response { status, body } => if spec_status_ok(status) {
            match sp_text(body@) {
                Some(v) => if !spec_has_api_errors(v) {
                    Some(v)
                } else {
                    None
                },
                None => None,
            }
        } else {
            None
        },
        HttpOutcome::Transport(_) => None,
    }
}

/// The envelope a finished invocation builds from a parsed, error-free
/// response body.
pub open spec fn spec_cont_env(cont: Cont, v: JSpec) -> JSpec {
    match cont {
        Cont::GetUser => spec_get_user_env(v),
        Cont::PostTweet => spec_post_tweet_env(v),
        Cont::SearchTweets => spec_search_env(v),
        Cont::GetTweet => spec_get_tweet_env(v),
        Cont::UserTweetsFetch(user_id) => spec_user_tweets_env(v, user_id@),
        Cont::UserTweetsResolve(_) => spec_fail_envelope(utf8_bytes("User not found"@)),
    }
}

/// A reply that reports some error inside the business envelope.
pub open spec fn spec_is_error_reply(id: JSpec, resp: JSpec) -> bool {
    exists|e: XError| #![auto]
        resp == spec_tool_reply(id, spec_fail_envelope(utf8_bytes(spec_error_message(e))))
}

/// Continue an in-flight tool invocation with what the transport returned:
/// either the finished reply, or (for a username resolution that found the
/// user) the follow-up timeline request.
pub fn resume(pending: Pending, outcome: HttpOutcome, base_url: &Vec<u8>) -> (r: Step)
    ensures
        match r {
            Step::Reply(resp) => {
                &&& jget(resp@, utf8_bytes("id"@)) == Some(pending.id@)
                &&& (match spec_outcome_parsed(outcome) {
                    Some(v) => resp@ == spec_tool_reply(
                        pending.id@,
                        spec_cont_env(pending.cont, v),
                    ) && (pending.cont is UserTweetsResolve ==> spec_resolved_user_id(v)
                        is None),
                    None => spec_is_error_reply(pending.id@, resp@),
                })
            },
            Step::Call { plan, pending: pending2 } => {
                &&& pending2.id@ == pending.id@
                &&& pending.cont is UserTweetsResolve
                &&& spec_outcome_parsed(outcome) is Some
                &&& spec_resolved_user_id(spec_outcome_parsed(outcome)->Some_0) is Some
                &&& pending2.cont is UserTweetsFetch
                &&& pending2.cont->UserTweetsFetch_0@ == spec_resolved_user_id(
                    spec_outcome_parsed(outcome)->Some_0,
                )->Some_0
                &&& plan.method@ == utf8_bytes("GET"@)
                &&& plan.url@ == base_url@ + utf8_bytes("/users/"@) + spec_resolved_user_id(
                    spec_outcome_parsed(outcome)->Some_0,
                )->Some_0 + utf8_bytes("/tweets"@)
                &&& plan.params@ == spec_user_tweets_params(
                    Some(spec_clamped(pending.cont->UserTweetsResolve_0)),
                )
                &&& plan.params.wf()
                &&& plan.body is None
            },
        },
{
    let ghost og = outcome;
    let Pending { id, cont } = pending;
    match interpret_response(outcome) {
        Err(e) => {
            let env = fail_envelope_of(&e);
            let resp = tool_reply(id, &env);
            proof {
                lemma_tool_reply_id(id@, env@);
                assert(spec_outcome_parsed(og) is None);
                assert(spec_is_error_reply(id@, resp@)) by {
                    assert(resp@ == spec_tool_reply(
                        id@,
                        spec_fail_envelope(utf8_bytes(spec_error_message(e))),
                    ));
                }
            }
            Step::Reply(resp)
        },
        Ok(v) => {
            proof {
                assert(spec_outcome_parsed(og) == Some(v@));
            }
            match cont {
                Cont::GetUser => {
                    let env = get_user_envelope(&v);
                    let resp = tool_reply(id, &env);
                    proof {
                        lemma_tool_reply_id(id@, env@);
                    }
                    Step::Reply(resp)
                },
                Cont::PostTweet => {
                    let env = post_tweet_envelope(&v);
                    let resp = tool_reply(id, &env);
                    proof {
                        lemma_tool_reply_id(id@, env@);
                    }
                    Step::Reply(resp)
                },
                Cont::SearchTweets => {
                    let env = search_tweets_envelope(&v);
                    let resp = tool_reply(id, &env);
                    proof {
                        lemma_tool_reply_id(id@, env@);
                    }
                    Step::Reply(resp)
                },
                Cont::GetTweet => {
                    let env = get_tweet_envelope(&v);
                    let resp = tool_reply(id, &env);
                    proof {
                        lemma_tool_reply_id(id@, env@);
                    }
                    Step::Reply(resp)
                },
                Cont::UserTweetsFetch(user_id) => {
                    let env = user_tweets_envelope(&v, user_id);
                    let resp = tool_reply(id, &env);
                    proof {
                        lemma_tool_reply_id(id@, env@);
                    }
                    Step::Reply(resp)
                },
                Cont::UserTweetsResolve(max_results) => {
                    match resolved_user_id(&v) {
                        Some(uid) => {
                            let plan = user_tweets_fetch_plan(base_url, &uid, max_results);
                            Step::Call {
                                plan,
                                pending: Pending { id, cont: Cont::UserTweetsFetch(uid) },
                            }
                        },
                        None => {
                            let env = fail_envelope(kb("User not found"));
                            let resp = tool_reply(id, &env);
                            proof {
                                lemma_tool_reply_id(id@, env@);
                            }
                            Step::Reply(resp)
                        },
                    }
                },
            }
        },
    }
}

// ------------------------------------------------------------------
// Line framing
// ------------------------------------------------------------------

/// Process one input line: a line that is not one valid JSON text produces
/// nothing; a parsed request produces exactly one reply line, or the HTTP
/// request its tool call performs.
pub fn process_line(line: &Vec<u8>, base_url: &Vec<u8>) -> (r: LineOutcome)
    ensures
        match r {
            LineOutcome::Silent => sp_text(line@) is None,
            LineOutcome::Reply(bytes) => sp_text(line@) matches Some(req) && exists|resp: JSpec|
                #![auto]
                spec_reply_ok(req, resp) && bytes@ == ser(resp),
            LineOutcome::Call { plan, pending } => sp_text(line@) matches Some(req)
                && spec_call_ok(req, base_url@, plan, pending),
        },
{
    match parse_json(line.as_slice()) {
        None => LineOutcome::Silent,
        Some(req) => match handle_request(&req, base_url) {
            Step::Reply(resp) => {
                let bytes = to_json_bytes(&resp);
                proof {
                    assert(spec_reply_ok(req@, resp@) && bytes@ == ser(resp@));
                }
                LineOutcome::Reply(bytes)
            },
            Step::Call { plan, pending } => LineOutcome::Call { plan, pending },
        },
    }
}

/// Every reply the dispatcher produces carries the id of the request that
/// produced it, verbatim; null stands in only when the request had none.
pub proof fn lemma_id_correlation(req: JSpec, resp: JSpec)
    requires
        spec_reply_ok(req, resp),
    ensures
        jget(resp, utf8_bytes("id"@)) == Some(spec_req_id(req)),
{
}

} // verus!
