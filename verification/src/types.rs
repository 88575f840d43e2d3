//! Type definitions for X API requests and responses.

use vstd::prelude::*;
use vstd::string::StrSliceExecFns;
use crate::encoding::{dec_u64, u64_to_decimal, utf8_bytes};
use crate::json::{JsonValue, JSpec, jarr_view, jobj_view, obj_push};

verus! {

/// User information from X API.
pub struct User {
    pub id: String,
    pub name: String,
    pub username: String,
    pub description: Option<String>,
    pub public_metrics: Option<UserMetrics>,
    pub profile_image_url: Option<String>,
    pub verified: Option<bool>,
    pub created_at: Option<String>,
}

/// User metrics (followers, following, etc.).
pub struct UserMetrics {
    pub followers_count: u64,
    pub following_count: u64,
    pub tweet_count: u64,
    pub listed_count: u64,
}

/// Tweet information from X API.
pub struct Tweet {
    pub id: String,
    pub text: String,
    pub author_id: Option<String>,
    pub created_at: Option<String>,
    pub public_metrics: Option<TweetMetrics>,
    pub context_annotations: Option<Vec<ContextAnnotation>>,
    pub referenced_tweets: Option<Vec<ReferencedTweet>>,
}

/// Tweet metrics (likes, retweets, etc.).
pub struct TweetMetrics {
    pub retweet_count: u64,
    pub like_count: u64,
    pub reply_count: u64,
    pub quote_count: u64,
}

/// Context annotation for tweets.
pub struct ContextAnnotation {
    pub domain: Domain,
    pub entity: Entity,
}

/// Domain information.
pub struct Domain {
    pub id: String,
    pub name: String,
    pub description: Option<String>,
}

/// Entity information.
pub struct Entity {
    pub id: String,
    pub name: String,
    pub description: Option<String>,
}

/// Referenced tweet information (the wire field for the kind is `type`).
pub struct ReferencedTweet {
    pub tweet_type: String,
    pub id: String,
}

/// Response wrapper for X API.
pub struct XResponse<T> {
    pub data: Option<T>,
    pub includes: Option<Includes>,
    pub errors: Option<Vec<XApiError>>,
    pub meta: Option<JsonValue>,
}

/// Includes section for API responses.
pub struct Includes {
    pub users: Option<Vec<User>>,
    pub tweets: Option<Vec<Tweet>>,
}

/// X API error response entry (the wire field for the kind is `type`).
pub struct XApiError {
    pub title: String,
    pub detail: Option<String>,
    pub resource_type: Option<String>,
    pub parameter: Option<String>,
    pub value: Option<String>,
    pub error_type: Option<String>,
}

/// Request to post a tweet.
pub struct PostTweetRequest {
    pub text: String,
    pub reply: Option<ReplySettings>,
}

/// Reply settings for tweets.
pub struct ReplySettings {
    pub in_reply_to_tweet_id: Option<String>,
}

/// Search tweets request parameters.
pub struct SearchTweetsParams {
    pub query: String,
    pub max_results: Option<u32>,
    pub tweet_fields: Option<Vec<String>>,
    pub user_fields: Option<Vec<String>>,
    pub expansions: Option<Vec<String>>,
}

// ------------------------------------------------------------------
// Rendering the data model as the JSON the API speaks
// ------------------------------------------------------------------

/// An optional string, as JSON: the string or `null`.
pub open spec fn spec_opt_str_json(o: Option<String>) -> JSpec {
    match o {
        Some(s) => JSpec::Str(utf8_bytes(s@)),
        None => JSpec::Null,
    }
}

fn opt_str_json(o: &Option<String>) -> (r: JsonValue)
    ensures
        r@ == spec_opt_str_json(*o),
{
    match o {
        Some(s) => {
            proof {
                assert(*o == Some(*s));
            }
            JsonValue::Str(s.as_str().as_bytes_vec())
        },
        None => JsonValue::Null,
    }
}

/// An optional boolean, as JSON: the boolean or `null`.
pub open spec fn spec_opt_bool_json(o: Option<bool>) -> JSpec {
    match o {
        Some(b) => JSpec::Bool(b),
        None => JSpec::Null,
    }
}

fn opt_bool_json(o: &Option<bool>) -> (r: JsonValue)
    ensures
        r@ == spec_opt_bool_json(*o),
{
    match o {
        Some(b) => JsonValue::Bool(*b),
        None => JsonValue::Null,
    }
}

/// The JSON rendering of user metrics.
pub open spec fn spec_user_metrics_json(m: UserMetrics) -> JSpec {
    JSpec::Obj(
        seq![
            (utf8_bytes("followers_count"@), JSpec::Num(dec_u64(m.followers_count as nat))),
            (utf8_bytes("following_count"@), JSpec::Num(dec_u64(m.following_count as nat))),
            (utf8_bytes("tweet_count"@), JSpec::Num(dec_u64(m.tweet_count as nat))),
            (utf8_bytes("listed_count"@), JSpec::Num(dec_u64(m.listed_count as nat))),
        ],
    )
}

impl UserMetrics {
    /// Render the metrics as JSON.
    pub fn to_json(&self) -> (r: JsonValue)
        ensures
            r@ == spec_user_metrics_json(*self),
    {
        let mut members: Vec<(Vec<u8>, JsonValue)> = Vec::new();
        proof {
            assert(jobj_view(members@) =~= Seq::<(Seq<u8>, JSpec)>::empty());
        }
        obj_push(&mut members, "followers_count", JsonValue::Num(u64_to_decimal(self.followers_count)));
        obj_push(&mut members, "following_count", JsonValue::Num(u64_to_decimal(self.following_count)));
        obj_push(&mut members, "tweet_count", JsonValue::Num(u64_to_decimal(self.tweet_count)));
        obj_push(&mut members, "listed_count", JsonValue::Num(u64_to_decimal(self.listed_count)));
        proof {
            assert(jobj_view(members@) =~= spec_user_metrics_json(*self)->Obj_0);
        }
        JsonValue::Obj(members)
    }
}

/// The JSON rendering of a user profile: every field under its wire name,
/// absent optional values as `null`.
pub open spec fn spec_user_json(u: User) -> JSpec {
    JSpec::Obj(
        seq![
            (utf8_bytes("id"@), JSpec::Str(utf8_bytes(u.id@))),
            (utf8_bytes("name"@), JSpec::Str(utf8_bytes(u.name@))),
            (utf8_bytes("username"@), JSpec::Str(utf8_bytes(u.username@))),
            (utf8_bytes("description"@), spec_opt_str_json(u.description)),
            (
                utf8_bytes("public_metrics"@),
                match u.public_metrics {
                    Some(m) => spec_user_metrics_json(m),
                    None => JSpec::Null,
                },
            ),
            (utf8_bytes("profile_image_url"@), spec_opt_str_json(u.profile_image_url)),
            (utf8_bytes("verified"@), spec_opt_bool_json(u.verified)),
            (utf8_bytes("created_at"@), spec_opt_str_json(u.created_at)),
        ],
    )
}

impl User {
    /// Render the profile as JSON.
    pub fn to_json(&self) -> (r: JsonValue)
        ensures
            r@ == spec_user_json(*self),
    {
        let metrics = match &self.public_metrics {
            Some(m) => {
                proof {
                    assert(self.public_metrics == Some(*m));
                }
                m.to_json()
            },
            None => JsonValue::Null,
        };
        let mut members: Vec<(Vec<u8>, JsonValue)> = Vec::new();
        proof {
            assert(jobj_view(members@) =~= Seq::<(Seq<u8>, JSpec)>::empty());
        }
        obj_push(&mut members, "id", JsonValue::Str(self.id.as_str().as_bytes_vec()));
        obj_push(&mut members, "name", JsonValue::Str(self.name.as_str().as_bytes_vec()));
        obj_push(&mut members, "username", JsonValue::Str(self.username.as_str().as_bytes_vec()));
        obj_push(&mut members, "description", opt_str_json(&self.description));
        obj_push(&mut members, "public_metrics", metrics);
        obj_push(&mut members, "profile_image_url", opt_str_json(&self.profile_image_url));
        obj_push(&mut members, "verified", opt_bool_json(&self.verified));
        obj_push(&mut members, "created_at", opt_str_json(&self.created_at));
        proof {
            assert(jobj_view(members@) =~= spec_user_json(*self)->Obj_0);
        }
        JsonValue::Obj(members)
    }
}

/// The JSON rendering of tweet metrics.
pub open spec fn spec_tweet_metrics_json(m: TweetMetrics) -> JSpec {
    JSpec::Obj(
        seq![
            (utf8_bytes("retweet_count"@), JSpec::Num(dec_u64(m.retweet_count as nat))),
            (utf8_bytes("like_count"@), JSpec::Num(dec_u64(m.like_count as nat))),
            (utf8_bytes("reply_count"@), JSpec::Num(dec_u64(m.reply_count as nat))),
            (utf8_bytes("quote_count"@), JSpec::Num(dec_u64(m.quote_count as nat))),
        ],
    )
}

impl TweetMetrics {
    /// Render the metrics as JSON.
    pub fn to_json(&self) -> (r: JsonValue)
        ensures
            r@ == spec_tweet_metrics_json(*self),
    {
        let mut members: Vec<(Vec<u8>, JsonValue)> = Vec::new();
        proof {
            assert(jobj_view(members@) =~= Seq::<(Seq<u8>, JSpec)>::empty());
        }
        obj_push(&mut members, "retweet_count", JsonValue::Num(u64_to_decimal(self.retweet_count)));
        obj_push(&mut members, "like_count", JsonValue::Num(u64_to_decimal(self.like_count)));
        obj_push(&mut members, "reply_count", JsonValue::Num(u64_to_decimal(self.reply_count)));
        obj_push(&mut members, "quote_count", JsonValue::Num(u64_to_decimal(self.quote_count)));
        proof {
            assert(jobj_view(members@) =~= spec_tweet_metrics_json(*self)->Obj_0);
        }
        JsonValue::Obj(members)
    }
}

/// The JSON rendering of a domain or entity description: id, name, and the
/// optional description.
pub open spec fn spec_named_json(id: Seq<char>, name: Seq<char>, description: Option<String>) -> JSpec {
    JSpec::Obj(
        seq![
            (utf8_bytes("id"@), JSpec::Str(utf8_bytes(id))),
            (utf8_bytes("name"@), JSpec::Str(utf8_bytes(name))),
            (utf8_bytes("description"@), spec_opt_str_json(description)),
        ],
    )
}

fn named_json(id: &String, name: &String, description: &Option<String>) -> (r: JsonValue)
    ensures
        r@ == spec_named_json(id@, name@, *description),
{
    let mut members: Vec<(Vec<u8>, JsonValue)> = Vec::new();
    proof {
        assert(jobj_view(members@) =~= Seq::<(Seq<u8>, JSpec)>::empty());
    }
    obj_push(&mut members, "id", JsonValue::Str(id.as_str().as_bytes_vec()));
    obj_push(&mut members, "name", JsonValue::Str(name.as_str().as_bytes_vec()));
    obj_push(&mut members, "description", opt_str_json(description));
    proof {
        assert(jobj_view(members@) =~= spec_named_json(id@, name@, *description)->Obj_0);
    }
    JsonValue::Obj(members)
}

/// The JSON rendering of a context annotation: its domain and entity.
pub open spec fn spec_annotation_json(a: ContextAnnotation) -> JSpec {
    JSpec::Obj(
        seq![
            (
                utf8_bytes("domain"@),
                spec_named_json(a.domain.id@, a.domain.name@, a.domain.description),
            ),
            (
                utf8_bytes("entity"@),
                spec_named_json(a.entity.id@, a.entity.name@, a.entity.description),
            ),
        ],
    )
}

impl ContextAnnotation {
    /// Render the annotation as JSON.
    pub fn to_json(&self) -> (r: JsonValue)
        ensures
            r@ == spec_annotation_json(*self),
    {
        let mut members: Vec<(Vec<u8>, JsonValue)> = Vec::new();
        proof {
            assert(jobj_view(members@) =~= Seq::<(Seq<u8>, JSpec)>::empty());
        }
        obj_push(
            &mut members,
            "domain",
            named_json(&self.domain.id, &self.domain.name, &self.domain.description),
        );
        obj_push(
            &mut members,
            "entity",
            named_json(&self.entity.id, &self.entity.name, &self.entity.description),
        );
        proof {
            assert(jobj_view(members@) =~= spec_annotation_json(*self)->Obj_0);
        }
        JsonValue::Obj(members)
    }
}

/// The JSON rendering of a referenced tweet: its kind under the wire name
/// `type`, and its id.
pub open spec fn spec_referenced_json(t: ReferencedTweet) -> JSpec {
    JSpec::Obj(
        seq![
            (utf8_bytes("type"@), JSpec::Str(utf8_bytes(t.tweet_type@))),
            (utf8_bytes("id"@), JSpec::Str(utf8_bytes(t.id@))),
        ],
    )
}

impl ReferencedTweet {
    /// Render the reference as JSON.
    pub fn to_json(&self) -> (r: JsonValue)
        ensures
            r@ == spec_referenced_json(*self),
    {
        let mut members: Vec<(Vec<u8>, JsonValue)> = Vec::new();
        proof {
            assert(jobj_view(members@) =~= Seq::<(Seq<u8>, JSpec)>::empty());
        }
        obj_push(&mut members, "type", JsonValue::Str(self.tweet_type.as_str().as_bytes_vec()));
        obj_push(&mut members, "id", JsonValue::Str(self.id.as_str().as_bytes_vec()));
        proof {
            assert(jobj_view(members@) =~= spec_referenced_json(*self)->Obj_0);
        }
        JsonValue::Obj(members)
    }
}

/// The JSON renderings of a list of annotations, in order.
pub open spec fn spec_annotations_json(s: Seq<ContextAnnotation>) -> Seq<JSpec>
    decreases s.len(),
{
    if s.len() == 0 {
        Seq::empty()
    } else {
        seq![spec_annotation_json(s[0])] + spec_annotations_json(s.drop_first())
    }
}

proof fn lemma_annotations_json_push(s: Seq<ContextAnnotation>, a: ContextAnnotation)
    ensures
        spec_annotations_json(s.push(a)) == spec_annotations_json(s) + seq![
            spec_annotation_json(a),
        ],
    decreases s.len(),
{
    if s.len() == 0 {
        assert(s.push(a)[0] == a);
        assert(s.push(a).len() == 1);
        assert(s.push(a).drop_first() =~= Seq::<ContextAnnotation>::empty());
        assert(spec_annotations_json(s.push(a)) == seq![spec_annotation_json(a)]
            + spec_annotations_json(Seq::<ContextAnnotation>::empty()));
        assert(spec_annotations_json(Seq::<ContextAnnotation>::empty()) =~= Seq::<JSpec>::empty());
        assert(spec_annotations_json(s.push(a)) =~= spec_annotations_json(s) + seq![
            spec_annotation_json(a),
        ]);
    } else {
        assert(s.push(a)[0] == s[0]);
        assert(s.push(a).drop_first() =~= s.drop_first().push(a));
        lemma_annotations_json_push(s.drop_first(), a);
        assert(spec_annotations_json(s.push(a)) =~= spec_annotations_json(s) + seq![
            spec_annotation_json(a),
        ]);
    }
}

/// The JSON renderings of a list of references, in order.
pub open spec fn spec_references_json(s: Seq<ReferencedTweet>) -> Seq<JSpec>
    decreases s.len(),
{
    if s.len() == 0 {
        Seq::empty()
    } else {
        seq![spec_referenced_json(s[0])] + spec_references_json(s.drop_first())
    }
}

proof fn lemma_references_json_push(s: Seq<ReferencedTweet>, t: ReferencedTweet)
    ensures
        spec_references_json(s.push(t)) == spec_references_json(s) + seq![
            spec_referenced_json(t),
        ],
    decreases s.len(),
{
    if s.len() == 0 {
        assert(s.push(t)[0] == t);
        assert(s.push(t).len() == 1);
        assert(s.push(t).drop_first() =~= Seq::<ReferencedTweet>::empty());
        assert(spec_references_json(s.push(t)) == seq![spec_referenced_json(t)]
            + spec_references_json(Seq::<ReferencedTweet>::empty()));
        assert(spec_references_json(Seq::<ReferencedTweet>::empty()) =~= Seq::<JSpec>::empty());
        assert(spec_references_json(s.push(t)) =~= spec_references_json(s) + seq![
            spec_referenced_json(t),
        ]);
    } else {
        assert(s.push(t)[0] == s[0]);
        assert(s.push(t).drop_first() =~= s.drop_first().push(t));
        lemma_references_json_push(s.drop_first(), t);
        assert(spec_references_json(s.push(t)) =~= spec_references_json(s) + seq![
            spec_referenced_json(t),
        ]);
    }
}

/// The JSON rendering of a tweet: every field under its wire name, absent
/// optional values as `null`.
pub open spec fn spec_tweet_json(t: Tweet) -> JSpec {
    JSpec::Obj(
        seq![
            (utf8_bytes("id"@), JSpec::Str(utf8_bytes(t.id@))),
            (utf8_bytes("text"@), JSpec::Str(utf8_bytes(t.text@))),
            (utf8_bytes("author_id"@), spec_opt_str_json(t.author_id)),
            (utf8_bytes("created_at"@), spec_opt_str_json(t.created_at)),
            (
                utf8_bytes("public_metrics"@),
                match t.public_metrics {
                    Some(m) => spec_tweet_metrics_json(m),
                    None => JSpec::Null,
                },
            ),
            (
                utf8_bytes("context_annotations"@),
                match t.context_annotations {
                    Some(anns) => JSpec::Arr(spec_annotations_json(anns@)),
                    None => JSpec::Null,
                },
            ),
            (
                utf8_bytes("referenced_tweets"@),
                match t.referenced_tweets {
                    Some(refs) => JSpec::Arr(spec_references_json(refs@)),
                    None => JSpec::Null,
                },
            ),
        ],
    )
}

fn annotations_json(anns: &Vec<ContextAnnotation>) -> (r: Vec<JsonValue>)
    ensures
        jarr_view(r@) == spec_annotations_json(anns@),
{
    let mut items: Vec<JsonValue> = Vec::new();
    let mut i: usize = 0;
    proof {
        assert(anns@.take(0) =~= Seq::<ContextAnnotation>::empty());
        assert(jarr_view(items@) =~= spec_annotations_json(anns@.take(0)));
    }
    while i < anns.len()
        invariant
            i <= anns@.len(),
            jarr_view(items@) == spec_annotations_json(anns@.take(i as int)),
        decreases anns@.len() - i,
    {
        let item = anns[i].to_json();
        proof {
            crate::json::lemma_jarr_view_push_pub(items@, item);
            lemma_annotations_json_push(anns@.take(i as int), anns@[i as int]);
            assert(anns@.take(i as int).push(anns@[i as int]) =~= anns@.take(i + 1));
            assert(jarr_view(items@).push(item@) =~= jarr_view(items@) + seq![item@]);
        }
        items.push(item);
        i = i + 1;
    }
    proof {
        assert(anns@.take(anns@.len() as int) =~= anns@);
    }
    items
}

fn references_json(refs: &Vec<ReferencedTweet>) -> (r: Vec<JsonValue>)
    ensures
        jarr_view(r@) == spec_references_json(refs@),
{
    let mut items: Vec<JsonValue> = Vec::new();
    let mut i: usize = 0;
    proof {
        assert(refs@.take(0) =~= Seq::<ReferencedTweet>::empty());
        assert(jarr_view(items@) =~= spec_references_json(refs@.take(0)));
    }
    while i < refs.len()
        invariant
            i <= refs@.len(),
            jarr_view(items@) == spec_references_json(refs@.take(i as int)),
        decreases refs@.len() - i,
    {
        let item = refs[i].to_json();
        proof {
            crate::json::lemma_jarr_view_push_pub(items@, item);
            lemma_references_json_push(refs@.take(i as int), refs@[i as int]);
            assert(refs@.take(i as int).push(refs@[i as int]) =~= refs@.take(i + 1));
            assert(jarr_view(items@).push(item@) =~= jarr_view(items@) + seq![item@]);
        }
        items.push(item);
        i = i + 1;
    }
    proof {
        assert(refs@.take(refs@.len() as int) =~= refs@);
    }
    items
}

impl Tweet {
    /// Render the tweet as JSON.
    pub fn to_json(&self) -> (r: JsonValue)
        ensures
            r@ == spec_tweet_json(*self),
    {
        let metrics = match &self.public_metrics {
            Some(m) => {
                proof {
                    assert(self.public_metrics == Some(*m));
                }
                m.to_json()
            },
            None => JsonValue::Null,
        };
        let annotations = match &self.context_annotations {
            Some(anns) => {
                proof {
                    assert(self.context_annotations == Some(*anns));
                }
                JsonValue::Arr(annotations_json(anns))
            },
            None => JsonValue::Null,
        };
        let references = match &self.referenced_tweets {
            Some(refs) => {
                proof {
                    assert(self.referenced_tweets == Some(*refs));
                }
                JsonValue::Arr(references_json(refs))
            },
            None => JsonValue::Null,
        };
        let mut members: Vec<(Vec<u8>, JsonValue)> = Vec::new();
        proof {
            assert(jobj_view(members@) =~= Seq::<(Seq<u8>, JSpec)>::empty());
        }
        obj_push(&mut members, "id", JsonValue::Str(self.id.as_str().as_bytes_vec()));
        obj_push(&mut members, "text", JsonValue::Str(self.text.as_str().as_bytes_vec()));
        obj_push(&mut members, "author_id", opt_str_json(&self.author_id));
        obj_push(&mut members, "created_at", opt_str_json(&self.created_at));
        obj_push(&mut members, "public_metrics", metrics);
        obj_push(&mut members, "context_annotations", annotations);
        obj_push(&mut members, "referenced_tweets", references);
        proof {
            assert(jobj_view(members@) =~= spec_tweet_json(*self)->Obj_0);
        }
        JsonValue::Obj(members)
    }
}

} // verus!
