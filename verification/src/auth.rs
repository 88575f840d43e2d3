//! Authentication module for X API OAuth 1.0a.
//!
//! The header-construction algorithm is stated byte for byte: canonical
//! parameter ordering, percent-encoding, signature base string, HMAC-SHA1
//! signing key, and header rendering. The HMAC digest, the base64 alphabet,
//! the random source and the clock come from outside crates behind trusted
//! wrappers; everything that combines them is verified.

use vstd::prelude::*;
use vstd::string::StrSliceExecFns;
use vstd::string::StringExecFns;
use vstd::string::StringSliceAdditionalSpecFns;
use vstd::utf8::is_ascii_chars;
use hmac::Hmac;
use hmac::KeyInit;
use hmac::Mac;
use sha1::Sha1;
use base64::Engine;
use base64::prelude::BASE64_STANDARD;
use crate::encoding::{
    pe, ascii_bytes, utf8_bytes, dec_i64, lemma_pe_ascii, percent_encode_bytes, push_all,
    lit_bytes, i64_to_decimal, ascii_to_string,
};
use crate::params::{ParamMap, sorted_insert, spec_param_string, lemma_sorted_insert_sorted,
    lemma_sorted_insert_len};
use crate::error::{XError, XResult};

verus! {

/// What the HMAC-SHA1 primitive returns for a key and a message.
pub uninterp spec fn hmac_sha1_of(key: Seq<u8>, msg: Seq<u8>) -> Seq<u8>;

/// What the standard base64 encoding of a byte sequence is.
pub uninterp spec fn base64_of(data: Seq<u8>) -> Seq<u8>;

/// Relies on hmac's `Hmac<Sha1>` (RFC 2104 over SHA-1): the authentication
/// code is a function of key and message alone, and a SHA-1 digest is 20
/// bytes. `new_from_slice` accepts keys of any length for HMAC.
#[verifier::external_body]
fn hmac_sha1(key: &Vec<u8>, msg: &Vec<u8>) -> (r: Vec<u8>)
    ensures
        r@ == hmac_sha1_of(key@, msg@),
        r@.len() == 20,
{
    let mac = Hmac::<Sha1>::new_from_slice(key.as_slice());
    let mut mac = mac.expect("HMAC accepts keys of any length");
    mac.update(msg.as_slice());
    mac.finalize().into_bytes().to_vec()
}

/// Relies on base64's `BASE64_STANDARD` engine: the standard alphabet with
/// `=` padding. The encoding is a function of the input alone, its length is
/// four bytes for every started group of three, and every output byte is an
/// ASCII alphabet or padding character.
#[verifier::external_body]
fn base64_encode(data: &Vec<u8>) -> (r: Vec<u8>)
    ensures
        r@ == base64_of(data@),
        r@.len() == 4 * ((data@.len() + 2) / 3),
        forall|i: int| 0 <= i < r@.len() ==> r@[i] < 0x80,
{
    BASE64_STANDARD.encode(data.as_slice()).into_bytes()
}

/// Relies on rand's `random_range`: a uniformly random value drawn from the
/// given non-empty range, here below 62.
#[verifier::external_body]
fn random_below_62() -> (r: u8)
    ensures
        r < 62,
{
    rand::random_range(0..62u8)
}

/// Relies on chrono's `Utc::now().timestamp()`: whole seconds since the Unix
/// epoch of the current UTC wall-clock time; nothing is assumed of the value.
#[verifier::external_body]
fn unix_timestamp_now() -> i64 {
    chrono::Utc::now().timestamp()
}

/// An ASCII letter or digit.
pub open spec fn is_alnum_byte(b: u8) -> bool {
    (0x41 <= b <= 0x5a) || (0x61 <= b <= 0x7a) || (0x30 <= b <= 0x39)
}

/// An ASCII letter or digit, as a character.
pub open spec fn is_alnum_char(c: char) -> bool {
    (65 <= c as u32 <= 90) || (97 <= c as u32 <= 122) || (48 <= c as u32 <= 57)
}

fn nonce_byte(idx: u8) -> (r: u8)
    requires
        idx < 62,
    ensures
        is_alnum_byte(r),
{
    if idx <= 25 {
        0x41 + idx
    } else if idx <= 51 {
        0x61 + (idx - 26)
    } else {
        0x30 + (idx - 52)
    }
}

/// Generate a random nonce for OAuth: 32 characters, each drawn uniformly
/// from the 62-character alphabet `A-Z a-z 0-9`.
pub fn generate_nonce() -> (r: String)
    ensures
        r@.len() == 32,
        forall|i: int| 0 <= i < r@.len() ==> is_alnum_char(#[trigger] r@[i]),
{
    let mut v: Vec<u8> = Vec::new();
    let mut i: usize = 0;
    while i < 32
        invariant
            i <= 32,
            v@.len() == i,
            forall|j: int| 0 <= j < i ==> is_alnum_byte(#[trigger] v@[j]),
        decreases 32 - i,
    {
        let idx = random_below_62();
        v.push(nonce_byte(idx));
        i = i + 1;
    }
    let r = ascii_to_string(v);
    proof {
        assert forall|i2: int| 0 <= i2 < r@.len() implies is_alnum_char(#[trigger] r@[i2]) by {
            assert(r@[i2] == v@[i2] as char);
            assert(is_alnum_byte(v@[i2]));
        }
    }
    r
}

/// ASCII uppercasing of one byte; other bytes pass through.
pub open spec fn upper_byte(b: u8) -> u8 {
    if 0x61 <= b <= 0x7a {
        (b - 0x20) as u8
    } else {
        b
    }
}

/// ASCII uppercasing of a byte sequence (the HTTP method of the base string).
pub open spec fn upper(s: Seq<u8>) -> Seq<u8> {
    s.map_values(|b: u8| upper_byte(b))
}

/// Uppercase the ASCII letters of a byte sequence.
pub fn ascii_uppercase(s: &[u8]) -> (r: Vec<u8>)
    ensures
        r@ == upper(s@),
{
    let mut r: Vec<u8> = Vec::new();
    let mut i: usize = 0;
    while i < s.len()
        invariant
            i <= s@.len(),
            r@.len() == i,
            forall|j: int| 0 <= j < i ==> r@[j] == upper_byte(#[trigger] s@[j]),
        decreases s@.len() - i,
    {
        let b = s[i];
        if 0x61 <= b && b <= 0x7a {
            r.push(b - 0x20);
        } else {
            r.push(b);
        }
        i = i + 1;
    }
    proof {
        assert(r@ =~= upper(s@));
    }
    r
}

/// OAuth 1.0a credentials for X API.
pub struct OAuthCredentials {
    pub consumer_key: String,
    pub consumer_secret: String,
    pub access_token: String,
    pub access_token_secret: String,
}

/// The six OAuth parameters present before signing, in canonical order.
pub open spec fn oauth_base_entries(ck: Seq<u8>, token: Seq<u8>, nonce: Seq<u8>, ts: int) -> Seq<
    (Seq<u8>, Seq<u8>),
> {
    sorted_insert(
        sorted_insert(
            sorted_insert(
                sorted_insert(
                    sorted_insert(
                        sorted_insert(
                            Seq::empty(),
                            ascii_bytes("oauth_consumer_key"@),
                            ck,
                        ),
                        ascii_bytes("oauth_nonce"@),
                        nonce,
                    ),
                    ascii_bytes("oauth_signature_method"@),
                    ascii_bytes("HMAC-SHA1"@),
                ),
                ascii_bytes("oauth_timestamp"@),
                dec_i64(ts),
            ),
            ascii_bytes("oauth_token"@),
            token,
        ),
        ascii_bytes("oauth_version"@),
        ascii_bytes("1.0"@),
    )
}

/// Canonical insertion of every entry of `req`, in order: on a key collision
/// the request parameter replaces what was there.
pub open spec fn insert_all(
    s: Seq<(Seq<u8>, Seq<u8>)>,
    req: Seq<(Seq<u8>, Seq<u8>)>,
) -> Seq<(Seq<u8>, Seq<u8>)>
    decreases req.len(),
{
    if req.len() == 0 {
        s
    } else {
        insert_all(sorted_insert(s, req[0].0, req[0].1), req.drop_first())
    }
}

proof fn lemma_insert_all_push(
    s: Seq<(Seq<u8>, Seq<u8>)>,
    req: Seq<(Seq<u8>, Seq<u8>)>,
    p: (Seq<u8>, Seq<u8>),
)
    ensures
        insert_all(s, req.push(p)) == sorted_insert(insert_all(s, req), p.0, p.1),
    decreases req.len(),
{
    if req.len() == 0 {
        assert(req.push(p)[0] == p);
        assert(req.push(p).drop_first() =~= Seq::<(Seq<u8>, Seq<u8>)>::empty());
        assert(insert_all(s, req.push(p)) == insert_all(sorted_insert(s, p.0, p.1), req.push(
            p,
        ).drop_first()));
    } else {
        assert(req.push(p)[0] == req[0]);
        assert(req.push(p).drop_first() =~= req.drop_first().push(p));
        lemma_insert_all_push(sorted_insert(s, req[0].0, req[0].1), req.drop_first(), p);
    }
}

proof fn lemma_insert_all_sorted(s: Seq<(Seq<u8>, Seq<u8>)>, req: Seq<(Seq<u8>, Seq<u8>)>)
    requires
        crate::params::sorted_keys(s),
    ensures
        crate::params::sorted_keys(insert_all(s, req)),
    decreases req.len(),
{
    if req.len() > 0 {
        lemma_sorted_insert_sorted(s, req[0].0, req[0].1);
        lemma_insert_all_sorted(sorted_insert(s, req[0].0, req[0].1), req.drop_first());
    }
}

/// The full parameter set that is signed: the six OAuth parameters extended
/// with the caller's request parameters.
pub open spec fn signing_entries(
    ck: Seq<u8>,
    token: Seq<u8>,
    nonce: Seq<u8>,
    ts: int,
    req: Seq<(Seq<u8>, Seq<u8>)>,
) -> Seq<(Seq<u8>, Seq<u8>)> {
    insert_all(oauth_base_entries(ck, token, nonce, ts), req)
}

/// The signature base string: uppercased method, encoded URL and encoded
/// parameter string, joined with `&`.
pub open spec fn spec_base_string(
    method: Seq<u8>,
    url: Seq<u8>,
    entries: Seq<(Seq<u8>, Seq<u8>)>,
) -> Seq<u8> {
    upper(method) + seq![0x26u8] + pe(url) + seq![0x26u8] + pe(spec_param_string(entries))
}

/// The signing key: encoded consumer secret and encoded token secret, joined
/// with `&`.
pub open spec fn spec_signing_key(cs: Seq<u8>, ats: Seq<u8>) -> Seq<u8> {
    pe(cs) + seq![0x26u8] + pe(ats)
}

/// The OAuth signature: base64 of the HMAC-SHA1 of the base string under the
/// signing key.
pub open spec fn spec_signature(
    cs: Seq<u8>,
    ats: Seq<u8>,
    method: Seq<u8>,
    url: Seq<u8>,
    entries: Seq<(Seq<u8>, Seq<u8>)>,
) -> Seq<u8> {
    base64_of(hmac_sha1_of(spec_signing_key(cs, ats), spec_base_string(method, url, entries)))
}

/// One rendered header entry: `key="encoded-value"`.
pub open spec fn spec_header_pair(p: (Seq<u8>, Seq<u8>)) -> Seq<u8> {
    p.0 + seq![0x3du8, 0x22u8] + pe(p.1) + seq![0x22u8]
}

/// The rendered header entries, comma-space separated, in canonical order.
pub open spec fn spec_header_body(s: Seq<(Seq<u8>, Seq<u8>)>) -> Seq<u8>
    decreases s.len(),
{
    if s.len() == 0 {
        Seq::empty()
    } else if s.len() == 1 {
        spec_header_pair(s[0])
    } else {
        spec_header_pair(s[0]) + seq![0x2cu8, 0x20u8] + spec_header_body(s.drop_first())
    }
}

/// The entries of the rendered header: the six OAuth parameters plus the
/// signature.
pub open spec fn header_entries(
    ck: Seq<u8>,
    cs: Seq<u8>,
    token: Seq<u8>,
    ats: Seq<u8>,
    method: Seq<u8>,
    url: Seq<u8>,
    nonce: Seq<u8>,
    ts: int,
    req: Seq<(Seq<u8>, Seq<u8>)>,
) -> Seq<(Seq<u8>, Seq<u8>)> {
    sorted_insert(
        oauth_base_entries(ck, token, nonce, ts),
        ascii_bytes("oauth_signature"@),
        spec_signature(cs, ats, method, url, signing_entries(ck, token, nonce, ts, req)),
    )
}

/// The complete authorization header, as bytes: the literal prefix `OAuth `
/// followed by the rendered entries.
pub open spec fn spec_auth_header(
    ck: Seq<u8>,
    cs: Seq<u8>,
    token: Seq<u8>,
    ats: Seq<u8>,
    method: Seq<u8>,
    url: Seq<u8>,
    nonce: Seq<u8>,
    ts: int,
    req: Seq<(Seq<u8>, Seq<u8>)>,
) -> Seq<u8> {
    ascii_bytes("OAuth "@) + spec_header_body(
        header_entries(ck, cs, token, ats, method, url, nonce, ts, req),
    )
}

/// The header of a credential, over the UTF-8 bytes of its four secrets.
pub open spec fn spec_auth_header_of(
    cred: OAuthCredentials,
    method: Seq<char>,
    url: Seq<char>,
    nonce: Seq<u8>,
    ts: int,
    req: Seq<(Seq<u8>, Seq<u8>)>,
) -> Seq<char> {
    spec_auth_header(
        utf8_bytes(cred.consumer_key@),
        utf8_bytes(cred.consumer_secret@),
        utf8_bytes(cred.access_token@),
        utf8_bytes(cred.access_token_secret@),
        utf8_bytes(method),
        utf8_bytes(url),
        nonce,
        ts,
        req,
    ).map_values(|b: u8| b as char)
}

/// A well-formed nonce: 32 ASCII letters or digits.
pub open spec fn valid_nonce(nonce: Seq<u8>) -> bool {
    nonce.len() == 32 && forall|i: int| 0 <= i < nonce.len() ==> is_alnum_byte(#[trigger] nonce[i])
}

/// Every key of the entry sequence is ASCII.
pub open spec fn all_keys_ascii(s: Seq<(Seq<u8>, Seq<u8>)>) -> bool {
    forall|i: int, j: int|
        0 <= i < s.len() && 0 <= j < s[i].0.len() ==> #[trigger] s[i].0[j] < 0x80
}

proof fn lemma_sorted_insert_keys_ascii(s: Seq<(Seq<u8>, Seq<u8>)>, k: Seq<u8>, v: Seq<u8>)
    requires
        all_keys_ascii(s),
        forall|j: int| 0 <= j < k.len() ==> k[j] < 0x80,
    ensures
        all_keys_ascii(sorted_insert(s, k, v)),
    decreases s.len(),
{
    let r = sorted_insert(s, k, v);
    if s.len() == 0 {
        assert forall|i: int, j: int|
            0 <= i < r.len() && 0 <= j < r[i].0.len() implies #[trigger] r[i].0[j] < 0x80 by {
            assert(r[i].0 == k);
        }
    } else if crate::params::lex_lt(k, s[0].0) || k == s[0].0 {
        assert forall|i: int, j: int|
            0 <= i < r.len() && 0 <= j < r[i].0.len() implies #[trigger] r[i].0[j] < 0x80 by {
            if i == 0 {
                assert(r[i].0 == k);
            } else if crate::params::lex_lt(k, s[0].0) {
                assert(r[i].0 == s[i - 1].0);
            } else {
                assert(r[i].0 == s[i].0);
            }
        }
    } else {
        let t = s.drop_first();
        assert(all_keys_ascii(t)) by {
            assert forall|i: int, j: int|
                0 <= i < t.len() && 0 <= j < t[i].0.len() implies #[trigger] t[i].0[j] < 0x80 by {
                assert(t[i].0 == s[i + 1].0);
            }
        }
        lemma_sorted_insert_keys_ascii(t, k, v);
        let rt = sorted_insert(t, k, v);
        assert forall|i: int, j: int|
            0 <= i < r.len() && 0 <= j < r[i].0.len() implies #[trigger] r[i].0[j] < 0x80 by {
            if i == 0 {
                assert(r[i].0 == s[0].0);
            } else {
                assert(r[i].0 == rt[i - 1].0);
            }
        }
    }
}

proof fn lemma_header_body_ascii(s: Seq<(Seq<u8>, Seq<u8>)>)
    requires
        all_keys_ascii(s),
    ensures
        forall|i: int| 0 <= i < spec_header_body(s).len() ==> #[trigger] spec_header_body(s)[i]
            < 0x80,
    decreases s.len(),
{
    if s.len() == 0 {
    } else {
        let p = spec_header_pair(s[0]);
        assert(forall|j: int| 0 <= j < s[0].0.len() ==> #[trigger] s[0].0[j] < 0x80);
        lemma_pe_ascii(s[0].1);
        assert forall|i: int| 0 <= i < p.len() implies #[trigger] p[i] < 0x80 by {
            if i < s[0].0.len() {
                assert(p[i] == s[0].0[i]);
            } else if i < s[0].0.len() + 2 {
            } else if i < p.len() - 1 {
                assert(p[i] == pe(s[0].1)[i - s[0].0.len() - 2]);
            }
        }
        if s.len() > 1 {
            let t = s.drop_first();
            assert(all_keys_ascii(t)) by {
                assert forall|i: int, j: int|
                    0 <= i < t.len() && 0 <= j < t[i].0.len() implies #[trigger] t[i].0[j]
                    < 0x80 by {
                    assert(t[i].0 == s[i + 1].0);
                }
            }
            lemma_header_body_ascii(t);
            assert forall|i: int|
                0 <= i < spec_header_body(s).len() implies #[trigger] spec_header_body(s)[i]
                < 0x80 by {
                if i < p.len() {
                    assert(spec_header_body(s)[i] == p[i]);
                } else if i >= p.len() + 2 {
                    assert(spec_header_body(s)[i] == spec_header_body(t)[i - p.len() - 2]);
                }
            }
        }
    }
}

impl OAuthCredentials {
    /// Create new OAuth credentials.
    pub fn new(
        consumer_key: String,
        consumer_secret: String,
        access_token: String,
        access_token_secret: String,
    ) -> (r: Self)
        ensures
            r.consumer_key@ == consumer_key@,
            r.consumer_secret@ == consumer_secret@,
            r.access_token@ == access_token@,
            r.access_token_secret@ == access_token_secret@,
    {
        Self { consumer_key, consumer_secret, access_token, access_token_secret }
    }

    /// Build the six pre-signature OAuth parameters in canonical order.
    fn oauth_base_map(&self, nonce: &Vec<u8>, timestamp: i64) -> (r: ParamMap)
        ensures
            r@ == oauth_base_entries(
                utf8_bytes(self.consumer_key@),
                utf8_bytes(self.access_token@),
                nonce@,
                timestamp as int,
            ),
            r.wf(),
    {
        proof {
            reveal_strlit("oauth_consumer_key");
            reveal_strlit("oauth_nonce");
            reveal_strlit("oauth_signature_method");
            reveal_strlit("oauth_timestamp");
            reveal_strlit("oauth_token");
            reveal_strlit("oauth_version");
            reveal_strlit("HMAC-SHA1");
            reveal_strlit("1.0");
        }
        let mut m = ParamMap::new();
        m.insert(lit_bytes("oauth_consumer_key"), self.consumer_key.as_str().as_bytes_vec());
        m.insert(lit_bytes("oauth_nonce"), nonce.clone());
        m.insert(lit_bytes("oauth_signature_method"), lit_bytes("HMAC-SHA1"));
        m.insert(lit_bytes("oauth_timestamp"), i64_to_decimal(timestamp));
        m.insert(lit_bytes("oauth_token"), self.access_token.as_str().as_bytes_vec());
        m.insert(lit_bytes("oauth_version"), lit_bytes("1.0"));
        m
    }

    /// Generate the OAuth 1.0a authorization header for the given nonce and
    /// timestamp: a pure function of its arguments. An empty consumer secret
    /// or token secret is invalid input and is rejected before signing.
    pub fn generate_auth_header_at(
        &self,
        method: &str,
        url: &str,
        params: &ParamMap,
        nonce: &Vec<u8>,
        timestamp: i64,
    ) -> (r: XResult<String>)
        requires
            params.wf(),
        ensures
            match r {
                Ok(h) => self.consumer_secret@.len() > 0 && self.access_token_secret@.len() > 0
                    && h@ == spec_auth_header_of(
                    *self,
                    method@,
                    url@,
                    nonce@,
                    timestamp as int,
                    params@,
                ),
                Err(e) => (self.consumer_secret@.len() == 0 || self.access_token_secret@.len()
                    == 0) && e matches XError::Auth(_),
            },
    {
        if self.consumer_secret.as_str().is_empty() || self.access_token_secret.as_str().is_empty() {
            return Err(
                XError::Auth(String::from_str("empty consumer secret or token secret")),
            );
        }
        let ghost ck = utf8_bytes(self.consumer_key@);
        let ghost cs = utf8_bytes(self.consumer_secret@);
        let ghost token = utf8_bytes(self.access_token@);
        let ghost ats = utf8_bytes(self.access_token_secret@);

        // The six OAuth parameters.
        let oauth_map = self.oauth_base_map(nonce, timestamp);

        // The full parameter set that is signed: OAuth parameters first,
        // then the request parameters (which replace on a key collision).
        let mut all = self.oauth_base_map(nonce, timestamp);
        let entries = params.entries();
        let ghost base = all@;
        let mut i: usize = 0;
        proof {
            assert(params@.take(0) =~= Seq::<(Seq<u8>, Seq<u8>)>::empty());
        }
        while i < entries.len()
            invariant
                i <= entries@.len(),
                entries@.map_values(
                    |e: (Vec<u8>, Vec<u8>)| crate::params::entry_view(e),
                ) == params@,
                all@ == insert_all(base, params@.take(i as int)),
                all.wf(),
            decreases entries@.len() - i,
        {
            let k = entries[i].0.clone();
            let v = entries[i].1.clone();
            proof {
                assert(params@[i as int] == crate::params::entry_view(entries@[i as int]));
            }
            all.insert(k, v);
            proof {
                lemma_insert_all_push(base, params@.take(i as int), params@[i as int]);
                assert(params@.take(i as int).push(params@[i as int]) =~= params@.take(i + 1));
            }
            i = i + 1;
        }
        proof {
            assert(params@.take(params@.len() as int) =~= params@);
        }

        // The signature base string.
        let param_string = all.param_string();
        let method_bytes = method.as_bytes_vec();
        let mut base_string = ascii_uppercase(method_bytes.as_slice());
        base_string.push(0x26);
        let url_bytes = url.as_bytes_vec();
        let url_encoded = percent_encode_bytes(url_bytes.as_slice());
        push_all(&mut base_string, url_encoded.as_slice());
        base_string.push(0x26);
        let ps_encoded = percent_encode_bytes(param_string.as_slice());
        push_all(&mut base_string, ps_encoded.as_slice());
        proof {
            assert(base_string@ =~= spec_base_string(
                utf8_bytes(method@),
                utf8_bytes(url@),
                insert_all(base, params@),
            ));
        }

        // The signing key.
        let cs_bytes = self.consumer_secret.as_str().as_bytes_vec();
        let mut signing_key = percent_encode_bytes(cs_bytes.as_slice());
        signing_key.push(0x26);
        let ats_bytes = self.access_token_secret.as_str().as_bytes_vec();
        let ats_encoded = percent_encode_bytes(ats_bytes.as_slice());
        push_all(&mut signing_key, ats_encoded.as_slice());
        proof {
            assert(signing_key@ =~= spec_signing_key(cs, ats));
        }

        // HMAC-SHA1, then base64.
        let digest = hmac_sha1(&signing_key, &base_string);
        let signature = base64_encode(&digest);

        // The rendered header: the six OAuth parameters plus the signature.
        let mut with_sig = oauth_map;
        proof {
            reveal_strlit("oauth_signature");
        }
        with_sig.insert(lit_bytes("oauth_signature"), signature);
        let body = render_header_body(&with_sig);
        proof {
            reveal_strlit("OAuth ");
        }
        let mut header = lit_bytes("OAuth ");
        push_all(&mut header, body.as_slice());
        proof {
            assert(header@ =~= spec_auth_header(
                ck,
                cs,
                token,
                ats,
                utf8_bytes(method@),
                utf8_bytes(url@),
                nonce@,
                timestamp as int,
                params@,
            ));
            // The header is ASCII throughout: literal keys, quoted
            // percent-encoded values, and the literal prefix.
            lemma_base_keys_ascii(ck, token, nonce@, timestamp as int);
            lemma_sorted_insert_keys_ascii(
                oauth_base_entries(ck, token, nonce@, timestamp as int),
                ascii_bytes("oauth_signature"@),
                spec_signature(
                    cs,
                    ats,
                    utf8_bytes(method@),
                    utf8_bytes(url@),
                    signing_entries(ck, token, nonce@, timestamp as int, params@),
                ),
            );
            lemma_header_body_ascii(with_sig@);
        }
        let header_string = ascii_to_string(header);
        Ok(header_string)
    }

    /// Generate OAuth 1.0a authorization header, drawing a fresh nonce and
    /// reading the clock.
    pub fn generate_auth_header(&self, method: &str, url: &str, params: &ParamMap) -> (r: XResult<
        String,
    >)
        requires
            params.wf(),
        ensures
            match r {
                Ok(h) => self.consumer_secret@.len() > 0 && self.access_token_secret@.len() > 0
                    && exists|nonce: Seq<u8>, ts: int|
                    valid_nonce(nonce) && h@ == spec_auth_header_of(
                        *self,
                        method@,
                        url@,
                        nonce,
                        ts,
                        params@,
                    ),
                Err(e) => (self.consumer_secret@.len() == 0 || self.access_token_secret@.len()
                    == 0) && e matches XError::Auth(_),
            },
    {
        let mut nonce_bytes: Vec<u8> = Vec::new();
        let mut i: usize = 0;
        while i < 32
            invariant
                i <= 32,
                nonce_bytes@.len() == i,
                forall|j: int| 0 <= j < i ==> is_alnum_byte(#[trigger] nonce_bytes@[j]),
            decreases 32 - i,
        {
            let idx = random_below_62();
            nonce_bytes.push(nonce_byte(idx));
            i = i + 1;
        }
        let timestamp = unix_timestamp_now();
        let r = self.generate_auth_header_at(method, url, params, &nonce_bytes, timestamp);
        proof {
            if r is Ok {
                let h = r->Ok_0;
                assert(valid_nonce(nonce_bytes@) && h@ == spec_auth_header_of(
                    *self,
                    method@,
                    url@,
                    nonce_bytes@,
                    timestamp as int,
                    params@,
                ));
            }
        }
        r
    }
}

/// With nonce and timestamp fixed, signing is a pure function: two headers
/// generated from identical inputs are identical.
pub proof fn lemma_signing_deterministic(
    h1: Seq<char>,
    h2: Seq<char>,
    cred: OAuthCredentials,
    method: Seq<char>,
    url: Seq<char>,
    nonce: Seq<u8>,
    ts: int,
    req: Seq<(Seq<u8>, Seq<u8>)>,
)
    requires
        h1 == spec_auth_header_of(cred, method, url, nonce, ts, req),
        h2 == spec_auth_header_of(cred, method, url, nonce, ts, req),
    ensures
        h1 == h2,
{
}

/// The rendered header always starts with the literal `OAuth `, and renders
/// exactly the seven expected OAuth parameters: consumer key, nonce,
/// signature, signature method, timestamp, token and version, each under its
/// `oauth_`-prefixed name.
pub proof fn lemma_header_shape(
    ck: Seq<u8>,
    cs: Seq<u8>,
    token: Seq<u8>,
    ats: Seq<u8>,
    method: Seq<u8>,
    url: Seq<u8>,
    nonce: Seq<u8>,
    ts: int,
    req: Seq<(Seq<u8>, Seq<u8>)>,
)
    ensures
        spec_auth_header(ck, cs, token, ats, method, url, nonce, ts, req).take(6) == ascii_bytes(
            "OAuth "@,
        ),
        header_entries(ck, cs, token, ats, method, url, nonce, ts, req).len() == 7,
        forall|k: Seq<u8>| #[trigger]
            crate::params::has_key(header_entries(ck, cs, token, ats, method, url, nonce, ts, req), k)
                <==> (k == ascii_bytes("oauth_consumer_key"@) || k == ascii_bytes("oauth_nonce"@)
                || k == ascii_bytes("oauth_signature"@) || k == ascii_bytes(
                "oauth_signature_method"@,
            ) || k == ascii_bytes("oauth_timestamp"@) || k == ascii_bytes("oauth_token"@) || k
                == ascii_bytes("oauth_version"@)),
{
    reveal_strlit("OAuth ");
    reveal_strlit("oauth_consumer_key");
    reveal_strlit("oauth_nonce");
    reveal_strlit("oauth_signature");
    reveal_strlit("oauth_signature_method");
    reveal_strlit("oauth_timestamp");
    reveal_strlit("oauth_token");
    reveal_strlit("oauth_version");
    reveal_strlit("HMAC-SHA1");
    reveal_strlit("1.0");
    let header = spec_auth_header(ck, cs, token, ats, method, url, nonce, ts, req);
    assert(ascii_bytes("OAuth "@).len() == 6);
    assert(header.take(6) =~= ascii_bytes("OAuth "@));
    let k_ck = ascii_bytes("oauth_consumer_key"@);
    let k_nonce = ascii_bytes("oauth_nonce"@);
    let k_sig = ascii_bytes("oauth_signature"@);
    let k_sm = ascii_bytes("oauth_signature_method"@);
    let k_ts = ascii_bytes("oauth_timestamp"@);
    let k_tok = ascii_bytes("oauth_token"@);
    let k_ver = ascii_bytes("oauth_version"@);
    // The seven names are pairwise distinct; most differ in length, the two
    // same-length pairs differ at their seventh byte.
    assert(k_ck.len() == 18 && k_nonce.len() == 11 && k_sig.len() == 15 && k_sm.len() == 22
        && k_ts.len() == 15 && k_tok.len() == 11 && k_ver.len() == 13);
    assert(k_nonce[6] == 0x6e && k_tok[6] == 0x74);
    assert(k_sig[6] == 0x73 && k_ts[6] == 0x74);
    assert(k_nonce != k_tok && k_sig != k_ts);
    let e0 = Seq::<(Seq<u8>, Seq<u8>)>::empty();
    let e1 = sorted_insert(e0, k_ck, ck);
    let e2 = sorted_insert(e1, k_nonce, nonce);
    let e3 = sorted_insert(e2, k_sm, ascii_bytes("HMAC-SHA1"@));
    let e4 = sorted_insert(e3, k_ts, dec_i64(ts));
    let e5 = sorted_insert(e4, k_tok, token);
    let e6 = sorted_insert(e5, k_ver, ascii_bytes("1.0"@));
    assert(crate::params::sorted_keys(e0));
    lemma_sorted_insert_sorted(e0, k_ck, ck);
    lemma_sorted_insert_len(e0, k_ck, ck);
    lemma_sorted_insert_sorted(e1, k_nonce, nonce);
    lemma_sorted_insert_len(e1, k_nonce, nonce);
    lemma_sorted_insert_sorted(e2, k_sm, ascii_bytes("HMAC-SHA1"@));
    lemma_sorted_insert_len(e2, k_sm, ascii_bytes("HMAC-SHA1"@));
    lemma_sorted_insert_sorted(e3, k_ts, dec_i64(ts));
    lemma_sorted_insert_len(e3, k_ts, dec_i64(ts));
    lemma_sorted_insert_sorted(e4, k_tok, token);
    lemma_sorted_insert_len(e4, k_tok, token);
    lemma_sorted_insert_sorted(e5, k_ver, ascii_bytes("1.0"@));
    lemma_sorted_insert_len(e5, k_ver, ascii_bytes("1.0"@));
    let sig = spec_signature(cs, ats, method, url, signing_entries(ck, token, nonce, ts, req));
    lemma_sorted_insert_sorted(e6, k_sig, sig);
    lemma_sorted_insert_len(e6, k_sig, sig);
    assert(!crate::params::has_key(e0, k_ck));
    assert(e6 == oauth_base_entries(ck, token, nonce, ts));
    assert(header_entries(ck, cs, token, ats, method, url, nonce, ts, req) == sorted_insert(
        e6,
        k_sig,
        sig,
    ));
}

proof fn lemma_base_keys_ascii(ck: Seq<u8>, token: Seq<u8>, nonce: Seq<u8>, ts: int)
    ensures
        all_keys_ascii(oauth_base_entries(ck, token, nonce, ts)),
{
    reveal_strlit("oauth_consumer_key");
    reveal_strlit("oauth_nonce");
    reveal_strlit("oauth_signature_method");
    reveal_strlit("oauth_timestamp");
    reveal_strlit("oauth_token");
    reveal_strlit("oauth_version");
    let e0 = Seq::<(Seq<u8>, Seq<u8>)>::empty();
    assert(all_keys_ascii(e0));
    lemma_ascii_lit_bytes("oauth_consumer_key"@);
    lemma_ascii_lit_bytes("oauth_nonce"@);
    lemma_ascii_lit_bytes("oauth_signature_method"@);
    lemma_ascii_lit_bytes("oauth_timestamp"@);
    lemma_ascii_lit_bytes("oauth_token"@);
    lemma_ascii_lit_bytes("oauth_version"@);
    let e1 = sorted_insert(e0, ascii_bytes("oauth_consumer_key"@), ck);
    lemma_sorted_insert_keys_ascii(e0, ascii_bytes("oauth_consumer_key"@), ck);
    let e2 = sorted_insert(e1, ascii_bytes("oauth_nonce"@), nonce);
    lemma_sorted_insert_keys_ascii(e1, ascii_bytes("oauth_nonce"@), nonce);
    let e3 = sorted_insert(e2, ascii_bytes("oauth_signature_method"@), ascii_bytes("HMAC-SHA1"@));
    lemma_sorted_insert_keys_ascii(
        e2,
        ascii_bytes("oauth_signature_method"@),
        ascii_bytes("HMAC-SHA1"@),
    );
    let e4 = sorted_insert(e3, ascii_bytes("oauth_timestamp"@), dec_i64(ts));
    lemma_sorted_insert_keys_ascii(e3, ascii_bytes("oauth_timestamp"@), dec_i64(ts));
    let e5 = sorted_insert(e4, ascii_bytes("oauth_token"@), token);
    lemma_sorted_insert_keys_ascii(e4, ascii_bytes("oauth_token"@), token);
    lemma_sorted_insert_keys_ascii(e5, ascii_bytes("oauth_version"@), ascii_bytes("1.0"@));
}

/// The bytes of an ASCII literal are below 0x80.
proof fn lemma_ascii_lit_bytes(s: Seq<char>)
    requires
        is_ascii_chars(s),
    ensures
        forall|j: int| 0 <= j < ascii_bytes(s).len() ==> ascii_bytes(s)[j] < 0x80,
{
    assert forall|j: int| 0 <= j < ascii_bytes(s).len() implies ascii_bytes(s)[j] < 0x80 by {
        assert(ascii_bytes(s)[j] == s[j] as u8);
        assert((s[j] as u32) < 128);
    }
}

/// Render the header entries as `key="value"` pairs, comma-space separated.
fn render_header_body(entries: &ParamMap) -> (r: Vec<u8>)
    ensures
        r@ == spec_header_body(entries@),
{
    let items = entries.entries();
    let mut r: Vec<u8> = Vec::new();
    let mut i: usize = 0;
    proof {
        assert(entries@.take(0) =~= Seq::<(Seq<u8>, Seq<u8>)>::empty());
    }
    while i < items.len()
        invariant
            i <= items@.len(),
            items@.map_values(|e: (Vec<u8>, Vec<u8>)| crate::params::entry_view(e)) == entries@,
            r@ == spec_header_body(entries@.take(i as int)),
        decreases items@.len() - i,
    {
        proof {
            assert(entries@[i as int] == crate::params::entry_view(items@[i as int]));
        }
        if i > 0 {
            r.push(0x2c);
            r.push(0x20);
        }
        push_all(&mut r, items[i].0.as_slice());
        r.push(0x3d);
        r.push(0x22);
        let ev = percent_encode_bytes(items[i].1.as_slice());
        push_all(&mut r, ev.as_slice());
        r.push(0x22);
        proof {
            lemma_header_body_push(entries@.take(i as int), entries@[i as int]);
            assert(entries@.take(i as int).push(entries@[i as int]) =~= entries@.take(i + 1));
            assert(r@ =~= spec_header_body(entries@.take(i + 1)));
        }
        i = i + 1;
    }
    proof {
        assert(entries@.take(entries@.len() as int) =~= entries@);
    }
    r
}

proof fn lemma_header_body_push(s: Seq<(Seq<u8>, Seq<u8>)>, p: (Seq<u8>, Seq<u8>))
    ensures
        s.len() == 0 ==> spec_header_body(s.push(p)) == spec_header_body(s) + spec_header_pair(p),
        s.len() > 0 ==> spec_header_body(s.push(p)) == spec_header_body(s) + seq![0x2cu8, 0x20u8]
            + spec_header_pair(p),
    decreases s.len(),
{
    if s.len() == 0 {
        assert(s.push(p).len() == 1);
        assert(s.push(p)[0] == p);
        assert(spec_header_body(s.push(p)) == spec_header_pair(p));
        assert(spec_header_body(s) + spec_header_pair(p) =~= spec_header_pair(p));
    } else {
        lemma_header_body_push(s.drop_first(), p);
        assert(s.push(p).drop_first() =~= s.drop_first().push(p));
        assert(s.push(p)[0] == s[0]);
        assert(s.push(p).len() >= 2);
        if s.len() == 1 {
            assert(spec_header_body(s.drop_first()) =~= Seq::<u8>::empty());
            assert(spec_header_body(s.push(p)) =~= spec_header_body(s) + seq![0x2cu8, 0x20u8]
                + spec_header_pair(p));
        } else {
            assert(spec_header_body(s.push(p)) =~= spec_header_body(s) + seq![0x2cu8, 0x20u8]
                + spec_header_pair(p));
        }
    }
}

/// The authorization header of a fixed bearer token: `Bearer ` then the
/// token.
pub open spec fn spec_bearer_header(token: Seq<u8>) -> Seq<u8> {
    ascii_bytes("Bearer "@) + token
}

/// The authentication strategy a deployment selects: per-request HMAC
/// signing with a four-part credential, or a fixed bearer token.
pub enum AuthStrategy {
    HmacSigner(OAuthCredentials),
    BearerToken(String),
}

impl AuthStrategy {
    /// The authorization header for one request under this strategy: the
    /// full OAuth header when signing, the static bearer header otherwise.
    pub fn auth_header(&self, method: &str, url: &str, params: &ParamMap) -> (r: XResult<String>)
        requires
            params.wf(),
        ensures
            match self {
                AuthStrategy::HmacSigner(cred) => match r {
                    Ok(h) => cred.consumer_secret@.len() > 0 && cred.access_token_secret@.len()
                        > 0 && exists|nonce: Seq<u8>, ts: int|
                        valid_nonce(nonce) && h@ == spec_auth_header_of(
                            *cred,
                            method@,
                            url@,
                            nonce,
                            ts,
                            params@,
                        ),
                    Err(e) => (cred.consumer_secret@.len() == 0 || cred.access_token_secret@.len()
                        == 0) && e matches XError::Auth(_),
                },
                AuthStrategy::BearerToken(token) => r matches Ok(h) && utf8_bytes(h@)
                    == spec_bearer_header(utf8_bytes(token@)),
            },
    {
        match self {
            AuthStrategy::HmacSigner(cred) => cred.generate_auth_header(method, url, params),
            AuthStrategy::BearerToken(token) => {
                let mut h = String::from_str("Bearer ");
                h.append(token.as_str());
                proof {
                    reveal_strlit("Bearer ");
                    assert(is_ascii_chars("Bearer "@));
                    vstd::utf8::is_ascii_chars_encode_utf8("Bearer "@);
                    lemma_utf8_bytes_concat("Bearer "@, token@);
                    assert(utf8_bytes("Bearer "@) =~= ascii_bytes("Bearer "@));
                }
                Ok(h)
            },
        }
    }
}

/// UTF-8 encoding distributes over concatenation.
proof fn lemma_utf8_bytes_concat(a: Seq<char>, b: Seq<char>)
    ensures
        utf8_bytes(a + b) == utf8_bytes(a) + utf8_bytes(b),
    decreases a.len(),
{
    if a.len() == 0 {
        assert(a + b =~= b);
        assert(utf8_bytes(a) =~= Seq::<u8>::empty());
        assert(utf8_bytes(a) + utf8_bytes(b) =~= utf8_bytes(b));
    } else {
        assert((a + b).drop_first() =~= a.drop_first() + b);
        assert((a + b)[0] == a[0]);
        assert((a + b).len() > 0);
        lemma_utf8_bytes_concat(a.drop_first(), b);
        assert(utf8_bytes(a + b) =~= utf8_bytes(a) + utf8_bytes(b));
    }
}

} // verus!
