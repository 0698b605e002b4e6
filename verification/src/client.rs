use vstd::prelude::*;

use crate::json::{find_field, pairs_view, parse_object, spec_lookup, spec_object};

verus! {

/// A well-formed but semantically negative server response: the decoded
/// `{ error }` payload of a non-success status.
#[derive(Debug, Clone, PartialEq, Eq)]
pub struct ApiError {
    pub error: String,
}

/// The failure taxonomy of the secure channel.  Cryptographic failures of
/// the identifier scope carry their own classes: a body that cannot be
/// encrypted is an Encryption error, a response that cannot be decrypted a
/// Decryption error, never a catch-all.
#[derive(Debug, Clone, PartialEq, Eq)]
pub enum TError {
    Decryption(String),
    Encryption(String),
    Parsing(String),
    Request(String),
    Response(ApiError),
    UuidParsing(String),
}

impl TError {
    /// The full text of this error, one fixed prefix per class.
    pub open spec fn spec_message(&self) -> Seq<char> {
        match self {
            TError::Decryption(m) => "Decryption error: "@ + m@,
            TError::Encryption(m) => "Encryption error: "@ + m@,
            TError::Parsing(m) => "Parsing error: "@ + m@,
            TError::Request(m) => "Request error: "@ + m@,
            TError::Response(e) => "Response error: "@ + e.error@,
            TError::UuidParsing(m) => "UUID Parsing error: "@ + m@,
        }
    }

    pub fn message(&self) -> (r: String)
        ensures
            r@ == self.spec_message(),
    {
        match self {
            TError::Decryption(m) => String::from_str("Decryption error: ").concat(m.as_str()),
            TError::Encryption(m) => String::from_str("Encryption error: ").concat(m.as_str()),
            TError::Parsing(m) => String::from_str("Parsing error: ").concat(m.as_str()),
            TError::Request(m) => String::from_str("Request error: ").concat(m.as_str()),
            TError::Response(e) => String::from_str("Response error: ").concat(e.error.as_str()),
            TError::UuidParsing(m) => String::from_str("UUID Parsing error: ").concat(m.as_str()),
        }
    }
}

/// The canonical hyphenated form of the UUID written in `s`, or `None`
/// when `s` is not a UUID in any accepted format.
pub uninterp spec fn uuid_canonical_of(s: Seq<char>) -> Option<Seq<char>>;

/// Relies on uuid::Uuid::parse_str and the uuid Display implementation:
/// whether the text is a UUID, and its canonical hyphenated form, depend on
/// the text alone.
#[verifier::external_body]
fn uuid_canonical(s: &str) -> (r: Result<String, String>)
    ensures
        r matches Ok(t) ==> uuid_canonical_of(s@) == Some(t@),
        r is Err <==> uuid_canonical_of(s@) is None,
{
    uuid::Uuid::parse_str(s).map(|u| u.to_string()).map_err(|e| e.to_string())
}

/// Parses the correlation identifier as the binding layers do: malformed
/// text is an identifier-parsing failure and never reaches the channel.
pub fn parse_license_id(s: &str) -> (r: Result<String, TError>)
    ensures
        r matches Ok(t) ==> uuid_canonical_of(s@) == Some(t@),
        r matches Err(e) ==> e is UuidParsing,
        r is Ok <==> uuid_canonical_of(s@) is Some,
{
    match uuid_canonical(s) {
        Ok(t) => Ok(t),
        Err(m) => Err(TError::UuidParsing(m)),
    }
}

/// Relies on serde_json::from_str: decodes a JSON document into any
/// deserializable type, or reports why it cannot.
#[verifier::external_body]
fn json_decode<T: serde::de::DeserializeOwned>(s: &str) -> (r: Result<T, String>) {
    serde_json::from_str(s).map_err(|e| e.to_string())
}

/// One decrypted exchange result: the transport's status and, unless the
/// response body was empty, the identifier-scope plaintext of that body.
#[derive(Debug, Clone)]
pub struct SecureResponse {
    pub status: u16,
    body: Option<String>,
}

impl SecureResponse {
    pub closed spec fn sstatus(&self) -> u16 {
        self.status
    }

    pub closed spec fn sbody(&self) -> Option<Seq<char>> {
        match self.body {
            Some(b) => Some(b@),
            None => None,
        }
    }

    pub open spec fn spec_is_success(status: u16) -> bool {
        200 <= status < 300
    }

    pub fn is_success(&self) -> (r: bool)
        ensures
            r == Self::spec_is_success(self.sstatus()),
    {
        200 <= self.status && self.status < 300
    }

    /// Decodes the decrypted body into any deserializable type; a missing
    /// body is itself a parsing failure.
    pub fn json<T: serde::de::DeserializeOwned>(&self) -> (r: Result<T, TError>)
        ensures
            r matches Err(e) ==> e is Parsing,
            self.sbody() is None ==> (r matches Err(e) && e matches TError::Parsing(m) && m@
                == "Expected body to be some found none"@),
    {
        match &self.body {
            Some(b) => match json_decode(b.as_str()) {
                Ok(v) => Ok(v),
                Err(m) => Err(TError::Parsing(m)),
            },
            None => Err(
                TError::Parsing(String::from_str("Expected body to be some found none")),
            ),
        }
    }
}

/// What to do with a transport response before any decryption: an empty
/// body is already finished — it must never be handed to the decrypt
/// operation — and a non-empty body is ciphertext for the identifier
/// scope.
pub enum ResponseStep {
    Finished(SecureResponse),
    Decrypt { status: u16, ciphertext: String },
}

/// The empty-body short circuit of the secure channel, decided before any
/// decryption is attempted.
pub fn accept_transport_response(status: u16, raw_body: String) -> (r: ResponseStep)
    ensures
        raw_body@.len() == 0 ==> (r matches ResponseStep::Finished(resp) && resp.sstatus() == status
            && resp.sbody() is None),
        raw_body@.len() != 0 ==> (r matches ResponseStep::Decrypt { status: s, ciphertext: c }
            && s == status && c == raw_body),
{
    if raw_body.as_str().is_empty() {
        ResponseStep::Finished(SecureResponse { status, body: None })
    } else {
        ResponseStep::Decrypt { status, ciphertext: raw_body }
    }
}

/// Finishes an exchange whose body needed decryption: the identifier
/// scope's plaintext becomes the response body, and the capability's
/// failure is a Decryption-class error, never a wrong value.
pub fn response_decrypted(status: u16, outcome: Result<String, String>) -> (r: Result<
    SecureResponse,
    TError,
>)
    ensures
        outcome matches Ok(p) ==> (r matches Ok(resp) && resp.sstatus() == status && resp.sbody()
            == Some(p@)),
        outcome matches Err(m) ==> r == Err::<SecureResponse, TError>(TError::Decryption(m)),
{
    match outcome {
        Ok(p) => Ok(SecureResponse { status, body: Some(p) }),
        Err(m) => Err(TError::Decryption(m)),
    }
}

pub open spec fn success_key() -> Seq<char> {
    seq!['s', 'u', 'c', 'c', 'e', 's', 's']
}

pub open spec fn token_key() -> Seq<char> {
    seq!['t', 'o', 'k', 'e', 'n']
}

pub open spec fn error_key() -> Seq<char> {
    seq!['e', 'r', 'r', 'o', 'r']
}

/// The token of a success response body: present exactly when the body is
/// of the wire shape and carries both the `success` and the `token` string
/// fields.
pub open spec fn spec_validate_token(b: Seq<char>) -> Option<Seq<char>> {
    match spec_object(b) {
        None => None,
        Some(ps) => {
            if spec_lookup(ps, success_key()) is Some {
                spec_lookup(ps, token_key())
            } else {
                None
            }
        },
    }
}

/// The error message of a non-success response body: present exactly when
/// the body is of the wire shape and carries the `error` string field.
pub open spec fn spec_api_error(b: Seq<char>) -> Option<Seq<char>> {
    match spec_object(b) {
        None => None,
        Some(ps) => spec_lookup(ps, error_key()),
    }
}

/// Decides a validate-license exchange from its decrypted response: a
/// success status must carry a `{success, token}` body and yields the
/// token; any other status must carry an `{error}` body and fails with
/// that message; a missing or malformed body is a parsing failure.
pub fn validate_license_response(resp: &SecureResponse) -> (r: Result<String, TError>)
    ensures
        resp.sbody() is None ==> (r matches Err(e) && e is Parsing),
        resp.sbody() matches Some(b) ==> (if SecureResponse::spec_is_success(resp.sstatus()) {
            match spec_validate_token(b) {
                Some(t) => r matches Ok(tok) && tok@ == t,
                None => r matches Err(e) && e is Parsing,
            }
        } else {
            match spec_api_error(b) {
                Some(m) => r matches Err(e) && e matches TError::Response(a) && a.error@ == m,
                None => r matches Err(e) && e is Parsing,
            }
        }),
{
    let b = match &resp.body {
        Some(b) => b.clone(),
        None => {
            return Err(TError::Parsing(String::from_str("Expected body to be some found none")));
        },
    };
    let pairs = match parse_object(b.as_str()) {
        Some(p) => p,
        None => {
            return Err(TError::Parsing(String::from_str("response body is not of the wire shape")));
        },
    };
    if resp.is_success() {
        let skey = String::from_str("success");
        let tkey = String::from_str("token");
        proof {
            reveal_strlit("success");
            reveal_strlit("token");
            assert(skey@ =~= success_key());
            assert(tkey@ =~= token_key());
        }
        if find_field(&pairs, &skey).is_some() {
            match find_field(&pairs, &tkey) {
                Some(t) => Ok(t),
                None => Err(TError::Parsing(String::from_str("missing field token"))),
            }
        } else {
            Err(TError::Parsing(String::from_str("missing field success")))
        }
    } else {
        let ekey = String::from_str("error");
        proof {
            reveal_strlit("error");
            assert(ekey@ =~= error_key());
        }
        match find_field(&pairs, &ekey) {
            Some(m) => Err(TError::Response(ApiError { error: m })),
            None => Err(TError::Parsing(String::from_str("missing field error"))),
        }
    }
}

/// The secure channel's configuration: only the base URL.  No per-call
/// state lives here, so one client value may serve any number of
/// concurrent exchanges.
#[derive(Debug, Clone)]
pub struct TClient {
    base_url: String,
}

impl TClient {
    pub closed spec fn sbase(&self) -> Seq<char> {
        self.base_url@
    }

    pub fn new(base: String) -> (r: Self)
        ensures
            r.sbase() == base@,
    {
        TClient { base_url: base }
    }

    pub fn set_url(self, url: String) -> (r: Self)
        ensures
            r.sbase() == url@,
    {
        TClient { base_url: url }
    }

    /// The URL of the validate-license exchange for the given license and
    /// application.
    pub fn validate_url(&self, license: &str, application: &str) -> (r: String)
        ensures
            r@ == self.sbase() + "/subscriptions/validateapp/"@ + license@ + "/"@ + application@,
    {
        self.base_url.clone().concat("/subscriptions/validateapp/").concat(license).concat(
            "/",
        ).concat(application)
    }
}

} // verus!
