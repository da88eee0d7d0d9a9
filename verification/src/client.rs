//! The AnkiConnect protocol: the request envelope, the choice of the
//! endpoint, and what a reply comes to.

use vstd::prelude::*;
use crate::error::{AnkiError, Result};
use crate::json::{Json, JsonView, entry, object, text};

verus! {

/// Where AnkiConnect listens by default.
pub const DEFAULT_URL: &'static str = "http://127.0.0.1:8765";

/// The version of the AnkiConnect protocol that the library speaks.
pub const ANKI_CONNECT_VERSION: u8 = 6;

/// Whether `reqwest::Url::parse` accepts `s`.
pub uninterp spec fn url_parses(s: Seq<char>) -> bool;

/// Whether `s` parses as a URL, with `reqwest::Url::parse`.
/// Trusted: the answer is that of `Url::parse`, a function of the text
/// alone, named `url_parses`.
#[verifier::external_body]
fn parses_as_url(s: &str) -> (ok: bool)
    ensures
        ok == url_parses(s@),
{
    reqwest::Url::parse(s).is_ok()
}

/// The URL that a client talks to: the one asked for when it parses, and
/// otherwise [`DEFAULT_URL`].
pub fn anki_connect_url<'a>(url: &'a str) -> (r: &'a str)
    ensures
        r@ == (if url_parses(url@) {
            url@
        } else {
            DEFAULT_URL@
        }),
{
    if parses_as_url(url) {
        url
    } else {
        DEFAULT_URL
    }
}

/// The model of optional JSON.
pub open spec fn opt_json_view(o: Option<Json>) -> Option<JsonView> {
    match o {
        Some(j) => Some(j@),
        None => None,
    }
}

/// A request to AnkiConnect: an action, the protocol version and the
/// parameters of the action, if it takes any.
pub struct AnkiRequest {
    pub action: String,
    pub version: u8,
    pub params: Option<Json>,
}

/// `r` asks for `action` with the parameters `params`, in the protocol
/// version of the library.
pub open spec fn is_request(r: AnkiRequest, action: Seq<char>, params: Option<JsonView>) -> bool {
    &&& r.action@ == action
    &&& r.version == ANKI_CONNECT_VERSION
    &&& opt_json_view(r.params) == params
}

/// `r` asks for `action`, in the protocol version of the library, with
/// parameters that are an object with the one entry `key`.
pub open spec fn is_keyed_request(r: AnkiRequest, action: Seq<char>, key: Seq<char>) -> bool {
    &&& r.action@ == action
    &&& r.version == ANKI_CONNECT_VERSION
    &&& r.params is Some
    &&& r.params->0@ is Object
    &&& r.params->0@->Object_0.len() == 1
    &&& r.params->0@->Object_0[0].0 == key
}

/// The value of the one entry of the parameters of `r`.
pub open spec fn keyed_value(r: AnkiRequest) -> JsonView {
    r.params->0@->Object_0[0].1
}

/// The JSON body of a request: `{"action": ..., "version": ...}`, with
/// `"params": ...` last when there are parameters.
pub open spec fn request_body(action: Seq<char>, version: u8, params: Option<JsonView>) -> JsonView {
    match params {
        Some(p) => JsonView::Object(
            seq![
                ("action"@, JsonView::Str(action)),
                ("version"@, JsonView::Int(version as i64)),
                ("params"@, p),
            ],
        ),
        None => JsonView::Object(
            seq![("action"@, JsonView::Str(action)), ("version"@, JsonView::Int(version as i64))],
        ),
    }
}

impl AnkiRequest {
    /// A request for `action` with the given parameters.
    pub fn new(action: &str, params: Option<Json>) -> (r: AnkiRequest)
        ensures
            r.action@ == action@,
            r.version == ANKI_CONNECT_VERSION,
            r.params == params,
    {
        AnkiRequest { action: String::from_str(action), version: ANKI_CONNECT_VERSION, params }
    }

    /// The JSON body that is sent for the request.
    pub fn into_json(self) -> (j: Json)
        ensures
            j@ == request_body(self.action@, self.version, opt_json_view(self.params)),
    {
        let ghost action = self.action@;
        let ghost version = self.version;
        let ghost params = opt_json_view(self.params);
        let mut entries: Vec<(String, Json)> = Vec::new();
        entries.push(entry("action", Json::Str(self.action)));
        entries.push(entry("version", Json::Int(self.version as i64)));
        match self.params {
            Some(p) => {
                entries.push(entry("params", p));
            },
            None => {},
        }
        let j = object(entries);
        assert(j@->Object_0 =~= request_body(action, version, params)->Object_0);
        j
    }
}

/// The error message for a result that could not be decoded.
pub open spec fn parse_failure_message(reason: Seq<char>) -> Seq<char> {
    "Failed to parse result: "@ + reason
}

/// What a call of an action comes to, given the `error` field of the reply
/// and the outcome of decoding its `result` field (missing counts as
/// `null`): an error that AnkiConnect reports wins; a result that could not
/// be decoded is an API error that says why; otherwise the decoded result.
pub fn reply_outcome<R>(error: Option<String>, decoded: std::result::Result<R, String>) -> (r: Result<R>)
    ensures
        match error {
            Some(m) => r matches Err(AnkiError::Api(x)) && x@ == m@,
            None => match decoded {
                Ok(v) => r == Ok::<R, AnkiError>(v),
                Err(reason) => r matches Err(AnkiError::Api(x)) && x@ == parse_failure_message(
                    reason@,
                ),
            },
        },
{
    match error {
        Some(m) => Err(AnkiError::Api(m)),
        None => match decoded {
            Ok(v) => Ok(v),
            Err(reason) => {
                let mut msg = String::from_str("Failed to parse result: ");
                msg.append(reason.as_str());
                Err(AnkiError::Api(msg))
            },
        },
    }
}

/// A request body carries the action and the protocol version, and carries
/// the parameters, as they are, whenever there are any (of any kind); without
/// parameters it has no `params` entry.
pub proof fn law_request_body_carries_params(action: Seq<char>, version: u8, params: Option<JsonView>)
    ensures
        request_body(action, version, params) is Object,
        request_body(action, version, params)->Object_0[0] == ("action"@, JsonView::Str(action)),
        request_body(action, version, params)->Object_0[1] == ("version"@, JsonView::Int(version as i64)),
        match params {
            Some(p) => exists|i: int|
                0 <= i < request_body(action, version, params)->Object_0.len()
                    && #[trigger] request_body(action, version, params)->Object_0[i] == ("params"@, p),
            None => request_body(action, version, params)->Object_0.len() == 2,
        },
{
    match params {
        Some(p) => {
            assert(request_body(action, version, params)->Object_0[2] == ("params"@, p));
        },
        None => {},
    }
}

} // verus!
