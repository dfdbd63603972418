//! The answers that the proxy gives itself.

use crate::json;
use crate::json::{Json, JsonView};
use crate::preset;
use crate::preset::{Preset, PresetView};
use crate::table::Table;
use crate::wire;
use crate::wire::print_json;
use vstd::prelude::*;
use vstd::slice::slice_to_vec;

verus! {

broadcast use vstd::string::group_string_axioms;

/// What the body of a reply is.
#[derive(Debug, Clone, Copy, PartialEq, Eq)]
pub enum ContentType {
    /// A JSON value.
    Json,
    /// Plain text.
    Text,
}

/// A reply to a client.
#[derive(Debug, PartialEq)]
pub struct Reply {
    /// The HTTP status.
    pub status: u16,
    /// What the body is.
    pub content_type: ContentType,
    /// The body.
    pub body: Vec<u8>,
}

impl Reply {
    /// The value of the header `content-type`.
    pub fn content_type_name(&self) -> (r: &'static str)
        ensures
            r@ == match self.content_type {
                ContentType::Json => "application/json"@,
                ContentType::Text => "text/plain; charset=utf-8"@,
            },
    {
        match self.content_type {
            ContentType::Json => "application/json",
            ContentType::Text => "text/plain; charset=utf-8",
        }
    }

    /// The reply has a status and the JSON value `body`.
    pub open spec fn holds_json(self, status: u16, body: JsonView) -> bool {
        &&& self.status == status
        &&& self.content_type == ContentType::Json
        &&& self.body@ == wire::json_bytes(body)
        &&& wire::parsed_json(self.body@) == Some(body)
    }

    /// The reply has a status and the text `body`.
    pub open spec fn holds_text(self, status: u16, body: Seq<char>) -> bool {
        &&& self.status == status
        &&& self.content_type == ContentType::Text
        &&& self.body@ == vstd::utf8::encode_utf8(body)
    }
}

/// The object with one field, which holds a text.
pub open spec fn one_text(name: Seq<char>, value: Seq<char>) -> JsonView {
    JsonView::Object(Map::empty().insert(name, JsonView::Text(value)))
}

/// The names in replies do not stand for raw JSON text.
proof fn lemma_names_are_plain()
    ensures
        "error"@ != json::raw_name(),
        "version"@ != json::raw_name(),
{
    reveal_strlit("error");
    reveal_strlit("version");
    reveal_strlit("$serde_json::private::RawValue");
    assert("error"@.len() == 5);
    assert("version"@.len() == 7);
    assert("$serde_json::private::RawValue"@.len() == 30);
}

/// A reply with a status and an object with one text in it. Its name is not
/// the one that stands for raw JSON text.
fn json_response(status: u16, name: &str, value: &str) -> (r: Reply)
    requires
        name@ != json::raw_name(),
    ensures
        r.holds_json(status, one_text(name@, value@)),
{
    let mut fields: Table<Json> = Table::new();
    let field = Json::Text(value.to_owned());
    proof {
        json::lemma_trees_insert(fields@, name@, field);
        json::lemma_trees_keys(fields@);
    }
    fields.insert(name.to_owned(), field);
    proof {
        json::lemma_object_tree(fields);
        reveal_with_fuel(json::is_exact, 2);
        assert(json::is_exact(Json::Object(fields).tree(), wire::MAX_LEVELS as nat));
    }
    Reply {
        status,
        content_type: ContentType::Json,
        body: print_json(Json::Object(fields)),
    }
}

/// A reply with a status and a text.
fn text_response(status: u16, body: &str) -> (r: Reply)
    ensures
        r.holds_text(status, body@),
{
    Reply { status, content_type: ContentType::Text, body: slice_to_vec(body.as_bytes()) }
}

/// An error as a JSON object, `{"error": msg}`.
pub fn json_error(status: u16, msg: &str) -> (r: Reply)
    ensures
        r.holds_json(status, one_text("error"@, msg@)),
{
    proof {
        lemma_names_are_plain();
    }
    json_response(status, "error", msg)
}

// ---------------------------------------------------------------------------
// Refusals
// ---------------------------------------------------------------------------

/// Why a request gets no answer from the backend.
#[derive(Debug, Clone, Copy, PartialEq, Eq)]
pub enum Refusal {
    /// Its path has a dot segment.
    NotFound,
    /// Its body is larger than allowed.
    BodyTooLarge,
    /// Its body could not be read.
    BodyUnreadable,
    /// The backend could not be reached.
    BadGateway,
    /// The answer of the backend could not be passed on.
    BadAnswer,
    /// The handler of the request panicked.
    Panicked,
    /// Too many requests are in flight.
    Overloaded,
    /// No presets are loaded yet.
    NoPresets,
    /// The backend does not list its models.
    BackendUnreachable,
}

/// The status of a refusal.
pub open spec fn refusal_status(why: Refusal) -> u16 {
    match why {
        Refusal::NotFound => 404,
        Refusal::BodyTooLarge => 413,
        Refusal::BodyUnreadable => 400,
        Refusal::BadGateway => 502,
        Refusal::BadAnswer => 500,
        Refusal::Panicked => 500,
        Refusal::Overloaded => 503,
        Refusal::NoPresets => 503,
        Refusal::BackendUnreachable => 503,
    }
}

/// The message of a refusal.
pub open spec fn refusal_message(why: Refusal) -> Seq<char> {
    match why {
        Refusal::NotFound => "Not found"@,
        Refusal::BodyTooLarge => "Request body too large"@,
        Refusal::BodyUnreadable => "Failed to read request body"@,
        Refusal::BadGateway => "Bad gateway"@,
        Refusal::BadAnswer => "Internal server error"@,
        Refusal::Panicked => "internal server error"@,
        Refusal::Overloaded => "server overloaded, retry later"@,
        Refusal::NoPresets => "no presets loaded yet"@,
        Refusal::BackendUnreachable => "backend unreachable"@,
    }
}

/// The reply to a request that gets no answer from the backend.
pub fn refuse(why: Refusal) -> (r: Reply)
    ensures
        r.holds_json(refusal_status(why), one_text("error"@, refusal_message(why))),
{
    match why {
        Refusal::NotFound => json_error(404, "Not found"),
        Refusal::BodyTooLarge => json_error(413, "Request body too large"),
        Refusal::BodyUnreadable => json_error(400, "Failed to read request body"),
        Refusal::BadGateway => json_error(502, "Bad gateway"),
        Refusal::BadAnswer => json_error(500, "Internal server error"),
        Refusal::Panicked => json_error(500, "internal server error"),
        Refusal::Overloaded => json_error(503, "server overloaded, retry later"),
        Refusal::NoPresets => json_error(503, "no presets loaded yet"),
        Refusal::BackendUnreachable => json_error(503, "backend unreachable"),
    }
}

// ---------------------------------------------------------------------------
// Probes
// ---------------------------------------------------------------------------

/// The reply to a liveness probe.
pub fn healthz() -> (r: Reply)
    ensures
        r.holds_text(200, "ok"@),
{
    text_response(200, "ok")
}

/// The reply to a question for the version.
pub fn version(number: &str) -> (r: Reply)
    ensures
        r.holds_json(200, one_text("version"@, number@)),
{
    proof {
        lemma_names_are_plain();
    }
    json_response(200, "version", number)
}

/// What is to be done next for a readiness probe.
#[derive(Debug, PartialEq)]
pub enum ReadyStep {
    /// This is the reply.
    Answer(Reply),
    /// Ask the backend for its models.
    Query,
}

/// The step for a readiness probe. Without presets the proxy is not ready;
/// with them it is where the backend lists its models. `listed` says whether
/// it did, once it was asked.
pub fn readyz(presets: &Table<Preset>, listed: Option<bool>) -> (r: ReadyStep)
    ensures
        if preset::preset_views(*presets) == Map::<Seq<char>, PresetView>::empty() {
            r matches ReadyStep::Answer(reply) && reply.holds_json(
                503,
                one_text("error"@, "no presets loaded yet"@),
            )
        } else {
            match listed {
                None => r is Query,
                Some(true) => r matches ReadyStep::Answer(reply) && reply.holds_text(
                    200,
                    "ready"@,
                ),
                Some(false) => r matches ReadyStep::Answer(reply) && reply.holds_json(
                    503,
                    one_text("error"@, "backend unreachable"@),
                ),
            }
        },
{
    proof {
        preset::lemma_views_empty(presets@);
    }
    if presets.is_empty() {
        return ReadyStep::Answer(refuse(Refusal::NoPresets));
    }
    match listed {
        None => ReadyStep::Query,
        Some(true) => ReadyStep::Answer(text_response(200, "ready")),
        Some(false) => ReadyStep::Answer(refuse(Refusal::BackendUnreachable)),
    }
}

} // verus!
