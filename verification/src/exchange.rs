//! One request on its way from the client to the backend and back.

use crate::headers;
use crate::headers::forward_headers;
use crate::intercept;
use crate::intercept::{
    begin_intercept, finish_intercept, note_answer, AskedView, Inspected, Pending, PostIntercept,
    PostInterceptView,
};
use crate::json::JsonView;
use crate::paths;
use crate::paths::forward_url;
use crate::preset;
use crate::preset::{Preset, PresetView};
use crate::refresh;
use crate::reply;
use crate::reply::{refuse, Refusal, Reply};
use crate::table::Table;
use crate::tracker::Tracker;
use crate::wire;
use vstd::prelude::*;

verus! {

broadcast use vstd::string::group_string_axioms;

/// The reply is the refusal `why`.
pub open spec fn refuses(r: Reply, why: Refusal) -> bool {
    r.holds_json(
        reply::refusal_status(why),
        reply::one_text("error"@, reply::refusal_message(why)),
    )
}

// ---------------------------------------------------------------------------
// Before the body is read
// ---------------------------------------------------------------------------

/// A request whose target is forwarded.
#[derive(Debug, PartialEq)]
pub struct Admitted {
    /// Where it goes.
    pub url: String,
    /// Whether it is a POST request, whose body is looked at.
    pub post: bool,
    /// The headers that go with it.
    pub headers: Vec<(String, Vec<u8>)>,
}

/// Looks at a request before its body is read: where it goes and with which
/// headers, or how it is refused.
pub fn take_target(
    backend_url: &str,
    post: bool,
    target: &str,
    headers: Vec<(String, Vec<u8>)>,
) -> (r: Result<Admitted, Reply>)
    ensures
        match r {
            Ok(a) => {
                &&& paths::is_admitted(paths::forward_part(target@))
                &&& a.url@ == backend_url@ + paths::forward_part(target@)
                &&& a.post == post
                &&& headers::header_views(a.headers@) == headers::forwarded(
                    headers::header_views(headers@),
                )
            },
            Err(refusal) => !paths::is_admitted(paths::forward_part(target@)) && refuses(
                refusal,
                Refusal::NotFound,
            ),
        },
{
    match forward_url(backend_url, target) {
        Some(url) => Ok(Admitted { url, post, headers: forward_headers(headers) }),
        None => Err(refuse(Refusal::NotFound)),
    }
}

// ---------------------------------------------------------------------------
// When the body is read
// ---------------------------------------------------------------------------

/// How reading a body went.
#[derive(Debug, PartialEq)]
pub enum BodyRead {
    /// It was read to its end.
    Whole(Vec<u8>),
    /// It is larger than allowed.
    TooLarge,
    /// It could not be read.
    Failed,
}

/// A request to the backend.
#[derive(Debug, PartialEq)]
pub struct Outgoing {
    /// Where it goes.
    pub url: String,
    /// Its headers.
    pub headers: Vec<(String, Vec<u8>)>,
    /// Its body, and what to note once the backend has taken it.
    pub content: PostIntercept,
}

/// What is to be done once a body is read.
#[derive(Debug, PartialEq)]
pub enum AfterBody {
    /// Send this to the backend.
    Send(Outgoing),
    /// Find the active alias of the model first.
    Ask(Admitted, Pending),
    /// Answer the client.
    Answer(Reply),
}

/// How reading a body went, as mathematics.
pub enum BodyView {
    Whole(Seq<u8>),
    TooLarge,
    Failed,
}

impl View for BodyRead {
    type V = BodyView;

    open spec fn view(&self) -> BodyView {
        match *self {
            BodyRead::Whole(bytes) => BodyView::Whole(bytes@),
            BodyRead::TooLarge => BodyView::TooLarge,
            BodyRead::Failed => BodyView::Failed,
        }
    }
}

/// What is to be done once a body is read, as mathematics.
pub enum BodyStep {
    Send(PostInterceptView),
    Ask(AskedView),
    Refuse(Refusal),
}

/// What is to be done once a body is read. Only the body of a POST request is
/// looked into.
pub open spec fn body_step(
    post: bool,
    body: BodyView,
    presets: Map<Seq<char>, PresetView>,
) -> BodyStep {
    match body {
        BodyView::TooLarge => BodyStep::Refuse(Refusal::BodyTooLarge),
        BodyView::Failed => BodyStep::Refuse(Refusal::BodyUnreadable),
        BodyView::Whole(bytes) => match intercept::asked(presets, wire::parsed_json(bytes)) {
            Some(request) => if post {
                BodyStep::Ask(request)
            } else {
                BodyStep::Send(intercept::unchanged(bytes))
            },
            None => BodyStep::Send(intercept::unchanged(bytes)),
        },
    }
}

/// `r` does the step for a request.
pub open spec fn does_step(r: AfterBody, step: BodyStep, admitted: Admitted) -> bool {
    match r {
        AfterBody::Send(out) => sends(out, admitted) && step == BodyStep::Send(out.content@),
        AfterBody::Ask(a, pending) => a == admitted && step == BodyStep::Ask(pending@),
        AfterBody::Answer(refusal) => step is Refuse && refuses(refusal, step->Refuse_0),
    }
}

/// The request goes where it was to go, with the headers it was to have.
pub open spec fn sends(out: Outgoing, admitted: Admitted) -> bool {
    out.url == admitted.url && out.headers == admitted.headers
}

/// Looks at the body of a request: it is sent on, or waits for the active
/// alias of the model that it asks for, or is refused. Only the body of a POST
/// request is looked into.
pub fn take_body(admitted: Admitted, body: BodyRead, presets: &Table<Preset>) -> (r: AfterBody)
    ensures
        match body {
            BodyRead::TooLarge => r matches AfterBody::Answer(refusal) && refuses(
                refusal,
                Refusal::BodyTooLarge,
            ),
            BodyRead::Failed => r matches AfterBody::Answer(refusal) && refuses(
                refusal,
                Refusal::BodyUnreadable,
            ),
            BodyRead::Whole(bytes) => {
                let request = if admitted.post {
                    intercept::asked(
                        preset::preset_views(*presets),
                        wire::parsed_json(bytes@),
                    )
                } else {
                    None
                };
                match request {
                    Some(view) => r matches AfterBody::Ask(a, pending) && a == admitted
                        && pending@ == view && pending.body_bytes == bytes,
                    None => r matches AfterBody::Send(out) && sends(out, admitted) && out.content@
                        == intercept::unchanged(bytes@),
                }
            },
        },
        does_step(r, body_step(admitted.post, body@, preset::preset_views(*presets)), admitted),
{
    let bytes = match body {
        BodyRead::Whole(bytes) => bytes,
        BodyRead::TooLarge => return AfterBody::Answer(refuse(Refusal::BodyTooLarge)),
        BodyRead::Failed => return AfterBody::Answer(refuse(Refusal::BodyUnreadable)),
    };
    let content = if admitted.post {
        match begin_intercept(presets, bytes) {
            Inspected::Done(content) => content,
            Inspected::Ask(pending) => return AfterBody::Ask(admitted, pending),
        }
    } else {
        PostIntercept::passthrough(bytes)
    };
    AfterBody::Send(Outgoing { url: admitted.url, headers: admitted.headers, content })
}

/// The request to send, once the active alias of its model is known. Where
/// that is another alias, the body is written anew for it, and reads back as
/// [`wire::reads_back`] says.
pub fn take_alias(
    admitted: Admitted,
    pending: Pending,
    active: Option<String>,
    presets: &Table<Preset>,
) -> (r: Outgoing)
    ensures
        sends(r, admitted),
        r.content@ == intercept::intercepted(
            pending@,
            pending.body_bytes@,
            refresh::alias_view(active),
            preset::preset_views(*presets),
        ),
        match intercept::reroute_to(pending@.alias, refresh::alias_view(active)) {
            Some(alias) => wire::reads_back(
                wire::parsed_json(r.content.body_bytes@),
                JsonView::Object(
                    intercept::forwarded_fields(
                        pending@,
                        preset::preset_views(*presets),
                        alias,
                    ),
                ),
            ),
            None => true,
        },
{
    let content = finish_intercept(pending, active, presets);
    Outgoing { url: admitted.url, headers: admitted.headers, content }
}

// ---------------------------------------------------------------------------
// When the backend has answered
// ---------------------------------------------------------------------------

/// The head of an answer: its status and its headers.
#[derive(Debug, PartialEq)]
pub struct Head {
    pub status: u16,
    pub headers: Vec<(String, Vec<u8>)>,
}

/// Looks at the head of the backend's answer, where there is one: what of it
/// goes to the client, or how the client is refused. What was to be noted for
/// the request is noted where the backend has taken it.
pub fn take_answer(
    tracker: &mut Tracker,
    record: &Option<(String, String)>,
    answer: Option<Head>,
    now: u128,
) -> (r: Result<Head, Reply>)
    ensures
        match answer {
            Some(head) => {
                &&& r matches Ok(passed) && passed.status == head.status && headers::header_views(
                    passed.headers@,
                ) == headers::forwarded(headers::header_views(head.headers@))
                &&& final(tracker)@ == intercept::notes_after_answer(
                    old(tracker)@,
                    intercept::record_view(*record),
                    head.status,
                    now as int,
                )
            },
            None => {
                &&& r matches Err(refusal) && refuses(refusal, Refusal::BadGateway)
                &&& final(tracker)@ == old(tracker)@
            },
        },
{
    match answer {
        Some(head) => {
            note_answer(tracker, record, head.status, now);
            Ok(Head { status: head.status, headers: forward_headers(head.headers) })
        },
        None => Err(refuse(Refusal::BadGateway)),
    }
}

// ---------------------------------------------------------------------------
// Laws
// ---------------------------------------------------------------------------

/// The body of a request that is no POST is sent as it came, whatever it holds
/// and whatever presets there are. That of a POST request is sent as it came
/// too, or waits for the active alias; it is then the one that asks. A body
/// that is too large or cannot be read is refused with 413 or 400.
pub proof fn law_bodies_go_their_way(
    bytes: Seq<u8>,
    presets: Map<Seq<char>, PresetView>,
    post: bool,
    r: AfterBody,
    admitted: Admitted,
)
    requires
        does_step(r, body_step(post, BodyView::Whole(bytes), presets), admitted),
    ensures
        !post ==> r is Send,
        post ==> r is Ask == (intercept::asked(presets, wire::parsed_json(bytes)) is Some),
        r matches AfterBody::Send(out) ==> out.content.body_bytes@ == bytes
            && out.content.record_active is None && out.url == admitted.url && out.headers
            == admitted.headers,
        r matches AfterBody::Ask(a, pending) ==> a == admitted && intercept::asked(
            presets,
            wire::parsed_json(bytes),
        ) == Some(pending@),
        !(r is Answer),
{
    if let AfterBody::Send(out) = r {
        assert(out.content@ == intercept::unchanged(bytes));
        assert(out.content@.record_active is None);
    }
}

/// A body that is too large is refused with the status 413, and one that cannot
/// be read with 400, whatever the method is; both are told in a JSON object.
pub proof fn law_unread_bodies_are_refused(
    presets: Map<Seq<char>, PresetView>,
    post: bool,
    r: AfterBody,
    admitted: Admitted,
)
    ensures
        does_step(r, body_step(post, BodyView::TooLarge, presets), admitted) ==> r is Answer
            && r->Answer_0.status == 413,
        does_step(r, body_step(post, BodyView::Failed, presets), admitted) ==> r is Answer
            && r->Answer_0.status == 400,
{
}

/// A refusal has the status of its reason, and reads as an object with the
/// field `error` and no other.
pub proof fn law_refusals_are_json_errors(r: Reply, why: Refusal, k: Seq<char>)
    requires
        refuses(r, why),
    ensures
        wire::parsed_json(r.body@) matches Some(JsonView::Object(m)) && m.contains_key(k) == (k
            == "error"@) && m["error"@] == JsonView::Text(reply::refusal_message(why)),
        r.status == match why {
            Refusal::NotFound => 404,
            Refusal::BodyTooLarge => 413,
            Refusal::BodyUnreadable => 400,
            Refusal::BadGateway => 502,
            Refusal::BadAnswer | Refusal::Panicked => 500u16,
            Refusal::Overloaded | Refusal::NoPresets | Refusal::BackendUnreachable => 503,
        },
        400 <= r.status < 600,
{
}

} // verus!
