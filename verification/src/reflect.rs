//! The reflect fan-out controller.
//!
//! One client request either replays the cached aggregate (`SEND TO <addr>`)
//! or is fanned out to every configured target in order.  The controller's
//! decisions are all here: routing, the per-target protocol steps driven by
//! connect/auth/forward outcomes, and the assembly of the aggregate reply.
//! The I/O layer performs each requested action and hands the outcome back.

use vstd::prelude::*;
use crate::config::{CredModel, UserCredentials};
use crate::text::{
    ci_starts_with, contains_seq, is_space, join_with, lemma_space_codes, lemma_split_has_token,
    lemma_token_shape, lemma_trim_edges, split_tokens, split_ws, str_ci_starts_with, str_contains,
    trim_spec, trim_str,
};
use vstd::string::*;

verus! {

/// Where a reflect-mode request goes.
pub enum ReflectRoute {
    /// `SEND TO <addr>`: replay the cached aggregate to `addr`; no fan-out.
    Replay { addr: String },
    /// Anything else: fan the request out to every configured target.
    FanOut,
}

/// The trimmed request opens, case-insensitively, with `send to `.
pub open spec fn is_replay_line(t: Seq<char>) -> bool {
    ci_starts_with(t, "send to "@)
}

/// A trimmed replay line always splits into at least three tokens: `send`,
/// `to`, and the address.
pub proof fn lemma_replay_line_tokens(t: Seq<char>)
    requires
        is_replay_line(t),
        t.len() > 0 ==> !is_space(t[t.len() - 1]),
    ensures
        split_ws(t).len() >= 3,
{
    reveal_strlit("send to ");
    let p = ("send to ")@;
    assert(p.len() == 8);
    assert(t.len() >= 8);
    assert forall|i: int| 0 <= i < 8 implies is_space(#[trigger] t[i]) == is_space(p[i]) by {
        lemma_space_codes(t[i]);
        lemma_space_codes(p[i]);
    }
    assert(is_space(t[4]) && is_space(t[7]));
    assert(!is_space(t[0]) && !is_space(t[1]) && !is_space(t[2]) && !is_space(t[3]) && !is_space(
        t[5],
    ) && !is_space(t[6]));
    assert(t.len() >= 9) by {
        if t.len() == 8 {
            assert(is_space(t[t.len() - 1]));
        }
    }
    lemma_token_shape(t, 4);
    assert(split_ws(t) == seq![t.take(4)] + split_ws(t.skip(4)));
    assert(t.skip(4)[0] == t[4]);
    assert(t.skip(4).drop_first() =~= t.skip(5));
    assert(split_ws(t.skip(4)) == split_ws(t.skip(5)));
    let u = t.skip(5);
    assert(u[0] == t[5] && u[1] == t[6] && u[2] == t[7]);
    assert forall|i: int| 0 <= i < 2 implies !is_space(#[trigger] u[i]) by {
        assert(u[i] == t[i + 5]);
    }
    lemma_token_shape(u, 2);
    assert(split_ws(u) == seq![u.take(2)] + split_ws(u.skip(2)));
    assert(u.skip(2) =~= t.skip(7));
    assert(t.skip(7)[0] == t[7]);
    assert(t.skip(7).drop_first() =~= t.skip(8));
    assert(split_ws(t.skip(7)) == split_ws(t.skip(8)));
    assert(t.skip(8)[t.len() - 9] == t[t.len() - 1]);
    lemma_split_has_token(t.skip(8));
}

/// The route a request takes: the replay path with the third token as the
/// address, or the fan-out path.
pub open spec fn route_is_replay(request: Seq<char>) -> bool {
    is_replay_line(trim_spec(request))
}

/// The replay address: the third whitespace token of the trimmed request.
pub open spec fn replay_addr(request: Seq<char>) -> Seq<char> {
    split_ws(trim_spec(request))[2]
}

/// Classify one reflect-mode request.
pub fn classify_request(request: &str) -> (route: ReflectRoute)
    ensures
        route_is_replay(request@) ==> (route matches ReflectRoute::Replay { addr } && addr@
            == replay_addr(request@)),
        !route_is_replay(request@) ==> route == ReflectRoute::FanOut,
{
    let t: &str = trim_str(request);
    if str_ci_starts_with(t, "send to ") {
        proof {
            lemma_trim_edges(request@);
            lemma_replay_line_tokens(t@);
        }
        let parts: Vec<String> = split_tokens(t);
        let addr: String = parts[2].clone();
        ReflectRoute::Replay { addr }
    } else {
        ReflectRoute::FanOut
    }
}

/// The segment recorded for a target that could not be reached, and the
/// reply to a replay whose connect failed.
pub open spec fn connect_error_msg(addr: Seq<char>, detail: Seq<char>) -> Seq<char> {
    "Connection error to "@ + addr + ": "@ + detail
}

/// The segment recorded when the AUTH line could not be written to a target.
pub open spec fn auth_failed_msg(target: Seq<char>) -> Seq<char> {
    "Authentication failed for "@ + target
}

/// The segment recorded when a target's answer to the AUTH line was missing
/// or lacked the literal `OK`.
pub open spec fn auth_rejected_msg(target: Seq<char>) -> Seq<char> {
    "Authentication rejected for "@ + target
}

/// The segment recorded when forwarding the request or reading the response
/// failed after a successful connect.
pub open spec fn transfer_error_msg(detail: Seq<char>) -> Seq<char> {
    "Connection error: "@ + detail
}

/// The authentication line sent to a target with configured credentials.
pub open spec fn auth_line_spec(c: CredModel) -> Seq<char> {
    "AUTH "@ + c.username + " "@ + c.password + "\n"@
}

/// One target's recorded outcome: the segment that goes into the aggregate
/// reply, and the response payload if the target answered.
pub struct TargetReport {
    pub segment: String,
    pub response: Option<String>,
}

/// What the controller asks the I/O layer to do next for one target.
pub enum TargetAction {
    /// Send this authentication line to the target and read one reply.
    Auth { line: String },
    /// Forward the original request bytes verbatim and read one response.
    Forward,
    /// Done with this target: record this report and move to the next.
    Record { report: TargetReport },
}

/// Outcome of opening the connection to a target.
pub enum ConnectOutcome {
    Opened,
    Failed { detail: String },
}

/// Outcome of sending the AUTH line and reading its reply.
pub enum AuthOutcome {
    WriteFailed,
    ReadFailed,
    Reply { text: String },
}

/// Outcome of forwarding the request and reading one response.
pub enum ForwardOutcome {
    WriteFailed { detail: String },
    ReadFailed { detail: String },
    Response { data: String },
}

/// The auth exchange passes only when a reply arrived whose text holds the
/// literal `OK`.
pub open spec fn auth_accepted(outcome: AuthOutcome) -> bool {
    outcome matches AuthOutcome::Reply { text } && contains_seq(text@, "OK"@)
}

/// The controller's step once the connect attempt to `target` has an
/// outcome: an unreachable target is recorded as a connection error and
/// skipped; a reached target with configured credentials is sent the AUTH
/// line first; one without is forwarded the request at once.
pub fn after_connect(
    target: &String,
    creds: Option<&UserCredentials>,
    outcome: ConnectOutcome,
) -> (act: TargetAction)
    ensures
        match outcome {
            ConnectOutcome::Failed { detail } => act matches TargetAction::Record { report }
                && report.segment@ == connect_error_msg(target@, detail@) && report.response
                is None,
            ConnectOutcome::Opened => match creds {
                Some(c) => act matches TargetAction::Auth { line } && line@ == auth_line_spec(c@),
                None => act == TargetAction::Forward,
            },
        },
{
    match outcome {
        ConnectOutcome::Failed { detail } => {
            let mut segment = String::from_str("Connection error to ");
            segment.append(target.as_str());
            segment.append(": ");
            segment.append(detail.as_str());
            TargetAction::Record { report: TargetReport { segment, response: None } }
        },
        ConnectOutcome::Opened => match creds {
            Some(c) => {
                let mut line = String::from_str("AUTH ");
                line.append(c.username.as_str());
                line.append(" ");
                line.append(c.password.as_str());
                line.append("\n");
                TargetAction::Auth { line }
            },
            None => TargetAction::Forward,
        },
    }
}

/// The controller's step once the AUTH exchange with `target` has an
/// outcome.  The request is forwarded exactly when a reply holding `OK`
/// came back; any other outcome records an authentication failure or
/// rejection segment, and the target never receives the payload.
pub fn after_auth(target: &String, outcome: AuthOutcome) -> (act: TargetAction)
    ensures
        (act == TargetAction::Forward) <==> auth_accepted(outcome),
        outcome matches AuthOutcome::WriteFailed ==> (act matches TargetAction::Record { report }
            && report.segment@ == auth_failed_msg(target@) && report.response is None),
        !auth_accepted(outcome) && !(outcome matches AuthOutcome::WriteFailed) ==> (
        act matches TargetAction::Record { report } && report.segment@ == auth_rejected_msg(
            target@,
        ) && report.response is None),
{
    match outcome {
        AuthOutcome::WriteFailed => {
            let mut segment = String::from_str("Authentication failed for ");
            segment.append(target.as_str());
            TargetAction::Record { report: TargetReport { segment, response: None } }
        },
        AuthOutcome::ReadFailed => {
            let mut segment = String::from_str("Authentication rejected for ");
            segment.append(target.as_str());
            TargetAction::Record { report: TargetReport { segment, response: None } }
        },
        AuthOutcome::Reply { text } => {
            if str_contains(text.as_str(), "OK") {
                TargetAction::Forward
            } else {
                let mut segment = String::from_str("Authentication rejected for ");
                segment.append(target.as_str());
                TargetAction::Record { report: TargetReport { segment, response: None } }
            }
        },
    }
}

/// The controller's step once forwarding to a target has an outcome: a
/// write or read failure is recorded as a connection error; a response is
/// recorded verbatim as the target's segment and as the sweep's newest
/// successful response.
pub fn after_forward(outcome: ForwardOutcome) -> (act: TargetAction)
    ensures
        match outcome {
            ForwardOutcome::WriteFailed { detail } => act matches TargetAction::Record { report }
                && report.segment@ == transfer_error_msg(detail@) && report.response is None,
            ForwardOutcome::ReadFailed { detail } => act matches TargetAction::Record { report }
                && report.segment@ == transfer_error_msg(detail@) && report.response is None,
            ForwardOutcome::Response { data } => act matches TargetAction::Record { report }
                && report.segment@ == data@ && (report.response matches Some(d) && d@ == data@),
        },
{
    match outcome {
        ForwardOutcome::WriteFailed { detail } => {
            let mut segment = String::from_str("Connection error: ");
            segment.append(detail.as_str());
            TargetAction::Record { report: TargetReport { segment, response: None } }
        },
        ForwardOutcome::ReadFailed { detail } => {
            let mut segment = String::from_str("Connection error: ");
            segment.append(detail.as_str());
            TargetAction::Record { report: TargetReport { segment, response: None } }
        },
        ForwardOutcome::Response { data } => {
            let segment = data.clone();
            TargetAction::Record { report: TargetReport { segment, response: Some(data) } }
        },
    }
}

/// The segments of a sweep's reports, in target order.
pub open spec fn segments_of(reports: Seq<TargetReport>) -> Seq<Seq<char>> {
    reports.map_values(|r: TargetReport| r.segment@)
}

/// A report's response payload, if the target answered.
pub open spec fn resp_view(r: TargetReport) -> Option<Seq<char>> {
    match r.response {
        Some(d) => Some(d@),
        None => None,
    }
}

/// The view of the shared aggregate slot.
pub open spec fn slot_view(slot: Option<String>) -> Option<Seq<char>> {
    match slot {
        Some(s) => Some(s@),
        None => None,
    }
}

/// The last response payload among `reports`, or `prior` if none answered.
pub open spec fn last_response(
    reports: Seq<TargetReport>,
    prior: Option<Seq<char>>,
) -> Option<Seq<char>>
    decreases reports.len(),
{
    if reports.len() == 0 {
        prior
    } else {
        last_response(
            reports.drop_first(),
            match reports[0].response {
                Some(d) => Some(d@),
                None => prior,
            },
        )
    }
}

/// A sweep yields exactly one segment per report, in report order.
pub proof fn lemma_aggregate_shape(reports: Seq<TargetReport>)
    ensures
        segments_of(reports).len() == reports.len(),
        forall|i: int|
            0 <= i < reports.len() ==> #[trigger] segments_of(reports)[i] == reports[i].segment@,
{
}

/// Assemble the aggregate reply of one fan-out sweep — one report per
/// configured target, in target order, joined by the segment separator —
/// and overwrite the shared aggregate slot with the sweep's last successful
/// response, leaving the slot alone if no target answered.
pub fn sweep_reply(reports: &Vec<TargetReport>, slot: &mut Option<String>) -> (reply: String)
    ensures
        reply@ == join_with(segments_of(reports@), "\n---\n"@),
        slot_view(*final (slot)) == last_response(reports@, slot_view(*old(slot))),
{
    let mut reply = String::new();
    let mut i: usize = 0;
    proof {
        assert(reports@.skip(0) =~= reports@);
        assert(segments_of(reports@.take(0)) =~= Seq::<Seq<char>>::empty());
    }
    while i < reports.len()
        invariant
            i <= reports@.len(),
            reply@ == join_with(segments_of(reports@.take(i as int)), "\n---\n"@),
            last_response(reports@, slot_view(*old(slot))) == last_response(
                reports@.skip(i as int),
                slot_view(*slot),
            ),
        decreases reports@.len() - i,
    {
        let ghost pre = reports@.take(i as int);
        if i > 0 {
            reply.append("\n---\n");
        }
        reply.append(reports[i].segment.as_str());
        proof {
            assert(segments_of(reports@.take(i as int + 1)) =~= segments_of(pre).push(
                reports@[i as int].segment@,
            ));
            if i > 0 {
                crate::text::lemma_join_push(
                    segments_of(pre),
                    "\n---\n"@,
                    reports@[i as int].segment@,
                );
            } else {
                assert(segments_of(reports@.take(1))[0] == reports@[0].segment@);
            }
        }
        match &reports[i].response {
            Some(d) => {
                *slot = Some(d.clone());
            },
            None => {},
        }
        proof {
            assert(reports@.skip(i as int).drop_first() =~= reports@.skip(i as int + 1));
            assert(reports@.skip(i as int)[0] == reports@[i as int]);
        }
        i += 1;
    }
    proof {
        assert(reports@.take(reports@.len() as int) =~= reports@);
        assert(reports@.skip(reports@.len() as int) =~= Seq::<TargetReport>::empty());
    }
    reply
}

/// The payload a replay forwards: the cached aggregate, or the sentinel
/// when no fan-out response was ever cached.
pub open spec fn replay_payload_spec(slot: Option<Seq<char>>) -> Seq<char> {
    match slot {
        Some(d) => d,
        None => "No data available"@,
    }
}

/// Read the payload a `SEND TO` replay must forward.
pub fn replay_payload(slot: &Option<String>) -> (data: String)
    ensures
        data@ == replay_payload_spec(slot_view(*slot)),
{
    match slot {
        Some(d) => d.clone(),
        None => String::from_str("No data available"),
    }
}

/// Outcome of the single replay send.
pub enum ReplayOutcome {
    Sent,
    SendFailed,
    ConnectFailed { detail: String },
}

/// The reply reported to the client after a replay attempt to `addr`.
pub fn replay_reply(addr: &String, outcome: ReplayOutcome) -> (r: String)
    ensures
        outcome matches ReplayOutcome::Sent ==> r@ == "Data sent to "@ + addr@,
        outcome matches ReplayOutcome::SendFailed ==> r@ == "Failed to send data to "@ + addr@,
        outcome matches ReplayOutcome::ConnectFailed { detail } ==> r@ == connect_error_msg(
            addr@,
            detail@,
        ),
{
    match outcome {
        ReplayOutcome::Sent => {
            let mut r = String::from_str("Data sent to ");
            r.append(addr.as_str());
            r
        },
        ReplayOutcome::SendFailed => {
            let mut r = String::from_str("Failed to send data to ");
            r.append(addr.as_str());
            r
        },
        ReplayOutcome::ConnectFailed { detail } => {
            let mut r = String::from_str("Connection error to ");
            r.append(addr.as_str());
            r.append(": ");
            r.append(detail.as_str());
            r
        },
    }
}

proof fn lemma_last_response_all_none(reports: Seq<TargetReport>, prior: Option<Seq<char>>)
    requires
        forall|k: int| 0 <= k < reports.len() ==> (#[trigger] reports[k]).response is None,
    ensures
        last_response(reports, prior) == prior,
    decreases reports.len(),
{
    if reports.len() > 0 {
        assert forall|k: int|
            0 <= k < reports.drop_first().len() implies (
        #[trigger] reports.drop_first()[k]).response is None by {
            assert(reports.drop_first()[k] == reports[k + 1]);
        }
        lemma_last_response_all_none(reports.drop_first(), prior);
    }
}

/// After a sweep in which at least one target answered, the aggregate slot
/// holds exactly the bytes of the last answering target's response, and a
/// replay forwards exactly those bytes.
pub proof fn lemma_replay_after_success(
    reports: Seq<TargetReport>,
    prior: Option<Seq<char>>,
    j: int,
)
    requires
        0 <= j < reports.len(),
        reports[j].response is Some,
        forall|k: int| j < k < reports.len() ==> (#[trigger] reports[k]).response is None,
    ensures
        last_response(reports, prior) == resp_view(reports[j]),
        replay_payload_spec(last_response(reports, prior)) == resp_view(reports[j])->0,
    decreases j,
{
    let next = match reports[0].response {
        Some(d) => Some(d@),
        None => prior,
    };
    if j == 0 {
        assert forall|k: int|
            0 <= k < reports.drop_first().len() implies (
        #[trigger] reports.drop_first()[k]).response is None by {
            assert(reports.drop_first()[k] == reports[k + 1]);
        }
        lemma_last_response_all_none(reports.drop_first(), next);
    } else {
        assert forall|k: int|
            j - 1 < k < reports.drop_first().len() implies (
        #[trigger] reports.drop_first()[k]).response is None by {
            assert(reports.drop_first()[k] == reports[k + 1]);
        }
        assert(reports.drop_first()[j - 1] == reports[j]);
        lemma_replay_after_success(reports.drop_first(), next, j - 1);
    }
}

/// A replay with no cached aggregate forwards the sentinel text.
pub proof fn lemma_replay_without_data()
    ensures
        replay_payload_spec(None) == "No data available"@,
{
}

} // verus!
