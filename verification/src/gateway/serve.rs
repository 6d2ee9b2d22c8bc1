//! What the gateway answers the browser.
use crate::bytes;
use crate::gateway::errors;
use crate::gateway::fallback::{FallbackMarker, MarkerView};
use crate::gateway::input;
use crate::gateway::input::{
    GatewayHttpRequestInput, GatewayRequest, GatewayResolutionMode, InputView,
};
use crate::gateway::json;
use crate::gateway::resolution_trace;
use crate::gateway::resolution_trace::{GatewayFault, TlsTraceInput, TlsTraceView, TraceView};
use crate::gateway::respond;
use crate::gateway::trace;
use crate::gateway::trace::{DnsTraceEvent, EventView};
use crate::resolver::ResolutionAnswer;
use crate::text;
use crate::transport::exchange::OriginTunnel;
use crate::transport::types;
use crate::transport::types::{
    DaneDecision, InspectionView, OriginResponse, OriginResponseHead, TlsCertificateInspection,
    TlsValidation,
};
use vstd::prelude::*;
use vstd::string::*;
use vstd::utf8::*;

verus! {

/// How much is copied through a tunnel at once.
pub const TUNNEL_COPY_BUFFER_BYTES: usize = 16_384;

/// A request that can be handed on.
#[derive(Clone, Debug, PartialEq, Eq)]
pub struct GatewayStart {
    pub request: GatewayRequest,
    pub mode: GatewayResolutionMode,
}

/// Reads the browser's request. One whose headers are refused goes no further.
pub fn begin_gateway_request(input: &GatewayHttpRequestInput<'_>) -> (r: Result<
    GatewayStart,
    &'static str,
>)
    ensures
        match (r, input::gateway_headers(input@.header_text)) {
            (Ok(start), Ok(parsed)) => {
                &&& start.request.origin@ == input::origin_of(input@, parsed.headers)
                &&& start.request.resolution.qname@ == input@.host
                &&& start.request.resolution.qtype == 1
                &&& start.mode == input::mode_of(parsed.strict)
            },
            (Err(refused), Err(reason)) => refused@ == reason,
            _ => false,
        },
{
    match input::parse_gateway_headers(input.header_text) {
        Ok(parsed) => {
            let mode = GatewayResolutionMode::from_strict_hns_mode(parsed.strict_hns_mode);
            Ok(GatewayStart { request: input::gateway_request(input, parsed.headers), mode })
        },
        Err(reason) => Err(reason),
    }
}

/// An origin's answer, as far as the trace tells of it.
pub trait TracedOrigin: Sized {
    spec fn decided(&self) -> DaneDecision;

    spec fn inspected(&self) -> Option<InspectionView>;

    fn decision(&self) -> (r: DaneDecision)
        ensures
            r == self.decided(),
    ;

    fn inspection(&self) -> (r: Option<&TlsCertificateInspection>)
        ensures
            resolution_trace::inspection_ref(r) == self.inspected(),
    ;
}

impl TracedOrigin for OriginResponse {
    open spec fn decided(&self) -> DaneDecision {
        self.dane_decision
    }

    open spec fn inspected(&self) -> Option<InspectionView> {
        types::inspection_view(self.tls_inspection)
    }

    fn decision(&self) -> (r: DaneDecision) {
        self.dane_decision
    }

    fn inspection(&self) -> (r: Option<&TlsCertificateInspection>) {
        self.tls_inspection.as_ref()
    }
}

impl TracedOrigin for OriginResponseHead {
    open spec fn decided(&self) -> DaneDecision {
        self.dane_decision
    }

    open spec fn inspected(&self) -> Option<InspectionView> {
        types::inspection_view(self.tls_inspection)
    }

    fn decision(&self) -> (r: DaneDecision) {
        self.dane_decision
    }

    fn inspection(&self) -> (r: Option<&TlsCertificateInspection>) {
        self.tls_inspection.as_ref()
    }
}

impl TracedOrigin for OriginTunnel {
    open spec fn decided(&self) -> DaneDecision {
        self.dane_decision
    }

    open spec fn inspected(&self) -> Option<InspectionView> {
        types::inspection_view(self.tls_inspection)
    }

    fn decision(&self) -> (r: DaneDecision) {
        self.dane_decision
    }

    fn inspection(&self) -> (r: Option<&TlsCertificateInspection>) {
        self.tls_inspection.as_ref()
    }
}

/// An origin's answer, and how it was come by.
#[derive(Clone, Debug, PartialEq, Eq)]
pub struct GatewayReply<T> {
    pub resolution: ResolutionAnswer,
    pub tls: TlsValidation,
    pub origin: T,
}

/// How far a request came.
#[derive(Clone, Debug, PartialEq, Eq)]
pub enum GatewayOutcome<T> {
    /// The data directory could not be made.
    NoDirectory { error: String },
    /// The store of values could not be opened.
    NoCache { error: String },
    /// The gateway could not be set up.
    NotConfigured { error: String },
    Answered { reply: GatewayReply<T> },
    Failed { fault: GatewayFault },
}

/// What the trace tells of TLS for an answer.
pub open spec fn tls_of<T: TracedOrigin>(reply: GatewayReply<T>) -> TlsTraceView {
    TlsTraceView {
        validation: Some(reply.tls@),
        decision: Some(reply.origin.decided()),
        inspection: reply.origin.inspected(),
    }
}

/// The trace of a request that was answered.
pub open spec fn answered_trace<T: TracedOrigin>(
    input: InputView,
    mode: GatewayResolutionMode,
    reply: GatewayReply<T>,
    marker: MarkerView,
    events: Seq<EventView>,
) -> Seq<char> {
    resolution_trace::trace_text(
        TraceView {
            input,
            mode,
            answer: Some(reply.resolution@),
            tls: tls_of(reply),
            error: None,
            message: None,
            marker,
            events,
        },
    )
}

/// The trace of a request that failed.
pub open spec fn failed_trace(
    input: InputView,
    mode: GatewayResolutionMode,
    fault: GatewayFault,
    marker: MarkerView,
    events: Seq<EventView>,
) -> Seq<char> {
    resolution_trace::trace_text(
        TraceView {
            input,
            mode,
            answer: None,
            tls: resolution_trace::no_tls(),
            error: Some(fault.error),
            message: Some(fault.message@),
            marker,
            events,
        },
    )
}

/// How the browser is answered: in the gateway's own words, or with what the
/// origin sent.
#[verifier::ext_equal]
pub enum PlanView {
    Plain { status: u16, reason: Seq<char>, detail: Seq<char>, trace: Option<Seq<char>> },
    Origin { policy: Option<Seq<char>>, trace: Seq<char> },
}

/// What is said of how names were resolved.
pub open spec fn policy_of(marker: MarkerView) -> Option<Seq<char>> {
    if marker.used {
        Some("hns-doh-compat"@)
    } else {
        None
    }
}

pub open spec fn planned<T: TracedOrigin>(
    input: InputView,
    outcome: GatewayOutcome<T>,
    marker: MarkerView,
    events: Seq<EventView>,
) -> PlanView {
    match input::gateway_headers(input.header_text) {
        Err(reason) => PlanView::Plain {
            status: 400,
            reason: "Bad Request"@,
            detail: reason,
            trace: None,
        },
        Ok(parsed) => {
            let mode = input::mode_of(parsed.strict);
            match outcome {
                GatewayOutcome::NoDirectory { error } => PlanView::Plain {
                    status: 500,
                    reason: "Gateway Storage Error"@,
                    detail: "create gateway directory: "@ + error@,
                    trace: None,
                },
                GatewayOutcome::NoCache { error } => PlanView::Plain {
                    status: 500,
                    reason: "Gateway Storage Error"@,
                    detail: "open resource cache: "@ + error@,
                    trace: None,
                },
                GatewayOutcome::NotConfigured { error } => PlanView::Plain {
                    status: 500,
                    reason: "Gateway Configuration Error"@,
                    detail: error@,
                    trace: None,
                },
                GatewayOutcome::Answered { reply } => PlanView::Origin {
                    policy: policy_of(marker),
                    trace: answered_trace(input, mode, reply, marker, events),
                },
                GatewayOutcome::Failed { fault } => {
                    let report = errors::report_of(fault.error);
                    PlanView::Plain {
                        status: report.status,
                        reason: report.reason,
                        detail: report.detail,
                        trace: Some(failed_trace(input, mode, fault, marker, events)),
                    }
                },
            }
        },
    }
}

enum AnswerPlan {
    Plain { status: u16, reason: &'static str, detail: String, trace: Option<String> },
    Origin { policy: Option<&'static str>, trace: String },
}

impl AnswerPlan {
    spec fn means(self, view: PlanView) -> bool {
        match (self, view) {
            (
                AnswerPlan::Plain { status, reason, detail, trace },
                PlanView::Plain { status: s, reason: r, detail: d, trace: t },
            ) => status == s && reason@ == r && detail@ == d && t == (match trace {
                Some(trace) => Some(trace@),
                None => None,
            }),
            (
                AnswerPlan::Origin { policy, trace },
                PlanView::Origin { policy: p, trace: t },
            ) => p == (match policy {
                Some(policy) => Some(policy@),
                None => None,
            }) && trace@ == t,
            _ => false,
        }
    }
}

fn storage_error(prefix: &'static str, error: &str) -> (r: AnswerPlan)
    ensures
        r.means(
            PlanView::Plain {
                status: 500,
                reason: "Gateway Storage Error"@,
                detail: prefix@ + error@,
                trace: None,
            },
        ),
{
    let mut detail = prefix.to_owned();
    detail.append(error);
    AnswerPlan::Plain { status: 500, reason: "Gateway Storage Error", detail, trace: None }
}

fn plan_answer<T: TracedOrigin>(
    input: &GatewayHttpRequestInput<'_>,
    outcome: &GatewayOutcome<T>,
    fallback_marker: &FallbackMarker,
    dns_events: &Vec<DnsTraceEvent>,
) -> (r: AnswerPlan)
    ensures
        r.means(planned(input@, *outcome, fallback_marker@, trace::event_views(dns_events@))),
{
    let parsed = match input::parse_gateway_headers(input.header_text) {
        Ok(parsed) => parsed,
        Err(reason) => {
            return AnswerPlan::Plain {
                status: 400,
                reason: "Bad Request",
                detail: reason.to_owned(),
                trace: None,
            };
        },
    };
    let mode = GatewayResolutionMode::from_strict_hns_mode(parsed.strict_hns_mode);
    match outcome {
        GatewayOutcome::NoDirectory { error } => storage_error(
            "create gateway directory: ",
            error.as_str(),
        ),
        GatewayOutcome::NoCache { error } => storage_error("open resource cache: ", error.as_str()),
        GatewayOutcome::NotConfigured { error } => AnswerPlan::Plain {
            status: 500,
            reason: "Gateway Configuration Error",
            detail: error.as_str().to_owned(),
            trace: None,
        },
        GatewayOutcome::Answered { reply } => {
            let trace = resolution_trace::resolution_trace_json(
                input,
                mode,
                Some(&reply.resolution),
                TlsTraceInput {
                    validation: Some(&reply.tls),
                    decision: Some(reply.origin.decision()),
                    inspection: reply.origin.inspection(),
                },
                None,
                fallback_marker,
                dns_events,
            );
            AnswerPlan::Origin {
                policy: if fallback_marker.used {
                    Some("hns-doh-compat")
                } else {
                    None
                },
                trace,
            }
        },
        GatewayOutcome::Failed { fault } => {
            let (status, reason, detail) = errors::map_gateway_error(&fault.error);
            let trace = resolution_trace::resolution_trace_json(
                input,
                mode,
                None,
                TlsTraceInput { validation: None, decision: None, inspection: None },
                Some(fault),
                fallback_marker,
                dns_events,
            );
            AnswerPlan::Plain { status, reason, detail: detail.to_owned(), trace: Some(trace) }
        },
    }
}

fn plain_of_plan(
    input: &GatewayHttpRequestInput<'_>,
    status: u16,
    reason: &'static str,
    detail: &String,
    trace: &Option<String>,
) -> (r: (Vec<u8>, Vec<u8>))
    ensures
        (r.0@, r.1@) == respond::plain_for(
            input@,
            status,
            reason@,
            detail@,
            match *trace {
                Some(trace) => Some(trace@),
                None => None,
            },
        ),
{
    match trace {
        Some(trace) => respond::plain_response_for_request(
            input,
            status,
            reason,
            detail.as_str(),
            Some(trace.as_str()),
        ),
        None => respond::plain_response_for_request(input, status, reason, detail.as_str(), None),
    }
}

/// The bytes of an answer that is sent whole.
pub open spec fn response_bytes(
    input: InputView,
    outcome: GatewayOutcome<OriginResponse>,
    marker: MarkerView,
    events: Seq<EventView>,
) -> Seq<u8> {
    match (planned(input, outcome, marker, events), outcome) {
        (PlanView::Plain { status, reason, detail, trace }, _) => {
            let parts = respond::plain_for(input, status, reason, detail, trace);
            parts.0 + parts.1
        },
        (PlanView::Origin { policy, trace }, GatewayOutcome::Answered { reply }) => encode_utf8(
            respond::origin_head_text(
                reply.origin.status,
                types::header_views(reply.origin.headers@),
                reply.origin.body@.len(),
                reply.origin.dane_decision,
                policy,
                trace,
            ),
        ) + reply.origin.body@,
        _ => Seq::empty(),
    }
}

/// Answers the browser's request, given how far it came, whether the fallback
/// was used and which questions were asked.
pub fn gateway_http_response(
    input: &GatewayHttpRequestInput<'_>,
    outcome: GatewayOutcome<OriginResponse>,
    fallback_marker: &FallbackMarker,
    dns_events: &Vec<DnsTraceEvent>,
) -> (r: Vec<u8>)
    ensures
        r@ == response_bytes(input@, outcome, fallback_marker@, trace::event_views(dns_events@)),
{
    let plan = plan_answer(input, &outcome, fallback_marker, dns_events);
    match plan {
        AnswerPlan::Plain { status, reason, detail, trace } => {
            let (mut head, mut body) = plain_of_plan(input, status, reason, &detail, &trace);
            head.append(&mut body);
            head
        },
        AnswerPlan::Origin { policy, trace } => match outcome {
            GatewayOutcome::Answered { reply } => {
                respond::origin_response_with_resolver_policy_and_trace(
                    reply.origin,
                    policy,
                    trace.as_str(),
                )
            },
            _ => Vec::new(),
        },
    }
}

/// An answer whose body is in a file: its head, and what is still to be written
/// to the file, if the origin's body is not what it holds.
#[derive(Clone, Debug, PartialEq, Eq)]
pub struct FileAnswer {
    pub head: Vec<u8>,
    pub body: Option<Vec<u8>>,
}

pub open spec fn body_view(body: Option<Vec<u8>>) -> Option<Seq<u8>> {
    match body {
        Some(body) => Some(body@),
        None => None,
    }
}

pub open spec fn file_answer(
    input: InputView,
    outcome: GatewayOutcome<OriginResponseHead>,
    marker: MarkerView,
    events: Seq<EventView>,
) -> (Seq<u8>, Option<Seq<u8>>) {
    match (planned(input, outcome, marker, events), outcome) {
        (PlanView::Plain { status, reason, detail, trace }, _) => {
            let parts = respond::plain_for(input, status, reason, detail, trace);
            (parts.0, Some(parts.1))
        },
        (PlanView::Origin { policy, trace }, GatewayOutcome::Answered { reply }) => (
            encode_utf8(
                respond::origin_head_text(
                    reply.origin.status,
                    types::header_views(reply.origin.headers@),
                    reply.origin.body_len as nat,
                    reply.origin.dane_decision,
                    policy,
                    trace,
                ),
            ),
            None,
        ),
        _ => (Seq::empty(), None),
    }
}

pub fn gateway_http_response_body_to_file(
    input: &GatewayHttpRequestInput<'_>,
    outcome: GatewayOutcome<OriginResponseHead>,
    fallback_marker: &FallbackMarker,
    dns_events: &Vec<DnsTraceEvent>,
) -> (r: FileAnswer)
    ensures
        (r.head@, body_view(r.body)) == file_answer(
            input@,
            outcome,
            fallback_marker@,
            trace::event_views(dns_events@),
        ),
{
    let plan = plan_answer(input, &outcome, fallback_marker, dns_events);
    match plan {
        AnswerPlan::Plain { status, reason, detail, trace } => {
            let (head, body) = plain_of_plan(input, status, reason, &detail, &trace);
            FileAnswer { head, body: Some(body) }
        },
        AnswerPlan::Origin { policy, trace } => match outcome {
            GatewayOutcome::Answered { reply } => FileAnswer {
                head: respond::origin_response_head_with_resolver_policy_and_trace(
                    &reply.origin,
                    policy,
                    trace.as_str(),
                ),
                body: None,
            },
            _ => FileAnswer { head: Vec::new(), body: None },
        },
    }
}

/// What is done with the file of an answer's body.
#[derive(Clone, Copy, Debug, PartialEq, Eq, Structural)]
pub enum BodyFileStep {
    CreateDirectory,
    CreateFile,
    WriteBody,
}

pub open spec fn body_file_prefix(step: BodyFileStep) -> Seq<char> {
    match step {
        BodyFileStep::CreateDirectory => "create response directory: "@,
        BodyFileStep::CreateFile => "create response body: "@,
        BodyFileStep::WriteBody => "write response body: "@,
    }
}

/// What is told where the file of an answer's body cannot be written.
pub fn body_file_error(step: BodyFileStep, error: &str) -> (r: String)
    ensures
        r@ == body_file_prefix(step) + error@,
{
    let mut out = (match step {
        BodyFileStep::CreateDirectory => "create response directory: ",
        BodyFileStep::CreateFile => "create response body: ",
        BodyFileStep::WriteBody => "write response body: ",
    }).to_owned();
    out.append(error);
    out
}

/// How a request for a tunnel is answered, and whether bytes are passed on after
/// that.
#[derive(Clone, Debug, PartialEq, Eq)]
pub struct TunnelAnswer {
    pub bytes: Vec<u8>,
    pub open: bool,
}

pub open spec fn tunnel_answer(
    input: InputView,
    outcome: GatewayOutcome<OriginTunnel>,
    marker: MarkerView,
    events: Seq<EventView>,
) -> (Seq<u8>, bool) {
    match (planned(input, outcome, marker, events), outcome) {
        (PlanView::Plain { status, reason, detail, trace }, _) => {
            let parts = respond::plain_for(input, status, reason, detail, trace);
            (parts.0 + parts.1, false)
        },
        (PlanView::Origin { policy, trace }, GatewayOutcome::Answered { reply }) => (
            encode_utf8(
                respond::upgrade_text(
                    bytes::lossy_text(reply.origin.response_head@),
                    reply.origin.dane_decision,
                    policy,
                    trace,
                ),
            ),
            true,
        ),
        _ => (Seq::empty(), false),
    }
}

pub fn gateway_http_upgrade_tunnel(
    input: &GatewayHttpRequestInput<'_>,
    outcome: &GatewayOutcome<OriginTunnel>,
    fallback_marker: &FallbackMarker,
    dns_events: &Vec<DnsTraceEvent>,
) -> (r: TunnelAnswer)
    ensures
        (r.bytes@, r.open) == tunnel_answer(
            input@,
            *outcome,
            fallback_marker@,
            trace::event_views(dns_events@),
        ),
{
    let plan = plan_answer(input, outcome, fallback_marker, dns_events);
    match plan {
        AnswerPlan::Plain { status, reason, detail, trace } => {
            let (mut head, mut body) = plain_of_plan(input, status, reason, &detail, &trace);
            head.append(&mut body);
            TunnelAnswer { bytes: head, open: false }
        },
        AnswerPlan::Origin { policy, trace } => match outcome {
            GatewayOutcome::Answered { reply } => TunnelAnswer {
                bytes: respond::upgrade_response_head_with_resolver_policy_and_trace(
                    &reply.origin.response_head,
                    &reply.origin.dane_decision,
                    policy,
                    trace.as_str(),
                ),
                open: true,
            },
            _ => TunnelAnswer { bytes: Vec::new(), open: false },
        },
    }
}

/// Whether a request for a tunnel went well: the answer was written, and where
/// bytes were passed on after it, that ended well too.
pub fn tunnel_result(open: bool, written: bool, copied: bool) -> (r: bool)
    ensures
        r == (written && (open ==> copied)),
{
    if open {
        written && copied
    } else {
        written
    }
}

/// What reading from one end of a tunnel gave.
#[derive(Clone, Copy, Debug, PartialEq, Eq, Structural)]
pub enum ReadEvent {
    /// So many bytes; none at the end.
    Bytes(usize),
    Interrupted,
    /// Nothing came in time.
    TimedOut,
    Failed,
}

/// What is done about it.
#[derive(Clone, Copy, Debug, PartialEq, Eq, Structural)]
pub enum CopyStep {
    Forward(usize),
    Again,
    Stop,
    Fail,
}

/// From the browser to the origin.
pub fn client_copy_step(event: ReadEvent) -> (r: CopyStep)
    ensures
        r == (match event {
            ReadEvent::Bytes(n) => if n == 0 {
                CopyStep::Stop
            } else {
                CopyStep::Forward(n)
            },
            ReadEvent::Interrupted => CopyStep::Again,
            ReadEvent::TimedOut | ReadEvent::Failed => CopyStep::Fail,
        }),
{
    match event {
        ReadEvent::Bytes(n) => if n == 0 {
            CopyStep::Stop
        } else {
            CopyStep::Forward(n)
        },
        ReadEvent::Interrupted => CopyStep::Again,
        ReadEvent::TimedOut | ReadEvent::Failed => CopyStep::Fail,
    }
}

/// From the origin to the browser; `done` where the browser has nothing more to
/// send.
pub fn origin_copy_step(event: ReadEvent, done: bool) -> (r: CopyStep)
    ensures
        r == (match event {
            ReadEvent::Bytes(n) => if n == 0 {
                CopyStep::Stop
            } else {
                CopyStep::Forward(n)
            },
            ReadEvent::Interrupted | ReadEvent::TimedOut => if done {
                CopyStep::Stop
            } else {
                CopyStep::Again
            },
            ReadEvent::Failed => CopyStep::Fail,
        }),
{
    match event {
        ReadEvent::Bytes(n) => if n == 0 {
            CopyStep::Stop
        } else {
            CopyStep::Forward(n)
        },
        ReadEvent::Interrupted | ReadEvent::TimedOut => if done {
            CopyStep::Stop
        } else {
            CopyStep::Again
        },
        ReadEvent::Failed => CopyStep::Fail,
    }
}

/// Whatever fails, the browser gets an error in the gateway's own words, and
/// nothing of an origin: the gateway fails closed.
pub proof fn law_gateway_fails_closed<T: TracedOrigin>(
    input: InputView,
    outcome: GatewayOutcome<T>,
    marker: MarkerView,
    events: Seq<EventView>,
)
    requires
        !(outcome is Answered) || input::gateway_headers(input.header_text) is Err,
    ensures
        match planned(input, outcome, marker, events) {
            PlanView::Plain { status, .. } => 400 <= status <= 599,
            PlanView::Origin { .. } => false,
        },
{
    if let GatewayOutcome::Failed { fault } = outcome {
        errors::law_errors_are_reported_as_errors(fault.error);
    }
}

/// An origin's body is passed on as it came, after the head.
pub proof fn law_body_is_passed_on(
    input: InputView,
    reply: GatewayReply<OriginResponse>,
    marker: MarkerView,
    events: Seq<EventView>,
)
    requires
        input::gateway_headers(input.header_text) is Ok,
    ensures
        ({
            let bytes = response_bytes(
                input,
                GatewayOutcome::Answered { reply },
                marker,
                events,
            );
            let body = reply.origin.body@;
            bytes.len() >= body.len() && bytes.skip(bytes.len() - body.len()) == body
        }),
{
    let bytes = response_bytes(input, GatewayOutcome::Answered { reply }, marker, events);
    let body = reply.origin.body@;
    assert(bytes.skip(bytes.len() - body.len()) =~= body);
}

proof fn lemma_occurs_in_longer(s: Seq<char>, more: Seq<char>, needle: Seq<char>)
    requires
        text::contains_text(s, needle),
    ensures
        text::contains_text(s + more, needle),
{
    let at = choose|at: int| text::occurs_at(s, needle, at);
    assert((s + more).subrange(at, at + needle.len()) =~= s.subrange(at, at + needle.len()));
    assert(text::occurs_at(s + more, needle, at));
}

/// A head says that names were resolved strictly whenever they were.
#[verifier::spinoff_prover]
pub proof fn law_strict_mode_is_told(t: TraceView)
    requires
        t.mode == GatewayResolutionMode::Strict,
    ensures
        respond::mode_in(resolution_trace::trace_text(t)) == "strict"@,
{
    let needle = "\"mode\":\"strict\""@;
    let before = "{\"host\":\""@ + json::escaped(t.input.host) + "\",\"url\":\""@ + json::escaped(
        input::address_of(t.input),
    ) + "\",\"root\":\""@ + json::escaped(crate::name::trace_root(t.input.host));
    let told = before + "\",\"mode\":\""@ + t.mode.text() + "\",\"hnsProof\":\""@;
    reveal_strlit("\"mode\":\"strict\"");
    reveal_strlit("\",\"mode\":\"");
    reveal_strlit("strict");
    reveal_strlit("\",\"hnsProof\":\"");
    let at = before.len() as int + 2;
    assert(told.subrange(at, at + needle.len()) =~= needle);
    assert(text::occurs_at(told, needle, at));
    let s1 = told + resolution_trace::proof_text(t.answer, t.error);
    lemma_occurs_in_longer(told, resolution_trace::proof_text(t.answer, t.error), needle);
    let s2 = s1 + "\",\"delegation\":"@;
    lemma_occurs_in_longer(s1, "\",\"delegation\":"@, needle);
    let delegated = json::bool_text(resolution_trace::is_delegated(t.answer, t.events));
    let s3 = s2 + delegated;
    lemma_occurs_in_longer(s2, delegated, needle);
    let s4 = s3 + ",\"resourceRecords\":["@;
    lemma_occurs_in_longer(s3, ",\"resourceRecords\":["@, needle);
    let types = match t.answer {
        Some(answer) => resolution_trace::types_list(answer.records),
        None => ""@,
    };
    let s5 = s4 + types;
    lemma_occurs_in_longer(s4, types, needle);
    let s6 = s5 + "],\"nameserverCandidates\":"@;
    lemma_occurs_in_longer(s5, "],\"nameserverCandidates\":"@, needle);
    let s7 = s6 + trace::candidates_text(t.events);
    lemma_occurs_in_longer(s6, trace::candidates_text(t.events), needle);
    let s8 = s7 + ",\"authoritativeDns\":"@;
    lemma_occurs_in_longer(s7, ",\"authoritativeDns\":"@, needle);
    let s9 = s8 + trace::authoritative_text(t.events);
    lemma_occurs_in_longer(s8, trace::authoritative_text(t.events), needle);
    let s10 = s9 + ",\"dnssec\":\""@;
    lemma_occurs_in_longer(s9, ",\"dnssec\":\""@, needle);
    let s11 = s10 + resolution_trace::dnssec_text(t.answer, t.error);
    lemma_occurs_in_longer(s10, resolution_trace::dnssec_text(t.answer, t.error), needle);
    let s12 = s11 + "\",\"originAddress\":\""@;
    lemma_occurs_in_longer(s11, "\",\"originAddress\":\""@, needle);
    let found = if resolution_trace::has_address(t.answer) {
        "found"@
    } else {
        "missing"@
    };
    let s13 = s12 + found;
    lemma_occurs_in_longer(s12, found, needle);
    let s14 = s13 + "\",\"tls\":"@;
    lemma_occurs_in_longer(s13, "\",\"tls\":"@, needle);
    let s15 = s14 + resolution_trace::tls_text(t.input, t.tls, t.error);
    lemma_occurs_in_longer(s14, resolution_trace::tls_text(t.input, t.tls, t.error), needle);
    lemma_rest_keeps(t, s15, needle);
}

/// What is told of the fallback, and all that follows, after `s`.
spec fn with_rest(t: TraceView, s: Seq<char>) -> Seq<char> {
    s + ",\"fallback\":{\"used\":"@ + json::bool_text(t.marker.used) + ",\"type\":"@ + (
    if t.marker.used {
        "\"HNS_DOH\""@
    } else {
        "null"@
    }) + ",\"reason\":"@ + (if t.marker.used {
        json::quoted(
            match t.marker.reason {
                Some(reason) => reason,
                None => "none"@,
            },
        )
    } else {
        "null"@
    }) + "},\"dnsAttempts\":["@ + trace::attempts_text(t.events) + "],\"finalError\":"@
        + json::quoted_or_null(t.message) + "}"@
}

proof fn lemma_rest_keeps(t: TraceView, s: Seq<char>, needle: Seq<char>)
    requires
        text::contains_text(s, needle),
    ensures
        text::contains_text(with_rest(t, s), needle),
{
    let r1 = s + ",\"fallback\":{\"used\":"@;
    lemma_occurs_in_longer(s, ",\"fallback\":{\"used\":"@, needle);
    let r2 = r1 + json::bool_text(t.marker.used);
    lemma_occurs_in_longer(r1, json::bool_text(t.marker.used), needle);
    lemma_tail_keeps(t, r2, needle);
}

/// What follows what is told of the fallback's use, after `s`.
spec fn with_tail(t: TraceView, s: Seq<char>) -> Seq<char> {
    s + ",\"type\":"@ + (if t.marker.used {
        "\"HNS_DOH\""@
    } else {
        "null"@
    }) + ",\"reason\":"@ + (if t.marker.used {
        json::quoted(
            match t.marker.reason {
                Some(reason) => reason,
                None => "none"@,
            },
        )
    } else {
        "null"@
    }) + "},\"dnsAttempts\":["@ + trace::attempts_text(t.events) + "],\"finalError\":"@
        + json::quoted_or_null(t.message) + "}"@
}

proof fn lemma_tail_keeps(t: TraceView, s: Seq<char>, needle: Seq<char>)
    requires
        text::contains_text(s, needle),
    ensures
        text::contains_text(with_tail(t, s), needle),
{
    let kind = if t.marker.used {
        "\"HNS_DOH\""@
    } else {
        "null"@
    };
    let reason = if t.marker.used {
        json::quoted(
            match t.marker.reason {
                Some(reason) => reason,
                None => "none"@,
            },
        )
    } else {
        "null"@
    };
    let r3 = s + ",\"type\":"@;
    lemma_occurs_in_longer(s, ",\"type\":"@, needle);
    let r4 = r3 + kind;
    lemma_occurs_in_longer(r3, kind, needle);
    let r5 = r4 + ",\"reason\":"@;
    lemma_occurs_in_longer(r4, ",\"reason\":"@, needle);
    let r6 = r5 + reason;
    lemma_occurs_in_longer(r5, reason, needle);
    let r7 = r6 + "},\"dnsAttempts\":["@;
    lemma_occurs_in_longer(r6, "},\"dnsAttempts\":["@, needle);
    let r8 = r7 + trace::attempts_text(t.events);
    lemma_occurs_in_longer(r7, trace::attempts_text(t.events), needle);
    let r9 = r8 + "],\"finalError\":"@;
    lemma_occurs_in_longer(r8, "],\"finalError\":"@, needle);
    let r10 = r9 + json::quoted_or_null(t.message);
    lemma_occurs_in_longer(r9, json::quoted_or_null(t.message), needle);
    lemma_occurs_in_longer(r10, "}"@, needle);
}

/// A head says that the fallback was used whenever it was.
#[verifier::spinoff_prover]
pub proof fn law_used_fallback_is_told(t: TraceView)
    requires
        t.marker.used,
    ensures
        respond::fallback_in(resolution_trace::trace_text(t)) == "yes"@,
        policy_of(t.marker) == Some("hns-doh-compat"@),
{
    let needle = "\"used\":true"@;
    let before = "{\"host\":\""@ + json::escaped(t.input.host) + "\",\"url\":\""@ + json::escaped(
        input::address_of(t.input),
    ) + "\",\"root\":\""@ + json::escaped(crate::name::trace_root(t.input.host))
        + "\",\"mode\":\""@ + t.mode.text() + "\",\"hnsProof\":\""@
        + resolution_trace::proof_text(t.answer, t.error) + "\",\"delegation\":"@
        + json::bool_text(resolution_trace::is_delegated(t.answer, t.events))
        + ",\"resourceRecords\":["@ + (match t.answer {
        Some(answer) => resolution_trace::types_list(answer.records),
        None => ""@,
    }) + "],\"nameserverCandidates\":"@ + trace::candidates_text(t.events)
        + ",\"authoritativeDns\":"@ + trace::authoritative_text(t.events) + ",\"dnssec\":\""@
        + resolution_trace::dnssec_text(t.answer, t.error) + "\",\"originAddress\":\""@ + (
    if resolution_trace::has_address(t.answer) {
        "found"@
    } else {
        "missing"@
    }) + "\",\"tls\":"@ + resolution_trace::tls_text(t.input, t.tls, t.error);
    let told = before + ",\"fallback\":{\"used\":"@ + json::bool_text(t.marker.used);
    lemma_used_occurs(before);
    lemma_tail_keeps(t, told, needle);
}

proof fn lemma_used_occurs(before: Seq<char>)
    ensures
        text::contains_text(
            before + ",\"fallback\":{\"used\":"@ + json::bool_text(true),
            "\"used\":true"@,
        ),
{
    let needle = "\"used\":true"@;
    let told = before + ",\"fallback\":{\"used\":"@ + json::bool_text(true);
    reveal_strlit("\"used\":true");
    reveal_strlit(",\"fallback\":{\"used\":");
    reveal_strlit("true");
    let at = before.len() as int + 13;
    assert(told.subrange(at, at + needle.len()) =~= needle);
    assert(text::occurs_at(told, needle, at));
}

/// What the gateway says in its own words never shows the body of a request.
pub proof fn law_request_body_is_not_shown<T: TracedOrigin>(
    input: InputView,
    other_body: Seq<u8>,
    outcome: GatewayOutcome<T>,
    marker: MarkerView,
    events: Seq<EventView>,
)
    ensures
        ({
            let other = InputView { body: other_body, ..input };
            &&& planned(other, outcome, marker, events) == planned(input, outcome, marker, events)
            &&& forall|status: u16, reason: Seq<char>, detail: Seq<char>, trace: Option<Seq<char>>|
                #[trigger] respond::plain_for(other, status, reason, detail, trace)
                    == respond::plain_for(input, status, reason, detail, trace)
        }),
{
}

/// What an origin answered to a well-formed request is passed on as the origin's,
/// and marked where the fallback had a part in it, and only there.
pub proof fn law_origins_answer_is_passed_on<T: TracedOrigin>(
    input: InputView,
    reply: GatewayReply<T>,
    marker: MarkerView,
    events: Seq<EventView>,
)
    requires
        input::gateway_headers(input.header_text) is Ok,
    ensures
        planned(input, GatewayOutcome::Answered { reply }, marker, events) matches
            PlanView::Origin { policy, .. } && (policy is Some <==> marker.used),
{
}

/// A failure is told with the status, the reason and the detail of its error.
pub proof fn law_failure_is_told<T: TracedOrigin>(
    input: InputView,
    fault: GatewayFault,
    marker: MarkerView,
    events: Seq<EventView>,
)
    requires
        input::gateway_headers(input.header_text) is Ok,
    ensures
        planned(input, GatewayOutcome::<T>::Failed { fault }, marker, events) matches
            PlanView::Plain { status, reason, detail, trace } && status == errors::report_of(
            fault.error,
        ).status && reason == errors::report_of(fault.error).reason && detail == errors::report_of(
            fault.error,
        ).detail && trace is Some,
{
}

} // verus!
