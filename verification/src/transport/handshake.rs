//! How a server's certificate is judged, and what is remembered of it.
use crate::text;
use crate::transport::types;
use crate::transport::types::{
    DaneDecision, InspectionView, TlsCertificateInspection, TransportError, WebPkiStatus,
};
use std::collections::HashMap;
use vstd::hash_map::*;
use vstd::prelude::*;
use vstd::string::*;

verus! {

/// What the policy says of a certificate chain.
#[derive(Clone, Debug, PartialEq, Eq)]
pub enum PolicyReply {
    Decided(DaneDecision),
    /// The public authorities decide, and they refused it.
    WebPkiFailed,
    Refused(String),
}

/// What becomes of a certificate.
#[derive(Clone, Debug, PartialEq, Eq)]
pub enum CertificateVerdict {
    Accepted(DaneDecision),
    /// The finding under the public authorities stands.
    AsWebPki,
    Rejected(String),
}

pub enum VerdictView {
    Accepted(DaneDecision),
    AsWebPki,
    Rejected(Seq<char>),
}

impl View for CertificateVerdict {
    type V = VerdictView;

    open spec fn view(&self) -> VerdictView {
        match self {
            CertificateVerdict::Accepted(decision) => VerdictView::Accepted(*decision),
            CertificateVerdict::AsWebPki => VerdictView::AsWebPki,
            CertificateVerdict::Rejected(reason) => VerdictView::Rejected(reason@),
        }
    }
}

pub fn webpki_status(valid: bool) -> (r: WebPkiStatus)
    ensures
        r == (if valid {
            WebPkiStatus::Valid
        } else {
            WebPkiStatus::Invalid
        }),
{
    if valid {
        WebPkiStatus::Valid
    } else {
        WebPkiStatus::Invalid
    }
}

/// What becomes of a certificate: one that fails its association is rejected,
/// and so is one that cannot be looked into.
pub open spec fn verdict_of(
    reply: PolicyReply,
    inspection: Result<TlsCertificateInspection, String>,
) -> VerdictView {
    match reply {
        PolicyReply::Decided(DaneDecision::Failed) => VerdictView::Rejected(
            "DANE certificate association did not match"@,
        ),
        PolicyReply::Decided(decision) => match inspection {
            Ok(_) => VerdictView::Accepted(decision),
            Err(reason) => VerdictView::Rejected(
                "TLS certificate inspection failed: "@ + reason@,
            ),
        },
        PolicyReply::WebPkiFailed => VerdictView::AsWebPki,
        PolicyReply::Refused(reason) => VerdictView::Rejected(
            "DANE policy rejected certificate: "@ + reason@,
        ),
    }
}

/// What is known of a handshake.
#[derive(Clone, Debug, PartialEq, Eq)]
pub struct HandshakeCapture {
    pub server_name: String,
    pub decision: Option<DaneDecision>,
    pub inspection: Option<TlsCertificateInspection>,
}

pub struct CaptureView {
    pub server_name: Seq<char>,
    pub decision: Option<DaneDecision>,
    pub inspection: Option<InspectionView>,
}

impl View for HandshakeCapture {
    type V = CaptureView;

    open spec fn view(&self) -> CaptureView {
        CaptureView {
            server_name: self.server_name@,
            decision: self.decision,
            inspection: types::inspection_view(self.inspection),
        }
    }
}

impl HandshakeCapture {
    fn copy(&self) -> (r: HandshakeCapture)
        ensures
            r@ == self@,
    {
        HandshakeCapture {
            server_name: self.server_name.clone(),
            decision: self.decision,
            inspection: types::copy_inspection(&self.inspection),
        }
    }
}

/// The handshakes under way, by thread, and the last that succeeded, by
/// server.
pub struct HandshakeLog {
    pub handshakes: HashMap<u64, HandshakeCapture>,
    pub last_success: StringHashMap<HandshakeCapture>,
}

pub struct LogView {
    pub handshakes: Map<u64, CaptureView>,
    pub last_success: Map<Seq<char>, CaptureView>,
}

impl View for HandshakeLog {
    type V = LogView;

    open spec fn view(&self) -> LogView {
        LogView {
            handshakes: self.handshakes@.map_values(|capture: HandshakeCapture| capture@),
            last_success: self.last_success@.map_values(|capture: HandshakeCapture| capture@),
        }
    }
}

/// The log after a certificate was accepted.
pub open spec fn captured(
    log: LogView,
    thread: u64,
    decision: DaneDecision,
    inspection: InspectionView,
) -> LogView {
    let server_name = if log.handshakes.dom().contains(thread) {
        log.handshakes[thread].server_name
    } else {
        Seq::empty()
    };
    let capture = CaptureView {
        server_name,
        decision: Some(decision),
        inspection: Some(inspection),
    };
    LogView {
        handshakes: log.handshakes.insert(thread, capture),
        last_success: if server_name.len() == 0 {
            log.last_success
        } else {
            log.last_success.insert(server_name, capture)
        },
    }
}

/// What a handshake came to: what this thread captured, or what the last
/// success with the server was, as a resumed session shows no certificate.
pub open spec fn finished(log: LogView, thread: u64, server_name: Seq<char>) -> Option<
    (DaneDecision, Option<InspectionView>),
> {
    let key = text::lower(server_name);
    if log.handshakes.dom().contains(thread) && log.handshakes[thread].decision is Some {
        Some((log.handshakes[thread].decision->0, log.handshakes[thread].inspection))
    } else if log.last_success.dom().contains(key) && log.last_success[key].decision is Some {
        Some((log.last_success[key].decision->0, log.last_success[key].inspection))
    } else {
        None
    }
}

/// The reason given for a certificate that nobody judged.
pub open spec fn not_evaluated(error: TransportError) -> bool {
    error matches TransportError::Tls(reason) && reason@
        == "TLS certificate policy was not evaluated"@
}

impl HandshakeLog {
    pub fn new() -> (r: Self)
        ensures
            r@ == (LogView { handshakes: Map::empty(), last_success: Map::empty() }),
    {
        broadcast use vstd::std_specs::hash::group_hash_axioms;

        let r = HandshakeLog { handshakes: HashMap::new(), last_success: StringHashMap::new() };
        assert(r@.handshakes =~= Map::empty());
        assert(r@.last_success =~= Map::empty());
        r
    }

    /// Starts a handshake with a server on a thread.
    pub fn begin_handshake(&mut self, thread: u64, server_name: &str)
        ensures
            final(self)@ == (LogView {
                handshakes: old(self)@.handshakes.insert(
                    thread,
                    CaptureView {
                        server_name: text::lower(server_name@),
                        decision: None,
                        inspection: None,
                    },
                ),
                ..old(self)@
            }),
    {
        broadcast use vstd::std_specs::hash::group_hash_axioms;

        let ghost before = self@;
        let capture = HandshakeCapture {
            server_name: text::to_lower(server_name),
            decision: None,
            inspection: None,
        };
        let ghost seen = capture@;
        self.handshakes.insert(thread, capture);
        assert(self@.handshakes =~= before.handshakes.insert(thread, seen));
    }

    fn store_capture(
        &mut self,
        thread: u64,
        decision: DaneDecision,
        inspection: TlsCertificateInspection,
    )
        ensures
            final(self)@ == captured(old(self)@, thread, decision, inspection@),
    {
        broadcast use vstd::std_specs::hash::group_hash_axioms;

        let ghost before = self@;
        let server_name = match self.handshakes.get(&thread) {
            Some(capture) => capture.server_name.clone(),
            None => String::new(),
        };
        let capture = HandshakeCapture {
            server_name: server_name.clone(),
            decision: Some(decision),
            inspection: Some(inspection),
        };
        let ghost seen = capture@;
        assert(seen.server_name == (if before.handshakes.dom().contains(thread) {
            before.handshakes[thread].server_name
        } else {
            Seq::empty()
        }));
        let named = !server_name.as_str().is_empty();
        let copied = capture.copy();
        self.handshakes.insert(thread, capture);
        assert(self@.handshakes =~= before.handshakes.insert(thread, seen));
        if named {
            self.last_success.insert(server_name, copied);
            assert(self@.last_success =~= before.last_success.insert(seen.server_name, seen));
        }
    }

    /// Judges a server's certificate on a thread. One that is accepted is
    /// captured.
    pub fn verify_server_cert(
        &mut self,
        thread: u64,
        reply: PolicyReply,
        inspection: Result<TlsCertificateInspection, String>,
    ) -> (r: CertificateVerdict)
        ensures
            r@ == verdict_of(reply, inspection),
            match r@ {
                VerdictView::Accepted(decision) => final(self)@ == captured(
                    old(self)@,
                    thread,
                    decision,
                    inspection->Ok_0@,
                ),
                _ => final(self)@ == old(self)@,
            },
    {
        match reply {
            PolicyReply::Decided(DaneDecision::Failed) => CertificateVerdict::Rejected(
                "DANE certificate association did not match".to_owned(),
            ),
            PolicyReply::Decided(decision) => match inspection {
                Ok(inspection) => {
                    self.store_capture(thread, decision, inspection);
                    CertificateVerdict::Accepted(decision)
                },
                Err(reason) => CertificateVerdict::Rejected(
                    "TLS certificate inspection failed: ".to_owned().concat(reason.as_str()),
                ),
            },
            PolicyReply::WebPkiFailed => CertificateVerdict::AsWebPki,
            PolicyReply::Refused(reason) => CertificateVerdict::Rejected(
                "DANE policy rejected certificate: ".to_owned().concat(reason.as_str()),
            ),
        }
    }

    /// Ends a thread's handshake: how the certificate was accepted.
    pub fn finish_handshake(&mut self, thread: u64, server_name: &str) -> (r: Result<
        (DaneDecision, Option<TlsCertificateInspection>),
        TransportError,
    >)
        ensures
            final(self)@ == (LogView {
                handshakes: old(self)@.handshakes.remove(thread),
                ..old(self)@
            }),
            match r {
                Ok((decision, inspection)) => finished(old(self)@, thread, server_name@) == Some(
                    (decision, types::inspection_view(inspection)),
                ),
                Err(error) => finished(old(self)@, thread, server_name@) is None && not_evaluated(
                    error,
                ),
            },
    {
        broadcast use vstd::std_specs::hash::group_hash_axioms;

        let ghost before = self@;
        let capture = self.handshakes.remove(&thread);
        assert(self@.handshakes =~= before.handshakes.remove(thread));
        if let Some(capture) = capture {
            if let Some(decision) = capture.decision {
                return Ok((decision, capture.inspection));
            }
        }
        let key = text::to_lower(server_name);
        match self.last_success.get(key.as_str()) {
            Some(cached) => match cached.decision {
                Some(decision) => Ok((decision, types::copy_inspection(&cached.inspection))),
                None => Err(
                    TransportError::Tls("TLS certificate policy was not evaluated".to_owned()),
                ),
            },
            None => Err(
                TransportError::Tls("TLS certificate policy was not evaluated".to_owned()),
            ),
        }
    }
}

/// A handshake in which a certificate was accepted ends in how it was
/// accepted.
pub proof fn law_accepted_certificate_is_reported(
    log: LogView,
    thread: u64,
    decision: DaneDecision,
    inspection: InspectionView,
    server_name: Seq<char>,
)
    ensures
        finished(captured(log, thread, decision, inspection), thread, server_name) == Some(
            (decision, Some(inspection)),
        ),
{
}

/// Without an accepted certificate, on this thread or before from the server,
/// there is no verdict to report.
pub proof fn law_nothing_accepted_nothing_reported(log: LogView, thread: u64, server_name: Seq<char>)
    requires
        !log.handshakes.dom().contains(thread),
        !log.last_success.dom().contains(text::lower(server_name)),
    ensures
        finished(log, thread, server_name) is None,
{
}

/// A failed association is never accepted.
pub proof fn law_failed_association_is_rejected(
    inspection: Result<TlsCertificateInspection, String>,
)
    ensures
        verdict_of(PolicyReply::Decided(DaneDecision::Failed), inspection) is Rejected,
{
}

/// A certificate that the policy decided for, and that could be looked into, is
/// accepted with that decision; and nothing else is accepted.
pub proof fn law_what_is_accepted(
    reply: PolicyReply,
    inspection: Result<TlsCertificateInspection, String>,
    decision: DaneDecision,
)
    ensures
        verdict_of(reply, inspection) == VerdictView::Accepted(decision) <==> reply
            == PolicyReply::Decided(decision) && decision != DaneDecision::Failed && inspection
            is Ok,
        verdict_of(reply, inspection) == VerdictView::AsWebPki <==> reply is WebPkiFailed,
{
}

} // verus!
