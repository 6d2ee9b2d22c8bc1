//! Why the gateway fails, and what it tells the browser.
use crate::error::ResolverError;
use crate::transport::types::TransportError;
use vstd::prelude::*;
use vstd::string::*;

verus! {

/// Why the gateway fails to answer a request.
#[derive(Clone, Debug, PartialEq, Eq)]
pub enum GatewayError {
    Resolver(ResolverError),
    Transport(TransportError),
    InsecureResolution,
    NoResolvedAddress,
    InvalidTlsa(String),
    InvalidSvcb(String),
    UnsupportedSvcb,
    HostResolutionMismatch,
    NonLoopbackBind,
}

/// A status, a reason and a detail.
pub struct ReportView {
    pub status: u16,
    pub reason: Seq<char>,
    pub detail: Seq<char>,
}

/// What the browser is told of an error.
pub open spec fn report_of(error: GatewayError) -> ReportView {
    match error {
        GatewayError::Resolver(ResolverError::UnsupportedBackend) => ReportView {
            status: 503,
            reason: "HNS Resolution Unavailable"@,
            detail: "Rust HNS resolver backend is not ready."@,
        },
        GatewayError::Resolver(ResolverError::ProofUnavailable) => ReportView {
            status: 503,
            reason: "HNS Proof Unavailable"@,
            detail: "No current verified HNS proof is available for this name."@,
        },
        GatewayError::Resolver(ResolverError::LocalChainNotCurrent) => ReportView {
            status: 503,
            reason: "HNS Sync Not Current"@,
            detail: "HNS header sync is not current enough to determine the state of this name."@,
        },
        GatewayError::Resolver(ResolverError::NameNotFound) => ReportView {
            status: 404,
            reason: "HNS Name Not Found"@,
            detail: "A verified HNS non-inclusion proof says this name does not exist."@,
        },
        GatewayError::Resolver(ResolverError::NoNameserverAddress) => ReportView {
            status: 502,
            reason: "HNS Nameserver Unavailable"@,
            detail: "No verified nameserver address is available for this HNS delegation."@,
        },
        GatewayError::Resolver(ResolverError::DnsTransport(_)) => ReportView {
            status: 502,
            reason: "HNS Nameserver Unavailable"@,
            detail: "Delegated HNS nameserver transport failed closed."@,
        },
        GatewayError::Resolver(ResolverError::InvalidDnsResponse) => ReportView {
            status: 502,
            reason: "HNS Nameserver Response Invalid"@,
            detail: "Delegated HNS nameserver response was invalid or lacked required secure denial data."@,
        },
        GatewayError::Resolver(ResolverError::DnssecFailed) => ReportView {
            status: 502,
            reason: "HNS DNSSEC Validation Failed"@,
            detail: "Delegated HNS DNSSEC validation failed closed."@,
        },
        GatewayError::Resolver(ResolverError::InvalidName(_)) => ReportView {
            status: 400,
            reason: "HNS Name Invalid"@,
            detail: "Requested HNS name is invalid."@,
        },
        GatewayError::Resolver(ResolverError::InvalidResource(_)) => ReportView {
            status: 502,
            reason: "HNS Resource Invalid"@,
            detail: "Verified HNS resource data is malformed or unsupported."@,
        },
        GatewayError::Resolver(ResolverError::ProofNameMismatch) => ReportView {
            status: 502,
            reason: "HNS Proof Validation Failed"@,
            detail: "HNS proof validation failed closed."@,
        },
        GatewayError::InsecureResolution => ReportView {
            status: 502,
            reason: "HNS DNSSEC Validation Failed"@,
            detail: "Secure HNS resolution was required but the resolver returned an insecure result."@,
        },
        GatewayError::NoResolvedAddress => ReportView {
            status: 502,
            reason: "HNS Origin Address Missing"@,
            detail: "Secure HNS resolution did not produce an origin A or AAAA address."@,
        },
        GatewayError::InvalidTlsa(_) | GatewayError::Transport(TransportError::DaneFailed) =>
            ReportView {
            status: 502,
            reason: "HNS DANE Validation Failed"@,
            detail: "DANE/TLSA validation failed closed."@,
        },
        GatewayError::InvalidSvcb(_) | GatewayError::UnsupportedSvcb => ReportView {
            status: 502,
            reason: "HNS HTTPS Service Unsupported"@,
            detail: "HTTPS/SVCB service binding is malformed or requires unsupported transport policy."@,
        },
        GatewayError::HostResolutionMismatch => ReportView {
            status: 400,
            reason: "HNS Request Mismatch"@,
            detail: "Origin host does not match the HNS resolution name."@,
        },
        GatewayError::Transport(TransportError::UnsupportedTransport) => ReportView {
            status: 501,
            reason: "HNS Transport Unsupported"@,
            detail: "Requested HNS origin transport is not available."@,
        },
        GatewayError::Transport(TransportError::UnsupportedScheme) => ReportView {
            status: 501,
            reason: "HNS Scheme Unsupported"@,
            detail: "Requested HNS origin scheme is not available."@,
        },
        GatewayError::Transport(TransportError::Tls(_)) => ReportView {
            status: 502,
            reason: "HNS TLS Failed"@,
            detail: "Origin TLS negotiation failed closed."@,
        },
        GatewayError::Transport(TransportError::InvalidRequest) => ReportView {
            status: 400,
            reason: "HNS Origin Request Invalid"@,
            detail: "Origin request could not be safely forwarded."@,
        },
        GatewayError::Transport(TransportError::RequestTooLarge) => ReportView {
            status: 413,
            reason: "HNS Origin Request Too Large"@,
            detail: "Origin request body exceeds the configured gateway limit."@,
        },
        GatewayError::Transport(TransportError::UnsupportedTransferEncoding)
        | GatewayError::Transport(TransportError::MalformedResponse) => ReportView {
            status: 502,
            reason: "HNS Origin Response Invalid"@,
            detail: "Origin HTTP response framing failed closed."@,
        },
        GatewayError::Transport(TransportError::UnsupportedUpgrade) => ReportView {
            status: 501,
            reason: "HNS Protocol Upgrade Unsupported"@,
            detail: "HNS WebSocket/HTTP Upgrade must use the native tunnel path and the request failed validation."@,
        },
        GatewayError::Transport(TransportError::ResponseTooLarge) => ReportView {
            status: 502,
            reason: "HNS Origin Response Too Large"@,
            detail: "Origin response exceeds the configured gateway limit."@,
        },
        GatewayError::Transport(TransportError::Io(_)) => ReportView {
            status: 502,
            reason: "HNS Origin Transport Failed"@,
            detail: "Origin connection failed closed."@,
        },
        GatewayError::Transport(TransportError::Http2(_)) => ReportView {
            status: 502,
            reason: "HNS HTTP/2 Transport Failed"@,
            detail: "Origin HTTP/2 exchange failed closed."@,
        },
        GatewayError::Transport(TransportError::Http3(_)) => ReportView {
            status: 502,
            reason: "HNS HTTP/3 Transport Failed"@,
            detail: "Origin HTTP/3 exchange failed closed."@,
        },
        GatewayError::Transport(TransportError::Quic(_)) => ReportView {
            status: 502,
            reason: "HNS QUIC Transport Failed"@,
            detail: "Origin QUIC connection failed closed."@,
        },
        GatewayError::Resolver(ResolverError::CachePoisoned)
        | GatewayError::Resolver(ResolverError::Storage(_))
        | GatewayError::NonLoopbackBind => ReportView {
            status: 500,
            reason: "HNS Gateway Storage Error"@,
            detail: "Local HNS gateway state is unavailable."@,
        },
    }
}

pub fn map_gateway_error(error: &GatewayError) -> (r: (u16, &'static str, &'static str))
    ensures
        (ReportView { status: r.0, reason: r.1@, detail: r.2@ }) == report_of(*error),
{
    match error {
        GatewayError::Resolver(ResolverError::UnsupportedBackend) => (
            503,
            "HNS Resolution Unavailable",
            "Rust HNS resolver backend is not ready.",
        ),
        GatewayError::Resolver(ResolverError::ProofUnavailable) => (
            503,
            "HNS Proof Unavailable",
            "No current verified HNS proof is available for this name.",
        ),
        GatewayError::Resolver(ResolverError::LocalChainNotCurrent) => (
            503,
            "HNS Sync Not Current",
            "HNS header sync is not current enough to determine the state of this name.",
        ),
        GatewayError::Resolver(ResolverError::NameNotFound) => (
            404,
            "HNS Name Not Found",
            "A verified HNS non-inclusion proof says this name does not exist.",
        ),
        GatewayError::Resolver(ResolverError::NoNameserverAddress) => (
            502,
            "HNS Nameserver Unavailable",
            "No verified nameserver address is available for this HNS delegation.",
        ),
        GatewayError::Resolver(ResolverError::DnsTransport(_)) => (
            502,
            "HNS Nameserver Unavailable",
            "Delegated HNS nameserver transport failed closed.",
        ),
        GatewayError::Resolver(ResolverError::InvalidDnsResponse) => (
            502,
            "HNS Nameserver Response Invalid",
            "Delegated HNS nameserver response was invalid or lacked required secure denial data.",
        ),
        GatewayError::Resolver(ResolverError::DnssecFailed) => (
            502,
            "HNS DNSSEC Validation Failed",
            "Delegated HNS DNSSEC validation failed closed.",
        ),
        GatewayError::Resolver(ResolverError::InvalidName(_)) => (
            400,
            "HNS Name Invalid",
            "Requested HNS name is invalid.",
        ),
        GatewayError::Resolver(ResolverError::InvalidResource(_)) => (
            502,
            "HNS Resource Invalid",
            "Verified HNS resource data is malformed or unsupported.",
        ),
        GatewayError::Resolver(ResolverError::ProofNameMismatch) => (
            502,
            "HNS Proof Validation Failed",
            "HNS proof validation failed closed.",
        ),
        GatewayError::InsecureResolution => (
            502,
            "HNS DNSSEC Validation Failed",
            "Secure HNS resolution was required but the resolver returned an insecure result.",
        ),
        GatewayError::NoResolvedAddress => (
            502,
            "HNS Origin Address Missing",
            "Secure HNS resolution did not produce an origin A or AAAA address.",
        ),
        GatewayError::InvalidTlsa(_) | GatewayError::Transport(TransportError::DaneFailed) => (
            502,
            "HNS DANE Validation Failed",
            "DANE/TLSA validation failed closed.",
        ),
        GatewayError::InvalidSvcb(_) | GatewayError::UnsupportedSvcb => (
            502,
            "HNS HTTPS Service Unsupported",
            "HTTPS/SVCB service binding is malformed or requires unsupported transport policy.",
        ),
        GatewayError::HostResolutionMismatch => (
            400,
            "HNS Request Mismatch",
            "Origin host does not match the HNS resolution name.",
        ),
        GatewayError::Transport(TransportError::UnsupportedTransport) => (
            501,
            "HNS Transport Unsupported",
            "Requested HNS origin transport is not available.",
        ),
        GatewayError::Transport(TransportError::UnsupportedScheme) => (
            501,
            "HNS Scheme Unsupported",
            "Requested HNS origin scheme is not available.",
        ),
        GatewayError::Transport(TransportError::Tls(_)) => (
            502,
            "HNS TLS Failed",
            "Origin TLS negotiation failed closed.",
        ),
        GatewayError::Transport(TransportError::InvalidRequest) => (
            400,
            "HNS Origin Request Invalid",
            "Origin request could not be safely forwarded.",
        ),
        GatewayError::Transport(TransportError::RequestTooLarge) => (
            413,
            "HNS Origin Request Too Large",
            "Origin request body exceeds the configured gateway limit.",
        ),
        GatewayError::Transport(TransportError::UnsupportedTransferEncoding)
        | GatewayError::Transport(TransportError::MalformedResponse) => (
            502,
            "HNS Origin Response Invalid",
            "Origin HTTP response framing failed closed.",
        ),
        GatewayError::Transport(TransportError::UnsupportedUpgrade) => (
            501,
            "HNS Protocol Upgrade Unsupported",
            "HNS WebSocket/HTTP Upgrade must use the native tunnel path and the request failed validation.",
        ),
        GatewayError::Transport(TransportError::ResponseTooLarge) => (
            502,
            "HNS Origin Response Too Large",
            "Origin response exceeds the configured gateway limit.",
        ),
        GatewayError::Transport(TransportError::Io(_)) => (
            502,
            "HNS Origin Transport Failed",
            "Origin connection failed closed.",
        ),
        GatewayError::Transport(TransportError::Http2(_)) => (
            502,
            "HNS HTTP/2 Transport Failed",
            "Origin HTTP/2 exchange failed closed.",
        ),
        GatewayError::Transport(TransportError::Http3(_)) => (
            502,
            "HNS HTTP/3 Transport Failed",
            "Origin HTTP/3 exchange failed closed.",
        ),
        GatewayError::Transport(TransportError::Quic(_)) => (
            502,
            "HNS QUIC Transport Failed",
            "Origin QUIC connection failed closed.",
        ),
        GatewayError::Resolver(ResolverError::CachePoisoned)
        | GatewayError::Resolver(ResolverError::Storage(_))
        | GatewayError::NonLoopbackBind => (
            500,
            "HNS Gateway Storage Error",
            "Local HNS gateway state is unavailable.",
        ),
    }
}

/// No error is ever reported as a success.
pub proof fn law_errors_are_reported_as_errors(error: GatewayError)
    ensures
        400 <= report_of(error).status <= 599,
{
}

/// Only a chain that is not current is told to the browser as a matter of sync.
pub proof fn law_stale_sync_has_its_own_reason(error: GatewayError)
    ensures
        report_of(error).reason == "HNS Sync Not Current"@ <==> error == GatewayError::Resolver(
            ResolverError::LocalChainNotCurrent,
        ),
{
    reveal_strlit("HNS DANE Validation Failed");
    reveal_strlit("HNS DNSSEC Validation Failed");
    reveal_strlit("HNS Gateway Storage Error");
    reveal_strlit("HNS HTTP/2 Transport Failed");
    reveal_strlit("HNS HTTP/3 Transport Failed");
    reveal_strlit("HNS HTTPS Service Unsupported");
    reveal_strlit("HNS Name Invalid");
    reveal_strlit("HNS Name Not Found");
    reveal_strlit("HNS Nameserver Response Invalid");
    reveal_strlit("HNS Nameserver Unavailable");
    reveal_strlit("HNS Origin Address Missing");
    reveal_strlit("HNS Origin Request Invalid");
    reveal_strlit("HNS Origin Request Too Large");
    reveal_strlit("HNS Origin Response Invalid");
    reveal_strlit("HNS Origin Response Too Large");
    reveal_strlit("HNS Origin Transport Failed");
    reveal_strlit("HNS Proof Unavailable");
    reveal_strlit("HNS Proof Validation Failed");
    reveal_strlit("HNS Protocol Upgrade Unsupported");
    reveal_strlit("HNS QUIC Transport Failed");
    reveal_strlit("HNS Request Mismatch");
    reveal_strlit("HNS Resolution Unavailable");
    reveal_strlit("HNS Resource Invalid");
    reveal_strlit("HNS Scheme Unsupported");
    reveal_strlit("HNS Sync Not Current");
    reveal_strlit("HNS TLS Failed");
    reveal_strlit("HNS Transport Unsupported");
    if !(error is Resolver && error->Resolver_0 is LocalChainNotCurrent) {
        let told = report_of(error).reason;
        let stale = "HNS Sync Not Current"@;
        assert(told[4] != stale[4] || told[5] != stale[5]);
    }
}

/// What a status says: 404 that the name does not exist, 503 that nothing is known
/// of it yet, 400 that the request does not fit, 413 that it is too large, 501 that
/// it asks for what there is not, and 502 that the answer could not be trusted or
/// had.
pub proof fn law_statuses_tell_what_failed(error: GatewayError)
    ensures
        ({
            let status = report_of(error).status;
            &&& status == 404 <==> error == GatewayError::Resolver(ResolverError::NameNotFound)
            &&& status == 503 <==> error == GatewayError::Resolver(
                ResolverError::UnsupportedBackend,
            ) || error == GatewayError::Resolver(ResolverError::ProofUnavailable) || error
                == GatewayError::Resolver(ResolverError::LocalChainNotCurrent)
            &&& status == 413 <==> error == GatewayError::Transport(
                TransportError::RequestTooLarge,
            )
            &&& error == GatewayError::Resolver(ResolverError::DnssecFailed) || error
                == GatewayError::Resolver(ResolverError::ProofNameMismatch) || error
                == GatewayError::Resolver(ResolverError::InvalidDnsResponse) || error
                is InsecureResolution || error is NoResolvedAddress || error is InvalidTlsa || error
                == GatewayError::Transport(TransportError::DaneFailed) || error
                == GatewayError::Transport(TransportError::MalformedResponse) || error
                == GatewayError::Transport(TransportError::ResponseTooLarge) ==> status == 502
            &&& error is HostResolutionMismatch || error == GatewayError::Transport(
                TransportError::InvalidRequest,
            ) || (error matches GatewayError::Resolver(reason) && reason is InvalidName) ==> status
                == 400
            &&& error == GatewayError::Transport(TransportError::UnsupportedTransport) || error
                == GatewayError::Transport(TransportError::UnsupportedScheme) || error
                == GatewayError::Transport(TransportError::UnsupportedUpgrade) ==> status == 501
        }),
{
}

} // verus!
