//! The order in which the system verifier makes its checks, and the framing of
//! the system's DNS transport.
use crate::dns;
use crate::dns::{ServerAddress, DEFAULT_DNS_TCP_MAX_MESSAGE_LEN, DEFAULT_DNS_UDP_PAYLOAD};
use crate::dnssec::{
    Claim, DelegatedChildDnssecNameErrorValidation, DelegatedChildDnssecNoDataValidation,
    DelegatedChildDnssecValidation, DelegatedDnssecNameErrorValidation,
    DelegatedDnssecNoDataValidation, DelegatedDnssecValidation, DnssecQuestion,
};
use crate::error::ResolverError;
use vstd::prelude::*;

verus! {

/// What kind of claim is to be checked.
#[derive(Clone, Copy, Debug, PartialEq, Eq, Structural)]
pub enum ClaimKind {
    Positive,
    NoData,
    NameError,
}

/// One check against the DNSSEC records of a question.
#[derive(Clone, Copy, Debug, PartialEq, Eq, Structural)]
pub enum SystemCheck {
    /// The target is signed by the keys of the zone.
    Target,
    /// The target is signed by the keys of the child, along the chain from the zone.
    ChainTarget,
    /// The zone's keys are signed by a key that the digests vouch for.
    ZoneKeys,
    /// The child's digests are signed by the zone's keys.
    ChildDigests,
    /// The child's keys are signed by a key that its digests vouch for.
    ChildKeys,
    /// The plain denial records prove the claim.
    Nsec,
    /// The hashed denial records prove the claim.
    Nsec3,
}

/// What the order of the checks depends on.
#[derive(Clone, Copy, Debug, PartialEq, Eq, Structural)]
pub struct QuestionShape {
    pub claim: ClaimKind,
    pub child: bool,
    pub has_nsec: bool,
    pub has_nsec3: bool,
    /// Whether the system clock shows a time after the epoch.
    pub clock_is_set: bool,
}

/// The shape of a verifier's question.
pub open spec fn shape_of(question: DnssecQuestion, clock_is_set: bool) -> QuestionShape {
    QuestionShape {
        claim: match question.claim {
            Claim::Positive { .. } => ClaimKind::Positive,
            Claim::NoData { .. } => ClaimKind::NoData,
            Claim::NameError { .. } => ClaimKind::NameError,
        },
        child: question.link is Some,
        has_nsec: match question.claim {
            Claim::Positive { .. } => false,
            Claim::NoData { denial, .. } => denial.nsec.len() > 0,
            Claim::NameError { denial, .. } => denial.nsec.len() > 0,
        },
        has_nsec3: match question.claim {
            Claim::Positive { .. } => false,
            Claim::NoData { denial, .. } => denial.nsec3.len() > 0,
            Claim::NameError { denial, .. } => denial.nsec3.len() > 0,
        },
        clock_is_set,
    }
}

impl<'a> DelegatedDnssecValidation<'a> {
    pub fn shape(&self, clock_is_set: bool) -> (r: QuestionShape)
        ensures
            r == shape_of(self.question(), clock_is_set),
    {
        QuestionShape {
            claim: ClaimKind::Positive,
            child: false,
            has_nsec: false,
            has_nsec3: false,
            clock_is_set,
        }
    }
}

impl<'a> DelegatedDnssecNoDataValidation<'a> {
    pub fn shape(&self, clock_is_set: bool) -> (r: QuestionShape)
        ensures
            r == shape_of(self.question(), clock_is_set),
    {
        QuestionShape {
            claim: ClaimKind::NoData,
            child: false,
            has_nsec: self.nsec_rrset.len() > 0,
            has_nsec3: self.nsec3_rrset.len() > 0,
            clock_is_set,
        }
    }
}

impl<'a> DelegatedDnssecNameErrorValidation<'a> {
    pub fn shape(&self, clock_is_set: bool) -> (r: QuestionShape)
        ensures
            r == shape_of(self.question(), clock_is_set),
    {
        QuestionShape {
            claim: ClaimKind::NameError,
            child: false,
            has_nsec: self.nsec_rrset.len() > 0,
            has_nsec3: self.nsec3_rrset.len() > 0,
            clock_is_set,
        }
    }
}

impl<'a> DelegatedChildDnssecValidation<'a> {
    pub fn shape(&self, clock_is_set: bool) -> (r: QuestionShape)
        ensures
            r == shape_of(self.question(), clock_is_set),
    {
        QuestionShape {
            claim: ClaimKind::Positive,
            child: true,
            has_nsec: false,
            has_nsec3: false,
            clock_is_set,
        }
    }
}

impl<'a> DelegatedChildDnssecNoDataValidation<'a> {
    pub fn shape(&self, clock_is_set: bool) -> (r: QuestionShape)
        ensures
            r == shape_of(self.question(), clock_is_set),
    {
        QuestionShape {
            claim: ClaimKind::NoData,
            child: true,
            has_nsec: self.nsec_rrset.len() > 0,
            has_nsec3: self.nsec3_rrset.len() > 0,
            clock_is_set,
        }
    }
}

impl<'a> DelegatedChildDnssecNameErrorValidation<'a> {
    pub fn shape(&self, clock_is_set: bool) -> (r: QuestionShape)
        ensures
            r == shape_of(self.question(), clock_is_set),
    {
        QuestionShape {
            claim: ClaimKind::NameError,
            child: true,
            has_nsec: self.nsec_rrset.len() > 0,
            has_nsec3: self.nsec3_rrset.len() > 0,
            clock_is_set,
        }
    }
}

/// The checks of a question, in order.
pub open spec fn plan(shape: QuestionShape) -> Seq<SystemCheck> {
    if shape.claim == ClaimKind::Positive {
        if shape.child {
            seq![SystemCheck::ChainTarget]
        } else {
            seq![SystemCheck::Target]
        }
    } else {
        let keys = if shape.child {
            seq![SystemCheck::ZoneKeys, SystemCheck::ChildDigests, SystemCheck::ChildKeys]
        } else {
            seq![SystemCheck::ZoneKeys]
        };
        let nsec = if shape.has_nsec {
            seq![SystemCheck::Nsec]
        } else {
            Seq::empty()
        };
        let nsec3 = if shape.has_nsec3 {
            seq![SystemCheck::Nsec3]
        } else {
            Seq::empty()
        };
        keys + nsec + nsec3
    }
}

/// What one check settles. `outcome` is `None` where the records could not be
/// checked at all, else whether they are secure. A target settles the question,
/// keys that are not secure refuse it, and a proof of absence accepts it.
pub open spec fn settled_by(check: SystemCheck, outcome: Option<bool>) -> Option<
    Result<bool, ResolverError>,
> {
    match outcome {
        None => Some(Err(ResolverError::DnssecFailed)),
        Some(secure) => match check {
            SystemCheck::Target | SystemCheck::ChainTarget => Some(Ok(secure)),
            SystemCheck::ZoneKeys | SystemCheck::ChildDigests | SystemCheck::ChildKeys => if secure {
                None
            } else {
                Some(Ok(false))
            },
            SystemCheck::Nsec | SystemCheck::Nsec3 => if secure {
                Some(Ok(true))
            } else {
                None
            },
        },
    }
}

/// The verdict after the checks `checks[i..]` have come out as in `outcomes`;
/// `None` while the next check is still to be made.
pub open spec fn verdict_from(
    checks: Seq<SystemCheck>,
    outcomes: Seq<Option<bool>>,
    i: nat,
) -> Option<Result<bool, ResolverError>>
    decreases checks.len() - i,
{
    if i >= checks.len() {
        Some(Ok(false))
    } else if i >= outcomes.len() {
        None
    } else {
        match settled_by(checks[i as int], outcomes[i as int]) {
            Some(verdict) => Some(verdict),
            None => verdict_from(checks, outcomes, i + 1),
        }
    }
}

/// The verdict on a question after the outcomes so far.
pub open spec fn verdict_on(shape: QuestionShape, outcomes: Seq<Option<bool>>) -> Option<
    Result<bool, ResolverError>,
> {
    if !shape.clock_is_set {
        Some(Err(ResolverError::DnssecFailed))
    } else {
        verdict_from(plan(shape), outcomes, 0)
    }
}

/// What the verifier does next.
#[derive(Debug, PartialEq, Eq)]
pub enum CheckStep {
    Check(SystemCheck),
    Verdict(Result<bool, ResolverError>),
}

/// The verifier that checks records with the system clock.
#[derive(Clone, Copy, Debug, PartialEq, Eq)]
pub struct SystemDnssecVerifier;

fn plan_of(shape: QuestionShape) -> (r: Vec<SystemCheck>)
    ensures
        r@ == plan(shape),
{
    let mut checks: Vec<SystemCheck> = Vec::new();
    match shape.claim {
        ClaimKind::Positive => {
            if shape.child {
                checks.push(SystemCheck::ChainTarget);
            } else {
                checks.push(SystemCheck::Target);
            }
        },
        _ => {
            checks.push(SystemCheck::ZoneKeys);
            if shape.child {
                checks.push(SystemCheck::ChildDigests);
                checks.push(SystemCheck::ChildKeys);
            }
            if shape.has_nsec {
                checks.push(SystemCheck::Nsec);
            }
            if shape.has_nsec3 {
                checks.push(SystemCheck::Nsec3);
            }
        },
    }
    assert(checks@ =~= plan(shape));
    checks
}

impl SystemDnssecVerifier {
    /// The next check of a question, or the verdict on it, given how the checks
    /// so far came out.
    pub fn next_step(&self, shape: QuestionShape, outcomes: &Vec<Option<bool>>) -> (r: CheckStep)
        ensures
            match r {
                CheckStep::Verdict(verdict) => verdict_on(shape, outcomes@) == Some(verdict),
                CheckStep::Check(check) => {
                    &&& verdict_on(shape, outcomes@) is None
                    &&& outcomes@.len() < plan(shape).len()
                    &&& check == plan(shape)[outcomes@.len() as int]
                },
            },
    {
        if !shape.clock_is_set {
            return CheckStep::Verdict(Err(ResolverError::DnssecFailed));
        }
        let checks = plan_of(shape);
        let mut i: usize = 0;
        while i < checks.len()
            invariant
                i <= checks.len(),
                i <= outcomes.len(),
                shape.clock_is_set,
                checks@ == plan(shape),
                verdict_on(shape, outcomes@) == verdict_from(checks@, outcomes@, i as nat),
            decreases checks.len() - i,
        {
            if i >= outcomes.len() {
                return CheckStep::Check(checks[i]);
            }
            match outcomes[i] {
                None => {
                    return CheckStep::Verdict(Err(ResolverError::DnssecFailed));
                },
                Some(secure) => match checks[i] {
                    SystemCheck::Target | SystemCheck::ChainTarget => {
                        return CheckStep::Verdict(Ok(secure));
                    },
                    SystemCheck::ZoneKeys | SystemCheck::ChildDigests | SystemCheck::ChildKeys => {
                        if !secure {
                            return CheckStep::Verdict(Ok(false));
                        }
                    },
                    SystemCheck::Nsec | SystemCheck::Nsec3 => {
                        if secure {
                            return CheckStep::Verdict(Ok(true));
                        }
                    },
                },
            }
            i = i + 1;
        }
        CheckStep::Verdict(Ok(false))
    }
}

/// A question is accepted only after every key check of its plan came out
/// secure, and for an absence only after a denial did.
pub proof fn law_acceptance_needs_secure_keys(shape: QuestionShape, outcomes: Seq<Option<bool>>)
    requires
        verdict_on(shape, outcomes) == Some(Ok::<bool, ResolverError>(true)),
    ensures
        shape.clock_is_set,
        outcomes.len() > 0,
        outcomes[0] == Some(true),
        shape.child && shape.claim != ClaimKind::Positive ==> outcomes.len() > 2 && outcomes[1]
            == Some(true) && outcomes[2] == Some(true),
        shape.claim != ClaimKind::Positive ==> exists|i: int|
            0 <= i < plan(shape).len() && i < outcomes.len() && (#[trigger] plan(shape)[i]
                == SystemCheck::Nsec || plan(shape)[i] == SystemCheck::Nsec3) && outcomes[i] == Some(
                true,
            ),
{
    let checks = plan(shape);
    reveal_with_fuel(verdict_from, 6);
    assert(verdict_from(checks, outcomes, 0) == Some(Ok::<bool, ResolverError>(true)));
    if shape.claim != ClaimKind::Positive {
        let first: int = if shape.child {
            3
        } else {
            1
        };
        assert(checks[first] == SystemCheck::Nsec || checks[first] == SystemCheck::Nsec3);
        if outcomes[first] != Some(true) {
            assert(checks[first + 1] == SystemCheck::Nsec3);
        }
    }
}

/// The limits of the transport that talks to nameservers over sockets.
#[derive(Clone, Copy, Debug, PartialEq, Eq, Structural)]
pub struct UdpTcpDnsTransport {
    pub timeout_ms: u64,
    pub max_udp_response_len: usize,
    pub max_tcp_message_len: usize,
}

impl Default for UdpTcpDnsTransport {
    fn default() -> (r: Self)
        ensures
            r == (UdpTcpDnsTransport {
                timeout_ms: 3000,
                max_udp_response_len: DEFAULT_DNS_UDP_PAYLOAD as usize,
                max_tcp_message_len: DEFAULT_DNS_TCP_MAX_MESSAGE_LEN,
            }),
    {
        UdpTcpDnsTransport {
            timeout_ms: 3000,
            max_udp_response_len: DEFAULT_DNS_UDP_PAYLOAD as usize,
            max_tcp_message_len: DEFAULT_DNS_TCP_MAX_MESSAGE_LEN,
        }
    }
}

/// The two bytes of a length, the higher one first.
pub open spec fn be16(n: nat) -> Seq<u8> {
    seq![(n / 256) as u8, (n % 256) as u8]
}

impl UdpTcpDnsTransport {
    /// A query as it goes over TCP: its length, then its bytes. A query that the
    /// length field cannot hold is refused.
    pub fn tcp_frame(&self, query: &Vec<u8>) -> (r: Result<Vec<u8>, ResolverError>)
        ensures
            match r {
                Ok(frame) => query@.len() <= 0xffff && frame@ == be16(query@.len()) + query@,
                Err(error) => query@.len() > 0xffff && error == ResolverError::InvalidDnsResponse,
            },
    {
        let len: usize = query.len();
        if len > 0xffff {
            return Err(ResolverError::InvalidDnsResponse);
        }
        let mut frame: Vec<u8> = Vec::new();
        frame.push((len / 256) as u8);
        frame.push((len % 256) as u8);
        let mut i: usize = 0;
        while i < query.len()
            invariant
                i <= query.len(),
                frame@ == be16(query@.len()) + query@.take(i as int),
            decreases query.len() - i,
        {
            frame.push(query[i]);
            i = i + 1;
        }
        assert(query@.take(i as int) =~= query@);
        Ok(frame)
    }

    /// How many bytes of reply follow the length field `high`, `low`.
    pub fn tcp_reply_len(&self, high: u8, low: u8) -> (r: Result<usize, ResolverError>)
        ensures
            match r {
                Ok(len) => len == high * 256 + low && len <= self.max_tcp_message_len,
                Err(error) => high * 256 + low > self.max_tcp_message_len && error
                    == ResolverError::InvalidDnsResponse,
            },
    {
        let len: usize = high as usize * 256 + low as usize;
        if len > self.max_tcp_message_len {
            return Err(ResolverError::InvalidDnsResponse);
        }
        Ok(len)
    }

    /// A datagram counts as the reply only where it came from the server's address.
    pub fn udp_reply(&self, server: &ServerAddress, source_ip: &Vec<u8>, datagram: Vec<u8>) -> (r:
        Result<Vec<u8>, ResolverError>)
        ensures
            match r {
                Ok(reply) => source_ip@ == server@.ip && reply == datagram,
                Err(error) => source_ip@ != server@.ip && error
                    == ResolverError::InvalidDnsResponse,
            },
    {
        if dns::same_bytes(source_ip, &server.ip) {
            Ok(datagram)
        } else {
            Err(ResolverError::InvalidDnsResponse)
        }
    }
}

/// A frame announces exactly the length that the reader computes from it.
pub proof fn law_frame_length(n: nat)
    requires
        n <= 0xffff,
    ensures
        be16(n)[0] * 256 + be16(n)[1] == n,
{
}

/// What is checked of a claim that something is absent: always the zone's keys, a
/// child's digests and keys where there is a child, and the denial records of
/// either kind that the response holds.
pub proof fn law_every_kind_of_denial_is_checked(
    question: DnssecQuestion,
    denial: crate::dnssec::DenialView,
)
    requires
        question.claim matches Claim::NoData { denial: d, .. } ==> d == denial,
        question.claim matches Claim::NameError { denial: d, .. } ==> d == denial,
        !(question.claim is Positive),
    ensures
        ({
            let checks = plan(shape_of(question, true));
            &&& checks.contains(SystemCheck::ZoneKeys)
            &&& checks.contains(SystemCheck::ChildDigests) <==> question.link is Some
            &&& checks.contains(SystemCheck::ChildKeys) <==> question.link is Some
            &&& checks.contains(SystemCheck::Nsec) <==> denial.nsec.len() > 0
            &&& checks.contains(SystemCheck::Nsec3) <==> denial.nsec3.len() > 0
        }),
{
    let shape = shape_of(question, true);
    let checks = plan(shape);
    let keys: int = if shape.child {
        3
    } else {
        1
    };
    assert(checks[0] == SystemCheck::ZoneKeys);
    if shape.child {
        assert(checks[1] == SystemCheck::ChildDigests && checks[2] == SystemCheck::ChildKeys);
    }
    if shape.has_nsec {
        assert(checks[keys] == SystemCheck::Nsec);
    }
    if shape.has_nsec3 {
        assert(checks[checks.len() - 1] == SystemCheck::Nsec3);
    }
}

/// A positive claim is the target's check to settle: along the chain for a child,
/// under the zone's own keys otherwise.
pub proof fn law_target_settles_a_positive_claim(
    shape: QuestionShape,
    secure: bool,
    more: Seq<Option<bool>>,
)
    requires
        shape.claim == ClaimKind::Positive,
        shape.clock_is_set,
    ensures
        plan(shape).len() == 1,
        plan(shape)[0] == (if shape.child {
            SystemCheck::ChainTarget
        } else {
            SystemCheck::Target
        }),
        verdict_on(shape, seq![Some(secure)] + more) == Some(Ok::<bool, ResolverError>(secure)),
{
    reveal_with_fuel(verdict_from, 2);
    assert((seq![Some(secure)] + more)[0] == Some(secure));
}

/// An absence is accepted once the keys and one kind of denial are secure: where
/// the plain denial does not prove it, the hashed one may.
pub proof fn law_one_kind_of_denial_is_enough(shape: QuestionShape, nsec: bool, nsec3: bool)
    requires
        shape.claim != ClaimKind::Positive,
        shape.clock_is_set,
    ensures
        verdict_on(shape, outcomes_of(shape, nsec, nsec3)) == Some(
            Ok::<bool, ResolverError>((shape.has_nsec && nsec) || (shape.has_nsec3 && nsec3)),
        ),
{
    reveal_with_fuel(verdict_from, 6);
    let outcomes = outcomes_of(shape, nsec, nsec3);
    let checks = plan(shape);
    assert(outcomes.len() == checks.len());
}

/// The outcomes where all keys are secure, and the denials prove the claim or not.
pub open spec fn outcomes_of(shape: QuestionShape, nsec: bool, nsec3: bool) -> Seq<Option<bool>> {
    (if shape.child {
        seq![Some(true), Some(true), Some(true)]
    } else {
        seq![Some(true)]
    }) + (if shape.has_nsec {
        seq![Some(nsec)]
    } else {
        Seq::empty()
    }) + (if shape.has_nsec3 {
        seq![Some(nsec3)]
    } else {
        Seq::empty()
    })
}

} // verus!
