//! The closed neutral input of one independent conformance assessment: a
//! complete, exactly correlated candidate chain and the conformance
//! authority the host selected.

use vstd::prelude::*;
use crate::admission::{
    AuthFault, ConformanceAuthority, chain_fault, conformance_authority_fault, not_independent,
};
use crate::attester::ASSESSMENT_REQUEST_PROTOCOL;
use crate::authority::AuthorityError;
use crate::identity::{ExactId, IdView, render_id};
use crate::protocol::{
    CapabilityCandidate, CapabilityInvocation, CapabilityResult, ProtoFault, ProtocolError, candidate_fault, invocation_fault,
    proto_fault_of, result_doc, result_fault,
};
use crate::text::{owned, str_eq};

verus! {

/// Why an assessment request is refused.
#[derive(Debug)]
pub enum AssessmentRequestError {
    ProtocolMismatch { actual: String },
    Protocol(ProtocolError),
    ResultCandidateMismatch,
    InvalidAuthority(String),
    SuiteMismatch { expected: ExactId, actual: ExactId },
    NotIndependent,
}

/// Mathematical form of a request refusal.
pub enum RequestFault {
    ProtocolMismatch(Seq<char>),
    Protocol(ProtoFault),
    ResultCandidateMismatch,
    InvalidAuthority(Seq<char>),
    SuiteMismatch(IdView, IdView),
    NotIndependent,
}

pub open spec fn request_fault_of(e: AssessmentRequestError) -> RequestFault {
    match e {
        AssessmentRequestError::ProtocolMismatch { actual } => RequestFault::ProtocolMismatch(actual@),
        AssessmentRequestError::Protocol(p) => RequestFault::Protocol(proto_fault_of(p)),
        AssessmentRequestError::ResultCandidateMismatch => RequestFault::ResultCandidateMismatch,
        AssessmentRequestError::InvalidAuthority(d) => RequestFault::InvalidAuthority(d@),
        AssessmentRequestError::SuiteMismatch { expected, actual } => RequestFault::SuiteMismatch(expected@, actual@),
        AssessmentRequestError::NotIndependent => RequestFault::NotIndependent,
    }
}

/// The debug rendering of a conformance-authority refusal, as its
/// message carries it.
pub open spec fn authority_fault_text(f: AuthFault) -> Seq<char> {
    match f {
        AuthFault::InvalidIdentity(field, value) => "InvalidIdentity { field: \""@ + field + "\", value: \""@ + value
            + "\" }"@,
        AuthFault::ReservedExtension(scope, key) => "ReservedExtension { scope: \""@ + scope + "\", key: \""@ + key
            + "\" }"@,
        _ => Seq::empty(),
    }
}

fn authority_error_text(e: &AuthorityError) -> (r: String)
    ensures
        r@ == authority_fault_text(crate::admission::auth_fault_of(*e)),
{
    match e {
        AuthorityError::InvalidIdentity { field, value } => {
            let mut m = owned("InvalidIdentity { field: \"");
            m.append(field.as_str());
            m.append("\", value: \"");
            m.append(value.as_str());
            m.append("\" }");
            m
        },
        AuthorityError::ReservedExtension { scope, key } => {
            let mut m = owned("ReservedExtension { scope: \"");
            m.append(scope.as_str());
            m.append("\", key: \"");
            m.append(key.as_str());
            m.append("\" }");
            m
        },
        _ => String::new(),
    }
}

/// Why a request of these parts is refused: its protocol, the chain, a
/// candidate embedding another result, the authority, another suite than
/// the invocation's, or an attester sharing the selected implementation
/// or artifact.
pub open spec fn request_fault(
    protocol: Seq<char>,
    v: CapabilityInvocation,
    r: CapabilityResult,
    c: CapabilityCandidate,
    a: ConformanceAuthority,
) -> Option<RequestFault> {
    if protocol != ASSESSMENT_REQUEST_PROTOCOL@ {
        Some(RequestFault::ProtocolMismatch(protocol))
    } else if invocation_fault(v) is Some {
        Some(RequestFault::Protocol(invocation_fault(v)->Some_0))
    } else if result_fault(r, v) is Some {
        Some(RequestFault::Protocol(result_fault(r, v)->Some_0))
    } else if candidate_fault(c, v) is Some {
        Some(RequestFault::Protocol(candidate_fault(c, v)->Some_0))
    } else if result_doc(c.result) != result_doc(r) {
        Some(RequestFault::ResultCandidateMismatch)
    } else if conformance_authority_fault(a) is Some {
        Some(RequestFault::InvalidAuthority(authority_fault_text(conformance_authority_fault(a)->Some_0)))
    } else if a.suite@ != v.conformance_suite@ {
        Some(RequestFault::SuiteMismatch(v.conformance_suite@, a.suite@))
    } else if not_independent(a.attester, v) {
        Some(RequestFault::NotIndependent)
    } else {
        None
    }
}

/// One closed request holding the complete neutral candidate chain and
/// the exact conformance authority the host selected.
#[derive(Clone, Debug, PartialEq, Eq)]
pub struct AssessmentRequest {
    protocol: String,
    invocation: CapabilityInvocation,
    result: CapabilityResult,
    candidate: CapabilityCandidate,
    authority: ConformanceAuthority,
}

fn lift_protocol(r: Result<(), ProtocolError>) -> (out: Result<(), AssessmentRequestError>)
    ensures
        out is Ok <==> r is Ok,
        r matches Err(e) ==> out matches Err(x) && request_fault_of(x) == RequestFault::Protocol(proto_fault_of(e)),
{
    match r {
        Ok(()) => Ok(()),
        Err(e) => Err(AssessmentRequestError::Protocol(e)),
    }
}

impl AssessmentRequest {
    pub closed spec fn parts(self) -> (
        Seq<char>,
        CapabilityInvocation,
        CapabilityResult,
        CapabilityCandidate,
        ConformanceAuthority,
    ) {
        (self.protocol@, self.invocation, self.result, self.candidate, self.authority)
    }

    /// Why this request is refused, or nothing.
    pub open spec fn fault(self) -> Option<RequestFault> {
        request_fault(self.parts().0, self.parts().1, self.parts().2, self.parts().3, self.parts().4)
    }

    /// Revalidates the protocol, the chain and its correlation, the suite
    /// and the attester's independence.
    pub fn validate(&self) -> (r: Result<(), AssessmentRequestError>)
        ensures
            r is Ok <==> self.fault() is None,
            r matches Err(e) ==> self.fault() == Some(request_fault_of(e)),
    {
        if !str_eq(self.protocol.as_str(), ASSESSMENT_REQUEST_PROTOCOL) {
            return Err(AssessmentRequestError::ProtocolMismatch { actual: owned(self.protocol.as_str()) });
        }
        lift_protocol(self.invocation.validate())?;
        lift_protocol(self.result.validate_against(&self.invocation))?;
        lift_protocol(self.candidate.validate_against(&self.invocation))?;
        if !crate::admission::same_result(&self.candidate.result, &self.result) {
            return Err(AssessmentRequestError::ResultCandidateMismatch);
        }
        match self.authority.validate() {
            Ok(()) => {},
            Err(e) => {
                return Err(AssessmentRequestError::InvalidAuthority(authority_error_text(&e)));
            },
        }
        if !self.authority.suite.same_as(&self.invocation.conformance_suite) {
            return Err(AssessmentRequestError::SuiteMismatch {
                expected: self.invocation.conformance_suite.duplicate(),
                actual: self.authority.suite.duplicate(),
            });
        }
        let selected = &self.invocation.selection.offer;
        if self.authority.attester.implementation.same_as(&selected.implementation)
            || self.authority.attester.artifact_digest.same_as(&selected.artifact_digest) {
            return Err(AssessmentRequestError::NotIndependent);
        }
        Ok(())
    }

    /// A request only from a valid, exactly correlated chain and an
    /// independent attester of the invocation's suite.
    pub fn new(
        invocation: CapabilityInvocation,
        result: CapabilityResult,
        candidate: CapabilityCandidate,
        authority: ConformanceAuthority,
    ) -> (r: Result<Self, AssessmentRequestError>)
        ensures
            r is Ok <==> request_fault(ASSESSMENT_REQUEST_PROTOCOL@, invocation, result, candidate, authority) is None,
            r matches Err(e) ==> request_fault(ASSESSMENT_REQUEST_PROTOCOL@, invocation, result, candidate, authority)
                == Some(request_fault_of(e)),
            r matches Ok(q) ==> q.parts() == (ASSESSMENT_REQUEST_PROTOCOL@, invocation, result, candidate, authority),
    {
        let request = AssessmentRequest { protocol: owned(ASSESSMENT_REQUEST_PROTOCOL), invocation, result, candidate, authority };
        request.validate()?;
        Ok(request)
    }

    /// The exact invocation this request embeds.
    pub fn invocation(&self) -> (r: &CapabilityInvocation)
        ensures
            *r == self.parts().1,
    {
        &self.invocation
    }

    /// The exact provider result this request embeds.
    pub fn result(&self) -> (r: &CapabilityResult)
        ensures
            *r == self.parts().2,
    {
        &self.result
    }

    /// The exact candidate embedding the provider result.
    pub fn candidate(&self) -> (r: &CapabilityCandidate)
        ensures
            *r == self.parts().3,
    {
        &self.candidate
    }

    /// The exact authority the assessment must be authored as.
    pub fn authority(&self) -> (r: &ConformanceAuthority)
        ensures
            *r == self.parts().4,
    {
        &self.authority
    }
}

impl AssessmentRequestError {
    /// The message of the refusals that carry no nested protocol error, or
    /// `None`.
    pub fn message(&self) -> (r: Option<String>)
        ensures
            match request_fault_of(*self) {
                RequestFault::Protocol(_) => r is None,
                f => r matches Some(m) && m@ == request_error_text(f),
            },
    {
        match self {
            AssessmentRequestError::ProtocolMismatch { actual } => {
                let mut m = owned("assessment request protocol `");
                m.append(actual.as_str());
                m.append("` does not match `");
                m.append(ASSESSMENT_REQUEST_PROTOCOL);
                m.append("`");
                Some(m)
            },
            AssessmentRequestError::Protocol(_) => None,
            AssessmentRequestError::ResultCandidateMismatch => Some(owned("assessment request result and candidate disagree")),
            AssessmentRequestError::InvalidAuthority(d) => {
                let mut m = owned("invalid conformance authority: ");
                m.append(d.as_str());
                Some(m)
            },
            AssessmentRequestError::SuiteMismatch { expected, actual } => {
                let mut m = owned("assessment suite `");
                let a = actual.render();
                m.append(a.as_str());
                m.append("` does not match invocation suite `");
                let x = expected.render();
                m.append(x.as_str());
                m.append("`");
                Some(m)
            },
            AssessmentRequestError::NotIndependent => Some(owned("selected attester is not independent of the provider")),
        }
    }
}

/// The message of a request refusal that carries no nested error.
pub open spec fn request_error_text(f: RequestFault) -> Seq<char> {
    match f {
        RequestFault::ProtocolMismatch(a) => "assessment request protocol `"@ + a + "` does not match `"@
            + ASSESSMENT_REQUEST_PROTOCOL@ + "`"@,
        RequestFault::Protocol(_) => Seq::empty(),
        RequestFault::ResultCandidateMismatch => "assessment request result and candidate disagree"@,
        RequestFault::InvalidAuthority(d) => "invalid conformance authority: "@ + d,
        RequestFault::SuiteMismatch(expected, actual) => "assessment suite `"@ + render_id(actual)
            + "` does not match invocation suite `"@ + render_id(expected) + "`"@,
        RequestFault::NotIndependent => "selected attester is not independent of the provider"@,
    }
}

} // verus!
