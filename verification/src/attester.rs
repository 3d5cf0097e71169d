//! The identity and closed errors of the independent data-model oracle
//! attester.

use vstd::prelude::*;
use crate::authority::AuthorityError;
use crate::identity::{ExactId, IdView, render_id};
use crate::protocol::ProtocolError;
use crate::text::owned;

verus! {

/// Exact request protocol of one independently assessed candidate chain.
pub const ASSESSMENT_REQUEST_PROTOCOL: &'static str = "org.gooi.authority.assessment-request/v1";

/// Exact identity of the oracle attester, distinct from the data-model
/// producer.
pub fn implementation_id() -> (r: ExactId)
    ensures
        r@ == (IdView {
            package: "org.gooi.attester"@,
            name: "author_data_model_tasks_entities_oracle"@,
            version: "1.1.0"@,
        }),
{
    ExactId::new("org.gooi.attester", "author_data_model_tasks_entities_oracle", "1.1.0")
}

/// Why the oracle attester refuses to assess.
#[derive(Debug)]
pub enum AttesterError {
    RequestProtocolMismatch { actual: String },
    Protocol(ProtocolError),
    Authority(AuthorityError),
    Oracle(String),
    OracleCoordinate,
    ContractShape,
    ResultCandidateMismatch,
    UnsupportedSuite(ExactId),
}

impl AttesterError {
    /// The message of the errors that carry no nested error, or `None`.
    pub fn message(&self) -> (r: Option<String>)
        ensures
            match *self {
                AttesterError::RequestProtocolMismatch { actual } => r matches Some(m) && m@ == "unsupported assessment request protocol "@
                    + actual@ + "; expected "@ + ASSESSMENT_REQUEST_PROTOCOL@,
                AttesterError::Oracle(e) => r matches Some(m) && m@ == "checked-in oracle is invalid: "@ + e@,
                AttesterError::OracleCoordinate => r matches Some(m) && m@ == "checked-in oracle has unexpected fixture coordinates"@,
                AttesterError::ContractShape => r matches Some(m) && m@
                    == "author-data-model contract is not the expected one-input, one-output promise"@,
                AttesterError::ResultCandidateMismatch => r matches Some(m) && m@ == "candidate does not contain the supplied result"@,
                AttesterError::UnsupportedSuite(s) => r matches Some(m) && m@ == "invocation requests unsupported suite "@
                    + render_id(s@),
                _ => r is None,
            },
    {
        match self {
            AttesterError::RequestProtocolMismatch { actual } => {
                let mut m = owned("unsupported assessment request protocol ");
                m.append(actual.as_str());
                m.append("; expected ");
                m.append(ASSESSMENT_REQUEST_PROTOCOL);
                Some(m)
            },
            AttesterError::Oracle(e) => {
                let mut m = owned("checked-in oracle is invalid: ");
                m.append(e.as_str());
                Some(m)
            },
            AttesterError::OracleCoordinate => Some(owned("checked-in oracle has unexpected fixture coordinates")),
            AttesterError::ContractShape => Some(owned("author-data-model contract is not the expected one-input, one-output promise")),
            AttesterError::ResultCandidateMismatch => Some(owned("candidate does not contain the supplied result")),
            AttesterError::UnsupportedSuite(s) => {
                let mut m = owned("invocation requests unsupported suite ");
                let t = s.render();
                m.append(t.as_str());
                Some(m)
            },
            _ => None,
        }
    }
}

} // verus!
