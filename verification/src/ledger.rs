//! Contextual admission state: exact facts, decisions and authority
//! records, linkable only through an explicit fact-and-authority
//! reference. A bare fact, result, candidate or observation has no lookup
//! path here.

use vstd::prelude::*;
use crate::admission::{
    AdmissionSnapshot, snapshot_fault,
    AdmissionDecision, AdmissionPolicy, AuthFault, AuthorityBasis, AuthorityRecord, ConformanceAssessment, SourceObservation,
    assessment_fault, assessment_verdict, auth_fault_of, candidate_outputs_of, chain_fault, decision_candidate_fault, decision_doc,
    decision_observation_fault, doc_fact_fault, lift, record_decision, observation_decision_body, candidate_decision_body, outputs_identified, observation_fault, observation_verdict, policy_fault, record_doc, record_fault,
    verdict_kind, observation_doc, policy_doc, observation_decision_doc, record_fields, basis_doc, basis_fault,
    fresh_record_body, AUTHORITY_RECORD_PROTOCOL, record_body,
};
use crate::identity::is_sha256_text;
use crate::fact::fact_refusal;
use crate::authority::first_shadowing_key;
use crate::protocol::with_ext;
use crate::json::{Json, key_views, value_views};
use crate::authority::VerdictKind;
use crate::protocol::{CapabilityCandidate, CapabilityInvocation, CapabilityResult, LinkedInput, NamedOutput};
use crate::authority::{AdmittedLink, AuthorityError};
use crate::fact::{Fact, fact_document};
use crate::json::{JsonMember, json_equal, key_less};
use crate::digest::content_id;
use crate::keyed::{Keyed, ascending, at_key, find_key, has_key, index_of_key, insert_keyed, lemma_index_of_key};
use crate::protocol::{AdmittedFactRef, admitted_fault};

verus! {

impl Keyed for Fact {
    open spec fn key(&self) -> Seq<char> {
        self.id@
    }

    fn key_text(&self) -> (r: &str) {
        self.id.as_str()
    }
}

impl Keyed for AdmissionDecision {
    open spec fn key(&self) -> Seq<char> {
        self.decision_id@
    }

    fn key_text(&self) -> (r: &str) {
        self.decision_id.as_str()
    }
}

impl Keyed for AuthorityRecord {
    open spec fn key(&self) -> Seq<char> {
        self.authority_record_id@
    }

    fn key_text(&self) -> (r: &str) {
        self.authority_record_id.as_str()
    }
}

/// A fact and the exact authority record selected by its reference.
pub struct ResolvedFact<'a> {
    pub fact: &'a Fact,
    pub authority: &'a AuthorityRecord,
}

/// What one atomic admission produced: the decision and the explicit
/// links it created, or the decision alone when it withholds.
#[derive(Debug)]
pub enum AdmissionOutcome {
    Admitted { decision: AdmissionDecision, links: Vec<AdmittedLink> },
    Withheld { decision: AdmissionDecision },
}

/// Admission state: facts, decisions and authority records, each held in
/// ascending order of its identity.
#[derive(Clone, Debug, PartialEq, Eq)]
pub struct AdmissionLedger {
    facts: Vec<Fact>,
    decisions: Vec<AdmissionDecision>,
    authorities: Vec<AuthorityRecord>,
}

/// Why a reference does not resolve: it is malformed, names no record,
/// names a record of another fact, or the fact is missing or differs from
/// the record's.
pub open spec fn resolve_fault_in(
    facts: Seq<Fact>,
    records: Seq<AuthorityRecord>,
    r: AdmittedFactRef,
) -> Option<AuthFault> {
    if admitted_fault(r) is Some {
        lift(admitted_fault(r))
    } else if !has_key(records, r.authority_record_id@) {
        Some(AuthFault::UnknownAuthority(r.authority_record_id@))
    } else if at_key(records, r.authority_record_id@).fact.id@ != r.fact_id@ {
        Some(AuthFault::FactReferenceMismatch)
    } else if !has_key(facts, r.fact_id@) {
        Some(AuthFault::MissingFact(r.fact_id@))
    } else if fact_document(at_key(facts, r.fact_id@)) != fact_document(at_key(records, r.authority_record_id@).fact) {
        Some(AuthFault::StoredFactMismatch(r.fact_id@))
    } else {
        None
    }
}

/// The records of one fact, among the first `n`, in order.
pub open spec fn records_for(records: Seq<AuthorityRecord>, id: Seq<char>, n: int) -> Seq<AuthorityRecord>
    decreases n,
{
    if n <= 0 || n > records.len() {
        Seq::empty()
    } else if records[n - 1].fact.id@ == id {
        records_for(records, id, n - 1).push(records[n - 1])
    } else {
        records_for(records, id, n - 1)
    }
}

impl AdmissionLedger {
    pub closed spec fn facts(self) -> Seq<Fact> {
        self.facts@
    }

    pub closed spec fn decisions(self) -> Seq<AdmissionDecision> {
        self.decisions@
    }

    pub closed spec fn records(self) -> Seq<AuthorityRecord> {
        self.authorities@
    }

    /// Identities ascend in every part, and every record is valid.
    pub open spec fn wf(self) -> bool {
        &&& ascending(self.facts())
        &&& ascending(self.decisions())
        &&& ascending(self.records())
        &&& forall|i: int| 0 <= i < self.records().len() ==> record_fault(#[trigger] self.records()[i]) is None
    }

    /// Why a reference does not resolve in this ledger, or nothing.
    pub open spec fn resolve_fault(self, r: AdmittedFactRef) -> Option<AuthFault> {
        resolve_fault_in(self.facts(), self.records(), r)
    }

    /// Every fact, decision and record of one ledger is still in another.
    pub open spec fn extended_by(self, other: AdmissionLedger) -> bool {
        &&& forall|f: Fact| self.facts().contains(f) ==> other.facts().contains(f)
        &&& forall|d: AdmissionDecision| self.decisions().contains(d) ==> other.decisions().contains(d)
        &&& forall|r: AuthorityRecord| self.records().contains(r) ==> other.records().contains(r)
    }

    /// The empty ledger.
    pub fn new() -> (r: Self)
        ensures
            r.wf(),
            r.facts().len() == 0,
            r.decisions().len() == 0,
            r.records().len() == 0,
    {
        AdmissionLedger { facts: Vec::new(), decisions: Vec::new(), authorities: Vec::new() }
    }

    /// How many facts the ledger holds.
    pub fn fact_count(&self) -> (r: usize)
        ensures
            r == self.facts().len(),
    {
        self.facts.len()
    }

    /// How many admission decisions the ledger holds.
    pub fn decision_count(&self) -> (r: usize)
        ensures
            r == self.decisions().len(),
    {
        self.decisions.len()
    }

    /// How many authority records the ledger holds.
    pub fn authority_count(&self) -> (r: usize)
        ensures
            r == self.records().len(),
    {
        self.authorities.len()
    }

    /// Resolves only an explicit fact-and-authority pair; there is no
    /// lookup by a bare fact identity.
    pub fn resolve<'a>(&'a self, reference: &AdmittedFactRef) -> (r: Result<ResolvedFact<'a>, AuthorityError>)
        requires
            self.wf(),
        ensures
            r is Ok <==> self.resolve_fault(*reference) is None,
            r matches Err(e) ==> self.resolve_fault(*reference) == Some(auth_fault_of(e)),
            r matches Ok(x) ==> *x.fact == at_key(self.facts(), reference.fact_id@) && *x.authority == at_key(
                self.records(),
                reference.authority_record_id@,
            ),
    {
        match reference.validate() {
            Ok(()) => {},
            Err(e) => {
                return Err(AuthorityError::Protocol(e));
            },
        }
        let ri = match find_key(&self.authorities, reference.authority_record_id.as_str()) {
            Some(i) => i,
            None => {
                return Err(AuthorityError::UnknownAuthority(reference.authority_record_id.duplicate()));
            },
        };
        let authority = &self.authorities[ri];
        if !authority.fact.id.same_as(&reference.fact_id) {
            return Err(AuthorityError::FactReferenceMismatch);
        }
        let fi = match find_key(&self.facts, reference.fact_id.as_str()) {
            Some(i) => i,
            None => {
                return Err(AuthorityError::MissingFact(reference.fact_id.duplicate()));
            },
        };
        let fact = &self.facts[fi];
        if !crate::admission::same_fact(fact, &authority.fact) {
            return Err(AuthorityError::StoredFactMismatch(reference.fact_id.duplicate()));
        }
        Ok(ResolvedFact { fact, authority })
    }

    /// Every authority record of a fact, in order of record identity;
    /// callers choose one explicitly.
    pub fn authorities_for(&self, fact_id: &crate::identity::FactId) -> (r: Vec<&AuthorityRecord>)
        ensures
            r@.len() == records_for(self.records(), fact_id@, self.records().len() as int).len(),
            forall|k: int|
                0 <= k < r@.len() ==> *(#[trigger] r@[k]) == records_for(
                    self.records(),
                    fact_id@,
                    self.records().len() as int,
                )[k],
    {
        let mut out: Vec<&AuthorityRecord> = Vec::new();
        let mut i: usize = 0;
        while i < self.authorities.len()
            invariant
                i <= self.authorities.len(),
                out@.len() == records_for(self.authorities@, fact_id@, i as int).len(),
                forall|k: int| 0 <= k < out@.len() ==> *(#[trigger] out@[k]) == records_for(self.authorities@, fact_id@, i as int)[k],
            decreases self.authorities.len() - i,
        {
            if self.authorities[i].fact.id.same_as(fact_id) {
                out.push(&self.authorities[i]);
            }
            i = i + 1;
        }
        out
    }
}

/// Whether a staged link fits its record: the reference is well formed
/// and names the record and its fact, the record carries the decision,
/// and the link has the record's output port, or none for a source.
pub open spec fn link_fits(rec: AuthorityRecord, link: AdmittedLink, decision: AdmissionDecision) -> bool {
    &&& admitted_fault(link.reference) is None
    &&& decision_doc(crate::admission::record_decision(rec)) == decision_doc(decision)
    &&& link.reference.fact_id@ == rec.fact.id@
    &&& link.reference.authority_record_id@ == rec.authority_record_id@
    &&& match rec.basis {
        AuthorityBasis::Source { .. } => link.port is None,
        AuthorityBasis::Derived { output_port, .. } => link.port matches Some(p) && p@ == output_port@,
    }
}

fn none_flagged(flags: &Vec<bool>) -> (r: bool)
    ensures
        r == forall|m: int| 0 <= m < flags@.len() ==> !flags@[m],
{
    let mut i: usize = 0;
    while i < flags.len()
        invariant
            i <= flags.len(),
            forall|m: int| 0 <= m < i ==> !flags@[m],
        decreases flags.len() - i,
    {
        if flags[i] {
            return false;
        }
        i = i + 1;
    }
    true
}

fn check_links(records: &Vec<AuthorityRecord>, links: &Vec<AdmittedLink>, decision: &AdmissionDecision) -> (r: Result<
    (),
    AuthorityError,
>)
    requires
        records.len() == links.len(),
    ensures
        r is Ok ==> forall|k: int| 0 <= k < records@.len() ==> link_fits(#[trigger] records@[k], links@[k], *decision),
        r is Err ==> exists|k: int| 0 <= k < records@.len() && !link_fits(#[trigger] records@[k], links@[k], *decision),
{
    let mut k: usize = 0;
    while k < records.len()
        invariant
            k <= records.len(),
            records.len() == links.len(),
            forall|j: int| 0 <= j < k ==> link_fits(#[trigger] records@[j], links@[j], *decision),
        decreases records.len() - k,
    {
        match links[k].reference.validate() {
            Ok(()) => {},
            Err(e) => {
                assert(!link_fits(records@[k as int], links@[k as int], *decision));
                return Err(AuthorityError::Protocol(e));
            },
        }
        let rec = &records[k];
        let link = &links[k];
        if !crate::admission::same_decision(rec.decision(), decision) || !link.reference.fact_id.same_as(&rec.fact.id)
            || !link.reference.authority_record_id.same_as(&rec.authority_record_id) {
            assert(!link_fits(records@[k as int], links@[k as int], *decision));
            return Err(AuthorityError::StagedAdmissionMismatch);
        }
        let port_ok = match (&rec.basis, &link.port) {
            (AuthorityBasis::Source { .. }, None) => true,
            (AuthorityBasis::Derived { output_port, .. }, Some(p)) => p.same_as(output_port),
            _ => false,
        };
        if !port_ok {
            assert(!link_fits(records@[k as int], links@[k as int], *decision));
            return Err(AuthorityError::StagedAdmissionMismatch);
        }
        k = k + 1;
    }
    Ok(())
}

/// In ascending order, an element held is the one found by its key.
pub proof fn lemma_at_key_of_contained<T: Keyed>(s: Seq<T>, y: T)
    requires
        ascending(s),
        s.contains(y),
    ensures
        has_key(s, y.key()),
        at_key(s, y.key()) == y,
{
    let i = choose|i: int| 0 <= i < s.len() && s[i] == y;
    lemma_index_of_key(s, i);
}

/// A fact is held, by its identity, as the same document.
pub open spec fn fact_held(facts: Seq<Fact>, f: Fact) -> bool {
    has_key(facts, f.id@) && fact_document(at_key(facts, f.id@)) == fact_document(f)
}

/// A record is kept, by its identity, holding a fact of the same identity.
pub open spec fn record_fact_kept(records: Seq<AuthorityRecord>, r: AuthorityRecord) -> bool {
    has_key(records, r.authority_record_id@) && at_key(records, r.authority_record_id@).fact.id@ == r.fact.id@
}

/// A record is held, by its identity, as the same document.
pub open spec fn record_held(records: Seq<AuthorityRecord>, r: AuthorityRecord) -> bool {
    has_key(records, r.authority_record_id@) && record_doc(at_key(records, r.authority_record_id@)) == record_doc(r)
}

/// What holds after inserting into ascending vectors: what was held, and
/// the inserted elements, are held by key as the same elements.
proof fn lemma_held_after_insert<T: Keyed>(old_s: Seq<T>, new_s: Seq<T>, k: Seq<char>)
    requires
        ascending(old_s),
        ascending(new_s),
        has_key(old_s, k),
        forall|y: T| old_s.contains(y) ==> new_s.contains(y),
    ensures
        has_key(new_s, k),
        at_key(new_s, k) == at_key(old_s, k),
{
    let i = index_of_key(old_s, k);
    let y = old_s[i];
    assert(old_s.contains(y));
    lemma_at_key_of_contained(new_s, y);
}

fn find_flagged(records: &Vec<AuthorityRecord>, flags: &Vec<bool>, k: usize, rid: &str) -> (r: Option<usize>)
    requires
        k <= records.len(),
        flags.len() == k,
    ensures
        r matches Some(m) ==> m < k && flags@[m as int] && records@[m as int].key() == rid@,
        r is None ==> forall|m: int| 0 <= m < k && flags@[m] ==> (#[trigger] records@[m]).key() != rid@,
{
    let mut m: usize = 0;
    while m < k
        invariant
            m <= k,
            k <= records.len(),
            flags.len() == k,
            forall|j: int| 0 <= j < m && flags@[j] ==> (#[trigger] records@[j]).key() != rid@,
        decreases k - m,
    {
        if flags[m] && crate::text::str_eq(records[m].authority_record_id.as_str(), rid) {
            return Some(m);
        }
        m = m + 1;
    }
    None
}

/// Whether a record is covered by a ledger's records or by a flagged
/// record staged before `k`.
pub open spec fn record_covered(
    held: Seq<AuthorityRecord>,
    staged: Seq<AuthorityRecord>,
    flags: Seq<bool>,
    r: AuthorityRecord,
) -> bool {
    ||| record_held(held, r)
    ||| exists|m: int|
        0 <= m < flags.len() && flags[m] && (#[trigger] staged[m]).key() == r.key() && record_doc(staged[m])
            == record_doc(r)
}

/// Whether a record is one of the flagged records from position `lo` on.
pub open spec fn flagged_from(recs: Seq<AuthorityRecord>, flags: Seq<bool>, lo: int, y: AuthorityRecord) -> bool {
    exists|j: int| lo <= j < recs.len() && flags[j] && recs[j] == y
}

/// Staged facts are new and ascend, each is the fact of a record before
/// `k`, and the fact of every record before `k` is held by the ledger or
/// staged, as the same document.
#[verifier::opaque]
pub open spec fn facts_staged(facts: Seq<Fact>, recs: Seq<AuthorityRecord>, staged: Seq<Fact>, k: int) -> bool {
    &&& 0 <= k <= recs.len()
    &&& ascending(staged)
    &&& forall|i: int| 0 <= i < staged.len() ==> !has_key(facts, (#[trigger] staged[i]).key())
    &&& forall|i: int|
        0 <= i < staged.len() ==> exists|j: int|
            0 <= j < k && (#[trigger] recs[j]).fact.id@ == (#[trigger] staged[i]).id@ && fact_document(recs[j].fact)
                == fact_document(staged[i])
    &&& forall|j: int| 0 <= j < k ==> fact_held(facts, (#[trigger] recs[j]).fact) || fact_held(staged, recs[j].fact)
}

/// The fact of record `k` clashes: the ledger, or an earlier record, holds
/// another document under its identity.
pub open spec fn fact_clash(facts: Seq<Fact>, recs: Seq<AuthorityRecord>, k: int) -> bool {
    ||| has_key(facts, recs[k].fact.id@) && !fact_held(facts, recs[k].fact)
    ||| exists|j: int|
        0 <= j < k && (#[trigger] recs[j]).fact.id@ == recs[k].fact.id@ && fact_document(recs[j].fact) != fact_document(
            recs[k].fact,
        )
}

/// Record `k` clashes: the ledger, or an earlier record, holds another
/// document under its identity.
pub open spec fn record_clash(held: Seq<AuthorityRecord>, recs: Seq<AuthorityRecord>, k: int) -> bool {
    ||| has_key(held, recs[k].key()) && !record_held(held, recs[k])
    ||| exists|j: int| 0 <= j < k && (#[trigger] recs[j]).key() == recs[k].key() && record_doc(recs[j]) != record_doc(recs[k])
}

/// The ledger holds another decision document under this decision's
/// identity.
pub open spec fn decision_clash(decisions: Seq<AdmissionDecision>, d: AdmissionDecision) -> bool {
    has_key(decisions, d.decision_id@) && decision_doc(at_key(decisions, d.decision_id@)) != decision_doc(d)
}

/// Every record, and its fact, is already held as the same document.
pub open spec fn all_held(facts: Seq<Fact>, held: Seq<AuthorityRecord>, recs: Seq<AuthorityRecord>) -> bool {
    forall|k: int| 0 <= k < recs.len() ==> fact_held(facts, (#[trigger] recs[k]).fact) && record_held(held, recs[k])
}

/// Why staging these records is refused: a record that is invalid, or
/// whose fact or own identity clashes.
pub open spec fn staging_refused(facts: Seq<Fact>, held: Seq<AuthorityRecord>, recs: Seq<AuthorityRecord>) -> bool {
    exists|k: int|
        0 <= k < recs.len() && (record_fault(#[trigger] recs[k]) is Some || fact_clash(facts, recs, k) || record_clash(
            held,
            recs,
            k,
        ))
}

/// Flagged records before `k` are new and distinct, and every record
/// before `k` is held or equal to a flagged one.
#[verifier::opaque]
pub open spec fn records_flagged(held: Seq<AuthorityRecord>, recs: Seq<AuthorityRecord>, flags: Seq<bool>, k: int) -> bool {
    &&& 0 <= k <= recs.len()
    &&& flags.len() == k
    &&& forall|j: int| 0 <= j < k && flags[j] ==> !has_key(held, (#[trigger] recs[j]).key())
    &&& forall|a: int, b: int|
        0 <= a < b < k && flags[a] && flags[b] ==> (#[trigger] recs[a]).key() != (#[trigger] recs[b]).key()
    &&& forall|j: int| 0 <= j < k ==> record_covered(held, recs, flags, #[trigger] recs[j])
}

/// Every record before `k` is valid.
#[verifier::opaque]
pub open spec fn valid_prefix(recs: Seq<AuthorityRecord>, k: int) -> bool {
    forall|j: int| 0 <= j < k ==> record_fault(#[trigger] recs[j]) is None
}

/// What staging established of the records.
pub open spec fn staged_ok(
    facts: Seq<Fact>,
    held: Seq<AuthorityRecord>,
    recs: Seq<AuthorityRecord>,
    staged: Seq<Fact>,
    flags: Seq<bool>,
    k: int,
) -> bool {
    &&& facts_staged(facts, recs, staged, k)
    &&& records_flagged(held, recs, flags, k)
    &&& valid_prefix(recs, k)
}

impl AdmissionLedger {
    fn stage_fact(&self, staged: &mut Vec<Fact>, records: &Vec<AuthorityRecord>, k: usize) -> (r: Result<(), AuthorityError>)
        requires
            self.wf(),
            k < records.len(),
            facts_staged(self.facts(), records@, old(staged)@, k as int),
        ensures
            r is Ok ==> facts_staged(self.facts(), records@, final(staged)@, k + 1),
            r is Err ==> fact_clash(self.facts(), records@, k as int),
            fact_held(self.facts(), records@[k as int].fact) ==> r is Ok && final(staged)@ == old(staged)@,
    {
        proof {
            reveal(facts_staged);
        }
        let ghost recs = records@;
        let fact = &records[k].fact;
        match find_key(&self.facts, fact.id.as_str()) {
            Some(i) => {
                if !crate::admission::same_fact(&self.facts[i], fact) {
                    proof {
                        lemma_index_of_key(self.facts(), i as int);
                    }
                    return Err(AuthorityError::FactCollision(fact.id.duplicate()));
                }
                proof {
                    lemma_index_of_key(self.facts(), i as int);
                }
                Ok(())
            },
            None => {
                match find_key(staged, fact.id.as_str()) {
                    Some(i) => {
                        if !crate::admission::same_fact(&staged[i], fact) {
                            proof {
                                let y = staged@[i as int];
                                assert(y.id@ == fact.id@);
                                let j = choose|j: int|
                                    0 <= j < k && (#[trigger] recs[j]).fact.id@ == y.id@ && fact_document(recs[j].fact)
                                        == fact_document(y);
                                assert(recs[j].fact.id@ == recs[k as int].fact.id@);
                            }
                            return Err(AuthorityError::FactCollision(fact.id.duplicate()));
                        }
                        proof {
                            lemma_index_of_key(staged@, i as int);
                        }
                        Ok(())
                    },
                    None => {
                        let ghost before = staged@;
                        let copy = fact.duplicate();
                        let ghost cv = copy;
                        insert_keyed(staged, copy);
                        proof {
                            assert(staged@.contains(cv));
                            lemma_at_key_of_contained(staged@, cv);
                            assert forall|j: int|
                                0 <= j < k && fact_held(before, (#[trigger] recs[j]).fact) implies fact_held(
                                staged@,
                                recs[j].fact,
                            ) by {
                                lemma_held_after_insert(before, staged@, recs[j].fact.id@);
                            }
                            assert forall|i: int| 0 <= i < staged@.len() implies !has_key(
                                self.facts(),
                                (#[trigger] staged@[i]).key(),
                            ) by {
                                let y = staged@[i];
                                assert(staged@.contains(y));
                                if y != cv {
                                    assert(before.contains(y));
                                }
                            }
                            assert forall|i: int| 0 <= i < staged@.len() implies exists|j: int|
                                0 <= j < k + 1 && (#[trigger] recs[j]).fact.id@ == (#[trigger] staged@[i]).id@
                                    && fact_document(recs[j].fact) == fact_document(staged@[i]) by {
                                let y = staged@[i];
                                assert(staged@.contains(y));
                                if y != cv {
                                    let w = choose|w: int| 0 <= w < before.len() && before[w] == y;
                                    let j = choose|j: int|
                                        0 <= j < k && (#[trigger] recs[j]).fact.id@ == before[w].id@ && fact_document(
                                            recs[j].fact,
                                        ) == fact_document(before[w]);
                                    assert(recs[j].fact.id@ == y.id@);
                                } else {
                                    assert(recs[k as int].fact.id@ == y.id@);
                                }
                            }
                        }
                        Ok(())
                    },
                }
            },
        }
    }

    fn stage_record_flag(&self, records: &Vec<AuthorityRecord>, flags: &mut Vec<bool>, k: usize) -> (r: Result<(), AuthorityError>)
        requires
            self.wf(),
            k < records.len(),
            records_flagged(self.records(), records@, old(flags)@, k as int),
        ensures
            r is Ok ==> records_flagged(self.records(), records@, final(flags)@, k + 1),
            r is Err ==> record_clash(self.records(), records@, k as int),
            record_held(self.records(), records@[k as int]) ==> r is Ok && final(flags)@ == old(flags)@.push(false),
    {
        proof {
            reveal(records_flagged);
        }
        let ghost flags_before = flags@;
        let rec = &records[k];
        match find_key(&self.authorities, rec.authority_record_id.as_str()) {
            Some(i) => {
                if !crate::admission::same_record(&self.authorities[i], rec) {
                    proof {
                        lemma_index_of_key(self.records(), i as int);
                    }
                    return Err(AuthorityError::AuthorityCollision(rec.authority_record_id.duplicate()));
                }
                flags.push(false);
            },
            None => {
                match find_flagged(records, flags, k, rec.authority_record_id.as_str()) {
                    Some(m) => {
                        if !crate::admission::same_record(&records[m], rec) {
                            return Err(AuthorityError::AuthorityCollision(rec.authority_record_id.duplicate()));
                        }
                        flags.push(false);
                    },
                    None => {
                        flags.push(true);
                    },
                }
            },
        }
        proof {
            let recs0 = records@;
            assert forall|j: int| 0 <= j <= k implies record_covered(self.records(), recs0, flags@, #[trigger] recs0[j]) by {
                if j < k {
                    assert(record_covered(self.records(), recs0, flags_before, recs0[j]));
                    if !record_held(self.records(), recs0[j]) {
                        let m = choose|m: int|
                            0 <= m < flags_before.len() && flags_before[m] && (#[trigger] recs0[m]).key() == recs0[j].key()
                                && record_doc(recs0[m]) == record_doc(recs0[j]);
                        assert(flags@[m]);
                    }
                } else {
                    if !record_held(self.records(), recs0[j]) {
                        if flags@[j] {
                            assert(flags@[j] && recs0[j].key() == recs0[j].key());
                        }
                    }
                }
            }
        }
        Ok(())
    }

    fn stage_records(&self, records: &Vec<AuthorityRecord>) -> (r: Result<(Vec<Fact>, Vec<bool>), AuthorityError>)
        requires
            self.wf(),
        ensures
            r matches Ok((staged, flags)) ==> staged_ok(
                self.facts(),
                self.records(),
                records@,
                staged@,
                flags@,
                records@.len() as int,
            ),
            r is Err ==> staging_refused(self.facts(), self.records(), records@),
            r matches Ok((staged, flags)) ==> (all_held(self.facts(), self.records(), records@) ==> staged@.len() == 0
                && forall|m: int| 0 <= m < flags@.len() ==> !flags@[m]),
    {
        let mut staged: Vec<Fact> = Vec::new();
        let mut flags: Vec<bool> = Vec::new();
        let mut k: usize = 0;
        proof {
            reveal(facts_staged);
            reveal(records_flagged);
            reveal(valid_prefix);
        }
        while k < records.len()
            invariant
                k <= records.len(),
                self.wf(),
                staged_ok(self.facts(), self.records(), records@, staged@, flags@, k as int),
                all_held(self.facts(), self.records(), records@) ==> staged@.len() == 0 && forall|m: int|
                    0 <= m < flags@.len() ==> !flags@[m],
            decreases records.len() - k,
        {
            match records[k].validate() {
                Ok(()) => {},
                Err(e) => {
                    assert(record_fault(records@[k as int]) is Some);
                    return Err(e);
                },
            }
            proof {
                reveal(valid_prefix);
            }
            match self.stage_fact(&mut staged, records, k) {
                Ok(()) => {},
                Err(e) => {
                    assert(fact_clash(self.facts(), records@, k as int));
                    return Err(e);
                },
            }
            match self.stage_record_flag(records, &mut flags, k) {
                Ok(()) => {},
                Err(e) => {
                    assert(record_clash(self.records(), records@, k as int));
                    return Err(e);
                },
            }
            k = k + 1;
        }
        Ok((staged, flags))
    }

    /// Stages every record with its fact, refuses collisions with what is
    /// held or staged, and then, with every fallible step done, adds the
    /// new facts, the decision and the new records in one transition.
    fn commit_admission(&mut self, decision: AdmissionDecision, records: Vec<AuthorityRecord>, links: Vec<AdmittedLink>) -> (r:
        Result<AdmissionOutcome, AuthorityError>)
        requires
            old(self).wf(),
        ensures
            final(self).wf(),
            r is Err ==> *final(self) == *old(self),
            old(self).extended_by(*final(self)),
            r matches Ok(o) ==> o == (AdmissionOutcome::Admitted { decision, links }),
            r is Ok ==> forall|k: int|
                0 <= k < links@.len() ==> {
                    &&& final(self).resolve_fault(#[trigger] links@[k].reference) is None
                    &&& links@[k].reference.fact_id@ == records@[k].fact.id@
                    &&& fact_document(at_key(final(self).facts(), links@[k].reference.fact_id@)) == fact_document(
                        records@[k].fact,
                    )
                },
            r is Ok ==> has_key(final(self).decisions(), decision.decision_id@) && decision_doc(
                at_key(final(self).decisions(), decision.decision_id@),
            ) == decision_doc(decision),
            r is Ok ==> forall|k: int|
                0 <= k < records@.len() ==> record_held(final(self).records(), #[trigger] records@[k]) && fact_held(
                    final(self).facts(),
                    records@[k].fact,
                ),
            all_held(old(self).facts(), old(self).records(), records@) && has_key(old(self).decisions(), decision.decision_id@)
                && r is Ok ==> *final(self) == *old(self),
            r is Err ==> records@.len() != links@.len() || (exists|k: int|
                0 <= k < records@.len() && !link_fits(#[trigger] records@[k], links@[k], decision)) || staging_refused(
                old(self).facts(),
                old(self).records(),
                records@,
            ) || decision_clash(old(self).decisions(), decision),
    {
        let ghost recs0 = records@;
        let ghost old_facts = self.facts();
        let ghost old_records = self.records();
        if records.len() != links.len() {
            return Err(AuthorityError::StagedAdmissionMismatch);
        }
        check_links(&records, &links, &decision)?;
        let (staged, flags) = self.stage_records(&records)?;
        match find_key(&self.decisions, decision.decision_id.as_str()) {
            Some(i) => {
                if !crate::admission::same_decision(&self.decisions[i], &decision) {
                    proof {
                        lemma_index_of_key(self.decisions(), i as int);
                    }
                    return Err(AuthorityError::DecisionCollision(decision.decision_id.duplicate()));
                }
                proof {
                    lemma_index_of_key(self.decisions(), i as int);
                }
            },
            None => {},
        }
        assert(has_key(self.decisions(), decision.decision_id@) ==> decision_doc(at_key(self.decisions(), decision.decision_id@))
            == decision_doc(decision));
        let ghost staged0 = staged@;
        let ghost flags0 = flags@;
        proof {
            reveal(facts_staged);
            reveal(records_flagged);
            reveal(valid_prefix);
        }
        if find_key(&self.decisions, decision.decision_id.as_str()).is_some() && staged.len() == 0 && none_flagged(&flags) {
            proof {
                assert(forall|y: Fact| old_facts.contains(y) <==> (old_facts.contains(y) || staged0.contains(y)));
                assert(forall|y: AuthorityRecord|
                    old_records.contains(y) <==> (old_records.contains(y) || flagged_from(recs0, flags0, 0, y)));
                lemma_links_resolve(old_facts, old_records, recs0, staged0, flags0, old_facts, old_records, links@, decision);
            }
            return Ok(AdmissionOutcome::Admitted { decision, links });
        }
        let ghost old_decisions = self.decisions();
        assert(self.facts() == old_facts);
        assert(self.wf());
        self.add_facts(staged);
        assert(forall|y: Fact| self.facts().contains(y) <==> (old_facts.contains(y) || staged0.contains(y)));
        let ghost facts1 = self.facts();
        assert(forall|y: Fact| facts1.contains(y) <==> (old_facts.contains(y) || staged0.contains(y)));
        if find_key(&self.decisions, decision.decision_id.as_str()).is_none() {
            let copy = decision.duplicate();
            let ghost gc = copy;
            insert_keyed(&mut self.decisions, copy);
            proof {
                assert(self.decisions().contains(gc));
                lemma_at_key_of_contained(self.decisions(), gc);
            }
        }
        assert(decision_doc(at_key(self.decisions(), decision.decision_id@)) == decision_doc(decision));
        assert(forall|d: AdmissionDecision| old_decisions.contains(d) ==> self.decisions().contains(d));
        assert(has_key(self.decisions(), decision.decision_id@));
        assert(self.facts() == facts1);
        let mut records = records;
        self.add_records(&mut records, &flags);
        assert(self.facts() == facts1);
        proof {
            lemma_links_resolve(old_facts, old_records, recs0, staged0, flags0, self.facts(), self.records(), links@, decision);
        }
        Ok(AdmissionOutcome::Admitted { decision, links })
    }
}

proof fn lemma_links_resolve(
    old_facts: Seq<Fact>,
    old_records: Seq<AuthorityRecord>,
    recs0: Seq<AuthorityRecord>,
    staged0: Seq<Fact>,
    flags0: Seq<bool>,
    facts: Seq<Fact>,
    records: Seq<AuthorityRecord>,
    links: Seq<AdmittedLink>,
    decision: AdmissionDecision,
)
    requires
        ascending(old_facts),
        ascending(old_records),
        ascending(facts),
        ascending(records),
        staged_ok(old_facts, old_records, recs0, staged0, flags0, recs0.len() as int),
        recs0.len() == links.len(),
        forall|k: int| 0 <= k < recs0.len() ==> link_fits(#[trigger] recs0[k], links[k], decision),
        forall|y: Fact| facts.contains(y) <==> (old_facts.contains(y) || staged0.contains(y)),
        forall|y: AuthorityRecord| records.contains(y) <==> (old_records.contains(y) || flagged_from(recs0, flags0, 0, y)),
    ensures
        forall|k: int|
            0 <= k < links.len() ==> {
                &&& resolve_fault_in(facts, records, #[trigger] links[k].reference) is None
                &&& links[k].reference.fact_id@ == recs0[k].fact.id@
                &&& fact_document(at_key(facts, links[k].reference.fact_id@)) == fact_document(recs0[k].fact)
                &&& record_held(records, recs0[k])
                &&& fact_held(facts, recs0[k].fact)
            },
{
    reveal(facts_staged);
    reveal(records_flagged);
    assert forall|k: int| 0 <= k < links.len() implies {
        &&& resolve_fault_in(facts, records, #[trigger] links[k].reference) is None
        &&& links[k].reference.fact_id@ == recs0[k].fact.id@
        &&& fact_document(at_key(facts, links[k].reference.fact_id@)) == fact_document(recs0[k].fact)
        &&& record_held(records, recs0[k])
        &&& fact_held(facts, recs0[k].fact)
    } by {
        let rec = recs0[k];
        assert(link_fits(rec, links[k], decision));
        assert(record_covered(old_records, recs0, flags0, rec));
        if record_held(old_records, rec) {
            let y = at_key(old_records, rec.key());
            let i = index_of_key(old_records, rec.key());
            assert(old_records.contains(y));
            assert(records.contains(y));
            lemma_at_key_of_contained(records, y);
            crate::admission::lemma_record_doc_parts(y, rec);
        } else {
            let m = choose|m: int|
                0 <= m < flags0.len() && flags0[m] && (#[trigger] recs0[m]).key() == rec.key() && record_doc(recs0[m])
                    == record_doc(rec);
            assert(flagged_from(recs0, flags0, 0, recs0[m]));
            assert(records.contains(recs0[m]));
            lemma_at_key_of_contained(records, recs0[m]);
            crate::admission::lemma_record_doc_parts(recs0[m], rec);
        }
        assert(fact_held(old_facts, rec.fact) || fact_held(staged0, rec.fact));
        if fact_held(old_facts, rec.fact) {
            let y = at_key(old_facts, rec.fact.id@);
            let i = index_of_key(old_facts, rec.fact.id@);
            assert(old_facts.contains(y));
            assert(facts.contains(y));
            lemma_at_key_of_contained(facts, y);
        } else {
            let y = at_key(staged0, rec.fact.id@);
            let i = index_of_key(staged0, rec.fact.id@);
            assert(staged0.contains(y));
            assert(facts.contains(y));
            lemma_at_key_of_contained(facts, y);
        }
    }
}

impl AdmissionLedger {
    fn add_facts(&mut self, staged: Vec<Fact>)
        requires
            old(self).wf(),
            ascending(staged@),
            forall|i: int| 0 <= i < staged@.len() ==> !has_key(old(self).facts(), (#[trigger] staged@[i]).key()),
        ensures
            final(self).wf(),
            final(self).decisions() == old(self).decisions(),
            final(self).records() == old(self).records(),
            forall|y: Fact|
                #![trigger final(self).facts().contains(y)]
                final(self).facts().contains(y) <==> (old(self).facts().contains(y) || staged@.contains(y)),
    {
        let ghost s0 = staged@;
        let ghost f0 = self.facts@;
        let mut staged = staged;
        while staged.len() > 0
            invariant
                ascending(s0),
                staged@.len() <= s0.len(),
                staged@ == s0.subrange(0, staged@.len() as int),
                self.wf(),
                self.decisions@ == old(self).decisions@,
                self.authorities@ == old(self).authorities@,
                f0 == old(self).facts@,
                forall|i: int| 0 <= i < s0.len() ==> !has_key(f0, (#[trigger] s0[i]).key()),
                forall|key: Seq<char>|
                    #![trigger has_key(self.facts@, key)]
                    has_key(self.facts@, key) <==> (has_key(f0, key) || has_key(
                        s0.subrange(staged@.len() as int, s0.len() as int),
                        key,
                    )),
                forall|y: Fact|
                    #![trigger self.facts@.contains(y)]
                    self.facts@.contains(y) <==> (f0.contains(y) || s0.subrange(staged@.len() as int, s0.len() as int).contains(
                        y,
                    )),
            decreases staged@.len(),
        {
            let ghost n = staged@.len();
            let ghost tail = s0.subrange(n as int, s0.len() as int);
            let ghost tail2 = s0.subrange(n - 1, s0.len() as int);
            let ghost before = self.facts@;
            let f = staged.pop().unwrap();
            assert(f == s0[n - 1]);
            assert(tail2 =~= seq![f] + tail);
            proof {
                assert(!has_key(f0, f.key()));
                if has_key(tail, f.key()) {
                    let i = choose|i: int| 0 <= i < tail.len() && (#[trigger] tail[i]).key() == f.key();
                    assert(tail[i] == s0[n + i]);
                    assert(key_less(s0[n - 1].key(), s0[n + i].key()));
                    crate::registry::lemma_key_less_irreflexive(f.key());
                }
                assert(!has_key(before, f.key()));
            }
            insert_keyed(&mut self.facts, f);
            proof {
                assert forall|key: Seq<char>| has_key(self.facts@, key) <==> (has_key(f0, key) || has_key(tail2, key)) by {
                    if has_key(tail2, key) {
                        let i = choose|i: int| 0 <= i < tail2.len() && (#[trigger] tail2[i]).key() == key;
                        if i > 0 {
                            assert(tail[i - 1].key() == key);
                        }
                    }
                    if has_key(tail, key) {
                        let i = choose|i: int| 0 <= i < tail.len() && (#[trigger] tail[i]).key() == key;
                        assert(tail2[i + 1].key() == key);
                    }
                    if key == f.key() {
                        assert(tail2[0].key() == key);
                    }
                }
                assert forall|y: Fact| self.facts@.contains(y) <==> (f0.contains(y) || tail2.contains(y)) by {
                    if tail2.contains(y) {
                        let i = choose|i: int| 0 <= i < tail2.len() && tail2[i] == y;
                        if i > 0 {
                            assert(tail[i - 1] == y);
                        }
                    }
                    if tail.contains(y) {
                        let i = choose|i: int| 0 <= i < tail.len() && tail[i] == y;
                        assert(tail2[i + 1] == y);
                    }
                    if y == f {
                        assert(tail2[0] == y);
                    }
                }
                assert(staged@ =~= s0.subrange(0, staged@.len() as int));
            }
        }
        proof {
            assert(s0.subrange(0, s0.len() as int) =~= s0);
        }
    }

    fn add_records(&mut self, records: &mut Vec<AuthorityRecord>, flags: &Vec<bool>)
        requires
            old(self).wf(),
            flags@.len() == old(records)@.len(),
            forall|j: int| 0 <= j < flags@.len() && flags@[j] ==> !has_key(old(self).records(), (#[trigger] old(records)@[j]).key()),
            forall|j: int| 0 <= j < flags@.len() && flags@[j] ==> record_fault(#[trigger] old(records)@[j]) is None,
            forall|a: int, b: int|
                0 <= a < b < flags@.len() && flags@[a] && flags@[b] ==> (#[trigger] old(records)@[a]).key() != (#[trigger] old(
                    records,
                )@[b]).key(),
        ensures
            final(self).wf(),
            final(self).decisions() == old(self).decisions(),
            final(self).facts() == old(self).facts(),
            forall|y: AuthorityRecord|
                #![trigger final(self).records().contains(y)]
                final(self).records().contains(y) <==> (old(self).records().contains(y) || flagged_from(
                    old(records)@,
                    flags@,
                    0,
                    y,
                )),
    {
        let ghost r0 = records@;
        let ghost a0 = self.authorities@;
        let ghost mut taken: Seq<AuthorityRecord> = Seq::empty();
        while records.len() > 0
            invariant
                flags@.len() == r0.len(),
                records@.len() <= r0.len(),
                records@ == r0.subrange(0, records@.len() as int),
                self.wf(),
                self.decisions@ == old(self).decisions@,
                self.facts@ == old(self).facts@,
                a0 == old(self).authorities@,
                forall|j: int| 0 <= j < flags@.len() && flags@[j] ==> !has_key(a0, (#[trigger] r0[j]).key()),
                forall|j: int| 0 <= j < flags@.len() && flags@[j] ==> record_fault(#[trigger] r0[j]) is None,
                forall|a: int, b: int|
                    0 <= a < b < flags@.len() && flags@[a] && flags@[b] ==> (#[trigger] r0[a]).key() != (#[trigger] r0[b]).key(),
                forall|y: AuthorityRecord|
                    #![trigger self.authorities@.contains(y)]
                    self.authorities@.contains(y) <==> (a0.contains(y) || taken.contains(y)),
                forall|key: Seq<char>|
                    #![trigger has_key(self.authorities@, key)]
                    has_key(self.authorities@, key) <==> (has_key(a0, key) || has_key(taken, key)),
                forall|i: int| 0 <= i < taken.len() ==> flagged_from(r0, flags@, records@.len() as int, #[trigger] taken[i]),
                forall|j: int| records@.len() <= j < r0.len() && flags@[j] ==> taken.contains(#[trigger] r0[j]),
            decreases records@.len(),
        {
            let ghost n = records@.len();
            let rec = records.pop().unwrap();
            assert(rec == r0[n - 1]);
            if flags[records.len()] {
                let ghost before = self.authorities@;
                proof {
                    if has_key(taken, rec.key()) {
                        let i = choose|i: int| 0 <= i < taken.len() && (#[trigger] taken[i]).key() == rec.key();
                        assert(flagged_from(r0, flags@, n as int, taken[i]));
                        let j = choose|j: int| n <= j < r0.len() && flags@[j] && r0[j] == taken[i];
                        assert(r0[n - 1].key() != r0[j].key());
                    }
                    assert(!has_key(before, rec.key()));
                }
                insert_keyed(&mut self.authorities, rec);
                proof {
                    let new_taken = taken.push(r0[n - 1]);
                    assert forall|i: int| 0 <= i < self.authorities@.len() implies record_fault(
                        #[trigger] self.authorities@[i],
                    ) is None by {
                        let y = self.authorities@[i];
                        assert(self.authorities@.contains(y));
                        if y != r0[n - 1] {
                            assert(before.contains(y));
                            if a0.contains(y) {
                                let t = choose|t: int| 0 <= t < a0.len() && a0[t] == y;
                                assert(record_fault(a0[t]) is None);
                            } else {
                                let t = choose|t: int| 0 <= t < taken.len() && taken[t] == y;
                                assert(flagged_from(r0, flags@, n as int, taken[t]));
                                let j = choose|j: int| n <= j < r0.len() && flags@[j] && r0[j] == taken[t];
                                assert(record_fault(r0[j]) is None);
                            }
                        }
                    }
                    assert forall|y: AuthorityRecord| self.authorities@.contains(y) <==> (a0.contains(y) || new_taken.contains(
                        y,
                    )) by {
                        if new_taken.contains(y) {
                            let i = choose|i: int| 0 <= i < new_taken.len() && new_taken[i] == y;
                            if i < taken.len() {
                                assert(taken[i] == y);
                            }
                        }
                        if taken.contains(y) {
                            let i = choose|i: int| 0 <= i < taken.len() && taken[i] == y;
                            assert(new_taken[i] == y);
                        }
                        if y == r0[n - 1] {
                            assert(new_taken[taken.len() as int] == y);
                        }
                    }
                    assert forall|key: Seq<char>| has_key(self.authorities@, key) <==> (has_key(a0, key) || has_key(
                        new_taken,
                        key,
                    )) by {
                        if has_key(new_taken, key) {
                            let i = choose|i: int| 0 <= i < new_taken.len() && (#[trigger] new_taken[i]).key() == key;
                            if i < taken.len() {
                                assert(taken[i].key() == key);
                            }
                        }
                        if has_key(taken, key) {
                            let i = choose|i: int| 0 <= i < taken.len() && (#[trigger] taken[i]).key() == key;
                            assert(new_taken[i].key() == key);
                        }
                        if key == r0[n - 1].key() {
                            assert(new_taken[taken.len() as int].key() == key);
                        }
                    }
                    assert forall|i: int| 0 <= i < new_taken.len() implies flagged_from(
                        r0,
                        flags@,
                        records@.len() as int,
                        #[trigger] new_taken[i],
                    ) by {
                        if i < taken.len() {
                            assert(new_taken[i] == taken[i]);
                            assert(flagged_from(r0, flags@, n as int, taken[i]));
                            let j = choose|j: int| n <= j < r0.len() && flags@[j] && r0[j] == taken[i];
                            assert(records@.len() <= j < r0.len() && flags@[j] && r0[j] == new_taken[i]);
                        } else {
                            assert(records@.len() <= n - 1 < r0.len() && flags@[n - 1] && r0[n - 1] == new_taken[i]);
                        }
                    }
                    assert forall|j: int| records@.len() <= j < r0.len() && flags@[j] implies new_taken.contains(
                        #[trigger] r0[j],
                    ) by {
                        if j == n - 1 {
                            assert(new_taken[taken.len() as int] == r0[j]);
                        } else {
                            assert(taken.contains(r0[j]));
                            let i = choose|i: int| 0 <= i < taken.len() && taken[i] == r0[j];
                            assert(new_taken[i] == r0[j]);
                        }
                    }
                    taken = new_taken;
                }
            } else {
                proof {
                    assert forall|i: int| 0 <= i < taken.len() implies flagged_from(
                        r0,
                        flags@,
                        records@.len() as int,
                        #[trigger] taken[i],
                    ) by {
                        assert(flagged_from(r0, flags@, n as int, taken[i]));
                        let j = choose|j: int| n <= j < r0.len() && flags@[j] && r0[j] == taken[i];
                        assert(records@.len() <= j < r0.len() && flags@[j] && r0[j] == taken[i]);
                    }
                }
            }
            proof {
                assert(records@ =~= r0.subrange(0, records@.len() as int));
            }
        }
        proof {
            assert forall|y: AuthorityRecord| self.authorities@.contains(y) <==> (a0.contains(y) || flagged_from(r0, flags@, 0, y))
                by {
                if taken.contains(y) {
                    let i = choose|i: int| 0 <= i < taken.len() && taken[i] == y;
                    assert(flagged_from(r0, flags@, records@.len() as int, taken[i]));
                }
                if flagged_from(r0, flags@, 0, y) {
                    let j = choose|j: int| 0 <= j < r0.len() && flags@[j] && r0[j] == y;
                    assert(taken.contains(r0[j]));
                }
            }
        }
    }
}

/// The first linked input, from `i` on, whose reference does not resolve
/// or resolves to another fact than the one it carries.
pub open spec fn first_link_fault(l: AdmissionLedger, inputs: Seq<LinkedInput>, i: int) -> Option<AuthFault> {
    first_link_fault_in(l.facts(), l.records(), inputs, i)
}

/// The first linked input, from `i` on, whose reference does not resolve
/// among these facts and records, or resolves to another fact than the
/// one it carries.
pub open spec fn first_link_fault_in(
    facts: Seq<Fact>,
    records: Seq<AuthorityRecord>,
    inputs: Seq<LinkedInput>,
    i: int,
) -> Option<AuthFault>
    decreases inputs.len() - i,
{
    if i < 0 || i >= inputs.len() {
        None
    } else if resolve_fault_in(facts, records, inputs[i].admitted) is Some {
        resolve_fault_in(facts, records, inputs[i].admitted)
    } else if fact_document(at_key(facts, inputs[i].admitted.fact_id@)) != fact_document(inputs[i].fact) {
        Some(AuthFault::LinkedInputMismatch(inputs[i].port@))
    } else {
        first_link_fault_in(facts, records, inputs, i + 1)
    }
}

/// Why a candidate chain is refused before any decision: the policy, the
/// chain, the assessment, or an input not linked to an admitted fact.
pub open spec fn candidate_admission_fault(
    l: AdmissionLedger,
    p: crate::admission::AdmissionPolicy,
    v: CapabilityInvocation,
    r: CapabilityResult,
    c: CapabilityCandidate,
    a: ConformanceAssessment,
) -> Option<AuthFault> {
    if policy_fault(p) is Some {
        policy_fault(p)
    } else if chain_fault(v, r, c) is Some {
        chain_fault(v, r, c)
    } else if assessment_fault(a, v, r, c) is Some {
        assessment_fault(a, v, r, c)
    } else {
        first_link_fault(l, v.inputs@, 0)
    }
}

/// The basis document of the record that admits an observation under a
/// policy.
#[verifier::opaque]
pub open spec fn observation_basis_doc(p: AdmissionPolicy, o: SourceObservation) -> Json {
    with_ext(
        seq!["kind"@, "observation"@, "policy"@, "decision"@],
        seq![Json::Str("source"@), observation_doc(o), policy_doc(p), observation_decision_doc(p, o)],
        Seq::empty(),
    )
}

/// The body of the record that admits an observation under a policy.
#[verifier::opaque]
pub open spec fn observation_record_body(p: AdmissionPolicy, o: SourceObservation) -> Json {
    with_ext(
        seq!["protocol"@, "fact"@, "basis"@],
        seq![Json::Str(AUTHORITY_RECORD_PROTOCOL@), fact_document(o.fact), observation_basis_doc(p, o)],
        Seq::empty(),
    )
}

/// The identity of the record that admits an observation under a policy.
pub open spec fn observation_record_id(p: AdmissionPolicy, o: SourceObservation) -> Seq<char> {
    content_id(observation_record_body(p, o)).unwrap()
}

/// The document of the record that admits an observation under a policy.
#[verifier::opaque]
pub open spec fn observation_record_doc(p: AdmissionPolicy, o: SourceObservation) -> Json {
    with_ext(
        record_fields(),
        seq![
            Json::Str(observation_record_id(p, o)),
            Json::Str(AUTHORITY_RECORD_PROTOCOL@),
            fact_document(o.fact),
            observation_basis_doc(p, o),
        ],
        Seq::empty(),
    )
}

/// An observation the ledger admits under a policy: both are valid, the
/// policy accepts the observation's authority, the decision and the
/// record can be identified, and the ledger holds no other document under
/// the identity of the fact, the decision or the record.
#[verifier::opaque]
pub open spec fn observation_admissible(l: AdmissionLedger, p: AdmissionPolicy, o: SourceObservation) -> bool {
    let did = content_id(observation_decision_body(p, o)).unwrap();
    let rid = observation_record_id(p, o);
    &&& policy_fault(p) is None
    &&& observation_fault(o) is None
    &&& observation_verdict(p, o) == VerdictKind::Admit
    &&& content_id(observation_decision_body(p, o)) is Some
    &&& content_id(observation_record_body(p, o)) is Some
    &&& !(has_key(l.facts(), o.fact.id@) && !fact_held(l.facts(), o.fact))
    &&& !(has_key(l.decisions(), did) && decision_doc(at_key(l.decisions(), did)) != observation_decision_doc(p, o))
    &&& !(has_key(l.records(), rid) && record_doc(at_key(l.records(), rid)) != observation_record_doc(p, o))
}

/// The ledger holds an observation admitted under a policy: its fact, its
/// decision and its record, each as the same document.
#[verifier::opaque]
pub open spec fn observation_held(l: AdmissionLedger, p: AdmissionPolicy, o: SourceObservation) -> bool {
    let did = content_id(observation_decision_body(p, o)).unwrap();
    let rid = observation_record_id(p, o);
    &&& fact_held(l.facts(), o.fact)
    &&& has_key(l.decisions(), did)
    &&& decision_doc(at_key(l.decisions(), did)) == observation_decision_doc(p, o)
    &&& has_key(l.records(), rid)
    &&& record_doc(at_key(l.records(), rid)) == observation_record_doc(p, o)
}

/// Replaying an admission is exact: a ledger that holds an observation
/// admitted under a policy owes the same admission again, and by the
/// contract of `admit_observation` that replay succeeds with the same link
/// and leaves the ledger as it was.
pub proof fn lemma_observation_replay(l: AdmissionLedger, p: AdmissionPolicy, o: SourceObservation)
    requires
        observation_held(l, p, o),
        policy_fault(p) is None,
        observation_fault(o) is None,
        observation_verdict(p, o) == VerdictKind::Admit,
        content_id(observation_decision_body(p, o)) is Some,
        content_id(observation_record_body(p, o)) is Some,
    ensures
        observation_admissible(l, p, o),
{
    reveal(observation_held);
    reveal(observation_admissible);
}

/// The source basis of an admitted observation is sound, and its record
/// body is the observation's record body.
proof fn lemma_observation_basis(p: AdmissionPolicy, o: SourceObservation, fact: Fact, d: AdmissionDecision, basis: AuthorityBasis)
    requires
        policy_fault(p) is None,
        observation_fault(o) is None,
        fact_document(fact) == fact_document(o.fact),
        fact_refusal(fact) == fact_refusal(o.fact),
        decision_observation_fault(d, p, o) is None,
        d.verdict is Admit,
        decision_doc(d) == observation_decision_doc(p, o),
        basis matches AuthorityBasis::Source { observation, policy, decision, extensions } && observation == o && policy == p
            && decision == d && extensions@ == Seq::<JsonMember>::empty(),
    ensures
        doc_fact_fault("authority record fact"@, fact) is None,
        basis_fault(fact, basis) is None,
        basis_doc(basis) == observation_basis_doc(p, o),
        fresh_record_body(fact, basis) == observation_record_body(p, o),
{
    reveal(crate::admission::source_basis_fault);
    reveal(observation_basis_doc);
    reveal(observation_record_body);
    assert(key_views(Seq::<JsonMember>::empty()) =~= Seq::<Seq<char>>::empty());
    assert(value_views(Seq::<JsonMember>::empty()) =~= Seq::<Json>::empty());
    assert(first_shadowing_key(Seq::<Seq<char>>::empty(), seq!["kind"@, "observation"@, "policy"@, "decision"@], 0) is None);
}

/// The record built on an observation's basis is the observation's record.
proof fn lemma_observation_record_doc(p: AdmissionPolicy, o: SourceObservation, rec: AuthorityRecord, basis: AuthorityBasis)
    requires
        record_fault(rec) is None,
        rec.basis == basis,
        rec.extensions@.len() == 0,
        fact_document(rec.fact) == fact_document(o.fact),
        basis_doc(basis) == observation_basis_doc(p, o),
        record_body(rec) == observation_record_body(p, o),
    ensures
        rec.authority_record_id@ == observation_record_id(p, o),
        content_id(observation_record_body(p, o)) == Some(rec.authority_record_id@),
        record_doc(rec) == observation_record_doc(p, o),
{
    reveal(record_fault);
    reveal(observation_record_doc);
    reveal(observation_record_body);
    assert(key_views(rec.extensions@) =~= Seq::<Seq<char>>::empty());
    assert(value_views(rec.extensions@) =~= Seq::<Json>::empty());
    assert(record_doc(rec) =~= observation_record_doc(p, o));
}

/// An admissible observation's one record and decision clash with nothing
/// the ledger holds.
proof fn lemma_admissible_single(
    l: AdmissionLedger,
    p: AdmissionPolicy,
    o: SourceObservation,
    recs: Seq<AuthorityRecord>,
    d: AdmissionDecision,
)
    requires
        observation_admissible(l, p, o),
        recs.len() == 1,
        record_fault(recs[0]) is None,
        recs[0].fact.id@ == o.fact.id@,
        fact_document(recs[0].fact) == fact_document(o.fact),
        recs[0].authority_record_id@ == observation_record_id(p, o),
        record_doc(recs[0]) == observation_record_doc(p, o),
        d.decision_id@ == content_id(observation_decision_body(p, o)).unwrap(),
        decision_doc(d) == observation_decision_doc(p, o),
    ensures
        !staging_refused(l.facts(), l.records(), recs),
        !decision_clash(l.decisions(), d),
{
    reveal(observation_admissible);
    assert forall|k: int| 0 <= k < recs.len() implies !(record_fault(#[trigger] recs[k]) is Some || fact_clash(
        l.facts(),
        recs,
        k,
    ) || record_clash(l.records(), recs, k)) by {
        assert(k == 0);
    }
}

/// No field is shadowed by an empty extension map.
proof fn lemma_nothing_reserved_in_empty(reserved: Seq<Seq<char>>)
    ensures
        crate::capability::first_reserved(reserved, Seq::empty()) is None,
    decreases reserved.len(),
{
    if reserved.len() > 0 {
        lemma_nothing_reserved_in_empty(reserved.drop_first());
    }
}

/// A valid observation's fact has a SHA-256 identity.
proof fn lemma_observation_fact_id(o: SourceObservation)
    requires
        observation_fault(o) is None,
    ensures
        is_sha256_text(o.fact.id@),
{
}

/// The link to an observation's record fits it.
proof fn lemma_source_link_fits(rec: AuthorityRecord, link: AdmittedLink, decision: AdmissionDecision)
    requires
        rec.basis is Source,
        link.port is None,
        is_sha256_text(link.reference.fact_id@),
        link.reference.extensions@.len() == 0,
        link.reference.fact_id@ == rec.fact.id@,
        link.reference.authority_record_id@ == rec.authority_record_id@,
        decision_doc(record_decision(rec)) == decision_doc(decision),
    ensures
        link_fits(rec, link, decision),
{
    assert(key_views(link.reference.extensions@) =~= Seq::<Seq<char>>::empty());
    lemma_nothing_reserved_in_empty(seq!["fact_id"@, "authority_record_id"@]);
}

/// The authority record that admits an observation under a policy, on a
/// source basis holding the policy, the observation and the decision.
fn source_record(policy: AdmissionPolicy, observation: SourceObservation) -> (r: Result<AuthorityRecord, AuthorityError>)
    requires
        policy_fault(policy) is None,
        observation_fault(observation) is None,
        observation_verdict(policy, observation) == VerdictKind::Admit,
        content_id(observation_decision_body(policy, observation)) is Some,
    ensures
        content_id(observation_record_body(policy, observation)) is Some ==> r is Ok,
        r matches Ok(rec) ==> {
            &&& record_fault(rec) is None
            &&& rec.basis is Source
            &&& rec.fact.id@ == observation.fact.id@
            &&& fact_document(rec.fact) == fact_document(observation.fact)
            &&& is_sha256_text(rec.authority_record_id@)
            &&& rec.authority_record_id@ == observation_record_id(policy, observation)
            &&& content_id(observation_record_body(policy, observation)) is Some
            &&& record_doc(rec) == observation_record_doc(policy, observation)
            &&& decision_doc(record_decision(rec)) == observation_decision_doc(policy, observation)
        },
{
    let ghost p0 = policy;
    let ghost o0 = observation;
    let held_decision = AdmissionDecision::derive_observation(&policy, &observation)?;
    proof {
        assert(decision_observation_fault(held_decision, p0, o0) is None);
        assert(held_decision.verdict is Admit);
    }
    let fact = observation.fact.duplicate();
    let ghost gfact = fact;
    let basis = AuthorityBasis::Source { observation, policy, decision: held_decision, extensions: Vec::new() };
    let ghost gbasis = basis;
    proof {
        lemma_observation_basis(p0, o0, gfact, held_decision, gbasis);
    }
    let record = AuthorityRecord::with_basis(fact, basis)?;
    proof {
        lemma_observation_record_doc(p0, o0, record, gbasis);
    }
    Ok(record)
}

impl AdmissionLedger {
    /// Validates and atomically admits one exact materialized source
    /// observation under a policy; the record of an admitted observation
    /// holds the policy and the observation themselves.
    pub fn admit_observation(&mut self, policy: AdmissionPolicy, observation: SourceObservation) -> (r: Result<
        AdmissionOutcome,
        AuthorityError,
    >)
        requires
            old(self).wf(),
        ensures
            final(self).wf(),
            old(self).extended_by(*final(self)),
            r is Err ==> *final(self) == *old(self),
            policy_fault(policy) is Some ==> (r matches Err(e) && policy_fault(policy) == Some(auth_fault_of(e))),
            policy_fault(policy) is None && observation_fault(observation) is Some ==> (r matches Err(e)
                && observation_fault(observation) == Some(auth_fault_of(e))),
            r matches Ok(AdmissionOutcome::Withheld { decision }) ==> {
                &&& *final(self) == *old(self)
                &&& verdict_kind(decision.verdict) == observation_verdict(policy, observation)
                &&& observation_verdict(policy, observation) != VerdictKind::Admit
                &&& decision_observation_fault(decision, policy, observation) is None
            },
            policy_fault(policy) is None && observation_fault(observation) is None && content_id(
                observation_decision_body(policy, observation),
            ) is Some && observation_verdict(policy, observation) != VerdictKind::Admit ==> r matches Ok(
                AdmissionOutcome::Withheld { .. },
            ),
            observation_admissible(*old(self), policy, observation) ==> r matches Ok(AdmissionOutcome::Admitted { .. }),
            r matches Ok(AdmissionOutcome::Admitted { decision, links }) ==> {
                &&& observation_verdict(policy, observation) == VerdictKind::Admit
                &&& decision_observation_fault(decision, policy, observation) is None
                &&& decision_doc(decision) == observation_decision_doc(policy, observation)
                &&& links@.len() == 1
                &&& links@[0].port is None
                &&& links@[0].reference.fact_id@ == observation.fact.id@
                &&& links@[0].reference.authority_record_id@ == observation_record_id(policy, observation)
                &&& links@[0].reference.extensions@.len() == 0
                &&& final(self).resolve_fault(links@[0].reference) is None
                &&& fact_document(at_key(final(self).facts(), observation.fact.id@)) == fact_document(observation.fact)
                &&& has_key(final(self).decisions(), content_id(observation_decision_body(policy, observation)).unwrap())
                &&& observation_admissible(*final(self), policy, observation)
                &&& observation_held(*final(self), policy, observation)
            },
            observation_held(*old(self), policy, observation) && r is Ok ==> *final(self) == *old(self),
    {
        proof {
            reveal(observation_admissible);
        }
        policy.validate()?;
        observation.validate()?;
        let decision = AdmissionDecision::derive_observation(&policy, &observation)?;
        decision.validate_observation(&policy, &observation)?;
        if !decision.verdict.is_admit() {
            return Ok(AdmissionOutcome::Withheld { decision });
        }
        self.admit_source(policy, observation, decision)
    }

    /// Records an observation whose decision admits it: one authority
    /// record on a source basis holding the policy, the observation and the
    /// decision, and one link to it.
    #[verifier::spinoff_prover]
    #[verifier::rlimit(80)]
    fn admit_source(&mut self, policy: AdmissionPolicy, observation: SourceObservation, decision: AdmissionDecision) -> (r:
        Result<AdmissionOutcome, AuthorityError>)
        requires
            old(self).wf(),
            policy_fault(policy) is None,
            observation_fault(observation) is None,
            observation_verdict(policy, observation) == VerdictKind::Admit,
            decision.decision_id@ == content_id(observation_decision_body(policy, observation)).unwrap(),
            decision_doc(decision) == observation_decision_doc(policy, observation),
            content_id(observation_decision_body(policy, observation)) is Some,
        ensures
            final(self).wf(),
            old(self).extended_by(*final(self)),
            r is Err ==> *final(self) == *old(self),
            r is Ok ==> r matches Ok(AdmissionOutcome::Admitted { .. }),
            observation_admissible(*old(self), policy, observation) ==> r is Ok,
            r matches Ok(AdmissionOutcome::Admitted { decision: d, links }) ==> {
                &&& d == decision
                &&& links@.len() == 1
                &&& links@[0].port is None
                &&& links@[0].reference.fact_id@ == observation.fact.id@
                &&& links@[0].reference.authority_record_id@ == observation_record_id(policy, observation)
                &&& links@[0].reference.extensions@.len() == 0
                &&& final(self).resolve_fault(links@[0].reference) is None
                &&& fact_document(at_key(final(self).facts(), observation.fact.id@)) == fact_document(observation.fact)
                &&& has_key(final(self).decisions(), decision.decision_id@)
                &&& observation_admissible(*final(self), policy, observation)
                &&& observation_held(*final(self), policy, observation)
            },
            observation_held(*old(self), policy, observation) && r is Ok ==> *final(self) == *old(self),
    {
        let ghost p0 = policy;
        let ghost o0 = observation;
        let fact_id = observation.fact.id.duplicate();
        proof {
            assert(observation_admissible(*old(self), p0, o0) ==> content_id(observation_record_body(p0, o0)) is Some) by {
                reveal(observation_admissible);
            }
        }
        let record = source_record(policy, observation)?;
        let link = AdmittedLink {
            port: None,
            reference: AdmittedFactRef {
                fact_id,
                authority_record_id: record.authority_record_id.duplicate(),
                extensions: Vec::new(),
            },
        };
        let ghost rec = record;
        let ghost lk = link;
        let mut records: Vec<AuthorityRecord> = Vec::new();
        records.push(record);
        let mut links: Vec<AdmittedLink> = Vec::new();
        links.push(link);
        assert(records@[0] == rec && links@[0] == lk);
        proof {
            lemma_observation_fact_id(o0);
            lemma_source_link_fits(rec, lk, decision);
            if observation_admissible(*old(self), p0, o0) {
                lemma_admissible_single(*old(self), p0, o0, records@, decision);
            }
        }
        proof {
            if observation_held(*old(self), p0, o0) {
                reveal(observation_held);
                assert(all_held(old(self).facts(), old(self).records(), records@)) by {
                    assert forall|k: int| 0 <= k < records@.len() implies fact_held(old(self).facts(), (#[trigger] records@[k]).fact)
                        && record_held(old(self).records(), records@[k]) by {
                        assert(k == 0);
                    }
                }
            }
        }
        let r = self.commit_admission(decision, records, links);
        proof {
            if r is Ok {
                reveal(observation_admissible);
                reveal(observation_held);
                assert(record_held(self.records(), rec));
                assert(fact_held(self.facts(), rec.fact));
            }
        }
        r
    }

    fn check_linked_inputs(&self, inputs: &Vec<LinkedInput>) -> (r: Result<(), AuthorityError>)
        requires
            self.wf(),
        ensures
            r is Ok <==> first_link_fault(*self, inputs@, 0) is None,
            r matches Err(e) ==> first_link_fault(*self, inputs@, 0) == Some(auth_fault_of(e)),
    {
        let mut i: usize = 0;
        while i < inputs.len()
            invariant
                i <= inputs.len(),
                self.wf(),
                first_link_fault(*self, inputs@, 0) == first_link_fault(*self, inputs@, i as int),
            decreases inputs.len() - i,
        {
            let resolved = self.resolve(&inputs[i].admitted)?;
            if !crate::admission::same_fact(resolved.fact, &inputs[i].fact) {
                return Err(AuthorityError::LinkedInputMismatch(inputs[i].port.duplicate()));
            }
            i = i + 1;
        }
        Ok(())
    }

    /// Validates and atomically admits every output of one exact candidate
    /// chain under a policy; each input must already be linked to an
    /// admitted fact.
    #[verifier::spinoff_prover]
    pub fn admit_candidate(
        &mut self,
        policy: &AdmissionPolicy,
        invocation: &CapabilityInvocation,
        result: &CapabilityResult,
        candidate: &CapabilityCandidate,
        assessment: &ConformanceAssessment,
    ) -> (r: Result<AdmissionOutcome, AuthorityError>)
        requires
            old(self).wf(),
        ensures
            final(self).wf(),
            old(self).extended_by(*final(self)),
            r is Err ==> *final(self) == *old(self),
            candidate_admission_fault(*old(self), *policy, *invocation, *result, *candidate, *assessment) is Some ==> (r matches Err(
                e,
            ) && candidate_admission_fault(*old(self), *policy, *invocation, *result, *candidate, *assessment) == Some(
                auth_fault_of(e),
            )),
            candidate_admission_fault(*old(self), *policy, *invocation, *result, *candidate, *assessment) is None
                && outputs_identified(*candidate) && content_id(candidate_decision_body(*policy, *assessment, *candidate))
                is Some && assessment_verdict(*policy, *assessment) != VerdictKind::Admit ==> r matches Ok(
                AdmissionOutcome::Withheld { .. },
            ),
            r matches Ok(AdmissionOutcome::Withheld { decision }) ==> {
                &&& *final(self) == *old(self)
                &&& verdict_kind(decision.verdict) == assessment_verdict(*policy, *assessment)
                &&& assessment_verdict(*policy, *assessment) != VerdictKind::Admit
                &&& decision_candidate_fault(decision, *policy, *invocation, *result, *candidate, *assessment) is None
            },
            r matches Ok(AdmissionOutcome::Admitted { decision, links }) ==> {
                &&& assessment_verdict(*policy, *assessment) == VerdictKind::Admit
                &&& decision_candidate_fault(decision, *policy, *invocation, *result, *candidate, *assessment) is None
                &&& candidate_outputs_of(*candidate) is Ok
                &&& links@.len() == candidate_outputs_of(*candidate)->Ok_0.len()
                &&& forall|k: int|
                    0 <= k < links@.len() ==> {
                        let out = candidate_outputs_of(*candidate)->Ok_0[k];
                        &&& (#[trigger] links@[k]).port matches Some(p) && p@ == out.port@
                        &&& links@[k].reference.fact_id@ == out.fact.id@
                        &&& final(self).resolve_fault(links@[k].reference) is None
                        &&& fact_document(at_key(final(self).facts(), out.fact.id@)) == fact_document(out.fact)
                    }
            },
    {
        let decision = self.prevalidate_candidate(policy, invocation, result, candidate, assessment)?;
        if !decision.verdict.is_admit() {
            return Ok(AdmissionOutcome::Withheld { decision });
        }
        let (records, links) = build_derived(policy, invocation, result, candidate, assessment, &decision)?;
        let ghost recs = records@;
        let r = self.commit_admission(decision, records, links);
        r
    }

    #[verifier::spinoff_prover]
    fn prevalidate_candidate(
        &self,
        policy: &AdmissionPolicy,
        invocation: &CapabilityInvocation,
        result: &CapabilityResult,
        candidate: &CapabilityCandidate,
        assessment: &ConformanceAssessment,
    ) -> (r: Result<AdmissionDecision, AuthorityError>)
        requires
            self.wf(),
        ensures
            candidate_admission_fault(*self, *policy, *invocation, *result, *candidate, *assessment) is Some ==> (r matches Err(
                e,
            ) && candidate_admission_fault(*self, *policy, *invocation, *result, *candidate, *assessment) == Some(
                auth_fault_of(e),
            )),
            r matches Ok(d) ==> {
                &&& verdict_kind(d.verdict) == assessment_verdict(*policy, *assessment)
                &&& decision_candidate_fault(d, *policy, *invocation, *result, *candidate, *assessment) is None
            },
            candidate_admission_fault(*self, *policy, *invocation, *result, *candidate, *assessment) is None
                && outputs_identified(*candidate) && content_id(candidate_decision_body(*policy, *assessment, *candidate))
                is Some ==> r is Ok,
    {
        policy.validate()?;
        crate::admission::validate_chain(invocation, result, candidate)?;
        assessment.validate_against(invocation, result, candidate)?;
        self.check_linked_inputs(&invocation.inputs)?;
        let decision = AdmissionDecision::derive_candidate(policy, assessment, candidate)?;
        decision.validate_candidate(policy, invocation, result, candidate, assessment)?;
        Ok(decision)
    }
}

/// One authority record and one link for each output of an admitted
/// candidate, in output order.
#[verifier::spinoff_prover]
fn build_derived(
    policy: &AdmissionPolicy,
    invocation: &CapabilityInvocation,
    result: &CapabilityResult,
    candidate: &CapabilityCandidate,
    assessment: &ConformanceAssessment,
    decision: &AdmissionDecision,
) -> (r: Result<(Vec<AuthorityRecord>, Vec<AdmittedLink>), AuthorityError>)
    ensures
        r matches Ok((records, links)) ==> {
            &&& candidate_outputs_of(*candidate) is Ok
            &&& records@.len() == candidate_outputs_of(*candidate)->Ok_0.len()
            &&& links@.len() == records@.len()
            &&& forall|k: int|
                0 <= k < links@.len() ==> {
                    let out = candidate_outputs_of(*candidate)->Ok_0[k];
                    &&& (#[trigger] links@[k]).port matches Some(p) && p@ == out.port@
                    &&& links@[k].reference.fact_id@ == out.fact.id@
                    &&& fact_document(records@[k].fact) == fact_document(out.fact)
                    &&& records@[k].fact.id@ == out.fact.id@
                }
        },
{
    let outputs = crate::admission::candidate_outputs(candidate)?;
    let mut records: Vec<AuthorityRecord> = Vec::new();
    let mut links: Vec<AdmittedLink> = Vec::new();
    let mut i: usize = 0;
    while i < outputs.len()
        invariant
            i <= outputs.len(),
            records@.len() == i,
            links@.len() == i,
            forall|k: int|
                0 <= k < i ==> {
                    &&& (#[trigger] links@[k]).port matches Some(p) && p@ == outputs@[k].port@
                    &&& links@[k].reference.fact_id@ == outputs@[k].fact.id@
                    &&& fact_document(records@[k].fact) == fact_document(outputs@[k].fact)
                    &&& records@[k].fact.id@ == outputs@[k].fact.id@
                },
        decreases outputs.len() - i,
    {
        let output = &outputs[i];
        match output.fact.validate() {
            Ok(()) => {},
            Err(e) => {
                return Err(AuthorityError::InvalidDocument {
                    document: crate::text::owned("candidate output fact"),
                    detail: e.message(),
                });
            },
        }
        let record = AuthorityRecord::with_basis(
            output.fact.duplicate(),
            AuthorityBasis::Derived {
                output_port: output.port.duplicate(),
                invocation: invocation.clone(),
                result: result.clone(),
                candidate: candidate.clone(),
                assessment: assessment.clone(),
                policy: policy.clone(),
                decision: decision.duplicate(),
                extensions: Vec::new(),
            },
        )?;
        links.push(AdmittedLink {
            port: Some(output.port.duplicate()),
            reference: AdmittedFactRef {
                fact_id: output.fact.id.duplicate(),
                authority_record_id: record.authority_record_id.duplicate(),
                extensions: Vec::new(),
            },
        });
        records.push(record);
        i = i + 1;
    }
    Ok((records, links))
}

/// Whether the key at position `j` occurred before it.
pub open spec fn repeats_earlier<T: Keyed>(s: Seq<T>, j: int) -> bool {
    exists|i: int| 0 <= i < j && (#[trigger] s[i]).key() == s[j].key()
}

impl AdmissionLedger {
    /// Exports every fact, decision and record, each in identity order,
    /// with these extensions, as a content-identified snapshot.
    pub fn export_with_extensions(&self, extensions: Vec<JsonMember>) -> (r: Result<AdmissionSnapshot, AuthorityError>)
        requires
            self.wf(),
        ensures
            r matches Ok(s) ==> exports_to(*self, s) && s.extensions == extensions,
    {
        let mut facts: Vec<Fact> = Vec::new();
        let mut i: usize = 0;
        while i < self.facts.len()
            invariant
                i <= self.facts.len(),
                facts@.len() == i,
                forall|k: int|
                    0 <= k < i ==> fact_document(#[trigger] facts@[k]) == fact_document(self.facts@[k]) && facts@[k].id@
                        == self.facts@[k].id@,
            decreases self.facts.len() - i,
        {
            facts.push(self.facts[i].duplicate());
            i = i + 1;
        }
        let mut decisions: Vec<AdmissionDecision> = Vec::new();
        let mut i: usize = 0;
        while i < self.decisions.len()
            invariant
                i <= self.decisions.len(),
                decisions@.len() == i,
                forall|k: int|
                    0 <= k < i ==> decision_doc(#[trigger] decisions@[k]) == decision_doc(self.decisions@[k])
                        && decisions@[k].decision_id@ == self.decisions@[k].decision_id@,
            decreases self.decisions.len() - i,
        {
            decisions.push(self.decisions[i].duplicate());
            i = i + 1;
        }
        let mut records: Vec<AuthorityRecord> = Vec::new();
        let mut i: usize = 0;
        while i < self.authorities.len()
            invariant
                i <= self.authorities.len(),
                records@.len() == i,
                forall|k: int|
                    0 <= k < i ==> (#[trigger] records@[k]).authority_record_id@ == self.authorities@[k].authority_record_id@
                        && fact_document(records@[k].fact) == fact_document(self.authorities@[k].fact)
                        && records@[k].fact.id@ == self.authorities@[k].fact.id@,
            decreases self.authorities.len() - i,
        {
            records.push(self.authorities[i].copy_keyed());
            i = i + 1;
        }
        AdmissionSnapshot::assemble(facts, decisions, records, extensions)
    }

    /// Exports the ledger as a snapshot without extensions.
    pub fn export(&self) -> (r: Result<AdmissionSnapshot, AuthorityError>)
        requires
            self.wf(),
        ensures
            r matches Ok(s) ==> exports_to(*self, s) && s.extensions@.len() == 0,
    {
        self.export_with_extensions(Vec::new())
    }
}

/// No two positions carry one key.
pub open spec fn keys_distinct<T: Keyed>(s: Seq<T>) -> bool {
    forall|i: int, j: int| 0 <= i < j < s.len() ==> (#[trigger] s[i]).key() != (#[trigger] s[j]).key()
}

/// Every fact of `v` copies a fact of `s`: the same identity, document
/// and validity.
#[verifier::opaque]
pub open spec fn facts_copied(v: Seq<Fact>, s: Seq<Fact>) -> bool {
    forall|i: int|
        0 <= i < v.len() ==> exists|j: int|
            0 <= j < s.len() && (#[trigger] v[i]).id@ == (#[trigger] s[j]).id@ && fact_document(v[i]) == fact_document(s[j])
                && fact_refusal(v[i]) == fact_refusal(s[j])
}

/// Every decision of `v` copies one of `s` by identity and document.
#[verifier::opaque]
pub open spec fn decisions_copied(v: Seq<AdmissionDecision>, s: Seq<AdmissionDecision>) -> bool {
    forall|i: int|
        0 <= i < v.len() ==> exists|j: int|
            0 <= j < s.len() && (#[trigger] v[i]).decision_id@ == (#[trigger] s[j]).decision_id@ && decision_doc(v[i])
                == decision_doc(s[j])
}

fn keyed_facts(facts: &Vec<Fact>) -> (r: Result<Vec<Fact>, AuthorityError>)
    ensures
        r matches Ok(v) ==> {
            &&& ascending(v@)
            &&& forall|key: Seq<char>| has_key(v@, key) <==> has_key(facts@, key)
            &&& forall|j: int| 0 <= j < facts@.len() ==> fact_held(v@, #[trigger] facts@[j])
            &&& keys_distinct(facts@)
            &&& facts_copied(v@, facts@)
        },
        r matches Err(e) ==> exists|j: int|
            0 <= j < facts@.len() && repeats_earlier(facts@, j) && auth_fault_of(e) == AuthFault::FactCollision(
                (#[trigger] facts@[j]).id@,
            ),
{
    proof {
        reveal(facts_copied);
    }
    let mut v: Vec<Fact> = Vec::new();
    let mut j: usize = 0;
    while j < facts.len()
        invariant
            j <= facts.len(),
            ascending(v@),
            forall|key: Seq<char>|
                #![trigger has_key(v@, key)]
                has_key(v@, key) <==> has_key(facts@.subrange(0, j as int), key),
            forall|i: int| 0 <= i < j ==> fact_held(v@, #[trigger] facts@[i]),
            keys_distinct(facts@.subrange(0, j as int)),
            facts_copied(v@, facts@),
        decreases facts.len() - j,
    {
        proof {
            reveal(facts_copied);
        }
        let f = &facts[j];
        match find_key(&v, f.id.as_str()) {
            Some(_) => {
                proof {
                    let pre = facts@.subrange(0, j as int);
                    assert(has_key(pre, f.key()));
                    let i = choose|i: int| 0 <= i < pre.len() && (#[trigger] pre[i]).key() == f.key();
                    assert(facts@[i].key() == facts@[j as int].key());
                    assert(repeats_earlier(facts@, j as int));
                }
                return Err(AuthorityError::FactCollision(f.id.duplicate()));
            },
            None => {
                let ghost before = v@;
                let copy = f.duplicate();
                let ghost cv = copy;
                insert_keyed(&mut v, copy);
                proof {
                    assert(v@.contains(cv));
                    lemma_at_key_of_contained(v@, cv);
                    assert forall|i: int| 0 <= i < j + 1 implies fact_held(v@, #[trigger] facts@[i]) by {
                        if i < j {
                            lemma_held_after_insert(before, v@, facts@[i].id@);
                        }
                    }
                    let pre = facts@.subrange(0, j as int);
                    let pre1 = facts@.subrange(0, j + 1);
                    assert(!has_key(pre, f.key()));
                    assert forall|a: int, b: int| 0 <= a < b < pre1.len() implies (#[trigger] pre1[a]).key() != (
                    #[trigger] pre1[b]).key() by {
                        if b == j {
                            assert(pre[a] == pre1[a]);
                        } else {
                            assert(pre[a] == pre1[a] && pre[b] == pre1[b]);
                        }
                    }
                    assert forall|a: int| 0 <= a < v@.len() implies exists|b: int|
                        0 <= b < facts@.len() && (#[trigger] v@[a]).id@ == (#[trigger] facts@[b]).id@ && fact_document(v@[a])
                            == fact_document(facts@[b]) && fact_refusal(v@[a]) == fact_refusal(facts@[b]) by {
                        if v@[a] == cv {
                            assert(facts@[j as int].id@ == v@[a].id@);
                        } else {
                            assert(before.contains(v@[a]));
                            let w = choose|w: int| 0 <= w < before.len() && before[w] == v@[a];
                            assert(exists|b: int|
                                0 <= b < facts@.len() && (#[trigger] before[w]).id@ == (#[trigger] facts@[b]).id@
                                    && fact_document(before[w]) == fact_document(facts@[b]) && fact_refusal(before[w])
                                    == fact_refusal(facts@[b]));
                        }
                    }
                    assert forall|key: Seq<char>| has_key(v@, key) <==> has_key(pre1, key) by {
                        if has_key(pre1, key) {
                            let i = choose|i: int| 0 <= i < pre1.len() && (#[trigger] pre1[i]).key() == key;
                            if i < j {
                                assert(pre[i].key() == key);
                            }
                        }
                        if has_key(pre, key) {
                            let i = choose|i: int| 0 <= i < pre.len() && (#[trigger] pre[i]).key() == key;
                            assert(pre1[i].key() == key);
                        }
                        if key == cv.key() {
                            assert(pre1[j as int].key() == key);
                        }
                    }
                }
            },
        }
        j = j + 1;
    }
    assert(facts@.subrange(0, facts@.len() as int) =~= facts@);
    Ok(v)
}

fn keyed_decisions(decisions: &Vec<AdmissionDecision>) -> (r: Result<Vec<AdmissionDecision>, AuthorityError>)
    ensures
        r matches Ok(v) ==> {
            &&& ascending(v@)
            &&& forall|key: Seq<char>| has_key(v@, key) <==> has_key(decisions@, key)
            &&& forall|j: int|
                0 <= j < decisions@.len() ==> decision_doc(at_key(v@, (#[trigger] decisions@[j]).key())) == decision_doc(
                    decisions@[j],
                )
            &&& keys_distinct(decisions@)
            &&& decisions_copied(v@, decisions@)
        },
        r matches Err(e) ==> exists|j: int|
            0 <= j < decisions@.len() && repeats_earlier(decisions@, j) && auth_fault_of(e) == AuthFault::DecisionCollision(
                (#[trigger] decisions@[j]).decision_id@,
            ),
{
    proof {
        reveal(decisions_copied);
    }
    let mut v: Vec<AdmissionDecision> = Vec::new();
    let mut j: usize = 0;
    while j < decisions.len()
        invariant
            j <= decisions.len(),
            ascending(v@),
            forall|key: Seq<char>|
                #![trigger has_key(v@, key)]
                has_key(v@, key) <==> has_key(decisions@.subrange(0, j as int), key),
            forall|i: int|
                0 <= i < j ==> has_key(v@, (#[trigger] decisions@[i]).key()) && decision_doc(at_key(v@, decisions@[i].key()))
                    == decision_doc(decisions@[i]),
            keys_distinct(decisions@.subrange(0, j as int)),
            decisions_copied(v@, decisions@),
        decreases decisions.len() - j,
    {
        proof {
            reveal(decisions_copied);
        }
        let d = &decisions[j];
        match find_key(&v, d.decision_id.as_str()) {
            Some(_) => {
                proof {
                    let pre = decisions@.subrange(0, j as int);
                    assert(has_key(pre, d.key()));
                    let i = choose|i: int| 0 <= i < pre.len() && (#[trigger] pre[i]).key() == d.key();
                    assert(decisions@[i].key() == decisions@[j as int].key());
                    assert(repeats_earlier(decisions@, j as int));
                }
                return Err(AuthorityError::DecisionCollision(d.decision_id.duplicate()));
            },
            None => {
                let ghost before = v@;
                let copy = d.duplicate();
                let ghost cv = copy;
                insert_keyed(&mut v, copy);
                proof {
                    assert(v@.contains(cv));
                    lemma_at_key_of_contained(v@, cv);
                    assert forall|i: int| 0 <= i < j + 1 implies has_key(v@, (#[trigger] decisions@[i]).key()) && decision_doc(
                        at_key(v@, decisions@[i].key()),
                    ) == decision_doc(decisions@[i]) by {
                        if i < j {
                            lemma_held_after_insert(before, v@, decisions@[i].key());
                        }
                    }
                    let pre = decisions@.subrange(0, j as int);
                    let pre1 = decisions@.subrange(0, j + 1);
                    assert(!has_key(pre, d.key()));
                    assert forall|a: int, b: int| 0 <= a < b < pre1.len() implies (#[trigger] pre1[a]).key() != (
                    #[trigger] pre1[b]).key() by {
                        if b == j {
                            assert(pre[a] == pre1[a]);
                        } else {
                            assert(pre[a] == pre1[a] && pre[b] == pre1[b]);
                        }
                    }
                    assert forall|a: int| 0 <= a < v@.len() implies exists|b: int|
                        0 <= b < decisions@.len() && (#[trigger] v@[a]).decision_id@ == (#[trigger] decisions@[b]).decision_id@
                            && decision_doc(v@[a]) == decision_doc(decisions@[b]) by {
                        if v@[a] == cv {
                            assert(decisions@[j as int].decision_id@ == v@[a].decision_id@);
                        } else {
                            assert(before.contains(v@[a]));
                            let w = choose|w: int| 0 <= w < before.len() && before[w] == v@[a];
                            assert(exists|b: int|
                                0 <= b < decisions@.len() && (#[trigger] before[w]).decision_id@ == (#[trigger] decisions@[b]).decision_id@
                                    && decision_doc(before[w]) == decision_doc(decisions@[b]));
                        }
                    }
                    assert forall|key: Seq<char>| has_key(v@, key) <==> has_key(pre1, key) by {
                        if has_key(pre1, key) {
                            let i = choose|i: int| 0 <= i < pre1.len() && (#[trigger] pre1[i]).key() == key;
                            if i < j {
                                assert(pre[i].key() == key);
                            }
                        }
                        if has_key(pre, key) {
                            let i = choose|i: int| 0 <= i < pre.len() && (#[trigger] pre[i]).key() == key;
                            assert(pre1[i].key() == key);
                        }
                        if key == cv.key() {
                            assert(pre1[j as int].key() == key);
                        }
                    }
                }
            },
        }
        j = j + 1;
    }
    assert(decisions@.subrange(0, decisions@.len() as int) =~= decisions@);
    Ok(v)
}

#[verifier::loop_isolation(false)]
fn keyed_records(records: Vec<AuthorityRecord>) -> (r: Result<Vec<AuthorityRecord>, AuthorityError>)
    ensures
        r matches Ok(v) ==> {
            &&& ascending(v@)
            &&& forall|key: Seq<char>| has_key(v@, key) <==> has_key(records@, key)
            &&& forall|j: int| 0 <= j < records@.len() ==> record_fact_kept(v@, #[trigger] records@[j])
            &&& keys_distinct(records@)
            &&& forall|y: AuthorityRecord| v@.contains(y) <==> records@.contains(y)
        },
        r matches Err(e) ==> exists|j: int|
            0 <= j < records@.len() && repeats_earlier(records@, j) && auth_fault_of(e) == AuthFault::AuthorityCollision(
                (#[trigger] records@[j]).authority_record_id@,
            ),
{
    let ghost all = records@;
    let mut rest = records;
    let mut v: Vec<AuthorityRecord> = Vec::new();
    let mut j: usize = 0;
    let n = rest.len();
    assert(all.len() == n);
    assert(rest@.subrange(0, rest@.len() as int) =~= rest@);
    while rest.len() > 0
        invariant
            all.len() <= usize::MAX,
            j + rest@.len() == all.len(),
            rest@ == all.subrange(j as int, all.len() as int),
            ascending(v@),
            forall|key: Seq<char>|
                #![trigger has_key(v@, key)]
                has_key(v@, key) <==> has_key(all.subrange(0, j as int), key),
            forall|i: int| 0 <= i < j ==> record_fact_kept(v@, #[trigger] all[i]),
            keys_distinct(all.subrange(0, j as int)),
            forall|y: AuthorityRecord| v@.contains(y) <==> all.subrange(0, j as int).contains(y),
        decreases rest.len(),
    {
        let rec = rest.remove(0);
        assert(rec == all[j as int]);
        assert(rest@ =~= all.subrange(j + 1, all.len() as int));
        match find_key(&v, rec.authority_record_id.as_str()) {
            Some(_) => {
                proof {
                    let pre = all.subrange(0, j as int);
                    assert(has_key(pre, rec.key()));
                    let i = choose|i: int| 0 <= i < pre.len() && (#[trigger] pre[i]).key() == rec.key();
                    assert(all[i].key() == all[j as int].key());
                    assert(repeats_earlier(all, j as int));
                }
                let e = AuthorityError::AuthorityCollision(rec.authority_record_id.duplicate());
                assert(auth_fault_of(e) == AuthFault::AuthorityCollision(all[j as int].authority_record_id@));
                assert(0 <= j < all.len() && repeats_earlier(all, j as int));
                assert(exists|jj: int|
                    0 <= jj < all.len() && repeats_earlier(all, jj) && auth_fault_of(e) == AuthFault::AuthorityCollision(
                        (#[trigger] all[jj]).authority_record_id@,
                    ));
                return Err(e);
            },
            None => {
                let ghost before = v@;
                let ghost ck = rec.key();
                let ghost cv = rec;
                insert_keyed(&mut v, rec);
                proof {
                    assert(v@.contains(cv));
                    lemma_at_key_of_contained(v@, cv);
                    assert forall|i: int| 0 <= i < j + 1 implies record_fact_kept(v@, #[trigger] all[i]) by {
                        if i < j {
                            lemma_held_after_insert(before, v@, all[i].key());
                        }
                    }
                    let pre = all.subrange(0, j as int);
                    let pre1 = all.subrange(0, j + 1);
                    assert forall|key: Seq<char>| has_key(v@, key) <==> has_key(pre1, key) by {
                        if has_key(pre1, key) {
                            let i = choose|i: int| 0 <= i < pre1.len() && (#[trigger] pre1[i]).key() == key;
                            if i < j {
                                assert(pre[i].key() == key);
                            }
                        }
                        if has_key(pre, key) {
                            let i = choose|i: int| 0 <= i < pre.len() && (#[trigger] pre[i]).key() == key;
                            assert(pre1[i].key() == key);
                        }
                        if key == ck {
                            assert(pre1[j as int].key() == key);
                        }
                    }
                    assert(!has_key(pre, ck));
                    assert forall|a: int, b: int| 0 <= a < b < pre1.len() implies (#[trigger] pre1[a]).key() != (
                    #[trigger] pre1[b]).key() by {
                        if b == j {
                            assert(pre[a] == pre1[a]);
                        } else {
                            assert(pre[a] == pre1[a] && pre[b] == pre1[b]);
                        }
                    }
                    assert forall|y: AuthorityRecord| v@.contains(y) <==> pre1.contains(y) by {
                        if pre1.contains(y) {
                            let i = choose|i: int| 0 <= i < pre1.len() && pre1[i] == y;
                            if i < j {
                                assert(pre[i] == y);
                            }
                        }
                        if pre.contains(y) {
                            let i = choose|i: int| 0 <= i < pre.len() && pre[i] == y;
                            assert(pre1[i] == y);
                        }
                        if y == cv {
                            assert(pre1[j as int] == y);
                        }
                    }
                }
            },
        }
        j = j + 1;
    }
    assert(all.subrange(0, all.len() as int) =~= all);
    Ok(v)
}

/// Whether some record, among these, holds a fact of this identity.
pub open spec fn has_record_of(records: Seq<AuthorityRecord>, id: Seq<char>) -> bool {
    exists|j: int| 0 <= j < records.len() && (#[trigger] records[j]).fact.id@ == id
}

/// The decision a record carries is held, by its identity, as the same
/// document.
pub open spec fn decision_held(decisions: Seq<AdmissionDecision>, r: AuthorityRecord) -> bool {
    has_key(decisions, record_decision(r).decision_id@) && decision_doc(at_key(decisions, record_decision(r).decision_id@))
        == decision_doc(record_decision(r))
}

/// The ledger closes over itself: every fact is valid and held by a
/// record; every record's fact and decision are held as the same
/// documents; every decision is carried by a record; and the inputs of
/// every derived record resolve to the facts they carry.
pub open spec fn closed_ledger(l: AdmissionLedger) -> bool {
    &&& forall|i: int|
        0 <= i < l.facts().len() ==> crate::fact::fact_refusal(#[trigger] l.facts()[i]) is None && has_record_of(
            l.records(),
            l.facts()[i].id@,
        )
    &&& forall|j: int| 0 <= j < l.records().len() ==> fact_held(l.facts(), (#[trigger] l.records()[j]).fact)
    &&& forall|j: int| 0 <= j < l.records().len() ==> decision_held(l.decisions(), #[trigger] l.records()[j])
    &&& forall|i: int| 0 <= i < l.decisions().len() ==> carried(l.records(), (#[trigger] l.decisions()[i]).decision_id@)
    &&& forall|j: int|
        0 <= j < l.records().len() ==> match (#[trigger] l.records()[j]).basis {
            AuthorityBasis::Derived { invocation, .. } => first_link_fault(l, invocation.inputs@, 0) is None,
            AuthorityBasis::Source { .. } => true,
        }
}

fn has_record_exec(records: &Vec<AuthorityRecord>, id: &crate::identity::FactId) -> (r: bool)
    ensures
        r == has_record_of(records@, id@),
{
    let mut j: usize = 0;
    while j < records.len()
        invariant
            j <= records.len(),
            forall|k: int| 0 <= k < j ==> (#[trigger] records@[k]).fact.id@ != id@,
        decreases records.len() - j,
    {
        if records[j].fact.id.same_as(id) {
            return true;
        }
        j = j + 1;
    }
    false
}

fn check_facts_closed(facts: &Vec<Fact>, records: &Vec<AuthorityRecord>) -> (r: Result<(), AuthorityError>)
    ensures
        r is Ok ==> forall|k: int|
            0 <= k < facts@.len() ==> crate::fact::fact_refusal(#[trigger] facts@[k]) is None && has_record_of(
                records@,
                facts@[k].id@,
            ),
        r is Err ==> exists|k: int|
            0 <= k < facts@.len() && (crate::fact::fact_refusal(#[trigger] facts@[k]) is Some || !has_record_of(
                records@,
                facts@[k].id@,
            )),
{
    let mut i: usize = 0;
    while i < facts.len()
        invariant
            i <= facts.len(),
            forall|k: int|
                0 <= k < i ==> crate::fact::fact_refusal(#[trigger] facts@[k]) is None && has_record_of(records@, facts@[k].id@),
        decreases facts.len() - i,
    {
        match facts[i].validate() {
            Ok(()) => {},
            Err(e) => {
                assert(crate::fact::fact_refusal(facts@[i as int]) is Some);
                return Err(AuthorityError::InvalidDocument {
                    document: crate::text::owned("snapshot fact"),
                    detail: e.message(),
                });
            },
        }
        if !has_record_exec(records, &facts[i].id) {
            assert(!has_record_of(records@, facts@[i as int].id@));
            return Err(AuthorityError::OrphanFact(facts[i].id.duplicate()));
        }
        i = i + 1;
    }
    Ok(())
}

fn check_records_closed(
    facts: &Vec<Fact>,
    decisions: &Vec<AdmissionDecision>,
    records: &Vec<AuthorityRecord>,
) -> (r: Result<Vec<bool>, AuthorityError>)
    requires
        ascending(facts@),
        ascending(decisions@),
    ensures
        r matches Ok(referenced) ==> {
            &&& referenced@.len() == decisions@.len()
            &&& forall|k: int|
                0 <= k < records@.len() ==> record_fault(#[trigger] records@[k]) is None && fact_held(facts@, records@[k].fact)
                    && decision_held(decisions@, records@[k])
            &&& forall|d: int|
                0 <= d < decisions@.len() && referenced@[d] ==> carried(records@, (#[trigger] decisions@[d]).decision_id@)
            &&& forall|d: int|
                0 <= d < decisions@.len() && carried(records@, (#[trigger] decisions@[d]).decision_id@) ==> referenced@[d]
        },
        r is Err ==> exists|k: int|
            0 <= k < records@.len() && (record_fault(#[trigger] records@[k]) is Some || !fact_held(facts@, records@[k].fact)
                || !decision_held(decisions@, records@[k])),
{
    let mut referenced: Vec<bool> = Vec::new();
    let mut i: usize = 0;
    while i < decisions.len()
        invariant
            i <= decisions.len(),
            referenced@.len() == i,
            forall|k: int| 0 <= k < i ==> !referenced@[k],
        decreases decisions.len() - i,
    {
        referenced.push(false);
        i = i + 1;
    }
    let mut j: usize = 0;
    while j < records.len()
        invariant
            j <= records.len(),
            ascending(facts@),
            ascending(decisions@),
            referenced@.len() == decisions@.len(),
            forall|k: int|
                0 <= k < j ==> record_fault(#[trigger] records@[k]) is None && fact_held(facts@, records@[k].fact)
                    && decision_held(decisions@, records@[k]),
            forall|d: int|
                0 <= d < decisions@.len() && referenced@[d] ==> carried(records@.subrange(0, j as int), (
                #[trigger] decisions@[d]).decision_id@),
            forall|k: int, d: int|
                0 <= k < j && 0 <= d < decisions@.len() && record_decision(#[trigger] records@[k]).decision_id@ == (
                #[trigger] decisions@[d]).decision_id@ ==> referenced@[d],
        decreases records.len() - j,
    {
        let rec = &records[j];
        match rec.validate() {
            Ok(()) => {},
            Err(e) => {
                assert(record_fault(records@[j as int]) is Some);
                return Err(e);
            },
        }
        let fi = match find_key(facts, rec.fact.id.as_str()) {
            Some(fi) => fi,
            None => {
                assert(!fact_held(facts@, records@[j as int].fact));
                return Err(AuthorityError::MissingFact(rec.fact.id.duplicate()));
            },
        };
        if !crate::admission::same_fact(&facts[fi], &rec.fact) {
            proof {
                lemma_index_of_key(facts@, fi as int);
            }
            assert(!fact_held(facts@, records@[j as int].fact));
            return Err(AuthorityError::StoredFactMismatch(rec.fact.id.duplicate()));
        }
        let d = rec.decision();
        let di = match find_key(decisions, d.decision_id.as_str()) {
            Some(di) => di,
            None => {
                assert(!decision_held(decisions@, records@[j as int]));
                return Err(AuthorityError::MissingDecision(d.decision_id.duplicate()));
            },
        };
        if !crate::admission::same_decision(&decisions[di], d) {
            proof {
                lemma_index_of_key(decisions@, di as int);
            }
            assert(!decision_held(decisions@, records@[j as int]));
            return Err(AuthorityError::StoredDecisionMismatch(d.decision_id.duplicate()));
        }
        let ghost ref_before = referenced@;
        referenced.set(di, true);
        proof {
            assert forall|k: int, dd: int|
                0 <= k < j + 1 && 0 <= dd < decisions@.len() && record_decision(#[trigger] records@[k]).decision_id@ == (
                #[trigger] decisions@[dd]).decision_id@ implies referenced@[dd] by {
                if k == j {
                    if dd != di {
                        crate::keyed::lemma_key_unique(decisions@, dd, di as int);
                    }
                } else {
                    assert(ref_before[dd]);
                }
            }
        }
        proof {
            let pre = records@.subrange(0, j as int);
            let pre1 = records@.subrange(0, j + 1);
            assert forall|d: int|
                0 <= d < decisions@.len() && referenced@[d] implies carried(pre1, (#[trigger] decisions@[d]).decision_id@) by {
                if d == di {
                    assert(record_decision(pre1[j as int]).decision_id@ == decisions@[d].decision_id@);
                } else {
                    assert(ref_before[d]);
                    assert(carried(pre, decisions@[d].decision_id@));
                    let k = choose|k: int| 0 <= k < pre.len() && record_decision(#[trigger] pre[k]).decision_id@
                        == decisions@[d].decision_id@;
                    assert(pre1[k] == pre[k]);
                }
            }
        }
        j = j + 1;
    }
    proof {
        assert(records@.subrange(0, records@.len() as int) =~= records@);
        assert forall|d: int|
            0 <= d < decisions@.len() && carried(records@, (#[trigger] decisions@[d]).decision_id@) implies referenced@[d] by {
            let k = choose|k: int| 0 <= k < records@.len() && record_decision(#[trigger] records@[k]).decision_id@
                == decisions@[d].decision_id@;
        }
    }
    Ok(referenced)
}

/// Whether some record carries the decision of this identity.
pub open spec fn carried(records: Seq<AuthorityRecord>, id: Seq<char>) -> bool {
    exists|k: int| 0 <= k < records.len() && record_decision(#[trigger] records[k]).decision_id@ == id
}

fn check_decisions_referenced(decisions: &Vec<AdmissionDecision>, referenced: &Vec<bool>, Ghost(records): Ghost<Seq<AuthorityRecord>>) -> (r:
    Result<(), AuthorityError>)
    requires
        referenced@.len() == decisions@.len(),
        forall|d: int| 0 <= d < decisions@.len() && referenced@[d] ==> carried(records, (#[trigger] decisions@[d]).decision_id@),
    ensures
        r is Ok ==> forall|d: int| 0 <= d < decisions@.len() ==> carried(records, (#[trigger] decisions@[d]).decision_id@),
        (forall|d: int| 0 <= d < decisions@.len() && carried(records, (#[trigger] decisions@[d]).decision_id@) ==> referenced@[d])
            && r is Err ==> exists|d: int| 0 <= d < decisions@.len() && !carried(records, (#[trigger] decisions@[d]).decision_id@),
{
    let mut i: usize = 0;
    while i < decisions.len()
        invariant
            i <= decisions.len(),
            referenced@.len() == decisions@.len(),
            forall|d: int| 0 <= d < i ==> #[trigger] referenced@[d],
            forall|d: int| 0 <= d < decisions@.len() && referenced@[d] ==> carried(records, (#[trigger] decisions@[d]).decision_id@),
        decreases decisions.len() - i,
    {
        if !referenced[i] {
            assert(!carried(records, decisions@[i as int].decision_id@) || !(forall|d: int|
                0 <= d < decisions@.len() && carried(records, (#[trigger] decisions@[d]).decision_id@) ==> referenced@[d]));
            return Err(AuthorityError::OrphanDecision(decisions[i].decision_id.duplicate()));
        }
        i = i + 1;
    }
    proof {
        assert forall|d: int| 0 <= d < decisions@.len() implies carried(records, (#[trigger] decisions@[d]).decision_id@) by {
            assert(referenced@[d]);
        }
    }
    Ok(())
}

impl AdmissionLedger {
    fn check_derived_inputs(&self) -> (r: Result<(), AuthorityError>)
        requires
            self.wf(),
        ensures
            r is Ok ==> forall|j: int|
                0 <= j < self.records().len() ==> match (#[trigger] self.records()[j]).basis {
                    AuthorityBasis::Derived { invocation, .. } => first_link_fault(*self, invocation.inputs@, 0) is None,
                    AuthorityBasis::Source { .. } => true,
                },
            r is Err ==> exists|j: int|
                0 <= j < self.records().len() && match (#[trigger] self.records()[j]).basis {
                    AuthorityBasis::Derived { invocation, .. } => first_link_fault(*self, invocation.inputs@, 0) is Some,
                    AuthorityBasis::Source { .. } => false,
                },
    {
        let mut j: usize = 0;
        while j < self.authorities.len()
            invariant
                j <= self.authorities.len(),
                self.wf(),
                forall|k: int|
                    0 <= k < j ==> match (#[trigger] self.authorities@[k]).basis {
                        AuthorityBasis::Derived { invocation, .. } => first_link_fault(*self, invocation.inputs@, 0) is None,
                        AuthorityBasis::Source { .. } => true,
                    },
            decreases self.authorities.len() - j,
        {
            match &self.authorities[j].basis {
                AuthorityBasis::Derived { invocation, .. } => {
                    match self.check_linked_inputs(&invocation.inputs) {
                        Ok(()) => {},
                        Err(e) => {
                            assert(self.authorities@[j as int] == self.records()[j as int]);
                            return Err(e);
                        },
                    }
                },
                AuthorityBasis::Source { .. } => {},
            }
            j = j + 1;
        }
        Ok(())
    }

    /// Rebuilds linkable state from an exact, self-validating snapshot.
    /// This shows content identity and closure, not where the snapshot
    /// came from; choosing and authenticating it is the host's concern.
    #[verifier::spinoff_prover]
    #[verifier::rlimit(60)]
    pub fn rebuild(snapshot: AdmissionSnapshot) -> (r: Result<Self, AuthorityError>)
        ensures
            snapshot_fault(snapshot) is Some ==> (r matches Err(e) && snapshot_fault(snapshot) == Some(auth_fault_of(e))),
            r is Ok <==> snapshot_fault(snapshot) is None && snapshot_closed(snapshot),
            r matches Ok(l) ==> rebuilt_from(l, snapshot),
    {
        let ghost s0 = snapshot;
        let ghost sf = snapshot.facts@;
        let ghost sd = snapshot.decisions@;
        let ghost sr = snapshot.authority_records@;
        snapshot.validate()?;
        let facts = match keyed_facts(&snapshot.facts) {
            Ok(v) => v,
            Err(e) => {
                proof {
                    let j = choose|j: int| 0 <= j < sf.len() && repeats_earlier(sf, j);
                    let i = choose|i: int| 0 <= i < j && (#[trigger] sf[i]).key() == sf[j].key();
                    assert(!keys_distinct(sf));
                }
                return Err(e);
            },
        };
        let decisions = match keyed_decisions(&snapshot.decisions) {
            Ok(v) => v,
            Err(e) => {
                proof {
                    let j = choose|j: int| 0 <= j < sd.len() && repeats_earlier(sd, j);
                    let i = choose|i: int| 0 <= i < j && (#[trigger] sd[i]).key() == sd[j].key();
                    assert(!keys_distinct(sd));
                }
                return Err(e);
            },
        };
        let records = match keyed_records(snapshot.authority_records) {
            Ok(v) => v,
            Err(e) => {
                proof {
                    let j = choose|j: int| 0 <= j < sr.len() && repeats_earlier(sr, j);
                    let i = choose|i: int| 0 <= i < j && (#[trigger] sr[i]).key() == sr[j].key();
                    assert(!keys_distinct(sr));
                }
                return Err(e);
            },
        };
        proof {
            assert(facts_rebuilt(facts@, sf));
            assert(decisions_rebuilt(decisions@, sd));
            assert(records_rebuilt(records@, sr));
            lemma_rebuilt_closed(facts@, decisions@, records@, sf, sd, sr);
        }
        match check_facts_closed(&facts, &records) {
            Ok(()) => {},
            Err(e) => {
                proof {
                    lemma_parts_unclosed(facts@, decisions@, records@);
                }
                return Err(e);
            },
        }
        let referenced = match check_records_closed(&facts, &decisions, &records) {
            Ok(v) => v,
            Err(e) => {
                proof {
                    lemma_parts_unclosed(facts@, decisions@, records@);
                }
                return Err(e);
            },
        };
        match check_decisions_referenced(&decisions, &referenced, Ghost(records@)) {
            Ok(()) => {},
            Err(e) => {
                proof {
                    lemma_parts_unclosed(facts@, decisions@, records@);
                }
                return Err(e);
            },
        }
        let ledger = AdmissionLedger { facts, decisions, authorities: records };
        assert(ledger.wf());
        match ledger.check_derived_inputs() {
            Ok(()) => {},
            Err(e) => {
                proof {
                    lemma_parts_unclosed(ledger.facts(), ledger.decisions(), ledger.records());
                }
                return Err(e);
            },
        }
        proof {
            lemma_parts_closed(ledger.facts(), ledger.decisions(), ledger.records());
        }
        Ok(ledger)
    }
}

/// Parts meeting each closure condition close over each other.
proof fn lemma_parts_closed(facts: Seq<Fact>, decisions: Seq<AdmissionDecision>, records: Seq<AuthorityRecord>)
    requires
        forall|i: int| 0 <= i < facts.len() ==> fact_refusal(#[trigger] facts[i]) is None && has_record_of(records, facts[i].id@),
        forall|j: int|
            0 <= j < records.len() ==> record_fault(#[trigger] records[j]) is None && fact_held(facts, records[j].fact)
                && decision_held(decisions, records[j]),
        forall|i: int| 0 <= i < decisions.len() ==> carried(records, (#[trigger] decisions[i]).decision_id@),
        forall|j: int|
            0 <= j < records.len() ==> match (#[trigger] records[j]).basis {
                AuthorityBasis::Derived { invocation, .. } => first_link_fault_in(facts, records, invocation.inputs@, 0) is None,
                AuthorityBasis::Source { .. } => true,
            },
    ensures
        parts_closed(facts, decisions, records),
{
    reveal(parts_closed);
}

/// Parts failing one closure condition do not close over each other.
proof fn lemma_parts_unclosed(facts: Seq<Fact>, decisions: Seq<AdmissionDecision>, records: Seq<AuthorityRecord>)
    requires
        (exists|i: int| 0 <= i < facts.len() && (fact_refusal(#[trigger] facts[i]) is Some || !has_record_of(records, facts[i].id@)))
            || (exists|j: int|
            0 <= j < records.len() && (record_fault(#[trigger] records[j]) is Some || !fact_held(facts, records[j].fact)
                || !decision_held(decisions, records[j]))) || (exists|i: int|
            0 <= i < decisions.len() && !carried(records, (#[trigger] decisions[i]).decision_id@)) || (exists|j: int|
            0 <= j < records.len() && match (#[trigger] records[j]).basis {
                AuthorityBasis::Derived { invocation, .. } => first_link_fault_in(facts, records, invocation.inputs@, 0) is Some,
                AuthorityBasis::Source { .. } => false,
            }),
    ensures
        !parts_closed(facts, decisions, records),
{
    reveal(parts_closed);
}

/// Facts, decisions and records that close over each other: every fact
/// is valid and held by a record; every record is valid and its fact and
/// decision are held as the same documents; every decision is carried by
/// a record; and the inputs of every derived record resolve to the facts
/// they carry.
#[verifier::opaque]
pub open spec fn parts_closed(facts: Seq<Fact>, decisions: Seq<AdmissionDecision>, records: Seq<AuthorityRecord>) -> bool {
    &&& forall|i: int|
        0 <= i < facts.len() ==> fact_refusal(#[trigger] facts[i]) is None && has_record_of(records, facts[i].id@)
    &&& forall|j: int|
        0 <= j < records.len() ==> record_fault(#[trigger] records[j]) is None && fact_held(facts, records[j].fact)
            && decision_held(decisions, records[j])
    &&& forall|i: int| 0 <= i < decisions.len() ==> carried(records, (#[trigger] decisions[i]).decision_id@)
    &&& forall|j: int|
        0 <= j < records.len() ==> match (#[trigger] records[j]).basis {
            AuthorityBasis::Derived { invocation, .. } => first_link_fault_in(facts, records, invocation.inputs@, 0) is None,
            AuthorityBasis::Source { .. } => true,
        }
}

/// A snapshot a ledger can be rebuilt from, beyond its own validity: no
/// identity occurs twice among its facts, decisions or records, and they
/// close over each other.
pub open spec fn snapshot_closed(s: AdmissionSnapshot) -> bool {
    &&& keys_distinct(s.facts@)
    &&& keys_distinct(s.decisions@)
    &&& keys_distinct(s.authority_records@)
    &&& parts_closed(s.facts@, s.decisions@, s.authority_records@)
}

/// Keyed facts rebuilt from a snapshot's: the same identities, each a
/// copy of a snapshot fact of the same document and validity.
pub open spec fn facts_rebuilt(lf: Seq<Fact>, sf: Seq<Fact>) -> bool {
    &&& ascending(lf)
    &&& keys_distinct(sf)
    &&& forall|key: Seq<char>| has_key(lf, key) <==> has_key(sf, key)
    &&& forall|j: int| 0 <= j < sf.len() ==> fact_held(lf, #[trigger] sf[j])
    &&& facts_copied(lf, sf)
}

/// Keyed decisions rebuilt from a snapshot's: the same identities, each a
/// copy of the same document.
pub open spec fn decisions_rebuilt(ld: Seq<AdmissionDecision>, sd: Seq<AdmissionDecision>) -> bool {
    &&& ascending(ld)
    &&& keys_distinct(sd)
    &&& forall|key: Seq<char>| has_key(ld, key) <==> has_key(sd, key)
    &&& forall|j: int| 0 <= j < sd.len() ==> decision_doc(at_key(ld, (#[trigger] sd[j]).key())) == decision_doc(sd[j])
    &&& decisions_copied(ld, sd)
}

/// Keyed records rebuilt from a snapshot's: the very same records.
pub open spec fn records_rebuilt(lr: Seq<AuthorityRecord>, sr: Seq<AuthorityRecord>) -> bool {
    &&& ascending(lr)
    &&& keys_distinct(sr)
    &&& forall|y: AuthorityRecord| lr.contains(y) <==> sr.contains(y)
}

/// Where keys are distinct, an element is the one found by its key.
proof fn lemma_at_key_distinct<T: Keyed>(s: Seq<T>, i: int)
    requires
        keys_distinct(s),
        0 <= i < s.len(),
    ensures
        has_key(s, s[i].key()),
        at_key(s, s[i].key()) == s[i],
{
    assert(has_key(s, s[i].key()));
    let j = index_of_key(s, s[i].key());
    if j != i {
        if j < i {
            assert(s[j].key() != s[i].key());
        } else {
            assert(s[i].key() != s[j].key());
        }
    }
}

/// Facts are held alike, and found as the same documents, among rebuilt
/// and snapshot facts.
proof fn lemma_fact_lookup(lf: Seq<Fact>, sf: Seq<Fact>, id: Seq<char>)
    requires
        facts_rebuilt(lf, sf),
    ensures
        has_key(lf, id) == has_key(sf, id),
        has_key(sf, id) ==> fact_document(at_key(lf, id)) == fact_document(at_key(sf, id)),
{
    if has_key(sf, id) {
        let j = index_of_key(sf, id);
        lemma_at_key_distinct(sf, j);
        assert(fact_held(lf, sf[j]));
    }
}

/// Decisions are held alike among rebuilt and snapshot decisions.
proof fn lemma_decision_lookup(ld: Seq<AdmissionDecision>, sd: Seq<AdmissionDecision>, r: AuthorityRecord)
    requires
        decisions_rebuilt(ld, sd),
    ensures
        decision_held(ld, r) == decision_held(sd, r),
{
    let id = record_decision(r).decision_id@;
    if has_key(sd, id) {
        let j = index_of_key(sd, id);
        lemma_at_key_distinct(sd, j);
        assert(decision_doc(at_key(ld, sd[j].key())) == decision_doc(sd[j]));
    }
}

/// Records are found alike among rebuilt and snapshot records.
proof fn lemma_record_lookup(lr: Seq<AuthorityRecord>, sr: Seq<AuthorityRecord>, k: Seq<char>)
    requires
        records_rebuilt(lr, sr),
    ensures
        has_key(lr, k) == has_key(sr, k),
        has_key(sr, k) ==> at_key(lr, k) == at_key(sr, k),
        has_record_of(lr, k) == has_record_of(sr, k),
        carried(lr, k) == carried(sr, k),
{
    if has_key(lr, k) {
        let i = index_of_key(lr, k);
        assert(lr.contains(lr[i]));
        let j = choose|j: int| 0 <= j < sr.len() && sr[j] == lr[i];
        assert(sr[j].key() == k);
        lemma_at_key_distinct(sr, j);
    }
    if has_key(sr, k) {
        let i = index_of_key(sr, k);
        assert(sr.contains(sr[i]));
        let j = choose|j: int| 0 <= j < lr.len() && lr[j] == sr[i];
        assert(lr[j].key() == k);
    }
    if has_record_of(lr, k) {
        let i = choose|i: int| 0 <= i < lr.len() && (#[trigger] lr[i]).fact.id@ == k;
        assert(lr.contains(lr[i]));
        let j = choose|j: int| 0 <= j < sr.len() && sr[j] == lr[i];
        assert(sr[j].fact.id@ == k);
    }
    if has_record_of(sr, k) {
        let i = choose|i: int| 0 <= i < sr.len() && (#[trigger] sr[i]).fact.id@ == k;
        assert(sr.contains(sr[i]));
        let j = choose|j: int| 0 <= j < lr.len() && lr[j] == sr[i];
        assert(lr[j].fact.id@ == k);
    }
    if carried(lr, k) {
        let i = choose|i: int| 0 <= i < lr.len() && record_decision(#[trigger] lr[i]).decision_id@ == k;
        assert(lr.contains(lr[i]));
        let j = choose|j: int| 0 <= j < sr.len() && sr[j] == lr[i];
        assert(record_decision(sr[j]).decision_id@ == k);
    }
    if carried(sr, k) {
        let i = choose|i: int| 0 <= i < sr.len() && record_decision(#[trigger] sr[i]).decision_id@ == k;
        assert(sr.contains(sr[i]));
        let j = choose|j: int| 0 <= j < lr.len() && lr[j] == sr[i];
        assert(record_decision(lr[j]).decision_id@ == k);
    }
}

/// Linked inputs resolve alike among rebuilt and snapshot parts.
proof fn lemma_rebuilt_links(
    lf: Seq<Fact>,
    lr: Seq<AuthorityRecord>,
    sf: Seq<Fact>,
    sr: Seq<AuthorityRecord>,
    inputs: Seq<LinkedInput>,
    i: int,
)
    requires
        facts_rebuilt(lf, sf),
        records_rebuilt(lr, sr),
    ensures
        first_link_fault_in(lf, lr, inputs, i) == first_link_fault_in(sf, sr, inputs, i),
    decreases inputs.len() - i,
{
    if 0 <= i < inputs.len() {
        let a = inputs[i].admitted;
        lemma_record_lookup(lr, sr, a.authority_record_id@);
        lemma_fact_lookup(lf, sf, a.fact_id@);
        assert(resolve_fault_in(lf, lr, a) == resolve_fault_in(sf, sr, a));
        lemma_rebuilt_links(lf, lr, sf, sr, inputs, i + 1);
    }
}

/// A record closes over rebuilt parts exactly when it closes over the
/// snapshot's.
proof fn lemma_record_closes(
    lf: Seq<Fact>,
    ld: Seq<AdmissionDecision>,
    lr: Seq<AuthorityRecord>,
    sf: Seq<Fact>,
    sd: Seq<AdmissionDecision>,
    sr: Seq<AuthorityRecord>,
    rec: AuthorityRecord,
)
    requires
        facts_rebuilt(lf, sf),
        decisions_rebuilt(ld, sd),
        records_rebuilt(lr, sr),
    ensures
        fact_held(lf, rec.fact) == fact_held(sf, rec.fact),
        decision_held(ld, rec) == decision_held(sd, rec),
        match rec.basis {
            AuthorityBasis::Derived { invocation, .. } => first_link_fault_in(lf, lr, invocation.inputs@, 0)
                == first_link_fault_in(sf, sr, invocation.inputs@, 0),
            AuthorityBasis::Source { .. } => true,
        },
{
    lemma_fact_lookup(lf, sf, rec.fact.id@);
    lemma_decision_lookup(ld, sd, rec);
    match rec.basis {
        AuthorityBasis::Derived { invocation, .. } => {
            lemma_rebuilt_links(lf, lr, sf, sr, invocation.inputs@, 0);
        },
        AuthorityBasis::Source { .. } => {},
    }
}

/// Rebuilt parts close over each other exactly when the snapshot's do.
#[verifier::spinoff_prover]
#[verifier::rlimit(60)]
proof fn lemma_rebuilt_closed(
    lf: Seq<Fact>,
    ld: Seq<AdmissionDecision>,
    lr: Seq<AuthorityRecord>,
    sf: Seq<Fact>,
    sd: Seq<AdmissionDecision>,
    sr: Seq<AuthorityRecord>,
)
    requires
        facts_rebuilt(lf, sf),
        decisions_rebuilt(ld, sd),
        records_rebuilt(lr, sr),
    ensures
        parts_closed(lf, ld, lr) == parts_closed(sf, sd, sr),
{
    reveal(parts_closed);
    reveal(facts_copied);
    reveal(decisions_copied);
    let fl = forall|i: int| 0 <= i < lf.len() ==> fact_refusal(#[trigger] lf[i]) is None && has_record_of(lr, lf[i].id@);
    let fs = forall|i: int| 0 <= i < sf.len() ==> fact_refusal(#[trigger] sf[i]) is None && has_record_of(sr, sf[i].id@);
    assert(fl == fs) by {
        if fl {
            assert forall|j: int| 0 <= j < sf.len() implies fact_refusal(#[trigger] sf[j]) is None && has_record_of(
                sr,
                sf[j].id@,
            ) by {
                lemma_fact_lookup(lf, sf, sf[j].key());
                let i = index_of_key(lf, sf[j].key());
                lemma_record_lookup(lr, sr, sf[j].id@);
                let w = choose|w: int|
                    0 <= w < sf.len() && (#[trigger] lf[i]).id@ == (#[trigger] sf[w]).id@ && fact_document(lf[i])
                        == fact_document(sf[w]) && fact_refusal(lf[i]) == fact_refusal(sf[w]);
                if w != j {
                    if w < j {
                        assert(sf[w].key() != sf[j].key());
                    } else {
                        assert(sf[j].key() != sf[w].key());
                    }
                }
            }
        }
        if fs {
            assert forall|i: int| 0 <= i < lf.len() implies fact_refusal(#[trigger] lf[i]) is None && has_record_of(
                lr,
                lf[i].id@,
            ) by {
                let w = choose|w: int|
                    0 <= w < sf.len() && (#[trigger] lf[i]).id@ == (#[trigger] sf[w]).id@ && fact_document(lf[i])
                        == fact_document(sf[w]) && fact_refusal(lf[i]) == fact_refusal(sf[w]);
                lemma_record_lookup(lr, sr, lf[i].id@);
            }
        }
    }
    let rl = forall|j: int|
        0 <= j < lr.len() ==> record_fault(#[trigger] lr[j]) is None && fact_held(lf, lr[j].fact) && decision_held(ld, lr[j])
            && match lr[j].basis {
            AuthorityBasis::Derived { invocation, .. } => first_link_fault_in(lf, lr, invocation.inputs@, 0) is None,
            AuthorityBasis::Source { .. } => true,
        };
    let rs = forall|j: int|
        0 <= j < sr.len() ==> record_fault(#[trigger] sr[j]) is None && fact_held(sf, sr[j].fact) && decision_held(sd, sr[j])
            && match sr[j].basis {
            AuthorityBasis::Derived { invocation, .. } => first_link_fault_in(sf, sr, invocation.inputs@, 0) is None,
            AuthorityBasis::Source { .. } => true,
        };
    assert(rl == rs) by {
        if rl {
            assert forall|j: int| 0 <= j < sr.len() implies record_fault(#[trigger] sr[j]) is None && fact_held(
                sf,
                sr[j].fact,
            ) && decision_held(sd, sr[j]) && match sr[j].basis {
                AuthorityBasis::Derived { invocation, .. } => first_link_fault_in(sf, sr, invocation.inputs@, 0) is None,
                AuthorityBasis::Source { .. } => true,
            } by {
                assert(sr.contains(sr[j]));
                let i = choose|i: int| 0 <= i < lr.len() && lr[i] == sr[j];
                lemma_record_closes(lf, ld, lr, sf, sd, sr, sr[j]);
            }
        }
        if rs {
            assert forall|i: int| 0 <= i < lr.len() implies record_fault(#[trigger] lr[i]) is None && fact_held(
                lf,
                lr[i].fact,
            ) && decision_held(ld, lr[i]) && match lr[i].basis {
                AuthorityBasis::Derived { invocation, .. } => first_link_fault_in(lf, lr, invocation.inputs@, 0) is None,
                AuthorityBasis::Source { .. } => true,
            } by {
                assert(lr.contains(lr[i]));
                let j = choose|j: int| 0 <= j < sr.len() && sr[j] == lr[i];
                lemma_record_closes(lf, ld, lr, sf, sd, sr, lr[i]);
            }
        }
    }
    let dl = forall|i: int| 0 <= i < ld.len() ==> carried(lr, (#[trigger] ld[i]).decision_id@);
    let ds = forall|i: int| 0 <= i < sd.len() ==> carried(sr, (#[trigger] sd[i]).decision_id@);
    assert(dl == ds) by {
        if dl {
            assert forall|j: int| 0 <= j < sd.len() implies carried(sr, (#[trigger] sd[j]).decision_id@) by {
                assert(has_key(ld, sd[j].key()));
                let i = index_of_key(ld, sd[j].key());
                lemma_record_lookup(lr, sr, sd[j].decision_id@);
            }
        }
        if ds {
            assert forall|i: int| 0 <= i < ld.len() implies carried(lr, (#[trigger] ld[i]).decision_id@) by {
                let w = choose|w: int|
                    0 <= w < sd.len() && (#[trigger] ld[i]).decision_id@ == (#[trigger] sd[w]).decision_id@ && decision_doc(
                        ld[i],
                    ) == decision_doc(sd[w]);
                lemma_record_lookup(lr, sr, ld[i].decision_id@);
            }
        }
    }
    assert(parts_closed(lf, ld, lr) == (fl && rl && dl));
    assert(parts_closed(sf, sd, sr) == (fs && rs && ds));
}

/// A snapshot holds a ledger's facts, decisions and records, in the
/// ledger's order, by identity and document (a record by its identity and
/// the document and identity of its fact).
pub open spec fn exports_to(l: AdmissionLedger, s: AdmissionSnapshot) -> bool {
    &&& snapshot_fault(s) is None
    &&& s.facts@.len() == l.facts().len()
    &&& forall|i: int|
        0 <= i < s.facts@.len() ==> fact_document(#[trigger] s.facts@[i]) == fact_document(l.facts()[i]) && s.facts@[i].id@
            == l.facts()[i].id@
    &&& s.decisions@.len() == l.decisions().len()
    &&& forall|i: int|
        0 <= i < s.decisions@.len() ==> decision_doc(#[trigger] s.decisions@[i]) == decision_doc(l.decisions()[i])
            && s.decisions@[i].decision_id@ == l.decisions()[i].decision_id@
    &&& s.authority_records@.len() == l.records().len()
    &&& forall|i: int|
        0 <= i < s.authority_records@.len() ==> (#[trigger] s.authority_records@[i]).authority_record_id@
            == l.records()[i].authority_record_id@ && fact_document(s.authority_records@[i].fact) == fact_document(
            l.records()[i].fact,
        ) && s.authority_records@[i].fact.id@ == l.records()[i].fact.id@
}

/// A ledger rebuilt from a valid snapshot: well formed and closed, with
/// exactly the snapshot's identities, every snapshot fact held as the same
/// document, and every snapshot record kept with a fact of the same
/// identity.
pub open spec fn rebuilt_from(l: AdmissionLedger, s: AdmissionSnapshot) -> bool {
    &&& l.wf()
    &&& closed_ledger(l)
    &&& snapshot_fault(s) is None
    &&& forall|key: Seq<char>| has_key(l.facts(), key) <==> has_key(s.facts@, key)
    &&& forall|key: Seq<char>| has_key(l.decisions(), key) <==> has_key(s.decisions@, key)
    &&& forall|key: Seq<char>| has_key(l.records(), key) <==> has_key(s.authority_records@, key)
    &&& forall|j: int| 0 <= j < s.facts@.len() ==> fact_held(l.facts(), #[trigger] s.facts@[j])
    &&& forall|j: int|
        0 <= j < s.authority_records@.len() ==> record_fact_kept(l.records(), #[trigger] s.authority_records@[j])
}

/// The ledger rebuilt from a ledger's snapshot holds exactly the same
/// fact, decision and record identities, and every fact as the same
/// document.
pub proof fn lemma_rebuild_keeps_contents(l: AdmissionLedger, s: AdmissionSnapshot, rebuilt: AdmissionLedger)
    requires
        exports_to(l, s),
        rebuilt_from(rebuilt, s),
    ensures
        forall|key: Seq<char>| has_key(rebuilt.facts(), key) <==> has_key(l.facts(), key),
        forall|key: Seq<char>| has_key(rebuilt.decisions(), key) <==> has_key(l.decisions(), key),
        forall|key: Seq<char>| has_key(rebuilt.records(), key) <==> has_key(l.records(), key),
        forall|i: int| 0 <= i < l.facts().len() ==> fact_held(rebuilt.facts(), #[trigger] l.facts()[i]),
{
    assert forall|key: Seq<char>| has_key(rebuilt.facts(), key) <==> has_key(l.facts(), key) by {
        if has_key(l.facts(), key) {
            let i = choose|i: int| 0 <= i < l.facts().len() && (#[trigger] l.facts()[i]).key() == key;
            assert(s.facts@[i].key() == key);
        }
        if has_key(s.facts@, key) {
            let i = choose|i: int| 0 <= i < s.facts@.len() && (#[trigger] s.facts@[i]).key() == key;
            assert(l.facts()[i].key() == key);
        }
    }
    assert forall|key: Seq<char>| has_key(rebuilt.decisions(), key) <==> has_key(l.decisions(), key) by {
        if has_key(l.decisions(), key) {
            let i = choose|i: int| 0 <= i < l.decisions().len() && (#[trigger] l.decisions()[i]).key() == key;
            assert(s.decisions@[i].key() == key);
        }
        if has_key(s.decisions@, key) {
            let i = choose|i: int| 0 <= i < s.decisions@.len() && (#[trigger] s.decisions@[i]).key() == key;
            assert(l.decisions()[i].key() == key);
        }
    }
    assert forall|key: Seq<char>| has_key(rebuilt.records(), key) <==> has_key(l.records(), key) by {
        if has_key(l.records(), key) {
            let i = choose|i: int| 0 <= i < l.records().len() && (#[trigger] l.records()[i]).key() == key;
            assert(s.authority_records@[i].key() == key);
        }
        if has_key(s.authority_records@, key) {
            let i = choose|i: int| 0 <= i < s.authority_records@.len() && (#[trigger] s.authority_records@[i]).key() == key;
            assert(l.records()[i].key() == key);
        }
    }
    assert forall|i: int| 0 <= i < l.facts().len() implies fact_held(rebuilt.facts(), #[trigger] l.facts()[i]) by {
        assert(fact_held(rebuilt.facts(), s.facts@[i]));
    }
}

/// Every reference that resolves in a ledger resolves in the ledger
/// rebuilt from its snapshot: a snapshot keeps every link.
#[verifier::rlimit(100)]
#[verifier::spinoff_prover]
pub proof fn lemma_rebuild_keeps_links(l: AdmissionLedger, s: AdmissionSnapshot, rebuilt: AdmissionLedger, r: AdmittedFactRef)
    requires
        l.wf(),
        exports_to(l, s),
        rebuilt_from(rebuilt, s),
        l.resolve_fault(r) is None,
    ensures
        rebuilt.resolve_fault(r) is None,
{
    let rid = r.authority_record_id@;
    let i = index_of_key(l.records(), rid);
    lemma_index_of_key(l.records(), i);
    assert(l.records()[i].key() == rid);
    assert(s.authority_records@[i].key() == rid);
    assert(has_key(s.authority_records@, rid));
    assert(record_fact_kept(rebuilt.records(), s.authority_records@[i]));
    assert(has_key(rebuilt.records(), rid));
    let j = index_of_key(rebuilt.records(), rid);
    let rec = rebuilt.records()[j];
    assert(rec == at_key(rebuilt.records(), rid));
    assert(rec.fact.id@ == r.fact_id@);
    assert(fact_held(rebuilt.facts(), rec.fact));
}

/// A policy that accepts no authority admits nothing: every assessment
/// and every observation is withheld under it.
pub proof fn lemma_default_deny_withholds(p: AdmissionPolicy, a: ConformanceAssessment, o: SourceObservation)
    requires
        p.accepted_conformance@.len() == 0,
        p.accepted_observations@.len() == 0,
    ensures
        assessment_verdict(p, a) != VerdictKind::Admit,
        observation_verdict(p, o) != VerdictKind::Admit,
{
    assert(!crate::admission::accepts_conformance(p, a.authority));
    assert(!crate::admission::accepts_observation(p, o.authority));
}

/// A reference resolves only through the exact record it names: that
/// record exists, holds the referenced fact, and the stored fact is the
/// same document; the record itself is valid.
pub proof fn lemma_resolution_is_explicit(l: AdmissionLedger, r: AdmittedFactRef)
    requires
        l.wf(),
        l.resolve_fault(r) is None,
    ensures
        has_key(l.records(), r.authority_record_id@),
        at_key(l.records(), r.authority_record_id@).fact.id@ == r.fact_id@,
        has_key(l.facts(), r.fact_id@),
        fact_document(at_key(l.facts(), r.fact_id@)) == fact_document(at_key(l.records(), r.authority_record_id@).fact),
        record_fault(at_key(l.records(), r.authority_record_id@)) is None,
{
    let i = index_of_key(l.records(), r.authority_record_id@);
    assert(record_fault(l.records()[i]) is None);
}

/// Admission only adds: whatever reference resolved before an admission,
/// successful or not, resolves afterwards to the same fact.
pub proof fn lemma_admission_keeps_resolution(before: AdmissionLedger, after: AdmissionLedger, r: AdmittedFactRef)
    requires
        before.wf(),
        after.wf(),
        before.extended_by(after),
        before.resolve_fault(r) is None,
    ensures
        after.resolve_fault(r) is None,
        at_key(after.facts(), r.fact_id@) == at_key(before.facts(), r.fact_id@),
        at_key(after.records(), r.authority_record_id@) == at_key(before.records(), r.authority_record_id@),
{
    lemma_held_after_insert(before.records(), after.records(), r.authority_record_id@);
    lemma_held_after_insert(before.facts(), after.facts(), r.fact_id@);
}

} // verus!
