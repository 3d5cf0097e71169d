//! One content-identified semantic value: its identity covers exactly the
//! value kind, the payload and every preserved semantic extension, and
//! nothing about provenance, coverage, conformance or admission.

use vstd::prelude::*;
use crate::capability::{first_reserved, id_doc, id_json, reserved_key};
use crate::digest::{content_id, json_content_id};
use crate::identity::{ExactId, FactId, FactIdentityError, IdView, id_well_formed, is_sha256_identity, is_sha256_text, render_id};
use crate::json::{Json, JsonMember, JsonValue, copy_json, json_object, json_text, key_views, value_views};
use crate::text::owned;

verus! {

/// One content-identified semantic value.
#[derive(Clone, Debug, PartialEq, Eq)]
pub struct Fact {
    pub id: FactId,
    pub value_kind: ExactId,
    pub payload: JsonValue,
    /// Namespaced semantic data unknown to this version, kept unchanged.
    pub extensions: Vec<JsonMember>,
}

/// Mathematical form of a fact refusal.
pub enum FactFault {
    Malformed(Seq<char>),
    InvalidValueKind(IdView),
    ReservedExtension(Seq<char>),
    Serialization(Seq<char>),
    IdentityMismatch(Seq<char>, Seq<char>),
}

pub open spec fn fact_fault_of(e: FactIdentityError) -> FactFault {
    match e {
        FactIdentityError::Malformed(v) => FactFault::Malformed(v@),
        FactIdentityError::InvalidValueKind(k) => FactFault::InvalidValueKind(k@),
        FactIdentityError::ReservedExtension(k) => FactFault::ReservedExtension(k@),
        FactIdentityError::Serialization(m) => FactFault::Serialization(m@),
        FactIdentityError::IdentityMismatch { expected, actual } => FactFault::IdentityMismatch(expected@, actual@),
    }
}

/// The fields an extension may not shadow.
pub open spec fn fact_fields() -> Seq<Seq<char>> {
    seq!["id"@, "value_kind"@, "payload"@]
}

/// Why a value kind and extensions cannot make a fact: a malformed kind,
/// or an extension that shadows a field.
pub open spec fn fact_parts_fault(kind: IdView, extensions: Seq<JsonMember>) -> Option<FactFault> {
    if !id_well_formed(kind) {
        Some(FactFault::InvalidValueKind(kind))
    } else {
        match first_reserved(fact_fields(), key_views(extensions)) {
            Some(k) => Some(FactFault::ReservedExtension(k)),
            None => None,
        }
    }
}

/// The document a fact's identity is derived from: its value kind, its
/// payload and its extensions.
pub open spec fn fact_envelope(kind: IdView, payload: Json, extensions: Seq<JsonMember>) -> Json {
    Json::Object(
        seq!["value_kind"@, "payload"@] + key_views(extensions),
        seq![id_doc(kind), payload] + value_views(extensions),
    )
}

/// The complete document of a fact, identity included.
pub open spec fn fact_document(f: Fact) -> Json {
    Json::Object(
        seq!["id"@, "value_kind"@, "payload"@] + key_views(f.extensions@),
        seq![Json::Str(f.id@), id_doc(f.value_kind@), f.payload@] + value_views(f.extensions@),
    )
}

pub open spec fn fact_serialization_msg() -> Seq<char> {
    "canonical JSON serialization failed"@
}

/// Why a fact with these parts cannot be identified, or nothing.
pub open spec fn identity_fault(kind: IdView, payload: Json, extensions: Seq<JsonMember>) -> Option<FactFault> {
    match fact_parts_fault(kind, extensions) {
        Some(f) => Some(f),
        None => if content_id(fact_envelope(kind, payload, extensions)) is None {
            Some(FactFault::Serialization(fact_serialization_msg()))
        } else {
            None
        },
    }
}

/// A fact is valid: its identity is exact and is the content identity of
/// its envelope.
pub open spec fn fact_valid(f: Fact) -> bool {
    &&& is_sha256_text(f.id@)
    &&& identity_fault(f.value_kind@, f.payload@, f.extensions@) is None
    &&& content_id(fact_envelope(f.value_kind@, f.payload@, f.extensions@)) == Some(f.id@)
}

/// Why a fact is refused on revalidation, or nothing: a malformed
/// identity, a fault of its parts, or an identity that is not the content
/// identity of its envelope.
pub open spec fn fact_refusal(f: Fact) -> Option<FactFault> {
    if !is_sha256_text(f.id@) {
        Some(FactFault::Malformed(f.id@))
    } else {
        match identity_fault(f.value_kind@, f.payload@, f.extensions@) {
            Some(x) => Some(x),
            None => {
                let expected = content_id(fact_envelope(f.value_kind@, f.payload@, f.extensions@)).unwrap();
                if expected == f.id@ {
                    None
                } else {
                    Some(FactFault::IdentityMismatch(expected, f.id@))
                }
            },
        }
    }
}

/// The message of a fact refusal.
pub open spec fn fact_fault_text(f: FactFault) -> Seq<char> {
    match f {
        FactFault::Malformed(v) => "`"@ + v + "` is not a SHA-256 fact identity"@,
        FactFault::InvalidValueKind(k) => "`"@ + render_id(k) + "` is not a valid value kind"@,
        FactFault::ReservedExtension(k) => "semantic extension `"@ + k + "` shadows a fact field"@,
        FactFault::Serialization(e) => "fact serialization failed: "@ + e,
        FactFault::IdentityMismatch(expected, actual) => "fact identity mismatch: expected "@ + expected + ", got "@
            + actual,
    }
}

/// Refuses a malformed value kind and an extension shadowing a field.
pub fn validate_fact_parts(kind: &ExactId, extensions: &Vec<JsonMember>) -> (r: Result<(), FactIdentityError>)
    ensures
        r is Ok <==> fact_parts_fault(kind@, extensions@) is None,
        r matches Err(e) ==> fact_parts_fault(kind@, extensions@) == Some(fact_fault_of(e)),
{
    if !kind.is_well_formed() {
        return Err(FactIdentityError::InvalidValueKind(kind.duplicate()));
    }
    let fields: [&str; 3] = ["id", "value_kind", "payload"];
    assert(Seq::new(fields@.len(), |k: int| fields@[k]@) =~= fact_fields());
    match reserved_key(fields.as_slice(), extensions) {
        Some(k) => Err(FactIdentityError::ReservedExtension(owned(k))),
        None => Ok(()),
    }
}

fn copy_members(v: &Vec<JsonMember>) -> (r: Vec<JsonMember>)
    ensures
        key_views(r@) == key_views(v@),
        value_views(r@) == value_views(v@),
{
    let mut out: Vec<JsonMember> = Vec::new();
    let mut i: usize = 0;
    while i < v.len()
        invariant
            i <= v.len(),
            key_views(out@) == key_views(v@).subrange(0, i as int),
            value_views(out@) == value_views(v@).subrange(0, i as int),
        decreases v.len() - i,
    {
        let ghost before = out@;
        out.push(JsonMember { key: v[i].key.clone(), value: copy_json(&v[i].value) });
        assert(key_views(out@) =~= key_views(v@).subrange(0, i + 1)) by {
            assert(key_views(out@) =~= key_views(before).push(v@[i as int].key@));
        }
        assert(value_views(out@) =~= value_views(v@).subrange(0, i + 1)) by {
            assert(value_views(out@) =~= value_views(before).push(v@[i as int].value@));
        }
        i = i + 1;
    }
    assert(key_views(v@).subrange(0, v.len() as int) =~= key_views(v@));
    assert(value_views(v@).subrange(0, v.len() as int) =~= value_views(v@));
    out
}

/// Equal, separately owned members.
pub fn copy_members_pub(v: &Vec<JsonMember>) -> (r: Vec<JsonMember>)
    ensures
        key_views(r@) == key_views(v@),
        value_views(r@) == value_views(v@),
{
    copy_members(v)
}

/// Appends the members to an object under construction.
pub(crate) fn push_members(members: &mut Vec<JsonMember>, extra: &Vec<JsonMember>)
    ensures
        key_views(final(members)@) == key_views(old(members)@) + key_views(extra@),
        value_views(final(members)@) == value_views(old(members)@) + value_views(extra@),
{
    let copy = copy_members(extra);
    let ghost k0 = key_views(members@);
    let ghost v0 = value_views(members@);
    let mut i: usize = 0;
    while i < copy.len()
        invariant
            i <= copy.len(),
            key_views(members@) == k0 + key_views(copy@).subrange(0, i as int),
            value_views(members@) == v0 + value_views(copy@).subrange(0, i as int),
        decreases copy.len() - i,
    {
        let ghost before = members@;
        members.push(JsonMember { key: copy[i].key.clone(), value: copy_json(&copy[i].value) });
        assert(key_views(members@) =~= k0 + key_views(copy@).subrange(0, i + 1)) by {
            assert(key_views(members@) =~= key_views(before).push(copy@[i as int].key@));
        }
        assert(value_views(members@) =~= v0 + value_views(copy@).subrange(0, i + 1)) by {
            assert(value_views(members@) =~= value_views(before).push(copy@[i as int].value@));
        }
        i = i + 1;
    }
    assert(key_views(copy@).subrange(0, copy.len() as int) =~= key_views(copy@));
    assert(value_views(copy@).subrange(0, copy.len() as int) =~= value_views(copy@));
}

fn envelope_json(kind: &ExactId, payload: &JsonValue, extensions: &Vec<JsonMember>) -> (r: JsonValue)
    ensures
        r@ == fact_envelope(kind@, payload@, extensions@),
{
    let mut m: Vec<JsonMember> = Vec::new();
    assert(key_views(m@) =~= Seq::<Seq<char>>::empty());
    assert(value_views(m@) =~= Seq::<Json>::empty());
    crate::json::push_member(&mut m, "value_kind", id_json(kind));
    crate::json::push_member(&mut m, "payload", copy_json(payload));
    assert(key_views(m@) =~= seq!["value_kind"@, "payload"@]);
    assert(value_views(m@) =~= seq![id_doc(kind@), payload@]);
    push_members(&mut m, extensions);
    json_object(m)
}

/// The document of a fact, identity included.
pub fn fact_json(f: &Fact) -> (r: JsonValue)
    ensures
        r@ == fact_document(*f),
{
    let mut m: Vec<JsonMember> = Vec::new();
    assert(key_views(m@) =~= Seq::<Seq<char>>::empty());
    assert(value_views(m@) =~= Seq::<Json>::empty());
    crate::json::push_member(&mut m, "id", json_text(f.id.as_str()));
    crate::json::push_member(&mut m, "value_kind", id_json(&f.value_kind));
    crate::json::push_member(&mut m, "payload", copy_json(&f.payload));
    assert(key_views(m@) =~= seq!["id"@, "value_kind"@, "payload"@]);
    assert(value_views(m@) =~= seq![Json::Str(f.id@), id_doc(f.value_kind@), f.payload@]);
    push_members(&mut m, &f.extensions);
    json_object(m)
}

/// The identity of a fact with these parts: the content identity of its
/// envelope.
pub fn semantic_fact_digest(kind: &ExactId, payload: &JsonValue, extensions: &Vec<JsonMember>) -> (r: Result<FactId, FactIdentityError>)
    ensures
        r is Ok <==> identity_fault(kind@, payload@, extensions@) is None,
        r matches Ok(id) ==> Some(id@) == content_id(fact_envelope(kind@, payload@, extensions@)) && is_sha256_text(id@),
        r matches Err(e) ==> identity_fault(kind@, payload@, extensions@) == Some(fact_fault_of(e)),
{
    validate_fact_parts(kind, extensions)?;
    let doc = envelope_json(kind, payload, extensions);
    match json_content_id(&doc) {
        Some(id) => Ok(FactId::from_digest(id)),
        None => Err(FactIdentityError::Serialization(owned("canonical JSON serialization failed"))),
    }
}

impl Fact {
    /// A fact with no extensions.
    pub fn new(value_kind: ExactId, payload: JsonValue) -> (r: Result<Self, FactIdentityError>)
        ensures
            r is Ok <==> identity_fault(value_kind@, payload@, Seq::empty()) is None,
            r matches Ok(f) ==> fact_valid(f) && f.value_kind == value_kind && f.payload == payload && f.extensions@.len() == 0,
            r matches Err(e) ==> identity_fault(value_kind@, payload@, Seq::empty()) == Some(fact_fault_of(e)),
    {
        let extensions: Vec<JsonMember> = Vec::new();
        assert(extensions@ =~= Seq::<JsonMember>::empty());
        Fact::with_extensions(value_kind, payload, extensions)
    }

    /// A fact identified by its value kind, payload and extensions.
    pub fn with_extensions(value_kind: ExactId, payload: JsonValue, extensions: Vec<JsonMember>) -> (r: Result<Self, FactIdentityError>)
        ensures
            r is Ok <==> identity_fault(value_kind@, payload@, extensions@) is None,
            r matches Ok(f) ==> fact_valid(f) && f.value_kind == value_kind && f.payload == payload && f.extensions == extensions,
            r matches Err(e) ==> identity_fault(value_kind@, payload@, extensions@) == Some(fact_fault_of(e)),
    {
        let id = semantic_fact_digest(&value_kind, &payload, &extensions)?;
        Ok(Fact { id, value_kind, payload, extensions })
    }

    /// Revalidates the envelope and its content-derived identity.
    pub fn validate(&self) -> (r: Result<(), FactIdentityError>)
        ensures
            r is Ok <==> fact_valid(*self),
            r is Ok <==> fact_refusal(*self) is None,
            r matches Err(e) ==> fact_refusal(*self) == Some(fact_fault_of(e)),
            r matches Err(e) ==> !is_sha256_text(self.id@) ==> fact_fault_of(e) == FactFault::Malformed(self.id@),
            r matches Err(e) ==> is_sha256_text(self.id@) ==> match identity_fault(self.value_kind@, self.payload@, self.extensions@) {
                Some(f) => fact_fault_of(e) == f,
                None => fact_fault_of(e) == FactFault::IdentityMismatch(
                    content_id(fact_envelope(self.value_kind@, self.payload@, self.extensions@)).unwrap(),
                    self.id@,
                ),
            },
    {
        if !is_sha256_identity(self.id.as_str()) {
            return Err(FactIdentityError::Malformed(owned(self.id.as_str())));
        }
        let expected = semantic_fact_digest(&self.value_kind, &self.payload, &self.extensions)?;
        if !expected.same_as(&self.id) {
            return Err(FactIdentityError::IdentityMismatch { expected, actual: self.id.duplicate() });
        }
        Ok(())
    }

    /// An equal, separately owned fact.
    pub fn duplicate(&self) -> (r: Self)
        ensures
            r.id@ == self.id@,
            r.value_kind@ == self.value_kind@,
            r.payload@ == self.payload@,
            key_views(r.extensions@) == key_views(self.extensions@),
            value_views(r.extensions@) == value_views(self.extensions@),
            fact_valid(r) == fact_valid(*self),
            fact_refusal(r) == fact_refusal(*self),
            fact_document(r) == fact_document(*self),
    {
        Fact {
            id: self.id.duplicate(),
            value_kind: self.value_kind.duplicate(),
            payload: copy_json(&self.payload),
            extensions: copy_members(&self.extensions),
        }
    }
}

impl FactIdentityError {
    /// The message of this refusal.
    pub fn message(&self) -> (r: String)
        ensures
            r@ == fact_error_text(*self),
            r@ == fact_fault_text(fact_fault_of(*self)),
    {
        match self {
            FactIdentityError::Malformed(v) => {
                let mut m = owned("`");
                m.append(v.as_str());
                m.append("` is not a SHA-256 fact identity");
                m
            },
            FactIdentityError::InvalidValueKind(k) => {
                let mut m = owned("`");
                let t = k.render();
                m.append(t.as_str());
                m.append("` is not a valid value kind");
                m
            },
            FactIdentityError::ReservedExtension(k) => {
                let mut m = owned("semantic extension `");
                m.append(k.as_str());
                m.append("` shadows a fact field");
                m
            },
            FactIdentityError::Serialization(e) => {
                let mut m = owned("fact serialization failed: ");
                m.append(e.as_str());
                m
            },
            FactIdentityError::IdentityMismatch { expected, actual } => {
                let mut m = owned("fact identity mismatch: expected ");
                m.append(expected.as_str());
                m.append(", got ");
                m.append(actual.as_str());
                m
            },
        }
    }
}

/// The message of a fact refusal.
pub open spec fn fact_error_text(e: FactIdentityError) -> Seq<char> {
    match e {
        FactIdentityError::Malformed(v) => "`"@ + v@ + "` is not a SHA-256 fact identity"@,
        FactIdentityError::InvalidValueKind(k) => "`"@ + render_id(k@) + "` is not a valid value kind"@,
        FactIdentityError::ReservedExtension(k) => "semantic extension `"@ + k@ + "` shadows a fact field"@,
        FactIdentityError::Serialization(e) => "fact serialization failed: "@ + e@,
        FactIdentityError::IdentityMismatch { expected, actual } => "fact identity mismatch: expected "@ + expected@
            + ", got "@ + actual@,
    }
}

} // verus!
