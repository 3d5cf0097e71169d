//! Exact semantic identities (`package/name@version`), SHA-256 content
//! identities, fact identities and port names.

use vstd::prelude::*;
use crate::text::{chars_of, contains_char, has_char, has_control, has_control_chars, is_blank, is_blank_chars, is_trimmed, is_trimmed_chars, owned, string_from_chars};

verus! {

/// One segment of an exact identity: not blank and free of the two
/// separators, so that the rendered form reads back unambiguously.
pub open spec fn valid_segment(s: Seq<char>) -> bool {
    !is_blank(s) && !has_char(s, '/') && !has_char(s, '@')
}

/// The exact identity of a versioned semantic thing: a capability, provider,
/// value kind, implementation, suite, evidence kind or failure kind.
/// Versions never match implicitly; two identities are the same thing only
/// when all three parts are equal.
#[derive(Clone, Debug, PartialEq, Eq)]
pub struct ExactId {
    pub package: String,
    pub name: String,
    pub version: String,
}

pub type CapabilityId = ExactId;
pub type ProviderId = ExactId;
pub type ValueKindId = ExactId;
pub type FactType = ExactId;
pub type ImplementationId = ExactId;
pub type ConformanceSuiteId = ExactId;
pub type EvidenceKindId = ExactId;
pub type FailureKindId = ExactId;

/// Mathematical form of an exact identity.
pub struct IdView {
    pub package: Seq<char>,
    pub name: Seq<char>,
    pub version: Seq<char>,
}

pub open spec fn id_well_formed(id: IdView) -> bool {
    valid_segment(id.package) && valid_segment(id.name) && valid_segment(id.version)
}

/// `package/name@version`.
pub open spec fn render_id(id: IdView) -> Seq<char> {
    id.package + seq!['/'] + id.name + seq!['@'] + id.version
}

impl View for ExactId {
    type V = IdView;

    open spec fn view(&self) -> IdView {
        IdView { package: self.package@, name: self.name@, version: self.version@ }
    }
}

/// Index of the first occurrence of `c` at or after `from`, if any.
pub open spec fn first_index_from(s: Seq<char>, c: char, from: int) -> Option<int>
    decreases s.len() - from,
{
    if from < 0 || from >= s.len() {
        None
    } else if s[from] == c {
        Some(from)
    } else {
        first_index_from(s, c, from + 1)
    }
}

/// The identity that `text` spells, when it spells a well-formed one.
pub open spec fn parse_id(text: Seq<char>) -> Option<IdView> {
    match first_index_from(text, '/', 0) {
        None => None,
        Some(i) => match first_index_from(text, '@', i + 1) {
            None => None,
            Some(j) => {
                let id = IdView {
                    package: text.subrange(0, i),
                    name: text.subrange(i + 1, j),
                    version: text.subrange(j + 1, text.len() as int),
                };
                if id_well_formed(id) { Some(id) } else { None }
            },
        },
    }
}

pub proof fn lemma_first_index_from(s: Seq<char>, c: char, from: int)
    requires
        0 <= from,
    ensures
        first_index_from(s, c, from) matches Some(i) ==> from <= i < s.len() && s[i] == c
            && forall|k: int| from <= k < i ==> s[k] != c,
        first_index_from(s, c, from) is None ==> forall|k: int| from <= k < s.len() ==> s[k] != c,
    decreases s.len() - from,
{
    if from < s.len() && s[from] != c {
        lemma_first_index_from(s, c, from + 1);
    }
}

pub proof fn lemma_first_index_is(s: Seq<char>, c: char, from: int, i: int)
    requires
        0 <= from <= i < s.len(),
        s[i] == c,
        forall|k: int| from <= k < i ==> s[k] != c,
    ensures
        first_index_from(s, c, from) == Some(i),
    decreases i - from,
{
    if from < i {
        lemma_first_index_is(s, c, from + 1, i);
    }
}

/// Reading back a rendered well-formed identity gives the same identity.
pub proof fn lemma_parse_render(id: IdView)
    requires
        id_well_formed(id),
    ensures
        parse_id(render_id(id)) == Some(id),
{
    let t = render_id(id);
    let i = id.package.len() as int;
    let j = i + 1 + id.name.len();
    assert forall|k: int| 0 <= k < i implies t[k] != '/' by {
        assert(t[k] == id.package[k]);
    }
    assert(t[i] == '/');
    lemma_first_index_is(t, '/', 0, i);
    assert forall|k: int| i + 1 <= k < j implies t[k] != '@' by {
        assert(t[k] == id.name[k - i - 1]);
    }
    assert(t[j] == '@');
    lemma_first_index_is(t, '@', i + 1, j);
    assert(t.subrange(0, i) =~= id.package);
    assert(t.subrange(i + 1, j) =~= id.name);
    assert(t.subrange(j + 1, t.len() as int) =~= id.version);
}

/// Whatever parses renders back to exactly the parsed text.
pub proof fn lemma_render_parse(text: Seq<char>)
    requires
        parse_id(text) is Some,
    ensures
        render_id(parse_id(text).unwrap()) == text,
        id_well_formed(parse_id(text).unwrap()),
{
    lemma_first_index_from(text, '/', 0);
    let i = first_index_from(text, '/', 0).unwrap();
    lemma_first_index_from(text, '@', i + 1);
    let id = parse_id(text).unwrap();
    assert(render_id(id) =~= text);
}

fn find_char_from(s: &Vec<char>, c: char, from: usize) -> (r: Option<usize>)
    requires
        from <= s.len(),
    ensures
        r matches Some(i) ==> first_index_from(s@, c, from as int) == Some(i as int),
        r is None ==> first_index_from(s@, c, from as int) is None,
{
    let mut i = from;
    while i < s.len()
        invariant
            from <= i <= s.len(),
            forall|k: int| from <= k < i ==> s@[k] != c,
        decreases s.len() - i,
    {
        if s[i] == c {
            proof {
                lemma_first_index_is(s@, c, from as int, i as int);
            }
            return Some(i);
        }
        i = i + 1;
    }
    proof {
        lemma_first_index_from(s@, c, from as int);
        if first_index_from(s@, c, from as int) is Some {
            let k = first_index_from(s@, c, from as int).unwrap();
            assert(s@[k] == c);
        }
    }
    None
}

fn sub_chars(s: &Vec<char>, from: usize, to: usize) -> (r: Vec<char>)
    requires
        from <= to <= s.len(),
    ensures
        r@ == s@.subrange(from as int, to as int),
{
    let mut r: Vec<char> = Vec::new();
    let mut i = from;
    while i < to
        invariant
            from <= i <= to <= s.len(),
            r@ == s@.subrange(from as int, i as int),
        decreases to - i,
    {
        r.push(s[i]);
        i = i + 1;
        assert(r@ =~= s@.subrange(from as int, i as int));
    }
    r
}

pub fn segment_is_valid(s: &Vec<char>) -> (r: bool)
    ensures
        r == valid_segment(s@),
{
    !is_blank_chars(s) && !contains_char(s, '/') && !contains_char(s, '@')
}

impl ExactId {
    pub fn new(package: &str, name: &str, version: &str) -> (id: Self)
        ensures
            id@ == (IdView { package: package@, name: name@, version: version@ }),
    {
        ExactId { package: owned(package), name: owned(name), version: owned(version) }
    }

    /// Every part is present, not blank, and free of `/` and `@`.
    pub fn is_well_formed(&self) -> (r: bool)
        ensures
            r == id_well_formed(self@),
    {
        segment_is_valid(&chars_of(self.package.as_str()))
            && segment_is_valid(&chars_of(self.name.as_str()))
            && segment_is_valid(&chars_of(self.version.as_str()))
    }

    /// The display form `package/name@version`.
    pub fn render(&self) -> (r: String)
        ensures
            r@ == render_id(self@),
    {
        let mut r = owned(self.package.as_str());
        r.append("/");
        r.append(self.name.as_str());
        r.append("@");
        r.append(self.version.as_str());
        proof {
            reveal_strlit("/");
            reveal_strlit("@");
        }
        assert(r@ =~= render_id(self@));
        r
    }

    /// Reads `package/name@version`; refuses any text that is not exactly
    /// the display form of one well-formed identity.
    pub fn parse(text: &str) -> (r: Option<Self>)
        ensures
            r matches Some(id) ==> Some(id@) == parse_id(text@),
            r is None ==> parse_id(text@) is None,
    {
        let s = chars_of(text);
        let i = match find_char_from(&s, '/', 0) {
            Some(i) => i,
            None => return None,
        };
        proof {
            lemma_first_index_from(s@, '/', 0);
        }
        let j = match find_char_from(&s, '@', i + 1) {
            Some(j) => j,
            None => return None,
        };
        proof {
            lemma_first_index_from(s@, '@', i + 1);
        }
        let p = sub_chars(&s, 0, i);
        let n = sub_chars(&s, i + 1, j);
        let v = sub_chars(&s, j + 1, s.len());
        if segment_is_valid(&p) && segment_is_valid(&n) && segment_is_valid(&v) {
            let id = ExactId {
                package: string_from_chars(p.as_slice()),
                name: string_from_chars(n.as_slice()),
                version: string_from_chars(v.as_slice()),
            };
            Some(id)
        } else {
            None
        }
    }

    /// An equal, separately owned identity.
    pub fn duplicate(&self) -> (r: Self)
        ensures
            r@ == self@,
    {
        ExactId { package: self.package.clone(), name: self.name.clone(), version: self.version.clone() }
    }

    /// Field-wise equality of the three parts.
    pub fn same_as(&self, other: &Self) -> (r: bool)
        ensures
            r == (self@ == other@),
    {
        let r = self.package == other.package && self.name == other.name && self.version == other.version;
        proof {
            if r {
                assert(self@ == other@);
            }
        }
        r
    }
}

/// `sha256:` followed by 64 lowercase hexadecimal digits.
pub open spec fn is_lower_hex(c: char) -> bool {
    ('0' <= c && c <= '9') || ('a' <= c && c <= 'f')
}

pub open spec fn is_sha256_text(s: Seq<char>) -> bool {
    s.len() == 71 && s.subrange(0, 7) == seq!['s', 'h', 'a', '2', '5', '6', ':']
        && forall|i: int| 7 <= i < 71 ==> is_lower_hex(#[trigger] s[i])
}

pub fn is_sha256_identity(value: &str) -> (r: bool)
    ensures
        r == is_sha256_text(value@),
{
    let s = chars_of(value);
    if s.len() != 71 {
        return false;
    }
    if !(s[0] == 's' && s[1] == 'h' && s[2] == 'a' && s[3] == '2' && s[4] == '5' && s[5] == '6'
        && s[6] == ':') {
        proof {
            if s@.subrange(0, 7) == seq!['s', 'h', 'a', '2', '5', '6', ':'] {
                assert(s@[0] == s@.subrange(0, 7)[0]);
                assert(s@[1] == s@.subrange(0, 7)[1]);
                assert(s@[2] == s@.subrange(0, 7)[2]);
                assert(s@[3] == s@.subrange(0, 7)[3]);
                assert(s@[4] == s@.subrange(0, 7)[4]);
                assert(s@[5] == s@.subrange(0, 7)[5]);
                assert(s@[6] == s@.subrange(0, 7)[6]);
            }
        }
        return false;
    }
    let mut i: usize = 7;
    assert(s@.subrange(0, 7) =~= seq!['s', 'h', 'a', '2', '5', '6', ':']);
    while i < 71
        invariant
            s.len() == 71,
            s@ == value@,
            7 <= i <= 71,
            s@.subrange(0, 7) =~= seq!['s', 'h', 'a', '2', '5', '6', ':'],
            forall|k: int| 7 <= k < i ==> is_lower_hex(#[trigger] s@[k]),
        decreases 71 - i,
    {
        let c = s[i];
        if !(('0' <= c && c <= '9') || ('a' <= c && c <= 'f')) {
            return false;
        }
        i = i + 1;
    }
    true
}

/// Content-derived identity of one semantic fact value.
#[derive(Clone, Debug, PartialEq, Eq)]
pub struct FactId(String);

/// Why a fact or its identity was refused.
#[derive(Clone, Debug)]
pub enum FactIdentityError {
    Malformed(String),
    InvalidValueKind(ExactId),
    ReservedExtension(String),
    Serialization(String),
    IdentityMismatch { expected: FactId, actual: FactId },
}

impl View for FactId {
    type V = Seq<char>;

    closed spec fn view(&self) -> Seq<char> {
        self.0@
    }
}

impl FactId {
    /// Accepts exactly the `sha256:<64 lowercase hex>` form.
    pub fn parse(value: String) -> (r: Result<Self, FactIdentityError>)
        ensures
            r matches Ok(id) ==> id@ == value@,
            r matches Err(FactIdentityError::Malformed(v)) ==> v@ == value@,
            r is Ok <==> is_sha256_text(value@),
            r is Err ==> r matches Err(FactIdentityError::Malformed(_)),
    {
        if is_sha256_identity(value.as_str()) {
            Ok(FactId(value))
        } else {
            Err(FactIdentityError::Malformed(value))
        }
    }

    pub fn as_str(&self) -> (r: &str)
        ensures
            r@ == self@,
    {
        self.0.as_str()
    }

    /// An equal, separately owned identity.
    pub fn duplicate(&self) -> (r: Self)
        ensures
            r@ == self@,
    {
        FactId(self.0.clone())
    }

    /// Whether two identities are the same text.
    pub fn same_as(&self, other: &Self) -> (r: bool)
        ensures
            r == (self@ == other@),
    {
        self.0 == other.0
    }

    /// The identity a digest already known to be exact names.
    pub(crate) fn from_digest(value: String) -> (r: Self)
        requires
            is_sha256_text(value@),
        ensures
            r@ == value@,
    {
        FactId(value)
    }
}

/// The rules an exact port name obeys: not empty, at most 128 UTF-8 bytes,
/// no surrounding whitespace, no control characters.
pub open spec fn valid_port_name(s: Seq<char>) -> bool {
    s.len() > 0 && utf8_len(s) <= 128 && is_trimmed(s) && !has_control(s)
}

/// Bytes that one character takes in UTF-8.
pub open spec fn utf8_width(c: char) -> nat {
    let u = c as u32;
    if u < 0x80 { 1 } else if u < 0x800 { 2 } else if u < 0x10000 { 3 } else { 4 }
}

/// Bytes that a text takes in UTF-8.
pub open spec fn utf8_len(s: Seq<char>) -> nat
    decreases s.len(),
{
    if s.len() == 0 { 0 } else { utf8_len(s.drop_last()) + utf8_width(s.last()) }
}

/// Whether the UTF-8 form of `s` is at most `limit` bytes long.
pub fn utf8_len_at_most(s: &Vec<char>, limit: usize) -> (r: bool)
    ensures
        r == (utf8_len(s@) <= limit),
{
    let mut total: usize = 0;
    let mut i: usize = 0;
    while i < s.len()
        invariant
            i <= s.len(),
            total == utf8_len(s@.subrange(0, i as int)),
            total <= limit,
        decreases s.len() - i,
    {
        let u = s[i] as u32;
        let w: usize = if u < 0x80 { 1 } else if u < 0x800 { 2 } else if u < 0x10000 { 3 } else { 4 };
        assert(s@.subrange(0, i + 1).drop_last() =~= s@.subrange(0, i as int));
        if w > limit - total {
            proof {
                lemma_utf8_len_prefix(s@, i + 1);
            }
            return false;
        }
        total = total + w;
        i = i + 1;
    }
    assert(s@.subrange(0, s@.len() as int) =~= s@);
    true
}

proof fn lemma_utf8_len_prefix(s: Seq<char>, k: int)
    requires
        0 <= k <= s.len(),
    ensures
        utf8_len(s.subrange(0, k)) <= utf8_len(s),
    decreases s.len() - k,
{
    if k < s.len() {
        lemma_utf8_len_prefix(s, k + 1);
        assert(s.subrange(0, k + 1).drop_last() =~= s.subrange(0, k));
    } else {
        assert(s.subrange(0, k) =~= s);
    }
}

/// Exact, direction-scoped identity of one capability role. Ecosystem
/// spelling is preserved; only names that cannot be displayed or compared
/// without ambiguity are refused.
#[derive(Clone, Debug, PartialEq, Eq)]
pub struct PortName(String);

/// A refused port name, holding the text that was refused.
#[derive(Clone, Debug)]
pub struct PortNameError(pub String);

impl View for PortName {
    type V = Seq<char>;

    closed spec fn view(&self) -> Seq<char> {
        self.0@
    }
}

impl PortName {
    pub fn parse(value: String) -> (r: Result<Self, PortNameError>)
        ensures
            r matches Ok(p) ==> p@ == value@,
            r matches Err(e) ==> e.0@ == value@,
            r is Ok <==> valid_port_name(value@),
    {
        let chars = chars_of(value.as_str());
        if chars.len() == 0 || !utf8_len_at_most(&chars, 128) || !is_trimmed_chars(&chars) || has_control_chars(&chars) {
            Err(PortNameError(value))
        } else {
            Ok(PortName(value))
        }
    }

    pub fn as_str(&self) -> (r: &str)
        ensures
            r@ == self@,
    {
        self.0.as_str()
    }

    pub fn same_as(&self, other: &Self) -> (r: bool)
        ensures
            r == (self@ == other@),
    {
        self.0 == other.0
    }

    /// An equal, separately owned port name.
    pub fn duplicate(&self) -> (r: Self)
        ensures
            r@ == self@,
    {
        PortName(self.0.clone())
    }
}

} // verus!
