//! Caller identities, held as the raw bytes of an Internet Computer principal.
use vstd::prelude::*;

verus! {

/// The longest principal, in bytes.
pub const MAX_IDENTITY_BYTES: usize = 29;

/// An opaque caller identity: the bytes of a principal, at most
/// `MAX_IDENTITY_BYTES` long.
pub struct Identity {
    bytes: Vec<u8>,
}

impl View for Identity {
    type V = Seq<u8>;

    closed spec fn view(&self) -> Seq<u8> {
        self.bytes@
    }
}

/// The bytes of the anonymous principal.
pub open spec fn anonymous_bytes() -> Seq<u8> {
    seq![4u8]
}

/// The textual form of the principal with the given bytes.
pub uninterp spec fn principal_text(bytes: Seq<u8>) -> Seq<char>;

impl Identity {
    pub open spec fn wf(&self) -> bool {
        self@.len() <= MAX_IDENTITY_BYTES
    }

    /// An identity from principal bytes; `None` when there are too many.
    pub fn from_bytes(bytes: Vec<u8>) -> (r: Option<Identity>)
        ensures
            r is Some <==> bytes@.len() <= MAX_IDENTITY_BYTES,
            r matches Some(id) ==> id@ == bytes@ && id.wf(),
    {
        if bytes.len() <= MAX_IDENTITY_BYTES {
            Some(Identity { bytes })
        } else {
            None
        }
    }

    /// The principal bytes of this identity.
    pub fn as_bytes(&self) -> (r: &[u8])
        ensures
            r@ == self@,
    {
        self.bytes.as_slice()
    }

    /// An identity equal to this one.
    pub fn duplicate(&self) -> (r: Identity)
        ensures
            r@ == self@,
    {
        let mut bytes: Vec<u8> = Vec::new();
        let mut i: usize = 0;
        while i < self.bytes.len()
            invariant
                i <= self.bytes@.len(),
                bytes@ == self.bytes@.subrange(0, i as int),
            decreases self.bytes@.len() - i,
        {
            bytes.push(self.bytes[i]);
            i = i + 1;
            assert(bytes@ =~= self.bytes@.subrange(0, i as int));
        }
        assert(bytes@ =~= self.bytes@);
        Identity { bytes }
    }

    /// Whether two identities are the same principal.
    pub fn same_as(&self, other: &Identity) -> (r: bool)
        ensures
            r == (self@ == other@),
    {
        if self.bytes.len() != other.bytes.len() {
            return false;
        }
        let mut i: usize = 0;
        while i < self.bytes.len()
            invariant
                i <= self.bytes@.len(),
                self.bytes@.len() == other.bytes@.len(),
                forall|j: int| 0 <= j < i ==> self.bytes@[j] == other.bytes@[j],
            decreases self.bytes@.len() - i,
        {
            if self.bytes[i] != other.bytes[i] {
                return false;
            }
            i = i + 1;
        }
        assert(self.bytes@ =~= other.bytes@);
        true
    }

    /// Whether this is the anonymous principal.
    pub fn is_anonymous(&self) -> (r: bool)
        ensures
            r == (self@ == anonymous_bytes()),
    {
        let anon = anonymous_principal_bytes();
        self.same_as(&Identity { bytes: anon })
    }

    /// The principal's textual form.
    pub fn text(&self) -> (r: String)
        requires
            self.wf(),
        ensures
            r@ == principal_text(self@),
    {
        principal_to_text(self.as_bytes())
    }
}

impl PartialEq for Identity {
    fn eq(&self, other: &Identity) -> (r: bool) {
        self.same_as(other)
    }
}

impl vstd::std_specs::cmp::PartialEqSpecImpl for Identity {
    open spec fn obeys_eq_spec() -> bool {
        true
    }

    open spec fn eq_spec(&self, other: &Identity) -> bool {
        self@ == other@
    }
}

/// Relies on candid's `Principal::anonymous` and `Principal::as_slice`: the
/// anonymous principal is the single byte 4.
#[verifier::external_body]
fn anonymous_principal_bytes() -> (r: Vec<u8>)
    ensures
        r@ == anonymous_bytes(),
{
    candid::Principal::anonymous().as_slice().to_vec()
}

/// Relies on candid's `Principal::from_slice` (which panics above 29 bytes)
/// and `Principal::to_text`, whose result depends on the bytes alone.
#[verifier::external_body]
fn principal_to_text(bytes: &[u8]) -> (r: String)
    requires
        bytes@.len() <= MAX_IDENTITY_BYTES,
    ensures
        r@ == principal_text(bytes@),
{
    candid::Principal::from_slice(bytes).to_text()
}

} // verus!
