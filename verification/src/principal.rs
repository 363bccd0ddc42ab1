//! Identities of the callers of the platform.
//!
//! A principal is an opaque blob of at most 29 bytes. The library keeps it as
//! a fixed buffer with a length, the bytes past the length being zero, so that
//! two principals are equal exactly when their significant bytes are.
use vstd::prelude::*;

verus! {

broadcast use vstd::array::group_array_axioms;

/// An identity on the platform: up to 29 significant bytes.
#[derive(Clone, Copy, Debug, Eq)]
pub struct Principal {
    len: u8,
    bytes: [u8; 29],
}

/// Why a byte string was refused as a principal.
#[derive(Clone, Copy, Debug, PartialEq, Eq, Structural)]
pub enum BadPrincipal {
    /// More than 29 bytes were given.
    BytesTooLong,
}

/// The error type of the identity crate, carried from the call that builds a
/// principal to the code that maps it to `BadPrincipal`.
#[verifier::external_type_specification]
#[verifier::external_body]
pub struct ExCandidPrincipalError(candid::types::principal::PrincipalError);

impl View for Principal {
    type V = Seq<u8>;

    /// The significant bytes.
    closed spec fn view(&self) -> Seq<u8> {
        self.bytes@.subrange(0, self.len as int)
    }
}

impl Principal {
    #[verifier::type_invariant]
    closed spec fn inv(self) -> bool {
        &&& self.len <= 29
        &&& forall|i: int| self.len <= i < 29 ==> #[trigger] self.bytes@[i] == 0u8
    }

    /// The principal of unauthenticated callers: the single byte 4.
    pub open spec fn is_anonymous_spec(self) -> bool {
        self@ == seq![4u8]
    }

    /// Two principals with the same significant bytes are the same principal.
    proof fn lemma_view_injective(a: Principal, b: Principal)
        requires
            a.inv(),
            b.inv(),
            a@ == b@,
        ensures
            a == b,
    {
        assert(a.bytes@.len() == 29 && b.bytes@.len() == 29);
        assert(a@.len() == a.len && b@.len() == b.len);
        assert forall|i: int| 0 <= i < 29 implies a.bytes@[i] == b.bytes@[i] by {
            if i < a.len {
                assert(a.bytes@[i] == a@[i]);
                assert(b.bytes@[i] == b@[i]);
            }
        }
        assert(a.bytes =~= b.bytes);
    }

    /// The anonymous principal, as the identity crate defines it.
    pub fn anonymous() -> (p: Principal)
        ensures
            p@ == seq![4u8],
            p.is_anonymous_spec(),
    {
        candid_anonymous()
    }

    /// Builds a principal from its bytes; refuses more than 29 of them.
    pub fn from_slice(slice: &[u8]) -> (r: Result<Principal, BadPrincipal>)
        ensures
            slice@.len() <= 29 <==> r is Ok,
            r matches Ok(p) ==> p@ == slice@,
            r matches Err(e) ==> e == BadPrincipal::BytesTooLong,
    {
        match candid_try_from_slice(slice) {
            Ok(p) => Ok(p),
            Err(_) => Err(BadPrincipal::BytesTooLong),
        }
    }

    /// The significant bytes, copied out.
    pub fn as_bytes(&self) -> (r: Vec<u8>)
        ensures
            r@ == self@,
            r@.len() <= 29,
    {
        proof {
            use_type_invariant(self);
        }
        let mut out: Vec<u8> = Vec::new();
        let n = self.len as usize;
        let mut i: usize = 0;
        while i < n
            invariant
                n == self.len,
                n <= 29,
                0 <= i <= n,
                out@ == self.bytes@.subrange(0, i as int),
            decreases n - i,
        {
            out.push(self.bytes[i]);
            i = i + 1;
            proof {
                assert(out@ =~= self.bytes@.subrange(0, i as int));
            }
        }
        out
    }

    /// Whether this is the principal of unauthenticated callers.
    pub fn is_anonymous(&self) -> (r: bool)
        ensures
            r == self.is_anonymous_spec(),
    {
        let anon = Principal::anonymous();
        proof {
            use_type_invariant(self);
            use_type_invariant(&anon);
            if self@ == anon@ {
                Principal::lemma_view_injective(*self, anon);
            }
        }
        *self == anon
    }
}

impl PartialEq for Principal {
    fn eq(&self, other: &Principal) -> (r: bool) {
        if self.len != other.len {
            return false;
        }
        let mut i: usize = 0;
        while i < 29
            invariant
                0 <= i <= 29,
                forall|j: int| 0 <= j < i ==> self.bytes@[j] == other.bytes@[j],
            decreases 29 - i,
        {
            if self.bytes[i] != other.bytes[i] {
                return false;
            }
            i = i + 1;
        }
        proof {
            assert(self.bytes =~= other.bytes);
        }
        true
    }
}

impl vstd::std_specs::cmp::PartialEqSpecImpl for Principal {
    open spec fn obeys_eq_spec() -> bool {
        true
    }

    open spec fn eq_spec(&self, other: &Principal) -> bool {
        *self == *other
    }
}

/// Calls `candid::Principal::anonymous`, which the identity crate defines as
/// the principal whose only byte is 4, and copies out its length and its
/// fixed buffer (documented to be zero past the length).
#[verifier::external_body]
fn candid_anonymous() -> (p: Principal)
    ensures
        p@ == seq![4u8],
{
    let c = candid::Principal::anonymous();
    Principal { len: c.len(), bytes: *c.as_fixed_bytes() }
}

/// Calls `candid::Principal::try_from_slice`, which accepts a slice of at
/// most 29 bytes and keeps them as the principal's significant bytes, and
/// refuses a longer one; the accepted principal is copied out as its length
/// and its fixed buffer (documented to be zero past the length).
#[verifier::external_body]
fn candid_try_from_slice(slice: &[u8]) -> (r: Result<
    Principal,
    candid::types::principal::PrincipalError,
>)
    ensures
        slice@.len() <= 29 <==> r is Ok,
        r matches Ok(p) ==> p@ == slice@,
{
    match candid::Principal::try_from_slice(slice) {
        Ok(c) => Ok(Principal { len: c.len(), bytes: *c.as_fixed_bytes() }),
        Err(e) => Err(e),
    }
}

} // verus!
