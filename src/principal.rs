//! Principals: opaque identities of callers, accounts and registries.
use vstd::prelude::*;
use vstd::array::{spec_array_fill_for_copy_type, spec_array_update};

verus! {

broadcast use vstd::array::group_array_axioms;

/// The largest number of bytes a principal holds.
pub const MAX_PRINCIPAL_LEN: usize = 29;

/// An identity of at most 29 bytes. The bytes past `len` are always zero, so
/// two principals are equal exactly when they hold the same bytes.
#[derive(Clone, Copy)]
pub struct Principal {
    len: u8,
    bytes: [u8; 29],
}

impl View for Principal {
    type V = Seq<u8>;

    closed spec fn view(&self) -> Seq<u8> {
        self.bytes@.subrange(0, self.len as int)
    }
}

impl Principal {
    #[verifier::type_invariant]
    closed spec fn canonical(&self) -> bool {
        &&& self.len <= 29
        &&& forall|k: int| self.len <= k < 29 ==> self.bytes[k] == 0
    }

    /// The principal made of `bytes`.
    pub fn from_slice(bytes: &[u8]) -> (r: Principal)
        requires
            bytes@.len() <= MAX_PRINCIPAL_LEN,
        ensures
            r@ == bytes@,
    {
        let mut arr: [u8; 29] = [0u8; 29];
        let n = bytes.len();
        let mut i: usize = 0;
        while i < n
            invariant
                n == bytes@.len(),
                n <= 29,
                i <= n,
                forall|k: int| 0 <= k < i ==> arr[k] == bytes@[k],
                forall|k: int| n <= k < 29 ==> arr[k] == 0,
            decreases n - i,
        {
            arr[i] = bytes[i];
            i = i + 1;
        }
        let r = Principal { len: n as u8, bytes: arr };
        assert(r@ =~= bytes@);
        r
    }

    /// The anonymous principal.
    pub closed spec fn spec_anonymous() -> Principal {
        Principal { len: 1, bytes: spec_array_update(spec_array_fill_for_copy_type::<u8, 29>(0u8), 0, 4u8) }
    }

    /// The anonymous principal: the single byte 4.
    pub fn anonymous() -> (r: Principal)
        ensures
            r@ == seq![4u8],
            r == Principal::spec_anonymous(),
    {
        let mut arr: [u8; 29] = [0u8; 29];
        arr[0] = 4;
        let r = Principal { len: 1, bytes: arr };
        assert(r@ =~= seq![4u8]);
        r
    }

    /// The bytes of this principal.
    pub fn as_slice(&self) -> (r: Vec<u8>)
        ensures
            r@ == self@,
            r@.len() <= MAX_PRINCIPAL_LEN,
    {
        proof {
            use_type_invariant(self);
        }
        let mut v: Vec<u8> = Vec::new();
        let n = self.len as usize;
        let mut i: usize = 0;
        while i < n
            invariant
                n == self.len,
                n <= 29,
                i <= n,
                v@ == self.bytes@.subrange(0, i as int),
            decreases n - i,
        {
            v.push(self.bytes[i]);
            i = i + 1;
            assert(v@ =~= self.bytes@.subrange(0, i as int));
        }
        v
    }

    /// Whether the two principals hold the same bytes, which is to say
    /// whether they are equal.
    pub fn same_bytes(&self, o: &Principal) -> (r: bool)
        ensures
            r == (self@ == o@),
            r == (*self == *o),
    {
        proof {
            use_type_invariant(self);
            use_type_invariant(o);
            if self@ == o@ {
                assert(self@.len() == self.len as int);
                assert(o@.len() == o.len as int);
                assert forall|k: int| 0 <= k < 29 implies self.bytes[k] == o.bytes[k] by {
                    if k < self.len {
                        assert(self.bytes[k] == self@[k]);
                        assert(o.bytes[k] == o@[k]);
                    }
                }
                assert(self.bytes =~= o.bytes);
            }
        }
        *self == *o
    }

    /// The number of bytes.
    pub fn len(&self) -> (r: usize)
        ensures
            r == self@.len(),
            r <= MAX_PRINCIPAL_LEN,
    {
        proof {
            use_type_invariant(self);
        }
        self.len as usize
    }
}

impl PartialEq for Principal {
    fn eq(&self, o: &Principal) -> (r: bool) {
        if self.len != o.len {
            return false;
        }
        let mut i: usize = 0;
        while i < 29
            invariant
                i <= 29,
                forall|k: int| 0 <= k < i ==> self.bytes[k] == o.bytes[k],
            decreases 29 - i,
        {
            if self.bytes[i] != o.bytes[i] {
                return false;
            }
            i = i + 1;
        }
        assert(self.bytes =~= o.bytes);
        true
    }
}

impl vstd::std_specs::cmp::PartialEqSpecImpl for Principal {
    open spec fn obeys_eq_spec() -> bool {
        true
    }

    open spec fn eq_spec(&self, o: &Principal) -> bool {
        *self == *o
    }
}

impl Eq for Principal {}

/// Whether two optional principals are equal.
pub fn same_principal(a: &Option<Principal>, b: &Option<Principal>) -> (r: bool)
    ensures
        r == (*a == *b),
{
    match (a, b) {
        (Some(x), Some(y)) => *x == *y,
        (None, None) => true,
        _ => false,
    }
}

} // verus!
