use vstd::prelude::*;

verus! {

/// A participant or admin address: thirty-two opaque bytes. The all-zero
/// key is the sentinel for "unset".
#[derive(Debug, Clone, Copy)]
pub struct IdentityKey {
    bytes: [u8; 32],
}

/// The sentinel identity: thirty-two zero bytes.
pub open spec fn zero_key() -> Seq<u8> {
    Seq::new(32, |i: int| 0u8)
}

impl View for IdentityKey {
    type V = Seq<u8>;

    closed spec fn view(&self) -> Seq<u8> {
        self.bytes@
    }
}

impl IdentityKey {
    pub broadcast proof fn lemma_view_len(&self)
        ensures
            #[trigger] self@.len() == 32,
    {
    }

    /// The key with the given bytes.
    pub fn new(bytes: [u8; 32]) -> (r: IdentityKey)
        ensures
            r@ == bytes@,
    {
        IdentityKey { bytes }
    }

    /// The sentinel key, all bytes zero.
    pub fn zero() -> (r: IdentityKey)
        ensures
            r@ == zero_key(),
    {
        let r = IdentityKey { bytes: [0u8; 32] };
        assert(r@ =~= zero_key());
        r
    }

    /// The key's bytes.
    pub fn to_bytes(&self) -> (r: [u8; 32])
        ensures
            r@ == self@,
    {
        self.bytes
    }

    /// Whether this is the all-zero sentinel.
    pub fn is_zero(&self) -> (r: bool)
        ensures
            r == (self@ == zero_key()),
    {
        let mut i: usize = 0;
        while i < 32
            invariant
                self.bytes@.len() == 32,
                forall|j: int| 0 <= j < i ==> self.bytes@[j] == 0u8,
            decreases 32 - i,
        {
            if self.bytes[i] != 0 {
                assert(self@[i as int] != zero_key()[i as int]);
                return false;
            }
            i = i + 1;
        }
        assert(self@ =~= zero_key());
        true
    }

    /// Whether two keys hold the same bytes.
    pub fn same_as(&self, other: &IdentityKey) -> (r: bool)
        ensures
            r == (self@ == other@),
    {
        let mut i: usize = 0;
        while i < 32
            invariant
                self.bytes@.len() == 32,
                other.bytes@.len() == 32,
                forall|j: int| 0 <= j < i ==> self.bytes@[j] == other.bytes@[j],
            decreases 32 - i,
        {
            if self.bytes[i] != other.bytes[i] {
                assert(self@[i as int] != other@[i as int]);
                return false;
            }
            i = i + 1;
        }
        assert(self@ =~= other@);
        true
    }
}

impl PartialEq for IdentityKey {
    fn eq(&self, other: &IdentityKey) -> (r: bool) {
        self.same_as(other)
    }
}

impl vstd::std_specs::cmp::PartialEqSpecImpl for IdentityKey {
    open spec fn obeys_eq_spec() -> bool {
        true
    }

    open spec fn eq_spec(&self, other: &IdentityKey) -> bool {
        self@ == other@
    }
}

impl Eq for IdentityKey {
}

} // verus!
