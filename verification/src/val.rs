//! The staging buffer of one register, and the declaration of its wire type.

use vstd::prelude::*;
use crate::code::Code;

verus! {

/// The declared wire format of a register: the tag of its type and the number of
/// bytes it holds.
#[derive(Clone, Copy, Debug, PartialEq, Eq, Structural)]
pub struct DataType {
    pub id: Code,
    pub size: u32,
}

impl Default for DataType {
    fn default() -> (r: Self)
        ensures
            r.id@ == 0x2020_2020,
            r.size == 0,
    {
        DataType { id: Code::default(), size: 0 }
    }
}

/// The number of bytes that one register can hold at most.
pub const CAPACITY: usize = 32;

/// The raw bytes of one register with the tag of their type. Of the 32 bytes
/// that back it, only the first `len()` are meaningful.
#[derive(Clone, Copy, Debug)]
pub struct SMCVal {
    ty: Code,
    size: usize,
    data: [u8; 32],
}

impl SMCVal {
    #[verifier::type_invariant]
    closed spec fn within_capacity(self) -> bool {
        self.size <= 32
    }

    /// The tag of the type that the bytes are declared to hold.
    pub closed spec fn spec_ty(self) -> Code {
        self.ty
    }

    /// The number of meaningful bytes.
    pub closed spec fn spec_len(self) -> nat {
        self.size as nat
    }

    /// All 32 bytes of the backing store.
    pub closed spec fn raw(self) -> Seq<u8> {
        self.data@
    }

    /// Whether the buffer is in a state that it can be in: 32 bytes back it, and
    /// at most that many are meaningful.
    pub open spec fn wf(self) -> bool {
        self.spec_len() <= CAPACITY && self.raw().len() == 32
    }

    /// The meaningful bytes.
    pub open spec fn bytes(self) -> Seq<u8> {
        self.raw().take(self.spec_len() as int)
    }

    /// Whether `self` is `before` with `front` written over its first bytes: the
    /// type, the length and the bytes behind `front` are those of `before`.
    pub open spec fn stores(self, before: SMCVal, front: Seq<u8>) -> bool {
        &&& self.spec_ty() == before.spec_ty()
        &&& self.spec_len() == before.spec_len()
        &&& self.raw() == front + before.raw().skip(front.len() as int)
    }

    /// A buffer is determined by its type, its length and the bytes that back it.
    pub proof fn lemma_same(self, other: SMCVal)
        requires
            self.spec_ty() == other.spec_ty(),
            self.spec_len() == other.spec_len(),
            self.raw() == other.raw(),
            self.wf(),
            other.wf(),
        ensures
            self == other,
    {
        assert(self.data@ =~= other.data@);
        assert(self.data == other.data);
        assert(self.size == other.size);
    }

    /// A buffer of the given type over the given store, or `None` where `size`
    /// exceeds the capacity.
    pub fn new(ty: Code, size: usize, data: [u8; 32]) -> (r: Option<Self>)
        ensures
            r is Some <==> size <= CAPACITY,
            r is Some ==> {
                &&& r->Some_0.spec_ty() == ty
                &&& r->Some_0.spec_len() == size
                &&& r->Some_0.raw() == data@
            },
    {
        if size <= CAPACITY {
            Some(SMCVal { ty, size, data })
        } else {
            None
        }
    }

    /// The tag of the type that the bytes are declared to hold.
    pub fn ty(&self) -> (r: Code)
        ensures
            r == self.spec_ty(),
    {
        self.ty
    }

    /// All 32 bytes of the backing store.
    pub fn into_raw(self) -> (r: [u8; 32])
        ensures
            r@ == self.raw(),
    {
        self.data
    }

    /// The number of meaningful bytes.
    pub fn len(&self) -> (r: usize)
        ensures
            r == self.spec_len(),
            self.wf(),
    {
        proof {
            use_type_invariant(self);
        }
        self.size
    }

    /// Whether no byte is meaningful.
    pub fn is_empty(&self) -> (r: bool)
        ensures
            r <==> self.spec_len() == 0,
    {
        self.len() == 0
    }

    /// The meaningful bytes.
    pub fn data(&self) -> (r: &[u8])
        ensures
            r@ == self.bytes(),
            r@.len() == self.spec_len(),
    {
        proof {
            use_type_invariant(self);
        }
        vstd::slice::slice_subrange(self.data.as_slice(), 0, self.size)
    }

    /// The meaningful bytes, for writing.
    pub fn data_mut(&mut self) -> (r: &mut [u8])
        ensures
            r@ == old(self).bytes(),
            r@.len() == old(self).spec_len() <= CAPACITY,
            old(self).raw().len() == 32,
            final(self).spec_ty() == old(self).spec_ty(),
            final(self).spec_len() == old(self).spec_len(),
            final(r)@.len() == r@.len(),
            final(self).raw() == final(r)@ + old(self).raw().skip(old(self).spec_len() as int),
    {
        proof {
            use_type_invariant(&*self);
        }
        let size = self.size;
        let whole: &mut [u8] = &mut self.data;
        let ghost end = final(whole)@;
        let (head, tail) = whole.split_at_mut(size);
        assert(end == final(head)@ + tail@);
        assert(final(head)@.len() + tail@.len() == 32);
        head
    }
}

impl Default for SMCVal {
    /// The empty buffer: no byte is meaningful, all 32 are zero, and the type is
    /// four spaces.
    fn default() -> (r: Self)
        ensures
            r.spec_ty()@ == 0x2020_2020,
            r.spec_len() == 0,
            r.raw() == Seq::new(32, |i: int| 0u8),
    {
        let r = SMCVal { ty: Code::default(), size: 0, data: [0u8; 32] };
        assert(r.raw() =~= Seq::new(32, |i: int| 0u8));
        r
    }
}

} // verus!
