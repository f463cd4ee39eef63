//! The fans: their names, their registers, the bitmask that says which of them
//! the firmware drives, and the walker over them.

use vstd::prelude::*;
use vstd::std_specs::convert::FromSpecImpl;
use crate::bounded::{OneDigit, UMax10};
use crate::code::{lemma_padded_same, Code, TYPE_FAN};
use crate::arith::{is_difference, is_product, is_quotient};
use crate::error::SMCError;
use crate::float::F32;
use crate::types::{FromSMC, IntoSMC};
use crate::util::{f32_encoding, int_encoding, write_f32, write_u16};
use crate::val::SMCVal;
use crate::wire::be_unsigned;

verus! {

/// The number of bytes of a fan description block that come before the name.
pub const NAME_OFFSET: usize = 4;

/// The number of bytes that a name can have at most.
pub const NAME_CAPACITY: usize = 28;

/// Whether a byte is white space: a blank, or one of the control characters from
/// the horizontal tab to the carriage return.
pub open spec fn is_space(b: u8) -> bool {
    b == 0x20 || (0x09 <= b && b <= 0x0d)
}

/// The bytes before the first zero byte; all of them where there is none.
pub open spec fn until_nul(s: Seq<u8>) -> Seq<u8>
    decreases s.len(),
{
    if s.len() == 0 || s[0] == 0 {
        Seq::empty()
    } else {
        seq![s[0]] + until_nul(s.skip(1))
    }
}

/// The bytes without the white space at their start.
pub open spec fn trim_start(s: Seq<u8>) -> Seq<u8>
    decreases s.len(),
{
    if s.len() > 0 && is_space(s[0]) {
        trim_start(s.skip(1))
    } else {
        s
    }
}

/// The bytes without the white space at their end.
pub open spec fn trim_end(s: Seq<u8>) -> Seq<u8>
    decreases s.len(),
{
    if s.len() > 0 && is_space(s.last()) {
        trim_end(s.drop_last())
    } else {
        s
    }
}

/// The name that a fan description block holds: what follows its first four
/// bytes, up to the first zero byte, without white space at either end.
pub open spec fn name_in(block: Seq<u8>) -> Seq<u8>
    recommends
        block.len() >= NAME_OFFSET,
{
    trim_end(trim_start(until_nul(block.skip(NAME_OFFSET as int))))
}

/// Up to the first zero byte means: up to an index before which no byte is zero,
/// and at which the bytes end or a zero stands.
proof fn lemma_until_nul(s: Seq<u8>, e: int)
    requires
        0 <= e <= s.len(),
        forall|j: int| 0 <= j < e ==> s[j] != 0,
        e == s.len() || s[e] == 0,
    ensures
        until_nul(s) == s.take(e),
    decreases e,
{
    if e == 0 {
        assert(s.take(0) =~= Seq::<u8>::empty());
    } else {
        lemma_until_nul(s.skip(1), e - 1);
        assert(s.take(e) =~= seq![s[0]] + s.skip(1).take(e - 1));
    }
}

/// Without the white space at the start means: from an index before which all is
/// white space, and at which the bytes end or another byte stands.
proof fn lemma_trim_start(s: Seq<u8>, a: int)
    requires
        0 <= a <= s.len(),
        forall|j: int| 0 <= j < a ==> is_space(s[j]),
        a == s.len() || !is_space(s[a]),
    ensures
        trim_start(s) == s.skip(a),
    decreases a,
{
    if a == 0 {
        assert(s.skip(0) =~= s);
    } else {
        lemma_trim_start(s.skip(1), a - 1);
        assert(s.skip(1).skip(a - 1) =~= s.skip(a));
    }
}

/// Without the white space at the end means: up to an index from which all is
/// white space, and before which nothing or another byte stands.
proof fn lemma_trim_end(s: Seq<u8>, b: int)
    requires
        0 <= b <= s.len(),
        forall|j: int| b <= j < s.len() ==> is_space(s[j]),
        b == 0 || !is_space(s[b - 1]),
    ensures
        trim_end(s) == s.take(b),
    decreases s.len() - b,
{
    if b == s.len() {
        assert(s.take(b) =~= s);
    } else {
        lemma_trim_end(s.drop_last(), b);
        assert(s.drop_last().take(b) =~= s.take(b));
    }
}

proof fn lemma_until_nul_len(s: Seq<u8>)
    ensures
        until_nul(s).len() <= s.len(),
    decreases s.len(),
{
    if s.len() > 0 && s[0] != 0 {
        lemma_until_nul_len(s.skip(1));
    }
}

proof fn lemma_trim_start_len(s: Seq<u8>)
    ensures
        trim_start(s).len() <= s.len(),
    decreases s.len(),
{
    if s.len() > 0 && is_space(s[0]) {
        lemma_trim_start_len(s.skip(1));
    }
}

proof fn lemma_trim_end_len(s: Seq<u8>)
    ensures
        trim_end(s).len() <= s.len(),
    decreases s.len(),
{
    if s.len() > 0 && is_space(s.last()) {
        lemma_trim_end_len(s.drop_last());
    }
}

/// The name in a block is shorter than the block by the four bytes before it, or
/// by more: in a buffer of 32 bytes it has 28 at most.
pub proof fn lemma_name_len(block: Seq<u8>)
    requires
        block.len() >= NAME_OFFSET,
    ensures
        name_in(block).len() <= block.len() - NAME_OFFSET,
{
    let rest = block.skip(NAME_OFFSET as int);
    lemma_until_nul_len(rest);
    lemma_trim_start_len(until_nul(rest));
    lemma_trim_end_len(trim_start(until_nul(rest)));
}

/// The name of a fan: at most 28 bytes.
#[derive(Clone, Copy, Debug)]
pub struct FanName {
    bytes: [u8; 28],
    len: usize,
}

impl FanName {
    #[verifier::type_invariant]
    closed spec fn inv(self) -> bool {
        self.wf()
    }

    /// Whether the name is in a state that it can be in: at most 28 bytes long,
    /// and zero behind its end.
    pub closed spec fn wf(self) -> bool {
        &&& self.len <= 28
        &&& forall|j: int| self.len <= j < 28 ==> self.bytes@[j] == 0
    }

    /// The bytes of the name.
    pub closed spec fn view(self) -> Seq<u8> {
        self.bytes@.take(self.len as int)
    }

    /// Twenty-eight bytes of which the first `k` are those of `s` and the others
    /// are zero.
    closed spec fn filled(s: Seq<u8>, k: nat) -> [u8; 28]
        decreases k,
    {
        if k == 0 {
            vstd::array::spec_array_fill_for_copy_type::<u8, 28>(0u8)
        } else {
            vstd::array::spec_array_update(Self::filled(s, (k - 1) as nat), k - 1, s[k - 1])
        }
    }

    proof fn lemma_filled(s: Seq<u8>, k: nat)
        requires
            k <= s.len(),
            k <= 28,
        ensures
            forall|j: int| 0 <= j < k ==> (#[trigger] Self::filled(s, k)@[j]) == s[j],
            forall|j: int| k <= j < 28 ==> (#[trigger] Self::filled(s, k)@[j]) == 0,
        decreases k,
    {
        if k > 0 {
            Self::lemma_filled(s, (k - 1) as nat);
            let before = Self::filled(s, (k - 1) as nat);
            let after = vstd::array::spec_array_update(before, k - 1, s[k - 1]);
            assert(after@ == before@.update(k - 1, s[k - 1]));
            assert(Self::filled(s, k) == after);
        } else {
            let blank = vstd::array::spec_array_fill_for_copy_type::<u8, 28>(0u8);
            assert(Self::filled(s, k) == blank);
            assert(forall|j: int| 0 <= j < 28 ==> blank@[j] == 0);
        }
    }

    /// The name with the given bytes, of which there are at most 28.
    pub closed spec fn of(s: Seq<u8>) -> Self {
        FanName { bytes: Self::filled(s, s.len()), len: s.len() as usize }
    }

    /// The name with the given bytes has those bytes.
    pub proof fn lemma_view_of(s: Seq<u8>)
        requires
            s.len() <= NAME_CAPACITY,
        ensures
            Self::of(s).wf(),
            Self::of(s)@ == s,
    {
        Self::lemma_filled(s, s.len());
        assert(Self::of(s)@ =~= s);
    }

    /// Two names with the same bytes are the same name.
    pub proof fn lemma_same_bytes(self, other: Self)
        requires
            self.wf(),
            other.wf(),
            self@ == other@,
        ensures
            self == other,
    {
        assert(self.len == other.len) by {
            assert(self@.len() == self.len);
            assert(other@.len() == other.len);
        }
        assert forall|j: int| 0 <= j < 28 implies self.bytes@[j] == other.bytes@[j] by {
            if j < self.len {
                assert(self@[j] == self.bytes@[j]);
                assert(other@[j] == other.bytes@[j]);
            }
        }
        assert(self.bytes@ =~= other.bytes@);
        assert(self.bytes == other.bytes);
    }

    /// A name is the name of its bytes.
    pub proof fn lemma_of_view(self)
        requires
            self.wf(),
        ensures
            Self::of(self@) == self,
            self@.len() <= NAME_CAPACITY,
    {
        Self::lemma_view_of(self@);
        self.lemma_same_bytes(Self::of(self@));
    }

    /// The number of bytes of the name.
    pub fn len(&self) -> (r: usize)
        ensures
            r == self@.len(),
            r <= NAME_CAPACITY,
            self.wf(),
    {
        proof {
            use_type_invariant(self);
        }
        self.len
    }

    /// The bytes of the name.
    pub fn as_bytes(&self) -> (r: &[u8])
        ensures
            r@ == self@,
            self.wf(),
    {
        proof {
            use_type_invariant(self);
        }
        vstd::slice::slice_subrange(self.bytes.as_slice(), 0, self.len)
    }
}

impl FromSMC for FanName {
    open spec fn decoding(param: SMCVal) -> Option<Self> {
        if param.spec_ty()@ == TYPE_FAN && param.spec_len() >= NAME_OFFSET {
            Some(FanName::of(name_in(param.bytes())))
        } else {
            None
        }
    }

    fn from_smc(param: SMCVal) -> (r: Option<Self>) {
        if param.ty().as_u32() != TYPE_FAN || param.len() < NAME_OFFSET {
            return None;
        }
        let d = param.data();
        let n: usize = d.len();
        let ghost block = d@.skip(NAME_OFFSET as int);
        let mut stop: usize = NAME_OFFSET;
        while stop < n && d[stop] != 0
            invariant
                NAME_OFFSET <= stop <= n,
                n == d@.len(),
                n <= 32,
                block == d@.skip(NAME_OFFSET as int),
                forall|j: int| 0 <= j < stop - NAME_OFFSET ==> block[j] != 0,
            decreases n - stop,
        {
            stop = stop + 1;
        }
        let ghost text = block.take(stop - NAME_OFFSET);
        proof {
            lemma_until_nul(block, stop - NAME_OFFSET);
        }
        let mut from: usize = NAME_OFFSET;
        while from < stop && is_space_byte(d[from])
            invariant
                NAME_OFFSET <= from <= stop <= n,
                n == d@.len(),
                block == d@.skip(NAME_OFFSET as int),
                text == block.take(stop - NAME_OFFSET),
                forall|j: int| 0 <= j < from - NAME_OFFSET ==> is_space(text[j]),
            decreases stop - from,
        {
            from = from + 1;
        }
        let ghost rest = text.skip(from - NAME_OFFSET);
        proof {
            lemma_trim_start(text, from - NAME_OFFSET);
        }
        let mut to: usize = stop;
        while to > from && is_space_byte(d[to - 1])
            invariant
                NAME_OFFSET <= from <= to <= stop <= n,
                n == d@.len(),
                block == d@.skip(NAME_OFFSET as int),
                text == block.take(stop - NAME_OFFSET),
                rest == text.skip(from - NAME_OFFSET),
                forall|j: int| to - from <= j < rest.len() ==> is_space(rest[j]),
            decreases to,
        {
            to = to - 1;
        }
        proof {
            lemma_trim_end(rest, to - from);
            assert(rest.take(to - from) =~= d@.subrange(from as int, to as int));
        }
        let mut bytes: [u8; 28] = [0u8; 28];
        let mut i: usize = 0;
        while i < to - from
            invariant
                NAME_OFFSET <= from <= to <= n,
                n == d@.len(),
                n <= 32,
                i <= to - from,
                forall|j: int| 0 <= j < i ==> bytes@[j] == d@[from + j],
                forall|j: int| i <= j < 28 ==> bytes@[j] == 0,
            decreases to - from - i,
        {
            bytes[i] = d[from + i];
            i = i + 1;
        }
        let name = FanName { bytes, len: to - from };
        proof {
            assert(name@ =~= d@.subrange(from as int, to as int));
            assert(name@ == name_in(param.bytes()));
            name.lemma_of_view();
        }
        Some(name)
    }
}

/// Whether a byte is white space.
fn is_space_byte(b: u8) -> (r: bool)
    ensures
        r == is_space(b),
{
    b == 0x20 || (0x09 <= b && b <= 0x0d)
}

/// A fan: its index and its name. Its speeds are not kept here: they are read from
/// the controller whenever they are asked for.
#[derive(Clone, Copy, Debug)]
pub struct Fan {
    id: OneDigit,
    name: FanName,
}

impl Fan {
    /// The index of the fan.
    pub closed spec fn spec_id(self) -> OneDigit {
        self.id
    }

    /// The name of the fan.
    pub closed spec fn spec_name(self) -> FanName {
        self.name
    }

    /// The fan with this index and this name.
    pub fn new(id: OneDigit, name: FanName) -> (r: Self)
        ensures
            r.spec_id() == id,
            r.spec_name() == name,
    {
        Fan { id, name }
    }

    /// The index of the fan.
    pub fn id(&self) -> (r: OneDigit)
        ensures
            r == self.spec_id(),
    {
        self.id
    }

    /// The bytes of the fan's name.
    pub fn name(&self) -> (r: &[u8])
        ensures
            r@ == self.spec_name()@,
    {
        self.name.as_bytes()
    }
}

/// The registers that every fan has.
#[derive(Clone, Copy, Debug, PartialEq, Eq, Structural)]
pub enum FanRegister {
    /// The description block, which holds the name.
    Id,
    /// The least speed.
    MinSpeed,
    /// The greatest speed.
    MaxSpeed,
    /// The speed at which the fan turns.
    CurrentSpeed,
    /// The speed that the fan is asked to reach.
    TargetSpeed,
}

impl FanRegister {
    /// The two bytes that end the name of the register.
    pub open spec fn suffix(self) -> (u8, u8) {
        match self {
            FanRegister::Id => (0x49, 0x44),
            FanRegister::MinSpeed => (0x4d, 0x6e),
            FanRegister::MaxSpeed => (0x4d, 0x78),
            FanRegister::CurrentSpeed => (0x41, 0x63),
            FanRegister::TargetSpeed => (0x54, 0x67),
        }
    }

    /// The four bytes of the name of the register of the fan with index `id`:
    /// the letter F, the digit of the index, and the suffix.
    pub open spec fn name_of(self, id: int) -> Seq<u8> {
        seq![0x46u8, (0x30 + id) as u8, self.suffix().0, self.suffix().1]
    }

    /// The name of this register of the fan with index `id`.
    pub fn key(self, id: OneDigit) -> (r: Result<Code, SMCError>)
        ensures
            r is Ok,
            r->Ok_0@ == be_unsigned(self.name_of(id@)),
    {
        let (c2, c3): (u8, u8) = match self {
            FanRegister::Id => (0x49, 0x44),
            FanRegister::MinSpeed => (0x4d, 0x6e),
            FanRegister::MaxSpeed => (0x4d, 0x78),
            FanRegister::CurrentSpeed => (0x41, 0x63),
            FanRegister::TargetSpeed => (0x54, 0x67),
        };
        let bytes: [u8; 4] = [0x46, 0x30 + id.get(), c2, c3];
        proof {
            assert(bytes@ =~= self.name_of(id@));
            lemma_padded_same(bytes@);
        }
        match Code::from_array(bytes) {
            Ok(code) => Ok(code),
            Err(e) => Err(SMCError::InvalidKey(e)),
        }
    }
}

/// The name of the register that holds the number of fans.
pub const KEY_FAN_COUNT: u32 = 0x464e_756d;

/// The name of the register that holds the bitmask of the fans that are driven
/// by hand.
pub const KEY_FAN_MODES: u32 = 0x4653_2120;

/// The bit of the fan with index `id` in the bitmask.
pub open spec fn fan_bit(id: int) -> u16 {
    1u16 << (id as u16)
}

/// Whether the bitmask says that the firmware drives the fan with index `id`: its
/// bit is clear.
pub open spec fn managed_in(bitmask: u16, id: int) -> bool {
    bitmask & fan_bit(id) == 0
}

/// The bitmask with the bit of the fan with index `id` cleared, to hand the fan
/// to the firmware, or set, to take it from the firmware.
pub open spec fn with_managed(bitmask: u16, id: int, managed: bool) -> u16 {
    if managed {
        bitmask & !fan_bit(id)
    } else {
        bitmask | fan_bit(id)
    }
}

/// Whether the firmware drives the fan, by the bitmask read from the controller.
pub fn is_managed(bitmask: u16, id: OneDigit) -> (r: bool)
    ensures
        r == managed_in(bitmask, id@),
{
    let shift: u16 = id.get() as u16;
    bitmask & (1u16 << shift) == 0
}

/// Decides the write that hands a fan to the firmware or takes it from it: the
/// new bitmask, or `None` where the bitmask read from the controller says so
/// already and nothing is to be written.
pub fn fan_set_managed(bitmask: u16, id: OneDigit, managed: bool) -> (r: Option<u16>)
    ensures
        r == (if with_managed(bitmask, id@, managed) != bitmask {
            Some(with_managed(bitmask, id@, managed))
        } else {
            None
        }),
{
    let shift: u16 = id.get() as u16;
    let mask: u16 = 1u16 << shift;
    let new: u16 = if managed {
        bitmask & !mask
    } else {
        bitmask | mask
    };
    if bitmask != new {
        Some(new)
    } else {
        None
    }
}

/// Once the bitmask that `fan_set_managed` decides on has been written, the same
/// request decides on no further write: of two equal requests in a row only the
/// first writes.
pub proof fn lemma_set_managed_once(bitmask: u16, id: int, managed: bool)
    requires
        0 <= id <= 9,
    ensures
        with_managed(with_managed(bitmask, id, managed), id, managed) == with_managed(
            bitmask,
            id,
            managed,
        ),
{
    let m = fan_bit(id);
    assert((bitmask & !m) & !m == bitmask & !m) by (bit_vector);
    assert((bitmask | m) | m == bitmask | m) by (bit_vector);
}

/// The bitmask that `fan_set_managed` decides on says of the fan what was asked
/// for, and of every other fan what the bitmask said before.
pub proof fn lemma_set_managed_sets(bitmask: u16, id: int, managed: bool, other: int)
    requires
        0 <= id <= 9,
        0 <= other <= 9,
    ensures
        managed_in(with_managed(bitmask, id, managed), id) == managed,
        other != id ==> managed_in(with_managed(bitmask, id, managed), other) == managed_in(
            bitmask,
            other,
        ),
{
    let i = id as u16;
    let j = other as u16;
    assert((bitmask & !(1u16 << i)) & (1u16 << i) == 0) by (bit_vector);
    assert((bitmask | (1u16 << i)) & (1u16 << i) != 0) by (bit_vector)
        requires
            i <= 9,
    ;
    if other != id {
        assert(((bitmask & !(1u16 << i)) & (1u16 << j) == 0) == (bitmask & (1u16 << j) == 0))
            by (bit_vector)
            requires
                i <= 9,
                j <= 9,
                i != j,
        ;
        assert(((bitmask | (1u16 << i)) & (1u16 << j) == 0) == (bitmask & (1u16 << j) == 0))
            by (bit_vector)
            requires
                i <= 9,
                j <= 9,
                i != j,
        ;
    }
}

/// A bitmask that `fan_set_managed` has decided to write.
#[derive(Clone, Copy, Debug)]
pub struct CheckedBitmask(pub u16);

impl IntoSMC for CheckedBitmask {
    open spec fn encoding(self, ty: Code, len: nat) -> Option<Seq<u8>> {
        int_encoding(self.0 as int, 0, u16::MAX as int, ty@, len)
    }

    fn into_smc(self, param: &mut SMCVal) -> (r: Option<()>) {
        write_u16(self.0, param)
    }
}

/// A walker over the indices of the fans that are still to be looked up. It
/// yields an index; the caller reads the fan and, where that fails, calls
/// [`Fans::stop`], so that one failure ends the walk.
#[derive(Clone, Copy, Debug)]
pub struct Fans {
    pos: u8,
    len: u8,
}

impl Fans {
    #[verifier::type_invariant]
    closed spec fn ordered(self) -> bool {
        self.pos <= self.len <= 10
    }

    /// The first index that is left, or the end if none is.
    pub closed spec fn start(self) -> int {
        self.pos as int
    }

    /// The index behind the last one that is left.
    pub closed spec fn end(self) -> int {
        self.len as int
    }

    /// Whether the walker is in a state that it can be in: the start is not
    /// behind the end, and the end is at most ten.
    pub open spec fn wf(self) -> bool {
        0 <= self.start() <= self.end() <= 10
    }

    /// The indices that are left, in ascending order.
    pub open spec fn remaining(self) -> Seq<OneDigit> {
        Seq::new((self.end() - self.start()) as nat, |i: int| OneDigit::of(self.start() + i))
    }

    /// A walker over `len` fans.
    pub fn new(len: UMax10) -> (r: Self)
        ensures
            r.wf(),
            r.start() == 0,
            r.end() == len@,
    {
        Fans { pos: 0, len: len.get() }
    }

    /// Yields the first index that is left and steps over it.
    pub fn next(&mut self) -> (r: Option<OneDigit>)
        ensures
            old(self).wf(),
            final(self).wf(),
            final(self).end() == old(self).end(),
            old(self).start() == old(self).end() ==> r is None && final(self).start() == old(
                self,
            ).start(),
            old(self).start() < old(self).end() ==> r == Some(OneDigit::of(old(self).start()))
                && final(self).start() == old(self).start() + 1,
    {
        proof {
            use_type_invariant(&*self);
        }
        if self.len > self.pos {
            let id = OneDigit::new_unchecked(self.pos);
            self.pos = self.pos + 1;
            Some(id)
        } else {
            None
        }
    }

    /// Ends the walk: no index is left. Called when a fan could not be read.
    pub fn stop(&mut self)
        ensures
            final(self).wf(),
            final(self).end() == old(self).end(),
            final(self).start() == old(self).end(),
    {
        proof {
            use_type_invariant(&*self);
        }
        self.pos = self.len;
    }

    /// The number of indices that are left.
    pub fn len(&self) -> (r: usize)
        ensures
            self.wf(),
            r == self.end() - self.start(),
            r == self.remaining().len(),
    {
        proof {
            use_type_invariant(self);
        }
        (self.len - self.pos) as usize
    }

    /// The number of indices that are left, as a lower and an upper bound.
    pub fn size_hint(&self) -> (r: (usize, Option<usize>))
        ensures
            r.0 == self.remaining().len(),
            r.1 == Some(r.0),
    {
        let len: usize = self.len();
        (len, Some(len))
    }

    /// The number of indices that are left.
    pub fn count(self) -> (r: usize)
        ensures
            r == self.remaining().len(),
    {
        self.len()
    }

    /// Yields the last index that is left, if there is one.
    pub fn last(self) -> (r: Option<OneDigit>)
        ensures
            self.start() == self.end() ==> r is None,
            self.start() < self.end() ==> r == Some(OneDigit::of(self.end() - 1)),
    {
        proof {
            use_type_invariant(&self);
        }
        if self.len > self.pos {
            Some(OneDigit::new_unchecked(self.len - 1))
        } else {
            None
        }
    }

    /// Steps over `n` indices and yields the one behind them. Where fewer than
    /// `n + 1` are left, none is left afterwards and nothing is yielded.
    pub fn nth(&mut self, n: usize) -> (r: Option<OneDigit>)
        ensures
            old(self).wf(),
            final(self).wf(),
            final(self).end() == old(self).end(),
            n < old(self).end() - old(self).start() ==> r == Some(
                OneDigit::of(old(self).start() + n),
            ) && final(self).start() == old(self).start() + n + 1,
            n >= old(self).end() - old(self).start() ==> r is None && final(self).start()
                == old(self).end(),
    {
        proof {
            use_type_invariant(&*self);
        }
        if n > u8::MAX as usize {
            self.pos = self.len;
            return None;
        }
        self.pos = match self.pos.checked_add(n as u8) {
            Some(pos) => if pos < self.len {
                pos
            } else {
                self.len
            },
            None => self.len,
        };
        self.next()
    }

    /// Yields the last index that is left and steps back over it.
    pub fn next_back(&mut self) -> (r: Option<OneDigit>)
        ensures
            old(self).wf(),
            final(self).wf(),
            final(self).start() == old(self).start(),
            old(self).start() == old(self).end() ==> r is None && final(self).end() == old(
                self,
            ).end(),
            old(self).start() < old(self).end() ==> r == Some(OneDigit::of(old(self).end() - 1))
                && final(self).end() == old(self).end() - 1,
    {
        proof {
            use_type_invariant(&*self);
        }
        if self.len > self.pos {
            self.len = self.len - 1;
            Some(OneDigit::new_unchecked(self.len))
        } else {
            None
        }
    }

    /// Steps back over `n` indices and yields the one before them. Where fewer
    /// than `n + 1` are left, none is left afterwards and nothing is yielded.
    pub fn nth_back(&mut self, n: usize) -> (r: Option<OneDigit>)
        ensures
            old(self).wf(),
            final(self).wf(),
            final(self).start() == old(self).start(),
            n < old(self).end() - old(self).start() ==> r == Some(
                OneDigit::of(old(self).end() - 1 - n),
            ) && final(self).end() == old(self).end() - n - 1,
            n >= old(self).end() - old(self).start() ==> r is None && final(self).end() == old(
                self,
            ).start(),
    {
        proof {
            use_type_invariant(&*self);
        }
        if n > u8::MAX as usize {
            self.len = self.pos;
            return None;
        }
        self.len = match self.len.checked_sub(n as u8) {
            Some(len) => if len > self.pos {
                len
            } else {
                self.pos
            },
            None => self.pos,
        };
        self.next_back()
    }
}

/// A step from the front of the walk over the fans yields the first index that
/// was left and leaves the others, nothing lost and nothing twice.
pub proof fn lemma_fans_next_splits(before: Fans, after: Fans)
    requires
        before.wf(),
        before.start() < before.end(),
        after.start() == before.start() + 1,
        after.end() == before.end(),
    ensures
        before.remaining() == seq![OneDigit::of(before.start())] + after.remaining(),
{
    assert(before.remaining() =~= seq![OneDigit::of(before.start())] + after.remaining());
}

/// A step from the back of the walk over the fans yields the last index that was
/// left and leaves the others, nothing lost and nothing twice.
pub proof fn lemma_fans_next_back_splits(before: Fans, after: Fans)
    requires
        before.wf(),
        before.start() < before.end(),
        after.start() == before.start(),
        after.end() == before.end() - 1,
    ensures
        before.remaining() == after.remaining() + seq![OneDigit::of(before.end() - 1)],
{
    assert(before.remaining() =~= after.remaining() + seq![OneDigit::of(before.end() - 1)]);
}

/// The single zero, without a sign.
pub open spec fn zero() -> F32 {
    F32 { bits: 0 }
}

/// The single one hundred.
pub open spec fn hundred() -> F32 {
    F32 { bits: 0x42c8_0000 }
}

/// A difference with zero in place of what lies below zero.
pub open spec fn floored(d: F32) -> F32 {
    if d.lt_spec(zero()) {
        zero()
    } else {
        d
    }
}

/// Whether `r` is the speed above the least speed: the difference of the two as
/// singles have it, and zero where that lies below zero.
pub open spec fn is_rpm(r: F32, current: F32, min: F32) -> bool {
    exists|d: F32| is_difference(d, current, min) && r == floored(d)
}

/// Whether `r` is the speed above the least speed as a percentage of the range
/// from the least to the greatest speed: the speed above the least speed,
/// divided by the range and multiplied by one hundred, each step rounded as
/// singles are. Nothing cuts it at one hundred.
pub open spec fn is_percent(r: F32, current: F32, min: F32, max: F32) -> bool {
    exists|d: F32, range: F32, share: F32|
        {
            &&& is_difference(d, current, min)
            &&& is_difference(range, max, min)
            &&& is_quotient(share, floored(d), range)
            &&& is_product(r, share, hundred())
        }
}

/// The speed above the least speed, and zero below it.
pub fn rpm(current: F32, min: F32) -> (r: F32)
    ensures
        is_rpm(r, current, min),
        !r.lt_spec(zero()),
{
    let d = current.sub(min);
    let r = if d.lt(F32::from_bits(0)) {
        F32::from_bits(0)
    } else {
        d
    };
    assert(is_difference(d, current, min) && r == floored(d));
    r
}

/// The speed above the least speed as a percentage of the range of the fan. It
/// is not cut at one hundred.
pub fn percent(current: F32, min: F32, max: F32) -> (r: F32)
    ensures
        is_percent(r, current, min, max),
{
    let d = current.sub(min);
    let above = if d.lt(F32::from_bits(0)) {
        F32::from_bits(0)
    } else {
        d
    };
    let range = max.sub(min);
    let share = above.div(range);
    let r = share.mul(F32::from_bits(0x42c8_0000));
    assert(above == floored(d));
    assert(is_difference(d, current, min) && is_difference(range, max, min) && is_quotient(
        share,
        floored(d),
        range,
    ) && is_product(r, share, hundred()));
    r
}

/// A speed that has passed the test of `set_min_speed` or `set_current_speed`.
#[derive(Clone, Copy, Debug, PartialEq, Eq, Structural)]
pub struct CheckedSpeed {
    pub speed: F32,
}

impl CheckedSpeed {
    /// Takes a speed as checked, without a test.
    pub fn new_unchecked(value: F32) -> (r: Self)
        ensures
            r.speed == value,
    {
        CheckedSpeed { speed: value }
    }
}

impl IntoSMC for CheckedSpeed {
    open spec fn encoding(self, ty: Code, len: nat) -> Option<Seq<u8>> {
        f32_encoding(self.speed, ty@, len)
    }

    fn into_smc(self, param: &mut SMCVal) -> (r: Option<()>) {
        write_f32(self.speed, param)
    }
}

/// A write of a speed that is safe to make: the register, the speed, and
/// whether the fan is first to be taken from the firmware.
#[derive(Clone, Copy, Debug, PartialEq, Eq, Structural)]
pub struct SpeedWrite {
    pub key: Code,
    pub speed: CheckedSpeed,
    pub manual: bool,
}

/// Whether `speed` is safe as the least speed of a fan whose greatest speed is
/// `max`: above zero and at most `max`.
pub open spec fn safe_min_speed(max: F32, speed: F32) -> bool {
    zero().lt_spec(speed) && speed.le_spec(max)
}

/// Whether `speed` is safe as the speed to reach of a fan whose speeds range from
/// `min` to `max`: not outside that range.
pub open spec fn safe_current_speed(min: F32, max: F32, speed: F32) -> bool {
    min.le_spec(speed) && speed.le_spec(max)
}

/// Decides on a new least speed for the fan with index `id`, whose greatest speed
/// is `max`: the write to make, or the error that says that the speed is not
/// safe.
pub fn set_min_speed(id: OneDigit, max: F32, speed: F32) -> (r: Result<SpeedWrite, SMCError>)
    ensures
        safe_min_speed(max, speed) ==> r is Ok && r->Ok_0.key@ == be_unsigned(
            FanRegister::MinSpeed.name_of(id@),
        ) && r->Ok_0.speed.speed == speed && !r->Ok_0.manual,
        !safe_min_speed(max, speed) ==> r is Err && r->Err_0 is UnsafeValue,
{
    if !(F32::from_bits(0).lt(speed) && speed.le(max)) {
        return Err(SMCError::UnsafeValue);
    }
    match FanRegister::MinSpeed.key(id) {
        Ok(key) => Ok(SpeedWrite { key, speed: CheckedSpeed::new_unchecked(speed), manual: false }),
        Err(e) => Err(e),
    }
}

/// Decides on a new speed to reach for the fan with index `id`, whose speeds
/// range from `min` to `max`: the write to make, before which the fan is taken
/// from the firmware, or the error that says that the speed is not safe.
pub fn set_current_speed(id: OneDigit, min: F32, max: F32, speed: F32) -> (r: Result<
    SpeedWrite,
    SMCError,
>)
    ensures
        safe_current_speed(min, max, speed) ==> r is Ok && r->Ok_0.key@ == be_unsigned(
            FanRegister::TargetSpeed.name_of(id@),
        ) && r->Ok_0.speed.speed == speed && r->Ok_0.manual,
        !safe_current_speed(min, max, speed) ==> r is Err && r->Err_0 is UnsafeValue,
{
    if !(min.le(speed) && speed.le(max)) {
        return Err(SMCError::UnsafeValue);
    }
    match FanRegister::TargetSpeed.key(id) {
        Ok(key) => Ok(SpeedWrite { key, speed: CheckedSpeed::new_unchecked(speed), manual: true }),
        Err(e) => Err(e),
    }
}

impl Fan {
    /// Whether the firmware drives this fan, by the bitmask read from the
    /// controller.
    pub fn is_managed(&self, bitmask: u16) -> (r: bool)
        ensures
            r == managed_in(bitmask, self.spec_id()@),
    {
        is_managed(bitmask, self.id)
    }

    /// Decides the write that hands this fan to the firmware or takes it from it.
    pub fn set_managed(&self, bitmask: u16, managed: bool) -> (r: Option<u16>)
        ensures
            r == (if with_managed(bitmask, self.spec_id()@, managed) != bitmask {
                Some(with_managed(bitmask, self.spec_id()@, managed))
            } else {
                None
            }),
    {
        fan_set_managed(bitmask, self.id, managed)
    }

    /// Decides on a new least speed for this fan, whose greatest speed, read from
    /// the controller, is `max`.
    pub fn set_min_speed(&self, max: F32, speed: F32) -> (r: Result<SpeedWrite, SMCError>)
        ensures
            safe_min_speed(max, speed) ==> r is Ok && r->Ok_0.key@ == be_unsigned(
                FanRegister::MinSpeed.name_of(self.spec_id()@),
            ) && r->Ok_0.speed.speed == speed && !r->Ok_0.manual,
            !safe_min_speed(max, speed) ==> r is Err && r->Err_0 is UnsafeValue,
    {
        set_min_speed(self.id, max, speed)
    }

    /// Decides on a new speed to reach for this fan, whose speeds, read from the
    /// controller, range from `min` to `max`.
    pub fn set_current_speed(&self, min: F32, max: F32, speed: F32) -> (r: Result<
        SpeedWrite,
        SMCError,
    >)
        ensures
            safe_current_speed(min, max, speed) ==> r is Ok && r->Ok_0.key@ == be_unsigned(
                FanRegister::TargetSpeed.name_of(self.spec_id()@),
            ) && r->Ok_0.speed.speed == speed && r->Ok_0.manual,
            !safe_current_speed(min, max, speed) ==> r is Err && r->Err_0 is UnsafeValue,
    {
        set_current_speed(self.id, min, max, speed)
    }

    /// The fan with what was read of it from the controller: its three speeds and
    /// the bitmask of the fans that are driven by hand.
    pub fn into_info(self, min_speed: F32, max_speed: F32, current_speed: F32, bitmask: u16) -> (r:
        FanInfo)
        ensures
            r == (FanInfo {
                fan: self,
                min_speed,
                max_speed,
                current_speed,
                managed: managed_in(bitmask, self.spec_id()@),
            }),
    {
        let managed = self.is_managed(bitmask);
        FanInfo { fan: self, min_speed, max_speed, current_speed, managed }
    }
}

/// A fan with its speeds and its mode as they were when they were last read.
#[derive(Clone, Copy, Debug)]
pub struct FanInfo {
    pub fan: Fan,
    pub min_speed: F32,
    pub max_speed: F32,
    pub current_speed: F32,
    pub managed: bool,
}

impl FanInfo {
    /// The index of the fan.
    pub fn id(&self) -> (r: OneDigit)
        ensures
            r == self.fan.spec_id(),
    {
        self.fan.id()
    }

    /// The bytes of the fan's name.
    pub fn name(&self) -> (r: &[u8])
        ensures
            r@ == self.fan.spec_name()@,
    {
        self.fan.name()
    }

    /// The least speed, as it was last read.
    pub fn min_speed(&self) -> (r: F32)
        ensures
            r == self.min_speed,
    {
        self.min_speed
    }

    /// The greatest speed, as it was last read.
    pub fn max_speed(&self) -> (r: F32)
        ensures
            r == self.max_speed,
    {
        self.max_speed
    }

    /// The speed at which the fan turned when it was last read.
    pub fn current_speed(&self) -> (r: F32)
        ensures
            r == self.current_speed,
    {
        self.current_speed
    }

    /// Whether the firmware drove the fan when it was last read.
    pub fn is_managed(&self) -> (r: bool)
        ensures
            r == self.managed,
    {
        self.managed
    }

    /// The speed above the least speed, as they were last read.
    pub fn rpm(&self) -> (r: F32)
        ensures
            is_rpm(r, self.current_speed, self.min_speed),
            !r.lt_spec(zero()),
    {
        rpm(self.current_speed, self.min_speed)
    }

    /// The speed above the least speed as a percentage of the range of the fan, as
    /// they were last read.
    pub fn percent(&self) -> (r: F32)
        ensures
            is_percent(r, self.current_speed, self.min_speed, self.max_speed),
    {
        percent(self.current_speed, self.min_speed, self.max_speed)
    }

    /// Decides the write that hands this fan to the firmware or takes it from it,
    /// by the bitmask read from the controller.
    pub fn set_managed(&self, bitmask: u16, managed: bool) -> (r: Option<u16>)
        ensures
            r == (if with_managed(bitmask, self.fan.spec_id()@, managed) != bitmask {
                Some(with_managed(bitmask, self.fan.spec_id()@, managed))
            } else {
                None
            }),
    {
        fan_set_managed(bitmask, self.id(), managed)
    }

    /// Decides on a new least speed for this fan, by the greatest speed as it was
    /// last read.
    pub fn set_min_speed(&self, speed: F32) -> (r: Result<SpeedWrite, SMCError>)
        ensures
            safe_min_speed(self.max_speed, speed) ==> r is Ok && r->Ok_0.key@ == be_unsigned(
                FanRegister::MinSpeed.name_of(self.fan.spec_id()@),
            ) && r->Ok_0.speed.speed == speed && !r->Ok_0.manual,
            !safe_min_speed(self.max_speed, speed) ==> r is Err && r->Err_0 is UnsafeValue,
    {
        set_min_speed(self.id(), self.max_speed, speed)
    }

    /// Decides on a new speed to reach for this fan, by the least and the greatest
    /// speed as they were last read.
    pub fn set_current_speed(&self, speed: F32) -> (r: Result<SpeedWrite, SMCError>)
        ensures
            safe_current_speed(self.min_speed, self.max_speed, speed) ==> r is Ok
                && r->Ok_0.key@ == be_unsigned(
                FanRegister::TargetSpeed.name_of(self.fan.spec_id()@),
            ) && r->Ok_0.speed.speed == speed && r->Ok_0.manual,
            !safe_current_speed(self.min_speed, self.max_speed, speed) ==> r is Err
                && r->Err_0 is UnsafeValue,
    {
        set_current_speed(self.id(), self.min_speed, self.max_speed, speed)
    }

    /// The fan without what was read of it.
    pub fn into_fan(self) -> (r: Fan)
        ensures
            r == self.fan,
    {
        self.fan
    }

    /// Takes in what was read anew from the controller: the three speeds and the
    /// bitmask of the fans that are driven by hand.
    pub fn refresh(&mut self, min_speed: F32, max_speed: F32, current_speed: F32, bitmask: u16)
        ensures
            *final(self) == (FanInfo {
                fan: old(self).fan,
                min_speed,
                max_speed,
                current_speed,
                managed: managed_in(bitmask, old(self).fan.spec_id()@),
            }),
    {
        self.min_speed = min_speed;
        self.max_speed = max_speed;
        self.current_speed = current_speed;
        self.managed = is_managed(bitmask, self.fan.id());
    }
}

impl From<FanInfo> for Fan {
    fn from(value: FanInfo) -> (r: Self) {
        value.into_fan()
    }
}

impl FromSpecImpl<FanInfo> for Fan {
    open spec fn obeys_from_spec() -> bool {
        true
    }

    open spec fn from_spec(value: FanInfo) -> Self {
        value.fan
    }
}

} // verus!
