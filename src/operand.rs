//! The operand model (registers, register pairs, addressing modes, offsets)
//! and the operand encoder, which turns a typed operand into the bit pattern
//! of a field of a given width.
use vstd::arithmetic::power2::{lemma2_to64, lemma_pow2_strictly_increases, pow2};
use vstd::bits::{lemma_u32_shl_is_mul, lemma_u64_shl_is_mul, lemma_u64_pow2_no_overflow};
use vstd::prelude::*;

verus! {

/// Why an instruction could not be encoded. Nothing is written to the
/// output when one of these is returned.
#[derive(Clone, Copy, Debug, PartialEq, Eq, Structural)]
pub enum EncodeError {
    /// The template is malformed or does not match the operand list: an
    /// unknown character, a designator without an operand (or the other way
    /// round), a repeated designator, or a bit count that is not 16 or 32
    /// (or zero).
    InvalidTemplate,
    /// An operand does not fit the field that the template gives it.
    InvalidOperand,
    /// The index pair cannot be used with the requested addressing mode.
    InvalidAddressing,
    /// A word-addressed target is an odd byte address.
    MisalignedOffset,
    /// A resolved address or displacement does not fit its integer type.
    OffsetOutOfRange,
}

/// A general-purpose register, identified by its number (`R0` to `R31`).
#[derive(Clone, Copy, Debug, PartialEq, Eq, Structural)]
pub struct Register(pub u32);

/// A register pair `(high, low)`, as used for 16-bit pointers and data words.
/// A well-formed pair has an even low register and `high == low + 1`.
#[derive(Clone, Copy, Debug, PartialEq, Eq, Structural)]
pub struct RegisterPair(pub Register, pub Register);

/// The `X` index pair, `R27:R26`.
pub open spec fn index_x() -> RegisterPair {
    RegisterPair(Register(27), Register(26))
}

/// The `Y` index pair, `R29:R28`.
pub open spec fn index_y() -> RegisterPair {
    RegisterPair(Register(29), Register(28))
}

/// The `Z` index pair, `R31:R30`.
pub open spec fn index_z() -> RegisterPair {
    RegisterPair(Register(31), Register(30))
}

/// What an indirect access does to its index pair.
#[derive(Clone, Copy, Debug, PartialEq, Eq, Structural)]
pub enum Direction {
    PreDecrement,
    NoChange,
    PostIncrement,
}

/// An index pair together with its increment/decrement mode.
#[derive(Clone, Copy, Debug, PartialEq, Eq, Structural)]
pub struct DirectionalRegisterPair {
    pub pair: RegisterPair,
    pub direction: Direction,
}

/// An index pair together with a small unsigned displacement.
#[derive(Clone, Copy, Debug, PartialEq, Eq, Structural)]
pub struct OffsetRegisterPair {
    pub pair: RegisterPair,
    pub offset: u8,
}

impl RegisterPair {
    /// The `X` index pair, `R27:R26`.
    pub fn x() -> (p: RegisterPair)
        ensures
            p == index_x(),
    {
        RegisterPair(Register(27), Register(26))
    }

    /// The `Y` index pair, `R29:R28`.
    pub fn y() -> (p: RegisterPair)
        ensures
            p == index_y(),
    {
        RegisterPair(Register(29), Register(28))
    }

    /// The `Z` index pair, `R31:R30`.
    pub fn z() -> (p: RegisterPair)
        ensures
            p == index_z(),
    {
        RegisterPair(Register(31), Register(30))
    }

    /// Indirect access that increments the pair after the access.
    pub fn post_increment(self) -> (r: DirectionalRegisterPair)
        ensures
            r == (DirectionalRegisterPair { pair: self, direction: Direction::PostIncrement }),
    {
        DirectionalRegisterPair { pair: self, direction: Direction::PostIncrement }
    }

    /// Indirect access that decrements the pair before the access.
    pub fn pre_decrement(self) -> (r: DirectionalRegisterPair)
        ensures
            r == (DirectionalRegisterPair { pair: self, direction: Direction::PreDecrement }),
    {
        DirectionalRegisterPair { pair: self, direction: Direction::PreDecrement }
    }
}

/// A plain pair used as an indirect operand leaves the pair unchanged.
impl From<RegisterPair> for DirectionalRegisterPair {
    fn from(pair: RegisterPair) -> (r: DirectionalRegisterPair) {
        DirectionalRegisterPair { pair, direction: Direction::NoChange }
    }
}

impl vstd::std_specs::convert::FromSpecImpl<RegisterPair> for DirectionalRegisterPair {
    open spec fn obeys_from_spec() -> bool {
        true
    }

    open spec fn from_spec(pair: RegisterPair) -> DirectionalRegisterPair {
        DirectionalRegisterPair { pair, direction: Direction::NoChange }
    }
}

/// `pair + q` is displacement addressing: the pair plus `q` bytes.
impl core::ops::Add<u8> for RegisterPair {
    type Output = OffsetRegisterPair;

    fn add(self, rhs: u8) -> (r: OffsetRegisterPair) {
        OffsetRegisterPair { pair: self, offset: rhs }
    }
}

impl vstd::std_specs::ops::AddSpecImpl<u8> for RegisterPair {
    open spec fn obeys_add_spec() -> bool {
        true
    }

    open spec fn add_req(self, rhs: u8) -> bool {
        true
    }

    open spec fn add_spec(self, rhs: u8) -> OffsetRegisterPair {
        OffsetRegisterPair { pair: self, offset: rhs }
    }
}

/// A branch or call target: a byte address already known, or a
/// displacement from the position at which the instruction is encoded.
/// A relative offset is held in words.
#[derive(Clone, Copy, Debug, PartialEq, Eq, Structural)]
pub enum Offset {
    Absolute(u32),
    Relative(i32),
}

/// A relative offset of `x` bytes, which must be even; it is held as `x / 2`
/// words.
pub fn relative(x: i32) -> (r: Offset)
    requires
        x % 2 == 0,
    ensures
        r == Offset::Relative((x / 2) as i32),
{
    Offset::Relative(x / 2)
}

/// The absolute byte address `x`.
pub fn absolute(x: u32) -> (r: Offset)
    ensures
        r == Offset::Absolute(x),
{
    Offset::Absolute(x)
}

/// An operand value, before it is turned into the bit pattern of a field.
#[derive(Clone, Copy, Debug, PartialEq, Eq, Structural)]
pub enum Arg {
    Register(Register),
    RegisterPair(RegisterPair),
    U32(u32),
    U8(u8),
    I32(i32),
}

/// A register operand.
impl From<Register> for Arg {
    fn from(x: Register) -> (r: Arg) {
        Arg::Register(x)
    }
}

impl vstd::std_specs::convert::FromSpecImpl<Register> for Arg {
    open spec fn obeys_from_spec() -> bool {
        true
    }

    open spec fn from_spec(x: Register) -> Arg {
        Arg::Register(x)
    }
}

/// A register-pair operand.
impl From<RegisterPair> for Arg {
    fn from(x: RegisterPair) -> (r: Arg) {
        Arg::RegisterPair(x)
    }
}

impl vstd::std_specs::convert::FromSpecImpl<RegisterPair> for Arg {
    open spec fn obeys_from_spec() -> bool {
        true
    }

    open spec fn from_spec(x: RegisterPair) -> Arg {
        Arg::RegisterPair(x)
    }
}

/// An unsigned immediate.
impl From<u32> for Arg {
    fn from(x: u32) -> (r: Arg) {
        Arg::U32(x)
    }
}

impl vstd::std_specs::convert::FromSpecImpl<u32> for Arg {
    open spec fn obeys_from_spec() -> bool {
        true
    }

    open spec fn from_spec(x: u32) -> Arg {
        Arg::U32(x)
    }
}

/// A small unsigned immediate, such as a displacement.
impl From<u8> for Arg {
    fn from(x: u8) -> (r: Arg) {
        Arg::U8(x)
    }
}

impl vstd::std_specs::convert::FromSpecImpl<u8> for Arg {
    open spec fn obeys_from_spec() -> bool {
        true
    }

    open spec fn from_spec(x: u8) -> Arg {
        Arg::U8(x)
    }
}

/// A signed value, such as a resolved displacement.
impl From<i32> for Arg {
    fn from(x: i32) -> (r: Arg) {
        Arg::I32(x)
    }
}

impl vstd::std_specs::convert::FromSpecImpl<i32> for Arg {
    open spec fn obeys_from_spec() -> bool {
        true
    }

    open spec fn from_spec(x: i32) -> Arg {
        Arg::I32(x)
    }
}

/// The pattern of a plain register in a field of `width` bits. A ten-bit
/// field holds the split layout in which bit 4 of the number stands apart
/// from bits 3 to 0.
pub open spec fn register_pattern(id: u32, width: nat) -> Option<u32> {
    if width == 10 {
        if id < 32 {
            Some((id << 4u32) | ((id & 16) << 9u32) | (id & 15))
        } else {
            None
        }
    } else if width == 5 {
        if id < 32 {
            Some(id)
        } else {
            None
        }
    } else if width == 4 {
        if 16 <= id < 32 {
            Some(id & 15)
        } else {
            None
        }
    } else if width == 3 {
        if 16 <= id < 24 {
            Some(id & 7)
        } else {
            None
        }
    } else {
        None
    }
}

/// A pair of consecutive registers with an even low register.
pub open spec fn is_well_formed_pair(p: RegisterPair) -> bool {
    p.0.0 == p.1.0 + 1 && p.1.0 % 2 == 0
}

/// The pattern of a register pair in a field of `width` bits: half its low
/// register, provided the pair is one of the highest `2^width` pairs.
pub open spec fn pair_pattern(p: RegisterPair, width: nat) -> Option<u32> {
    if is_well_formed_pair(p) && 32 <= p.1.0 + 2 * pow2(width) {
        Some(p.1.0 / 2)
    } else {
        None
    }
}

/// The bit pattern that `arg` gives a field of `width` bits, or `None` where
/// it does not fit. A signed value is taken in two's complement.
pub open spec fn operand_pattern(arg: Arg, width: nat) -> Option<u32> {
    match arg {
        Arg::Register(r) => register_pattern(r.0, width),
        Arg::RegisterPair(p) => pair_pattern(p, width),
        Arg::U32(x) => if x < pow2(width) {
            Some(x)
        } else {
            None
        },
        Arg::U8(x) => if x < pow2(width) {
            Some(x as u32)
        } else {
            None
        },
        Arg::I32(x) => Some(x as u32),
    }
}

/// Whether `x` fits an unsigned field of `width` bits.
fn fits_width(x: u32, width: usize) -> (r: bool)
    ensures
        r == (x < pow2(width as nat)),
{
    if width >= 32 {
        proof {
            lemma2_to64();
            if width > 32 {
                lemma_pow2_strictly_increases(32, width as nat);
            }
        }
        true
    } else {
        proof {
            lemma_u64_pow2_no_overflow(width as nat);
            lemma_u64_shl_is_mul(1, width as u64);
        }
        (x as u64) < (1u64 << (width as u64))
    }
}

fn register_field(id: u32, width: usize) -> (r: Option<u32>)
    ensures
        r == register_pattern(id, width as nat),
{
    if width == 10 {
        if id < 32 {
            Some((id << 4u32) | ((id & 16) << 9u32) | (id & 15))
        } else {
            None
        }
    } else if width == 5 {
        if id < 32 {
            Some(id)
        } else {
            None
        }
    } else if width == 4 {
        if 16 <= id && id < 32 {
            Some(id & 15)
        } else {
            None
        }
    } else if width == 3 {
        if 16 <= id && id < 24 {
            Some(id & 7)
        } else {
            None
        }
    } else {
        None
    }
}

fn pair_field(p: RegisterPair, width: usize) -> (r: Option<u32>)
    ensures
        r == pair_pattern(p, width as nat),
{
    let high = p.0.0;
    let low = p.1.0;
    if high as u64 != low as u64 + 1 || low % 2 == 1 {
        return None;
    }
    if width < 4 {
        proof {
            lemma2_to64();
            lemma_u32_shl_is_mul(1, width as u32);
        }
        let min_representable: u32 = 32 - 2 * (1u32 << width as u32);
        if low < min_representable {
            return None;
        }
    } else {
        proof {
            lemma2_to64();
            if width > 4 {
                lemma_pow2_strictly_increases(4, width as nat);
            }
        }
    }
    Some(low / 2)
}

/// The operand encoder: the bit pattern of `arg` in a field of `width` bits.
pub fn encode_operand(arg: Arg, width: usize) -> (r: Result<u32, EncodeError>)
    ensures
        r == (match operand_pattern(arg, width as nat) {
            Some(v) => Ok(v),
            None => Err(EncodeError::InvalidOperand),
        }),
{
    let pattern = match arg {
        Arg::Register(reg) => register_field(reg.0, width),
        Arg::RegisterPair(p) => pair_field(p, width),
        Arg::U32(x) => if fits_width(x, width) {
            Some(x)
        } else {
            None
        },
        Arg::U8(x) => if fits_width(x as u32, width) {
            Some(x as u32)
        } else {
            None
        },
        Arg::I32(x) => Some(x as u32),
    };
    match pattern {
        Some(v) => Ok(v),
        None => Err(EncodeError::InvalidOperand),
    }
}

/// The bits of one operand's pattern, handed out least significant first.
#[derive(Clone, Copy, Debug)]
pub struct ArgConsumer {
    pub value: u32,
}

impl ArgConsumer {
    /// A consumer of the pattern that `arg` gives a field of `bit_count` bits.
    pub fn new(arg: Arg, bit_count: usize) -> (r: Result<ArgConsumer, EncodeError>)
        ensures
            r == (match operand_pattern(arg, bit_count as nat) {
                Some(v) => Ok(ArgConsumer { value: v }),
                None => Err(EncodeError::InvalidOperand),
            }),
    {
        match encode_operand(arg, bit_count) {
            Ok(v) => Ok(ArgConsumer { value: v }),
            Err(e) => Err(e),
        }
    }

    /// Takes the least significant bit that is left.
    pub fn consume_bit(&mut self) -> (bit: u32)
        ensures
            bit == old(self).value % 2,
            final(self).value == old(self).value / 2,
    {
        let ret = self.value & 1;
        proof {
            let v = self.value;
            assert(v & 1 == v % 2) by (bit_vector);
        }
        self.value = self.value >> 1;
        proof {
            let v = old(self).value;
            assert(v >> 1 == v / 2) by (bit_vector);
        }
        ret
    }
}

} // verus!
