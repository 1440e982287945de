//! The assembler: an append-only output buffer, the template bit-packer, the
//! offset resolver and the instructions.
use crate::operand::{operand_pattern, Arg, ArgConsumer, EncodeError, Offset};
use crate::template::{
    bit_count, check_template, count_occurrences, encoding, field_values,
    find_designator, is_designator, lemma_drop_word, lemma_field_value, lemma_next_bit,
    lemma_pack_bound, lemma_set_top_bit, lemma_suffix_bit_count, occurrences, operands_fit,
    pack, template_matches, word_bytes, word_le,
};
use vstd::arithmetic::div_mod::lemma_basic_div;
use vstd::arithmetic::power2::{lemma2_to64, pow2};
use vstd::bits::lemma_u32_shr_is_div;
use vstd::prelude::*;
use vstd::string::StrSliceExecFns;

verus! {

/// Machine code, appended to instruction by instruction.
pub struct Assembler {
    pub buf: Vec<u8>,
}

/// The buffer went from `before` to `after` and the call returned `r`, as
/// `outcome` prescribes: its bytes appended on success, nothing written on
/// failure.
pub open spec fn applied(
    before: Seq<u8>,
    after: Seq<u8>,
    r: Result<(), EncodeError>,
    outcome: Result<Seq<u8>, EncodeError>,
) -> bool {
    match outcome {
        Ok(bytes) => r == Ok::<(), EncodeError>(()) && after == before + bytes,
        Err(e) => r == Err::<(), EncodeError>(e) && after == before,
    }
}

/// The address that `o` stands for at output position `pos`: an absolute
/// address as it is, a relative one added to the position.
pub open spec fn resolved_address(o: Offset, pos: int) -> int {
    match o {
        Offset::Absolute(a) => a as int,
        Offset::Relative(d) => pos + d,
    }
}

/// The resolved address, where it fits a `u32`.
pub open spec fn absolute_operand(o: Offset, pos: int) -> Result<u32, EncodeError> {
    let a = resolved_address(o, pos);
    if 0 <= a <= u32::MAX {
        Ok(a as u32)
    } else {
        Err(EncodeError::OffsetOutOfRange)
    }
}

/// Half the resolved address, which must be even.
pub open spec fn word_address_operand(o: Offset, pos: int) -> Result<u32, EncodeError> {
    match absolute_operand(o, pos) {
        Ok(a) => if a % 2 == 0 {
            Ok((a / 2) as u32)
        } else {
            Err(EncodeError::MisalignedOffset)
        },
        Err(e) => Err(e),
    }
}

/// The resolved address less the position, where it fits an `i32`.
pub open spec fn relative_operand(o: Offset, pos: int) -> Result<i32, EncodeError> {
    let d = resolved_address(o, pos) - pos;
    if i32::MIN <= d <= i32::MAX {
        Ok(d as i32)
    } else {
        Err(EncodeError::OffsetOutOfRange)
    }
}

/// An instruction whose last field `k` holds a byte address.
pub open spec fn with_address(k: Offset, pos: int, t: Seq<char>, args: Seq<(Arg, char)>) -> Result<Seq<u8>, EncodeError> {
    match absolute_operand(k, pos) {
        Ok(a) => encoding(t, args.push((Arg::U32(a), 'k'))),
        Err(e) => Err(e),
    }
}

/// An instruction whose last field `k` holds a word address.
pub open spec fn with_word_address(k: Offset, pos: int, t: Seq<char>, args: Seq<(Arg, char)>) -> Result<Seq<u8>, EncodeError> {
    match word_address_operand(k, pos) {
        Ok(a) => encoding(t, args.push((Arg::U32(a), 'k'))),
        Err(e) => Err(e),
    }
}

/// An instruction whose last field `k` holds a displacement.
pub open spec fn with_displacement(k: Offset, pos: int, t: Seq<char>, args: Seq<(Arg, char)>) -> Result<Seq<u8>, EncodeError> {
    match relative_operand(k, pos) {
        Ok(x) => encoding(t, args.push((Arg::I32(x), 'k'))),
        Err(e) => Err(e),
    }
}

impl Assembler {
    /// An assembler with an empty buffer.
    pub fn new() -> (a: Assembler)
        ensures
            a.buf@ == Seq::<u8>::empty(),
    {
        Assembler { buf: Vec::new() }
    }

    /// The template bit-packer: appends the instruction that `template`
    /// describes, its fields filled from `args`.
    pub fn encode(&mut self, args: &[(Arg, char)], template: &str) -> (r: Result<(), EncodeError>)
        ensures
            applied(old(self).buf@, final(self).buf@, r, encoding(template@, args@)),
    {
        let ghost t = template@;
        let n = template.unicode_len();
        if !check_template(args, template, n) {
            return Err(EncodeError::InvalidTemplate);
        }
        let mut consumers: Vec<ArgConsumer> = Vec::new();
        let mut j: usize = 0;
        while j < args.len()
            invariant
                j <= args@.len(),
                consumers@.len() == j,
                n == t.len(),
                t == template@,
                template_matches(t, args@),
                forall|k: int|
                    0 <= k < j ==> #[trigger] operand_pattern(args@[k].0, occurrences(t, args@[k].1))
                        == Some(consumers@[k].value),
            decreases args@.len() - j,
        {
            let (arg, c) = args[j];
            let width = count_occurrences(template, n, c);
            match ArgConsumer::new(arg, width) {
                Ok(consumer) => consumers.push(consumer),
                Err(e) => {
                    proof {
                        assert(operand_pattern(args@[j as int].0, occurrences(t, args@[j as int].1)).is_none());
                        assert(!operands_fit(t, args@));
                    }
                    return Err(EncodeError::InvalidOperand);
                },
            }
            j = j + 1;
        }
        let ghost vals = field_values(t, args@);
        proof {
            lemma2_to64();
            assert forall|k: int| 0 <= k < args@.len() implies vals.contains_key(#[trigger] args@[k].1)
                && consumers@[k].value == vals[args@[k].1] as nat
                / pow2(occurrences(t.subrange(n as int, n as int), args@[k].1)) by {
                lemma_field_value(t, args@, k);
                assert(operand_pattern(args@[k].0, occurrences(t, args@[k].1)) == Some(consumers@[k].value));
                assert(occurrences(t.subrange(n as int, n as int), args@[k].1) == 0);
            }
        }
        let mut result: u32 = 0;
        let mut result_bits: usize = 0;
        let mut i: usize = n;
        while i > 0
            invariant
                i <= n,
                n == t.len(),
                t == template@,
                template_matches(t, args@),
                consumers@.len() == args@.len(),
                vals == field_values(t, args@),
                result_bits == bit_count(t.subrange(i as int, n as int)),
                result == pack(t.subrange(i as int, n as int), vals),
                forall|k: int| 0 <= k < args@.len() ==> vals.contains_key(#[trigger] args@[k].1),
                forall|k: int|
                    0 <= k < args@.len() ==> (#[trigger] consumers@[k]).value == vals[args@[k].1] as nat
                        / pow2(occurrences(t.subrange(i as int, n as int), args@[k].1)),
            decreases i,
        {
            i = i - 1;
            let ghost rest = t.subrange(i + 1, n as int);
            let ghost suffix = t.subrange(i as int, n as int);
            proof {
                assert(suffix.drop_first() =~= rest);
                lemma_suffix_bit_count(t, i as int);
                lemma_pack_bound(rest, vals);
            }
            let c = template.get_char(i);
            if c == ' ' {
                proof {
                    assert forall|k: int| 0 <= k < args@.len() implies occurrences(suffix, #[trigger] args@[k].1)
                        == occurrences(rest, args@[k].1) by {
                        assert(is_designator(args@[k].1));
                    }
                }
                continue;
            }
            let ghost old_consumers = consumers@;
            let bit: u32 = if c == '0' {
                0
            } else if c == '1' {
                1
            } else {
                proof {
                    assert(is_designator(t[i as int]));
                }
                match find_designator(args, c) {
                    Some(k) => {
                        let mut consumer = consumers[k];
                        let b = consumer.consume_bit();
                        proof {
                            lemma_next_bit(vals[c] as nat, occurrences(rest, c));
                            assert forall|a: int, b: int| 0 <= a < b < args@.len() implies args@[a].1 != args@[b].1 by {
                                assert(args@[a].1 != args@[b].1);
                            }
                        }
                        consumers.set(k, consumer);
                        b
                    },
                    None => {
                        proof {
                            assert(false);
                        }
                        0
                    },
                }
            };
            proof {
                assert forall|k: int| 0 <= k < args@.len() implies (#[trigger] consumers@[k]).value == vals[args@[k].1] as nat
                    / pow2(occurrences(suffix, args@[k].1)) by {
                    assert(is_designator(args@[k].1));
                    if args@[k].1 != c {
                        assert(consumers@[k] == old_consumers[k]);
                    }
                }
                assert(bit as nat == crate::template::template_bit(c, vals, occurrences(rest, c)));
                lemma_set_top_bit(result, bit, result_bits as u32);
            }
            result = result | (bit << result_bits as u32);
            result_bits = result_bits + 1;
        }
        proof {
            assert(t.subrange(0, n as int) =~= t);
            lemma_pack_bound(t, vals);
            assert(operands_fit(t, args@));
        }
        let ghost v = result as nat;
        let ghost total = result_bits;
        let mut remaining: usize = result_bits;
        proof {
            lemma_basic_div(v as int, pow2(total as nat) as int);
        }
        while remaining > 0
            invariant
                remaining % 16 == 0,
                remaining <= total,
                total <= 32,
                total % 16 == 0,
                v == result,
                v == pack(t, vals),
                vals == field_values(t, args@),
                total == bit_count(t),
                template_matches(t, args@),
                operands_fit(t, args@),
                self.buf@ == old(self).buf@ + word_bytes(v / pow2(remaining as nat), ((total - remaining) / 16) as nat),
            decreases remaining,
        {
            let shift = (remaining - 16) as u32;
            let word: u32 = (result >> shift) & 0xffff;
            proof {
                assert(word & 0xff < 256) by (bit_vector);
                assert(word <= 0xffff ==> word >> 8u32 < 256) by (bit_vector);
                let x = result >> shift;
                assert(x & 0xffff <= 0xffff) by (bit_vector);
            }
            let low = (word & 0xff) as u8;
            let high = (word >> 8u32) as u8;
            proof {
                lemma_u32_shr_is_div(result, shift);
                let x = result >> shift;
                assert(x & 0xffff == x % 65536) by (bit_vector);
                assert(word & 0xff == word % 256) by (bit_vector);
                assert(word >> 8u32 == word / 256) by (bit_vector);
                lemma_drop_word(v, shift as nat);
                let w = v / pow2(shift as nat);
                let k = ((total - remaining) / 16) as nat;
                assert(((total - shift) / 16) as nat == k + 1);
                assert(word_bytes(w, k + 1) == word_bytes(w / 65536, k) + word_le(w % 65536));
                assert(word_le(w % 65536) == seq![low, high]);
            }
            self.buf.push(low);
            self.buf.push(high);
            proof {
                assert(self.buf@ =~= old(self).buf@ + word_bytes(v / pow2(shift as nat), ((total - shift) / 16) as nat));
            }
            remaining = remaining - 16;
        }
        proof {
            assert(pow2(0) == 1) by {
                lemma2_to64();
            }
            assert(v / pow2(0) == v);
        }
        Ok(())
    }

    /// The offset resolver: the byte address that `offset` stands for when
    /// the instruction is encoded at the current end of the buffer.
    pub fn resolve_absolute_offset(&self, offset: Offset) -> (r: Result<u32, EncodeError>)
        ensures
            r == absolute_operand(offset, self.buf@.len() as int),
    {
        match offset {
            Offset::Absolute(x) => Ok(x),
            Offset::Relative(x) => {
                let address: i128 = self.buf.len() as i128 + x as i128;
                if 0 <= address && address <= u32::MAX as i128 {
                    Ok(address as u32)
                } else {
                    Err(EncodeError::OffsetOutOfRange)
                }
            },
        }
    }

    /// The word address that `offset` stands for: its byte address, which
    /// must be even, halved.
    pub fn resolve_absolute_offset_doubles(&self, offset: Offset) -> (r: Result<u32, EncodeError>)
        ensures
            r == word_address_operand(offset, self.buf@.len() as int),
    {
        match self.resolve_absolute_offset(offset) {
            Ok(address) => if address % 2 == 0 {
                Ok(address / 2)
            } else {
                Err(EncodeError::MisalignedOffset)
            },
            Err(e) => Err(e),
        }
    }

    /// The displacement of `offset` from the current end of the buffer.
    pub fn resolve_relative_offset(&self, offset: Offset) -> (r: Result<i32, EncodeError>)
        ensures
            r == relative_operand(offset, self.buf@.len() as int),
    {
        match offset {
            Offset::Absolute(x) => {
                let displacement: i128 = x as i128 - self.buf.len() as i128;
                if i32::MIN as i128 <= displacement && displacement <= i32::MAX as i128 {
                    Ok(displacement as i32)
                } else {
                    Err(EncodeError::OffsetOutOfRange)
                }
            },
            Offset::Relative(x) => Ok(x),
        }
    }
}

} // verus!
