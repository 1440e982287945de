//! Typed operations for the rest of the instruction set, one per entry of
//! the instruction table: each resolves its offset, if any, and hands its
//! operands and its template to the packer.
use crate::assembler::{
    absolute_operand, applied, relative_operand, with_address, with_displacement, with_word_address,
    word_address_operand, Assembler,
};
use crate::operand::{index_z, is_well_formed_pair, Arg, EncodeError, Offset, Register, RegisterPair};
use crate::template::{
    bit_count, encoding, lemma_counts_concat, lemma_one_field, lemma_register_word, lemma_two_fields, occurrences,
    one_field_template, two_field_template,
};
use vstd::arithmetic::power2::lemma2_to64;
use vstd::prelude::*;

verus! {

/// The implicit operand of an instruction that only works on `Z`.
pub open spec fn implicit_z(z: RegisterPair, outcome: Result<Seq<u8>, EncodeError>) -> Result<Seq<u8>, EncodeError> {
    if z == index_z() {
        outcome
    } else {
        Err(EncodeError::InvalidAddressing)
    }
}

/// The `NOP` template has no fields.
#[verifier::rlimit(100)]
proof fn lemma_nop_template()
    ensures
        encoding("0000 0000 0000 0000"@, seq![]) is Ok,
{
    reveal_strlit("0000 0000 0000 0000");
    reveal_with_fuel(bit_count, 20);
}

/// The `ADD` template has fields `d` (5 bits) and `r` (5 bits).
#[verifier::rlimit(100)]
proof fn lemma_add_template()
    ensures
        two_field_template("0000 11rd dddd rrrr"@, 'd', 5, 'r', 5),
{
    reveal_strlit("0000 11rd dddd rrrr");
    reveal_with_fuel(bit_count, 20);
    reveal_with_fuel(occurrences, 20);
}

/// The `MOV` template has fields `d` (5 bits) and `r` (5 bits).
#[verifier::rlimit(100)]
proof fn lemma_mov_template()
    ensures
        two_field_template("0010 11rd dddd rrrr"@, 'd', 5, 'r', 5),
{
    reveal_strlit("0010 11rd dddd rrrr");
    reveal_with_fuel(bit_count, 20);
    reveal_with_fuel(occurrences, 20);
}

/// The `LDI` template has fields `d` (4 bits) and `K` (8 bits).
#[verifier::rlimit(100)]
proof fn lemma_ldi_template()
    ensures
        two_field_template("1110 KKKK dddd KKKK"@, 'd', 4, 'K', 8),
{
    reveal_strlit("1110 KKKK dddd KKKK");
    reveal_with_fuel(bit_count, 20);
    reveal_with_fuel(occurrences, 20);
}

/// The `MULSU` template has fields `d` (3 bits) and `r` (3 bits).
#[verifier::rlimit(100)]
proof fn lemma_mulsu_template()
    ensures
        two_field_template("0000 0011 0ddd 0rrr"@, 'd', 3, 'r', 3),
{
    reveal_strlit("0000 0011 0ddd 0rrr");
    reveal_with_fuel(bit_count, 20);
    reveal_with_fuel(occurrences, 20);
}

/// The `CLR` template has one field `d` of 10 bits.
#[verifier::rlimit(100)]
proof fn lemma_clr_template()
    ensures
        one_field_template("0010 01dd dddd dddd"@, 'd', 10),
{
    reveal_strlit("0010 01dd dddd dddd");
    reveal_with_fuel(bit_count, 20);
    reveal_with_fuel(occurrences, 20);
}

/// The `PUSH` template has one field `r` of 5 bits.
#[verifier::rlimit(100)]
proof fn lemma_push_template()
    ensures
        one_field_template("1001 001r rrrr 1111"@, 'r', 5),
{
    reveal_strlit("1001 001r rrrr 1111");
    lemma_register_word("1001 001r rrrr 1111"@, 'r');
}

/// The `POP` template has one field `d` of 5 bits.
#[verifier::rlimit(100)]
proof fn lemma_pop_template()
    ensures
        one_field_template("1001 000d dddd 1111"@, 'd', 5),
{
    reveal_strlit("1001 000d dddd 1111");
    lemma_register_word("1001 000d dddd 1111"@, 'd');
}

/// The `MOVW` template has fields `d` (4 bits) and `r` (4 bits).
#[verifier::rlimit(100)]
proof fn lemma_movw_template()
    ensures
        two_field_template("0000 0001 dddd rrrr"@, 'd', 4, 'r', 4),
{
    reveal_strlit("0000 0001 dddd rrrr");
    reveal_with_fuel(bit_count, 20);
    reveal_with_fuel(occurrences, 20);
}

/// The `ADIW` template has fields `d` (2 bits) and `K` (6 bits).
#[verifier::rlimit(100)]
proof fn lemma_adiw_template()
    ensures
        two_field_template("1001 0110 KKdd KKKK"@, 'd', 2, 'K', 6),
{
    reveal_strlit("1001 0110 KKdd KKKK");
    reveal_with_fuel(bit_count, 20);
    reveal_with_fuel(occurrences, 20);
}

/// The `IN` template has fields `d` (5 bits) and `A` (6 bits).
#[verifier::rlimit(100)]
proof fn lemma_in_template()
    ensures
        two_field_template("1011 0AAd dddd AAAA"@, 'd', 5, 'A', 6),
{
    reveal_strlit("1011 0AAd dddd AAAA");
    reveal_with_fuel(bit_count, 20);
    reveal_with_fuel(occurrences, 20);
}

/// The `OUT` template has fields `A` (6 bits) and `r` (5 bits).
#[verifier::rlimit(100)]
proof fn lemma_out_template()
    ensures
        two_field_template("1011 1AAr rrrr AAAA"@, 'A', 6, 'r', 5),
{
    reveal_strlit("1011 1AAr rrrr AAAA");
    reveal_with_fuel(bit_count, 20);
    reveal_with_fuel(occurrences, 20);
}

/// The `RJMP` template has one field `k` of 12 bits.
#[verifier::rlimit(100)]
proof fn lemma_rjmp_template()
    ensures
        one_field_template("1100 kkkk kkkk kkkk"@, 'k', 12),
{
    reveal_strlit("1100 kkkk kkkk kkkk");
    reveal_with_fuel(bit_count, 20);
    reveal_with_fuel(occurrences, 20);
}

/// The `RCALL` template has one field `k` of 12 bits.
#[verifier::rlimit(100)]
proof fn lemma_rcall_template()
    ensures
        one_field_template("1101 kkkk kkkk kkkk"@, 'k', 12),
{
    reveal_strlit("1101 kkkk kkkk kkkk");
    reveal_with_fuel(bit_count, 20);
    reveal_with_fuel(occurrences, 20);
}

/// The `BRBS` template has fields `s` (3 bits) and `k` (7 bits).
#[verifier::rlimit(100)]
proof fn lemma_brbs_template()
    ensures
        two_field_template("1111 00kk kkkk ksss"@, 's', 3, 'k', 7),
{
    reveal_strlit("1111 00kk kkkk ksss");
    reveal_with_fuel(bit_count, 20);
    reveal_with_fuel(occurrences, 20);
}

/// The `BRBC` template has fields `s` (3 bits) and `k` (7 bits).
#[verifier::rlimit(100)]
proof fn lemma_brbc_template()
    ensures
        two_field_template("1111 01kk kkkk ksss"@, 's', 3, 'k', 7),
{
    reveal_strlit("1111 01kk kkkk ksss");
    reveal_with_fuel(bit_count, 20);
    reveal_with_fuel(occurrences, 20);
}

/// The `BREQ` template has one field `k` of 7 bits.
#[verifier::rlimit(100)]
proof fn lemma_breq_template()
    ensures
        one_field_template("1111 00kk kkkk k001"@, 'k', 7),
{
    reveal_strlit("1111 00kk kkkk k001");
    reveal_with_fuel(bit_count, 20);
    reveal_with_fuel(occurrences, 20);
}

/// The `BRNE` template has one field `k` of 7 bits.
#[verifier::rlimit(100)]
proof fn lemma_brne_template()
    ensures
        one_field_template("1111 01kk kkkk k001"@, 'k', 7),
{
    reveal_strlit("1111 01kk kkkk k001");
    reveal_with_fuel(bit_count, 20);
    reveal_with_fuel(occurrences, 20);
}

/// The `CALL` template has one field `k` of 22 bits.
proof fn lemma_call_template()
    ensures
        one_field_template("1001 010k kkkk 111k kkkk kkkk kkkk kkkk"@, 'k', 22),
{
    reveal_strlit("1001 010k kkkk 111k kkkk kkkk kkkk kkkk");
    let t = "1001 010k kkkk 111k kkkk kkkk kkkk kkkk"@;
    let first = t.subrange(0, 20);
    let second = t.subrange(20, 39);
    assert(t =~= first + second);
    lemma_counts_concat(first, second, 'k');
    assert(occurrences(first, 'k') == 6 && occurrences(second, 'k') == 16) by {
        reveal_with_fuel(occurrences, 21);
    }
    assert(bit_count(first) == 16 && bit_count(second) == 16) by {
        reveal_with_fuel(bit_count, 21);
    }
}

/// The `JMP` template has one field `k` of 22 bits.
proof fn lemma_jmp_template()
    ensures
        one_field_template("1001 010k kkkk 110k kkkk kkkk kkkk kkkk"@, 'k', 22),
{
    reveal_strlit("1001 010k kkkk 110k kkkk kkkk kkkk kkkk");
    let t = "1001 010k kkkk 110k kkkk kkkk kkkk kkkk"@;
    let first = t.subrange(0, 20);
    let second = t.subrange(20, 39);
    assert(t =~= first + second);
    lemma_counts_concat(first, second, 'k');
    assert(occurrences(first, 'k') == 6 && occurrences(second, 'k') == 16) by {
        reveal_with_fuel(occurrences, 21);
    }
    assert(bit_count(first) == 16 && bit_count(second) == 16) by {
        reveal_with_fuel(bit_count, 21);
    }
}

/// The `STS` template has fields `d` (5 bits) and `k` (16 bits).
proof fn lemma_sts_template()
    ensures
        two_field_template("1001 001d dddd 0000 kkkk kkkk kkkk kkkk"@, 'd', 5, 'k', 16),
{
    reveal_strlit("1001 001d dddd 0000 kkkk kkkk kkkk kkkk");
    let t = "1001 001d dddd 0000 kkkk kkkk kkkk kkkk"@;
    let first = t.subrange(0, 20);
    let second = t.subrange(20, 39);
    assert(t =~= first + second);
    lemma_counts_concat(first, second, 'd');
    assert(occurrences(first, 'd') == 5 && occurrences(second, 'd') == 0) by {
        reveal_with_fuel(occurrences, 21);
    }
    lemma_counts_concat(first, second, 'k');
    assert(occurrences(first, 'k') == 0 && occurrences(second, 'k') == 16) by {
        reveal_with_fuel(occurrences, 21);
    }
    assert(bit_count(first) == 16 && bit_count(second) == 16) by {
        reveal_with_fuel(bit_count, 21);
    }
}

/// The `LAC` template has one field `d` of 5 bits.
#[verifier::rlimit(100)]
proof fn lemma_lac_template()
    ensures
        one_field_template("1001 001d dddd 0110"@, 'd', 5),
{
    reveal_strlit("1001 001d dddd 0110");
    lemma_register_word("1001 001d dddd 0110"@, 'd');
}

/// The `LAS` template has one field `d` of 5 bits.
#[verifier::rlimit(100)]
proof fn lemma_las_template()
    ensures
        one_field_template("1001 001d dddd 0101"@, 'd', 5),
{
    reveal_strlit("1001 001d dddd 0101");
    lemma_register_word("1001 001d dddd 0101"@, 'd');
}

/// The `LAT` template has one field `d` of 5 bits.
#[verifier::rlimit(100)]
proof fn lemma_lat_template()
    ensures
        one_field_template("1001 001d dddd 0111"@, 'd', 5),
{
    reveal_strlit("1001 001d dddd 0111");
    lemma_register_word("1001 001d dddd 0111"@, 'd');
}

/// The `XCH` template has one field `d` of 5 bits.
#[verifier::rlimit(100)]
proof fn lemma_xch_template()
    ensures
        one_field_template("1001 001d dddd 0100"@, 'd', 5),
{
    reveal_strlit("1001 001d dddd 0100");
    lemma_register_word("1001 001d dddd 0100"@, 'd');
}

impl Assembler {
    /// `NOP`.
    pub fn nop(&mut self) -> (res: Result<(), EncodeError>)
        ensures
            applied(old(self).buf@, final(self).buf@, res, encoding("0000 0000 0000 0000"@, seq![])),
            res == Ok::<(), EncodeError>(()),
    {
        proof {
            lemma_nop_template();
        }
        self.emit0("0000 0000 0000 0000")
    }

    /// `ADD Rd, Rr`.
    pub fn add(&mut self, d: Register, r: Register) -> (res: Result<(), EncodeError>)
        ensures
            applied(
                old(self).buf@,
                final(self).buf@,
                res,
                encoding("0000 11rd dddd rrrr"@, seq![(Arg::Register(d), 'd'), (Arg::Register(r), 'r')]),
            ),
            res == (if d.0 < 32 && r.0 < 32 {
                Ok(())
            } else {
                Err(EncodeError::InvalidOperand)
            }),
    {
        proof {
            lemma2_to64();
            lemma_add_template();
            lemma_two_fields("0000 11rd dddd rrrr"@, Arg::Register(d), 'd', 5, Arg::Register(r), 'r', 5);
        }
        self.emit2("0000 11rd dddd rrrr", Arg::Register(d), 'd', Arg::Register(r), 'r')
    }

    /// `MOV Rd, Rr`.
    pub fn mov(&mut self, d: Register, r: Register) -> (res: Result<(), EncodeError>)
        ensures
            applied(
                old(self).buf@,
                final(self).buf@,
                res,
                encoding("0010 11rd dddd rrrr"@, seq![(Arg::Register(d), 'd'), (Arg::Register(r), 'r')]),
            ),
            res == (if d.0 < 32 && r.0 < 32 {
                Ok(())
            } else {
                Err(EncodeError::InvalidOperand)
            }),
    {
        proof {
            lemma2_to64();
            lemma_mov_template();
            lemma_two_fields("0010 11rd dddd rrrr"@, Arg::Register(d), 'd', 5, Arg::Register(r), 'r', 5);
        }
        self.emit2("0010 11rd dddd rrrr", Arg::Register(d), 'd', Arg::Register(r), 'r')
    }

    /// `LDI Rd, K`: `d` in `R16..R31`, `k` below 256.
    pub fn ldi(&mut self, d: Register, k: u32) -> (res: Result<(), EncodeError>)
        ensures
            applied(
                old(self).buf@,
                final(self).buf@,
                res,
                encoding("1110 KKKK dddd KKKK"@, seq![(Arg::Register(d), 'd'), (Arg::U32(k), 'K')]),
            ),
            res == (if 16 <= d.0 < 32 && k < 256 {
                Ok(())
            } else {
                Err(EncodeError::InvalidOperand)
            }),
    {
        proof {
            lemma2_to64();
            lemma_ldi_template();
            lemma_two_fields("1110 KKKK dddd KKKK"@, Arg::Register(d), 'd', 4, Arg::U32(k), 'K', 8);
        }
        self.emit2("1110 KKKK dddd KKKK", Arg::Register(d), 'd', Arg::U32(k), 'K')
    }

    /// `MULSU Rd, Rr`: both in `R16..R23`.
    pub fn mulsu(&mut self, d: Register, r: Register) -> (res: Result<(), EncodeError>)
        ensures
            applied(
                old(self).buf@,
                final(self).buf@,
                res,
                encoding("0000 0011 0ddd 0rrr"@, seq![(Arg::Register(d), 'd'), (Arg::Register(r), 'r')]),
            ),
            res == (if 16 <= d.0 < 24 && 16 <= r.0 < 24 {
                Ok(())
            } else {
                Err(EncodeError::InvalidOperand)
            }),
    {
        proof {
            lemma2_to64();
            lemma_mulsu_template();
            lemma_two_fields("0000 0011 0ddd 0rrr"@, Arg::Register(d), 'd', 3, Arg::Register(r), 'r', 3);
        }
        self.emit2("0000 0011 0ddd 0rrr", Arg::Register(d), 'd', Arg::Register(r), 'r')
    }

    /// `CLR Rd`, that is `EOR Rd, Rd`, with the register in the split ten-bit field.
    pub fn clr(&mut self, d: Register) -> (res: Result<(), EncodeError>)
        ensures
            applied(old(self).buf@, final(self).buf@, res, encoding("0010 01dd dddd dddd"@, seq![(Arg::Register(d), 'd')])),
            res == (if d.0 < 32 {
                Ok(())
            } else {
                Err(EncodeError::InvalidOperand)
            }),
    {
        proof {
            lemma_clr_template();
            lemma_one_field("0010 01dd dddd dddd"@, Arg::Register(d), 'd', 10);
        }
        self.emit1("0010 01dd dddd dddd", Arg::Register(d), 'd')
    }

    /// `PUSH Rr`.
    pub fn push(&mut self, r: Register) -> (res: Result<(), EncodeError>)
        ensures
            applied(old(self).buf@, final(self).buf@, res, encoding("1001 001r rrrr 1111"@, seq![(Arg::Register(r), 'r')])),
            res == (if r.0 < 32 {
                Ok(())
            } else {
                Err(EncodeError::InvalidOperand)
            }),
    {
        proof {
            lemma_push_template();
            lemma_one_field("1001 001r rrrr 1111"@, Arg::Register(r), 'r', 5);
        }
        self.emit1("1001 001r rrrr 1111", Arg::Register(r), 'r')
    }

    /// `POP Rd`.
    pub fn pop(&mut self, d: Register) -> (res: Result<(), EncodeError>)
        ensures
            applied(old(self).buf@, final(self).buf@, res, encoding("1001 000d dddd 1111"@, seq![(Arg::Register(d), 'd')])),
            res == (if d.0 < 32 {
                Ok(())
            } else {
                Err(EncodeError::InvalidOperand)
            }),
    {
        proof {
            lemma_pop_template();
            lemma_one_field("1001 000d dddd 1111"@, Arg::Register(d), 'd', 5);
        }
        self.emit1("1001 000d dddd 1111", Arg::Register(d), 'd')
    }

    /// `MOVW Rd+1:Rd, Rr+1:Rr`: copies a register pair.
    pub fn movw(&mut self, d: RegisterPair, r: RegisterPair) -> (res: Result<(), EncodeError>)
        ensures
            applied(
                old(self).buf@,
                final(self).buf@,
                res,
                encoding("0000 0001 dddd rrrr"@, seq![(Arg::RegisterPair(d), 'd'), (Arg::RegisterPair(r), 'r')]),
            ),
            res == (if is_well_formed_pair(d) && is_well_formed_pair(r) {
                Ok(())
            } else {
                Err(EncodeError::InvalidOperand)
            }),
    {
        proof {
            lemma2_to64();
            lemma_movw_template();
            lemma_two_fields("0000 0001 dddd rrrr"@, Arg::RegisterPair(d), 'd', 4, Arg::RegisterPair(r), 'r', 4);
        }
        self.emit2("0000 0001 dddd rrrr", Arg::RegisterPair(d), 'd', Arg::RegisterPair(r), 'r')
    }

    /// `ADIW Rd+1:Rd, K`: the pair is one of the upper four, `k` below 64.
    pub fn adiw(&mut self, d: RegisterPair, k: u32) -> (res: Result<(), EncodeError>)
        ensures
            applied(
                old(self).buf@,
                final(self).buf@,
                res,
                encoding("1001 0110 KKdd KKKK"@, seq![(Arg::RegisterPair(d), 'd'), (Arg::U32(k), 'K')]),
            ),
            res == (if is_well_formed_pair(d) && 24 <= d.1.0 && k < 64 {
                Ok(())
            } else {
                Err(EncodeError::InvalidOperand)
            }),
    {
        proof {
            lemma2_to64();
            lemma_adiw_template();
            lemma_two_fields("1001 0110 KKdd KKKK"@, Arg::RegisterPair(d), 'd', 2, Arg::U32(k), 'K', 6);
        }
        self.emit2("1001 0110 KKdd KKKK", Arg::RegisterPair(d), 'd', Arg::U32(k), 'K')
    }

    /// `IN Rd, A`: `a` below 64.
    pub fn in_(&mut self, d: Register, a: u32) -> (res: Result<(), EncodeError>)
        ensures
            applied(
                old(self).buf@,
                final(self).buf@,
                res,
                encoding("1011 0AAd dddd AAAA"@, seq![(Arg::Register(d), 'd'), (Arg::U32(a), 'A')]),
            ),
            res == (if d.0 < 32 && a < 64 {
                Ok(())
            } else {
                Err(EncodeError::InvalidOperand)
            }),
    {
        proof {
            lemma2_to64();
            lemma_in_template();
            lemma_two_fields("1011 0AAd dddd AAAA"@, Arg::Register(d), 'd', 5, Arg::U32(a), 'A', 6);
        }
        self.emit2("1011 0AAd dddd AAAA", Arg::Register(d), 'd', Arg::U32(a), 'A')
    }

    /// `OUT A, Rr`: `a` below 64.
    pub fn out(&mut self, a: u32, r: Register) -> (res: Result<(), EncodeError>)
        ensures
            applied(
                old(self).buf@,
                final(self).buf@,
                res,
                encoding("1011 1AAr rrrr AAAA"@, seq![(Arg::U32(a), 'A'), (Arg::Register(r), 'r')]),
            ),
            res == (if a < 64 && r.0 < 32 {
                Ok(())
            } else {
                Err(EncodeError::InvalidOperand)
            }),
    {
        proof {
            lemma2_to64();
            lemma_out_template();
            lemma_two_fields("1011 1AAr rrrr AAAA"@, Arg::U32(a), 'A', 6, Arg::Register(r), 'r', 5);
        }
        self.emit2("1011 1AAr rrrr AAAA", Arg::U32(a), 'A', Arg::Register(r), 'r')
    }

    /// `RJMP k`: a relative jump; the field holds the displacement in two's complement.
    pub fn rjmp(&mut self, k: Offset) -> (res: Result<(), EncodeError>)
        ensures
            applied(
                old(self).buf@,
                final(self).buf@,
                res,
                with_displacement(k, old(self).buf@.len() as int, "1100 kkkk kkkk kkkk"@, seq![]),
            ),
            res == (match relative_operand(k, old(self).buf@.len() as int) {
                Ok(_) => Ok(()),
                Err(e) => Err(e),
            }),
    {
        match self.resolve_relative_offset(k) {
            Ok(x) => {
                proof {
                    lemma2_to64();
                    lemma_rjmp_template();
                    lemma_one_field("1100 kkkk kkkk kkkk"@, Arg::I32(x), 'k', 12);
                    assert(Seq::<(Arg, char)>::empty().push((Arg::I32(x), 'k')) =~= seq![(Arg::I32(x), 'k')]);
                }
                self.emit1("1100 kkkk kkkk kkkk", Arg::I32(x), 'k')
            },
            Err(e) => Err(e),
        }
    }

    /// `RCALL k`: a relative call.
    pub fn rcall(&mut self, k: Offset) -> (res: Result<(), EncodeError>)
        ensures
            applied(
                old(self).buf@,
                final(self).buf@,
                res,
                with_displacement(k, old(self).buf@.len() as int, "1101 kkkk kkkk kkkk"@, seq![]),
            ),
            res == (match relative_operand(k, old(self).buf@.len() as int) {
                Ok(_) => Ok(()),
                Err(e) => Err(e),
            }),
    {
        match self.resolve_relative_offset(k) {
            Ok(x) => {
                proof {
                    lemma2_to64();
                    lemma_rcall_template();
                    lemma_one_field("1101 kkkk kkkk kkkk"@, Arg::I32(x), 'k', 12);
                    assert(Seq::<(Arg, char)>::empty().push((Arg::I32(x), 'k')) =~= seq![(Arg::I32(x), 'k')]);
                }
                self.emit1("1101 kkkk kkkk kkkk", Arg::I32(x), 'k')
            },
            Err(e) => Err(e),
        }
    }

    /// `BRBS s, k`: branches if status bit `s` is set.
    pub fn brbs(&mut self, s: u32, k: Offset) -> (res: Result<(), EncodeError>)
        ensures
            applied(
                old(self).buf@,
                final(self).buf@,
                res,
                with_displacement(k, old(self).buf@.len() as int, "1111 00kk kkkk ksss"@, seq![(Arg::U32(s), 's')]),
            ),
            res == (match relative_operand(k, old(self).buf@.len() as int) {
                Ok(_) => if s < 8 {
                    Ok(())
                } else {
                    Err(EncodeError::InvalidOperand)
                },
                Err(e) => Err(e),
            }),
    {
        match self.resolve_relative_offset(k) {
            Ok(x) => {
                proof {
                    lemma2_to64();
                    lemma_brbs_template();
                    lemma_two_fields("1111 00kk kkkk ksss"@, Arg::U32(s), 's', 3, Arg::I32(x), 'k', 7);
                    assert(seq![(Arg::U32(s), 's')].push((Arg::I32(x), 'k')) =~= seq![(Arg::U32(s), 's'), (Arg::I32(x), 'k')]);
                }
                self.emit2("1111 00kk kkkk ksss", Arg::U32(s), 's', Arg::I32(x), 'k')
            },
            Err(e) => Err(e),
        }
    }

    /// `BRBC s, k`: branches if status bit `s` is clear.
    pub fn brbc(&mut self, s: u32, k: Offset) -> (res: Result<(), EncodeError>)
        ensures
            applied(
                old(self).buf@,
                final(self).buf@,
                res,
                with_displacement(k, old(self).buf@.len() as int, "1111 01kk kkkk ksss"@, seq![(Arg::U32(s), 's')]),
            ),
            res == (match relative_operand(k, old(self).buf@.len() as int) {
                Ok(_) => if s < 8 {
                    Ok(())
                } else {
                    Err(EncodeError::InvalidOperand)
                },
                Err(e) => Err(e),
            }),
    {
        match self.resolve_relative_offset(k) {
            Ok(x) => {
                proof {
                    lemma2_to64();
                    lemma_brbc_template();
                    lemma_two_fields("1111 01kk kkkk ksss"@, Arg::U32(s), 's', 3, Arg::I32(x), 'k', 7);
                    assert(seq![(Arg::U32(s), 's')].push((Arg::I32(x), 'k')) =~= seq![(Arg::U32(s), 's'), (Arg::I32(x), 'k')]);
                }
                self.emit2("1111 01kk kkkk ksss", Arg::U32(s), 's', Arg::I32(x), 'k')
            },
            Err(e) => Err(e),
        }
    }

    /// `BREQ k`.
    pub fn breq(&mut self, k: Offset) -> (res: Result<(), EncodeError>)
        ensures
            applied(
                old(self).buf@,
                final(self).buf@,
                res,
                with_displacement(k, old(self).buf@.len() as int, "1111 00kk kkkk k001"@, seq![]),
            ),
            res == (match relative_operand(k, old(self).buf@.len() as int) {
                Ok(_) => Ok(()),
                Err(e) => Err(e),
            }),
    {
        match self.resolve_relative_offset(k) {
            Ok(x) => {
                proof {
                    lemma2_to64();
                    lemma_breq_template();
                    lemma_one_field("1111 00kk kkkk k001"@, Arg::I32(x), 'k', 7);
                    assert(Seq::<(Arg, char)>::empty().push((Arg::I32(x), 'k')) =~= seq![(Arg::I32(x), 'k')]);
                }
                self.emit1("1111 00kk kkkk k001", Arg::I32(x), 'k')
            },
            Err(e) => Err(e),
        }
    }

    /// `BRNE k`.
    pub fn brne(&mut self, k: Offset) -> (res: Result<(), EncodeError>)
        ensures
            applied(
                old(self).buf@,
                final(self).buf@,
                res,
                with_displacement(k, old(self).buf@.len() as int, "1111 01kk kkkk k001"@, seq![]),
            ),
            res == (match relative_operand(k, old(self).buf@.len() as int) {
                Ok(_) => Ok(()),
                Err(e) => Err(e),
            }),
    {
        match self.resolve_relative_offset(k) {
            Ok(x) => {
                proof {
                    lemma2_to64();
                    lemma_brne_template();
                    lemma_one_field("1111 01kk kkkk k001"@, Arg::I32(x), 'k', 7);
                    assert(Seq::<(Arg, char)>::empty().push((Arg::I32(x), 'k')) =~= seq![(Arg::I32(x), 'k')]);
                }
                self.emit1("1111 01kk kkkk k001", Arg::I32(x), 'k')
            },
            Err(e) => Err(e),
        }
    }

    /// `CALL k`: a long call to the word address of byte address `k`.
    pub fn call(&mut self, k: Offset) -> (res: Result<(), EncodeError>)
        ensures
            applied(
                old(self).buf@,
                final(self).buf@,
                res,
                with_word_address(k, old(self).buf@.len() as int, "1001 010k kkkk 111k kkkk kkkk kkkk kkkk"@, seq![]),
            ),
            res == (match word_address_operand(k, old(self).buf@.len() as int) {
                Ok(a) => if a < 4194304 {
                    Ok(())
                } else {
                    Err(EncodeError::InvalidOperand)
                },
                Err(e) => Err(e),
            }),
    {
        match self.resolve_absolute_offset_doubles(k) {
            Ok(x) => {
                proof {
                    lemma2_to64();
                    lemma_call_template();
                    lemma_one_field("1001 010k kkkk 111k kkkk kkkk kkkk kkkk"@, Arg::U32(x), 'k', 22);
                    assert(Seq::<(Arg, char)>::empty().push((Arg::U32(x), 'k')) =~= seq![(Arg::U32(x), 'k')]);
                }
                self.emit1("1001 010k kkkk 111k kkkk kkkk kkkk kkkk", Arg::U32(x), 'k')
            },
            Err(e) => Err(e),
        }
    }

    /// `JMP k`: a long jump to the word address of byte address `k`.
    pub fn jmp(&mut self, k: Offset) -> (res: Result<(), EncodeError>)
        ensures
            applied(
                old(self).buf@,
                final(self).buf@,
                res,
                with_word_address(k, old(self).buf@.len() as int, "1001 010k kkkk 110k kkkk kkkk kkkk kkkk"@, seq![]),
            ),
            res == (match word_address_operand(k, old(self).buf@.len() as int) {
                Ok(a) => if a < 4194304 {
                    Ok(())
                } else {
                    Err(EncodeError::InvalidOperand)
                },
                Err(e) => Err(e),
            }),
    {
        match self.resolve_absolute_offset_doubles(k) {
            Ok(x) => {
                proof {
                    lemma2_to64();
                    lemma_jmp_template();
                    lemma_one_field("1001 010k kkkk 110k kkkk kkkk kkkk kkkk"@, Arg::U32(x), 'k', 22);
                    assert(Seq::<(Arg, char)>::empty().push((Arg::U32(x), 'k')) =~= seq![(Arg::U32(x), 'k')]);
                }
                self.emit1("1001 010k kkkk 110k kkkk kkkk kkkk kkkk", Arg::U32(x), 'k')
            },
            Err(e) => Err(e),
        }
    }

    /// `STS k, Rd`: stores `d` at data address `k`.
    pub fn sts(&mut self, k: Offset, d: Register) -> (res: Result<(), EncodeError>)
        ensures
            applied(
                old(self).buf@,
                final(self).buf@,
                res,
                with_address(k, old(self).buf@.len() as int, "1001 001d dddd 0000 kkkk kkkk kkkk kkkk"@, seq![(Arg::Register(d), 'd')]),
            ),
            res == (match absolute_operand(k, old(self).buf@.len() as int) {
                Ok(a) => if d.0 < 32 && a < 65536 {
                    Ok(())
                } else {
                    Err(EncodeError::InvalidOperand)
                },
                Err(e) => Err(e),
            }),
    {
        match self.resolve_absolute_offset(k) {
            Ok(x) => {
                proof {
                    lemma2_to64();
                    lemma_sts_template();
                    lemma_two_fields("1001 001d dddd 0000 kkkk kkkk kkkk kkkk"@, Arg::Register(d), 'd', 5, Arg::U32(x), 'k', 16);
                    assert(seq![(Arg::Register(d), 'd')].push((Arg::U32(x), 'k')) =~= seq![(Arg::Register(d), 'd'), (Arg::U32(x), 'k')]);
                }
                self.emit2("1001 001d dddd 0000 kkkk kkkk kkkk kkkk", Arg::Register(d), 'd', Arg::U32(x), 'k')
            },
            Err(e) => Err(e),
        }
    }

    /// `LAC Z, Rd`.
    pub fn lac(&mut self, z: RegisterPair, d: Register) -> (res: Result<(), EncodeError>)
        ensures
            applied(
                old(self).buf@,
                final(self).buf@,
                res,
                implicit_z(z, encoding("1001 001d dddd 0110"@, seq![(Arg::Register(d), 'd')])),
            ),
            res == (if z != index_z() {
                Err(EncodeError::InvalidAddressing)
            } else if d.0 < 32 {
                Ok(())
            } else {
                Err(EncodeError::InvalidOperand)
            }),
    {
        proof {
            lemma_lac_template();
            lemma_one_field("1001 001d dddd 0110"@, Arg::Register(d), 'd', 5);
        }
        if z != RegisterPair::z() {
            return Err(EncodeError::InvalidAddressing);
        }
        self.emit1("1001 001d dddd 0110", Arg::Register(d), 'd')
    }

    /// `LAS Z, Rd`.
    pub fn las(&mut self, z: RegisterPair, d: Register) -> (res: Result<(), EncodeError>)
        ensures
            applied(
                old(self).buf@,
                final(self).buf@,
                res,
                implicit_z(z, encoding("1001 001d dddd 0101"@, seq![(Arg::Register(d), 'd')])),
            ),
            res == (if z != index_z() {
                Err(EncodeError::InvalidAddressing)
            } else if d.0 < 32 {
                Ok(())
            } else {
                Err(EncodeError::InvalidOperand)
            }),
    {
        proof {
            lemma_las_template();
            lemma_one_field("1001 001d dddd 0101"@, Arg::Register(d), 'd', 5);
        }
        if z != RegisterPair::z() {
            return Err(EncodeError::InvalidAddressing);
        }
        self.emit1("1001 001d dddd 0101", Arg::Register(d), 'd')
    }

    /// `LAT Z, Rd`.
    pub fn lat(&mut self, z: RegisterPair, d: Register) -> (res: Result<(), EncodeError>)
        ensures
            applied(
                old(self).buf@,
                final(self).buf@,
                res,
                implicit_z(z, encoding("1001 001d dddd 0111"@, seq![(Arg::Register(d), 'd')])),
            ),
            res == (if z != index_z() {
                Err(EncodeError::InvalidAddressing)
            } else if d.0 < 32 {
                Ok(())
            } else {
                Err(EncodeError::InvalidOperand)
            }),
    {
        proof {
            lemma_lat_template();
            lemma_one_field("1001 001d dddd 0111"@, Arg::Register(d), 'd', 5);
        }
        if z != RegisterPair::z() {
            return Err(EncodeError::InvalidAddressing);
        }
        self.emit1("1001 001d dddd 0111", Arg::Register(d), 'd')
    }

    /// `XCH Z, Rd`.
    pub fn xch(&mut self, z: RegisterPair, d: Register) -> (res: Result<(), EncodeError>)
        ensures
            applied(
                old(self).buf@,
                final(self).buf@,
                res,
                implicit_z(z, encoding("1001 001d dddd 0100"@, seq![(Arg::Register(d), 'd')])),
            ),
            res == (if z != index_z() {
                Err(EncodeError::InvalidAddressing)
            } else if d.0 < 32 {
                Ok(())
            } else {
                Err(EncodeError::InvalidOperand)
            }),
    {
        proof {
            lemma_xch_template();
            lemma_one_field("1001 001d dddd 0100"@, Arg::Register(d), 'd', 5);
        }
        if z != RegisterPair::z() {
            return Err(EncodeError::InvalidAddressing);
        }
        self.emit1("1001 001d dddd 0100", Arg::Register(d), 'd')
    }
}

} // verus!
