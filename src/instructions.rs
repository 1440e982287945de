//! Instructions: the addressing-mode dispatcher for indirect loads and
//! stores, and typed operations that hand their operands to the packer.
use crate::assembler::{absolute_operand, applied, with_address, Assembler};
use crate::operand::{
    index_x, index_y, index_z, Arg, Direction, DirectionalRegisterPair, EncodeError, Offset,
    OffsetRegisterPair, Register, RegisterPair,
};
use crate::template::{
    bit_count, encoding, lemma_counts_concat, lemma_one_field, lemma_register_word, lemma_two_fields, occurrences,
    one_field_template, two_field_template,
};
use vstd::arithmetic::power2::lemma2_to64;
use vstd::prelude::*;

verus! {

/// What an indirect instruction yields: the encoding in the template that
/// its addressing mode selects, or `InvalidAddressing` where it has none.
pub open spec fn indirect_outcome(t: Option<Seq<char>>, args: Seq<(Arg, char)>) -> Result<Seq<u8>, EncodeError> {
    match t {
        Some(t) => encoding(t, args),
        None => Err(EncodeError::InvalidAddressing),
    }
}

/// The template of `LD Rd, <pair>` for each index pair and mode.
pub open spec fn ld_template(r: DirectionalRegisterPair) -> Option<Seq<char>> {
    if r.pair == index_x() {
        match r.direction {
            Direction::NoChange => Some("1001 000d dddd 1100"@),
            Direction::PostIncrement => Some("1001 000d dddd 1101"@),
            Direction::PreDecrement => Some("1001 000d dddd 1110"@),
        }
    } else if r.pair == index_y() {
        match r.direction {
            Direction::NoChange => Some("1000 000d dddd 1000"@),
            Direction::PostIncrement => Some("1001 000d dddd 1001"@),
            Direction::PreDecrement => Some("1001 000d dddd 1010"@),
        }
    } else if r.pair == index_z() {
        match r.direction {
            Direction::NoChange => Some("1000 000d dddd 0000"@),
            Direction::PostIncrement => Some("1001 000d dddd 0001"@),
            Direction::PreDecrement => Some("1001 000d dddd 0010"@),
        }
    } else {
        None
    }
}

/// The template of `ST <pair>, Rr` for each index pair and mode.
pub open spec fn st_template(d: DirectionalRegisterPair) -> Option<Seq<char>> {
    if d.pair == index_x() {
        match d.direction {
            Direction::NoChange => Some("1001 001r rrrr 1100"@),
            Direction::PostIncrement => Some("1001 001r rrrr 1101"@),
            Direction::PreDecrement => Some("1001 001r rrrr 1110"@),
        }
    } else if d.pair == index_y() {
        match d.direction {
            Direction::NoChange => Some("1000 001r rrrr 1000"@),
            Direction::PostIncrement => Some("1001 001r rrrr 1001"@),
            Direction::PreDecrement => Some("1001 001r rrrr 1010"@),
        }
    } else if d.pair == index_z() {
        match d.direction {
            Direction::NoChange => Some("1000 001r rrrr 0000"@),
            Direction::PostIncrement => Some("1001 001r rrrr 0001"@),
            Direction::PreDecrement => Some("1001 001r rrrr 0010"@),
        }
    } else {
        None
    }
}

/// The template of `LPM Rd, Z` or `LPM Rd, Z+`; only `Z` can be read from
/// and it cannot be pre-decremented.
pub open spec fn lpm_template(r: DirectionalRegisterPair) -> Option<Seq<char>> {
    if r.pair == index_z() && r.direction == Direction::NoChange {
        Some("1001 000d dddd 0100"@)
    } else if r.pair == index_z() && r.direction == Direction::PostIncrement {
        Some("1001 000d dddd 0101"@)
    } else {
        None
    }
}

/// The template of `ELPM Rd, Z` or `ELPM Rd, Z+`.
pub open spec fn elpm_template(r: DirectionalRegisterPair) -> Option<Seq<char>> {
    if r.pair == index_z() && r.direction == Direction::NoChange {
        Some("1001 000d dddd 0110"@)
    } else if r.pair == index_z() && r.direction == Direction::PostIncrement {
        Some("1001 000d dddd 0111"@)
    } else {
        None
    }
}

/// The template of `LDD Rd, Y+q` or `LDD Rd, Z+q`; `X` has no displacement
/// form.
pub open spec fn ldd_template(r: OffsetRegisterPair) -> Option<Seq<char>> {
    if r.pair == index_y() {
        Some("10q0 qq0d dddd 1qqq"@)
    } else if r.pair == index_z() {
        Some("10q0 qq0d dddd 0qqq"@)
    } else {
        None
    }
}

/// The template of `STD Y+q, Rr` or `STD Z+q, Rr`.
pub open spec fn std_template(d: OffsetRegisterPair) -> Option<Seq<char>> {
    if d.pair == index_y() {
        Some("10q0 qq1r rrrr 1qqq"@)
    } else if d.pair == index_z() {
        Some("10q0 qq1r rrrr 0qqq"@)
    } else {
        None
    }
}

/// `LDS Rd, k`: the short form for an address below 128, else the long one.
pub open spec fn lds_outcome(d: Register, k: Offset, pos: int) -> Result<Seq<u8>, EncodeError> {
    match absolute_operand(k, pos) {
        Ok(a) => if a < 128 {
            encoding(LDS_7@, seq![(Arg::Register(d), 'd'), (Arg::U32(a), 'k')])
        } else {
            encoding(LDS_16@, seq![(Arg::Register(d), 'd'), (Arg::U32(a), 'k')])
        },
        Err(e) => Err(e),
    }
}

/// Template of the short `LDS`.
pub const LDS_7: &'static str = "1010 0kkk dddd kkkk";

/// Template of the long `LDS`.
pub const LDS_16: &'static str = "1001 000d dddd 0000 kkkk kkkk kkkk kkkk";

/// Each `LD` template has one five-bit field `d`.
proof fn lemma_ld_templates(r: DirectionalRegisterPair)
    ensures
        ld_template(r) is Some ==> one_field_template(ld_template(r)->Some_0, 'd', 5),
{
    if r.pair == index_x() {
        match r.direction {
            Direction::NoChange => {
                reveal_strlit("1001 000d dddd 1100");
                lemma_register_word("1001 000d dddd 1100"@, 'd');
            },
            Direction::PostIncrement => {
                reveal_strlit("1001 000d dddd 1101");
                lemma_register_word("1001 000d dddd 1101"@, 'd');
            },
            Direction::PreDecrement => {
                reveal_strlit("1001 000d dddd 1110");
                lemma_register_word("1001 000d dddd 1110"@, 'd');
            },
        }
    } else if r.pair == index_y() {
        match r.direction {
            Direction::NoChange => {
                reveal_strlit("1000 000d dddd 1000");
                lemma_register_word("1000 000d dddd 1000"@, 'd');
            },
            Direction::PostIncrement => {
                reveal_strlit("1001 000d dddd 1001");
                lemma_register_word("1001 000d dddd 1001"@, 'd');
            },
            Direction::PreDecrement => {
                reveal_strlit("1001 000d dddd 1010");
                lemma_register_word("1001 000d dddd 1010"@, 'd');
            },
        }
    } else if r.pair == index_z() {
        match r.direction {
            Direction::NoChange => {
                reveal_strlit("1000 000d dddd 0000");
                lemma_register_word("1000 000d dddd 0000"@, 'd');
            },
            Direction::PostIncrement => {
                reveal_strlit("1001 000d dddd 0001");
                lemma_register_word("1001 000d dddd 0001"@, 'd');
            },
            Direction::PreDecrement => {
                reveal_strlit("1001 000d dddd 0010");
                lemma_register_word("1001 000d dddd 0010"@, 'd');
            },
        }
    }
}

/// Each `ST` template has one five-bit field `r`.
proof fn lemma_st_templates(d: DirectionalRegisterPair)
    ensures
        st_template(d) is Some ==> one_field_template(st_template(d)->Some_0, 'r', 5),
{
    if d.pair == index_x() {
        match d.direction {
            Direction::NoChange => {
                reveal_strlit("1001 001r rrrr 1100");
                lemma_register_word("1001 001r rrrr 1100"@, 'r');
            },
            Direction::PostIncrement => {
                reveal_strlit("1001 001r rrrr 1101");
                lemma_register_word("1001 001r rrrr 1101"@, 'r');
            },
            Direction::PreDecrement => {
                reveal_strlit("1001 001r rrrr 1110");
                lemma_register_word("1001 001r rrrr 1110"@, 'r');
            },
        }
    } else if d.pair == index_y() {
        match d.direction {
            Direction::NoChange => {
                reveal_strlit("1000 001r rrrr 1000");
                lemma_register_word("1000 001r rrrr 1000"@, 'r');
            },
            Direction::PostIncrement => {
                reveal_strlit("1001 001r rrrr 1001");
                lemma_register_word("1001 001r rrrr 1001"@, 'r');
            },
            Direction::PreDecrement => {
                reveal_strlit("1001 001r rrrr 1010");
                lemma_register_word("1001 001r rrrr 1010"@, 'r');
            },
        }
    } else if d.pair == index_z() {
        match d.direction {
            Direction::NoChange => {
                reveal_strlit("1000 001r rrrr 0000");
                lemma_register_word("1000 001r rrrr 0000"@, 'r');
            },
            Direction::PostIncrement => {
                reveal_strlit("1001 001r rrrr 0001");
                lemma_register_word("1001 001r rrrr 0001"@, 'r');
            },
            Direction::PreDecrement => {
                reveal_strlit("1001 001r rrrr 0010");
                lemma_register_word("1001 001r rrrr 0010"@, 'r');
            },
        }
    }
}

/// Each `LPM` template has one five-bit field `d`.
proof fn lemma_lpm_templates(r: DirectionalRegisterPair)
    ensures
        lpm_template(r) is Some ==> one_field_template(lpm_template(r)->Some_0, 'd', 5),
{
    reveal_strlit("1001 000d dddd 0100");
    lemma_register_word("1001 000d dddd 0100"@, 'd');
    reveal_strlit("1001 000d dddd 0101");
    lemma_register_word("1001 000d dddd 0101"@, 'd');
}

/// Each `ELPM` template has one five-bit field `d`.
proof fn lemma_elpm_templates(r: DirectionalRegisterPair)
    ensures
        elpm_template(r) is Some ==> one_field_template(elpm_template(r)->Some_0, 'd', 5),
{
    reveal_strlit("1001 000d dddd 0110");
    lemma_register_word("1001 000d dddd 0110"@, 'd');
    reveal_strlit("1001 000d dddd 0111");
    lemma_register_word("1001 000d dddd 0111"@, 'd');
}

/// The `LDD` template for `Y` has a five-bit field `d` and a six-bit
/// field `q`.
#[verifier::rlimit(100)]
proof fn lemma_ldd_y_template()
    ensures
        two_field_template("10q0 qq0d dddd 1qqq"@, 'd', 5, 'q', 6),
{
    reveal_strlit("10q0 qq0d dddd 1qqq");
    reveal_with_fuel(bit_count, 20);
    reveal_with_fuel(occurrences, 20);
}

/// The `LDD` template for `Z` has a five-bit field `d` and a six-bit
/// field `q`.
#[verifier::rlimit(100)]
proof fn lemma_ldd_z_template()
    ensures
        two_field_template("10q0 qq0d dddd 0qqq"@, 'd', 5, 'q', 6),
{
    reveal_strlit("10q0 qq0d dddd 0qqq");
    reveal_with_fuel(bit_count, 20);
    reveal_with_fuel(occurrences, 20);
}

/// The `STD` template for `Y` has a five-bit field `r` and a six-bit
/// field `q`.
#[verifier::rlimit(100)]
proof fn lemma_std_y_template()
    ensures
        two_field_template("10q0 qq1r rrrr 1qqq"@, 'r', 5, 'q', 6),
{
    reveal_strlit("10q0 qq1r rrrr 1qqq");
    reveal_with_fuel(bit_count, 20);
    reveal_with_fuel(occurrences, 20);
}

/// The `STD` template for `Z` has a five-bit field `r` and a six-bit
/// field `q`.
#[verifier::rlimit(100)]
proof fn lemma_std_z_template()
    ensures
        two_field_template("10q0 qq1r rrrr 0qqq"@, 'r', 5, 'q', 6),
{
    reveal_strlit("10q0 qq1r rrrr 0qqq");
    reveal_with_fuel(bit_count, 20);
    reveal_with_fuel(occurrences, 20);
}

/// The short `LDS` has a four-bit field `d` and a seven-bit field `k`.
#[verifier::rlimit(100)]
proof fn lemma_lds_7_template()
    ensures
        two_field_template("1010 0kkk dddd kkkk"@, 'd', 4, 'k', 7),
{
    reveal_strlit("1010 0kkk dddd kkkk");
    reveal_with_fuel(bit_count, 20);
    reveal_with_fuel(occurrences, 20);
}

/// The long `LDS` has a five-bit field `d` and a sixteen-bit field `k`.
proof fn lemma_lds_16_template()
    ensures
        two_field_template("1001 000d dddd 0000 kkkk kkkk kkkk kkkk"@, 'd', 5, 'k', 16),
{
    reveal_strlit("1001 000d dddd 0000 kkkk kkkk kkkk kkkk");
    let t = "1001 000d dddd 0000 kkkk kkkk kkkk kkkk"@;
    let first = t.subrange(0, 20);
    let second = t.subrange(20, 39);
    assert(t =~= first + second);
    lemma_counts_concat(first, second, 'd');
    assert(occurrences(first, 'd') == 5 && occurrences(second, 'd') == 0) by {
        reveal_with_fuel(occurrences, 21);
    }
    lemma_counts_concat(first, second, 'k');
    assert(occurrences(first, 'k') == 0 && occurrences(second, 'k') == 16) by {
        reveal_with_fuel(occurrences, 21);
    }
    assert(bit_count(first) == 16 && bit_count(second) == 16) by {
        reveal_with_fuel(bit_count, 21);
    }
}

fn ld_format(r: DirectionalRegisterPair) -> (t: Option<&'static str>)
    ensures
        match t {
            Some(s) => ld_template(r) == Some(s@),
            None => ld_template(r) is None,
        },
{
    if r.pair == RegisterPair::x() {
        match r.direction {
            Direction::NoChange => Some("1001 000d dddd 1100"),
            Direction::PostIncrement => Some("1001 000d dddd 1101"),
            Direction::PreDecrement => Some("1001 000d dddd 1110"),
        }
    } else if r.pair == RegisterPair::y() {
        match r.direction {
            Direction::NoChange => Some("1000 000d dddd 1000"),
            Direction::PostIncrement => Some("1001 000d dddd 1001"),
            Direction::PreDecrement => Some("1001 000d dddd 1010"),
        }
    } else if r.pair == RegisterPair::z() {
        match r.direction {
            Direction::NoChange => Some("1000 000d dddd 0000"),
            Direction::PostIncrement => Some("1001 000d dddd 0001"),
            Direction::PreDecrement => Some("1001 000d dddd 0010"),
        }
    } else {
        None
    }
}

fn st_format(d: DirectionalRegisterPair) -> (t: Option<&'static str>)
    ensures
        match t {
            Some(s) => st_template(d) == Some(s@),
            None => st_template(d) is None,
        },
{
    if d.pair == RegisterPair::x() {
        match d.direction {
            Direction::NoChange => Some("1001 001r rrrr 1100"),
            Direction::PostIncrement => Some("1001 001r rrrr 1101"),
            Direction::PreDecrement => Some("1001 001r rrrr 1110"),
        }
    } else if d.pair == RegisterPair::y() {
        match d.direction {
            Direction::NoChange => Some("1000 001r rrrr 1000"),
            Direction::PostIncrement => Some("1001 001r rrrr 1001"),
            Direction::PreDecrement => Some("1001 001r rrrr 1010"),
        }
    } else if d.pair == RegisterPair::z() {
        match d.direction {
            Direction::NoChange => Some("1000 001r rrrr 0000"),
            Direction::PostIncrement => Some("1001 001r rrrr 0001"),
            Direction::PreDecrement => Some("1001 001r rrrr 0010"),
        }
    } else {
        None
    }
}

fn lpm_format(r: DirectionalRegisterPair) -> (t: Option<&'static str>)
    ensures
        match t {
            Some(s) => lpm_template(r) == Some(s@),
            None => lpm_template(r) is None,
        },
{
    if r.pair == RegisterPair::z() && r.direction == Direction::NoChange {
        Some("1001 000d dddd 0100")
    } else if r.pair == RegisterPair::z() && r.direction == Direction::PostIncrement {
        Some("1001 000d dddd 0101")
    } else {
        None
    }
}

fn elpm_format(r: DirectionalRegisterPair) -> (t: Option<&'static str>)
    ensures
        match t {
            Some(s) => elpm_template(r) == Some(s@),
            None => elpm_template(r) is None,
        },
{
    if r.pair == RegisterPair::z() && r.direction == Direction::NoChange {
        Some("1001 000d dddd 0110")
    } else if r.pair == RegisterPair::z() && r.direction == Direction::PostIncrement {
        Some("1001 000d dddd 0111")
    } else {
        None
    }
}

fn ldd_format(r: OffsetRegisterPair) -> (t: Option<&'static str>)
    ensures
        match t {
            Some(s) => ldd_template(r) == Some(s@),
            None => ldd_template(r) is None,
        },
{
    if r.pair == RegisterPair::y() {
        Some("10q0 qq0d dddd 1qqq")
    } else if r.pair == RegisterPair::z() {
        Some("10q0 qq0d dddd 0qqq")
    } else {
        None
    }
}

fn std_format(d: OffsetRegisterPair) -> (t: Option<&'static str>)
    ensures
        match t {
            Some(s) => std_template(d) == Some(s@),
            None => std_template(d) is None,
        },
{
    if d.pair == RegisterPair::y() {
        Some("10q0 qq1r rrrr 1qqq")
    } else if d.pair == RegisterPair::z() {
        Some("10q0 qq1r rrrr 0qqq")
    } else {
        None
    }
}

impl Assembler {
    pub(crate) fn emit0(&mut self, t: &str) -> (r: Result<(), EncodeError>)
        ensures
            applied(old(self).buf@, final(self).buf@, r, encoding(t@, seq![])),
    {
        let args: [(Arg, char); 0] = [];
        proof {
            assert(args@ =~= Seq::<(Arg, char)>::empty());
        }
        self.encode(&args, t)
    }

    pub(crate) fn emit1(&mut self, t: &str, a: Arg, c: char) -> (r: Result<(), EncodeError>)
        ensures
            applied(old(self).buf@, final(self).buf@, r, encoding(t@, seq![(a, c)])),
    {
        let args = [(a, c)];
        proof {
            assert(args@ =~= seq![(a, c)]);
        }
        self.encode(&args, t)
    }

    pub(crate) fn emit2(&mut self, t: &str, a: Arg, c: char, b: Arg, e: char) -> (r: Result<(), EncodeError>)
        ensures
            applied(old(self).buf@, final(self).buf@, r, encoding(t@, seq![(a, c), (b, e)])),
    {
        let args = [(a, c), (b, e)];
        proof {
            assert(args@ =~= seq![(a, c), (b, e)]);
        }
        self.encode(&args, t)
    }

    /// `LD Rd, X|Y|Z` with the pair's mode: loads `d` indirectly.
    pub fn ld(&mut self, d: Register, r: DirectionalRegisterPair) -> (res: Result<(), EncodeError>)
        ensures
            applied(old(self).buf@, final(self).buf@, res, indirect_outcome(ld_template(r), seq![(Arg::Register(d), 'd')])),
            res == (match ld_template(r) {
                Some(_) => if d.0 < 32 {
                    Ok(())
                } else {
                    Err(EncodeError::InvalidOperand)
                },
                None => Err(EncodeError::InvalidAddressing),
            }),
    {
        proof {
            lemma_ld_templates(r);
            if ld_template(r) is Some {
                lemma_one_field(ld_template(r)->Some_0, Arg::Register(d), 'd', 5);
            }
        }
        match ld_format(r) {
            Some(t) => self.emit1(t, Arg::Register(d), 'd'),
            None => Err(EncodeError::InvalidAddressing),
        }
    }

    /// `LDD Rd, Y+q|Z+q`: loads `d` from the pair plus a displacement below 64.
    pub fn ldd(&mut self, d: Register, r: OffsetRegisterPair) -> (res: Result<(), EncodeError>)
        ensures
            applied(
                old(self).buf@,
                final(self).buf@,
                res,
                indirect_outcome(ldd_template(r), seq![(Arg::Register(d), 'd'), (Arg::U8(r.offset), 'q')]),
            ),
            res == (match ldd_template(r) {
                Some(_) => if d.0 < 32 && r.offset < 64 {
                    Ok(())
                } else {
                    Err(EncodeError::InvalidOperand)
                },
                None => Err(EncodeError::InvalidAddressing),
            }),
    {
        proof {
            lemma2_to64();
            lemma_ldd_y_template();
            lemma_ldd_z_template();
            if ldd_template(r) is Some {
                lemma_two_fields(ldd_template(r)->Some_0, Arg::Register(d), 'd', 5, Arg::U8(r.offset), 'q', 6);
            }
        }
        match ldd_format(r) {
            Some(t) => self.emit2(t, Arg::Register(d), 'd', Arg::U8(r.offset), 'q'),
            None => Err(EncodeError::InvalidAddressing),
        }
    }

    /// `ST X|Y|Z, Rr` with the pair's mode: stores `r` indirectly.
    pub fn st(&mut self, d: DirectionalRegisterPair, r: Register) -> (res: Result<(), EncodeError>)
        ensures
            applied(old(self).buf@, final(self).buf@, res, indirect_outcome(st_template(d), seq![(Arg::Register(r), 'r')])),
            res == (match st_template(d) {
                Some(_) => if r.0 < 32 {
                    Ok(())
                } else {
                    Err(EncodeError::InvalidOperand)
                },
                None => Err(EncodeError::InvalidAddressing),
            }),
    {
        proof {
            lemma_st_templates(d);
            if st_template(d) is Some {
                lemma_one_field(st_template(d)->Some_0, Arg::Register(r), 'r', 5);
            }
        }
        match st_format(d) {
            Some(t) => self.emit1(t, Arg::Register(r), 'r'),
            None => Err(EncodeError::InvalidAddressing),
        }
    }

    /// `STD Y+q|Z+q, Rr`: stores `r` at the pair plus a displacement below 64.
    pub fn std_(&mut self, d: OffsetRegisterPair, r: Register) -> (res: Result<(), EncodeError>)
        ensures
            applied(
                old(self).buf@,
                final(self).buf@,
                res,
                indirect_outcome(std_template(d), seq![(Arg::Register(r), 'r'), (Arg::U8(d.offset), 'q')]),
            ),
            res == (match std_template(d) {
                Some(_) => if r.0 < 32 && d.offset < 64 {
                    Ok(())
                } else {
                    Err(EncodeError::InvalidOperand)
                },
                None => Err(EncodeError::InvalidAddressing),
            }),
    {
        proof {
            lemma2_to64();
            lemma_std_y_template();
            lemma_std_z_template();
            if std_template(d) is Some {
                lemma_two_fields(std_template(d)->Some_0, Arg::Register(r), 'r', 5, Arg::U8(d.offset), 'q', 6);
            }
        }
        match std_format(d) {
            Some(t) => self.emit2(t, Arg::Register(r), 'r', Arg::U8(d.offset), 'q'),
            None => Err(EncodeError::InvalidAddressing),
        }
    }

    /// `LPM Rd, Z|Z+`: loads `d` from program memory.
    pub fn lpm(&mut self, d: Register, r: DirectionalRegisterPair) -> (res: Result<(), EncodeError>)
        ensures
            applied(old(self).buf@, final(self).buf@, res, indirect_outcome(lpm_template(r), seq![(Arg::Register(d), 'd')])),
            res == (match lpm_template(r) {
                Some(_) => if d.0 < 32 {
                    Ok(())
                } else {
                    Err(EncodeError::InvalidOperand)
                },
                None => Err(EncodeError::InvalidAddressing),
            }),
    {
        proof {
            lemma_lpm_templates(r);
            if lpm_template(r) is Some {
                lemma_one_field(lpm_template(r)->Some_0, Arg::Register(d), 'd', 5);
            }
        }
        match lpm_format(r) {
            Some(t) => self.emit1(t, Arg::Register(d), 'd'),
            None => Err(EncodeError::InvalidAddressing),
        }
    }

    /// `ELPM Rd, Z|Z+`: loads `d` from extended program memory.
    pub fn elpm(&mut self, d: Register, r: DirectionalRegisterPair) -> (res: Result<(), EncodeError>)
        ensures
            applied(old(self).buf@, final(self).buf@, res, indirect_outcome(elpm_template(r), seq![(Arg::Register(d), 'd')])),
            res == (match elpm_template(r) {
                Some(_) => if d.0 < 32 {
                    Ok(())
                } else {
                    Err(EncodeError::InvalidOperand)
                },
                None => Err(EncodeError::InvalidAddressing),
            }),
    {
        proof {
            lemma_elpm_templates(r);
            if elpm_template(r) is Some {
                lemma_one_field(elpm_template(r)->Some_0, Arg::Register(d), 'd', 5);
            }
        }
        match elpm_format(r) {
            Some(t) => self.emit1(t, Arg::Register(d), 'd'),
            None => Err(EncodeError::InvalidAddressing),
        }
    }

    /// `LDS Rd, k`: loads `d` from data address `k`, in one word where the
    /// address is below 128 and in two otherwise.
    pub fn lds(&mut self, d: Register, k: Offset) -> (res: Result<(), EncodeError>)
        ensures
            applied(old(self).buf@, final(self).buf@, res, lds_outcome(d, k, old(self).buf@.len() as int)),
            res == (match absolute_operand(k, old(self).buf@.len() as int) {
                Ok(a) => if a < 128 {
                    if 16 <= d.0 < 32 {
                        Ok(())
                    } else {
                        Err(EncodeError::InvalidOperand)
                    }
                } else if d.0 < 32 && a < 65536 {
                    Ok(())
                } else {
                    Err(EncodeError::InvalidOperand)
                },
                Err(e) => Err(e),
            }),
    {
        proof {
            lemma2_to64();
            lemma_lds_7_template();
            lemma_lds_16_template();
            if let Ok(a) = absolute_operand(k, self.buf@.len() as int) {
                lemma_two_fields(LDS_7@, Arg::Register(d), 'd', 4, Arg::U32(a), 'k', 7);
                lemma_two_fields(LDS_16@, Arg::Register(d), 'd', 5, Arg::U32(a), 'k', 16);
            }
        }
        match self.resolve_absolute_offset(k) {
            Ok(addr) => {
                proof {
                    assert(seq![(Arg::Register(d), 'd')].push((Arg::U32(addr), 'k')) =~= seq![(Arg::Register(d), 'd'), (Arg::U32(addr), 'k')]);
                }
                if addr < 128 {
                    self.lds_7(d, k)
                } else {
                    self.lds_16(d, k)
                }
            },
            Err(e) => Err(e),
        }
    }

    /// `LDS Rd, k`, one-word form: `d` in `R16..R31`, `k` below 128.
    pub fn lds_7(&mut self, d: Register, k: Offset) -> (res: Result<(), EncodeError>)
        ensures
            applied(old(self).buf@, final(self).buf@, res,
                with_address(k, old(self).buf@.len() as int, LDS_7@, seq![(Arg::Register(d), 'd')])),
    {
        match self.resolve_absolute_offset(k) {
            Ok(a) => {
                proof {
                    assert(seq![(Arg::Register(d), 'd')].push((Arg::U32(a), 'k')) =~= seq![(Arg::Register(d), 'd'), (Arg::U32(a), 'k')]);
                }
                self.emit2(LDS_7, Arg::Register(d), 'd', Arg::U32(a), 'k')
            },
            Err(e) => Err(e),
        }
    }

    /// `LDS Rd, k`, two-word form: `k` below 65536.
    pub fn lds_16(&mut self, d: Register, k: Offset) -> (res: Result<(), EncodeError>)
        ensures
            applied(old(self).buf@, final(self).buf@, res,
                with_address(k, old(self).buf@.len() as int, LDS_16@, seq![(Arg::Register(d), 'd')])),
    {
        match self.resolve_absolute_offset(k) {
            Ok(a) => {
                proof {
                    assert(seq![(Arg::Register(d), 'd')].push((Arg::U32(a), 'k')) =~= seq![(Arg::Register(d), 'd'), (Arg::U32(a), 'k')]);
                }
                self.emit2(LDS_16, Arg::Register(d), 'd', Arg::U32(a), 'k')
            },
            Err(e) => Err(e),
        }
    }
}

} // verus!
