use avr_encoder::{
    absolute, encode_operand, relative, Arg, ArgConsumer, Assembler, Direction,
    DirectionalRegisterPair, EncodeError, Offset, OffsetRegisterPair, Register, RegisterPair,
};

fn r(n: u32) -> Register {
    Register(n)
}

fn pair(high: u32, low: u32) -> RegisterPair {
    RegisterPair(Register(high), Register(low))
}

/// Reads field `c` back from the bytes of an instruction: the `k`-th
/// occurrence of `c` from the right holds bit `k`.
fn read_field(template: &str, bytes: &[u8], c: char) -> u32 {
    let mut value: u64 = 0;
    for pair in bytes.chunks(2) {
        value = (value << 16) | (pair[0] as u64) | ((pair[1] as u64) << 8);
    }
    let mut position = 0;
    let mut k = 0;
    let mut field = 0u32;
    for ch in template.chars().rev() {
        if ch == ' ' {
            continue;
        }
        if ch == c {
            field |= (((value >> position) & 1) as u32) << k;
            k += 1;
        }
        position += 1;
    }
    field
}

fn with_bytes(n: usize) -> Assembler {
    let mut enc = Assembler::new();
    for _ in 0..n / 2 {
        enc.nop().unwrap();
    }
    enc
}

#[test]
fn register_in_five_bits_is_its_number() {
    for n in 0..32 {
        assert_eq!(encode_operand(Arg::Register(r(n)), 5), Ok(n));
    }
    assert_eq!(encode_operand(Arg::Register(r(32)), 5), Err(EncodeError::InvalidOperand));
}

#[test]
fn register_in_four_bits_takes_upper_half() {
    for n in 16..32 {
        assert_eq!(encode_operand(Arg::Register(r(n)), 4), Ok(n & 0xF));
    }
    for n in (0..16).chain(32..40) {
        assert_eq!(encode_operand(Arg::Register(r(n)), 4), Err(EncodeError::InvalidOperand));
    }
}

#[test]
fn register_in_three_bits_takes_r16_to_r23() {
    assert_eq!(encode_operand(Arg::Register(r(16)), 3), Ok(0));
    assert_eq!(encode_operand(Arg::Register(r(23)), 3), Ok(7));
    assert_eq!(encode_operand(Arg::Register(r(24)), 3), Err(EncodeError::InvalidOperand));
    assert_eq!(encode_operand(Arg::Register(r(15)), 3), Err(EncodeError::InvalidOperand));
}

#[test]
fn register_in_split_ten_bit_layout() {
    assert_eq!(encode_operand(Arg::Register(r(1)), 10), Ok(0x11));
    assert_eq!(encode_operand(Arg::Register(r(17)), 10), Ok((17 << 4) | (16 << 9) | 1));
    assert_eq!(encode_operand(Arg::Register(r(32)), 10), Err(EncodeError::InvalidOperand));
    assert_eq!(encode_operand(Arg::Register(r(5)), 6), Err(EncodeError::InvalidOperand));
}

#[test]
fn register_pair_is_half_its_low_register() {
    for low in (24..32).step_by(2) {
        assert_eq!(encode_operand(Arg::RegisterPair(pair(low + 1, low)), 2), Ok(low / 2));
    }
    for low in (0..32).step_by(2) {
        assert_eq!(encode_operand(Arg::RegisterPair(pair(low + 1, low)), 4), Ok(low / 2));
    }
    assert_eq!(encode_operand(Arg::RegisterPair(pair(23, 22)), 2), Err(EncodeError::InvalidOperand));
    assert_eq!(encode_operand(Arg::RegisterPair(pair(26, 25)), 4), Err(EncodeError::InvalidOperand));
    assert_eq!(encode_operand(Arg::RegisterPair(pair(28, 26)), 4), Err(EncodeError::InvalidOperand));
}

#[test]
fn immediates_must_fit_and_signed_values_wrap() {
    assert_eq!(encode_operand(Arg::U32(255), 8), Ok(255));
    assert_eq!(encode_operand(Arg::U32(256), 8), Err(EncodeError::InvalidOperand));
    assert_eq!(encode_operand(Arg::U8(63), 6), Ok(63));
    assert_eq!(encode_operand(Arg::U8(64), 6), Err(EncodeError::InvalidOperand));
    assert_eq!(encode_operand(Arg::I32(-4), 12), Ok(0xFFFF_FFFC));
}

#[test]
fn consumer_hands_out_bits_from_the_lowest() {
    let mut c = ArgConsumer::new(Arg::U32(0b110), 3).unwrap();
    assert_eq!(c.consume_bit(), 0);
    assert_eq!(c.consume_bit(), 1);
    assert_eq!(c.consume_bit(), 1);
    assert_eq!(c.value, 0);
    assert!(ArgConsumer::new(Arg::U32(8), 3).is_err());
}

#[test]
fn pair_with_odd_low_register_fails_without_output() {
    let mut enc = with_bytes(2);
    assert_eq!(
        encode_operand(Arg::RegisterPair(pair(2, 1)), 4),
        Err(EncodeError::InvalidOperand)
    );
    assert_eq!(enc.movw(pair(2, 1), pair(1, 0)), Err(EncodeError::InvalidOperand));
    assert_eq!(enc.buf, vec![0x00, 0x00]);
}

#[test]
fn unsupported_addressing_mode_fails_without_output() {
    let mut enc = with_bytes(2);
    let y = RegisterPair::y();
    assert_eq!(enc.lpm(r(0), y.post_increment()), Err(EncodeError::InvalidAddressing));
    assert_eq!(enc.lpm(r(0), RegisterPair::z().pre_decrement()), Err(EncodeError::InvalidAddressing));
    assert_eq!(enc.elpm(r(0), RegisterPair::x().into()), Err(EncodeError::InvalidAddressing));
    assert_eq!(enc.ldd(r(0), RegisterPair::x() + 1), Err(EncodeError::InvalidAddressing));
    assert_eq!(enc.std_(RegisterPair::x() + 1, r(0)), Err(EncodeError::InvalidAddressing));
    assert_eq!(enc.ld(r(0), pair(25, 24).into()), Err(EncodeError::InvalidAddressing));
    assert_eq!(enc.st(pair(25, 24).post_increment(), r(0)), Err(EncodeError::InvalidAddressing));
    assert_eq!(enc.buf, vec![0x00, 0x00]);
}

#[test]
fn round_trip_reads_operands_back() {
    let mut enc = Assembler::new();
    enc.ldi(r(20), 0xA5).unwrap();
    assert_eq!(read_field("1110 KKKK dddd KKKK", &enc.buf, 'K'), 0xA5);
    assert_eq!(read_field("1110 KKKK dddd KKKK", &enc.buf, 'd'), 4);

    let mut enc = Assembler::new();
    enc.ldd(r(13), RegisterPair::z() + 45).unwrap();
    assert_eq!(read_field("10q0 qq0d dddd 0qqq", &enc.buf, 'q'), 45);
    assert_eq!(read_field("10q0 qq0d dddd 0qqq", &enc.buf, 'd'), 13);

    let mut enc = Assembler::new();
    enc.call(absolute(0x2468A)).unwrap();
    assert_eq!(
        read_field("1001 010k kkkk 111k kkkk kkkk kkkk kkkk", &enc.buf, 'k'),
        0x2468A / 2
    );
}

#[test]
fn encoding_twice_into_fresh_buffers_is_identical() {
    let mut a = Assembler::new();
    let mut b = Assembler::new();
    assert_eq!(a.st(RegisterPair::y().pre_decrement(), r(9)), Ok(()));
    assert_eq!(b.st(RegisterPair::y().pre_decrement(), r(9)), Ok(()));
    assert_eq!(a.buf, b.buf);
    let mut a = Assembler::new();
    let mut b = Assembler::new();
    assert_eq!(a.rjmp(relative(-6)), b.rjmp(relative(-6)));
    assert_eq!(a.buf, b.buf);
}

#[test]
fn word_is_written_low_byte_first() {
    let mut enc = Assembler::new();
    enc.nop().unwrap();
    assert_eq!(enc.buf, vec![0x00, 0x00]);
    let mut enc = Assembler::new();
    assert_eq!(enc.encode(&[], "1010 1011 1100 1101"), Ok(()));
    assert_eq!(enc.buf, vec![0xCD, 0xAB]);
}

#[test]
fn long_call_splits_the_word_address() {
    let mut enc = Assembler::new();
    assert_eq!(enc.call(absolute(0x0002_0000)), Ok(()));
    assert_eq!(enc.buf, vec![0x0F, 0x94, 0x00, 0x00]);
    let mut enc = Assembler::new();
    assert_eq!(enc.call(absolute(0x2468)), Ok(()));
    assert_eq!(enc.buf, vec![0x0E, 0x94, 0x34, 0x12]);
    let mut enc = Assembler::new();
    assert_eq!(enc.jmp(absolute(0x2468)), Ok(()));
    assert_eq!(enc.buf, vec![0x0C, 0x94, 0x34, 0x12]);
}

#[test]
fn misaligned_word_address_fails() {
    let mut enc = Assembler::new();
    assert_eq!(enc.call(absolute(3)), Err(EncodeError::MisalignedOffset));
    assert!(enc.buf.is_empty());
    assert_eq!(enc.resolve_absolute_offset_doubles(absolute(3)), Err(EncodeError::MisalignedOffset));
    assert_eq!(enc.resolve_absolute_offset_doubles(absolute(0x2_0000)), Ok(0x1_0000));
}

#[test]
fn short_branch_backwards_is_twos_complement() {
    let mut enc = with_bytes(10);
    assert_eq!(enc.resolve_relative_offset(absolute(6)), Ok(-4));
    assert_eq!(enc.rjmp(absolute(6)), Ok(()));
    assert_eq!(&enc.buf[10..], &[0xFC, 0xCF]);
    let mut enc = with_bytes(10);
    assert_eq!(enc.breq(absolute(6)), Ok(()));
    assert_eq!(&enc.buf[10..], &[0xE1, 0xF3]);
}

#[test]
fn relative_branches_use_word_counts() {
    let mut enc = Assembler::new();
    assert_eq!(enc.rjmp(relative(-4)), Ok(()));
    assert_eq!(enc.buf, vec![0xFE, 0xCF]);
    let mut enc = Assembler::new();
    assert_eq!(enc.rcall(relative(8)), Ok(()));
    assert_eq!(enc.buf, vec![0x04, 0xD0]);
    let mut enc = Assembler::new();
    assert_eq!(enc.brbs(3, relative(8)), Ok(()));
    assert_eq!(enc.buf, vec![0x23, 0xF0]);
    let mut enc = Assembler::new();
    assert_eq!(enc.brbc(1, relative(-2)), Ok(()));
    assert_eq!(enc.buf, vec![0xF9, 0xF7]);
    let mut enc = Assembler::new();
    assert_eq!(enc.brne(relative(2)), Ok(()));
    assert_eq!(enc.buf, vec![0x09, 0xF4]);
}

#[test]
fn offsets_are_built_and_resolved() {
    assert_eq!(relative(-4), Offset::Relative(-2));
    assert_eq!(absolute(7), Offset::Absolute(7));
    let enc = with_bytes(10);
    assert_eq!(enc.resolve_absolute_offset(relative(4)), Ok(12));
    assert_eq!(enc.resolve_absolute_offset(absolute(9)), Ok(9));
    assert_eq!(enc.resolve_relative_offset(relative(4)), Ok(2));
    let empty = Assembler::new();
    assert_eq!(empty.resolve_absolute_offset(relative(-4)), Err(EncodeError::OffsetOutOfRange));
    assert_eq!(empty.resolve_relative_offset(absolute(u32::MAX)), Err(EncodeError::OffsetOutOfRange));
}

#[test]
fn indirect_loads_select_their_template() {
    let mut enc = Assembler::new();
    enc.ld(r(16), RegisterPair::x().into()).unwrap();
    enc.ld(r(1), RegisterPair::z().into()).unwrap();
    enc.ld(r(2), RegisterPair::y().post_increment()).unwrap();
    enc.ld(r(3), RegisterPair::x().pre_decrement()).unwrap();
    assert_eq!(enc.buf, vec![0x0C, 0x91, 0x10, 0x80, 0x29, 0x90, 0x3E, 0x90]);
    let mut enc = Assembler::new();
    assert_eq!(enc.ld(r(32), RegisterPair::x().into()), Err(EncodeError::InvalidOperand));
    assert!(enc.buf.is_empty());
}

#[test]
fn indirect_stores_select_their_template() {
    let mut enc = Assembler::new();
    enc.st(RegisterPair::x().post_increment(), r(17)).unwrap();
    enc.st(RegisterPair::y().into(), r(0)).unwrap();
    enc.st(RegisterPair::z().pre_decrement(), r(31)).unwrap();
    assert_eq!(enc.buf, vec![0x1D, 0x93, 0x08, 0x82, 0xF2, 0x93]);
}

#[test]
fn displacement_loads_and_stores() {
    let mut enc = Assembler::new();
    enc.ldd(r(5), RegisterPair::y() + 63).unwrap();
    assert_eq!(enc.buf, vec![0x5F, 0xAC]);
    assert_eq!(enc.ldd(r(5), RegisterPair::y() + 64), Err(EncodeError::InvalidOperand));
    let mut enc = Assembler::new();
    enc.std_(RegisterPair::z() + 2, r(3)).unwrap();
    assert_eq!(enc.buf, vec![0x32, 0x82]);
}

#[test]
fn program_memory_loads() {
    let mut enc = Assembler::new();
    enc.lpm(r(4), RegisterPair::z().into()).unwrap();
    enc.lpm(r(4), RegisterPair::z().post_increment()).unwrap();
    enc.elpm(r(4), RegisterPair::z().into()).unwrap();
    enc.elpm(r(4), RegisterPair::z().post_increment()).unwrap();
    assert_eq!(enc.buf, vec![0x44, 0x90, 0x45, 0x90, 0x46, 0x90, 0x47, 0x90]);
}

#[test]
fn lds_picks_short_or_long_form() {
    let mut enc = Assembler::new();
    enc.lds(r(16), absolute(0x40)).unwrap();
    assert_eq!(enc.buf, vec![0x00, 0xA4]);
    let mut enc = Assembler::new();
    enc.lds(r(0), absolute(0x100)).unwrap();
    assert_eq!(enc.buf, vec![0x00, 0x90, 0x00, 0x01]);
    let mut enc = Assembler::new();
    assert_eq!(enc.lds(r(0), absolute(0x40)), Err(EncodeError::InvalidOperand));
    assert_eq!(enc.lds(r(0), absolute(0x1_0000)), Err(EncodeError::InvalidOperand));
    assert!(enc.buf.is_empty());
}

#[test]
fn store_direct_is_two_words() {
    let mut enc = Assembler::new();
    enc.sts(absolute(0x0200), r(16)).unwrap();
    assert_eq!(enc.buf, vec![0x00, 0x93, 0x00, 0x02]);
}

#[test]
fn register_operations() {
    let mut enc = Assembler::new();
    enc.add(r(1), r(31)).unwrap();
    enc.mov(r(16), r(17)).unwrap();
    enc.ldi(r(16), 0xFF).unwrap();
    enc.mulsu(r(16), r(23)).unwrap();
    enc.clr(r(1)).unwrap();
    enc.push(r(28)).unwrap();
    enc.pop(r(28)).unwrap();
    assert_eq!(
        enc.buf,
        vec![0x1F, 0x0E, 0x01, 0x2F, 0x0F, 0xEF, 0x07, 0x03, 0x11, 0x24, 0xCF, 0x93, 0xCF, 0x91]
    );
    let mut enc = Assembler::new();
    assert_eq!(enc.ldi(r(16), 256), Err(EncodeError::InvalidOperand));
    assert_eq!(enc.ldi(r(15), 1), Err(EncodeError::InvalidOperand));
    assert_eq!(enc.mulsu(r(24), r(16)), Err(EncodeError::InvalidOperand));
    assert!(enc.buf.is_empty());
}

#[test]
fn pair_operations() {
    let mut enc = Assembler::new();
    enc.movw(pair(1, 0), pair(31, 30)).unwrap();
    enc.adiw(pair(25, 24), 1).unwrap();
    enc.adiw(pair(31, 30), 63).unwrap();
    assert_eq!(enc.buf, vec![0x0F, 0x01, 0x01, 0x96, 0xFF, 0x96]);
    assert_eq!(enc.adiw(pair(23, 22), 1), Err(EncodeError::InvalidOperand));
    assert_eq!(enc.buf.len(), 6);
}

#[test]
fn io_operations() {
    let mut enc = Assembler::new();
    enc.in_(r(16), 0x3F).unwrap();
    enc.out(0x3F, r(16)).unwrap();
    assert_eq!(enc.buf, vec![0x0F, 0xB7, 0x0F, 0xBF]);
    assert_eq!(enc.out(64, r(16)), Err(EncodeError::InvalidOperand));
}

#[test]
fn implicit_z_operand() {
    let mut enc = Assembler::new();
    enc.lac(RegisterPair::z(), r(5)).unwrap();
    enc.las(RegisterPair::z(), r(5)).unwrap();
    enc.lat(RegisterPair::z(), r(5)).unwrap();
    enc.xch(RegisterPair::z(), r(5)).unwrap();
    assert_eq!(enc.buf, vec![0x56, 0x92, 0x55, 0x92, 0x57, 0x92, 0x54, 0x92]);
    assert_eq!(enc.lac(RegisterPair::x(), r(5)), Err(EncodeError::InvalidAddressing));
    assert_eq!(enc.buf.len(), 8);
}

#[test]
fn malformed_templates_are_refused() {
    let mut enc = Assembler::new();
    assert_eq!(enc.encode(&[], "1111 000"), Err(EncodeError::InvalidTemplate));
    assert_eq!(enc.encode(&[], "1111 0000 0000 000a"), Err(EncodeError::InvalidTemplate));
    assert_eq!(
        enc.encode(&[(Arg::U32(1), 'x')], "1111 0000 0000 0000"),
        Err(EncodeError::InvalidTemplate)
    );
    assert_eq!(
        enc.encode(&[(Arg::U32(1), 'a'), (Arg::U32(1), 'a')], "1111 0000 0000 000a"),
        Err(EncodeError::InvalidTemplate)
    );
    assert_eq!(
        enc.encode(&[], "1111 0000 0000 0000 1111 0000 0000 0000 1111 0000 0000 0000"),
        Err(EncodeError::InvalidTemplate)
    );
    assert!(enc.buf.is_empty());
    assert_eq!(enc.encode(&[], ""), Ok(()));
    assert!(enc.buf.is_empty());
    assert_eq!(enc.encode(&[(Arg::U32(5), 'a')], "0000 0000 0000 aaaa"), Ok(()));
    assert_eq!(enc.buf, vec![0x05, 0x00]);
}

#[test]
fn pair_modes_are_built() {
    let x = RegisterPair::x();
    assert_eq!(x, pair(27, 26));
    assert_eq!(RegisterPair::y(), pair(29, 28));
    assert_eq!(RegisterPair::z(), pair(31, 30));
    let plain: DirectionalRegisterPair = x.into();
    assert_eq!(plain.direction, Direction::NoChange);
    assert_eq!(x.post_increment().direction, Direction::PostIncrement);
    assert_eq!(x.pre_decrement().direction, Direction::PreDecrement);
    assert_eq!(RegisterPair::y() + 5, OffsetRegisterPair { pair: RegisterPair::y(), offset: 5 });
}

#[test]
fn operands_convert_into_args() {
    assert_eq!(Arg::from(r(3)), Arg::Register(r(3)));
    assert_eq!(Arg::from(pair(25, 24)), Arg::RegisterPair(pair(25, 24)));
    assert_eq!(Arg::from(7u32), Arg::U32(7));
    assert_eq!(Arg::from(7u8), Arg::U8(7));
    assert_eq!(Arg::from(-7i32), Arg::I32(-7));
    let mut enc = Assembler::new();
    assert_eq!(enc.encode(&[(r(17).into(), 'd')], "1001 000d dddd 1111"), Ok(()));
    assert_eq!(enc.buf, vec![0x1F, 0x91]);
}
