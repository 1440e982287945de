//! Laws of the encoder, stated over the models that the executable
//! functions' contracts use.
use crate::assembler::applied;
use crate::operand::{operand_pattern, Arg, EncodeError, Register, RegisterPair};
use crate::template::{
    bit_count, encoding, field_values, is_designator, lemma_field_value, lemma_pack_bound,
    occurrences, pack, template_bit, word_bytes,
};
use vstd::arithmetic::div_mod::{lemma_breakdown, lemma_fundamental_div_mod_converse, lemma_small_mod};
use vstd::arithmetic::power2::{lemma2_to64, lemma_pow2_adds, lemma_pow2_pos, lemma_pow2_unfold, pow2};
use vstd::prelude::*;

verus! {

/// The number that the bytes of a run of instruction words spell: each
/// word low byte first, the first word most significant.
pub open spec fn words_value(b: Seq<u8>) -> nat
    decreases b.len(),
{
    if b.len() < 2 {
        0
    } else {
        words_value(b.subrange(0, b.len() - 2)) * 65536 + b[b.len() - 2] as nat + 256 * b[b.len() - 1] as nat
    }
}

/// The value of field `c` read back from the instruction `v` of template
/// `t`: the bit under the `k`-th occurrence of `c` from the right is bit `k`.
pub open spec fn unpack(t: Seq<char>, v: nat, c: char) -> nat
    decreases t.len(),
{
    if t.len() == 0 {
        0
    } else {
        let rest = t.drop_first();
        if t[0] == ' ' {
            unpack(rest, v, c)
        } else {
            let here = if t[0] == c {
                ((v / pow2(bit_count(rest))) % 2) * pow2(occurrences(rest, c))
            } else {
                0
            };
            here + unpack(rest, v % pow2(bit_count(rest)), c)
        }
    }
}

/// A register below 32 is encoded in a five-bit field as its own number.
pub proof fn lemma_register_five_bits(r: Register)
    requires
        r.0 < 32,
    ensures
        operand_pattern(Arg::Register(r), 5) == Some(r.0),
{
}

/// A four-bit register field takes exactly the registers 16 to 31, as their
/// low four bits.
pub proof fn lemma_register_four_bits(r: Register)
    ensures
        16 <= r.0 < 32 ==> operand_pattern(Arg::Register(r), 4) == Some(r.0 & 0xF),
        !(16 <= r.0 < 32) ==> operand_pattern(Arg::Register(r), 4) is None,
{
}

/// A well-formed pair whose low register is representable in `width` bits
/// is encoded as half its low register; a pair whose registers are not
/// consecutive, or whose low register is odd, is refused at every width.
pub proof fn lemma_register_pair(p: RegisterPair, width: nat)
    ensures
        p.0.0 == p.1.0 + 1 && p.1.0 % 2 == 0 && p.1.0 + 2 * pow2(width) >= 32 ==> operand_pattern(
            Arg::RegisterPair(p),
            width,
        ) == Some(p.1.0 / 2),
        p.0.0 != p.1.0 + 1 || p.1.0 % 2 == 1 ==> operand_pattern(Arg::RegisterPair(p), width) is None,
{
}

/// Encoding is repeatable: the same instruction with the same operands,
/// encoded into two fresh buffers, gives the same result and the same bytes.
pub proof fn lemma_encoding_repeatable(
    t: Seq<char>,
    args: Seq<(Arg, char)>,
    after1: Seq<u8>,
    r1: Result<(), EncodeError>,
    after2: Seq<u8>,
    r2: Result<(), EncodeError>,
)
    requires
        applied(Seq::empty(), after1, r1, encoding(t, args)),
        applied(Seq::empty(), after2, r2, encoding(t, args)),
    ensures
        r1 == r2,
        after1 == after2,
{
}

/// Reading the words back gives the number they were cut from, less what
/// lies above the last word.
pub proof fn lemma_words_value(v: nat, n: nat)
    ensures
        words_value(word_bytes(v, n)) == v % pow2(16 * n),
    decreases n,
{
    lemma2_to64();
    if n == 0 {
        assert(v % 1 == 0);
    } else {
        let m = (n - 1) as nat;
        let b = word_bytes(v, n);
        let w = v % 65536;
        lemma_words_value(v / 65536, m);
        assert(word_bytes(v / 65536, m).len() == 2 * m) by {
            lemma_word_bytes_len(v / 65536, m);
        }
        assert(b.subrange(0, b.len() - 2) =~= word_bytes(v / 65536, m));
        assert(b[b.len() - 2] as nat == w % 256);
        assert(b[b.len() - 1] as nat == w / 256);
        assert(w % 256 + 256 * (w / 256) == w);
        lemma_pow2_pos(16 * m);
        lemma_pow2_adds(16, 16 * m);
        assert(16 * n == 16 + 16 * m);
        lemma_breakdown(v as int, 65536, pow2(16 * m) as int);
    }
}

/// Each word is two bytes.
pub proof fn lemma_word_bytes_len(v: nat, n: nat)
    ensures
        word_bytes(v, n).len() == 2 * n,
    decreases n,
{
    if n > 0 {
        lemma_word_bytes_len(v / 65536, (n - 1) as nat);
    }
}

/// Unpacking a packed template gives each field's value back, cut to the
/// field's width.
pub proof fn lemma_unpack_pack(t: Seq<char>, vals: Map<char, u32>, c: char)
    requires
        is_designator(c),
        vals.contains_key(c),
    ensures
        unpack(t, pack(t, vals), c) == vals[c] as nat % pow2(occurrences(t, c)),
    decreases t.len(),
{
    let x = vals[c] as nat;
    if t.len() == 0 {
        lemma2_to64();
        assert(x % 1 == 0);
    } else {
        let rest = t.drop_first();
        lemma_unpack_pack(rest, vals, c);
        if t[0] != ' ' {
            let k = occurrences(rest, c);
            let p = pow2(bit_count(rest));
            let b = template_bit(t[0], vals, occurrences(rest, t[0]));
            let v = pack(t, vals);
            lemma_pack_bound(rest, vals);
            lemma_pow2_pos(bit_count(rest));
            assert(v == b * p + pack(rest, vals));
            lemma_fundamental_div_mod_converse(v as int, p as int, b as int, pack(rest, vals) as int);
            assert(v % p == pack(rest, vals));
            assert(v / p == b);
            if t[0] == c {
                lemma_pow2_pos(k);
                lemma_pow2_unfold(k + 1);
                assert(pow2(k + 1) == pow2(k) * 2);
                lemma_breakdown(x as int, pow2(k) as int, 2);
                assert(b == (x / pow2(k)) % 2);
                assert(b % 2 == b);
                assert(occurrences(t, c) == k + 1);
                assert(unpack(t, v, c) == (b % 2) * pow2(k) + unpack(rest, pack(rest, vals), c));
                assert(x % pow2(k + 1) == pow2(k) * b + x % pow2(k));
            } else {
                assert(occurrences(t, c) == k);
                assert(unpack(t, v, c) == unpack(rest, pack(rest, vals), c));
            }
        } else {
            assert(occurrences(t, c) == occurrences(rest, c));
        }
    }
}

/// Round trip: when an instruction encodes, reading each operand's field
/// back from the bytes gives the operand's pattern, cut to the field's
/// width; a pattern that fits its field comes back whole.
pub proof fn lemma_round_trip(t: Seq<char>, args: Seq<(Arg, char)>, j: int)
    requires
        encoding(t, args) is Ok,
        0 <= j < args.len(),
    ensures
        ({
            let width = occurrences(t, args[j].1);
            let read = unpack(t, words_value(encoding(t, args)->Ok_0), args[j].1);
            &&& operand_pattern(args[j].0, width) is Some
            &&& read == operand_pattern(args[j].0, width)->Some_0 as nat % pow2(width)
            &&& operand_pattern(args[j].0, width)->Some_0 < pow2(width) ==> read == operand_pattern(args[j].0, width)->Some_0
        }),
{
    let vals = field_values(t, args);
    let v = pack(t, vals);
    let n = bit_count(t) / 16;
    let c = args[j].1;
    let width = occurrences(t, c);
    assert(operand_pattern(args[j].0, occurrences(t, args[j].1)) is Some);
    lemma_pack_bound(t, vals);
    lemma_words_value(v, n);
    assert(16 * n == bit_count(t));
    lemma_small_mod(v, pow2(16 * n));
    lemma_field_value(t, args, j);
    assert(is_designator(c));
    lemma_unpack_pack(t, vals, c);
    lemma_pow2_pos(width);
    let pat = operand_pattern(args[j].0, width)->Some_0;
    if (pat as nat) < pow2(width) {
        lemma_small_mod(pat as nat, pow2(width));
    }
}

} // verus!
