//! The bit-template language: a template is a string of `0`, `1`, spaces and
//! field designators. Each designator stands for one bit of one operand's
//! pattern; the `k`-th occurrence of a letter, counted from the right, holds
//! bit `k` of that operand. The rightmost non-space character is bit 0 of
//! the instruction, and each 16-bit word is written low byte first.
use crate::operand::{operand_pattern, Arg, EncodeError};
use vstd::arithmetic::div_mod::lemma_div_denominator;
use vstd::arithmetic::mul::lemma_mul_inequality;
use vstd::arithmetic::power2::{lemma2_to64, lemma_pow2_adds, lemma_pow2_pos, lemma_pow2_unfold, pow2};
use vstd::bits::{lemma_u32_pow2_no_overflow, lemma_u32_shl_is_mul};
use vstd::prelude::*;
use vstd::string::StrSliceExecFns;

verus! {

/// A character that names an operand field.
pub open spec fn is_designator(c: char) -> bool {
    c != ' ' && c != '0' && c != '1'
}

/// How many times `c` occurs in `t`; for a designator, the width of its field.
pub open spec fn occurrences(t: Seq<char>, c: char) -> nat
    decreases t.len(),
{
    if t.len() == 0 {
        0
    } else {
        occurrences(t.drop_first(), c) + if t[0] == c {
            1nat
        } else {
            0nat
        }
    }
}

/// The number of bits that `t` describes: its characters other than spaces.
pub open spec fn bit_count(t: Seq<char>) -> nat
    decreases t.len(),
{
    if t.len() == 0 {
        0
    } else {
        bit_count(t.drop_first()) + if t[0] == ' ' {
            0nat
        } else {
            1nat
        }
    }
}

/// The designators of an operand list, in order.
pub open spec fn designators(args: Seq<(Arg, char)>) -> Seq<char> {
    args.map_values(|a: (Arg, char)| a.1)
}

/// The template and the operand list fit each other: every character is a
/// literal bit, a space or the designator of exactly one operand, every
/// operand's designator occurs in the template, and the template describes
/// zero, one or two whole words.
pub open spec fn template_matches(t: Seq<char>, args: Seq<(Arg, char)>) -> bool {
    &&& forall|i: int| 0 <= i < t.len() && is_designator(#[trigger] t[i]) ==> designators(args).contains(t[i])
    &&& forall|j: int| 0 <= j < args.len() ==> is_designator(#[trigger] args[j].1) && occurrences(t, args[j].1) > 0
    &&& forall|j: int, k: int| 0 <= j < k < args.len() ==> #[trigger] args[j].1 != #[trigger] args[k].1
    &&& bit_count(t) % 16 == 0
    &&& bit_count(t) <= 32
}

/// Every operand fits the field that the template gives it.
pub open spec fn operands_fit(t: Seq<char>, args: Seq<(Arg, char)>) -> bool {
    forall|j: int| 0 <= j < args.len() ==> (#[trigger] operand_pattern(args[j].0, occurrences(t, args[j].1))).is_some()
}

/// The pattern of `arg` in a field of `width` bits, where it fits.
pub open spec fn pattern_or_zero(arg: Arg, width: nat) -> u32 {
    match operand_pattern(arg, width) {
        Some(v) => v,
        None => 0,
    }
}

/// The bit pattern of each designator's field.
pub open spec fn field_values(t: Seq<char>, args: Seq<(Arg, char)>) -> Map<char, u32>
    decreases args.len(),
{
    if args.len() == 0 {
        Map::empty()
    } else {
        let last = args.last();
        field_values(t, args.drop_last()).insert(last.1, pattern_or_zero(last.0, occurrences(t, last.1)))
    }
}

/// The bit that character `c` contributes, where `k` occurrences of `c`
/// stand to its right.
pub open spec fn template_bit(c: char, vals: Map<char, u32>, k: nat) -> nat {
    if c == '0' {
        0
    } else if c == '1' {
        1
    } else {
        (vals[c] as nat / pow2(k)) % 2
    }
}

/// The instruction that `t` describes with field values `vals`, as a number
/// whose most significant bit is the leftmost non-space character.
pub open spec fn pack(t: Seq<char>, vals: Map<char, u32>) -> nat
    decreases t.len(),
{
    if t.len() == 0 {
        0
    } else {
        let rest = t.drop_first();
        if t[0] == ' ' {
            pack(rest, vals)
        } else {
            template_bit(t[0], vals, occurrences(rest, t[0])) * pow2(bit_count(rest)) + pack(rest, vals)
        }
    }
}

/// The two bytes of a 16-bit word, low byte first.
pub open spec fn word_le(w: nat) -> Seq<u8> {
    seq![(w % 256) as u8, (w / 256) as u8]
}

/// The lowest `n` words of `v`, most significant word first, each low byte
/// first.
pub open spec fn word_bytes(v: nat, n: nat) -> Seq<u8>
    decreases n,
{
    if n == 0 {
        Seq::empty()
    } else {
        word_bytes(v / 65536, (n - 1) as nat) + word_le(v % 65536)
    }
}

/// What encoding `args` into template `t` yields: the bytes of the
/// instruction, or why there are none.
pub open spec fn encoding(t: Seq<char>, args: Seq<(Arg, char)>) -> Result<Seq<u8>, EncodeError> {
    if !template_matches(t, args) {
        Err(EncodeError::InvalidTemplate)
    } else if !operands_fit(t, args) {
        Err(EncodeError::InvalidOperand)
    } else {
        Ok(word_bytes(pack(t, field_values(t, args)), bit_count(t) / 16))
    }
}

/// A template character contributes a single bit.
pub proof fn lemma_template_bit_le_1(c: char, vals: Map<char, u32>, k: nat)
    ensures
        template_bit(c, vals, k) <= 1,
{
}

/// A template of `n` bits packs into a number below `2^n`.
pub proof fn lemma_pack_bound(t: Seq<char>, vals: Map<char, u32>)
    ensures
        pack(t, vals) < pow2(bit_count(t)),
    decreases t.len(),
{
    if t.len() == 0 {
        lemma_pow2_pos(0);
    } else {
        let rest = t.drop_first();
        lemma_pack_bound(rest, vals);
        if t[0] != ' ' {
            let b = template_bit(t[0], vals, occurrences(rest, t[0]));
            let p = pow2(bit_count(rest));
            lemma_template_bit_le_1(t[0], vals, occurrences(rest, t[0]));
            lemma_pow2_unfold(bit_count(rest) + 1);
            lemma_mul_inequality(b as int, 1, p as int);
            assert(b * p <= p);
            assert(pow2(bit_count(rest) + 1) == 2 * p);
            assert(bit_count(t) == bit_count(rest) + 1);
        }
    }
}

/// A suffix of a template describes no more bits than the template.
pub proof fn lemma_suffix_bit_count(t: Seq<char>, i: int)
    requires
        0 <= i <= t.len(),
    ensures
        bit_count(t.subrange(i, t.len() as int)) <= bit_count(t),
    decreases i,
{
    if i > 0 {
        lemma_suffix_bit_count(t, i - 1);
        assert(t.subrange(i - 1, t.len() as int).drop_first() =~= t.subrange(i, t.len() as int));
    } else {
        assert(t.subrange(0, t.len() as int) =~= t);
    }
}

/// With distinct designators, a designator's field value is the pattern of
/// its own operand.
pub proof fn lemma_field_value(t: Seq<char>, args: Seq<(Arg, char)>, j: int)
    requires
        0 <= j < args.len(),
        forall|a: int, b: int| 0 <= a < b < args.len() ==> #[trigger] args[a].1 != #[trigger] args[b].1,
    ensures
        field_values(t, args).contains_key(args[j].1),
        field_values(t, args)[args[j].1] == pattern_or_zero(args[j].0, occurrences(t, args[j].1)),
    decreases args.len(),
{
    if j < args.len() - 1 {
        let init = args.drop_last();
        assert forall|a: int, b: int| 0 <= a < b < init.len() implies #[trigger] init[a].1 != #[trigger] init[b].1 by {
            assert(init[a] == args[a] && init[b] == args[b]);
        }
        assert(init[j] == args[j]);
        lemma_field_value(t, init, j);
        assert(args[j].1 != args[args.len() - 1].1);
    }
}

/// Dropping the lowest `e` bits and then one more word is dropping `e + 16`
/// bits.
pub proof fn lemma_drop_word(v: nat, e: nat)
    ensures
        v / pow2(e) / 65536 == v / pow2(e + 16),
{
    lemma2_to64();
    lemma_pow2_pos(e);
    lemma_pow2_adds(e, 16);
    lemma_div_denominator(v as int, pow2(e) as int, 65536);
}

/// Setting bit `s` above a number below `2^s` adds `2^s`.
pub proof fn lemma_set_top_bit(r: u32, b: u32, s: u32)
    requires
        s < 32,
        b <= 1,
        r < pow2(s as nat),
    ensures
        (r | (b << s)) == r + b * pow2(s as nat),
        r + b * pow2(s as nat) < pow2(s as nat + 1),
{
    lemma_u32_pow2_no_overflow(s as nat);
    lemma_u32_shl_is_mul(1, s);
    lemma_mul_inequality(b as int, 1, pow2(s as nat) as int);
    lemma_u32_shl_is_mul(b, s);
    lemma_pow2_unfold(s as nat + 1);
    assert(r < (1u32 << s) && b <= 1 && s < 32 ==> (r | (b << s)) == r + (b << s)) by (bit_vector);
}

/// Consuming one more bit of a field: halving `v / 2^k` gives `v / 2^(k+1)`.
pub proof fn lemma_next_bit(v: nat, k: nat)
    ensures
        v / pow2(k) / 2 == v / pow2(k + 1),
{
    lemma_pow2_pos(k);
    lemma_pow2_unfold(k + 1);
    lemma_div_denominator(v as int, pow2(k) as int, 2);
}

/// A template of one or two words whose only designator is `c`, occurring
/// `w` times.
pub open spec fn one_field_template(t: Seq<char>, c: char, w: nat) -> bool {
    &&& is_designator(c)
    &&& forall|i: int| 0 <= i < t.len() ==> #[trigger] t[i] == ' ' || t[i] == '0' || t[i] == '1' || t[i] == c
    &&& occurrences(t, c) == w
    &&& w > 0
    &&& bit_count(t) == 16 || bit_count(t) == 32
}

/// A template of one or two words whose only designators are `c` and `e`,
/// occurring `w` and `x` times.
pub open spec fn two_field_template(t: Seq<char>, c: char, w: nat, e: char, x: nat) -> bool {
    &&& is_designator(c)
    &&& is_designator(e)
    &&& c != e
    &&& forall|i: int| 0 <= i < t.len() ==> #[trigger] t[i] == ' ' || t[i] == '0' || t[i] == '1' || t[i] == c || t[i] == e
    &&& occurrences(t, c) == w
    &&& occurrences(t, e) == x
    &&& w > 0
    &&& x > 0
    &&& bit_count(t) == 16 || bit_count(t) == 32
}

/// A one-field template encodes exactly the operands that fit its field.
pub proof fn lemma_one_field(t: Seq<char>, a: Arg, c: char, w: nat)
    requires
        one_field_template(t, c, w),
    ensures
        encoding(t, seq![(a, c)]) is Ok <==> operand_pattern(a, w) is Some,
        encoding(t, seq![(a, c)]) is Err ==> encoding(t, seq![(a, c)]) == Err::<Seq<u8>, EncodeError>(EncodeError::InvalidOperand),
{
    let args = seq![(a, c)];
    assert(designators(args)[0] == c);
    assert forall|i: int| 0 <= i < t.len() && is_designator(#[trigger] t[i]) implies designators(args).contains(t[i]) by {
        assert(designators(args)[0] == t[i]);
    }
    assert(template_matches(t, args));
    if operand_pattern(a, w) is Some {
        assert(operands_fit(t, args));
    } else {
        assert(!(operand_pattern(args[0].0, occurrences(t, args[0].1)) is Some));
    }
}

/// A two-field template encodes exactly the operands that fit their fields.
pub proof fn lemma_two_fields(t: Seq<char>, a: Arg, c: char, w: nat, b: Arg, e: char, x: nat)
    requires
        two_field_template(t, c, w, e, x),
    ensures
        encoding(t, seq![(a, c), (b, e)]) is Ok <==> (operand_pattern(a, w) is Some && operand_pattern(b, x) is Some),
        encoding(t, seq![(a, c), (b, e)]) is Err ==> encoding(t, seq![(a, c), (b, e)]) == Err::<Seq<u8>, EncodeError>(EncodeError::InvalidOperand),
{
    let args = seq![(a, c), (b, e)];
    assert(designators(args)[0] == c);
    assert(designators(args)[1] == e);
    assert forall|i: int| 0 <= i < t.len() && is_designator(#[trigger] t[i]) implies designators(args).contains(t[i]) by {
        if t[i] == c {
            assert(designators(args)[0] == t[i]);
        } else {
            assert(designators(args)[1] == t[i]);
        }
    }
    assert(template_matches(t, args));
    if operand_pattern(a, w) is Some && operand_pattern(b, x) is Some {
        assert(operands_fit(t, args));
    } else if operand_pattern(a, w) is None {
        assert(!(operand_pattern(args[0].0, occurrences(t, args[0].1)) is Some));
    } else {
        assert(!(operand_pattern(args[1].0, occurrences(t, args[1].1)) is Some));
    }
}

/// Counts of a concatenation are sums of the parts' counts.
pub proof fn lemma_counts_concat(a: Seq<char>, b: Seq<char>, c: char)
    ensures
        occurrences(a + b, c) == occurrences(a, c) + occurrences(b, c),
        bit_count(a + b) == bit_count(a) + bit_count(b),
    decreases a.len(),
{
    if a.len() == 0 {
        assert(a + b =~= b);
    } else {
        lemma_counts_concat(a.drop_first(), b, c);
        assert((a + b).drop_first() =~= a.drop_first() + b);
    }
}

/// A literal bit of a template.
pub open spec fn is_bit(ch: char) -> bool {
    ch == '0' || ch == '1'
}

/// The shape `bbbb bbbc cccc bbbb` of a one-word instruction with a
/// five-bit register field `c`, each `b` a literal bit.
pub open spec fn register_word(t: Seq<char>, c: char) -> bool {
    &&& t.len() == 19
    &&& is_designator(c)
    &&& is_bit(t[0]) && is_bit(t[1]) && is_bit(t[2]) && is_bit(t[3]) && t[4] == ' '
    &&& is_bit(t[5]) && is_bit(t[6]) && is_bit(t[7]) && t[8] == c && t[9] == ' '
    &&& t[10] == c && t[11] == c && t[12] == c && t[13] == c && t[14] == ' '
    &&& is_bit(t[15]) && is_bit(t[16]) && is_bit(t[17]) && is_bit(t[18])
}

/// Every template of that shape is a well-formed one-field template.
pub proof fn lemma_register_word(t: Seq<char>, c: char)
    requires
        register_word(t, c),
    ensures
        one_field_template(t, c, 5),
{
    reveal_with_fuel(bit_count, 20);
    reveal_with_fuel(occurrences, 20);
    assert forall|i: int| 0 <= i < t.len() implies #[trigger] t[i] == ' ' || t[i] == '0' || t[i] == '1' || t[i] == c by {}
}

/// How many times `c` occurs in the template `s`, whose length in
/// characters is `n`.
pub fn count_occurrences(s: &str, n: usize, c: char) -> (count: usize)
    requires
        n == s@.len(),
    ensures
        count == occurrences(s@, c),
        count <= n,
{
    let ghost t = s@;
    let mut i: usize = n;
    let mut count: usize = 0;
    while i > 0
        invariant
            i <= n,
            n == t.len(),
            t == s@,
            count == occurrences(t.subrange(i as int, n as int), c),
            count <= n - i,
        decreases i,
    {
        i = i - 1;
        proof {
            assert(t.subrange(i as int, n as int).drop_first() =~= t.subrange(i + 1, n as int));
        }
        if s.get_char(i) == c {
            count = count + 1;
        }
    }
    proof {
        assert(t.subrange(0, n as int) =~= t);
    }
    count
}

/// How many bits the template `s`, of `n` characters, describes.
pub fn count_bits(s: &str, n: usize) -> (count: usize)
    requires
        n == s@.len(),
    ensures
        count == bit_count(s@),
        count <= n,
{
    let ghost t = s@;
    let mut i: usize = n;
    let mut count: usize = 0;
    while i > 0
        invariant
            i <= n,
            n == t.len(),
            t == s@,
            count == bit_count(t.subrange(i as int, n as int)),
            count <= n - i,
        decreases i,
    {
        i = i - 1;
        proof {
            assert(t.subrange(i as int, n as int).drop_first() =~= t.subrange(i + 1, n as int));
        }
        if s.get_char(i) != ' ' {
            count = count + 1;
        }
    }
    proof {
        assert(t.subrange(0, n as int) =~= t);
    }
    count
}

/// The position of the operand whose designator is `c`.
pub fn find_designator(args: &[(Arg, char)], c: char) -> (k: Option<usize>)
    ensures
        match k {
            Some(k) => k < args@.len() && args@[k as int].1 == c,
            None => !designators(args@).contains(c),
        },
{
    let mut j: usize = 0;
    while j < args.len()
        invariant
            j <= args@.len(),
            forall|k: int| 0 <= k < j ==> args@[k].1 != c,
        decreases args@.len() - j,
    {
        if args[j].1 == c {
            return Some(j);
        }
        j = j + 1;
    }
    proof {
        if designators(args@).contains(c) {
            let w = choose|w: int| 0 <= w < designators(args@).len() && designators(args@)[w] == c;
            assert(args@[w].1 == c);
        }
    }
    None
}

/// Whether the template `s`, of `n` characters, fits the operand list.
pub fn check_template(args: &[(Arg, char)], s: &str, n: usize) -> (ok: bool)
    requires
        n == s@.len(),
    ensures
        ok == template_matches(s@, args@),
{
    let ghost t = s@;
    let mut i: usize = 0;
    while i < n
        invariant
            i <= n,
            n == t.len(),
            t == s@,
            forall|k: int| 0 <= k < i && is_designator(#[trigger] t[k]) ==> designators(args@).contains(t[k]),
        decreases n - i,
    {
        let c = s.get_char(i);
        if c != ' ' && c != '0' && c != '1' {
            match find_designator(args, c) {
                None => {
                    return false;
                },
                Some(k) => {
                    proof {
                        assert(designators(args@)[k as int] == c);
                    }
                },
            }
        }
        i = i + 1;
    }
    let mut j: usize = 0;
    while j < args.len()
        invariant
            j <= args@.len(),
            n == t.len(),
            t == s@,
            forall|k: int| 0 <= k < j ==> is_designator(#[trigger] args@[k].1) && occurrences(t, args@[k].1) > 0,
            forall|a: int, b: int| 0 <= a < b < j ==> #[trigger] args@[a].1 != #[trigger] args@[b].1,
        decreases args@.len() - j,
    {
        let c = args[j].1;
        if c == ' ' || c == '0' || c == '1' {
            return false;
        }
        if count_occurrences(s, n, c) == 0 {
            return false;
        }
        let mut k: usize = 0;
        while k < j
            invariant
                k <= j,
                j < args@.len(),
                c == args@[j as int].1,
                forall|a: int| 0 <= a < k ==> args@[a].1 != c,
            decreases j - k,
        {
            if args[k].1 == c {
                return false;
            }
            k = k + 1;
        }
        j = j + 1;
    }
    let bits = count_bits(s, n);
    bits % 16 == 0 && bits <= 32
}

} // verus!
