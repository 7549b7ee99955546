//! Exp-Golomb codes: the decoders used by the header parsers, and the
//! encoders that are their inverses.

use crate::bitreader::{bits_value, fails_with, lemma_bits_value_bound, BitReader};
use crate::error::{Error, ErrorKind};
use vstd::arithmetic::div_mod::{lemma_div_denominator, lemma_fundamental_div_mod_converse};
use vstd::arithmetic::power2::{
    lemma2_to64, lemma_pow2_pos, lemma_pow2_strictly_increases, lemma_pow2_unfold, pow2,
};
use vstd::bits::{lemma_u32_shl_is_mul, lemma_u32_shr_is_div};
use vstd::prelude::*;
use vstd::std_specs::bits::{axiom_u32_leading_zeros, u32_leading_zeros};

verus! {

/// What decoding at a bit position gives: the value and the position after
/// it, or the kind of failure.
pub type Decoded<T> = Result<(T, int), ErrorKind>;

/// Number of zero bits from `pos` up to the first one bit or the end.
pub open spec fn zero_run(bits: Seq<bool>, pos: int) -> nat
    decreases bits.len() - pos,
{
    if 0 <= pos < bits.len() && !bits[pos] {
        1 + zero_run(bits, pos + 1)
    } else {
        0
    }
}

/// The unsigned code at `pos`: `z` zeros, a one, then `z` bits `v`, worth
/// `2^z - 1 + v`. A run of 32 zeros or more is invalid.
pub open spec fn ue_at(bits: Seq<bool>, pos: int) -> Decoded<nat> {
    let z = zero_run(bits, pos);
    if z >= 32 {
        Err(ErrorKind::BitstreamError)
    } else if pos + 2 * z + 1 > bits.len() {
        Err(ErrorKind::UnexpectedEof)
    } else {
        Ok(((pow2(z) - 1 + bits_value(bits, pos + z + 1, z)) as nat, pos + 2 * z + 1))
    }
}

/// The signed value that an unsigned code number stands for: 0, 1, -1, 2, -2, ...
pub open spec fn se_of(k: nat) -> int {
    if k % 2 == 1 {
        (k + 1) as int / 2
    } else {
        -(k as int / 2)
    }
}

/// The signed code at `pos`.
pub open spec fn se_at(bits: Seq<bool>, pos: int) -> Decoded<int> {
    match ue_at(bits, pos) {
        Ok((k, next)) => Ok((se_of(k), next)),
        Err(kind) => Err(kind),
    }
}

/// The mapped code at `pos`: for chroma formats 1 and 2 a code above 2 is invalid.
pub open spec fn me_at(bits: Seq<bool>, pos: int, chroma_format_idc: u8) -> Decoded<nat> {
    match ue_at(bits, pos) {
        Ok((k, next)) => if (chroma_format_idc == 1 || chroma_format_idc == 2) && k > 2 {
            Err(ErrorKind::BitstreamError)
        } else {
            Ok((k, next))
        },
        Err(kind) => Err(kind),
    }
}

/// The truncated code at `pos` for values up to `max_value`.
pub open spec fn te_at(bits: Seq<bool>, pos: int, max_value: u32) -> Decoded<nat> {
    if max_value == 0 {
        Ok((0, pos))
    } else if max_value == 1 {
        if 0 <= pos < bits.len() {
            Ok((if bits[pos] { 0nat } else { 1nat }, pos + 1))
        } else {
            Err(ErrorKind::UnexpectedEof)
        }
    } else {
        ue_at(bits, pos)
    }
}

/// Number of binary digits of `x`; zero has none.
pub open spec fn bit_length(x: nat) -> nat
    decreases x,
{
    if x == 0 {
        0
    } else {
        1 + bit_length(x / 2)
    }
}

/// The `n` lowest binary digits of `x`, most significant first.
pub open spec fn binary(x: nat, n: nat) -> Seq<bool>
    decreases n,
{
    if n == 0 {
        Seq::empty()
    } else {
        binary(x / 2, (n - 1) as nat).push(x % 2 == 1)
    }
}

/// The unsigned code of `v`: the digits of `v + 1`, preceded by one zero for
/// each digit after the first.
pub open spec fn ue_code(v: nat) -> Seq<bool> {
    Seq::new((bit_length(v + 1) - 1) as nat, |i: int| false) + binary(v + 1, bit_length(v + 1))
}

/// The code number that stands for a signed value.
pub open spec fn se_index(v: int) -> nat {
    if v > 0 {
        (2 * v - 1) as nat
    } else {
        (-2 * v) as nat
    }
}

/// The signed code of `v`.
pub open spec fn se_code(v: int) -> Seq<bool> {
    ue_code(se_index(v))
}

/// A decoded unsigned value fits in 32 bits with room for one more.
pub proof fn lemma_ue_bound(bits: Seq<bool>, pos: int)
    ensures
        ue_at(bits, pos) matches Ok((v, next)) ==> v <= 0xFFFF_FFFE && next > pos && next
            <= bits.len(),
{
    let z = zero_run(bits, pos);
    if z < 32 {
        lemma_bits_value_bound(bits, pos + z + 1, z);
        lemma2_to64();
        lemma_pow2_pos(z);
        if z < 31 {
            lemma_pow2_strictly_increases(z, 31);
        }
    }
}

proof fn lemma_zero_run_split(bits: Seq<bool>, pos: int, k: nat)
    requires
        0 <= pos,
        pos + k <= bits.len(),
        forall|i: int| pos <= i < pos + k ==> !#[trigger] bits[i],
    ensures
        zero_run(bits, pos) == k + zero_run(bits, pos + k),
    decreases k,
{
    if k > 0 {
        lemma_zero_run_split(bits, pos + 1, (k - 1) as nat);
    }
}

/// The number of binary digits of a 32-bit number is 32 less its leading zeros.
pub proof fn lemma_bit_length_u32(x: u32)
    ensures
        32 - u32_leading_zeros(x) == bit_length(x as nat),
{
    axiom_u32_leading_zeros(x);
    lemma2_to64();
    if x != 0 {
        let n = (32 - u32_leading_zeros(x)) as u32;
        let top = (n - 1) as u32;
        let y = x >> top;
        lemma_u32_shr_is_div(x, top);
        assert(y & 1 != 0 ==> y >= 1) by (bit_vector);
        lemma_pow2_pos(top as nat);
        assert(x >= pow2(top as nat)) by (nonlinear_arith)
            requires
                x as nat / pow2(top as nat) >= 1,
                pow2(top as nat) > 0,
        ;
        if n < 32 {
            lemma_u32_shr_is_div(x, n);
            lemma_pow2_pos(n as nat);
            assert(x < pow2(n as nat)) by (nonlinear_arith)
                requires
                    x as nat / pow2(n as nat) == 0,
                    pow2(n as nat) > 0,
            ;
        }
        lemma_bit_length_bounds(x as nat);
        let bl = bit_length(x as nat);
        if n < bl - 1 {
            lemma_pow2_strictly_increases(n as nat, (bl - 1) as nat);
        }
        if bl < n - 1 {
            lemma_pow2_strictly_increases(bl, (n - 1) as nat);
        }
    }
}

/// A positive number lies between the powers of two that its number of
/// binary digits gives.
pub proof fn lemma_bit_length_bounds(x: nat)
    requires
        x > 0,
    ensures
        pow2((bit_length(x) - 1) as nat) <= x < pow2(bit_length(x)),
    decreases x,
{
    lemma2_to64();
    if x == 1 {
        assert(bit_length(1) == 1 + bit_length(0));
    } else {
        lemma_bit_length_bounds(x / 2);
        lemma_pow2_unfold(bit_length(x));
        lemma_pow2_unfold((bit_length(x) - 1) as nat);
    }
}

proof fn lemma_binary_len(x: nat, n: nat)
    ensures
        binary(x, n).len() == n,
    decreases n,
{
    if n > 0 {
        lemma_binary_len(x / 2, (n - 1) as nat);
    }
}

proof fn lemma_binary_digit(x: nat, n: nat, j: int)
    requires
        0 <= j < n,
    ensures
        binary(x, n).len() == n,
        binary(x, n)[j] == ((x / pow2((n - 1 - j) as nat)) % 2 == 1),
    decreases n,
{
    lemma_binary_len(x, n);
    lemma_binary_len(x / 2, (n - 1) as nat);
    lemma2_to64();
    if j < n - 1 {
        lemma_binary_digit(x / 2, (n - 1) as nat, j);
        let k = (n - 2 - j) as nat;
        lemma_pow2_unfold(k + 1);
        lemma_pow2_pos(k);
        lemma_div_denominator(x as int, 2, pow2(k) as int);
        assert(binary(x, n)[j] == binary(x / 2, (n - 1) as nat)[j]);
        assert((x / 2) / pow2(k) == x / pow2(k + 1));
        assert((n - 1 - j) as nat == k + 1);
    } else {
        assert(binary(x, n)[j] == (x % 2 == 1));
        assert((n - 1 - j) as nat == 0);
        assert(x / pow2(0) == x);
    }
}

proof fn lemma_binary_leading_one(x: nat)
    requires
        x > 0,
    ensures
        binary(x, bit_length(x)).len() == bit_length(x),
        binary(x, bit_length(x))[0],
    decreases x,
{
    lemma_binary_len(x, bit_length(x));
    if x == 1 {
        assert(bit_length(1) == 1 + bit_length(0));
        assert(binary(1, 1) == binary(0, 0).push(true));
    } else {
        lemma_binary_leading_one(x / 2);
        lemma_binary_len(x / 2, bit_length(x / 2));
    }
}

proof fn lemma_mod_double(x: nat, m: nat)
    requires
        m > 0,
    ensures
        x % (2 * m) == 2 * ((x / 2) % m) + x % 2,
{
    let q = x / 2;
    let a = q / m;
    let b = q % m;
    assert(q == m * a + b) by (nonlinear_arith)
        requires
            a == q / m,
            b == q % m,
            m > 0,
    ;
    assert(x == 2 * q + x % 2);
    assert(x == (2 * m) * a + (2 * b + x % 2)) by (nonlinear_arith)
        requires
            x == 2 * q + x % 2,
            q == m * a + b,
    ;
    lemma_fundamental_div_mod_converse(x as int, (2 * m) as int, a as int, (2 * b + x % 2) as int);
}

proof fn lemma_binary_value(s: Seq<bool>, p: int, x: nat, n: nat)
    requires
        0 <= p,
        p + n <= s.len(),
        forall|i: int| 0 <= i < n ==> s[p + i] == #[trigger] binary(x, n)[i],
    ensures
        bits_value(s, p, n) == x % pow2(n),
    decreases n,
{
    lemma2_to64();
    if n > 0 {
        let m = (n - 1) as nat;
        lemma_binary_len(x / 2, m);
        assert forall|i: int| 0 <= i < m implies s[p + i] == #[trigger] binary(x / 2, m)[i] by {
            assert(binary(x, n)[i] == binary(x / 2, m)[i]);
        }
        lemma_binary_value(s, p, x / 2, m);
        assert(s[p + n - 1] == binary(x, n)[n - 1]);
        lemma_pow2_unfold(n);
        lemma_pow2_pos(m);
        lemma_mod_double(x, pow2(m));
    }
}

proof fn lemma_bits_value_leading(s: Seq<bool>, p: int, n: nat)
    requires
        n > 0,
    ensures
        bits_value(s, p, n) == (if s[p] {
            pow2((n - 1) as nat)
        } else {
            0
        }) + bits_value(s, p + 1, (n - 1) as nat),
    decreases n,
{
    lemma2_to64();
    if n > 1 {
        lemma_bits_value_leading(s, p, (n - 1) as nat);
        lemma_pow2_unfold((n - 1) as nat);
        assert(bits_value(s, p + 1, (n - 1) as nat) == 2 * bits_value(s, p + 1, (n - 2) as nat) + (
        if s[p + 1 + (n - 1) - 1] {
            1nat
        } else {
            0nat
        }));
    } else {
        assert(bits_value(s, p, 0) == 0);
        assert(bits_value(s, p + 1, 0) == 0);
    }
}

/// Decoding an unsigned code gives back the value that was encoded, whatever
/// bits come after it.
pub proof fn lemma_ue_roundtrip(v: nat, rest: Seq<bool>)
    requires
        v < 0xFFFF_FFFF,
    ensures
        ue_at(ue_code(v) + rest, 0) == Ok::<(nat, int), ErrorKind>((v, ue_code(v).len() as int)),
{
    let x = v + 1;
    let n = bit_length(x);
    let zeros = Seq::new((n - 1) as nat, |i: int| false);
    let digits = binary(x, n);
    let s = ue_code(v) + rest;
    lemma2_to64();
    lemma_bit_length_bounds(x);
    lemma_binary_leading_one(x);
    if n > 32 {
        lemma_pow2_strictly_increases(32, (n - 1) as nat);
    }
    assert(1 <= n <= 32);
    assert(s.len() == 2 * n - 1 + rest.len());
    assert(s[n - 1] == digits[0]);
    assert forall|i: int| 0 <= i < n - 1 implies !#[trigger] s[i] by {
        assert(s[i] == zeros[i]);
    }
    lemma_zero_run_split(s, 0, (n - 1) as nat);
    assert(zero_run(s, n - 1) == 0);
    assert(zero_run(s, 0) == n - 1);
    assert forall|i: int| 0 <= i < n implies s[(n - 1) + i] == #[trigger] binary(x, n)[i] by {
        assert(s[(n - 1) + i] == digits[i]);
    }
    lemma_binary_value(s, n - 1, x, n);
    lemma_bits_value_leading(s, n - 1, n);
    assert(x % pow2(n) == x) by {
        vstd::arithmetic::div_mod::lemma_small_mod(x, pow2(n));
    }
}

/// The code number of a signed value stands for that value.
pub proof fn lemma_se_index_inverse(v: int)
    ensures
        se_of(se_index(v)) == v,
{
}

/// Decoding a signed code gives back the value that was encoded, whatever
/// bits come after it.
pub proof fn lemma_se_roundtrip(v: int, rest: Seq<bool>)
    requires
        -0x8000_0000 < v <= 0x7FFF_FFFF,
    ensures
        se_at(se_code(v) + rest, 0) == Ok::<(int, int), ErrorKind>((v, se_code(v).len() as int)),
{
    lemma_ue_roundtrip(se_index(v), rest);
    lemma_se_index_inverse(v);
}

proof fn lemma_low_bit(y: u32)
    ensures
        (y & 1 != 0) == (y % 2 == 1),
        (y & 1 == 1) == (y % 2 == 1),
        y >> 1 == y / 2,
{
    assert((y & 1 != 0) == (y % 2 == 1)) by (bit_vector);
    assert((y & 1 == 1) == (y % 2 == 1)) by (bit_vector);
    assert(y >> 1 == y / 2) by (bit_vector);
}

/// Reads an unsigned Exp-Golomb code.
pub fn read_ue(reader: &mut BitReader) -> (res: Result<u32, Error>)
    ensures
        final(reader).bytes() == old(reader).bytes(),
        final(reader).pos() <= final(reader).bits().len(),
        match ue_at(old(reader).bits(), old(reader).pos() as int) {
            Ok((v, next)) => res == Ok::<u32, Error>(v as u32) && v <= 0xFFFF_FFFE && final(
                reader
            ).pos() == next,
            Err(kind) => fails_with(res, kind),
        },
{
    let ghost bits = reader.bits();
    let ghost start = reader.pos() as int;
    let mut leading_zeros: u32 = 0;
    loop
        invariant_except_break
            reader.bytes() == old(reader).bytes(),
            bits == reader.bits(),
            start == old(reader).pos(),
            reader.pos() == start + leading_zeros,
            leading_zeros <= 31,
            zero_run(bits, start) == leading_zeros + zero_run(bits, reader.pos() as int),
        ensures
            reader.bytes() == old(reader).bytes(),
            bits == reader.bits(),
            start == old(reader).pos(),
            leading_zeros <= 31,
            zero_run(bits, start) == leading_zeros,
            reader.pos() == start + leading_zeros + 1,
            reader.pos() <= bits.len(),
        decreases 32 - leading_zeros,
    {
        match reader.read_bit() {
            Ok(true) => {
                break ;
            },
            Ok(false) => {
                leading_zeros += 1;
                if leading_zeros > 31 {
                    return Err(Error::BitstreamError("Invalid exp-golomb code".to_string()));
                }
            },
            Err(e) => {
                return Err(e);
            },
        }
    }
    proof {
        lemma_ue_bound(bits, start);
    }
    if leading_zeros == 0 {
        assert(bits_value(bits, start + 1, 0) == 0);
        proof {
            lemma2_to64();
        }
        return Ok(0);
    }
    let code_value = match reader.read_bits(leading_zeros) {
        Ok(v) => v,
        Err(e) => {
            return Err(e);
        },
    };
    proof {
        lemma2_to64();
        lemma_bits_value_bound(bits, start + leading_zeros + 1, leading_zeros as nat);
        lemma_pow2_pos(leading_zeros as nat);
        if leading_zeros < 31 {
            lemma_pow2_strictly_increases(leading_zeros as nat, 31);
        }
        lemma_u32_shl_is_mul(1u32, leading_zeros);
    }
    Ok((1u32 << leading_zeros) - 1 + code_value)
}

/// Reads a signed Exp-Golomb code.
pub fn read_se(reader: &mut BitReader) -> (res: Result<i32, Error>)
    ensures
        final(reader).bytes() == old(reader).bytes(),
        final(reader).pos() <= final(reader).bits().len(),
        match se_at(old(reader).bits(), old(reader).pos() as int) {
            Ok((v, next)) => res == Ok::<i32, Error>(v as i32) && -0x7FFF_FFFF <= v
                <= 0x7FFF_FFFF && final(reader).pos() == next,
            Err(kind) => fails_with(res, kind),
        },
{
    let code_num = match read_ue(reader) {
        Ok(v) => v,
        Err(e) => {
            return Err(e);
        },
    };
    proof {
        lemma_low_bit(code_num);
        if code_num < 0xFFFF_FFFF {
            lemma_low_bit((code_num + 1) as u32);
        }
    }
    if code_num == 0 {
        Ok(0)
    } else if code_num & 1 == 1 {
        Ok(((code_num + 1) >> 1) as i32)
    } else {
        Ok(-((code_num >> 1) as i32))
    }
}

/// Reads a mapped Exp-Golomb code number. With chroma format 1 or 2 the code
/// must not exceed 2.
pub fn read_me(reader: &mut BitReader, chroma_format_idc: u8) -> (res: Result<u32, Error>)
    ensures
        final(reader).bytes() == old(reader).bytes(),
        final(reader).pos() <= final(reader).bits().len(),
        match me_at(old(reader).bits(), old(reader).pos() as int, chroma_format_idc) {
            Ok((v, next)) => res == Ok::<u32, Error>(v as u32) && v <= 0xFFFF_FFFE && final(
                reader
            ).pos() == next,
            Err(kind) => fails_with(res, kind),
        },
{
    match chroma_format_idc {
        1 | 2 => {
            let code_num = match read_ue(reader) {
                Ok(v) => v,
                Err(e) => {
                    return Err(e);
                },
            };
            if code_num > 2 {
                return Err(Error::BitstreamError("Invalid mapped exp-golomb code".to_string()));
            }
            Ok(code_num)
        },
        _ => read_ue(reader),
    }
}

/// Reads a truncated Exp-Golomb code: nothing when `max_value` is 0, one
/// inverted bit when it is 1, an unsigned code otherwise.
pub fn read_te(reader: &mut BitReader, max_value: u32) -> (res: Result<u32, Error>)
    ensures
        final(reader).bytes() == old(reader).bytes(),
        match te_at(old(reader).bits(), old(reader).pos() as int, max_value) {
            Ok((v, next)) => res == Ok::<u32, Error>(v as u32) && v <= 0xFFFF_FFFE && final(
                reader
            ).pos() == next,
            Err(kind) => fails_with(res, kind),
        },
{
    if max_value == 0 {
        return Ok(0);
    }
    if max_value == 1 {
        let bit = match reader.read_bit() {
            Ok(b) => b,
            Err(e) => {
                return Err(e);
            },
        };
        return Ok(if bit { 0 } else { 1 });
    }
    read_ue(reader)
}

/// The unsigned Exp-Golomb code of `value`, one `bool` per bit.
pub fn write_ue(value: u32) -> (bits: Vec<bool>)
    requires
        value < u32::MAX,
    ensures
        bits@ == ue_code(value as nat),
{
    if value == 0 {
        let mut bits: Vec<bool> = Vec::new();
        bits.push(true);
        proof {
            assert(bit_length(1) == 1 + bit_length(0));
            assert(binary(1, 1) == binary(0, 0).push(true));
            assert(bits@ =~= ue_code(0));
        }
        return bits;
    }
    let code_num: u32 = value + 1;
    let num_bits: u32 = 32 - code_num.leading_zeros();
    proof {
        lemma_bit_length_u32(code_num);
        axiom_u32_leading_zeros(code_num);
        lemma_binary_len(code_num as nat, num_bits as nat);
    }
    let total_bits: u32 = 2 * num_bits - 1;
    let mut bits: Vec<bool> = Vec::with_capacity(total_bits as usize);
    let ghost zeros = Seq::new((num_bits - 1) as nat, |i: int| false);
    let ghost digits = binary(code_num as nat, num_bits as nat);
    let mut k: u32 = 0;
    while k < num_bits - 1
        invariant
            1 <= num_bits <= 32,
            k <= num_bits - 1,
            bits@ == zeros.subrange(0, k as int),
            zeros == Seq::new((num_bits - 1) as nat, |i: int| false),
        decreases num_bits - 1 - k,
    {
        bits.push(false);
        k += 1;
        assert(bits@ =~= zeros.subrange(0, k as int));
    }
    assert(bits@ =~= zeros);
    let mut i: u32 = num_bits;
    while i > 0
        invariant
            1 <= num_bits <= 32,
            i <= num_bits,
            digits == binary(code_num as nat, num_bits as nat),
            digits.len() == num_bits,
            bits@ == zeros + digits.subrange(0, num_bits - i),
        decreases i,
    {
        i -= 1;
        proof {
            lemma_binary_digit(code_num as nat, num_bits as nat, num_bits - 1 - i);
            lemma_u32_shr_is_div(code_num, i);
            lemma_low_bit(code_num >> i);
        }
        bits.push((code_num >> i) & 1 != 0);
        assert(bits@ =~= zeros + digits.subrange(0, num_bits - i));
    }
    assert(bits@ =~= ue_code(value as nat));
    bits
}

/// The signed Exp-Golomb code of `value`, one `bool` per bit.
pub fn write_se(value: i32) -> (bits: Vec<bool>)
    requires
        value > i32::MIN,
    ensures
        bits@ == se_code(value as int),
{
    let code_num: u32 = if value == 0 {
        0
    } else if value > 0 {
        (value as u32) * 2 - 1
    } else {
        ((-value) as u32) * 2
    };
    write_ue(code_num)
}

} // verus!
