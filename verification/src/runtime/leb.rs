//! Variable-length integers of the module format (LEB128).

use vstd::prelude::*;

verus! {

/// The unsigned encoding of `n`: seven bits in each byte, the lowest
/// first, with the high bit set in every byte but the last.
pub open spec fn uleb(n: nat) -> Seq<u8>
    decreases n,
{
    if n < 128 {
        seq![n as u8]
    } else {
        seq![(n % 128 + 128) as u8] + uleb(n / 128)
    }
}

/// The signed encoding of a number that is not negative: as the unsigned
/// encoding, but the last byte keeps its sign bit clear.
pub open spec fn sleb_nat(n: nat) -> Seq<u8>
    decreases n,
{
    if n < 64 {
        seq![n as u8]
    } else {
        seq![(n % 128 + 128) as u8] + sleb_nat(n / 128)
    }
}

/// The number encoded at position `at` of `bytes` in at most `budget`
/// bytes, and the position after it; `None` where the bytes end first or
/// the number takes more bytes.
pub open spec fn read_leb(bytes: Seq<u8>, at: int, budget: nat) -> Option<(nat, int)>
    decreases budget,
{
    if budget == 0 || at < 0 || at >= bytes.len() {
        None
    } else if bytes[at] < 128 {
        Some((bytes[at] as nat, at + 1))
    } else {
        match read_leb(bytes, at + 1, (budget - 1) as nat) {
            Some((rest, next)) => Some((((bytes[at] - 128) + 128 * rest) as nat, next)),
            None => None,
        }
    }
}

/// The 32-bit number encoded at position `at` of `bytes`, in at most five
/// bytes, and the position after it.
pub open spec fn read_u32_at(bytes: Seq<u8>, at: int) -> Option<(u32, int)> {
    match read_leb(bytes, at, 5) {
        Some((value, next)) => if value <= u32::MAX {
            Some((value as u32, next))
        } else {
            None
        },
        None => None,
    }
}

/// An encoded number ends after its start and within the bytes, and is
/// bounded by the bytes it may take.
pub proof fn lemma_read_leb_bounds(bytes: Seq<u8>, at: int, budget: nat)
    ensures
        match read_leb(bytes, at, budget) {
            Some((value, next)) => at < next <= bytes.len() && next <= at + budget && value
                < pow128(budget),
            None => true,
        },
    decreases budget,
{
    if budget > 0 {
        lemma_pow128_monotonic(0, (budget - 1) as nat);
        if 0 <= at < bytes.len() && bytes[at] >= 128 {
            lemma_read_leb_bounds(bytes, at + 1, (budget - 1) as nat);
        }
    }
}

/// 128 to the power of `k`.
pub open spec fn pow128(k: nat) -> nat
    decreases k,
{
    if k == 0 {
        1
    } else {
        128 * pow128((k - 1) as nat)
    }
}

/// The encoding of a number below 128 to the power of `k` takes at most
/// `k` bytes.
pub proof fn lemma_uleb_length(n: nat, k: nat)
    requires
        k >= 1,
        n < pow128(k),
    ensures
        1 <= uleb(n).len() <= k,
    decreases k,
{
    if n >= 128 {
        assert(pow128(1) == 128) by {
            reveal_with_fuel(pow128, 2);
        }
        assert(k >= 2);
        assert(n / 128 < pow128((k - 1) as nat));
        lemma_uleb_length(n / 128, (k - 1) as nat);
    }
}

/// An encoded number is read back: where the bytes from `at` are the
/// encoding of `n`, the number read there is `n`, and the position after
/// it is the end of the encoding.
pub proof fn lemma_read_uleb(bytes: Seq<u8>, at: int, n: nat, budget: nat)
    requires
        0 <= at,
        at + uleb(n).len() <= bytes.len(),
        bytes.subrange(at, at + uleb(n).len()) == uleb(n),
        uleb(n).len() <= budget,
    ensures
        read_leb(bytes, at, budget) == Some((n, at + uleb(n).len())),
    decreases n,
{
    let code = uleb(n);
    assert(bytes[at] == code[0]) by {
        assert(bytes.subrange(at, at + code.len())[0] == bytes[at]);
    }
    if n >= 128 {
        let rest = uleb(n / 128);
        assert(code == seq![(n % 128 + 128) as u8] + rest);
        assert(code.len() == 1 + rest.len());
        assert(bytes.subrange(at + 1, at + 1 + rest.len()) =~= rest) by {
            assert forall|i: int| 0 <= i < rest.len() implies bytes.subrange(
                at + 1,
                at + 1 + rest.len(),
            )[i] == rest[i] by {
                assert(bytes.subrange(at, at + code.len())[i + 1] == bytes[at + 1 + i]);
                assert(code[i + 1] == rest[i]);
            }
        }
        lemma_read_uleb(bytes, at + 1, n / 128, (budget - 1) as nat);
        assert(bytes[at] == (n % 128 + 128) as u8);
        assert((bytes[at] - 128) + 128 * (n / 128) == n);
    }
}

/// Writing a 32-bit number and reading it gives the number back, whatever
/// follows it.
pub proof fn lemma_u32_round_trip(value: u32, rest: Seq<u8>)
    ensures
        read_u32_at(uleb(value as nat) + rest, 0) == Some(
            (value, uleb(value as nat).len() as int),
        ),
{
    let n = value as nat;
    let code = uleb(n);
    assert(n < pow128(5)) by {
        reveal_with_fuel(pow128, 6);
    }
    lemma_uleb_length(n, 5);
    assert((code + rest).subrange(0, code.len() as int) =~= code);
    lemma_read_uleb(code + rest, 0, n, 5);
}

/// Appends the unsigned encoding of `value`.
pub fn write_u32(out: &mut Vec<u8>, value: u32)
    ensures
        final(out)@ == old(out)@ + uleb(value as nat),
{
    write_u64(out, value as u64);
}

/// Appends the unsigned encoding of `value`.
pub fn write_u64(out: &mut Vec<u8>, value: u64)
    ensures
        final(out)@ == old(out)@ + uleb(value as nat),
{
    let mut rest = value;
    while rest >= 128
        invariant
            out@ + uleb(rest as nat) == old(out)@ + uleb(value as nat),
        decreases rest,
    {
        let ghost before = out@;
        out.push((rest % 128 + 128) as u8);
        assert(out@ + uleb((rest / 128) as nat) =~= before + uleb(rest as nat));
        rest = rest / 128;
    }
    let ghost before = out@;
    out.push(rest as u8);
    assert(out@ =~= before + uleb(rest as nat));
}

/// Appends the signed encoding of `value`, which is not negative.
pub fn write_i32_nat(out: &mut Vec<u8>, value: u32)
    ensures
        final(out)@ == old(out)@ + sleb_nat(value as nat),
{
    let mut rest = value;
    while rest >= 64
        invariant
            out@ + sleb_nat(rest as nat) == old(out)@ + sleb_nat(value as nat),
        decreases rest,
    {
        let ghost before = out@;
        out.push((rest % 128 + 128) as u8);
        assert(out@ + sleb_nat((rest / 128) as nat) =~= before + sleb_nat(rest as nat));
        rest = rest / 128;
    }
    let ghost before = out@;
    out.push(rest as u8);
    assert(out@ =~= before + sleb_nat(rest as nat));
}

/// Reads the number encoded at `at` in at most `budget` bytes.
fn read_bounded(bytes: &[u8], at: usize, budget: u8) -> (r: Option<(u64, usize)>)
    requires
        budget <= 5,
    ensures
        match r {
            Some((value, next)) => read_leb(bytes@, at as int, budget as nat) == Some(
                (value as nat, next as int),
            ),
            None => read_leb(bytes@, at as int, budget as nat) is None,
        },
    decreases budget,
{
    if budget == 0 || at >= bytes.len() {
        return None;
    }
    let byte = bytes[at];
    if byte < 128 {
        return Some((byte as u64, at + 1));
    }
    proof {
        lemma_read_leb_bounds(bytes@, at + 1, (budget - 1) as nat);
        lemma_pow128(4);
    }
    match read_bounded(bytes, at + 1, budget - 1) {
        Some((rest, next)) => {
            assert(rest < pow128((budget - 1) as nat) <= pow128(4)) by {
                lemma_pow128_monotonic((budget - 1) as nat, 4);
            }
            Some(((byte - 128) as u64 + 128 * rest, next))
        },
        None => None,
    }
}

/// The first powers of 128.
proof fn lemma_pow128(k: nat)
    requires
        k <= 5,
    ensures
        pow128(0) == 1,
        pow128(1) == 128,
        pow128(2) == 16384,
        pow128(3) == 2097152,
        pow128(4) == 268435456,
        pow128(5) == 34359738368,
{
    reveal_with_fuel(pow128, 6);
}

/// The powers of 128 grow.
proof fn lemma_pow128_monotonic(j: nat, k: nat)
    requires
        j <= k,
    ensures
        pow128(j) <= pow128(k),
    decreases k,
{
    if j < k {
        lemma_pow128_monotonic(j, (k - 1) as nat);
    }
}

/// Reads the 32-bit number encoded at position `at` of `bytes`.
pub fn read_u32(bytes: &[u8], at: usize) -> (r: Option<(u32, usize)>)
    ensures
        match r {
            Some((value, next)) => read_u32_at(bytes@, at as int) == Some((value, next as int))
                && at < next <= bytes@.len(),
            None => read_u32_at(bytes@, at as int) is None,
        },
{
    proof {
        lemma_read_leb_bounds(bytes@, at as int, 5);
    }
    match read_bounded(bytes, at, 5) {
        Some((value, next)) => {
            if value <= u32::MAX as u64 {
                Some((value as u32, next))
            } else {
                None
            }
        },
        None => None,
    }
}

} // verus!
