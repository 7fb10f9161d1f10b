//! The random source of the guest. The engine draws on it only to sample rules
//! (an A/B percentage), so a small generator that is not cryptographic suffices.

use vstd::prelude::*;

verus! {

/// The state that the first request for random bytes finds.
pub const INITIAL_STATE: u64 = 0x9E37_79B9_7F4A_7C15;

/// What every request for random bytes adds to the state.
pub const STATE_STEP: u64 = 0x2545_F491_4F6C_DD1D;

/// One round of the xorshift generator.
pub open spec fn xorshift(x: u64) -> u64 {
    let a = x ^ (x << 13);
    let b = a ^ (a >> 7);
    b ^ (b << 17)
}

/// The generator after `n` rounds from `seed`.
pub open spec fn generator(seed: u64, n: nat) -> u64
    decreases n,
{
    if n == 0 {
        seed
    } else {
        xorshift(generator(seed, (n - 1) as nat))
    }
}

/// The bytes that a request for `len` random bytes gets in state `state`: the
/// low byte of each round of the generator, which starts from the state with
/// its lowest bit set.
pub open spec fn random_bytes(state: u64, len: nat) -> Seq<u8> {
    Seq::new(len, |i: int| (generator(state | 1, (i + 1) as nat) & 0xff) as u8)
}

/// The state that the next request finds.
pub fn next_state(state: u64) -> (next: u64)
    ensures
        next as int == (state + STATE_STEP) % 0x1_0000_0000_0000_0000,
        next as int == (state + 0x2545_F491_4F6C_DD1D) % 0x1_0000_0000_0000_0000,
{
    state.wrapping_add(STATE_STEP)
}

/// Fill a buffer with random bytes.
pub fn fill_random(state: u64, dest: &mut [u8])
    ensures
        final(dest)@ == random_bytes(state, old(dest)@.len()),
{
    let mut x: u64 = state | 1;
    let mut i: usize = 0;
    let len: usize = dest.len();
    while i < len
        invariant
            i <= len == dest@.len(),
            dest@.len() == old(dest)@.len(),
            x == generator(state | 1, i as nat),
            dest@.take(i as int) == random_bytes(state, i as nat),
        decreases len - i,
    {
        x = x ^ (x << 13);
        x = x ^ (x >> 7);
        x = x ^ (x << 17);
        let ghost before = dest@;
        dest[i] = (x & 0xff) as u8;
        assert(dest@.take(i + 1) == before.take(i as int).push((x & 0xff) as u8));
        assert(random_bytes(state, (i + 1) as nat) == random_bytes(state, i as nat).push(
            (x & 0xff) as u8,
        ));
        i += 1;
    }
    assert(dest@.take(dest@.len() as int) == dest@);
}

/// The generator never gets stuck: from a state with its lowest bit set it
/// never reaches zero, where it would stay.
pub proof fn law_generator_never_zero(state: u64, n: nat)
    ensures
        generator(state | 1, n) != 0,
    decreases n,
{
    if n == 0 {
        assert(state | 1 != 0) by (bit_vector);
    } else {
        law_generator_never_zero(state, (n - 1) as nat);
        let x = generator(state | 1, (n - 1) as nat);
        assert(0u64 ^ (0u64 << 13) == 0 && 0u64 ^ (0u64 >> 7) == 0 && 0u64 ^ (0u64 << 17) == 0)
            by (bit_vector);
        if xorshift(x) == 0 {
            law_xorshift_injective(x, 0);
        }
    }
}

/// No two states of the generator run together.
pub proof fn law_xorshift_injective(x: u64, y: u64)
    requires
        xorshift(x) == xorshift(y),
    ensures
        x == y,
{
    let a = x ^ (x << 13);
    let b = a ^ (a >> 7);
    let c = y ^ (y << 13);
    let d = c ^ (c >> 7);
    assert(b == d) by (bit_vector)
        requires
            b ^ (b << 17) == d ^ (d << 17),
    ;
    assert(a == c) by (bit_vector)
        requires
            a ^ (a >> 7) == c ^ (c >> 7),
    ;
    assert(x == y) by (bit_vector)
        requires
            x ^ (x << 13) == y ^ (y << 13),
    ;
}

/// A round can be undone: the state before it is found from the state after it
/// by taking its three shifts back, the last one first.
pub proof fn law_round_is_undone(x: u64)
    ensures
        ({
            let r = xorshift(x);
            let b = r ^ (r << 17) ^ (r << 34) ^ (r << 51);
            let a = b ^ (b >> 7) ^ (b >> 14) ^ (b >> 21) ^ (b >> 28) ^ (b >> 35) ^ (b >> 42) ^ (b
                >> 49) ^ (b >> 56) ^ (b >> 63);
            x == a ^ (a << 13) ^ (a << 26) ^ (a << 39) ^ (a << 52)
        }),
{
    let a0 = x ^ (x << 13);
    let b0 = a0 ^ (a0 >> 7);
    let r = b0 ^ (b0 << 17);
    let b = r ^ (r << 17) ^ (r << 34) ^ (r << 51);
    assert(b == b0) by (bit_vector)
        requires
            r == b0 ^ (b0 << 17),
            b == r ^ (r << 17) ^ (r << 34) ^ (r << 51),
    ;
    let a = b ^ (b >> 7) ^ (b >> 14) ^ (b >> 21) ^ (b >> 28) ^ (b >> 35) ^ (b >> 42) ^ (b >> 49) ^ (
    b >> 56) ^ (b >> 63);
    assert(a == a0) by (bit_vector)
        requires
            b == a0 ^ (a0 >> 7),
            a == b ^ (b >> 7) ^ (b >> 14) ^ (b >> 21) ^ (b >> 28) ^ (b >> 35) ^ (b >> 42) ^ (b
                >> 49) ^ (b >> 56) ^ (b >> 63),
    ;
    assert(x == a ^ (a << 13) ^ (a << 26) ^ (a << 39) ^ (a << 52)) by (bit_vector)
        requires
            a == x ^ (x << 13),
    ;
}

/// Each byte is what the generator leaves when its state is divided by 256, one
/// round after the byte before it. The first round starts from the state, or
/// from its odd successor where it is even.
pub proof fn law_bytes_follow_the_rounds(state: u64, len: nat, i: int)
    requires
        0 <= i < len,
    ensures
        random_bytes(state, len).len() == len,
        random_bytes(state, len)[i] == generator(state | 1, (i + 1) as nat) % 256,
        generator(state | 1, (i + 1) as nat) == xorshift(generator(state | 1, i as nat)),
        generator(state | 1, 0) == if state % 2 == 1 {
            state as int
        } else {
            state + 1
        },
{
    let x = generator(state | 1, (i + 1) as nat);
    assert((x & 0xff) as u8 == x % 256) by (bit_vector);
    assert((state | 1) == (if state % 2 == 1 {
        state
    } else {
        (state + 1) as u64
    })) by (bit_vector);
}

/// A longer request gets the bytes of a shorter one first.
pub proof fn law_longer_request_starts_alike(state: u64, short: nat, long: nat)
    requires
        short <= long,
    ensures
        random_bytes(state, long).take(short as int) == random_bytes(state, short),
{
}

/// The state starts odd and moves by an odd step, both fixed.
pub proof fn law_states_are_odd_steps()
    ensures
        INITIAL_STATE == 0x9E37_79B9_7F4A_7C15,
        STATE_STEP == 0x2545_F491_4F6C_DD1D,
        INITIAL_STATE % 2 == 1,
        STATE_STEP % 2 == 1,
{
}

} // verus!
