use std::time::{Duration, SystemTime, SystemTimeError};
use vstd::prelude::*;

verus! {

#[verifier::external_type_specification]
#[verifier::external_body]
pub struct ExSystemTime(SystemTime);

#[verifier::external_type_specification]
#[verifier::external_body]
pub struct ExSystemTimeError(SystemTimeError);

/// `std::time::SystemTime::now`: the current time of the system clock.
/// Nothing is stated of it: it depends on the clock.
#[verifier::external_body]
fn system_time_now() -> SystemTime {
    SystemTime::now()
}

/// `std::time::SystemTime::duration_since`, measured from the Unix epoch.
/// Nothing is stated of the result: it depends on the clock reading passed in,
/// which is opaque here.
#[verifier::external_body]
fn since_unix_epoch(t: &SystemTime) -> Result<Duration, SystemTimeError> {
    t.duration_since(SystemTime::UNIX_EPOCH)
}

/// `std::time::Duration::as_nanos`: the whole nanoseconds of a duration.
/// Nothing is stated of the result: the duration is opaque here.
#[verifier::external_body]
fn duration_as_nanos(d: &Duration) -> u128 {
    d.as_nanos()
}

/// The seed that a clock reading gives: the low 32 bits of the nanoseconds
/// since the Unix epoch, or 1 when the clock reads before the epoch.
pub fn seed_from_nanos(nanos: Option<u128>) -> (seed: u32)
    ensures
        seed == (match nanos {
            Some(n) => n % 0x1_0000_0000,
            None => 1,
        }),
{
    match nanos {
        Some(n) => {
            let s = n as u32;
            assert(s == n % 0x1_0000_0000) by (bit_vector)
                requires
                    s == n as u32,
            ;
            s
        },
        None => 1,
    }
}

/// A seed taken from the system clock: the low 32 bits of the nanoseconds
/// since the Unix epoch, or 1 when the clock reads before the epoch. Which
/// value comes back depends on the clock alone.
pub fn random_seed() -> u32 {
    let now = system_time_now();
    let nanos = match since_unix_epoch(&now) {
        Ok(d) => Some(duration_as_nanos(&d)),
        Err(_) => None,
    };
    seed_from_nanos(nanos)
}

/// One step of the integer hash that drives the pseudo-random generator.
pub open spec fn khash_step(x: u32) -> u32 {
    let a = (x ^ 2747636419u32).wrapping_mul(2654435769u32);
    let b = (a ^ (a >> 16u32)).wrapping_mul(2654435769u32);
    (b ^ (b >> 16u32)).wrapping_mul(2654435769u32)
}

/// Advances a generator state by one hash step.
pub fn khash_next(x: u32) -> (r: u32)
    ensures
        r == khash_step(x),
{
    let mut s = x;
    s = (s ^ 2747636419u32).wrapping_mul(2654435769u32);
    s = (s ^ (s >> 16u32)).wrapping_mul(2654435769u32);
    s = (s ^ (s >> 16u32)).wrapping_mul(2654435769u32);
    s
}

/// Multiplying by the odd hash constant, wrapping, loses nothing: two
/// different states give two different products.
proof fn lemma_mix_mul_injective(a: u32, b: u32)
    requires
        a.wrapping_mul(2654435769u32) == b.wrapping_mul(2654435769u32),
    ensures
        a == b,
{
    assert(a as nat * 2654435769nat == a * 2654435769u32);
    assert(b as nat * 2654435769nat == b * 2654435769u32);
    let pa = (a * 2654435769u32) as u32;
    let pb = (b * 2654435769u32) as u32;
    assert(((a * 2654435769u32) % 0x1_0000_0000) as u32 == pa) by (bit_vector)
        requires
            pa == (a * 2654435769u32) as u32,
    ;
    assert(((b * 2654435769u32) % 0x1_0000_0000) as u32 == pb) by (bit_vector)
        requires
            pb == (b * 2654435769u32) as u32,
    ;
    assert(((pa * 340573321u32) as u32) == a) by (bit_vector)
        requires
            pa == (a * 2654435769u32) as u32,
    ;
    assert(((pb * 340573321u32) as u32) == b) by (bit_vector)
        requires
            pb == (b * 2654435769u32) as u32,
    ;
}

/// Folding the high half into the low half loses nothing.
proof fn lemma_fold_injective(a: u32, b: u32)
    requires
        a ^ (a >> 16u32) == b ^ (b >> 16u32),
    ensures
        a == b,
{
    assert(a == b) by (bit_vector)
        requires
            a ^ (a >> 16u32) == b ^ (b >> 16u32),
    ;
}

/// The hash step is a permutation of the `u32` states: two different states
/// never step to the same state.
pub proof fn lemma_khash_step_injective(a: u32, b: u32)
    requires
        a != b,
    ensures
        khash_step(a) != khash_step(b),
{
    if khash_step(a) == khash_step(b) {
        let a1 = (a ^ 2747636419u32).wrapping_mul(2654435769u32);
        let b1 = (b ^ 2747636419u32).wrapping_mul(2654435769u32);
        let a2 = (a1 ^ (a1 >> 16u32)).wrapping_mul(2654435769u32);
        let b2 = (b1 ^ (b1 >> 16u32)).wrapping_mul(2654435769u32);
        lemma_mix_mul_injective(a2 ^ (a2 >> 16u32), b2 ^ (b2 >> 16u32));
        lemma_fold_injective(a2, b2);
        lemma_mix_mul_injective(a1 ^ (a1 >> 16u32), b1 ^ (b1 >> 16u32));
        lemma_fold_injective(a1, b1);
        lemma_mix_mul_injective(a ^ 2747636419u32, b ^ 2747636419u32);
        assert(a == b) by (bit_vector)
            requires
                a ^ 2747636419u32 == b ^ 2747636419u32,
        ;
    }
}

} // verus!
