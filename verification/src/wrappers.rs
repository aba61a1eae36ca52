//! The trusted boundary to the outside crates: the machine's worker
//! count and the random per-trial name tokens. Each wrapper's
//! contract states only what the outside crate's documentation and
//! source promise.

use vstd::prelude::*;
use rand::Rng;

verus! {

/// Relies on num_cpus::get: the number of available logical CPUs,
/// documented to always be at least 1. The value depends on the
/// machine; nothing more is promised.
#[verifier::external_body]
pub fn cpu_count() -> (n: usize)
    ensures
        1 <= n,
{
    num_cpus::get()
}

/// Relies on rand's Alphanumeric distribution: ten characters drawn
/// from the thread's generator, each from the ASCII alphanumeric set.
/// The values are random; only their count and character class are
/// promised.
#[verifier::external_body]
pub fn fresh_token() -> (s: String)
    ensures
        s@.len() == 10,
        forall|i: int| 0 <= i < 10 ==> (('0' <= #[trigger] s@[i] <= '9')
            || ('a' <= s@[i] <= 'z') || ('A' <= s@[i] <= 'Z')),
{
    rand::thread_rng()
        .sample_iter(&rand::distributions::Alphanumeric)
        .take(10)
        .map(char::from)
        .collect()
}

} // verus!
