//! The seed of a spin: a fold, by exclusive or, of values that are known
//! before the spin is recorded. It is reproducible and not unpredictable:
//! whoever needs a seed that cannot be foreseen brings one of their own.

use vstd::prelude::*;

verus! {

/// The first `count` bytes of a key, each shifted to its place in a 64-bit
/// word, lowest byte first, and joined by exclusive or.
pub open spec fn folded_key(key: Seq<u8>, count: nat) -> u64
    decreases count,
{
    if count == 0 {
        0
    } else {
        folded_key(key, (count - 1) as nat) ^ ((key[count - 1] as u64) << (((count - 1) * 8) as u64))
    }
}

/// The seed of a spin: the time, the first eight bytes of the spinner's key,
/// the number of tickets sold, the balance of the vault, the slot and the
/// number of the ticket, joined by exclusive or.
pub open spec fn spin_seed(
    unix_timestamp: i64,
    spinner: Seq<u8>,
    total_tickets_sold: u64,
    vault_lamports: u64,
    slot: u64,
    ticket_id: u64,
) -> u64 {
    (unix_timestamp as u64) ^ folded_key(spinner, 8) ^ total_tickets_sold ^ vault_lamports ^ slot
        ^ ticket_id
}

/// The first eight bytes of a key folded into a 64-bit word.
pub fn fold_key(key: &[u8; 32]) -> (folded: u64)
    ensures
        folded == folded_key(key@, 8),
{
    let mut folded: u64 = 0;
    let mut i: usize = 0;
    while i < 8
        invariant
            i <= 8,
            folded == folded_key(key@, i as nat),
        decreases 8 - i,
    {
        let shift: u64 = (i * 8) as u64;
        folded = folded ^ ((key[i] as u64) << shift);
        i = i + 1;
    }
    folded
}

/// The seed of a spin, from the values that the spin is recorded with.
pub fn derive_spin_seed(
    unix_timestamp: i64,
    spinner: &[u8; 32],
    total_tickets_sold: u64,
    vault_lamports: u64,
    slot: u64,
    ticket_id: u64,
) -> (seed: u64)
    ensures
        seed == spin_seed(
            unix_timestamp,
            spinner@,
            total_tickets_sold,
            vault_lamports,
            slot,
            ticket_id,
        ),
{
    let time: u64 = #[verifier::truncate]
    (unix_timestamp as u64);
    time ^ fold_key(spinner) ^ total_tickets_sold ^ vault_lamports ^ slot ^ ticket_id
}

} // verus!
