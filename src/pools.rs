use vstd::prelude::*;

verus! {

/// A prize pool, set up once at initialisation and otherwise left alone.
#[derive(Clone, Copy, Debug, PartialEq, Eq, Structural)]
pub struct RafflePool {
    pub pool_id: u32,
    pub amount: u128,
    pub total_amount: u128,
}

/// A shared tapping pool, set up once at initialisation and otherwise left alone.
#[derive(Clone, Copy, Debug, PartialEq, Eq, Structural)]
pub struct TappingPool {
    pub pool_id: u32,
    pub amount: u128,
}

pub const LOOT_RAFFLE_POOL_ID: u32 = 1;

pub const LOOT_RAFFLE_POOL_AMOUNT: u128 = 5_000_000_000_000;

pub const GLOBAL_TAPPING_POOL_ID: u32 = 2;

pub const GLOBAL_TAPPING_POOL_AMOUNT: u128 = 100_000_000_000_000;

impl RafflePool {
    /// The loot raffle pool that a contract with default metadata starts with.
    pub fn loot_raffle() -> (r: RafflePool)
        ensures
            r == (RafflePool {
                pool_id: LOOT_RAFFLE_POOL_ID,
                amount: LOOT_RAFFLE_POOL_AMOUNT,
                total_amount: 0,
            }),
    {
        RafflePool { pool_id: LOOT_RAFFLE_POOL_ID, amount: LOOT_RAFFLE_POOL_AMOUNT, total_amount: 0 }
    }
}

impl TappingPool {
    /// The global tapping pool that a contract with default metadata starts with.
    pub fn global_tapping() -> (r: TappingPool)
        ensures
            r == (TappingPool { pool_id: GLOBAL_TAPPING_POOL_ID, amount: GLOBAL_TAPPING_POOL_AMOUNT }),
    {
        TappingPool { pool_id: GLOBAL_TAPPING_POOL_ID, amount: GLOBAL_TAPPING_POOL_AMOUNT }
    }
}

} // verus!
