//! The reward policy: what each event costs or pays, in tokens and in
//! reputation. Reputation is held in hundredths, so 1.00 is 100.
use vstd::prelude::*;

verus! {

/// Tokens a mint costs.
pub const MINT_COST: u64 = 5;

/// Balance of an identity on first touch.
pub const INITIAL_BALANCE: u64 = 100;

/// Reputation of an identity on first touch: 1.00.
pub const NEUTRAL_REPUTATION: u64 = 100;

/// Tokens paid to the identity that likes an item.
pub const LIKE_REWARD_USER: u64 = 1;

/// Tokens paid to a liked item's creator, at reputation 1.00.
pub const LIKE_REWARD_CREATOR: u64 = 2;

/// Tokens paid to the identity that shares an item.
pub const SHARE_REWARD_USER: u64 = 2;

/// Tokens paid to a shared item's creator, at reputation 1.00.
pub const SHARE_REWARD_CREATOR: u64 = 3;

/// Tokens credited by a staking-reward claim.
pub const STAKING_REWARD: u64 = 5;

/// Reputation gained by minting: 0.10.
pub const MINT_REPUTATION: u64 = 10;

/// Reputation gained by liking: 0.01.
pub const LIKE_REPUTATION_USER: u64 = 1;

/// Reputation gained by a liked item's creator: 0.05.
pub const LIKE_REPUTATION_CREATOR: u64 = 5;

/// Reputation gained by sharing: 0.02.
pub const SHARE_REPUTATION_USER: u64 = 2;

/// Reputation gained by a shared item's creator: 0.10.
pub const SHARE_REPUTATION_CREATOR: u64 = 10;

/// The two kinds of engagement with an item.
#[derive(Clone, Copy, Debug, PartialEq, Eq, Structural)]
pub enum Reaction {
    Like,
    Share,
}

/// `a + b`, capped at `u64::MAX`.
pub open spec fn sat_add(a: u64, b: u64) -> u64 {
    if a + b > u64::MAX {
        u64::MAX
    } else {
        (a + b) as u64
    }
}

/// The creator's base reward for an engagement of this kind.
pub open spec fn creator_base(kind: Reaction) -> u64 {
    match kind {
        Reaction::Like => LIKE_REWARD_CREATOR,
        Reaction::Share => SHARE_REWARD_CREATOR,
    }
}

/// The creator's reward: the base scaled by reputation, rounded down.
pub open spec fn creator_reward(kind: Reaction, reputation: u64) -> u64 {
    ((creator_base(kind) * reputation) / NEUTRAL_REPUTATION as int) as u64
}

/// The engaging identity's reward.
pub open spec fn user_reward(kind: Reaction) -> u64 {
    match kind {
        Reaction::Like => LIKE_REWARD_USER,
        Reaction::Share => SHARE_REWARD_USER,
    }
}

/// The reputation gained by the creator (`to_creator`) or by the engaging
/// identity.
pub open spec fn reputation_gain(kind: Reaction, to_creator: bool) -> u64 {
    match (kind, to_creator) {
        (Reaction::Like, true) => LIKE_REPUTATION_CREATOR,
        (Reaction::Like, false) => LIKE_REPUTATION_USER,
        (Reaction::Share, true) => SHARE_REPUTATION_CREATOR,
        (Reaction::Share, false) => SHARE_REPUTATION_USER,
    }
}

/// Computes `creator_reward`.
pub fn creator_reward_for(kind: Reaction, reputation: u64) -> (r: u64)
    ensures
        r == creator_reward(kind, reputation),
{
    let base: u64 = match kind {
        Reaction::Like => LIKE_REWARD_CREATOR,
        Reaction::Share => SHARE_REWARD_CREATOR,
    };
    let wide: u128 = base as u128;
    assert(wide * (reputation as u128) <= 3 * u64::MAX) by (nonlinear_arith)
        requires
            wide <= 3,
            reputation <= u64::MAX,
    ;
    let product: u128 = wide * (reputation as u128);
    let scaled: u128 = product / (NEUTRAL_REPUTATION as u128);
    assert(scaled <= u64::MAX) by (nonlinear_arith)
        requires
            product <= 3 * u64::MAX,
            scaled == product / 100,
    ;
    scaled as u64
}

/// Computes `user_reward`.
pub fn user_reward_for(kind: Reaction) -> (r: u64)
    ensures
        r == user_reward(kind),
{
    match kind {
        Reaction::Like => LIKE_REWARD_USER,
        Reaction::Share => SHARE_REWARD_USER,
    }
}

/// Computes `reputation_gain`.
pub fn reputation_gain_for(kind: Reaction, to_creator: bool) -> (r: u64)
    ensures
        r == reputation_gain(kind, to_creator),
{
    match (kind, to_creator) {
        (Reaction::Like, true) => LIKE_REPUTATION_CREATOR,
        (Reaction::Like, false) => LIKE_REPUTATION_USER,
        (Reaction::Share, true) => SHARE_REPUTATION_CREATOR,
        (Reaction::Share, false) => SHARE_REPUTATION_USER,
    }
}

} // verus!
