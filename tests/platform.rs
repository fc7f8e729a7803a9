use candid::Principal;
use vibe_platform::platform::timestamp_seconds;
use vibe_platform::ranking::rank_top;
use vibe_platform::rewards::{creator_reward_for, INITIAL_BALANCE, LIKE_REWARD_CREATOR, LIKE_REWARD_USER, MINT_COST, SHARE_REWARD_CREATOR, SHARE_REWARD_USER};
use vibe_platform::{Identity, PlatformError, Reaction, State};

const NOW: u64 = 1640995200;

fn ident(p: Principal) -> Identity {
    Identity::from_bytes(p.as_slice().to_vec()).unwrap()
}

fn user(n: u8) -> Identity {
    ident(Principal::from_slice(&[n; 29]))
}

#[test]
fn test_mint_and_engage() {
    let mut state = State::new();
    let user1 = ident(Principal::anonymous());
    let user2 = ident(Principal::management_canister());

    let vibe_id = state.mint_vibe(&user1, NOW, "Test vibe".to_string()).unwrap();
    assert_eq!(state.get_my_balance(&user1), INITIAL_BALANCE - MINT_COST);
    assert_eq!(state.get_my_vibes(&user1).len(), 1);
    assert_eq!(state.get_my_vibes(&user1)[0].timestamp, 1640995200);

    let likes = state.like_vibe(&user2, vibe_id.clone()).unwrap();
    assert_eq!(likes, 1);
    let vibes = state.get_my_vibes(&user1);
    let vibe = vibes.iter().find(|v| v.id == vibe_id).unwrap();
    assert_eq!(vibe.likes, 1);
    assert_eq!(state.get_my_balance(&user1), INITIAL_BALANCE - MINT_COST + LIKE_REWARD_CREATOR);
    assert_eq!(state.get_my_balance(&user2), INITIAL_BALANCE + LIKE_REWARD_USER);

    let shares = state.share_vibe(&user2, vibe_id.clone()).unwrap();
    assert_eq!(shares, 1);
    let vibes = state.get_my_vibes(&user1);
    let vibe = vibes.iter().find(|v| v.id == vibe_id).unwrap();
    assert_eq!(vibe.shares, 1);
    assert_eq!(
        state.get_my_balance(&user1),
        INITIAL_BALANCE - MINT_COST + LIKE_REWARD_CREATOR + SHARE_REWARD_CREATOR
    );
    assert_eq!(
        state.get_my_balance(&user2),
        INITIAL_BALANCE + LIKE_REWARD_USER + SHARE_REWARD_USER
    );
}

#[test]
fn test_leaderboard_updates() {
    let mut state = State::new();
    let user1 = user(1);
    let user2 = user(2);
    let user3 = user(3);

    let vibe_id1 = state.mint_vibe(&user1, NOW, "First vibe".to_string()).unwrap();
    let vibe_id2 = state.mint_vibe(&user1, NOW, "Second vibe".to_string()).unwrap();
    state.like_vibe(&user2, vibe_id1.clone()).unwrap();
    state.like_vibe(&user3, vibe_id1.clone()).unwrap();
    state.share_vibe(&user2, vibe_id1.clone()).unwrap();
    state.like_vibe(&user2, vibe_id2.clone()).unwrap();

    let leaderboard = state.get_leaderboard();
    assert!(
        leaderboard.top_creators.iter().any(|(p, _)| *p == user1),
        "User1 not found in top creators"
    );
    let most_liked_entry = leaderboard
        .most_liked
        .iter()
        .find(|(id, _)| *id == vibe_id1)
        .expect("Vibe not found in most liked");
    assert_eq!(most_liked_entry.1, 2, "Expected 2 likes");
    let most_shared_entry = leaderboard
        .most_shared
        .iter()
        .find(|(id, _)| *id == vibe_id1)
        .expect("Vibe not found in most shared");
    assert_eq!(most_shared_entry.1, 1, "Expected 1 share");
}

#[test]
fn mint_like_share_then_like_again() {
    let mut state = State::new();
    let u1 = user(11);
    let u2 = user(12);
    assert_eq!(state.get_my_balance(&u1), 100);
    let id = state.mint_vibe(&u1, NOW, "hello".to_string()).unwrap();
    assert_eq!(state.get_my_balance(&u1), 95);
    assert_eq!(state.get_vibe_stats(id.clone()), (0, 0));

    assert_eq!(state.like_vibe(&u2, id.clone()), Ok(1));
    assert_eq!(state.get_my_balance(&u1), 97);
    assert_eq!(state.get_my_balance(&u2), 101);

    assert_eq!(state.share_vibe(&u2, id.clone()), Ok(1));
    assert_eq!(state.get_my_balance(&u1), 100);
    assert_eq!(state.get_my_balance(&u2), 103);

    assert_eq!(state.like_vibe(&u2, id.clone()), Ok(1));
    assert_eq!(state.get_my_balance(&u1), 100);
    assert_eq!(state.get_my_balance(&u2), 103);
    assert_eq!(state.get_vibe_stats(id), (1, 1));
}

#[test]
fn most_liked_item_comes_first() {
    let mut state = State::new();
    let a = user(21);
    let b = user(22);
    let c = user(23);
    let ia = state.mint_vibe(&a, NOW, "a".to_string()).unwrap();
    let ib = state.mint_vibe(&b, NOW, "b".to_string()).unwrap();
    let ic = state.mint_vibe(&c, NOW, "c".to_string()).unwrap();
    state.like_vibe(&a, ib.clone()).unwrap();
    state.like_vibe(&c, ib.clone()).unwrap();
    state.like_vibe(&b, ia.clone()).unwrap();
    state.share_vibe(&a, ic.clone()).unwrap();
    state.share_vibe(&b, ic.clone()).unwrap();
    let board = state.get_leaderboard();
    assert_eq!(board.most_liked[0], (ib.clone(), 2));
    assert_eq!(board.most_liked[1], (ia, 1));
    assert_eq!(board.most_liked[2], (ic.clone(), 0));
    assert_eq!(board.most_shared[0], (ic, 2));
}

#[test]
fn mint_without_funds_fails_and_changes_nothing() {
    let mut state = State::new();
    let u = user(31);
    state.stake_tokens(&u, 97).unwrap();
    assert_eq!(state.get_my_balance(&u), 3);
    assert_eq!(
        state.mint_vibe(&u, NOW, "x".to_string()),
        Err(PlatformError::InsufficientFunds)
    );
    assert_eq!(state.get_my_balance(&u), 3);
    assert_eq!(state.get_my_reputation(&u), 100);
    assert!(state.get_my_vibes(&u).is_empty());
}

#[test]
fn stake_beyond_balance_fails() {
    let mut state = State::new();
    let u = user(32);
    assert_eq!(state.stake_tokens(&u, 101), Err(PlatformError::InsufficientFunds));
    assert_eq!(state.get_my_balance(&u), 100);
    assert_eq!(state.stake_tokens(&u, 100), Ok(()));
    assert_eq!(state.get_my_balance(&u), 0);
}

#[test]
fn mint_costs_exactly_mint_cost() {
    let mut state = State::new();
    let u = user(33);
    state.claim_staking_rewards(&u);
    let before = state.get_my_balance(&u);
    state.mint_vibe(&u, NOW, "y".to_string()).unwrap();
    assert_eq!(state.get_my_balance(&u), before - MINT_COST);
}

#[test]
fn like_twice_changes_nothing() {
    let mut state = State::new();
    let a = user(41);
    let b = user(42);
    let id = state.mint_vibe(&a, NOW, "z".to_string()).unwrap();
    let first = state.like_vibe(&b, id.clone());
    let (ba, bb) = (state.get_my_balance(&a), state.get_my_balance(&b));
    let (ra, rb) = (state.get_my_reputation(&a), state.get_my_reputation(&b));
    let second = state.like_vibe(&b, id.clone());
    assert_eq!(first, second);
    assert_eq!((state.get_my_balance(&a), state.get_my_balance(&b)), (ba, bb));
    assert_eq!((state.get_my_reputation(&a), state.get_my_reputation(&b)), (ra, rb));
}

#[test]
fn engaging_an_unknown_item_fails() {
    let mut state = State::new();
    let u = user(43);
    assert_eq!(
        state.like_vibe(&u, "nothing-1".to_string()),
        Err(PlatformError::ItemNotFound)
    );
    assert_eq!(
        state.share_vibe(&u, "nothing-1".to_string()),
        Err(PlatformError::ItemNotFound)
    );
    assert_eq!(state.get_my_balance(&u), 100);
    assert!(state.get_leaderboard().top_creators.is_empty());
}

#[test]
fn leaderboard_is_bounded_and_sorted() {
    let mut state = State::new();
    let mut ids = Vec::new();
    for n in 0..12u8 {
        let u = user(100 + n);
        ids.push(state.mint_vibe(&u, NOW + n as u64, "v".to_string()).unwrap());
        state.stake_tokens(&u, n as u64).unwrap();
    }
    for (k, id) in ids.iter().enumerate() {
        for n in 0..(k as u8 % 4) {
            state.like_vibe(&user(200 + n), id.clone()).unwrap();
        }
    }
    let board = state.get_leaderboard();
    assert_eq!(board.top_creators.len(), 10);
    assert_eq!(board.most_liked.len(), 10);
    assert_eq!(board.most_shared.len(), 10);
    for w in board.top_creators.windows(2) {
        assert!(w[0].1 >= w[1].1);
    }
    for w in board.most_liked.windows(2) {
        assert!(w[0].1 >= w[1].1);
    }
    assert_eq!(board.most_liked[0].1, 3);
    assert_eq!(board.top_creators[0].1, 109);
}

#[test]
fn reputation_grows_until_reset() {
    let mut state = State::new();
    let a = user(51);
    let b = user(52);
    let id = state.mint_vibe(&a, NOW, "r".to_string()).unwrap();
    assert_eq!(state.get_my_reputation(&a), 110);
    state.like_vibe(&b, id.clone()).unwrap();
    assert_eq!(state.get_my_reputation(&a), 115);
    assert_eq!(state.get_my_reputation(&b), 101);
    state.share_vibe(&b, id.clone()).unwrap();
    assert_eq!(state.get_my_reputation(&a), 125);
    assert_eq!(state.get_my_reputation(&b), 103);
    state.stake_tokens(&b, 10).unwrap();
    state.claim_staking_rewards(&b);
    assert_eq!(state.get_my_reputation(&b), 103);
    state.reset_account(&a);
    assert_eq!(state.get_my_reputation(&a), 100);
    assert_eq!(state.get_my_balance(&a), 100);
    assert!(state.get_my_vibes(&a).is_empty());
    assert_eq!(state.get_vibe_stats(id), (1, 1));
}

#[test]
fn reset_clears_engagements() {
    let mut state = State::new();
    let a = user(53);
    let b = user(54);
    let id = state.mint_vibe(&a, NOW, "s".to_string()).unwrap();
    assert_eq!(state.like_vibe(&b, id.clone()), Ok(1));
    state.reset_account(&b);
    assert_eq!(state.get_my_balance(&b), 100);
    assert_eq!(state.like_vibe(&b, id.clone()), Ok(2));
}

#[test]
fn claim_credits_fixed_reward() {
    let mut state = State::new();
    let u = user(61);
    assert_eq!(state.claim_staking_rewards(&u), 5);
    assert_eq!(state.get_my_balance(&u), 105);
    assert_eq!(state.claim_staking_rewards(&u), 5);
    assert_eq!(state.get_my_balance(&u), 110);
}

#[test]
fn creator_reward_scales_with_reputation() {
    assert_eq!(creator_reward_for(Reaction::Like, 100), 2);
    assert_eq!(creator_reward_for(Reaction::Like, 149), 2);
    assert_eq!(creator_reward_for(Reaction::Like, 150), 3);
    assert_eq!(creator_reward_for(Reaction::Share, 115), 3);
    assert_eq!(creator_reward_for(Reaction::Share, 134), 4);
    assert_eq!(creator_reward_for(Reaction::Share, u64::MAX), 553402322211286548);
}

#[test]
fn high_reputation_creator_earns_more() {
    let mut state = State::new();
    let a = user(71);
    let id = state.mint_vibe(&a, NOW, "q".to_string()).unwrap();
    for n in 0..8u8 {
        state.like_vibe(&user(72 + n), id.clone()).unwrap();
    }
    // reputation 1.10 + 8 * 0.05 = 1.50 before the ninth like
    assert_eq!(state.get_my_reputation(&a), 150);
    let before = state.get_my_balance(&a);
    state.like_vibe(&user(90), id.clone()).unwrap();
    assert_eq!(state.get_my_balance(&a), before + 3);
}

#[test]
fn vibe_id_is_principal_text_and_second() {
    let mut state = State::new();
    let p = Principal::from_slice(&[7; 29]);
    let id = state.mint_vibe(&ident(p), NOW, "t".to_string()).unwrap();
    assert_eq!(id, format!("{}-{}-0", p.to_text(), NOW));
    let anon = ident(Principal::anonymous());
    assert_eq!(anon.text(), "2vxsx-fae");
    let id2 = state.mint_vibe(&anon, 7, "t".to_string()).unwrap();
    assert_eq!(id2, "2vxsx-fae-7-1");
}

#[test]
fn anonymous_is_not_a_top_creator() {
    let mut state = State::new();
    let anon = ident(Principal::anonymous());
    assert!(anon.is_anonymous());
    assert!(!user(1).is_anonymous());
    state.claim_staking_rewards(&anon);
    state.claim_staking_rewards(&user(81));
    let board = state.get_leaderboard();
    assert_eq!(board.top_creators.len(), 1);
    assert!(board.top_creators[0].0 == user(81));
}

#[test]
fn identity_bytes_are_bounded() {
    assert!(Identity::from_bytes(vec![1; 29]).is_some());
    assert!(Identity::from_bytes(vec![1; 30]).is_none());
    let id = Identity::from_bytes(vec![9, 8]).unwrap();
    assert_eq!(id.as_bytes(), &[9, 8]);
    assert!(id.duplicate() == id);
}

#[test]
fn rank_top_picks_highest() {
    let scores = vec![3u64, 9, 1, 9, 4];
    let picks = rank_top(&scores, 3);
    assert_eq!(picks.len(), 3);
    let picked: Vec<u64> = picks.iter().map(|&i| scores[i]).collect();
    assert_eq!(picked, vec![9, 9, 4]);
    assert_eq!(rank_top(&scores, 10).len(), 5);
    assert!(rank_top(&vec![], 10).is_empty());
}

#[test]
fn seconds_from_nanoseconds() {
    assert_eq!(timestamp_seconds(1_640_995_200_123_456_789), 1640995200);
    assert_eq!(timestamp_seconds(999_999_999), 0);
}

#[test]
fn repeated_mints_in_one_second_get_distinct_ids() {
    let mut state = State::new();
    let u = user(91);
    let v = user(92);
    let first = state.mint_vibe(&u, NOW, "one".to_string()).unwrap();
    assert_eq!(state.like_vibe(&v, first.clone()), Ok(1));
    let second = state.mint_vibe(&u, NOW, "two".to_string()).unwrap();
    let third = state.mint_vibe(&u, NOW, "three".to_string()).unwrap();
    assert_ne!(first, second);
    assert_ne!(second, third);
    assert_ne!(first, third);
    assert_eq!(state.get_my_balance(&u), 100 - 3 * MINT_COST + 2);
    assert_eq!(state.get_vibe_stats(first.clone()), (1, 0));
    assert_eq!(state.get_vibe_stats(second.clone()), (0, 0));
    assert_eq!(state.like_vibe(&v, second.clone()), Ok(1));
    let vibes = state.get_my_vibes(&u);
    assert_eq!(vibes.len(), 3);
    assert_eq!((vibes[0].id.clone(), vibes[0].likes), (first, 1));
    assert_eq!((vibes[1].id.clone(), vibes[1].likes), (second, 1));
    assert_eq!((vibes[2].id.clone(), vibes[2].likes), (third, 0));
}

#[test]
fn leaderboard_rows_match_lookups_after_stake() {
    let mut state = State::new();
    let a = user(151);
    let b = user(152);
    let id = state.mint_vibe(&a, NOW, "w".to_string()).unwrap();
    state.like_vibe(&b, id.clone()).unwrap();
    state.stake_tokens(&b, 40).unwrap();
    let board = state.get_leaderboard();
    assert_eq!(board.top_creators.len(), 2);
    for (who, balance) in board.top_creators.iter() {
        assert_eq!(*balance, state.get_my_balance(who));
    }
    assert!(board.top_creators[0].0 == a);
    assert_eq!(board.top_creators[0].1, 97);
    assert!(board.top_creators[1].0 == b);
    assert_eq!(board.top_creators[1].1, 61);
    for (vibe, likes) in board.most_liked.iter() {
        assert_eq!(*likes, state.get_vibe_stats(vibe.clone()).0);
    }
}
