//! Properties that hold across operations, proved over the state model.
use vstd::prelude::*;
use crate::model::{
    lemma_account_found, lemma_account_pos, lemma_stat_found, lemma_stat_pos, EngagementRec,
    PlatformModel,
};
use crate::consistency::{
    lemma_account_row, lemma_creator_table_distinct, lemma_stat_row, platform_inv,
};
use crate::identity::anonymous_bytes;
use crate::platform::{
    board_fresh, bounded_sorted, competes, creator_table, rows_current, LeaderboardView,
    LEADERBOARD_SIZE,
};
use crate::identity::principal_text;
use crate::model::{decimal, lemma_next_id_fresh, lemma_tag_unique, AccountRec, ItemRec, StatRec};
use crate::ranking::is_ranking;
use crate::rewards::{
    creator_reward, reputation_gain, sat_add, user_reward, Reaction, MINT_COST, MINT_REPUTATION,
    STAKING_REWARD,
};

verus! {

/// Setting an identity's ledger entry sets its balance and reputation and
/// leaves every other identity's alone.
pub proof fn lemma_with_account(
    m: PlatformModel,
    who: Seq<u8>,
    balance: u64,
    reputation: u64,
    w: Seq<u8>,
)
    ensures
        m.with_account(who, balance, reputation).balance_of(who) == balance,
        m.with_account(who, balance, reputation).reputation_of(who) == reputation,
        w != who ==> m.with_account(who, balance, reputation).balance_of(w) == m.balance_of(w),
        w != who ==> m.with_account(who, balance, reputation).reputation_of(w) == m.reputation_of(
            w,
        ),
{
    let n = m.with_account(who, balance, reputation);
    let len = m.accounts.len() as int;
    let p = if m.has_account(who) {
        m.account_pos(who)
    } else {
        len
    };
    if m.has_account(who) {
        assert(m.is_account_pos(who, p));
        assert(n.is_account_pos(who, p));
    } else {
        assert forall|j: int| 0 <= j < p implies n.accounts[j].owner != who by {
            if n.accounts[j].owner == who {
                lemma_account_found(m, who, j);
            }
        }
        assert(n.is_account_pos(who, p));
    }
    lemma_account_pos(n, who, p);
    assert(forall|j: int| 0 <= j < len ==> n.accounts[j].owner == m.accounts[j].owner);
    if w != who {
        if m.has_account(w) {
            let q = m.account_pos(w);
            assert(m.is_account_pos(w, q));
            assert(q != p);
            assert(n.accounts[q] == m.accounts[q]);
            assert(n.is_account_pos(w, q));
            lemma_account_pos(n, w, q);
        } else if n.has_account(w) {
            let q = n.account_pos(w);
            assert(n.is_account_pos(w, q));
            assert(q != p);
            assert(q < len);
            assert(m.accounts[q].owner == w);
            lemma_account_found(m, w, q);
        }
    }
}

/// Setting an item's counts sets exactly those counts.
pub proof fn lemma_with_stat(m: PlatformModel, id: Seq<char>, likes: u64, shares: u64)
    ensures
        m.with_stat(id, likes, shares).likes_of(id) == likes,
        m.with_stat(id, likes, shares).shares_of(id) == shares,
{
    let n = m.with_stat(id, likes, shares);
    if m.has_stat(id) {
        let p = m.stat_pos(id);
        assert(m.is_stat_pos(id, p));
        assert(n.is_stat_pos(id, p));
        lemma_stat_pos(n, id, p);
    } else {
        let p = m.stats.len() as int;
        assert forall|j: int| 0 <= j < p implies n.stats[j].id != id by {
            if n.stats[j].id == id {
                lemma_stat_found(m, id, j);
            }
        }
        assert(n.is_stat_pos(id, p));
        lemma_stat_pos(n, id, p);
    }
}

/// A successful mint costs the minter exactly `MINT_COST` tokens.
pub proof fn law_mint_cost(m: PlatformModel, who: Seq<u8>, now: u64, content: Seq<char>)
    requires
        m.can_mint(who),
    ensures
        m.after_mint(who, now, content).balance_of(who) == m.balance_of(who) - MINT_COST,
{
    let reputation = sat_add(m.reputation_of(who), MINT_REPUTATION);
    lemma_with_account(m, who, (m.balance_of(who) - MINT_COST) as u64, reputation, who);
}

/// The like and share counts an item has after a new engagement.
spec fn counts_after(m: PlatformModel, id: Seq<char>, kind: Reaction) -> (u64, u64) {
    if kind == Reaction::Like {
        (sat_add(m.likes_of(id), 1), m.shares_of(id))
    } else {
        (m.likes_of(id), sat_add(m.shares_of(id), 1))
    }
}

/// Liking (or sharing) an item a second time returns what the first call
/// returned and changes nothing: no reward and no reputation.
pub proof fn law_engagement_idempotent(
    m: PlatformModel,
    who: Seq<u8>,
    id: Seq<char>,
    kind: Reaction,
)
    requires
        m.engage_result(who, id, kind) is Ok,
    ensures
        m.after_engage(who, id, kind).engage_result(who, id, kind) == m.engage_result(
            who,
            id,
            kind,
        ),
        m.after_engage(who, id, kind).after_engage(who, id, kind) == m.after_engage(who, id, kind),
{
    if !m.has_engaged(who, id, kind) {
        let (likes, shares) = counts_after(m, id, kind);
        let e = m.with_engagement(who, id, kind);
        let st = e.with_stat(id, likes, shares);
        lemma_with_stat(e, id, likes, shares);
        let n = m.after_engage(who, id, kind);
        let k = m.engagements(kind).len() as int;
        assert(n.engagements(kind) == e.engagements(kind));
        assert(n.engagements(kind)[k] == (EngagementRec { who, item: id }));
        assert(n.stats == st.stats);
    }
}

/// No operation but a reset lowers anyone's reputation.
pub proof fn law_reputation_never_drops(
    m: PlatformModel,
    who: Seq<u8>,
    w: Seq<u8>,
    now: u64,
    content: Seq<char>,
    id: Seq<char>,
    kind: Reaction,
    amount: u64,
)
    ensures
        m.can_mint(who) ==> m.after_mint(who, now, content).reputation_of(w) >= m.reputation_of(
            w,
        ),
        m.after_engage(who, id, kind).reputation_of(w) >= m.reputation_of(w),
        m.balance_of(who) >= amount ==> m.after_stake(who, amount).reputation_of(w)
            >= m.reputation_of(w),
        m.after_claim(who).reputation_of(w) >= m.reputation_of(w),
{
    let balance = m.balance_of(who);
    let reputation = m.reputation_of(who);
    let minted = sat_add(reputation, MINT_REPUTATION);
    lemma_with_account(m, who, (balance - MINT_COST) as u64, minted, w);
    lemma_with_account(m, who, (balance - amount) as u64, reputation, w);
    lemma_with_account(m, who, sat_add(balance, STAKING_REWARD), reputation, w);
    if !m.has_engaged(who, id, kind) && m.has_item(id) {
        let owner = m.owner_of(id);
        let (likes, shares) = counts_after(m, id, kind);
        let st = m.with_engagement(who, id, kind).with_stat(id, likes, shares);
        assert(st.accounts == m.accounts);
        let reward = creator_reward(kind, st.reputation_of(owner));
        let cg = reputation_gain(kind, true);
        let c1 = st.credit(owner, reward, cg);
        let owner_rep = sat_add(st.reputation_of(owner), cg);
        lemma_with_account(st, owner, sat_add(st.balance_of(owner), reward), owner_rep, w);
        let ur = user_reward(kind);
        let ug = reputation_gain(kind, false);
        let c2 = c1.credit(who, ur, ug);
        let user_rep = sat_add(c1.reputation_of(who), ug);
        lemma_with_account(c1, who, sat_add(c1.balance_of(who), ur), user_rep, w);
        assert(m.after_engage(who, id, kind).accounts == c2.accounts);
    }
}

/// Each leaderboard list holds at most `LEADERBOARD_SIZE` entries, in
/// non-increasing order of score.
pub proof fn law_leaderboard_bounded_sorted(m: PlatformModel, b: LeaderboardView)
    requires
        board_fresh(m, b),
    ensures
        bounded_sorted(b),
{
}

/// In a consistent state, every row of a current leaderboard shows what the
/// lookups give: a listed creator's balance, a listed item's like or share
/// count. No identity and no item id is listed twice, the anonymous identity
/// is never listed, and the first most-liked row has the highest like count.
pub proof fn law_leaderboard_rows(m: PlatformModel, b: LeaderboardView)
    requires
        platform_inv(m),
        board_fresh(m, b),
        m.stats.len() <= usize::MAX,
    ensures
        rows_current(m, b),
{
    // top creators
    let table = creator_table(m);
    let ckeys = table.map_values(|a: AccountRec| a.owner);
    let cscores = table.map_values(|a: AccountRec| a.balance);
    let cp = choose|picks: Seq<usize>|
        #[trigger] is_ranking(cscores, picks, LEADERBOARD_SIZE as int) && b.top_creators.len()
            == picks.len() && forall|k: int|
            0 <= k < picks.len() ==> b.top_creators[k] == (
            ckeys[picks[k] as int],
            cscores[picks[k] as int],
        );
    lemma_creator_table_distinct(m);
    assert forall|k: int| 0 <= k < b.top_creators.len() implies #[trigger] b.top_creators[k].1
        == m.balance_of(b.top_creators[k].0) && b.top_creators[k].0 != anonymous_bytes() by {
        let x = cp[k] as int;
        let row = table[x];
        assert(table.contains(row));
        m.accounts.lemma_filter_contains_rev(|a: AccountRec| competes(a), row);
        m.accounts.lemma_filter_pred(|a: AccountRec| competes(a), x);
        let q = choose|q: int| 0 <= q < m.accounts.len() && m.accounts[q] == row;
        lemma_account_row(m, q);
    }
    assert forall|i: int, j: int| 0 <= i < j < b.top_creators.len() implies b.top_creators[i].0
        != b.top_creators[j].0 by {
        let x = cp[i] as int;
        let y = cp[j] as int;
        if x < y {
            assert(table[x].owner != table[y].owner);
        } else {
            assert(table[y].owner != table[x].owner);
        }
    }
    // most liked
    let keys = m.stats.map_values(|s: StatRec| s.id);
    let likes = m.stats.map_values(|s: StatRec| s.likes);
    let lp = choose|picks: Seq<usize>|
        #[trigger] is_ranking(likes, picks, LEADERBOARD_SIZE as int) && b.most_liked.len()
            == picks.len() && forall|k: int|
            0 <= k < picks.len() ==> b.most_liked[k] == (
            keys[picks[k] as int],
            likes[picks[k] as int],
        );
    assert forall|k: int| 0 <= k < b.most_liked.len() implies #[trigger] b.most_liked[k].1
        == m.likes_of(b.most_liked[k].0) by {
        lemma_stat_row(m, lp[k] as int);
    }
    assert forall|i: int, j: int| 0 <= i < j < b.most_liked.len() implies b.most_liked[i].0
        != b.most_liked[j].0 by {
        let x = lp[i] as int;
        let y = lp[j] as int;
        if x < y {
            assert(m.stats[x].id != m.stats[y].id);
        } else {
            assert(m.stats[y].id != m.stats[x].id);
        }
    }
    if b.most_liked.len() > 0 {
        assert forall|id: Seq<char>| #[trigger] m.likes_of(id) <= b.most_liked[0].1 by {
            if m.has_stat(id) {
                let q = m.stat_pos(id);
                assert(m.is_stat_pos(id, q));
                lemma_stat_row(m, q);
                if lp.contains(q as usize) {
                    let k = choose|k: int| 0 <= k < lp.len() && lp[k] == q as usize;
                    if k > 0 {
                        assert(likes[lp[0] as int] >= likes[lp[k] as int]);
                    }
                } else {
                    assert(likes[q] <= likes[lp[0] as int]);
                }
            }
        }
    }
    // most shared
    let shares = m.stats.map_values(|s: StatRec| s.shares);
    let sp = choose|picks: Seq<usize>|
        #[trigger] is_ranking(shares, picks, LEADERBOARD_SIZE as int) && b.most_shared.len()
            == picks.len() && forall|k: int|
            0 <= k < picks.len() ==> b.most_shared[k] == (
            keys[picks[k] as int],
            shares[picks[k] as int],
        );
    assert forall|k: int| 0 <= k < b.most_shared.len() implies #[trigger] b.most_shared[k].1
        == m.shares_of(b.most_shared[k].0) by {
        lemma_stat_row(m, sp[k] as int);
    }
    assert forall|i: int, j: int| 0 <= i < j < b.most_shared.len() implies b.most_shared[i].0
        != b.most_shared[j].0 by {
        let x = sp[i] as int;
        let y = sp[j] as int;
        if x < y {
            assert(m.stats[x].id != m.stats[y].id);
        } else {
            assert(m.stats[y].id != m.stats[x].id);
        }
    }
}

/// A mint's id differs from the id of any later mint, whoever mints and
/// whenever.
pub proof fn law_mint_ids_distinct(
    m: PlatformModel,
    who: Seq<u8>,
    now: u64,
    content: Seq<char>,
    later: Seq<u8>,
    later_now: u64,
)
    requires
        m.ids_tagged(),
        m.can_mint(who),
    ensures
        m.after_mint(who, now, content).next_id(later, later_now) != m.next_id(who, now),
{
    let n = m.after_mint(who, now, content);
    let id = m.next_id(who, now);
    lemma_mint_adds_stat(m, who, now, content);
    let x = principal_text(who) + seq!['-'] + decimal(now as nat);
    let y = principal_text(later) + seq!['-'] + decimal(later_now as nat);
    if n.next_id(later, later_now) == id {
        assert(id == x + seq!['-'] + decimal(m.stats.len()));
        assert(n.next_id(later, later_now) == y + seq!['-'] + decimal(n.stats.len()));
        lemma_tag_unique(x, m.stats.len(), y, n.stats.len());
    }
}

/// A mint adds one stats entry.
proof fn lemma_mint_adds_stat(m: PlatformModel, who: Seq<u8>, now: u64, content: Seq<char>)
    requires
        m.ids_tagged(),
        m.can_mint(who),
    ensures
        m.after_mint(who, now, content).stats.len() == m.stats.len() + 1,
{
    let nid = m.next_id(who, now);
    let paid = m.with_account(
        who,
        (m.balance_of(who) - MINT_COST) as u64,
        sat_add(m.reputation_of(who), MINT_REPUTATION),
    );
    let item = ItemRec { id: nid, content, timestamp: now, likes: 0, shares: 0, creator: who };
    let pushed = PlatformModel { items: paid.items.push(item), ..paid };
    lemma_next_id_fresh(m, who, now);
    assert(pushed.stats == m.stats);
}

} // verus!
