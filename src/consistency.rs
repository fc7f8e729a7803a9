//! The state invariant: ledger owners, item ids, stats ids and engagement
//! records are each unique, and every item's counts equal its stats.
use vstd::prelude::*;
use crate::laws::lemma_with_stat;
use crate::model::{
    lemma_account_found, lemma_item_found, lemma_item_pos, lemma_next_id_fresh, lemma_stat_found,
    lemma_stat_pos, lemma_steps_keep_tags, AccountRec, EngagementRec, ItemRec, PlatformModel,
    StatRec,
};
use crate::rewards::{
    creator_reward, reputation_gain, sat_add, user_reward, Reaction, INITIAL_BALANCE, MINT_COST,
    MINT_REPUTATION, NEUTRAL_REPUTATION, STAKING_REWARD,
};

verus! {

pub open spec fn owners_distinct(s: Seq<AccountRec>) -> bool {
    forall|i: int, j: int| 0 <= i < j < s.len() ==> s[i].owner != s[j].owner
}

pub open spec fn stat_ids_distinct(s: Seq<StatRec>) -> bool {
    forall|i: int, j: int| 0 <= i < j < s.len() ==> s[i].id != s[j].id
}

pub open spec fn item_ids_distinct(s: Seq<ItemRec>) -> bool {
    forall|i: int, j: int| 0 <= i < j < s.len() ==> s[i].id != s[j].id
}

pub open spec fn records_distinct(s: Seq<EngagementRec>) -> bool {
    forall|i: int, j: int| 0 <= i < j < s.len() ==> s[i] != s[j]
}

/// The item's counts equal the stats of its id.
pub open spec fn mirrored(m: PlatformModel, it: ItemRec) -> bool {
    it.likes == m.likes_of(it.id) && it.shares == m.shares_of(it.id)
}

/// The state invariant.
pub open spec fn platform_inv(m: PlatformModel) -> bool {
    &&& m.ids_tagged()
    &&& owners_distinct(m.accounts)
    &&& stat_ids_distinct(m.stats)
    &&& item_ids_distinct(m.items)
    &&& records_distinct(m.liked)
    &&& records_distinct(m.shared)
    &&& forall|i: int| 0 <= i < m.items.len() ==> #[trigger] mirrored(m, m.items[i])
}

proof fn lemma_with_account_distinct(m: PlatformModel, who: Seq<u8>, balance: u64, reputation: u64)
    requires
        owners_distinct(m.accounts),
    ensures
        owners_distinct(m.with_account(who, balance, reputation).accounts),
{
    let n = m.with_account(who, balance, reputation);
    if m.has_account(who) {
        let p = m.account_pos(who);
        assert(m.is_account_pos(who, p));
        assert(forall|j: int| 0 <= j < m.accounts.len() ==> n.accounts[j].owner == m.accounts[j].owner);
    } else {
        assert forall|j: int| 0 <= j < m.accounts.len() implies m.accounts[j].owner != who by {
            if m.accounts[j].owner == who {
                lemma_account_found(m, who, j);
            }
        }
    }
}

proof fn lemma_with_stat_distinct(m: PlatformModel, id: Seq<char>, likes: u64, shares: u64)
    requires
        stat_ids_distinct(m.stats),
    ensures
        stat_ids_distinct(m.with_stat(id, likes, shares).stats),
{
    let n = m.with_stat(id, likes, shares);
    if m.has_stat(id) {
        let p = m.stat_pos(id);
        assert(m.is_stat_pos(id, p));
        assert(forall|j: int| 0 <= j < m.stats.len() ==> n.stats[j].id == m.stats[j].id);
    } else {
        assert forall|j: int| 0 <= j < m.stats.len() implies m.stats[j].id != id by {
            if m.stats[j].id == id {
                lemma_stat_found(m, id, j);
            }
        }
    }
}

/// Setting the counts of one id leaves every other id's counts alone.
proof fn lemma_with_stat_other(
    m: PlatformModel,
    id: Seq<char>,
    likes: u64,
    shares: u64,
    other: Seq<char>,
)
    requires
        other != id,
    ensures
        m.with_stat(id, likes, shares).likes_of(other) == m.likes_of(other),
        m.with_stat(id, likes, shares).shares_of(other) == m.shares_of(other),
{
    let n = m.with_stat(id, likes, shares);
    let len = m.stats.len() as int;
    let p = if m.has_stat(id) {
        m.stat_pos(id)
    } else {
        len
    };
    if m.has_stat(id) {
        assert(m.is_stat_pos(id, p));
    }
    assert(forall|j: int| 0 <= j < len ==> n.stats[j].id == m.stats[j].id);
    if m.has_stat(other) {
        let q = m.stat_pos(other);
        assert(m.is_stat_pos(other, q));
        assert(q != p);
        assert(n.stats[q] == m.stats[q]);
        assert(n.is_stat_pos(other, q));
        lemma_stat_pos(n, other, q);
    } else if n.has_stat(other) {
        let q = n.stat_pos(other);
        assert(n.is_stat_pos(other, q));
        assert(q != p);
        assert(m.stats[q].id == other);
        lemma_stat_found(m, other, q);
    }
}

proof fn lemma_filter_items_distinct(s: Seq<ItemRec>, p: spec_fn(ItemRec) -> bool)
    requires
        item_ids_distinct(s),
    ensures
        item_ids_distinct(s.filter(p)),
    decreases s.len(),
{
    reveal(Seq::filter);
    if s.len() > 0 {
        let t = s.drop_last();
        lemma_filter_items_distinct(t, p);
        let f = t.filter(p);
        if p(s.last()) {
            assert forall|k: int| 0 <= k < f.len() implies f[k].id != s.last().id by {
                assert(f.contains(f[k]));
                t.lemma_filter_contains_rev(p, f[k]);
                let j = choose|j: int| 0 <= j < t.len() && t[j] == f[k];
                assert(s[j] == t[j]);
            }
            assert(s.filter(p) == f.push(s.last()));
        }
    }
}

proof fn lemma_filter_records_distinct(s: Seq<EngagementRec>, p: spec_fn(EngagementRec) -> bool)
    requires
        records_distinct(s),
    ensures
        records_distinct(s.filter(p)),
    decreases s.len(),
{
    reveal(Seq::filter);
    if s.len() > 0 {
        let t = s.drop_last();
        lemma_filter_records_distinct(t, p);
        let f = t.filter(p);
        if p(s.last()) {
            assert forall|k: int| 0 <= k < f.len() implies f[k] != s.last() by {
                assert(f.contains(f[k]));
                t.lemma_filter_contains_rev(p, f[k]);
                let j = choose|j: int| 0 <= j < t.len() && t[j] == f[k];
                assert(s[j] == t[j]);
            }
            assert(s.filter(p) == f.push(s.last()));
        }
    }
}

/// Every operation keeps the state invariant.
pub proof fn lemma_steps_keep_inv(
    m: PlatformModel,
    who: Seq<u8>,
    now: u64,
    content: Seq<char>,
    id: Seq<char>,
    kind: Reaction,
    amount: u64,
)
    requires
        platform_inv(m),
    ensures
        m.can_mint(who) ==> platform_inv(m.after_mint(who, now, content)),
        platform_inv(m.after_engage(who, id, kind)),
        platform_inv(m.after_reset(who)),
        m.balance_of(who) >= amount ==> platform_inv(m.after_stake(who, amount)),
        platform_inv(m.after_claim(who)),
{
    lemma_steps_keep_tags(m, who, now, content, id, kind, amount);
    // mint
    let nid = m.next_id(who, now);
    lemma_next_id_fresh(m, who, now);
    let paid = m.with_account(
        who,
        (m.balance_of(who) - MINT_COST) as u64,
        sat_add(m.reputation_of(who), MINT_REPUTATION),
    );
    lemma_with_account_distinct(
        m,
        who,
        (m.balance_of(who) - MINT_COST) as u64,
        sat_add(m.reputation_of(who), MINT_REPUTATION),
    );
    let item = ItemRec { id: nid, content, timestamp: now, likes: 0, shares: 0, creator: who };
    let pushed = PlatformModel { items: paid.items.push(item), ..paid };
    assert forall|j: int| 0 <= j < m.items.len() implies m.items[j].id != nid by {
        if m.items[j].id == nid {
            lemma_item_found(m, nid, j);
        }
    }
    lemma_with_stat_distinct(pushed, nid, 0, 0);
    lemma_with_stat(pushed, nid, 0, 0);
    let minted = pushed.with_stat(nid, 0, 0);
    assert forall|i: int| 0 <= i < minted.items.len() implies #[trigger] mirrored(
        minted,
        minted.items[i],
    ) by {
        if i < m.items.len() {
            assert(mirrored(m, m.items[i]));
            lemma_with_stat_other(pushed, nid, 0, 0, m.items[i].id);
        }
    }
    // engage
    if !m.has_engaged(who, id, kind) && m.has_item(id) {
        let p = m.item_pos(id);
        assert(m.is_item_pos(id, p));
        let owner = m.owner_of(id);
        let reward = creator_reward(kind, m.reputation_of(owner));
        let likes = if kind == Reaction::Like {
            sat_add(m.likes_of(id), 1)
        } else {
            m.likes_of(id)
        };
        let shares = if kind == Reaction::Share {
            sat_add(m.shares_of(id), 1)
        } else {
            m.shares_of(id)
        };
        let e = m.with_engagement(who, id, kind);
        let rec = EngagementRec { who, item: id };
        assert forall|j: int| 0 <= j < m.engagements(kind).len() implies m.engagements(kind)[j]
            != rec by {
            if m.engagements(kind)[j] == rec {
                assert(m.has_engaged(who, id, kind));
            }
        }
        let st = e.with_stat(id, likes, shares);
        lemma_with_stat_distinct(e, id, likes, shares);
        lemma_with_stat(e, id, likes, shares);
        let cg = reputation_gain(kind, true);
        let c1 = st.credit(owner, reward, cg);
        lemma_with_account_distinct(
            st,
            owner,
            sat_add(st.balance_of(owner), reward),
            sat_add(st.reputation_of(owner), cg),
        );
        let ur = user_reward(kind);
        let ug = reputation_gain(kind, false);
        let c2 = c1.credit(who, ur, ug);
        lemma_with_account_distinct(
            c1,
            who,
            sat_add(c1.balance_of(who), ur),
            sat_add(c1.reputation_of(who), ug),
        );
        assert(c2.items == m.items);
        assert(c2.is_item_pos(id, p));
        lemma_item_pos(c2, id, p);
        let n = c2.with_item_counts(id, likes, shares);
        assert(n == m.after_engage(who, id, kind));
        assert(n.stats == st.stats);
        assert forall|i: int| 0 <= i < n.items.len() implies #[trigger] mirrored(n, n.items[i]) by {
            if i != p {
                assert(mirrored(m, m.items[i]));
                assert(m.items[i].id != id);
                lemma_with_stat_other(e, id, likes, shares, m.items[i].id);
            }
        }
    }
    // reset
    let r = m.after_reset(who);
    lemma_with_account_distinct(m, who, INITIAL_BALANCE, NEUTRAL_REPUTATION);
    lemma_filter_items_distinct(m.items, |it: ItemRec| it.creator != who);
    lemma_filter_records_distinct(m.liked, |e: EngagementRec| e.who != who);
    lemma_filter_records_distinct(m.shared, |e: EngagementRec| e.who != who);
    assert forall|i: int| 0 <= i < r.items.len() implies #[trigger] mirrored(r, r.items[i]) by {
        let f = |it: ItemRec| it.creator != who;
        assert(m.items.filter(f).contains(r.items[i]));
        m.items.lemma_filter_contains_rev(f, r.items[i]);
        let j = choose|j: int| 0 <= j < m.items.len() && m.items[j] == r.items[i];
        assert(mirrored(m, m.items[j]));
    }
    // stake and claim
    lemma_with_account_distinct(m, who, (m.balance_of(who) - amount) as u64, m.reputation_of(who));
    lemma_with_account_distinct(m, who, sat_add(m.balance_of(who), STAKING_REWARD), m.reputation_of(who));
    let s1 = m.after_stake(who, amount);
    let s2 = m.after_claim(who);
    assert forall|i: int| 0 <= i < s1.items.len() implies #[trigger] mirrored(s1, s1.items[i]) by {
        assert(mirrored(m, m.items[i]));
    }
    assert forall|i: int| 0 <= i < s2.items.len() implies #[trigger] mirrored(s2, s2.items[i]) by {
        assert(mirrored(m, m.items[i]));
    }
}

proof fn lemma_filter_owners_distinct(s: Seq<AccountRec>, p: spec_fn(AccountRec) -> bool)
    requires
        owners_distinct(s),
    ensures
        owners_distinct(s.filter(p)),
    decreases s.len(),
{
    reveal(Seq::filter);
    if s.len() > 0 {
        let t = s.drop_last();
        lemma_filter_owners_distinct(t, p);
        let f = t.filter(p);
        if p(s.last()) {
            assert forall|k: int| 0 <= k < f.len() implies f[k].owner != s.last().owner by {
                assert(f.contains(f[k]));
                t.lemma_filter_contains_rev(p, f[k]);
                let j = choose|j: int| 0 <= j < t.len() && t[j] == f[k];
                assert(s[j] == t[j]);
            }
            assert(s.filter(p) == f.push(s.last()));
        }
    }
}

/// With unique stats ids, each stats entry is what the lookup of its id gives.
pub proof fn lemma_stat_row(m: PlatformModel, q: int)
    requires
        stat_ids_distinct(m.stats),
        0 <= q < m.stats.len(),
    ensures
        m.likes_of(m.stats[q].id) == m.stats[q].likes,
        m.shares_of(m.stats[q].id) == m.stats[q].shares,
{
    assert(m.is_stat_pos(m.stats[q].id, q));
    lemma_stat_pos(m, m.stats[q].id, q);
}

/// With unique owners, each ledger entry is what the lookup of its owner gives.
pub proof fn lemma_account_row(m: PlatformModel, q: int)
    requires
        owners_distinct(m.accounts),
        0 <= q < m.accounts.len(),
    ensures
        m.balance_of(m.accounts[q].owner) == m.accounts[q].balance,
{
    assert(m.is_account_pos(m.accounts[q].owner, q));
    crate::model::lemma_account_pos(m, m.accounts[q].owner, q);
}

/// The entries competing for top creator have unique owners.
pub proof fn lemma_creator_table_distinct(m: PlatformModel)
    requires
        owners_distinct(m.accounts),
    ensures
        owners_distinct(m.accounts.filter(|a: AccountRec| crate::platform::competes(a))),
{
    lemma_filter_owners_distinct(m.accounts, |a: AccountRec| crate::platform::competes(a));
}

} // verus!
