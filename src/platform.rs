//! The platform state and its operations.
use vstd::prelude::*;
use crate::consistency::{lemma_steps_keep_inv, platform_inv};
use crate::laws::{law_leaderboard_bounded_sorted, law_leaderboard_rows};
use crate::identity::{anonymous_bytes, Identity};
use crate::model::{
    decimal, lemma_account_pos, lemma_next_id_fresh, lemma_item_pos, lemma_stat_pos, AccountRec, EngagementRec, ItemRec, PlatformError, PlatformModel, StatRec,
};
use crate::ranking::{is_ranking, rank_top};
use crate::rewards::{
    creator_reward_for, reputation_gain_for, user_reward_for, Reaction, INITIAL_BALANCE,
    MINT_COST, MINT_REPUTATION, NEUTRAL_REPUTATION, STAKING_REWARD,
};

verus! {

/// Entries in each leaderboard list.
pub const LEADERBOARD_SIZE: usize = 10;

/// A content item, with the engagement counts mirrored from its stats.
pub struct Vibe {
    pub id: String,
    pub content: String,
    pub timestamp: u64,
    pub likes: u64,
    pub shares: u64,
    pub creator: Identity,
}

impl View for Vibe {
    type V = ItemRec;

    open spec fn view(&self) -> ItemRec {
        ItemRec {
            id: self.id@,
            content: self.content@,
            timestamp: self.timestamp,
            likes: self.likes,
            shares: self.shares,
            creator: self.creator@,
        }
    }
}

impl Vibe {
    /// An equal item.
    pub fn duplicate(&self) -> (r: Vibe)
        ensures
            r@ == self@,
    {
        Vibe {
            id: self.id.clone(),
            content: self.content.clone(),
            timestamp: self.timestamp,
            likes: self.likes,
            shares: self.shares,
            creator: self.creator.duplicate(),
        }
    }
}

struct Account {
    owner: Identity,
    balance: u64,
    reputation: u64,
}

impl View for Account {
    type V = AccountRec;

    closed spec fn view(&self) -> AccountRec {
        AccountRec { owner: self.owner@, balance: self.balance, reputation: self.reputation }
    }
}

struct Stat {
    id: String,
    likes: u64,
    shares: u64,
}

impl View for Stat {
    type V = StatRec;

    closed spec fn view(&self) -> StatRec {
        StatRec { id: self.id@, likes: self.likes, shares: self.shares }
    }
}

struct Engagement {
    who: Identity,
    item: String,
}

impl View for Engagement {
    type V = EngagementRec;

    closed spec fn view(&self) -> EngagementRec {
        EngagementRec { who: self.who@, item: self.item@ }
    }
}

impl Engagement {
    fn duplicate(&self) -> (r: Engagement)
        ensures
            r@ == self@,
    {
        Engagement { who: self.who.duplicate(), item: self.item.clone() }
    }
}

/// The leaderboard lists as plain values.
pub struct LeaderboardView {
    pub top_creators: Seq<(Seq<u8>, u64)>,
    pub most_liked: Seq<(Seq<char>, u64)>,
    pub most_shared: Seq<(Seq<char>, u64)>,
}

/// Top creators by balance, and top items by likes and by shares.
pub struct Leaderboard {
    pub top_creators: Vec<(Identity, u64)>,
    pub most_liked: Vec<(String, u64)>,
    pub most_shared: Vec<(String, u64)>,
}

impl View for Leaderboard {
    type V = LeaderboardView;

    open spec fn view(&self) -> LeaderboardView {
        LeaderboardView {
            top_creators: self.top_creators@.map_values(|e: (Identity, u64)| (e.0@, e.1)),
            most_liked: self.most_liked@.map_values(|e: (String, u64)| (e.0@, e.1)),
            most_shared: self.most_shared@.map_values(|e: (String, u64)| (e.0@, e.1)),
        }
    }
}

/// `entries` lists the top `LEADERBOARD_SIZE` of the table given by `keys`
/// and `scores`, highest score first.
pub open spec fn ranks<K>(entries: Seq<(K, u64)>, keys: Seq<K>, scores: Seq<u64>) -> bool {
    exists|picks: Seq<usize>|
        #[trigger] is_ranking(scores, picks, LEADERBOARD_SIZE as int) && entries.len()
            == picks.len() && forall|k: int|
            0 <= k < picks.len() ==> entries[k] == (
            keys[picks[k] as int],
            scores[picks[k] as int],
        )
}

/// Whether the ledger entry competes for top creator: all but the anonymous
/// identity's do.
pub open spec fn competes(a: AccountRec) -> bool {
    a.owner != anonymous_bytes()
}

/// The ledger entries that compete for top creator.
pub open spec fn creator_table(m: PlatformModel) -> Seq<AccountRec> {
    m.accounts.filter(|a: AccountRec| competes(a))
}

/// The count an item is ranked by for this kind of engagement.
pub open spec fn score_of(kind: Reaction, s: StatRec) -> u64 {
    if kind == Reaction::Like {
        s.likes
    } else {
        s.shares
    }
}

/// The leaderboard is recomputed from the state.
pub open spec fn board_fresh(m: PlatformModel, b: LeaderboardView) -> bool {
    &&& ranks(
        b.top_creators,
        creator_table(m).map_values(|a: AccountRec| a.owner),
        creator_table(m).map_values(|a: AccountRec| a.balance),
    )
    &&& ranks(
        b.most_liked,
        m.stats.map_values(|s: StatRec| s.id),
        m.stats.map_values(|s: StatRec| s.likes),
    )
    &&& ranks(
        b.most_shared,
        m.stats.map_values(|s: StatRec| s.id),
        m.stats.map_values(|s: StatRec| s.shares),
    )
}

/// Each list holds at most `LEADERBOARD_SIZE` rows, in non-increasing order
/// of score.
pub open spec fn bounded_sorted(b: LeaderboardView) -> bool {
    &&& b.top_creators.len() <= LEADERBOARD_SIZE
    &&& b.most_liked.len() <= LEADERBOARD_SIZE
    &&& b.most_shared.len() <= LEADERBOARD_SIZE
    &&& forall|i: int, j: int|
        0 <= i < j < b.top_creators.len() ==> b.top_creators[i].1 >= b.top_creators[j].1
    &&& forall|i: int, j: int|
        0 <= i < j < b.most_liked.len() ==> b.most_liked[i].1 >= b.most_liked[j].1
    &&& forall|i: int, j: int|
        0 <= i < j < b.most_shared.len() ==> b.most_shared[i].1 >= b.most_shared[j].1
}

/// Every row shows what the lookups give, no identity or item id is listed
/// twice, the anonymous identity is never listed, and the first most-liked
/// row has the highest like count.
pub open spec fn rows_current(m: PlatformModel, b: LeaderboardView) -> bool {
    &&& forall|k: int|
        0 <= k < b.top_creators.len() ==> #[trigger] b.top_creators[k].1 == m.balance_of(
            b.top_creators[k].0,
        ) && b.top_creators[k].0 != anonymous_bytes()
    &&& forall|i: int, j: int|
        0 <= i < j < b.top_creators.len() ==> b.top_creators[i].0 != b.top_creators[j].0
    &&& forall|k: int|
        0 <= k < b.most_liked.len() ==> #[trigger] b.most_liked[k].1 == m.likes_of(
            b.most_liked[k].0,
        )
    &&& forall|i: int, j: int|
        0 <= i < j < b.most_liked.len() ==> b.most_liked[i].0 != b.most_liked[j].0
    &&& forall|k: int|
        0 <= k < b.most_shared.len() ==> #[trigger] b.most_shared[k].1 == m.shares_of(
            b.most_shared[k].0,
        )
    &&& forall|i: int, j: int|
        0 <= i < j < b.most_shared.len() ==> b.most_shared[i].0 != b.most_shared[j].0
    &&& b.most_liked.len() > 0 ==> forall|id: Seq<char>|
        #[trigger] m.likes_of(id) <= b.most_liked[0].1
}

/// The whole platform state.
pub struct State {
    accounts: Vec<Account>,
    vibes: Vec<Vibe>,
    stats: Vec<Stat>,
    liked: Vec<Engagement>,
    shared: Vec<Engagement>,
    leaderboard: Leaderboard,
}

impl View for State {
    type V = PlatformModel;

    closed spec fn view(&self) -> PlatformModel {
        PlatformModel {
            accounts: self.accounts@.map_values(|a: Account| a@),
            items: self.vibes@.map_values(|v: Vibe| v@),
            stats: self.stats@.map_values(|s: Stat| s@),
            liked: self.liked@.map_values(|e: Engagement| e@),
            shared: self.shared@.map_values(|e: Engagement| e@),
        }
    }
}

impl State {
    /// The leaderboard as last recomputed.
    pub closed spec fn board(&self) -> LeaderboardView {
        self.leaderboard@
    }

    /// The leaderboard is current.
    pub open spec fn wf(&self) -> bool {
        &&& board_fresh(self@, self.board())
        &&& platform_inv(self@)
    }

    fn find_account(&self, who: &Identity) -> (r: Option<usize>)
        ensures
            match r {
                Some(i) => self@.is_account_pos(who@, i as int),
                None => !self@.has_account(who@),
            },
    {
        let mut i: usize = 0;
        while i < self.accounts.len()
            invariant
                i <= self.accounts@.len(),
                forall|j: int| 0 <= j < i ==> self@.accounts[j].owner != who@,
            decreases self.accounts@.len() - i,
        {
            if self.accounts[i].owner.same_as(who) {
                return Some(i);
            }
            i = i + 1;
        }
        None
    }

    /// The identity's balance and reputation.
    fn standing(&self, who: &Identity) -> (r: (u64, u64))
        ensures
            r == (self@.balance_of(who@), self@.reputation_of(who@)),
    {
        match self.find_account(who) {
            Some(i) => {
                proof {
                    lemma_account_pos(self@, who@, i as int);
                }
                (self.accounts[i].balance, self.accounts[i].reputation)
            },
            None => (INITIAL_BALANCE, NEUTRAL_REPUTATION),
        }
    }

    fn set_account(&mut self, who: &Identity, balance: u64, reputation: u64)
        ensures
            final(self)@ == old(self)@.with_account(who@, balance, reputation),
    {
        let rec = Account { owner: who.duplicate(), balance, reputation };
        match self.find_account(who) {
            Some(i) => {
                proof {
                    lemma_account_pos(self@, who@, i as int);
                }
                self.accounts.set(i, rec);
            },
            None => {
                self.accounts.push(rec);
            },
        }
        assert(self@.accounts =~= old(self)@.with_account(who@, balance, reputation).accounts);
    }

    fn credit(&mut self, who: &Identity, amount: u64, gain: u64)
        ensures
            final(self)@ == old(self)@.credit(who@, amount, gain),
    {
        let (balance, reputation) = self.standing(who);
        self.set_account(who, balance.saturating_add(amount), reputation.saturating_add(gain));
    }

    fn find_stat(&self, id: &String) -> (r: Option<usize>)
        ensures
            match r {
                Some(i) => self@.is_stat_pos(id@, i as int),
                None => !self@.has_stat(id@),
            },
    {
        let mut i: usize = 0;
        while i < self.stats.len()
            invariant
                i <= self.stats@.len(),
                forall|j: int| 0 <= j < i ==> self@.stats[j].id != id@,
            decreases self.stats@.len() - i,
        {
            if self.stats[i].id == *id {
                return Some(i);
            }
            i = i + 1;
        }
        None
    }

    /// The item's like and share counts.
    fn counts(&self, id: &String) -> (r: (u64, u64))
        ensures
            r == (self@.likes_of(id@), self@.shares_of(id@)),
    {
        match self.find_stat(id) {
            Some(i) => {
                proof {
                    lemma_stat_pos(self@, id@, i as int);
                }
                (self.stats[i].likes, self.stats[i].shares)
            },
            None => (0, 0),
        }
    }

    fn set_stat(&mut self, id: &String, likes: u64, shares: u64)
        ensures
            final(self)@ == old(self)@.with_stat(id@, likes, shares),
    {
        let rec = Stat { id: id.clone(), likes, shares };
        match self.find_stat(id) {
            Some(i) => {
                proof {
                    lemma_stat_pos(self@, id@, i as int);
                }
                self.stats.set(i, rec);
            },
            None => {
                self.stats.push(rec);
            },
        }
        assert(self@.stats =~= old(self)@.with_stat(id@, likes, shares).stats);
    }

    fn find_vibe(&self, id: &String) -> (r: Option<usize>)
        ensures
            match r {
                Some(i) => self@.is_item_pos(id@, i as int),
                None => !self@.has_item(id@),
            },
    {
        let mut i: usize = 0;
        while i < self.vibes.len()
            invariant
                i <= self.vibes@.len(),
                forall|j: int| 0 <= j < i ==> self@.items[j].id != id@,
            decreases self.vibes@.len() - i,
        {
            if self.vibes[i].id == *id {
                return Some(i);
            }
            i = i + 1;
        }
        None
    }

    /// Mirrors new engagement counts onto the item with this id.
    fn update_vibe_stats(&mut self, id: &String, likes: u64, shares: u64)
        ensures
            final(self)@ == old(self)@.with_item_counts(id@, likes, shares),
    {
        match self.find_vibe(id) {
            Some(i) => {
                proof {
                    lemma_item_pos(self@, id@, i as int);
                }
                let old_vibe = self.vibes[i].duplicate();
                let vibe = Vibe { likes, shares, ..old_vibe };
                self.vibes.set(i, vibe);
                assert(self@.items =~= old(self)@.with_item_counts(id@, likes, shares).items);
            },
            None => {},
        }
    }

    fn has_engaged(&self, who: &Identity, id: &String, kind: Reaction) -> (r: bool)
        ensures
            r == self@.has_engaged(who@, id@, kind),
    {
        let list = match kind {
            Reaction::Like => &self.liked,
            Reaction::Share => &self.shared,
        };
        assert(list@.map_values(|e: Engagement| e@) == self@.engagements(kind));
        let mut i: usize = 0;
        while i < list.len()
            invariant
                i <= list@.len(),
                list@.map_values(|e: Engagement| e@) == self@.engagements(kind),
                forall|j: int|
                    0 <= j < i ==> self@.engagements(kind)[j] != (EngagementRec {
                        who: who@,
                        item: id@,
                    }),
            decreases list@.len() - i,
        {
            if list[i].who.same_as(who) && list[i].item == *id {
                assert(self@.engagements(kind)[i as int] == (EngagementRec {
                    who: who@,
                    item: id@,
                }));
                return true;
            }
            i = i + 1;
        }
        false
    }

    fn record_engagement(&mut self, who: &Identity, id: &String, kind: Reaction)
        ensures
            final(self)@ == old(self)@.with_engagement(who@, id@, kind),
    {
        let e = Engagement { who: who.duplicate(), item: id.clone() };
        match kind {
            Reaction::Like => self.liked.push(e),
            Reaction::Share => self.shared.push(e),
        }
        assert(self@.liked =~= old(self)@.with_engagement(who@, id@, kind).liked);
        assert(self@.shared =~= old(self)@.with_engagement(who@, id@, kind).shared);
    }

    /// The top creators by balance, all identities but the anonymous one.
    fn rank_creators(&self) -> (r: Vec<(Identity, u64)>)
        ensures
            ranks(
                r@.map_values(|e: (Identity, u64)| (e.0@, e.1)),
                creator_table(self@).map_values(|a: AccountRec| a.owner),
                creator_table(self@).map_values(|a: AccountRec| a.balance),
            ),
    {
        let mut cands: Vec<usize> = Vec::new();
        let mut scores: Vec<u64> = Vec::new();
        let mut i: usize = 0;
        while i < self.accounts.len()
            invariant
                i <= self.accounts@.len(),
                cands@.len() == scores@.len(),
                forall|k: int| 0 <= k < cands@.len() ==> cands@[k] < self.accounts@.len(),
                cands@.map_values(|c: usize| self@.accounts[c as int])
                    == self@.accounts.subrange(0, i as int).filter(|a: AccountRec| competes(a)),
                forall|k: int|
                    0 <= k < cands@.len() ==> scores@[k] == self@.accounts[cands@[k] as int].balance,
            decreases self.accounts@.len() - i,
        {
            let ghost old_cands = cands@;
            proof {
                let acc = self@.accounts;
                assert(acc.subrange(0, i + 1) =~= acc.subrange(0, i as int).push(acc[i as int]));
                acc.subrange(0, i as int).lemma_filter_push(acc[i as int], |a: AccountRec| competes(a));
                assert(acc[i as int].owner == self.accounts@[i as int].owner@);
            }
            let anon = self.accounts[i].owner.is_anonymous();
            if !anon {
                cands.push(i);
                scores.push(self.accounts[i].balance);
                assert(cands@.map_values(|c: usize| self@.accounts[c as int])
                    =~= old_cands.map_values(|c: usize| self@.accounts[c as int]).push(
                    self@.accounts[i as int],
                ));
            }
            i = i + 1;
        }
        assert(self@.accounts.subrange(0, i as int) =~= self@.accounts);
        let ghost table = creator_table(self@);
        assert(cands@.map_values(|c: usize| self@.accounts[c as int]) == table);
        assert(scores@ =~= table.map_values(|a: AccountRec| a.balance));
        let picks = rank_top(&scores, LEADERBOARD_SIZE);
        let mut out: Vec<(Identity, u64)> = Vec::new();
        let mut k: usize = 0;
        while k < picks.len()
            invariant
                is_ranking(scores@, picks@, LEADERBOARD_SIZE as int),
                k <= picks@.len(),
                cands@.len() == scores@.len(),
                cands@.len() == table.len(),
                forall|t: int| 0 <= t < cands@.len() ==> cands@[t] < self.accounts@.len(),
                forall|t: int| 0 <= t < cands@.len() ==> table[t] == self@.accounts[cands@[t] as int],
                scores@ == table.map_values(|a: AccountRec| a.balance),
                out@.len() == k,
                forall|t: int|
                    0 <= t < k ==> (out@[t].0@, out@[t].1) == (
                        table.map_values(|a: AccountRec| a.owner)[picks@[t] as int],
                        scores@[picks@[t] as int],
                    ),
            decreases picks@.len() - k,
        {
            let p = picks[k];
            let c = cands[p];
            assert(table[p as int] == self@.accounts[c as int]);
            out.push((self.accounts[c].owner.duplicate(), scores[p]));
            k = k + 1;
        }
        let ghost view = out@.map_values(|e: (Identity, u64)| (e.0@, e.1));
        assert(forall|t: int| 0 <= t < picks@.len() ==> view[t] == (
            table.map_values(|a: AccountRec| a.owner)[picks@[t] as int],
            scores@[picks@[t] as int],
        ));
        out
    }

    /// The top item ids by like count (or by share count).
    fn rank_vibes(&self, kind: Reaction) -> (r: Vec<(String, u64)>)
        ensures
            ranks(
                r@.map_values(|e: (String, u64)| (e.0@, e.1)),
                self@.stats.map_values(|s: StatRec| s.id),
                self@.stats.map_values(|s: StatRec| score_of(kind, s)),
            ),
    {
        let mut scores: Vec<u64> = Vec::new();
        let mut i: usize = 0;
        while i < self.stats.len()
            invariant
                i <= self.stats@.len(),
                scores@.len() == i,
                forall|k: int| 0 <= k < i ==> scores@[k] == score_of(kind, self@.stats[k]),
            decreases self.stats@.len() - i,
        {
            let score = match kind {
                Reaction::Like => self.stats[i].likes,
                Reaction::Share => self.stats[i].shares,
            };
            scores.push(score);
            assert(self@.stats[i as int] == self.stats@[i as int]@);
            i = i + 1;
        }
        assert(scores@ =~= self@.stats.map_values(|s: StatRec| score_of(kind, s)));
        let picks = rank_top(&scores, LEADERBOARD_SIZE);
        let mut out: Vec<(String, u64)> = Vec::new();
        let mut k: usize = 0;
        while k < picks.len()
            invariant
                is_ranking(scores@, picks@, LEADERBOARD_SIZE as int),
                k <= picks@.len(),
                scores@.len() == self.stats@.len(),
                out@.len() == k,
                forall|t: int|
                    0 <= t < k ==> (out@[t].0@, out@[t].1) == (
                        self@.stats.map_values(|s: StatRec| s.id)[picks@[t] as int],
                        scores@[picks@[t] as int],
                    ),
            decreases picks@.len() - k,
        {
            let p = picks[k];
            out.push((self.stats[p].id.clone(), scores[p]));
            k = k + 1;
        }
        let ghost view = out@.map_values(|e: (String, u64)| (e.0@, e.1));
        assert(forall|t: int| 0 <= t < picks@.len() ==> view[t] == (
            self@.stats.map_values(|s: StatRec| s.id)[picks@[t] as int],
            scores@[picks@[t] as int],
        ));
        out
    }

    /// Recomputes all three leaderboard lists from the ledger and the stats.
    fn rebuild_leaderboard(&mut self)
        requires
            platform_inv(old(self)@),
        ensures
            final(self)@ == old(self)@,
            final(self).wf(),
    {
        let top_creators = self.rank_creators();
        let most_liked = self.rank_vibes(Reaction::Like);
        let most_shared = self.rank_vibes(Reaction::Share);
        assert(self@.stats.map_values(|s: StatRec| score_of(Reaction::Like, s))
            =~= self@.stats.map_values(|s: StatRec| s.likes));
        assert(self@.stats.map_values(|s: StatRec| score_of(Reaction::Share, s))
            =~= self@.stats.map_values(|s: StatRec| s.shares));
        self.leaderboard = Leaderboard { top_creators, most_liked, most_shared };
    }

    /// An empty platform: no ledger entries, items or engagements.
    pub fn new() -> (r: State)
        ensures
            r@ == PlatformModel::empty(),
            r.wf(),
    {
        let mut st = State {
            accounts: Vec::new(),
            vibes: Vec::new(),
            stats: Vec::new(),
            liked: Vec::new(),
            shared: Vec::new(),
            leaderboard: Leaderboard {
                top_creators: Vec::new(),
                most_liked: Vec::new(),
                most_shared: Vec::new(),
            },
        };
        assert(st@.accounts =~= Seq::empty());
        assert(st@.items =~= Seq::empty());
        assert(st@.stats =~= Seq::empty());
        assert(st@.liked =~= Seq::empty());
        assert(st@.shared =~= Seq::empty());
        st.rebuild_leaderboard();
        st
    }

    /// The caller mints an item with `content` at second `now`, paying
    /// `MINT_COST`; the item's id is returned. Fails, changing nothing, when
    /// the caller cannot pay.
    pub fn mint_vibe(&mut self, caller: &Identity, now: u64, content: String) -> (r: Result<
        String,
        PlatformError,
    >)
        requires
            old(self).wf(),
            caller.wf(),
        ensures
            final(self).wf(),
            r is Ok <==> old(self)@.can_mint(caller@),
            r matches Ok(id) ==> id@ == old(self)@.next_id(caller@, now)
                && !old(self)@.has_item(id@) && !old(self)@.has_stat(id@)
                && final(self)@ == old(self)@.after_mint(caller@, now, content@),
            r matches Err(e) ==> e == PlatformError::InsufficientFunds && *final(self) == *old(self),
    {
        let (balance, reputation) = self.standing(caller);
        if balance < MINT_COST {
            return Err(PlatformError::InsufficientFunds);
        }
        proof {
            lemma_next_id_fresh(self@, caller@, now);
            lemma_steps_keep_inv(self@, caller@, now, content@, Seq::empty(), Reaction::Like, 0);
            reveal_strlit("-");
        }
        let mut id = caller.text();
        id.append("-");
        let stamp = decimal_text(now);
        id.append(stamp.as_str());
        id.append("-");
        let serial = decimal_text(self.stats.len() as u64);
        id.append(serial.as_str());
        assert(id@ == self@.next_id(caller@, now));
        self.set_account(caller, balance - MINT_COST, reputation.saturating_add(MINT_REPUTATION));
        let vibe = Vibe {
            id: id.clone(),
            content,
            timestamp: now,
            likes: 0,
            shares: 0,
            creator: caller.duplicate(),
        };
        let ghost paid = self@;
        let ghost vv = vibe@;
        self.vibes.push(vibe);
        assert(self@.items =~= paid.items.push(vv));
        self.set_stat(&id, 0, 0);
        self.rebuild_leaderboard();
        Ok(id)
    }

    /// Records a like or share by the caller; see `like_vibe`.
    fn engage(&mut self, caller: &Identity, id: &String, kind: Reaction) -> (r: Result<
        u64,
        PlatformError,
    >)
        requires
            old(self).wf(),
        ensures
            final(self).wf(),
            r == old(self)@.engage_result(caller@, id@, kind),
            final(self)@ == old(self)@.after_engage(caller@, id@, kind),
            old(self)@.has_engaged(caller@, id@, kind) || !old(self)@.has_item(id@) ==> *final(self) == *old(self),
    {
        proof {
            lemma_steps_keep_inv(self@, caller@, 0, Seq::empty(), id@, kind, 0);
        }
        if self.has_engaged(caller, id, kind) {
            let (likes, shares) = self.counts(id);
            return match kind {
                Reaction::Like => Ok(likes),
                Reaction::Share => Ok(shares),
            };
        }
        let pos = match self.find_vibe(id) {
            Some(p) => p,
            None => {
                return Err(PlatformError::ItemNotFound);
            },
        };
        proof {
            lemma_item_pos(self@, id@, pos as int);
        }
        let owner = self.vibes[pos].creator.duplicate();
        let (_, owner_reputation) = self.standing(&owner);
        let reward = creator_reward_for(kind, owner_reputation);
        let (likes0, shares0) = self.counts(id);
        let (likes, shares) = match kind {
            Reaction::Like => (likes0.saturating_add(1), shares0),
            Reaction::Share => (likes0, shares0.saturating_add(1)),
        };
        self.record_engagement(caller, id, kind);
        self.set_stat(id, likes, shares);
        self.credit(&owner, reward, reputation_gain_for(kind, true));
        self.credit(caller, user_reward_for(kind), reputation_gain_for(kind, false));
        self.update_vibe_stats(id, likes, shares);
        self.rebuild_leaderboard();
        match kind {
            Reaction::Like => Ok(likes),
            Reaction::Share => Ok(shares),
        }
    }

    /// The caller likes the item `vibe_id`, paying the item's creator and the
    /// caller; returns the item's like count. A repeated like returns the
    /// current count and changes nothing; an unknown id fails, changing
    /// nothing.
    pub fn like_vibe(&mut self, caller: &Identity, vibe_id: String) -> (r: Result<
        u64,
        PlatformError,
    >)
        requires
            old(self).wf(),
        ensures
            final(self).wf(),
            r == old(self)@.engage_result(caller@, vibe_id@, Reaction::Like),
            final(self)@ == old(self)@.after_engage(caller@, vibe_id@, Reaction::Like),
            old(self)@.has_engaged(caller@, vibe_id@, Reaction::Like) || !old(self)@.has_item(
                vibe_id@,
            ) ==> *final(self) == *old(self),
    {
        self.engage(caller, &vibe_id, Reaction::Like)
    }

    /// The caller shares the item `vibe_id`; as `like_vibe`, with the share
    /// rewards, returning the item's share count.
    pub fn share_vibe(&mut self, caller: &Identity, vibe_id: String) -> (r: Result<
        u64,
        PlatformError,
    >)
        requires
            old(self).wf(),
        ensures
            final(self).wf(),
            r == old(self)@.engage_result(caller@, vibe_id@, Reaction::Share),
            final(self)@ == old(self)@.after_engage(caller@, vibe_id@, Reaction::Share),
            old(self)@.has_engaged(caller@, vibe_id@, Reaction::Share) || !old(self)@.has_item(
                vibe_id@,
            ) ==> *final(self) == *old(self),
    {
        self.engage(caller, &vibe_id, Reaction::Share)
    }

    /// The caller burns `amount` tokens from its balance. Fails, changing
    /// nothing, when the balance is lower.
    pub fn stake_tokens(&mut self, caller: &Identity, amount: u64) -> (r: Result<(), PlatformError>)
        requires
            old(self).wf(),
        ensures
            final(self).wf(),
            r is Ok <==> old(self)@.balance_of(caller@) >= amount,
            r is Ok ==> final(self)@ == old(self)@.after_stake(caller@, amount),
            r matches Err(e) ==> e == PlatformError::InsufficientFunds && *final(self) == *old(self),
    {
        proof {
            lemma_steps_keep_inv(self@, caller@, 0, Seq::empty(), Seq::empty(), Reaction::Like, amount);
        }
        let (balance, reputation) = self.standing(caller);
        if balance < amount {
            return Err(PlatformError::InsufficientFunds);
        }
        self.set_account(caller, balance - amount, reputation);
        self.rebuild_leaderboard();
        Ok(())
    }

    /// Credits the caller `STAKING_REWARD` tokens and returns that amount.
    pub fn claim_staking_rewards(&mut self, caller: &Identity) -> (r: u64)
        requires
            old(self).wf(),
        ensures
            final(self).wf(),
            r == STAKING_REWARD,
            final(self)@ == old(self)@.after_claim(caller@),
    {
        proof {
            lemma_steps_keep_inv(self@, caller@, 0, Seq::empty(), Seq::empty(), Reaction::Like, 0);
        }
        let (balance, reputation) = self.standing(caller);
        self.set_account(caller, balance.saturating_add(STAKING_REWARD), reputation);
        self.rebuild_leaderboard();
        STAKING_REWARD
    }

    /// The caller's balance.
    pub fn get_my_balance(&self, caller: &Identity) -> (r: u64)
        ensures
            r == self@.balance_of(caller@),
    {
        self.standing(caller).0
    }

    /// The caller's reputation, in hundredths.
    pub fn get_my_reputation(&self, caller: &Identity) -> (r: u64)
        ensures
            r == self@.reputation_of(caller@),
    {
        self.standing(caller).1
    }

    /// The item's like and share counts; zeros for an unknown id.
    pub fn get_vibe_stats(&self, vibe_id: String) -> (r: (u64, u64))
        ensures
            r == (self@.likes_of(vibe_id@), self@.shares_of(vibe_id@)),
    {
        self.counts(&vibe_id)
    }

    /// The leaderboard, as recomputed after the last change.
    pub fn get_leaderboard(&self) -> (r: &Leaderboard)
        requires
            self.wf(),
        ensures
            r@ == self.board(),
            board_fresh(self@, r@),
            bounded_sorted(r@),
            rows_current(self@, r@),
    {
        // a Vec length fits in usize, which the law on rows needs of the stats
        let _stats_len: usize = self.stats.len();
        proof {
            assert(self@.stats.len() == self.stats@.len());
            law_leaderboard_bounded_sorted(self@, self.board());
            law_leaderboard_rows(self@, self.board());
        }
        &self.leaderboard
    }

    /// The items that `who` created (`keep` false), or all the others.
    fn select_vibes(&self, who: &Identity, keep: bool) -> (r: Vec<Vibe>)
        ensures
            r@.map_values(|v: Vibe| v@) == self@.items.filter(
                |it: ItemRec| (it.creator == who@) == keep,
            ),
    {
        let mut out: Vec<Vibe> = Vec::new();
        let mut i: usize = 0;
        while i < self.vibes.len()
            invariant
                i <= self.vibes@.len(),
                out@.map_values(|v: Vibe| v@) == self@.items.subrange(0, i as int).filter(
                    |it: ItemRec| (it.creator == who@) == keep,
                ),
            decreases self.vibes@.len() - i,
        {
            let ghost before = out@;
            proof {
                let all = self@.items;
                assert(all.subrange(0, i + 1) =~= all.subrange(0, i as int).push(all[i as int]));
                all.subrange(0, i as int).lemma_filter_push(
                    all[i as int],
                    |it: ItemRec| (it.creator == who@) == keep,
                );
            }
            if self.vibes[i].creator.same_as(who) == keep {
                out.push(self.vibes[i].duplicate());
                assert(out@.map_values(|v: Vibe| v@) =~= before.map_values(|v: Vibe| v@).push(
                    self@.items[i as int],
                ));
            }
            i = i + 1;
        }
        assert(self@.items.subrange(0, i as int) =~= self@.items);
        out
    }

    /// The engagements of one kind by everyone but `who`.
    fn engagements_without(&self, who: &Identity, kind: Reaction) -> (r: Vec<Engagement>)
        ensures
            r@.map_values(|e: Engagement| e@) == self@.engagements(kind).filter(
                |e: EngagementRec| e.who != who@,
            ),
    {
        let list = match kind {
            Reaction::Like => &self.liked,
            Reaction::Share => &self.shared,
        };
        let ghost all = self@.engagements(kind);
        assert(list@.map_values(|e: Engagement| e@) == all);
        let mut out: Vec<Engagement> = Vec::new();
        let mut i: usize = 0;
        while i < list.len()
            invariant
                i <= list@.len(),
                list@.map_values(|e: Engagement| e@) == all,
                out@.map_values(|e: Engagement| e@) == all.subrange(0, i as int).filter(
                    |e: EngagementRec| e.who != who@,
                ),
            decreases list@.len() - i,
        {
            let ghost before = out@;
            proof {
                assert(all.subrange(0, i + 1) =~= all.subrange(0, i as int).push(all[i as int]));
                all.subrange(0, i as int).lemma_filter_push(
                    all[i as int],
                    |e: EngagementRec| e.who != who@,
                );
            }
            if !list[i].who.same_as(who) {
                out.push(list[i].duplicate());
                assert(out@.map_values(|e: Engagement| e@) =~= before.map_values(
                    |e: Engagement| e@,
                ).push(all[i as int]));
            }
            i = i + 1;
        }
        assert(all.subrange(0, i as int) =~= all);
        out
    }

    /// The caller's items, in creation order.
    pub fn get_my_vibes(&self, caller: &Identity) -> (r: Vec<Vibe>)
        ensures
            r@.map_values(|v: Vibe| v@) == self@.items_of(caller@),
    {
        let r = self.select_vibes(caller, true);
        assert(self@.items.filter(|it: ItemRec| (it.creator == caller@) == true) =~= self@.items_of(
            caller@,
        )) by {
            assert((|it: ItemRec| (it.creator == caller@) == true) =~= (|it: ItemRec|
                it.creator == caller@));
        }
        r
    }

    /// The caller's items and like and share sets are removed, and its
    /// balance and reputation return to the defaults. Stats of its former
    /// items stay.
    pub fn reset_account(&mut self, caller: &Identity)
        requires
            old(self).wf(),
        ensures
            final(self).wf(),
            final(self)@ == old(self)@.after_reset(caller@),
    {
        proof {
            lemma_steps_keep_inv(self@, caller@, 0, Seq::empty(), Seq::empty(), Reaction::Like, 0);
        }
        let kept = self.select_vibes(caller, false);
        let liked = self.engagements_without(caller, Reaction::Like);
        let shared = self.engagements_without(caller, Reaction::Share);
        self.set_account(caller, INITIAL_BALANCE, NEUTRAL_REPUTATION);
        self.vibes = kept;
        self.liked = liked;
        self.shared = shared;
        assert((|it: ItemRec| (it.creator == caller@) == false) =~= (|it: ItemRec|
            it.creator != caller@));
        assert(self@.items =~= old(self)@.after_reset(caller@).items);
        self.rebuild_leaderboard();
    }
}

impl Default for State {
    fn default() -> (r: State)
        ensures
            r@ == PlatformModel::empty(),
            r.wf(),
    {
        State::new()
    }
}

/// Nanoseconds since the epoch, as whole seconds since the epoch.
pub fn timestamp_seconds(nanos: u64) -> (r: u64)
    ensures
        r == nanos / 1_000_000_000,
{
    nanos / 1_000_000_000
}

/// Relies on `ToString` for `u64`, which writes the number in decimal.
#[verifier::external_body]
fn decimal_text(n: u64) -> (r: String)
    ensures
        r@ == decimal(n as nat),
{
    n.to_string()
}

} // verus!
