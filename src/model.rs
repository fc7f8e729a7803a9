//! The platform's state as a mathematical value, and each operation as a
//! transition on it.
use vstd::prelude::*;
use crate::identity::principal_text;
use crate::rewards::{
    creator_reward, reputation_gain, sat_add, user_reward, Reaction, INITIAL_BALANCE,
    MINT_COST, MINT_REPUTATION, NEUTRAL_REPUTATION, STAKING_REWARD,
};

verus! {

/// Why an operation was refused.
#[derive(Clone, Copy, Debug, PartialEq, Eq, Structural)]
pub enum PlatformError {
    /// The caller's balance is below what the operation costs.
    InsufficientFunds,
    /// No item has the given id.
    ItemNotFound,
}

/// A ledger entry: an identity's balance and reputation (in hundredths).
pub struct AccountRec {
    pub owner: Seq<u8>,
    pub balance: u64,
    pub reputation: u64,
}

/// A content item.
pub struct ItemRec {
    pub id: Seq<char>,
    pub content: Seq<char>,
    pub timestamp: u64,
    pub likes: u64,
    pub shares: u64,
    pub creator: Seq<u8>,
}

/// The engagement counts of one item id.
pub struct StatRec {
    pub id: Seq<char>,
    pub likes: u64,
    pub shares: u64,
}

/// One identity's like or share of one item id.
pub struct EngagementRec {
    pub who: Seq<u8>,
    pub item: Seq<char>,
}

/// The whole platform state. Lookups go by the first matching entry.
pub struct PlatformModel {
    pub accounts: Seq<AccountRec>,
    pub items: Seq<ItemRec>,
    pub stats: Seq<StatRec>,
    pub liked: Seq<EngagementRec>,
    pub shared: Seq<EngagementRec>,
}

/// The character of the decimal digit `d`.
pub open spec fn digit(d: nat) -> char {
    seq!['0', '1', '2', '3', '4', '5', '6', '7', '8', '9'][d as int]
}

/// The decimal digits of `n`.
pub open spec fn decimal(n: nat) -> Seq<char>
    decreases n,
{
    if n < 10 {
        seq![digit(n)]
    } else {
        decimal(n / 10).push(digit(n % 10))
    }
}

/// `id` ends in a dash and the decimal form of a serial number below `bound`.
pub open spec fn tagged(id: Seq<char>, bound: nat) -> bool {
    exists|x: Seq<char>, serial: nat| serial < bound && id == x + seq!['-'] + decimal(serial)
}

/// The id of the item minted by `creator` at second `now` as the platform's
/// mint number `serial` (counting from zero).
pub open spec fn item_id(creator: Seq<u8>, now: u64, serial: nat) -> Seq<char> {
    principal_text(creator) + seq!['-'] + decimal(now as nat) + seq!['-'] + decimal(serial)
}

/// `i` is the first ledger entry of `who`.
pub open spec fn account_pos_in(accounts: Seq<AccountRec>, who: Seq<u8>, i: int) -> bool {
    &&& 0 <= i < accounts.len()
    &&& accounts[i].owner == who
    &&& forall|j: int| 0 <= j < i ==> accounts[j].owner != who
}

pub open spec fn has_account_in(accounts: Seq<AccountRec>, who: Seq<u8>) -> bool {
    exists|i: int| account_pos_in(accounts, who, i)
}

pub open spec fn account_pos_of(accounts: Seq<AccountRec>, who: Seq<u8>) -> int {
    choose|i: int| account_pos_in(accounts, who, i)
}

pub open spec fn balance_in(accounts: Seq<AccountRec>, who: Seq<u8>) -> u64 {
    if has_account_in(accounts, who) {
        accounts[account_pos_of(accounts, who)].balance
    } else {
        INITIAL_BALANCE
    }
}

pub open spec fn reputation_in(accounts: Seq<AccountRec>, who: Seq<u8>) -> u64 {
    if has_account_in(accounts, who) {
        accounts[account_pos_of(accounts, who)].reputation
    } else {
        NEUTRAL_REPUTATION
    }
}

/// `i` is the first stats entry of the item id.
pub open spec fn stat_pos_in(stats: Seq<StatRec>, id: Seq<char>, i: int) -> bool {
    &&& 0 <= i < stats.len()
    &&& stats[i].id == id
    &&& forall|j: int| 0 <= j < i ==> stats[j].id != id
}

pub open spec fn has_stat_in(stats: Seq<StatRec>, id: Seq<char>) -> bool {
    exists|i: int| stat_pos_in(stats, id, i)
}

pub open spec fn stat_pos_of(stats: Seq<StatRec>, id: Seq<char>) -> int {
    choose|i: int| stat_pos_in(stats, id, i)
}

pub open spec fn likes_in(stats: Seq<StatRec>, id: Seq<char>) -> u64 {
    if has_stat_in(stats, id) {
        stats[stat_pos_of(stats, id)].likes
    } else {
        0
    }
}

pub open spec fn shares_in(stats: Seq<StatRec>, id: Seq<char>) -> u64 {
    if has_stat_in(stats, id) {
        stats[stat_pos_of(stats, id)].shares
    } else {
        0
    }
}

impl PlatformModel {
    /// The state in which nothing has happened yet.
    pub open spec fn empty() -> PlatformModel {
        PlatformModel {
            accounts: Seq::empty(),
            items: Seq::empty(),
            stats: Seq::empty(),
            liked: Seq::empty(),
            shared: Seq::empty(),
        }
    }

    // ----- ledger -----
    pub open spec fn is_account_pos(self, who: Seq<u8>, i: int) -> bool {
        account_pos_in(self.accounts, who, i)
    }

    pub open spec fn has_account(self, who: Seq<u8>) -> bool {
        has_account_in(self.accounts, who)
    }

    pub open spec fn account_pos(self, who: Seq<u8>) -> int {
        account_pos_of(self.accounts, who)
    }

    /// The identity's balance; untouched identities hold the initial balance.
    pub open spec fn balance_of(self, who: Seq<u8>) -> u64 {
        balance_in(self.accounts, who)
    }

    /// The identity's reputation in hundredths; untouched identities hold 1.00.
    pub open spec fn reputation_of(self, who: Seq<u8>) -> u64 {
        reputation_in(self.accounts, who)
    }

    /// Sets the identity's ledger entry, creating it at the end if absent.
    pub open spec fn with_account(self, who: Seq<u8>, balance: u64, reputation: u64) -> Self {
        let rec = AccountRec { owner: who, balance, reputation };
        PlatformModel {
            accounts: if self.has_account(who) {
                self.accounts.update(self.account_pos(who), rec)
            } else {
                self.accounts.push(rec)
            },
            ..self
        }
    }

    /// Adds `amount` tokens and `gain` reputation to the identity, saturating.
    pub open spec fn credit(self, who: Seq<u8>, amount: u64, gain: u64) -> Self {
        self.with_account(
            who,
            sat_add(self.balance_of(who), amount),
            sat_add(self.reputation_of(who), gain),
        )
    }

    // ----- interaction stats -----
    pub open spec fn is_stat_pos(self, id: Seq<char>, i: int) -> bool {
        stat_pos_in(self.stats, id, i)
    }

    pub open spec fn has_stat(self, id: Seq<char>) -> bool {
        has_stat_in(self.stats, id)
    }

    pub open spec fn stat_pos(self, id: Seq<char>) -> int {
        stat_pos_of(self.stats, id)
    }

    /// The item's like count; zero when unknown.
    pub open spec fn likes_of(self, id: Seq<char>) -> u64 {
        likes_in(self.stats, id)
    }

    /// The item's share count; zero when unknown.
    pub open spec fn shares_of(self, id: Seq<char>) -> u64 {
        shares_in(self.stats, id)
    }

    /// The count of the given kind of engagement on the item.
    pub open spec fn count_of(self, id: Seq<char>, kind: Reaction) -> u64 {
        match kind {
            Reaction::Like => self.likes_of(id),
            Reaction::Share => self.shares_of(id),
        }
    }

    /// Sets the item's counts, creating its entry at the end if absent.
    pub open spec fn with_stat(self, id: Seq<char>, likes: u64, shares: u64) -> Self {
        let rec = StatRec { id, likes, shares };
        PlatformModel {
            stats: if self.has_stat(id) {
                self.stats.update(self.stat_pos(id), rec)
            } else {
                self.stats.push(rec)
            },
            ..self
        }
    }

    // ----- content -----
    pub open spec fn is_item_pos(self, id: Seq<char>, i: int) -> bool {
        &&& 0 <= i < self.items.len()
        &&& self.items[i].id == id
        &&& forall|j: int| 0 <= j < i ==> self.items[j].id != id
    }

    pub open spec fn has_item(self, id: Seq<char>) -> bool {
        exists|i: int| self.is_item_pos(id, i)
    }

    pub open spec fn item_pos(self, id: Seq<char>) -> int {
        choose|i: int| self.is_item_pos(id, i)
    }

    /// The creator of the item with this id.
    pub open spec fn owner_of(self, id: Seq<char>) -> Seq<u8> {
        self.items[self.item_pos(id)].creator
    }

    /// Mirrors counts onto the item record with this id, if there is one.
    pub open spec fn with_item_counts(self, id: Seq<char>, likes: u64, shares: u64) -> Self {
        if self.has_item(id) {
            let it = self.items[self.item_pos(id)];
            PlatformModel {
                items: self.items.update(self.item_pos(id), ItemRec { likes, shares, ..it }),
                ..self
            }
        } else {
            self
        }
    }

    /// The items the identity created, in creation order.
    pub open spec fn items_of(self, who: Seq<u8>) -> Seq<ItemRec> {
        self.items.filter(|it: ItemRec| it.creator == who)
    }

    // ----- engagement sets -----
    pub open spec fn engagements(self, kind: Reaction) -> Seq<EngagementRec> {
        match kind {
            Reaction::Like => self.liked,
            Reaction::Share => self.shared,
        }
    }

    /// Whether the identity already liked (or shared) the item.
    pub open spec fn has_engaged(self, who: Seq<u8>, id: Seq<char>, kind: Reaction) -> bool {
        exists|i: int|
            0 <= i < self.engagements(kind).len() && #[trigger] self.engagements(kind)[i]
                == (EngagementRec { who, item: id })
    }

    pub open spec fn with_engagement(self, who: Seq<u8>, id: Seq<char>, kind: Reaction) -> Self {
        let e = EngagementRec { who, item: id };
        match kind {
            Reaction::Like => PlatformModel { liked: self.liked.push(e), ..self },
            Reaction::Share => PlatformModel { shared: self.shared.push(e), ..self },
        }
    }

    // ----- operations -----
    /// Whether the identity can pay for a mint.
    pub open spec fn can_mint(self, who: Seq<u8>) -> bool {
        self.balance_of(who) >= MINT_COST
    }

    /// The state after a successful mint.
    /// The id the next mint by `who` at second `now` gets: every mint adds
    /// one stats entry and none is ever removed, so the count of stats
    /// entries numbers the mints.
    pub open spec fn next_id(self, who: Seq<u8>, now: u64) -> Seq<char> {
        item_id(who, now, self.stats.len())
    }

    /// Every item id and every stats id is tagged with a serial below the
    /// number of stats entries.
    pub open spec fn ids_tagged(self) -> bool {
        &&& forall|i: int| 0 <= i < self.items.len() ==> #[trigger] tagged(self.items[i].id, self.stats.len())
        &&& forall|i: int| 0 <= i < self.stats.len() ==> #[trigger] tagged(self.stats[i].id, self.stats.len())
    }

    pub open spec fn after_mint(self, who: Seq<u8>, now: u64, content: Seq<char>) -> Self {
        let id = self.next_id(who, now);
        let item = ItemRec { id, content, timestamp: now, likes: 0, shares: 0, creator: who };
        let paid = self.with_account(
            who,
            (self.balance_of(who) - MINT_COST) as u64,
            sat_add(self.reputation_of(who), MINT_REPUTATION),
        );
        PlatformModel { items: paid.items.push(item), ..paid }.with_stat(id, 0, 0)
    }

    /// The result of a like or share.
    pub open spec fn engage_result(self, who: Seq<u8>, id: Seq<char>, kind: Reaction) -> Result<
        u64,
        PlatformError,
    > {
        if self.has_engaged(who, id, kind) {
            Ok(self.count_of(id, kind))
        } else if !self.has_item(id) {
            Err(PlatformError::ItemNotFound)
        } else {
            Ok(sat_add(self.count_of(id, kind), 1))
        }
    }

    /// The state after a like or share: unchanged when it was already
    /// recorded or the item is unknown.
    pub open spec fn after_engage(self, who: Seq<u8>, id: Seq<char>, kind: Reaction) -> Self {
        if self.has_engaged(who, id, kind) || !self.has_item(id) {
            self
        } else {
            let owner = self.owner_of(id);
            let reward = creator_reward(kind, self.reputation_of(owner));
            let likes = if kind == Reaction::Like {
                sat_add(self.likes_of(id), 1)
            } else {
                self.likes_of(id)
            };
            let shares = if kind == Reaction::Share {
                sat_add(self.shares_of(id), 1)
            } else {
                self.shares_of(id)
            };
            self.with_engagement(who, id, kind).with_stat(id, likes, shares).credit(
                owner,
                reward,
                reputation_gain(kind, true),
            ).credit(who, user_reward(kind), reputation_gain(kind, false)).with_item_counts(
                id,
                likes,
                shares,
            )
        }
    }

    /// The state after the identity resets its account: its items and
    /// engagement sets go, its ledger entry returns to the defaults.
    pub open spec fn after_reset(self, who: Seq<u8>) -> Self {
        let fresh = self.with_account(who, INITIAL_BALANCE, NEUTRAL_REPUTATION);
        PlatformModel {
            items: self.items.filter(|it: ItemRec| it.creator != who),
            liked: self.liked.filter(|e: EngagementRec| e.who != who),
            shared: self.shared.filter(|e: EngagementRec| e.who != who),
            ..fresh
        }
    }

    /// The state after the identity stakes `amount`, which it can afford.
    pub open spec fn after_stake(self, who: Seq<u8>, amount: u64) -> Self {
        self.with_account(who, (self.balance_of(who) - amount) as u64, self.reputation_of(who))
    }

    /// The state after the identity claims the staking reward.
    pub open spec fn after_claim(self, who: Seq<u8>) -> Self {
        self.with_account(
            who,
            sat_add(self.balance_of(who), STAKING_REWARD),
            self.reputation_of(who),
        )
    }
}

/// The first entry of an identity is where the ledger lookup lands.
pub proof fn lemma_account_pos(m: PlatformModel, who: Seq<u8>, i: int)
    requires
        m.is_account_pos(who, i),
    ensures
        m.has_account(who),
        m.account_pos(who) == i,
{
    let j = m.account_pos(who);
    assert(m.is_account_pos(who, j));
    if j < i {
        assert(m.accounts[j].owner != who);
    } else if j > i {
        assert(m.accounts[i].owner != who);
    }
}


/// The first entry of an item id is where the stats lookup lands.
pub proof fn lemma_stat_pos(m: PlatformModel, id: Seq<char>, i: int)
    requires
        m.is_stat_pos(id, i),
    ensures
        m.has_stat(id),
        m.stat_pos(id) == i,
{
    let j = m.stat_pos(id);
    assert(m.is_stat_pos(id, j));
    if j < i {
        assert(m.stats[j].id != id);
    } else if j > i {
        assert(m.stats[i].id != id);
    }
}

/// The first item with an id is where the item lookup lands.
pub proof fn lemma_item_pos(m: PlatformModel, id: Seq<char>, i: int)
    requires
        m.is_item_pos(id, i),
    ensures
        m.has_item(id),
        m.item_pos(id) == i,
{
    let j = m.item_pos(id);
    assert(m.is_item_pos(id, j));
    if j < i {
        assert(m.items[j].id != id);
    } else if j > i {
        assert(m.items[i].id != id);
    }
}

/// No decimal digit string holds a dash.
pub proof fn lemma_decimal_digits(n: nat)
    ensures
        decimal(n).len() >= 1,
        n >= 10 ==> decimal(n).len() >= 2,
        forall|i: int| 0 <= i < decimal(n).len() ==> decimal(n)[i] != '-',
    decreases n,
{
    if n >= 10 {
        lemma_decimal_digits(n / 10);
        assert forall|i: int| 0 <= i < decimal(n).len() implies decimal(n)[i] != '-' by {
            if i < decimal(n / 10).len() {
                assert(decimal(n)[i] == decimal(n / 10)[i]);
            }
        }
    }
}

/// Distinct digits are distinct characters.
proof fn lemma_digit_injective(a: nat, b: nat)
    requires
        a < 10,
        b < 10,
        digit(a) == digit(b),
    ensures
        a == b,
{
    let d = seq!['0', '1', '2', '3', '4', '5', '6', '7', '8', '9'];
    assert(d[0] == '0' && d[1] == '1' && d[2] == '2' && d[3] == '3' && d[4] == '4');
    assert(d[5] == '5' && d[6] == '6' && d[7] == '7' && d[8] == '8' && d[9] == '9');
}

/// Distinct numbers have distinct decimal forms.
pub proof fn lemma_decimal_injective(a: nat, b: nat)
    requires
        decimal(a) == decimal(b),
    ensures
        a == b,
    decreases a,
{
    lemma_decimal_digits(a);
    lemma_decimal_digits(b);
    if a >= 10 && b >= 10 {
        assert(decimal(a / 10) == decimal(a).drop_last());
        assert(decimal(b / 10) == decimal(b).drop_last());
        lemma_decimal_injective(a / 10, b / 10);
        assert(decimal(a).last() == digit(a % 10));
        assert(decimal(b).last() == digit(b % 10));
        lemma_digit_injective(a % 10, b % 10);
    } else if a < 10 && b < 10 {
        assert(decimal(a)[0] == digit(a));
        assert(decimal(b)[0] == digit(b));
        lemma_digit_injective(a, b);
    }
}

/// The serial after the last dash of a tagged id is determined by the id.
pub proof fn lemma_tag_unique(x: Seq<char>, a: nat, y: Seq<char>, b: nat)
    requires
        x + seq!['-'] + decimal(a) == y + seq!['-'] + decimal(b),
    ensures
        a == b,
{
    let l = x + seq!['-'] + decimal(a);
    let r = y + seq!['-'] + decimal(b);
    let da = decimal(a);
    let db = decimal(b);
    lemma_decimal_digits(a);
    lemma_decimal_digits(b);
    let n = l.len() as int;
    if da.len() < db.len() {
        let p = n - da.len() - 1;
        assert(l[p] == '-');
        assert(r[p] == db[db.len() - da.len() - 1]);
    } else if db.len() < da.len() {
        let p = n - db.len() - 1;
        assert(r[p] == '-');
        assert(l[p] == da[da.len() - db.len() - 1]);
    } else {
        assert(da =~= l.subrange(n - da.len(), n));
        assert(db =~= r.subrange(n - db.len(), n));
        lemma_decimal_injective(a, b);
    }
}

/// An id tagged with `serial` is not tagged with a smaller one.
pub proof fn lemma_fresh_tag(x: Seq<char>, serial: nat)
    ensures
        !tagged(x + seq!['-'] + decimal(serial), serial),
{
    if tagged(x + seq!['-'] + decimal(serial), serial) {
        let (y, t) = choose|y: Seq<char>, t: nat|
            t < serial && x + seq!['-'] + decimal(serial) == y + seq!['-'] + decimal(t);
        lemma_tag_unique(x, serial, y, t);
    }
}

/// A tag below one bound is below every larger bound.
pub proof fn lemma_tagged_grow(id: Seq<char>, a: nat, b: nat)
    requires
        tagged(id, a),
        a <= b,
    ensures
        tagged(id, b),
{
    let (x, t) = choose|x: Seq<char>, t: nat| t < a && id == x + seq!['-'] + decimal(t);
    assert(t < b && id == x + seq!['-'] + decimal(t));
}

/// The next mint's id is held by no item and no stats entry.
pub proof fn lemma_next_id_fresh(m: PlatformModel, who: Seq<u8>, now: u64)
    requires
        m.ids_tagged(),
    ensures
        !m.has_item(m.next_id(who, now)),
        !m.has_stat(m.next_id(who, now)),
{
    let x = principal_text(who) + seq!['-'] + decimal(now as nat);
    let id = m.next_id(who, now);
    assert(id == x + seq!['-'] + decimal(m.stats.len()));
    lemma_fresh_tag(x, m.stats.len());
    if m.has_item(id) {
        let i = choose|i: int| m.is_item_pos(id, i);
        assert(tagged(m.items[i].id, m.stats.len()));
    }
    if m.has_stat(id) {
        let i = choose|i: int| m.is_stat_pos(id, i);
        assert(tagged(m.stats[i].id, m.stats.len()));
    }
}

/// Setting the counts of a tagged id keeps every id tagged.
pub proof fn lemma_with_stat_tags(m: PlatformModel, id: Seq<char>, likes: u64, shares: u64)
    requires
        m.ids_tagged(),
        tagged(id, m.stats.len()),
    ensures
        m.with_stat(id, likes, shares).ids_tagged(),
        m.with_stat(id, likes, shares).stats.len() >= m.stats.len(),
{
    let n = m.with_stat(id, likes, shares);
    if m.has_stat(id) {
        let p = m.stat_pos(id);
        assert(m.is_stat_pos(id, p));
        assert forall|i: int| 0 <= i < n.stats.len() implies #[trigger] tagged(n.stats[i].id, n.stats.len()) by {
            if i != p {
                assert(tagged(m.stats[i].id, m.stats.len()));
            }
        }
    } else {
        assert forall|i: int| 0 <= i < n.stats.len() implies #[trigger] tagged(n.stats[i].id, n.stats.len()) by {
            if i < m.stats.len() {
                assert(tagged(m.stats[i].id, m.stats.len()));
            }
            lemma_tagged_grow(n.stats[i].id, m.stats.len(), n.stats.len());
        }
        assert forall|i: int| 0 <= i < n.items.len() implies #[trigger] tagged(n.items[i].id, n.stats.len()) by {
            assert(tagged(m.items[i].id, m.stats.len()));
            lemma_tagged_grow(n.items[i].id, m.stats.len(), n.stats.len());
        }
    }
}

/// Every operation keeps every id tagged.
pub proof fn lemma_steps_keep_tags(
    m: PlatformModel,
    who: Seq<u8>,
    now: u64,
    content: Seq<char>,
    id: Seq<char>,
    kind: Reaction,
    amount: u64,
)
    requires
        m.ids_tagged(),
    ensures
        m.can_mint(who) ==> m.after_mint(who, now, content).ids_tagged(),
        m.after_engage(who, id, kind).ids_tagged(),
        m.after_reset(who).ids_tagged(),
        m.balance_of(who) >= amount ==> m.after_stake(who, amount).ids_tagged(),
        m.after_claim(who).ids_tagged(),
{
    // mint
    let nid = m.next_id(who, now);
    let x = principal_text(who) + seq!['-'] + decimal(now as nat);
    assert(nid == x + seq!['-'] + decimal(m.stats.len()));
    let paid = m.with_account(who, (m.balance_of(who) - MINT_COST) as u64, sat_add(m.reputation_of(who), MINT_REPUTATION));
    let item = ItemRec { id: nid, content, timestamp: now, likes: 0, shares: 0, creator: who };
    let pushed = PlatformModel { items: paid.items.push(item), ..paid };
    assert(tagged(nid, (m.stats.len() + 1) as nat));
    lemma_next_id_fresh(m, who, now);
    assert forall|i: int| 0 <= i < pushed.items.len() implies #[trigger] tagged(pushed.items[i].id, pushed.stats.len() + 1) by {
        if i < m.items.len() {
            assert(tagged(m.items[i].id, m.stats.len()));
            lemma_tagged_grow(m.items[i].id, m.stats.len(), (m.stats.len() + 1) as nat);
        }
    }
    assert(!pushed.has_stat(nid));
    let minted = pushed.with_stat(nid, 0, 0);
    assert(minted.stats == pushed.stats.push(StatRec { id: nid, likes: 0, shares: 0 }));
    assert forall|i: int| 0 <= i < minted.stats.len() implies #[trigger] tagged(minted.stats[i].id, minted.stats.len()) by {
        if i < m.stats.len() {
            assert(tagged(m.stats[i].id, m.stats.len()));
            lemma_tagged_grow(m.stats[i].id, m.stats.len(), minted.stats.len());
        }
    }
    assert(minted.items == pushed.items);
    // engage
    if !m.has_engaged(who, id, kind) && m.has_item(id) {
        let p = m.item_pos(id);
        assert(m.is_item_pos(id, p));
        assert(tagged(m.items[p].id, m.stats.len()));
        let e = m.with_engagement(who, id, kind);
        let likes = if kind == Reaction::Like { sat_add(m.likes_of(id), 1) } else { m.likes_of(id) };
        let shares = if kind == Reaction::Share { sat_add(m.shares_of(id), 1) } else { m.shares_of(id) };
        lemma_with_stat_tags(e, id, likes, shares);
        let n = m.after_engage(who, id, kind);
        let st = e.with_stat(id, likes, shares);
        assert(n.stats == st.stats);
        assert forall|i: int| 0 <= i < n.items.len() implies #[trigger] tagged(n.items[i].id, n.stats.len()) by {
            assert(n.items[i].id == st.items[i].id);
            assert(tagged(st.items[i].id, st.stats.len()));
        }
    }
    // reset
    let r = m.after_reset(who);
    assert forall|i: int| 0 <= i < r.items.len() implies #[trigger] tagged(r.items[i].id, r.stats.len()) by {
        let f = |it: ItemRec| it.creator != who;
        assert(m.items.filter(f).contains(r.items[i]));
        m.items.lemma_filter_contains_rev(f, r.items[i]);
        let j = choose|j: int| 0 <= j < m.items.len() && m.items[j] == r.items[i];
        assert(tagged(m.items[j].id, m.stats.len()));
    }
}

/// An identity's first ledger entry is found wherever any of its entries is.
pub proof fn lemma_account_found(m: PlatformModel, who: Seq<u8>, j: int)
    requires
        0 <= j < m.accounts.len(),
        m.accounts[j].owner == who,
    ensures
        m.has_account(who),
    decreases j,
{
    if exists|k: int| 0 <= k < j && m.accounts[k].owner == who {
        let k = choose|k: int| 0 <= k < j && m.accounts[k].owner == who;
        lemma_account_found(m, who, k);
    } else {
        assert(m.is_account_pos(who, j));
    }
}

/// An item id's first stats entry is found wherever any of its entries is.
pub proof fn lemma_stat_found(m: PlatformModel, id: Seq<char>, j: int)
    requires
        0 <= j < m.stats.len(),
        m.stats[j].id == id,
    ensures
        m.has_stat(id),
    decreases j,
{
    if exists|k: int| 0 <= k < j && m.stats[k].id == id {
        let k = choose|k: int| 0 <= k < j && m.stats[k].id == id;
        lemma_stat_found(m, id, k);
    } else {
        assert(m.is_stat_pos(id, j));
    }
}

/// An item id's first item is found wherever any item with the id is.
pub proof fn lemma_item_found(m: PlatformModel, id: Seq<char>, j: int)
    requires
        0 <= j < m.items.len(),
        m.items[j].id == id,
    ensures
        m.has_item(id),
    decreases j,
{
    if exists|k: int| 0 <= k < j && m.items[k].id == id {
        let k = choose|k: int| 0 <= k < j && m.items[k].id == id;
        lemma_item_found(m, id, k);
    } else {
        assert(m.is_item_pos(id, j));
    }
}

} // verus!
