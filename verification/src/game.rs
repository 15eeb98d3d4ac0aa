//! The part of the game board that envelopes of the mining game act on:
//! entities, token ledgers, and coin lockups that release themselves at a
//! set time.

use vstd::prelude::*;
use vstd::string::*;

verus! {

/// The identity of anything on the board that can own something.
#[derive(Clone, Copy, Debug, PartialEq, Eq, Structural)]
pub struct EntityID(pub u128);

/// A reference to a non-fungible token.
#[derive(Clone, Copy, Debug, PartialEq, Eq, Structural)]
pub struct NftPtr(pub EntityID);

/// A reference to a token ledger of the board, by position.
#[derive(Clone, Copy, Debug, PartialEq, Eq, Structural)]
pub struct TokenPointer(pub usize);

/// An amount of a token.
pub type Price = u128;

/// What every non-fungible token has.
#[derive(Clone, Copy, Debug, PartialEq, Eq, Structural)]
pub struct BaseNFT {
    pub owner: EntityID,
    pub nft_id: EntityID,
    /// How often the token has changed hands; at the maximum it cannot
    /// change hands any more.
    pub transfer_count: u128,
}

/// A transfer was refused.
#[derive(Clone, Copy, Debug, PartialEq, Eq, Structural)]
pub enum TransferError {
    /// The sender holds less than the amount.
    InsufficientFunds,
    /// The receiver's balance would exceed what a balance can hold.
    Overflow,
}

/// One account of a ledger.
#[derive(Clone, Copy, Debug, PartialEq, Eq, Structural)]
pub struct Account {
    pub owner: EntityID,
    pub balance: u128,
}

/// The ledger of one token: who holds how much.
pub struct TokenBase {
    accounts: Vec<Account>,
    in_transaction: bool,
}

/// The balance of `owner` among `accounts`: that of the first account
/// under its name, or nothing.
pub open spec fn balance_in(accounts: Seq<Account>, owner: EntityID) -> u128
    decreases accounts.len(),
{
    if accounts.len() == 0 {
        0
    } else if accounts[0].owner == owner {
        accounts[0].balance
    } else {
        balance_in(accounts.drop_first(), owner)
    }
}

/// The accounts hold no owner twice.
pub open spec fn owners_distinct(accounts: Seq<Account>) -> bool {
    forall|i: int, j: int|
        0 <= i < j < accounts.len() ==> (#[trigger] accounts[i]).owner != (
        #[trigger] accounts[j]).owner
}

proof fn lemma_balance_at(accounts: Seq<Account>, k: int)
    requires
        owners_distinct(accounts),
        0 <= k < accounts.len(),
    ensures
        balance_in(accounts, accounts[k].owner) == accounts[k].balance,
    decreases accounts.len(),
{
    if k > 0 {
        let rest = accounts.drop_first();
        lemma_balance_at(rest, k - 1);
    }
}

proof fn lemma_balance_absent(accounts: Seq<Account>, owner: EntityID)
    requires
        forall|k: int| 0 <= k < accounts.len() ==> (#[trigger] accounts[k]).owner != owner,
    ensures
        balance_in(accounts, owner) == 0,
    decreases accounts.len(),
{
    if accounts.len() > 0 {
        let rest = accounts.drop_first();
        assert forall|k: int| 0 <= k < rest.len() implies (#[trigger] rest[k]).owner != owner by {}
        lemma_balance_absent(rest, owner);
    }
}

proof fn lemma_balance_after_update(accounts: Seq<Account>, k: int, balance: u128, who: EntityID)
    requires
        owners_distinct(accounts),
        0 <= k < accounts.len(),
    ensures
        owners_distinct(accounts.update(k, Account { owner: accounts[k].owner, balance })),
        balance_in(accounts.update(k, Account { owner: accounts[k].owner, balance }), who) == if who
            == accounts[k].owner {
            balance
        } else {
            balance_in(accounts, who)
        },
    decreases accounts.len(),
{
    let updated = accounts.update(k, Account { owner: accounts[k].owner, balance });
    if who == accounts[k].owner {
        lemma_balance_at(updated, k);
    } else if k == 0 {
        assert(updated.drop_first() =~= accounts.drop_first());
    } else {
        let rest = accounts.drop_first();
        lemma_balance_after_update(rest, k - 1, balance, who);
        assert(updated.drop_first() =~= rest.update(
            k - 1,
            Account { owner: rest[k - 1].owner, balance },
        ));
    }
}

proof fn lemma_balance_after_push(accounts: Seq<Account>, account: Account, who: EntityID)
    requires
        owners_distinct(accounts),
        forall|k: int| 0 <= k < accounts.len() ==> (#[trigger] accounts[k]).owner != account.owner,
    ensures
        owners_distinct(accounts.push(account)),
        balance_in(accounts.push(account), who) == if who == account.owner {
            account.balance
        } else {
            balance_in(accounts, who)
        },
{
    let pushed = accounts.push(account);
    if who == account.owner {
        lemma_balance_at(pushed, accounts.len() as int);
    } else {
        lemma_balance_push_other(accounts, account, who);
    }
}

proof fn lemma_balance_push_other(accounts: Seq<Account>, account: Account, who: EntityID)
    requires
        who != account.owner,
    ensures
        balance_in(accounts.push(account), who) == balance_in(accounts, who),
    decreases accounts.len(),
{
    let pushed = accounts.push(account);
    if accounts.len() == 0 {
        assert(pushed.drop_first() =~= Seq::<Account>::empty());
        assert(balance_in(Seq::<Account>::empty(), who) == 0);
    } else {
        assert(pushed.drop_first() =~= accounts.drop_first().push(account));
        if accounts[0].owner != who {
            lemma_balance_push_other(accounts.drop_first(), account, who);
        }
    }
}

impl TokenBase {
    /// How much `owner` holds.
    pub closed spec fn balance(&self, owner: EntityID) -> u128 {
        balance_in(self.accounts@, owner)
    }

    /// Whether a group of transfers is open.
    pub closed spec fn open(&self) -> bool {
        self.in_transaction
    }

    /// No owner has two accounts.
    pub closed spec fn wf(&self) -> bool {
        owners_distinct(self.accounts@)
    }

    /// A ledger on which nobody holds anything.
    pub fn new() -> (ledger: TokenBase)
        ensures
            ledger.wf(),
            !ledger.open(),
            forall|who: EntityID| ledger.balance(who) == 0,
    {
        TokenBase { accounts: Vec::new(), in_transaction: false }
    }

    /// Opens a group of transfers.
    pub fn transaction(&mut self)
        requires
            old(self).wf(),
        ensures
            final(self).wf(),
            final(self).open(),
            forall|who: EntityID| final(self).balance(who) == old(self).balance(who),
    {
        self.in_transaction = true;
    }

    /// Closes a group of transfers.
    pub fn end_transaction(&mut self)
        requires
            old(self).wf(),
        ensures
            final(self).wf(),
            !final(self).open(),
            forall|who: EntityID| final(self).balance(who) == old(self).balance(who),
    {
        self.in_transaction = false;
    }

    fn find(&self, owner: &EntityID) -> (r: Option<usize>)
        requires
            self.wf(),
        ensures
            match r {
                Some(k) => k < self.accounts@.len() && self.accounts@[k as int].owner == *owner
                    && self.accounts@[k as int].balance == self.balance(*owner),
                None => self.balance(*owner) == 0 && forall|k: int|
                    0 <= k < self.accounts@.len() ==> (#[trigger] self.accounts@[k]).owner
                        != *owner,
            },
    {
        let n = self.accounts.len();
        let mut k: usize = 0;
        while k < n
            invariant
                0 <= k <= n,
                n == self.accounts@.len(),
                self.wf(),
                forall|j: int| 0 <= j < k ==> (#[trigger] self.accounts@[j]).owner != *owner,
            decreases n - k,
        {
            if self.accounts[k].owner == *owner {
                proof {
                    lemma_balance_at(self.accounts@, k as int);
                }
                return Some(k);
            }
            k += 1;
        }
        proof {
            lemma_balance_absent(self.accounts@, *owner);
        }
        None
    }

    /// How much `owner` holds.
    pub fn balance_check(&self, owner: &EntityID) -> (amount: u128)
        requires
            self.wf(),
        ensures
            amount == self.balance(*owner),
    {
        match self.find(owner) {
            Some(k) => self.accounts[k].balance,
            None => 0,
        }
    }

    /// Creates `amount` on the account of `owner`. Refused where the
    /// balance could not hold it.
    pub fn mint(&mut self, owner: &EntityID, amount: Price) -> (r: Result<(), TransferError>)
        requires
            old(self).wf(),
        ensures
            final(self).wf(),
            final(self).open() == old(self).open(),
            match r {
                Ok(()) => {
                    &&& old(self).balance(*owner) + amount <= u128::MAX
                    &&& forall|who: EntityID|
                        final(self).balance(who) == if who == *owner {
                            (old(self).balance(who) + amount) as u128
                        } else {
                            old(self).balance(who)
                        }
                },
                Err(e) => {
                    &&& e == TransferError::Overflow
                    &&& old(self).balance(*owner) + amount > u128::MAX
                    &&& forall|who: EntityID| final(self).balance(who) == old(self).balance(who)
                },
            },
    {
        match self.find(owner) {
            Some(k) => {
                let held = self.accounts[k].balance;
                if amount > u128::MAX - held {
                    return Err(TransferError::Overflow);
                }
                proof {
                    assert forall|who: EntityID|
                        balance_in(
                            old(self).accounts@.update(
                                k as int,
                                Account { owner: *owner, balance: (held + amount) as u128 },
                            ),
                            who,
                        ) == if who == *owner {
                            (held + amount) as u128
                        } else {
                            balance_in(old(self).accounts@, who)
                        } by {
                        lemma_balance_after_update(
                            old(self).accounts@,
                            k as int,
                            (held + amount) as u128,
                            who,
                        );
                    }
                    lemma_balance_after_update(
                        old(self).accounts@,
                        k as int,
                        (held + amount) as u128,
                        *owner,
                    );
                }
                self.accounts[k] = Account { owner: *owner, balance: held + amount };
                Ok(())
            },
            None => {
                let account = Account { owner: *owner, balance: amount };
                proof {
                    assert forall|who: EntityID|
                        balance_in(old(self).accounts@.push(account), who) == if who == *owner {
                            amount
                        } else {
                            balance_in(old(self).accounts@, who)
                        } by {
                        lemma_balance_after_push(old(self).accounts@, account, who);
                    }
                    lemma_balance_after_push(old(self).accounts@, account, *owner);
                }
                self.accounts.push(account);
                Ok(())
            },
        }
    }

    /// Destroys `amount` on the account of `owner`. Refused where the
    /// owner holds less.
    fn burn(&mut self, owner: &EntityID, amount: Price) -> (r: Result<(), TransferError>)
        requires
            old(self).wf(),
        ensures
            final(self).wf(),
            final(self).open() == old(self).open(),
            match r {
                Ok(()) => {
                    &&& old(self).balance(*owner) >= amount
                    &&& forall|who: EntityID|
                        final(self).balance(who) == if who == *owner {
                            (old(self).balance(who) - amount) as u128
                        } else {
                            old(self).balance(who)
                        }
                },
                Err(e) => {
                    &&& e == TransferError::InsufficientFunds
                    &&& old(self).balance(*owner) < amount
                    &&& forall|who: EntityID| final(self).balance(who) == old(self).balance(who)
                },
            },
    {
        match self.find(owner) {
            Some(k) => {
                let held = self.accounts[k].balance;
                if held < amount {
                    return Err(TransferError::InsufficientFunds);
                }
                proof {
                    assert forall|who: EntityID|
                        balance_in(
                            old(self).accounts@.update(
                                k as int,
                                Account { owner: *owner, balance: (held - amount) as u128 },
                            ),
                            who,
                        ) == if who == *owner {
                            (held - amount) as u128
                        } else {
                            balance_in(old(self).accounts@, who)
                        } by {
                        lemma_balance_after_update(
                            old(self).accounts@,
                            k as int,
                            (held - amount) as u128,
                            who,
                        );
                    }
                    lemma_balance_after_update(
                        old(self).accounts@,
                        k as int,
                        (held - amount) as u128,
                        *owner,
                    );
                }
                self.accounts[k] = Account { owner: *owner, balance: held - amount };
                Ok(())
            },
            None => {
                if amount == 0 {
                    Ok(())
                } else {
                    Err(TransferError::InsufficientFunds)
                }
            },
        }
    }

    /// Moves `amount` from `from` to `to`. Refused, with nothing changed,
    /// where `from` holds less than `amount` or the balance of `to` could
    /// not hold what it would receive.
    pub fn transfer(&mut self, from: &EntityID, to: &EntityID, amount: Price) -> (r: Result<
        (),
        TransferError,
    >)
        requires
            old(self).wf(),
        ensures
            final(self).wf(),
            final(self).open() == old(self).open(),
            r == transfer_verdict(old(self).balance(*from), old(self).balance(*to), *from, *to, amount),
            forall|who: EntityID|
                final(self).balance(who) == balance_after_transfer(
                    old(self).balance(who),
                    who,
                    *from,
                    *to,
                    amount,
                    r is Ok,
                ),
    {
        let held = self.balance_check(from);
        if held < amount {
            return Err(TransferError::InsufficientFunds);
        }
        if from.0 == to.0 {
            return Ok(());
        }
        let there = self.balance_check(to);
        if amount > u128::MAX - there {
            return Err(TransferError::Overflow);
        }
        let taken = self.burn(from, amount);
        let given = self.mint(to, amount);
        Ok(())
    }
}

/// Whether a transfer goes through, given what the two sides hold.
pub open spec fn transfer_verdict(
    held: u128,
    there: u128,
    from: EntityID,
    to: EntityID,
    amount: Price,
) -> Result<(), TransferError> {
    if held < amount {
        Err(TransferError::InsufficientFunds)
    } else if from != to && there + amount > u128::MAX {
        Err(TransferError::Overflow)
    } else {
        Ok(())
    }
}

/// What `who` holds after a transfer, given what it held before.
pub open spec fn balance_after_transfer(
    before: u128,
    who: EntityID,
    from: EntityID,
    to: EntityID,
    amount: Price,
    done: bool,
) -> u128 {
    if !done || from == to {
        before
    } else if who == from {
        (before - amount) as u128
    } else if who == to {
        (before + amount) as u128
    } else {
        before
    }
}

/// An NFT that holds coins and hands them back to its owner at a set time.
#[derive(Clone, Copy, Debug, PartialEq, Eq, Structural)]
pub struct CoinLockup {
    pub id: NftPtr,
    pub time_when_free: u64,
    pub asset: TokenPointer,
}

/// The board.
pub struct GameBoard {
    current_time: u64,
    next_entity: u128,
    nfts: Vec<BaseNFT>,
    callbacks: Vec<CoinLockup>,
    tokens: Vec<TokenBase>,
}

impl GameBoard {
    /// What the board's clock shows.
    pub closed spec fn current_time(&self) -> u64 {
        self.current_time
    }

    /// The identity that the next allocation hands out.
    pub closed spec fn next_entity(&self) -> u128 {
        self.next_entity
    }

    /// The non-fungible tokens, oldest first.
    pub closed spec fn nfts(&self) -> Seq<BaseNFT> {
        self.nfts@
    }

    /// The scheduled lockups, in the order they were scheduled.
    pub closed spec fn callbacks(&self) -> Seq<CoinLockup> {
        self.callbacks@
    }

    /// How many token ledgers the board has.
    pub closed spec fn token_count(&self) -> nat {
        self.tokens@.len()
    }

    /// How much `who` holds of the token `asset`.
    pub closed spec fn balance(&self, asset: TokenPointer, who: EntityID) -> u128 {
        self.tokens@[asset.0 as int].balance(who)
    }

    /// The owner of the NFT `id`: that of the first token with this
    /// identity.
    pub open spec fn owner_of(&self, id: NftPtr) -> Option<EntityID> {
        nft_owner(self.nfts(), id)
    }

    /// Every ledger is in order, no group of transfers is open, and every
    /// non-fungible token carries an identity that was handed out.
    pub closed spec fn wf(&self) -> bool {
        &&& forall|t: int| 0 <= t < self.tokens@.len() ==> (#[trigger] self.tokens@[t]).wf()
        &&& forall|t: int| 0 <= t < self.tokens@.len() ==> !(#[trigger] self.tokens@[t]).open()
        &&& forall|k: int|
            0 <= k < self.nfts@.len() ==> (#[trigger] self.nfts@[k]).nft_id.0 < self.next_entity
    }

    /// A board with `tokens` empty ledgers and nothing else.
    pub fn new(tokens: usize) -> (game: GameBoard)
        ensures
            game.wf(),
            game.token_count() == tokens,
            game.next_entity() == 0,
            game.current_time() == 0,
            game.nfts().len() == 0,
            game.callbacks().len() == 0,
            forall|t: usize, who: EntityID| t < tokens ==> game.balance(TokenPointer(t), who) == 0,
    {
        let mut ledgers: Vec<TokenBase> = Vec::new();
        let mut t: usize = 0;
        while t < tokens
            invariant
                0 <= t <= tokens,
                ledgers@.len() == t,
                forall|j: int|
                    0 <= j < t ==> (#[trigger] ledgers@[j]).wf() && !ledgers@[j].open() && forall|
                        who: EntityID,
                    | ledgers@[j].balance(who) == 0,
            decreases tokens - t,
        {
            ledgers.push(TokenBase::new());
            t += 1;
        }
        GameBoard {
            current_time: 0,
            next_entity: 0,
            nfts: Vec::new(),
            callbacks: Vec::new(),
            tokens: ledgers,
        }
    }

    /// Hands out a fresh identity.
    pub fn allocate(&mut self) -> (id: EntityID)
        requires
            old(self).wf(),
            old(self).next_entity() < u128::MAX,
        ensures
            final(self).wf(),
            id.0 == old(self).next_entity(),
            final(self).next_entity() == old(self).next_entity() + 1,
            final(self).nfts() == old(self).nfts(),
            final(self).callbacks() == old(self).callbacks(),
            final(self).token_count() == old(self).token_count(),
            final(self).current_time() == old(self).current_time(),
            forall|t: usize, who: EntityID|
                t < old(self).token_count() ==> final(self).balance(TokenPointer(t), who) == old(
                    self,
                ).balance(TokenPointer(t), who),
    {
        let id = EntityID(self.next_entity);
        self.next_entity = self.next_entity + 1;
        id
    }

    /// Creates `amount` of the token `asset` on the account of `owner`.
    /// Nothing is created where the balance could not hold it.
    pub fn mint(&mut self, asset: TokenPointer, owner: EntityID, amount: Price) -> (done: bool)
        requires
            old(self).wf(),
            asset.0 < old(self).token_count(),
        ensures
            final(self).wf(),
            done == (old(self).balance(asset, owner) + amount <= u128::MAX),
            final(self).next_entity() == old(self).next_entity(),
            final(self).nfts() == old(self).nfts(),
            final(self).callbacks() == old(self).callbacks(),
            final(self).token_count() == old(self).token_count(),
            final(self).current_time() == old(self).current_time(),
            forall|t: usize, who: EntityID|
                t < old(self).token_count() ==> final(self).balance(TokenPointer(t), who) == if done
                    && t == asset.0 && who == owner {
                    (old(self).balance(TokenPointer(t), who) + amount) as u128
                } else {
                    old(self).balance(TokenPointer(t), who)
                },
    {
        let r = self.tokens[asset.0].mint(&owner, amount);
        r.is_ok()
    }

    /// What the board's clock shows.
    pub fn now(&self) -> (t: u64)
        ensures
            t == self.current_time(),
    {
        self.current_time
    }

    /// Sets the board's clock.
    pub fn set_time(&mut self, now: u64)
        requires
            old(self).wf(),
        ensures
            final(self).wf(),
            final(self).current_time() == now,
            final(self).next_entity() == old(self).next_entity(),
            final(self).nfts() == old(self).nfts(),
            final(self).callbacks() == old(self).callbacks(),
            final(self).token_count() == old(self).token_count(),
            forall|t: usize, who: EntityID|
                t < old(self).token_count() ==> final(self).balance(TokenPointer(t), who) == old(
                    self,
                ).balance(TokenPointer(t), who),
    {
        self.current_time = now;
    }

    /// How much `who` holds of the token `asset`.
    pub fn balance_check(&self, asset: TokenPointer, who: &EntityID) -> (amount: u128)
        requires
            self.wf(),
            asset.0 < self.token_count(),
        ensures
            amount == self.balance(asset, *who),
    {
        self.tokens[asset.0].balance_check(who)
    }

    /// The scheduled lockup at position `k`.
    pub fn callback(&self, k: usize) -> (r: Option<CoinLockup>)
        ensures
            r == if k < self.callbacks().len() {
                Some(self.callbacks()[k as int])
            } else {
                None
            },
    {
        if k < self.callbacks.len() {
            Some(self.callbacks[k])
        } else {
            None
        }
    }

    fn find_owner(&self, id: &NftPtr) -> (r: Option<EntityID>)
        ensures
            r == self.owner_of(*id),
    {
        let n = self.nfts.len();
        let mut k: usize = 0;
        assert(self.nfts@.skip(0) =~= self.nfts@);
        while k < n
            invariant
                0 <= k <= n,
                n == self.nfts@.len(),
                nft_owner(self.nfts@, *id) == nft_owner(self.nfts@.skip(k as int), *id),
            decreases n - k,
        {
            assert(self.nfts@.skip(k as int).drop_first() =~= self.nfts@.skip(k + 1));
            if self.nfts[k].nft_id == id.0 {
                return Some(self.nfts[k].owner);
            }
            k += 1;
        }
        None
    }
}

/// The owner of the first of `nfts` with the identity `id`.
pub open spec fn nft_owner(nfts: Seq<BaseNFT>, id: NftPtr) -> Option<EntityID>
    decreases nfts.len(),
{
    if nfts.len() == 0 {
        None
    } else if nfts[0].nft_id == id.0 {
        Some(nfts[0].owner)
    } else {
        nft_owner(nfts.drop_first(), id)
    }
}

impl CoinLockup {
    /// Locks `amount` of the token `asset` away from `owner` until
    /// `time_when_free`.
    ///
    /// A token that cannot change hands is created for `owner` under a
    /// fresh identity, its release is scheduled, and the coins are moved
    /// from `owner` to the token. Where that transfer is refused, because
    /// `owner` holds less than `amount`, the token is created all the same
    /// and no coins move.
    pub fn lockup(
        game: &mut GameBoard,
        owner: EntityID,
        asset: TokenPointer,
        amount: Price,
        time_when_free: u64,
    )
        requires
            old(game).wf(),
            old(game).next_entity() < u128::MAX,
            asset.0 < old(game).token_count(),
        ensures
            final(game).wf(),
            final(game).next_entity() == old(game).next_entity() + 1,
            final(game).token_count() == old(game).token_count(),
            final(game).current_time() == old(game).current_time(),
            final(game).nfts() == old(game).nfts().push(
                BaseNFT {
                    owner: owner,
                    nft_id: EntityID(old(game).next_entity()),
                    transfer_count: u128::MAX,
                },
            ),
            final(game).callbacks() == old(game).callbacks().push(
                CoinLockup {
                    id: NftPtr(EntityID(old(game).next_entity())),
                    time_when_free: time_when_free,
                    asset: asset,
                },
            ),
            forall|t: usize, who: EntityID|
                t < old(game).token_count() ==> final(game).balance(TokenPointer(t), who) == if t
                    == asset.0 {
                    balance_after_transfer(
                        old(game).balance(asset, who),
                        who,
                        owner,
                        EntityID(old(game).next_entity()),
                        amount,
                        transfer_verdict(
                            old(game).balance(asset, owner),
                            old(game).balance(asset, EntityID(old(game).next_entity())),
                            owner,
                            EntityID(old(game).next_entity()),
                            amount,
                        ) is Ok,
                    )
                } else {
                    old(game).balance(TokenPointer(t), who)
                },
    {
        let lockup_base = BaseNFT { owner, nft_id: game.allocate(), transfer_count: u128::MAX };
        game.nfts.push(lockup_base);
        let lockup_id = NftPtr(lockup_base.nft_id);
        let lockup = CoinLockup { time_when_free, asset, id: lockup_id };
        game.callbacks.push(lockup);
        game.tokens[asset.0].transaction();
        let _ = game.tokens[asset.0].transfer(&owner, &lockup_id.0, amount);
        game.tokens[asset.0].end_transaction();
    }

    /// When the lockup ends.
    pub fn time(&self) -> (t: u64)
        ensures
            t == self.time_when_free,
    {
        self.time_when_free
    }

    /// Releases the coins: once the time has come, everything the token
    /// holds is transferred to its owner. Before that, nothing happens.
    pub fn action(&mut self, game: &mut GameBoard)
        requires
            old(game).wf(),
            old(self).asset.0 < old(game).token_count(),
            old(game).owner_of(old(self).id) is Some,
        ensures
            final(game).wf(),
            *final(self) == *old(self),
            final(game).next_entity() == old(game).next_entity(),
            final(game).nfts() == old(game).nfts(),
            final(game).callbacks() == old(game).callbacks(),
            final(game).token_count() == old(game).token_count(),
            final(game).current_time() == old(game).current_time(),
            forall|t: usize, who: EntityID|
                t < old(game).token_count() ==> final(game).balance(TokenPointer(t), who) == if t
                    == old(self).asset.0 && old(game).current_time() >= old(self).time_when_free {
                    balance_after_transfer(
                        old(game).balance(old(self).asset, who),
                        who,
                        old(self).id.0,
                        old(game).owner_of(old(self).id).unwrap(),
                        old(game).balance(old(self).asset, old(self).id.0),
                        transfer_verdict(
                            old(game).balance(old(self).asset, old(self).id.0),
                            old(game).balance(
                                old(self).asset,
                                old(game).owner_of(old(self).id).unwrap(),
                            ),
                            old(self).id.0,
                            old(game).owner_of(old(self).id).unwrap(),
                            old(game).balance(old(self).asset, old(self).id.0),
                        ) is Ok,
                    )
                } else {
                    old(game).balance(TokenPointer(t), who)
                },
    {
        let owner = match game.find_owner(&self.id) {
            Some(owner) => owner,
            None => {
                return ;
            },
        };
        if game.current_time < self.time_when_free {
            return ;
        }
        game.tokens[self.asset.0].transaction();
        let balance = game.tokens[self.asset.0].balance_check(&self.id.0);
        let _ = game.tokens[self.asset.0].transfer(&self.id.0, &owner, balance);
        game.tokens[self.asset.0].end_transaction();
    }

    /// What the scheduled event is for.
    pub fn purpose(&self) -> (text: String)
        ensures
            text@ == "CoinLockup Release Trigger"@,
    {
        String::from_str("CoinLockup Release Trigger")
    }
}

/// A move that has not been checked against the rules yet.
#[derive(Clone, Copy, Debug, PartialEq, Eq, Structural)]
pub struct Unsanitized<T>(pub T);

/// A pair of tokens that can be traded against each other.
#[derive(Clone, Copy, Debug, PartialEq, Eq, Structural)]
pub struct TradingPairID {
    pub asset_a: TokenPointer,
    pub asset_b: TokenPointer,
}

/// A sign of life.
#[derive(Clone, Copy, Debug, PartialEq, Eq, Structural)]
pub struct Heartbeat();

/// An order to trade on a pair.
#[derive(Clone, Copy, Debug, PartialEq, Eq, Structural)]
pub struct Trade {
    pub pair: TradingPairID,
    pub amount_a: u128,
    pub amount_b: u128,
    pub sell: bool,
    pub cap: Option<u128>,
}

/// What a player can do.
#[derive(Clone, Copy, Debug, PartialEq, Eq, Structural)]
pub enum GameMove {
    Heartbeat(Heartbeat),
    Trade(Trade),
}

/// A move as it travels in an envelope.
#[derive(Clone, Copy, Debug, PartialEq, Eq, Structural)]
pub struct MoveEnvelope {
    /// The move.
    pub d: Unsanitized<GameMove>,
    /// The move of the same player before this one has the sequence
    /// number one below.
    pub sequence: u64,
    pub time: u64,
}

} // verus!
