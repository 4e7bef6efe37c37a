//! A fungible arcade token: balances per owner and the total supply.
use vstd::prelude::*;

verus! {

/// Marker type naming the token application.
pub struct ArcadeTokenAbi;

/// An owner's balance.
#[derive(Clone, Debug)]
pub struct Account {
    pub owner: String,
    pub balance: u128,
}

/// The supply and every account.
#[derive(Clone, Debug)]
pub struct TokenState {
    pub total_supply: u128,
    pub accounts: Vec<Account>,
}

/// Balances keyed by owner. Each owner appears at most once, and an
/// owner without an entry holds nothing.
pub struct BalanceBook {
    entries: Vec<Account>,
    held: Ghost<Map<Seq<char>, u128>>,
}

impl View for BalanceBook {
    type V = Map<Seq<char>, u128>;

    closed spec fn view(&self) -> Map<Seq<char>, u128> {
        self.held@
    }
}

impl BalanceBook {
    pub closed spec fn wf(&self) -> bool {
        &&& forall|i: int|
            0 <= i < self.entries@.len() ==> {
                &&& self.held@.contains_key(#[trigger] self.entries@[i].owner@)
                &&& self.held@[self.entries@[i].owner@] == self.entries@[i].balance
            }
        &&& forall|o: Seq<char>|
            #[trigger] self.held@.contains_key(o) ==> exists|i: int|
                0 <= i < self.entries@.len() && #[trigger] self.entries@[i].owner@ == o
        &&& forall|i: int, j: int|
            0 <= i < self.entries@.len() && 0 <= j < self.entries@.len() && i != j
                ==> #[trigger] self.entries@[i].owner@ != #[trigger] self.entries@[j].owner@
    }

    /// The balance of `owner`; zero where the book has no entry.
    pub open spec fn balance_of(&self, owner: Seq<char>) -> u128 {
        if self@.contains_key(owner) {
            self@[owner]
        } else {
            0
        }
    }

    pub fn new() -> (book: BalanceBook)
        ensures
            book.wf(),
            book@ == Map::<Seq<char>, u128>::empty(),
    {
        BalanceBook { entries: Vec::new(), held: Ghost(Map::empty()) }
    }

    fn find(&self, owner: &String) -> (r: Option<usize>)
        requires
            self.wf(),
        ensures
            r matches Some(i) ==> i < self.entries@.len() && self.entries@[i as int].owner@
                == owner@,
            r is None ==> !self@.contains_key(owner@),
    {
        let mut i: usize = 0;
        while i < self.entries.len()
            invariant
                self.wf(),
                i <= self.entries@.len(),
                forall|j: int| 0 <= j < i ==> self.entries@[j].owner@ != owner@,
            decreases self.entries@.len() - i,
        {
            if self.entries[i].owner == *owner {
                return Some(i);
            }
            i = i + 1;
        }
        proof {
            if self@.contains_key(owner@) {
                let j = choose|j: int|
                    0 <= j < self.entries@.len() && #[trigger] self.entries@[j].owner@ == owner@;
                assert(self.entries@[j].owner@ != owner@);
            }
        }
        None
    }

    /// The balance of `owner`.
    pub fn balance(&self, owner: &String) -> (r: u128)
        requires
            self.wf(),
        ensures
            r == self.balance_of(owner@),
    {
        match self.find(owner) {
            Some(i) => self.entries[i].balance,
            None => 0,
        }
    }

    /// The accounts with their balances, in the book's order.
    pub fn accounts(&self) -> (r: Vec<Account>)
        requires
            self.wf(),
        ensures
            forall|i: int|
                0 <= i < r@.len() ==> self@.contains_key(#[trigger] r@[i].owner@) && self@[r@[i].owner@]
                    == r@[i].balance,
            forall|o: Seq<char>|
                #[trigger] self@.contains_key(o) ==> exists|i: int|
                    0 <= i < r@.len() && #[trigger] r@[i].owner@ == o,
    {
        let mut r: Vec<Account> = Vec::new();
        let mut i: usize = 0;
        while i < self.entries.len()
            invariant
                self.wf(),
                i <= self.entries@.len(),
                r@.len() == i,
                forall|j: int|
                    0 <= j < i ==> (#[trigger] r@[j]).owner@ == self.entries@[j].owner@
                        && r@[j].balance == self.entries@[j].balance,
            decreases self.entries@.len() - i,
        {
            r.push(Account { owner: self.entries[i].owner.clone(), balance: self.entries[i].balance });
            i = i + 1;
        }
        proof {
            assert forall|o: Seq<char>| #[trigger] self@.contains_key(o) implies exists|j: int|
                0 <= j < r@.len() && #[trigger] r@[j].owner@ == o by {
                let j = choose|j: int|
                    0 <= j < self.entries@.len() && #[trigger] self.entries@[j].owner@ == o;
                assert(r@[j].owner@ == o);
            }
        }
        r
    }

    /// Records `h` as the balance of `owner`.
    pub fn set(&mut self, owner: &String, h: u128)
        requires
            old(self).wf(),
        ensures
            final(self).wf(),
            final(self)@ == old(self)@.insert(owner@, h),
    {
        let p = Account { owner: owner.clone(), balance: h };
        let ghost old_entries = self.entries@;
        let ghost old_self_held = self.held@;
        match self.find(owner) {
            Some(i) => {
                self.entries.set(i, p);
                self.held = Ghost(self.held@.insert(owner@, h));
                proof {
                    assert forall|k: int|
                        0 <= k < self.entries@.len() implies self.held@.contains_key(
                        #[trigger] self.entries@[k].owner@,
                    ) && self.held@[self.entries@[k].owner@] == self.entries@[k].balance by {
                        if k != i {
                            assert(self.entries@[k] == old_entries[k]);
                        }
                    }
                    assert forall|o: Seq<char>| #[trigger] self.held@.contains_key(o) implies exists|
                        j: int,
                    |
                        0 <= j < self.entries@.len() && #[trigger] self.entries@[j].owner@ == o by {
                        if o == owner@ {
                            assert(self.entries@[i as int].owner@ == o);
                        } else {
                            let j = choose|j: int|
                                0 <= j < old_entries.len() && #[trigger] old_entries[j].owner@
                                    == o;
                            assert(self.entries@[j].owner@ == o);
                        }
                    }
                    assert forall|a: int, b: int|
                        0 <= a < self.entries@.len() && 0 <= b < self.entries@.len() && a
                            != b implies #[trigger] self.entries@[a].owner@
                        != #[trigger] self.entries@[b].owner@ by {
                        if a != i && b != i {
                            assert(self.entries@[a] == old_entries[a]);
                            assert(self.entries@[b] == old_entries[b]);
                        } else if a == i {
                            assert(self.entries@[b] == old_entries[b]);
                            assert(old_entries[i as int].owner@ != old_entries[b].owner@);
                            assert(self.entries@[a].owner@ == old_entries[i as int].owner@);
                        } else {
                            assert(self.entries@[a] == old_entries[a]);
                            assert(old_entries[i as int].owner@ != old_entries[a].owner@);
                            assert(self.entries@[b].owner@ == old_entries[i as int].owner@);
                        }
                    }
                }
            },
            None => {
                self.entries.push(p);
                self.held = Ghost(self.held@.insert(owner@, h));
                proof {
                    let n = old_entries.len() as int;
                    assert forall|k: int|
                        0 <= k < self.entries@.len() implies self.held@.contains_key(
                        #[trigger] self.entries@[k].owner@,
                    ) && self.held@[self.entries@[k].owner@] == self.entries@[k].balance by {
                        if k != n {
                            assert(self.entries@[k] == old_entries[k]);
                        }
                    }
                    assert forall|o: Seq<char>| #[trigger] self.held@.contains_key(o) implies exists|
                        j: int,
                    |
                        0 <= j < self.entries@.len() && #[trigger] self.entries@[j].owner@ == o by {
                        if o == owner@ {
                            assert(self.entries@[n].owner@ == o);
                        } else {
                            let j = choose|j: int|
                                0 <= j < old_entries.len() && #[trigger] old_entries[j].owner@
                                    == o;
                            assert(self.entries@[j].owner@ == o);
                        }
                    }
                    assert forall|a: int, b: int|
                        0 <= a < self.entries@.len() && 0 <= b < self.entries@.len() && a
                            != b implies #[trigger] self.entries@[a].owner@
                        != #[trigger] self.entries@[b].owner@ by {
                        if a != n && b != n {
                            assert(self.entries@[a] == old_entries[a]);
                            assert(self.entries@[b] == old_entries[b]);
                        } else if a == n {
                            assert(self.entries@[b] == old_entries[b]);
                            assert(old_self_held.contains_key(old_entries[b].owner@));
                        } else {
                            assert(self.entries@[a] == old_entries[a]);
                            assert(old_self_held.contains_key(old_entries[a].owner@));
                        }
                    }
                }
            },
        }
    }

    /// Drops the entry of `owner`, if any.
    pub fn remove(&mut self, owner: &String)
        requires
            old(self).wf(),
        ensures
            final(self).wf(),
            final(self)@ == old(self)@.remove(owner@),
    {
        let ghost old_entries = self.entries@;
        match self.find(owner) {
            Some(i) => {
                self.entries.remove(i);
                self.held = Ghost(self.held@.remove(owner@));
                proof {
                    assert forall|k: int|
                        0 <= k < self.entries@.len() implies self.held@.contains_key(
                        #[trigger] self.entries@[k].owner@,
                    ) && self.held@[self.entries@[k].owner@] == self.entries@[k].balance by {
                        if k < i {
                            assert(self.entries@[k] == old_entries[k]);
                            assert(k != i as int);
                        } else {
                            assert(self.entries@[k] == old_entries[k + 1]);
                            assert(k + 1 != i as int);
                        }
                    }
                    assert forall|o: Seq<char>| #[trigger] self.held@.contains_key(o) implies exists|
                        j: int,
                    |
                        0 <= j < self.entries@.len() && #[trigger] self.entries@[j].owner@ == o by {
                        let j = choose|j: int|
                            0 <= j < old_entries.len() && #[trigger] old_entries[j].owner@ == o;
                        assert(j != i as int);
                        if j < i {
                            assert(self.entries@[j].owner@ == o);
                        } else {
                            assert(self.entries@[j - 1].owner@ == o);
                        }
                    }
                    assert forall|a: int, b: int|
                        0 <= a < self.entries@.len() && 0 <= b < self.entries@.len() && a
                            != b implies #[trigger] self.entries@[a].owner@
                        != #[trigger] self.entries@[b].owner@ by {
                        let a2 = if a < i {
                            a
                        } else {
                            a + 1
                        };
                        let b2 = if b < i {
                            b
                        } else {
                            b + 1
                        };
                        assert(self.entries@[a] == old_entries[a2]);
                        assert(self.entries@[b] == old_entries[b2]);
                    }
                }
            },
            None => {
                proof {
                    assert(self.held@.remove(owner@) =~= self.held@);
                }
            },
        }
    }
}

/// The balance that `m` records for `owner`, zero where it records none.
pub open spec fn balance_in(m: Map<Seq<char>, u128>, owner: Seq<char>) -> u128 {
    if m.contains_key(owner) {
        m[owner]
    } else {
        0
    }
}

/// `a + b`, capped at `u128::MAX`.
pub open spec fn capped_add(a: u128, b: u128) -> u128 {
    if a + b > u128::MAX {
        u128::MAX
    } else {
        (a + b) as u128
    }
}

/// `m` with `owner`'s balance set to `b`, its entry dropped where `b` is zero.
pub open spec fn with_balance(m: Map<Seq<char>, u128>, owner: Seq<char>, b: u128) -> Map<
    Seq<char>,
    u128,
> {
    if b == 0 {
        m.remove(owner)
    } else {
        m.insert(owner, b)
    }
}

/// Balances after moving `amount` from `from` to `to`: the sender's
/// balance is lowered first, then the receiver's raised.
pub open spec fn after_transfer(
    m: Map<Seq<char>, u128>,
    from: Seq<char>,
    to: Seq<char>,
    amount: u128,
) -> Map<Seq<char>, u128> {
    let lowered = with_balance(m, from, (balance_in(m, from) - amount) as u128);
    lowered.insert(to, capped_add(balance_in(lowered, to), amount))
}

/// Why a token request was refused.
#[derive(Clone, Copy, Debug, PartialEq, Eq, Structural)]
pub enum TokenError {
    InsufficientBalance,
    InsufficientBalanceToBurn,
}

/// A request to the token, made by an authenticated owner.
pub enum Operation {
    Mint { owner: String, amount: u128 },
    Transfer { to: String, amount: u128 },
    Burn { amount: u128 },
}

/// A message from another chain.
pub enum Message {
    Credit { owner: String, amount: u128 },
}

/// The token's state.
pub struct ArcadeToken {
    pub total_supply: u128,
    pub balances: BalanceBook,
}

impl ArcadeToken {
    pub open spec fn wf(&self) -> bool {
        self.balances.wf()
    }

    /// No supply and no accounts.
    pub fn new() -> (t: ArcadeToken)
        ensures
            t.wf(),
            t.total_supply == 0,
            t.balances@ == Map::<Seq<char>, u128>::empty(),
    {
        ArcadeToken { total_supply: 0, balances: BalanceBook::new() }
    }

    /// The balance of `owner`.
    pub fn balance(&self, owner: &String) -> (r: u128)
        requires
            self.wf(),
        ensures
            r == balance_in(self.balances@, owner@),
    {
        self.balances.balance(owner)
    }

    /// Creates `amount` for `owner`; balance and supply are capped at
    /// `u128::MAX`.
    pub fn mint(&mut self, owner: &String, amount: u128)
        requires
            old(self).wf(),
        ensures
            final(self).wf(),
            final(self).balances@ == old(self).balances@.insert(
                owner@,
                capped_add(balance_in(old(self).balances@, owner@), amount),
            ),
            final(self).total_supply == capped_add(old(self).total_supply, amount),
    {
        let current = self.balances.balance(owner);
        self.balances.set(owner, current.saturating_add(amount));
        self.total_supply = self.total_supply.saturating_add(amount);
    }

    fn set_or_drop(&mut self, owner: &String, b: u128)
        requires
            old(self).wf(),
        ensures
            final(self).wf(),
            final(self).balances@ == with_balance(old(self).balances@, owner@, b),
            final(self).total_supply == old(self).total_supply,
    {
        if b == 0 {
            self.balances.remove(owner);
        } else {
            self.balances.set(owner, b);
        }
    }

    /// Moves `amount` from `from` to `to`, refused where `from` holds less.
    pub fn transfer(&mut self, from: &String, to: &String, amount: u128) -> (r: Result<
        (),
        TokenError,
    >)
        requires
            old(self).wf(),
        ensures
            final(self).wf(),
            final(self).total_supply == old(self).total_supply,
            balance_in(old(self).balances@, from@) < amount ==> r == Err::<(), TokenError>(
                TokenError::InsufficientBalance,
            ) && final(self).balances@ == old(self).balances@,
            balance_in(old(self).balances@, from@) >= amount ==> r is Ok && final(self).balances@
                == after_transfer(old(self).balances@, from@, to@, amount),
    {
        let from_balance = self.balances.balance(from);
        if from_balance < amount {
            return Err(TokenError::InsufficientBalance);
        }
        self.set_or_drop(from, from_balance - amount);
        let to_balance = self.balances.balance(to);
        self.balances.set(to, to_balance.saturating_add(amount));
        Ok(())
    }

    /// Destroys `amount` of `owner`'s tokens, refused where it holds less;
    /// the supply falls by the same amount, down to zero at most.
    pub fn burn(&mut self, owner: &String, amount: u128) -> (r: Result<(), TokenError>)
        requires
            old(self).wf(),
        ensures
            final(self).wf(),
            balance_in(old(self).balances@, owner@) < amount ==> r == Err::<(), TokenError>(
                TokenError::InsufficientBalanceToBurn,
            ) && final(self).balances@ == old(self).balances@ && final(self).total_supply == old(
                self).total_supply,
            balance_in(old(self).balances@, owner@) >= amount ==> r is Ok && final(self).balances@
                == with_balance(
                old(self).balances@,
                owner@,
                (balance_in(old(self).balances@, owner@) - amount) as u128,
            ) && final(self).total_supply == (if old(self).total_supply >= amount {
                old(self).total_supply - amount
            } else {
                0
            }),
    {
        let current = self.balances.balance(owner);
        if current < amount {
            return Err(TokenError::InsufficientBalanceToBurn);
        }
        self.set_or_drop(owner, current - amount);
        self.total_supply = self.total_supply.saturating_sub(amount);
        Ok(())
    }

    /// The supply and every account.
    pub fn token_state(&self) -> (r: TokenState)
        requires
            self.wf(),
        ensures
            r.total_supply == self.total_supply,
            forall|i: int|
                0 <= i < r.accounts@.len() ==> self.balances@.contains_key(
                    #[trigger] r.accounts@[i].owner@,
                ) && self.balances@[r.accounts@[i].owner@] == r.accounts@[i].balance,
            forall|o: Seq<char>|
                #[trigger] self.balances@.contains_key(o) ==> exists|i: int|
                    0 <= i < r.accounts@.len() && #[trigger] r.accounts@[i].owner@ == o,
    {
        let accounts = self.balances.accounts();
        proof {
            assert forall|o: Seq<char>| #[trigger] self.balances@.contains_key(o) implies exists|
                i: int,
            | 0 <= i < accounts@.len() && #[trigger] accounts@[i].owner@ == o by {
                let i = choose|i: int| 0 <= i < accounts@.len() && #[trigger] accounts@[i].owner@ == o;
            }
        }
        let r = TokenState { total_supply: self.total_supply, accounts };
        assert(r.accounts@ == accounts@);
        r
    }

    /// Runs `operation` for the authenticated `signer`.
    pub fn execute_operation(&mut self, signer: &String, operation: Operation) -> (r: Result<
        (),
        TokenError,
    >)
        requires
            old(self).wf(),
        ensures
            final(self).wf(),
            match operation {
                Operation::Mint { owner, amount } => r is Ok && final(self).balances@ == old(
                    self).balances@.insert(
                    owner@,
                    capped_add(balance_in(old(self).balances@, owner@), amount),
                ) && final(self).total_supply == capped_add(old(self).total_supply, amount),
                Operation::Transfer { to, amount } => if balance_in(old(self).balances@, signer@)
                    < amount {
                    r == Err::<(), TokenError>(TokenError::InsufficientBalance) && final(
                        self).balances@ == old(self).balances@
                } else {
                    r is Ok && final(self).balances@ == after_transfer(
                        old(self).balances@,
                        signer@,
                        to@,
                        amount,
                    )
                },
                Operation::Burn { amount } => if balance_in(old(self).balances@, signer@)
                    < amount {
                    r == Err::<(), TokenError>(TokenError::InsufficientBalanceToBurn)
                        && final(self).balances@ == old(self).balances@
                } else {
                    r is Ok && final(self).balances@ == with_balance(
                        old(self).balances@,
                        signer@,
                        (balance_in(old(self).balances@, signer@) - amount) as u128,
                    )
                },
            },
    {
        match operation {
            Operation::Mint { owner, amount } => {
                self.mint(&owner, amount);
                Ok(())
            },
            Operation::Transfer { to, amount } => self.transfer(signer, &to, amount),
            Operation::Burn { amount } => self.burn(signer, amount),
        }
    }

    /// Handles a message: a credit mints to its owner.
    pub fn execute_message(&mut self, message: Message)
        requires
            old(self).wf(),
        ensures
            final(self).wf(),
            match message {
                Message::Credit { owner, amount } => final(self).balances@ == old(
                    self).balances@.insert(
                    owner@,
                    capped_add(balance_in(old(self).balances@, owner@), amount),
                ) && final(self).total_supply == capped_add(old(self).total_supply, amount),
            },
    {
        match message {
            Message::Credit { owner, amount } => self.mint(&owner, amount),
        }
    }
}

} // verus!
