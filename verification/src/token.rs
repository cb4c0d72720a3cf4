//! The EcoTask reward token: balances, a capped supply, a minter role,
//! admin-controlled metadata and expiring allowances.
//!
//! `TokenModel` is the mathematical content of the token's storage, and each
//! entry point of `TokenContract` is specified by a transition of that model.
//! Authorization of the acting address, the ledger sequence number and the
//! publication of events belong to the host; the entry points take the
//! sequence number as an argument and return the event they emit.

use vstd::prelude::*;
use crate::address::{Address, opt_address_view};
use crate::keyed_map::KeyedMap;
use crate::total::{map_total, lemma_total_insert, lemma_total_bounds};

verus! {

/// Why a token entry point refused a request. Each refusal leaves the token
/// unchanged.
#[derive(Clone, Copy, Debug, PartialEq, Eq, Structural)]
pub enum TokenError {
    AlreadyInitialized,
    NotInitialized,
    AmountNotPositive,
    AmountNegative,
    InsufficientBalance,
    BalanceOverflow,
    SupplyOverflow,
    SupplyUnderflow,
    SupplyCapExceeded,
    Unauthorized,
    MaxSupplyNotPositive,
    MaxSupplyBelowSupply,
    NewAdminSame,
    ExpirationNotInFuture,
    AllowanceNotFound,
    AllowanceExpired,
    InsufficientAllowance,
}

/// An approved amount that a spender may move for an owner, valid up to and
/// including `expiration_ledger`.
#[derive(Clone, Copy, Debug, PartialEq, Eq, Structural)]
pub struct Allowance {
    pub amount: i128,
    pub expiration_ledger: u32,
}

/// Emitted when tokens are minted.
#[derive(Debug, PartialEq, Eq)]
pub struct MintEvent {
    pub admin: Address,
    pub to: Address,
    pub amount: i128,
}

/// Emitted when tokens move from one account to another.
#[derive(Debug, PartialEq, Eq)]
pub struct TransferEvent {
    pub from: Address,
    pub to: Address,
    pub amount: i128,
}

/// Emitted when tokens are burned.
#[derive(Debug, PartialEq, Eq)]
pub struct BurnEvent {
    pub from: Address,
    pub amount: i128,
}

/// Emitted when a spender moves tokens under an allowance.
#[derive(Debug, PartialEq, Eq)]
pub struct TransferFromEvent {
    pub from: Address,
    pub to: Address,
    pub spender: Address,
    pub amount: i128,
}

/// Emitted when an owner sets an allowance.
#[derive(Debug, PartialEq, Eq)]
pub struct ApproveEvent {
    pub owner: Address,
    pub spender: Address,
    pub amount: i128,
    pub expiration_ledger: u32,
}

/// Emitted when the admin sets the supply cap.
#[derive(Debug, PartialEq, Eq)]
pub struct MaxSupplyUpdatedEvent {
    pub admin: Address,
    pub max_supply: i128,
}

/// Emitted when the admin replaces the token metadata.
#[derive(Debug, PartialEq, Eq)]
pub struct MetadataUpdatedEvent {
    pub admin: Address,
    pub name: String,
    pub symbol: String,
    pub decimal: u32,
}

/// The content of the token's storage.
pub struct TokenModel {
    pub admin: Option<Seq<char>>,
    pub minter: Option<Seq<char>>,
    /// Name, symbol and number of decimals.
    pub metadata: Option<(Seq<char>, Seq<char>, u32)>,
    pub supply: i128,
    pub max_supply: Option<i128>,
    /// Balances that have been written; an account never written holds 0.
    pub balances: Map<Seq<char>, i128>,
    /// Allowances keyed by (owner, spender).
    pub allowances: Map<(Seq<char>, Seq<char>), Allowance>,
}

impl TokenModel {
    /// A freshly deployed, uninitialized token.
    pub open spec fn empty() -> TokenModel {
        TokenModel {
            admin: None,
            minter: None,
            metadata: None,
            supply: 0,
            max_supply: None,
            balances: Map::empty(),
            allowances: Map::empty(),
        }
    }

    /// What the token holds together at every moment: the supply is the sum
    /// of all balances, no balance or allowance is negative, the supply stays
    /// within the cap, and the admin, minter and metadata are set together.
    pub open spec fn inv(self) -> bool {
        &&& self.balances.dom().finite()
        &&& forall|a: Seq<char>| #[trigger] self.balances.contains_key(a) ==> self.balances[a] >= 0
        &&& map_total(self.balances) == self.supply
        &&& self.admin is None ==> self.supply == 0
        &&& self.max_supply matches Some(cap) ==> 0 < cap && self.supply <= cap
        &&& forall|k: (Seq<char>, Seq<char>)| #[trigger] self.allowances.contains_key(k)
            ==> self.allowances[k].amount >= 0
        &&& self.admin is Some <==> self.minter is Some
        &&& self.admin is Some <==> self.metadata is Some
    }

    /// The balance of an account.
    pub open spec fn balance_of(self, a: Seq<char>) -> i128 {
        if self.balances.contains_key(a) {
            self.balances[a]
        } else {
            0
        }
    }

    /// The supply cap, `i128::MAX` when none is set.
    pub open spec fn cap(self) -> i128 {
        match self.max_supply {
            Some(c) => c,
            None => i128::MAX,
        }
    }

    pub open spec fn initialize(
        self,
        admin: Seq<char>,
        name: Seq<char>,
        symbol: Seq<char>,
        decimal: u32,
    ) -> Result<TokenModel, TokenError> {
        if self.admin is Some {
            Err(TokenError::AlreadyInitialized)
        } else {
            Ok(
                TokenModel {
                    admin: Some(admin),
                    minter: Some(admin),
                    metadata: Some((name, symbol, decimal)),
                    supply: 0,
                    ..self
                },
            )
        }
    }

    pub open spec fn mint(self, to: Seq<char>, amount: i128) -> Result<TokenModel, TokenError> {
        if self.minter is None {
            Err(TokenError::NotInitialized)
        } else if amount <= 0 {
            Err(TokenError::AmountNotPositive)
        } else if self.max_supply is Some && self.supply + amount > i128::MAX {
            Err(TokenError::SupplyOverflow)
        } else if self.max_supply is Some && self.supply + amount > self.max_supply->0 {
            Err(TokenError::SupplyCapExceeded)
        } else if self.balance_of(to) + amount > i128::MAX {
            Err(TokenError::BalanceOverflow)
        } else if self.supply + amount > i128::MAX {
            Err(TokenError::SupplyOverflow)
        } else {
            Ok(
                TokenModel {
                    balances: self.balances.insert(to, (self.balance_of(to) + amount) as i128),
                    supply: (self.supply + amount) as i128,
                    ..self
                },
            )
        }
    }

    /// The balances after moving `amount` from `from` to `to`, the balance of
    /// `to` being read after `from` was debited.
    pub open spec fn moved(self, from: Seq<char>, to: Seq<char>, amount: i128) -> Map<
        Seq<char>,
        i128,
    > {
        let debited = self.balances.insert(from, (self.balance_of(from) - amount) as i128);
        let to_balance = if to == from {
            self.balance_of(from) - amount
        } else {
            self.balance_of(to) as int
        };
        debited.insert(to, (to_balance + amount) as i128)
    }

    /// Whether crediting `to` after debiting `from` would overflow.
    pub open spec fn credit_overflows(self, from: Seq<char>, to: Seq<char>, amount: i128) -> bool {
        to != from && self.balance_of(to) + amount > i128::MAX
    }

    pub open spec fn transfer(self, from: Seq<char>, to: Seq<char>, amount: i128) -> Result<
        TokenModel,
        TokenError,
    > {
        if amount <= 0 {
            Err(TokenError::AmountNotPositive)
        } else if self.balance_of(from) < amount {
            Err(TokenError::InsufficientBalance)
        } else if self.credit_overflows(from, to, amount) {
            Err(TokenError::BalanceOverflow)
        } else {
            Ok(TokenModel { balances: self.moved(from, to, amount), ..self })
        }
    }

    pub open spec fn set_max_supply(self, caller: Seq<char>, max_supply: i128) -> Result<
        TokenModel,
        TokenError,
    > {
        if self.admin is None {
            Err(TokenError::NotInitialized)
        } else if caller != self.admin->0 {
            Err(TokenError::Unauthorized)
        } else if max_supply <= 0 {
            Err(TokenError::MaxSupplyNotPositive)
        } else if max_supply < self.supply {
            Err(TokenError::MaxSupplyBelowSupply)
        } else {
            Ok(TokenModel { max_supply: Some(max_supply), ..self })
        }
    }

    pub open spec fn set_metadata(
        self,
        caller: Seq<char>,
        name: Seq<char>,
        symbol: Seq<char>,
        decimal: u32,
    ) -> Result<TokenModel, TokenError> {
        if self.admin is None {
            Err(TokenError::NotInitialized)
        } else if caller != self.admin->0 {
            Err(TokenError::Unauthorized)
        } else {
            Ok(TokenModel { metadata: Some((name, symbol, decimal)), ..self })
        }
    }

    pub open spec fn transfer_admin(self, current_admin: Seq<char>, new_admin: Seq<char>) -> Result<
        TokenModel,
        TokenError,
    > {
        if self.admin is None {
            Err(TokenError::NotInitialized)
        } else if current_admin != self.admin->0 {
            Err(TokenError::Unauthorized)
        } else if new_admin == current_admin {
            Err(TokenError::NewAdminSame)
        } else {
            Ok(TokenModel { admin: Some(new_admin), ..self })
        }
    }

    pub open spec fn set_minter(self, caller: Seq<char>, new_minter: Seq<char>) -> Result<
        TokenModel,
        TokenError,
    > {
        if self.admin is None {
            Err(TokenError::NotInitialized)
        } else if caller != self.admin->0 {
            Err(TokenError::Unauthorized)
        } else {
            Ok(TokenModel { minter: Some(new_minter), ..self })
        }
    }

    pub open spec fn burn(self, from: Seq<char>, amount: i128) -> Result<TokenModel, TokenError> {
        if amount <= 0 {
            Err(TokenError::AmountNotPositive)
        } else if self.balance_of(from) < amount {
            Err(TokenError::InsufficientBalance)
        } else if self.supply - amount < i128::MIN {
            Err(TokenError::SupplyUnderflow)
        } else {
            Ok(
                TokenModel {
                    balances: self.balances.insert(from, (self.balance_of(from) - amount) as i128),
                    supply: (self.supply - amount) as i128,
                    ..self
                },
            )
        }
    }

    pub open spec fn approve(
        self,
        owner: Seq<char>,
        spender: Seq<char>,
        amount: i128,
        expiration_ledger: u32,
        sequence: u32,
    ) -> Result<TokenModel, TokenError> {
        if amount < 0 {
            Err(TokenError::AmountNegative)
        } else if expiration_ledger <= sequence {
            Err(TokenError::ExpirationNotInFuture)
        } else {
            Ok(
                TokenModel {
                    allowances: self.allowances.insert(
                        (owner, spender),
                        Allowance { amount, expiration_ledger },
                    ),
                    ..self
                },
            )
        }
    }

    /// The allowance that `allowance` reports: the stored amount while it is
    /// live, 0 when it has expired or was never set.
    pub open spec fn allowance_amount(self, owner: Seq<char>, spender: Seq<char>, sequence: u32) -> i128 {
        if self.allowances.contains_key((owner, spender)) && sequence
            <= self.allowances[(owner, spender)].expiration_ledger {
            self.allowances[(owner, spender)].amount
        } else {
            0
        }
    }

    /// The storage after `allowance` was read: an expired allowance is removed.
    pub open spec fn after_allowance_read(self, owner: Seq<char>, spender: Seq<char>, sequence: u32) -> TokenModel {
        if self.allowances.contains_key((owner, spender))
            && self.allowances[(owner, spender)].expiration_ledger < sequence {
            TokenModel { allowances: self.allowances.remove((owner, spender)), ..self }
        } else {
            self
        }
    }

    /// What `allowance_with_expiry` reports: nothing when no allowance is
    /// stored, otherwise the live amount (0 once expired) and the expiration.
    pub open spec fn allowance_expiry(self, owner: Seq<char>, spender: Seq<char>, sequence: u32) -> Option<(i128, u32)> {
        if self.allowances.contains_key((owner, spender)) {
            let a = self.allowances[(owner, spender)];
            if a.expiration_ledger < sequence {
                Some((0, a.expiration_ledger))
            } else {
                Some((a.amount, a.expiration_ledger))
            }
        } else {
            None
        }
    }

    pub open spec fn transfer_from(
        self,
        spender: Seq<char>,
        from: Seq<char>,
        to: Seq<char>,
        amount: i128,
        sequence: u32,
    ) -> Result<TokenModel, TokenError> {
        let key = (from, spender);
        if amount <= 0 {
            Err(TokenError::AmountNotPositive)
        } else if !self.allowances.contains_key(key) {
            Err(TokenError::AllowanceNotFound)
        } else if self.allowances[key].expiration_ledger < sequence {
            Err(TokenError::AllowanceExpired)
        } else if self.allowances[key].amount < amount {
            Err(TokenError::InsufficientAllowance)
        } else if self.balance_of(from) < amount {
            Err(TokenError::InsufficientBalance)
        } else if self.credit_overflows(from, to, amount) {
            Err(TokenError::BalanceOverflow)
        } else {
            let a = self.allowances[key];
            Ok(
                TokenModel {
                    allowances: self.allowances.insert(
                        key,
                        Allowance {
                            amount: (a.amount - amount) as i128,
                            expiration_ledger: a.expiration_ledger,
                        },
                    ),
                    balances: self.moved(from, to, amount),
                    ..self
                },
            )
        }
    }
}


/// Laws of the token model.
impl TokenModel {
    /// The supply is never negative and never above the cap (`i128::MAX`
    /// when no cap is set), and every balance lies between 0 and the supply.
    pub proof fn lemma_supply_bounds(self)
        requires
            self.inv(),
        ensures
            0 <= self.supply <= self.cap(),
            forall|a: Seq<char>| 0 <= #[trigger] self.balance_of(a) <= self.supply,
    {
        lemma_total_bounds(self.balances);
        assert forall|a: Seq<char>| 0 <= #[trigger] self.balance_of(a) <= self.supply by {
            if self.balances.contains_key(a) {
            }
        }
    }

    /// A transfer keeps the supply, debits `from` and credits `to` by
    /// exactly `amount` (a transfer to oneself changes nothing), and leaves
    /// every other balance and all allowances alone.
    pub proof fn lemma_transfer_moves_amount(self, from: Seq<char>, to: Seq<char>, amount: i128)
        requires
            self.inv(),
            self.transfer(from, to, amount) is Ok,
        ensures
            ({
                let next = self.transfer(from, to, amount)->Ok_0;
                &&& next.supply == self.supply
                &&& next.allowances == self.allowances
                &&& from != to ==> next.balance_of(from) == self.balance_of(from) - amount
                    && next.balance_of(to) == self.balance_of(to) + amount
                &&& from == to ==> next.balance_of(from) == self.balance_of(from)
                &&& forall|a: Seq<char>|
                    a != from && a != to ==> #[trigger] next.balance_of(a) == self.balance_of(a)
            }),
    {
    }

    /// Burning what was just minted restores every balance and the supply.
    pub proof fn lemma_mint_then_burn_restores(self, to: Seq<char>, amount: i128)
        requires
            self.inv(),
            self.mint(to, amount) is Ok,
        ensures
            self.mint(to, amount)->Ok_0.burn(to, amount) is Ok,
            ({
                let back = self.mint(to, amount)->Ok_0.burn(to, amount)->Ok_0;
                &&& back.supply == self.supply
                &&& forall|a: Seq<char>| #[trigger] back.balance_of(a) == self.balance_of(a)
            }),
    {
        self.lemma_supply_bounds();
    }

    /// An approved allowance reads back as approved, amount and expiration,
    /// at every ledger up to and including its expiration.
    pub proof fn lemma_approve_then_read(
        self,
        owner: Seq<char>,
        spender: Seq<char>,
        amount: i128,
        expiration_ledger: u32,
        sequence: u32,
        later: u32,
    )
        requires
            self.approve(owner, spender, amount, expiration_ledger, sequence) is Ok,
            later <= expiration_ledger,
        ensures
            ({
                let next = self.approve(owner, spender, amount, expiration_ledger, sequence)->Ok_0;
                &&& next.allowance_amount(owner, spender, later) == amount
                &&& next.allowance_expiry(owner, spender, later) == Some((amount, expiration_ledger))
                &&& next.after_allowance_read(owner, spender, later) == next
            }),
    {
    }

    /// An expired allowance reads as 0; `allowance_with_expiry` still shows
    /// it (with amount 0) until `allowance` has read it, after which it is
    /// gone, as if it had never been set.
    pub proof fn lemma_expired_allowance(self, owner: Seq<char>, spender: Seq<char>, sequence: u32)
        requires
            self.allowances.contains_key((owner, spender)),
            self.allowances[(owner, spender)].expiration_ledger < sequence,
        ensures
            self.allowance_amount(owner, spender, sequence) == 0,
            self.allowance_expiry(owner, spender, sequence) == Some(
                (0i128, self.allowances[(owner, spender)].expiration_ledger),
            ),
            self.after_allowance_read(owner, spender, sequence).allowance_expiry(
                owner,
                spender,
                sequence,
            ) == None::<(i128, u32)>,
    {
    }

    /// A spend under an allowance shrinks it by exactly the amount moved and
    /// keeps its expiration; the supply is unchanged.
    pub proof fn lemma_transfer_from_spends_allowance(
        self,
        spender: Seq<char>,
        from: Seq<char>,
        to: Seq<char>,
        amount: i128,
        sequence: u32,
    )
        requires
            self.transfer_from(spender, from, to, amount, sequence) is Ok,
        ensures
            ({
                let next = self.transfer_from(spender, from, to, amount, sequence)->Ok_0;
                &&& next.allowances[(from, spender)].amount == self.allowances[(
                    from,
                    spender,
                )].amount - amount
                &&& next.allowances[(from, spender)].expiration_ledger == self.allowances[(
                    from,
                    spender,
                )].expiration_ledger
                &&& next.supply == self.supply
                &&& next.balances == self.moved(from, to, amount)
            }),
    {
    }
}


/// When each token request is accepted, and what an accepted request does,
/// stated over balances, allowances and the supply.
impl TokenModel {
    /// A transfer is accepted exactly when the amount is positive, `from`
    /// holds at least the amount, and crediting `to` does not overflow. An
    /// accepted transfer debits `from` and credits `to` by the amount (a
    /// transfer to oneself changes no balance) and touches nothing else.
    pub proof fn lemma_transfer_outcome(self, from: Seq<char>, to: Seq<char>, amount: i128)
        ensures
            self.transfer(from, to, amount) is Ok <==> (0 < amount && amount <= self.balance_of(
                from,
            ) && (from == to || self.balance_of(to) + amount <= i128::MAX)),
            amount <= 0 ==> self.transfer(from, to, amount) == Err::<TokenModel, TokenError>(
                TokenError::AmountNotPositive,
            ),
            0 < amount && self.balance_of(from) < amount ==> self.transfer(from, to, amount) == Err::<
                TokenModel,
                TokenError,
            >(TokenError::InsufficientBalance),
            self.transfer(from, to, amount) is Ok ==> ({
                let next = self.transfer(from, to, amount)->Ok_0;
                &&& next.supply == self.supply
                &&& next.max_supply == self.max_supply
                &&& next.admin == self.admin
                &&& next.minter == self.minter
                &&& next.metadata == self.metadata
                &&& next.allowances == self.allowances
                &&& from != to ==> next.balance_of(from) == self.balance_of(from) - amount
                    && next.balance_of(to) == self.balance_of(to) + amount
                &&& from == to ==> next.balance_of(from) == self.balance_of(from)
                &&& forall|a: Seq<char>|
                    a != from && a != to ==> #[trigger] next.balance_of(a) == self.balance_of(a)
            }),
    {
    }

    /// A spend under an allowance is accepted exactly when the amount is
    /// positive, an allowance from `from` to `spender` exists, has not expired
    /// at `sequence` (it is live up to and including its expiration ledger),
    /// covers the amount, `from` holds the amount, and crediting `to` does not
    /// overflow. It then moves the amount like a transfer and lowers that one
    /// allowance by the amount, keeping its expiration.
    pub proof fn lemma_transfer_from_outcome(
        self,
        spender: Seq<char>,
        from: Seq<char>,
        to: Seq<char>,
        amount: i128,
        sequence: u32,
    )
        ensures
            self.transfer_from(spender, from, to, amount, sequence) is Ok <==> ({
                &&& 0 < amount
                &&& self.allowances.contains_key((from, spender))
                &&& sequence <= self.allowances[(from, spender)].expiration_ledger
                &&& amount <= self.allowances[(from, spender)].amount
                &&& amount <= self.balance_of(from)
                &&& (from == to || self.balance_of(to) + amount <= i128::MAX)
            }),
            self.transfer_from(spender, from, to, amount, sequence) is Ok ==> ({
                let next = self.transfer_from(spender, from, to, amount, sequence)->Ok_0;
                let a = self.allowances[(from, spender)];
                &&& next.allowances == self.allowances.insert(
                    (from, spender),
                    Allowance {
                        amount: (a.amount - amount) as i128,
                        expiration_ledger: a.expiration_ledger,
                    },
                )
                &&& next.supply == self.supply
                &&& next.max_supply == self.max_supply
                &&& next.admin == self.admin
                &&& next.minter == self.minter
                &&& next.metadata == self.metadata
                &&& from != to ==> next.balance_of(from) == self.balance_of(from) - amount
                    && next.balance_of(to) == self.balance_of(to) + amount
                &&& from == to ==> next.balance_of(from) == self.balance_of(from)
                &&& forall|x: Seq<char>|
                    x != from && x != to ==> #[trigger] next.balance_of(x) == self.balance_of(x)
            }),
    {
    }

    /// A mint is accepted exactly when the token has a minter, the amount is
    /// positive, the new supply stays within the cap (if one is set) and
    /// neither the recipient's balance nor the supply overflows. It then
    /// credits the recipient and raises the supply by the amount.
    pub proof fn lemma_mint_outcome(self, to: Seq<char>, amount: i128)
        ensures
            self.mint(to, amount) is Ok <==> ({
                &&& self.minter is Some
                &&& 0 < amount
                &&& (self.max_supply matches Some(c) ==> self.supply + amount <= c)
                &&& self.balance_of(to) + amount <= i128::MAX
                &&& self.supply + amount <= i128::MAX
            }),
            self.mint(to, amount) is Ok ==> ({
                let next = self.mint(to, amount)->Ok_0;
                &&& next.supply == self.supply + amount
                &&& next.balance_of(to) == self.balance_of(to) + amount
                &&& forall|a: Seq<char>| a != to ==> #[trigger] next.balance_of(a) == self.balance_of(a)
                &&& next.max_supply == self.max_supply
                &&& next.admin == self.admin
                &&& next.minter == self.minter
                &&& next.metadata == self.metadata
                &&& next.allowances == self.allowances
            }),
    {
    }

    /// A burn is accepted exactly when the amount is positive, the account
    /// holds it and the supply does not underflow. It then lowers the
    /// account's balance and the supply by the amount.
    pub proof fn lemma_burn_outcome(self, from: Seq<char>, amount: i128)
        ensures
            self.burn(from, amount) is Ok <==> (0 < amount && amount <= self.balance_of(from)
                && self.supply - amount >= i128::MIN),
            self.burn(from, amount) is Ok ==> ({
                let next = self.burn(from, amount)->Ok_0;
                &&& next.supply == self.supply - amount
                &&& next.balance_of(from) == self.balance_of(from) - amount
                &&& forall|a: Seq<char>| a != from ==> #[trigger] next.balance_of(a) == self.balance_of(a)
                &&& next.max_supply == self.max_supply
                &&& next.admin == self.admin
                &&& next.minter == self.minter
                &&& next.allowances == self.allowances
            }),
    {
    }

    /// An approval is accepted exactly when the amount is not negative and
    /// the expiration lies after the current ledger. It then sets that one
    /// allowance and nothing else.
    pub proof fn lemma_approve_outcome(
        self,
        owner: Seq<char>,
        spender: Seq<char>,
        amount: i128,
        expiration_ledger: u32,
        sequence: u32,
    )
        ensures
            self.approve(owner, spender, amount, expiration_ledger, sequence) is Ok <==> (0 <= amount
                && sequence < expiration_ledger),
            self.approve(owner, spender, amount, expiration_ledger, sequence) is Ok ==> ({
                let next = self.approve(owner, spender, amount, expiration_ledger, sequence)->Ok_0;
                &&& next.allowances == self.allowances.insert(
                    (owner, spender),
                    Allowance { amount, expiration_ledger },
                )
                &&& next.balances == self.balances
                &&& next.supply == self.supply
            }),
    {
    }
}

/// The view of optional metadata.
pub open spec fn meta_view(m: Option<(String, String, u32)>) -> Option<(Seq<char>, Seq<char>, u32)> {
    match m {
        Some(t) => Some((t.0@, t.1@, t.2)),
        None => None,
    }
}

/// The reward token's state, as its contract storage holds it.
pub struct TokenContract {
    admin: Option<Address>,
    minter: Option<Address>,
    metadata: Option<(String, String, u32)>,
    supply: i128,
    max_supply: Option<i128>,
    balances: KeyedMap<Address, i128>,
    allowances: KeyedMap<(Address, Address), Allowance>,
}

impl View for TokenContract {
    type V = TokenModel;

    closed spec fn view(&self) -> TokenModel {
        TokenModel {
            admin: opt_address_view(self.admin),
            minter: opt_address_view(self.minter),
            metadata: meta_view(self.metadata),
            supply: self.supply,
            max_supply: self.max_supply,
            balances: self.balances@,
            allowances: self.allowances@,
        }
    }
}

impl TokenContract {
    /// Well-formedness: the storage tables are well formed and the model's
    /// invariant holds.
    pub closed spec fn wf(&self) -> bool {
        &&& self.balances.wf()
        &&& self.allowances.wf()
        &&& self@.inv()
    }

    /// Every token the entry points can produce satisfies the model's
    /// invariant: the supply is the sum of all balances, within the cap.
    pub proof fn lemma_wf_inv(&self)
        requires
            self.wf(),
        ensures
            self@.inv(),
    {
    }

    /// A freshly deployed token, not yet initialized.
    pub fn new() -> (r: TokenContract)
        ensures
            r.wf(),
            r@ == TokenModel::empty(),
    {
        let r = TokenContract {
            admin: None,
            minter: None,
            metadata: None,
            supply: 0,
            max_supply: None,
            balances: KeyedMap::new(),
            allowances: KeyedMap::new(),
        };
        proof {
            r.balances.lemma_finite();
            assert(map_total(r.balances@) == 0);
        }
        r
    }

    fn read_balance(&self, a: &Address) -> (r: i128)
        requires
            self.balances.wf(),
        ensures
            r == self@.balance_of(a@),
    {
        match self.balances.get(a) {
            Some(b) => *b,
            None => 0,
        }
    }

    /// Sets up admin (who is also the first minter), metadata and a zero supply.
    pub fn initialize(&mut self, admin: Address, name: String, symbol: String, decimal: u32) -> (r:
        Result<(), TokenError>)
        requires
            old(self).wf(),
        ensures
            final(self).wf(),
            match old(self)@.initialize(admin@, name@, symbol@, decimal) {
                Ok(m) => r is Ok && final(self)@ == m,
                Err(e) => r == Err::<(), TokenError>(e) && final(self)@ == old(self)@,
            },
    {
        if self.admin.is_some() {
            return Err(TokenError::AlreadyInitialized);
        }
        self.minter = Some(admin.clone());
        self.admin = Some(admin);
        self.metadata = Some((name, symbol, decimal));
        self.supply = 0;
        Ok(())
    }

    /// Mints `amount` new tokens to `to`. The minter must have authorized
    /// the call.
    pub fn mint(&mut self, to: Address, amount: i128) -> (r: Result<MintEvent, TokenError>)
        requires
            old(self).wf(),
        ensures
            final(self).wf(),
            match old(self)@.mint(to@, amount) {
                Ok(m) => {
                    &&& final(self)@ == m
                    &&& r matches Ok(ev)
                    &&& Some(ev.admin@) == old(self)@.minter
                    &&& ev.to@ == to@
                    &&& ev.amount == amount
                },
                Err(e) => r == Err::<MintEvent, TokenError>(e) && final(self)@ == old(self)@,
            },
    {
        let minter = match &self.minter {
            Some(m) => m.clone(),
            None => {
                return Err(TokenError::NotInitialized);
            },
        };
        if amount <= 0 {
            return Err(TokenError::AmountNotPositive);
        }
        let supply = self.supply;
        match self.max_supply {
            Some(cap) => {
                let new_supply = match supply.checked_add(amount) {
                    Some(s) => s,
                    None => {
                        return Err(TokenError::SupplyOverflow);
                    },
                };
                if new_supply > cap {
                    return Err(TokenError::SupplyCapExceeded);
                }
            },
            None => {},
        }
        let balance = self.read_balance(&to);
        let new_balance = match balance.checked_add(amount) {
            Some(b) => b,
            None => {
                return Err(TokenError::BalanceOverflow);
            },
        };
        let new_supply = match supply.checked_add(amount) {
            Some(s) => s,
            None => {
                return Err(TokenError::SupplyOverflow);
            },
        };
        proof {
            lemma_total_insert(self.balances@, to@, new_balance);
        }
        self.balances.insert(to.clone(), new_balance);
        self.supply = new_supply;
        proof {
            self.balances.lemma_finite();
        }
        Ok(MintEvent { admin: minter, to, amount })
    }

    /// Debits `from` and credits `to` in storage; `to_balance` is the balance
    /// of `to` read after the debit.
    fn move_balance(&mut self, from: &Address, to: &Address, new_from: i128, new_to: i128)
        requires
            old(self).wf(),
            new_from >= 0,
            new_to >= 0,
            new_from == old(self)@.balance_of(from@) - (new_to - (if to@ == from@ {
                new_from as int
            } else {
                old(self)@.balance_of(to@) as int
            })),
        ensures
            final(self).wf(),
            final(self)@ == (TokenModel {
                balances: old(self)@.balances.insert(from@, new_from).insert(to@, new_to),
                ..old(self)@
            }),
    {
        let ghost b0 = self.balances@;
        proof {
            lemma_total_insert(b0, from@, new_from);
            lemma_total_insert(b0.insert(from@, new_from), to@, new_to);
        }
        self.balances.insert(from.clone(), new_from);
        self.balances.insert(to.clone(), new_to);
        proof {
            self.balances.lemma_finite();
        }
    }

    /// Moves `amount` from `from` to `to`. `from` must have authorized the call.
    pub fn transfer(&mut self, from: Address, to: Address, amount: i128) -> (r: Result<
        TransferEvent,
        TokenError,
    >)
        requires
            old(self).wf(),
        ensures
            final(self).wf(),
            match old(self)@.transfer(from@, to@, amount) {
                Ok(m) => {
                    &&& final(self)@ == m
                    &&& r matches Ok(ev)
                    &&& ev.from@ == from@
                    &&& ev.to@ == to@
                    &&& ev.amount == amount
                },
                Err(e) => r == Err::<TransferEvent, TokenError>(e) && final(self)@ == old(self)@,
            },
    {
        if amount <= 0 {
            return Err(TokenError::AmountNotPositive);
        }
        let from_balance = self.read_balance(&from);
        if from_balance < amount {
            return Err(TokenError::InsufficientBalance);
        }
        let new_from = from_balance - amount;
        let to_balance = if to.same_as(&from) {
            new_from
        } else {
            self.read_balance(&to)
        };
        let new_to = match to_balance.checked_add(amount) {
            Some(b) => b,
            None => {
                return Err(TokenError::BalanceOverflow);
            },
        };
        proof {
            if !(to@ == from@) {
                assert(to_balance >= 0);
            }
        }
        self.move_balance(&from, &to, new_from, new_to);
        Ok(TransferEvent { from, to, amount })
    }

    /// The balance of an account; 0 for an account never credited.
    pub fn balance(&self, id: &Address) -> (r: i128)
        requires
            self.wf(),
        ensures
            r == self@.balance_of(id@),
    {
        self.read_balance(id)
    }

    /// The total number of tokens in existence.
    pub fn total_supply(&self) -> (r: i128)
        ensures
            r == self@.supply,
    {
        self.supply
    }

    /// The hard cap on total supply, or `i128::MAX` if no cap has been set.
    pub fn max_supply(&self) -> (r: i128)
        ensures
            r == self@.cap(),
    {
        match self.max_supply {
            Some(c) => c,
            None => i128::MAX,
        }
    }

    /// Sets the hard supply cap. Admin-only; the cap must be positive and not
    /// below the current supply.
    pub fn set_max_supply(&mut self, caller: &Address, max_supply: i128) -> (r: Result<
        MaxSupplyUpdatedEvent,
        TokenError,
    >)
        requires
            old(self).wf(),
        ensures
            final(self).wf(),
            match old(self)@.set_max_supply(caller@, max_supply) {
                Ok(m) => {
                    &&& final(self)@ == m
                    &&& r matches Ok(ev)
                    &&& Some(ev.admin@) == old(self)@.admin
                    &&& ev.max_supply == max_supply
                },
                Err(e) => r == Err::<MaxSupplyUpdatedEvent, TokenError>(e) && final(self)@ == old(
                    self,
                )@,
            },
    {
        let admin = match &self.admin {
            Some(a) => a.clone(),
            None => {
                return Err(TokenError::NotInitialized);
            },
        };
        if !caller.same_as(&admin) {
            return Err(TokenError::Unauthorized);
        }
        if max_supply <= 0 {
            return Err(TokenError::MaxSupplyNotPositive);
        }
        if max_supply < self.supply {
            return Err(TokenError::MaxSupplyBelowSupply);
        }
        self.max_supply = Some(max_supply);
        Ok(MaxSupplyUpdatedEvent { admin, max_supply })
    }

    /// The token's name.
    pub fn name(&self) -> (r: Result<String, TokenError>)
        ensures
            match self@.metadata {
                Some(md) => r matches Ok(s) && s@ == md.0,
                None => r == Err::<String, TokenError>(TokenError::NotInitialized),
            },
    {
        match &self.metadata {
            Some(md) => Ok(md.0.clone()),
            None => Err(TokenError::NotInitialized),
        }
    }

    /// The token's symbol.
    pub fn symbol(&self) -> (r: Result<String, TokenError>)
        ensures
            match self@.metadata {
                Some(md) => r matches Ok(s) && s@ == md.1,
                None => r == Err::<String, TokenError>(TokenError::NotInitialized),
            },
    {
        match &self.metadata {
            Some(md) => Ok(md.1.clone()),
            None => Err(TokenError::NotInitialized),
        }
    }

    /// The number of decimals.
    pub fn decimal(&self) -> (r: Result<u32, TokenError>)
        ensures
            match self@.metadata {
                Some(md) => r == Ok::<u32, TokenError>(md.2),
                None => r == Err::<u32, TokenError>(TokenError::NotInitialized),
            },
    {
        match &self.metadata {
            Some(md) => Ok(md.2),
            None => Err(TokenError::NotInitialized),
        }
    }

    /// SEP-0041 alias for `decimal`.
    pub fn decimals(&self) -> (r: Result<u32, TokenError>)
        ensures
            match self@.metadata {
                Some(md) => r == Ok::<u32, TokenError>(md.2),
                None => r == Err::<u32, TokenError>(TokenError::NotInitialized),
            },
    {
        self.decimal()
    }

    /// Replaces the token metadata. Admin-only.
    pub fn set_metadata(&mut self, caller: &Address, name: String, symbol: String, decimal: u32) -> (r:
        Result<MetadataUpdatedEvent, TokenError>)
        requires
            old(self).wf(),
        ensures
            final(self).wf(),
            match old(self)@.set_metadata(caller@, name@, symbol@, decimal) {
                Ok(m) => {
                    &&& final(self)@ == m
                    &&& r matches Ok(ev)
                    &&& Some(ev.admin@) == old(self)@.admin
                    &&& ev.name@ == name@
                    &&& ev.symbol@ == symbol@
                    &&& ev.decimal == decimal
                },
                Err(e) => r == Err::<MetadataUpdatedEvent, TokenError>(e) && final(self)@ == old(
                    self,
                )@,
            },
    {
        let admin = match &self.admin {
            Some(a) => a.clone(),
            None => {
                return Err(TokenError::NotInitialized);
            },
        };
        if !caller.same_as(&admin) {
            return Err(TokenError::Unauthorized);
        }
        let event_name = name.clone();
        let event_symbol = symbol.clone();
        self.metadata = Some((name, symbol, decimal));
        Ok(MetadataUpdatedEvent { admin, name: event_name, symbol: event_symbol, decimal })
    }

    /// The admin.
    pub fn admin(&self) -> (r: Result<Address, TokenError>)
        ensures
            match self@.admin {
                Some(a) => r matches Ok(x) && x@ == a,
                None => r == Err::<Address, TokenError>(TokenError::NotInitialized),
            },
    {
        match &self.admin {
            Some(a) => Ok(a.clone()),
            None => Err(TokenError::NotInitialized),
        }
    }

    /// Hands the admin role to a different address. `current_admin` must
    /// have authorized the call.
    pub fn transfer_admin(&mut self, current_admin: &Address, new_admin: Address) -> (r: Result<
        (),
        TokenError,
    >)
        requires
            old(self).wf(),
        ensures
            final(self).wf(),
            match old(self)@.transfer_admin(current_admin@, new_admin@) {
                Ok(m) => r is Ok && final(self)@ == m,
                Err(e) => r == Err::<(), TokenError>(e) && final(self)@ == old(self)@,
            },
    {
        match &self.admin {
            Some(a) => {
                if !current_admin.same_as(a) {
                    return Err(TokenError::Unauthorized);
                }
            },
            None => {
                return Err(TokenError::NotInitialized);
            },
        }
        if new_admin.same_as(current_admin) {
            return Err(TokenError::NewAdminSame);
        }
        self.admin = Some(new_admin);
        Ok(())
    }

    /// The address allowed to mint.
    pub fn minter(&self) -> (r: Result<Address, TokenError>)
        ensures
            match self@.minter {
                Some(a) => r matches Ok(x) && x@ == a,
                None => r == Err::<Address, TokenError>(TokenError::NotInitialized),
            },
    {
        match &self.minter {
            Some(a) => Ok(a.clone()),
            None => Err(TokenError::NotInitialized),
        }
    }

    /// Hands minting rights to `new_minter`. Admin-only.
    pub fn set_minter(&mut self, caller: &Address, new_minter: Address) -> (r: Result<(), TokenError>)
        requires
            old(self).wf(),
        ensures
            final(self).wf(),
            match old(self)@.set_minter(caller@, new_minter@) {
                Ok(m) => r is Ok && final(self)@ == m,
                Err(e) => r == Err::<(), TokenError>(e) && final(self)@ == old(self)@,
            },
    {
        match &self.admin {
            Some(a) => {
                if !caller.same_as(a) {
                    return Err(TokenError::Unauthorized);
                }
            },
            None => {
                return Err(TokenError::NotInitialized);
            },
        }
        self.minter = Some(new_minter);
        Ok(())
    }

    /// Destroys `amount` tokens held by `from`. `from` must have authorized
    /// the call.
    pub fn burn(&mut self, from: Address, amount: i128) -> (r: Result<BurnEvent, TokenError>)
        requires
            old(self).wf(),
        ensures
            final(self).wf(),
            match old(self)@.burn(from@, amount) {
                Ok(m) => {
                    &&& final(self)@ == m
                    &&& r matches Ok(ev)
                    &&& ev.from@ == from@
                    &&& ev.amount == amount
                },
                Err(e) => r == Err::<BurnEvent, TokenError>(e) && final(self)@ == old(self)@,
            },
    {
        if amount <= 0 {
            return Err(TokenError::AmountNotPositive);
        }
        let balance = self.read_balance(&from);
        if balance < amount {
            return Err(TokenError::InsufficientBalance);
        }
        let new_balance = balance - amount;
        let new_supply = match self.supply.checked_sub(amount) {
            Some(s) => s,
            None => {
                return Err(TokenError::SupplyUnderflow);
            },
        };
        proof {
            lemma_total_insert(self.balances@, from@, new_balance);
        }
        self.balances.insert(from.clone(), new_balance);
        self.supply = new_supply;
        proof {
            self.balances.lemma_finite();
            lemma_total_bounds(self.balances@);
        }
        Ok(BurnEvent { from, amount })
    }

    /// Lets `spender` move up to `amount` of `owner`'s tokens until ledger
    /// `expiration_ledger`, replacing any earlier allowance. `owner` must have
    /// authorized the call; `sequence` is the current ledger sequence number.
    pub fn approve(
        &mut self,
        owner: Address,
        spender: Address,
        amount: i128,
        expiration_ledger: u32,
        sequence: u32,
    ) -> (r: Result<ApproveEvent, TokenError>)
        requires
            old(self).wf(),
        ensures
            final(self).wf(),
            match old(self)@.approve(owner@, spender@, amount, expiration_ledger, sequence) {
                Ok(m) => {
                    &&& final(self)@ == m
                    &&& r matches Ok(ev)
                    &&& ev.owner@ == owner@
                    &&& ev.spender@ == spender@
                    &&& ev.amount == amount
                    &&& ev.expiration_ledger == expiration_ledger
                },
                Err(e) => r == Err::<ApproveEvent, TokenError>(e) && final(self)@ == old(self)@,
            },
    {
        if amount < 0 {
            return Err(TokenError::AmountNegative);
        }
        if expiration_ledger <= sequence {
            return Err(TokenError::ExpirationNotInFuture);
        }
        self.allowances.insert(
            (owner.clone(), spender.clone()),
            Allowance { amount, expiration_ledger },
        );
        Ok(ApproveEvent { owner, spender, amount, expiration_ledger })
    }

    /// The live allowance of `spender` over `owner`'s tokens, 0 when it has
    /// expired or was never set. An expired allowance is removed from storage.
    pub fn allowance(&mut self, owner: &Address, spender: &Address, sequence: u32) -> (r: i128)
        requires
            old(self).wf(),
        ensures
            final(self).wf(),
            r == old(self)@.allowance_amount(owner@, spender@, sequence),
            final(self)@ == old(self)@.after_allowance_read(owner@, spender@, sequence),
    {
        let key = (owner.clone(), spender.clone());
        let found = match self.allowances.get(&key) {
            Some(a) => Some(*a),
            None => None,
        };
        match found {
            Some(a) => {
                if a.expiration_ledger < sequence {
                    self.allowances.remove(&key);
                    0
                } else {
                    a.amount
                }
            },
            None => 0,
        }
    }

    /// `None` when no allowance exists for the pair; otherwise the live
    /// amount (0 once expired) and the expiration ledger.
    pub fn allowance_with_expiry(&self, owner: &Address, spender: &Address, sequence: u32) -> (r:
        Option<(i128, u32)>)
        requires
            self.wf(),
        ensures
            r == self@.allowance_expiry(owner@, spender@, sequence),
    {
        let key = (owner.clone(), spender.clone());
        match self.allowances.get(&key) {
            Some(a) => {
                if a.expiration_ledger < sequence {
                    Some((0, a.expiration_ledger))
                } else {
                    Some((a.amount, a.expiration_ledger))
                }
            },
            None => None,
        }
    }

    /// Moves `amount` of `from`'s tokens to `to` under the allowance that
    /// `from` gave `spender`, which shrinks by `amount`. `spender` must have
    /// authorized the call.
    pub fn transfer_from(
        &mut self,
        spender: Address,
        from: Address,
        to: Address,
        amount: i128,
        sequence: u32,
    ) -> (r: Result<TransferFromEvent, TokenError>)
        requires
            old(self).wf(),
        ensures
            final(self).wf(),
            match old(self)@.transfer_from(spender@, from@, to@, amount, sequence) {
                Ok(m) => {
                    &&& final(self)@ == m
                    &&& r matches Ok(ev)
                    &&& ev.from@ == from@
                    &&& ev.to@ == to@
                    &&& ev.spender@ == spender@
                    &&& ev.amount == amount
                },
                Err(e) => r == Err::<TransferFromEvent, TokenError>(e) && final(self)@ == old(
                    self,
                )@,
            },
    {
        if amount <= 0 {
            return Err(TokenError::AmountNotPositive);
        }
        let key = (from.clone(), spender.clone());
        let allowance = match self.allowances.get(&key) {
            Some(a) => *a,
            None => {
                return Err(TokenError::AllowanceNotFound);
            },
        };
        if allowance.expiration_ledger < sequence {
            return Err(TokenError::AllowanceExpired);
        }
        if allowance.amount < amount {
            return Err(TokenError::InsufficientAllowance);
        }
        let from_balance = self.read_balance(&from);
        if from_balance < amount {
            return Err(TokenError::InsufficientBalance);
        }
        let new_from = from_balance - amount;
        let to_balance = if to.same_as(&from) {
            new_from
        } else {
            self.read_balance(&to)
        };
        let new_to = match to_balance.checked_add(amount) {
            Some(b) => b,
            None => {
                return Err(TokenError::BalanceOverflow);
            },
        };
        self.allowances.insert(
            key,
            Allowance {
                amount: allowance.amount - amount,
                expiration_ledger: allowance.expiration_ledger,
            },
        );
        self.move_balance(&from, &to, new_from, new_to);
        Ok(TransferFromEvent { from, to, spender, amount })
    }
}

} // verus!
