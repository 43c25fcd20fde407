use vstd::prelude::*;
use crate::address::Address;
use crate::book::amount_in;

verus! {

/// The longest provider name accepted, in characters.
pub const MAX_NAME_CHARS: usize = 100;

/// The four ways an operation can fail.
#[derive(Clone, Copy, Debug, PartialEq, Eq, Structural)]
pub enum SubscriptionError {
    /// The caller lacks the role or ownership the operation needs.
    Unauthorized,
    /// A malformed, zero, null or premature argument, a ledger busy with a
    /// transfer, or a transfer that failed.
    InvalidInput,
    /// A balance below the amount required.
    InsufficientFunds,
    /// The referenced plan does not exist.
    NotFound,
}

/// A value transfer that the host must carry out, then report with
/// `complete_transfer`.
#[derive(Clone, Copy, Debug, PartialEq, Eq, Structural)]
pub struct Transfer {
    pub to: Address,
    pub amount: u128,
}

/// A transfer under way, with what the ledger needs to settle or undo it.
#[derive(Clone, Copy, Debug, PartialEq, Eq, Structural)]
pub enum PendingTransfer {
    /// The first charge of a new subscription.
    Subscription { subscription_id: u64, subscriber: Address, balance_before: u128, price: u128 },
    /// A renewal charge of an existing subscription.
    Renewal {
        subscription_id: u64,
        subscriber: Address,
        balance_before: u128,
        last_payment_before: u64,
        price: u128,
    },
    /// A withdrawal from escrow.
    Withdrawal { user: Address, balance_before: u128, amount: u128 },
}

/// What a successfully settled transfer completed.
#[derive(Clone, Copy, Debug, PartialEq, Eq, Structural)]
pub enum Settled {
    /// A subscription was created, with this identifier.
    Subscribed(u64),
    /// This subscription was renewed.
    Renewed(u64),
    /// This amount left escrow.
    Withdrawn(u128),
}

/// One subscription: the plan it pays for, who pays, when it last paid,
/// whether it is still active, and content registered under it.
#[derive(Clone, Copy, Debug, PartialEq, Eq, Structural)]
pub struct Subscription {
    pub plan_id: u64,
    pub subscriber: Address,
    pub last_payment: u64,
    pub active: bool,
    pub content_ip: Address,
}

/// The abstract terms of a plan.
pub struct PlanModel {
    pub provider: Address,
    pub price: nat,
    pub interval: nat,
    pub ip_asset: Address,
    pub metadata_uri: Seq<char>,
}

/// The abstract state of the escrow ledger. Plan `k` is `plans[k - 1]` and
/// subscription `k` is `subscriptions[k - 1]`. `credited` and `debited` count,
/// per identity, all funds ever credited to escrow and all debits not undone.
pub struct EscrowModel {
    pub admin: Address,
    pub fee_bps: nat,
    pub providers: Set<Address>,
    pub plans: Seq<PlanModel>,
    pub subscriptions: Seq<Subscription>,
    pub next_subscription_id: nat,
    pub balances: Map<Address, nat>,
    pub royalties: Map<Address, nat>,
    pub license_holders: Set<Address>,
    pub pending: Option<PendingTransfer>,
    pub credited: Map<Address, nat>,
    pub debited: Map<Address, nat>,
}

impl EscrowModel {
    pub open spec fn balance(self, a: Address) -> nat {
        amount_in(self.balances, a)
    }

    pub open spec fn locked(self) -> bool {
        self.pending is Some
    }

    /// A new subscription's first charge is under way; its record is the last.
    pub open spec fn first_charge_pending(self) -> bool {
        self.pending matches Some(PendingTransfer::Subscription { .. })
    }

    pub open spec fn next_plan_id(self) -> nat {
        self.plans.len() + 1
    }

    pub open spec fn has_plan(self, id: int) -> bool {
        1 <= id <= self.plans.len()
    }

    pub open spec fn plan(self, id: int) -> PlanModel {
        self.plans[id - 1]
    }

    /// A plan is on offer when it exists and has a non-null provider.
    pub open spec fn plan_exists(self, id: int) -> bool {
        self.has_plan(id) && !self.plan(id).provider.is_null()
    }

    pub open spec fn has_subscription(self, id: int) -> bool {
        1 <= id <= self.subscriptions.len()
    }

    pub open spec fn subscription(self, id: int) -> Subscription {
        self.subscriptions[id - 1]
    }

    pub open spec fn is_active(self, id: int) -> bool {
        self.has_subscription(id) && self.subscription(id).active
    }

    /// Why `register_provider` refuses a name of `name_len` characters, if it does.
    pub open spec fn register_error(self, caller: Address, name_len: int) -> Option<SubscriptionError> {
        if name_len > MAX_NAME_CHARS || self.providers.contains(caller) {
            Some(SubscriptionError::InvalidInput)
        } else {
            None
        }
    }

    /// Why `subscribe` refuses, if it does, checked in this order.
    pub open spec fn subscribe_error(self, caller: Address, plan_id: int, value: int) -> Option<
        SubscriptionError,
    > {
        if self.locked() {
            Some(SubscriptionError::InvalidInput)
        } else if !self.plan_exists(plan_id) {
            Some(SubscriptionError::NotFound)
        } else if self.balance(caller) + value > u128::MAX {
            Some(SubscriptionError::InvalidInput)
        } else if self.balance(caller) + value < self.plan(plan_id).price {
            Some(SubscriptionError::InsufficientFunds)
        } else if self.next_subscription_id >= u64::MAX {
            Some(SubscriptionError::InvalidInput)
        } else {
            None
        }
    }

    /// Why a renewal of `id` at time `now` is refused without any change, if
    /// it is; insufficient funds, which does change the state, is not listed.
    pub open spec fn renewal_error(self, id: int, now: int) -> Option<SubscriptionError> {
        if self.locked() || !self.is_active(id) {
            Some(SubscriptionError::InvalidInput)
        } else if now < self.subscription(id).last_payment + self.plan(
            self.subscription(id).plan_id as int,
        ).interval {
            Some(SubscriptionError::InvalidInput)
        } else {
            None
        }
    }

    /// The price that subscription `id` pays per interval.
    pub open spec fn price_of(self, id: int) -> nat {
        self.plan(self.subscription(id).plan_id as int).price
    }

    /// Why `deposit` refuses, if it does.
    pub open spec fn deposit_error(self, caller: Address, amount: int) -> Option<SubscriptionError> {
        if self.locked() || amount == 0 || self.balance(caller) + amount > u128::MAX {
            Some(SubscriptionError::InvalidInput)
        } else {
            None
        }
    }

    /// Why `withdraw` refuses, if it does.
    pub open spec fn withdraw_error(self, caller: Address, amount: int) -> Option<SubscriptionError> {
        if self.locked() {
            Some(SubscriptionError::InvalidInput)
        } else if amount == 0 || self.balance(caller) < amount {
            Some(SubscriptionError::InsufficientFunds)
        } else {
            None
        }
    }
}

/// `map` with `a`'s amount raised by `d`.
pub open spec fn credit(map: Map<Address, nat>, a: Address, d: nat) -> Map<Address, nat> {
    map.insert(a, amount_in(map, a) + d)
}

/// `map` with `a`'s amount lowered by `d`.
pub open spec fn debit(map: Map<Address, nat>, a: Address, d: nat) -> Map<Address, nat> {
    map.insert(a, (amount_in(map, a) - d) as nat)
}

} // verus!
