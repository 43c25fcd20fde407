use vstd::prelude::*;
use crate::address::Address;
use crate::book::{amount_in, AddressSet, AmountBook};
use crate::fees::{fee_of, split_payment, BASIS_POINTS};
use crate::model::{
    credit, debit, EscrowModel, PendingTransfer, PlanModel, Settled, Subscription,
    SubscriptionError, Transfer, MAX_NAME_CHARS,
};

verus! {

/// The fee, in basis points, that `initialize` sets.
pub const DEFAULT_FEE_BPS: u128 = 250;

/// The most plan identifiers that `get_plans` returns.
pub const MAX_LISTED_PLANS: usize = 10;

struct Plan {
    provider: Address,
    price: u128,
    interval: u64,
    ip_asset: Address,
    metadata_uri: String,
}

impl Plan {
    closed spec fn view(&self) -> PlanModel {
        PlanModel {
            provider: self.provider,
            price: self.price as nat,
            interval: self.interval as nat,
            ip_asset: self.ip_asset,
            metadata_uri: self.metadata_uri@,
        }
    }
}

/// The subscription escrow ledger.
pub struct SubscriptionEscrow {
    admin: Address,
    fee_bps: u128,
    providers: AddressSet,
    plans: Vec<Plan>,
    next_plan_id: u64,
    subscriptions: Vec<Subscription>,
    next_subscription_id: u64,
    balances: AmountBook,
    royalties: AmountBook,
    license_holders: AddressSet,
    pending: Option<PendingTransfer>,
    credited: Ghost<Map<Address, nat>>,
    debited: Ghost<Map<Address, nat>>,
}

/// The ids in `1..=n` whose plan has a non-null provider, in increasing order.
pub open spec fn listed_ids(plans: Seq<PlanModel>, n: int) -> Seq<u64>
    decreases n,
{
    if n <= 0 {
        Seq::empty()
    } else if !plans[n - 1].provider.is_null() {
        listed_ids(plans, n - 1).push(n as u64)
    } else {
        listed_ids(plans, n - 1)
    }
}

/// What `get_plans` lists: the first few ids on offer, in increasing order.
pub open spec fn listed_page(plans: Seq<PlanModel>) -> Seq<u64> {
    let all = listed_ids(plans, plans.len() as int);
    if all.len() <= MAX_LISTED_PLANS {
        all
    } else {
        all.take(MAX_LISTED_PLANS as int)
    }
}

/// The ids listed up to `i` begin the ids listed up to any `j >= i`.
pub proof fn lemma_listed_prefix(plans: Seq<PlanModel>, i: int, j: int)
    requires
        0 <= i <= j,
    ensures
        listed_ids(plans, i).len() <= listed_ids(plans, j).len(),
        listed_ids(plans, j).take(listed_ids(plans, i).len() as int) == listed_ids(plans, i),
    decreases j - i,
{
    if i < j {
        lemma_listed_prefix(plans, i, j - 1);
        let a = listed_ids(plans, i);
        let b = listed_ids(plans, j - 1);
        assert(listed_ids(plans, j).take(a.len() as int) =~= b.take(a.len() as int));
    } else {
        assert(listed_ids(plans, j).take(listed_ids(plans, i).len() as int) =~= listed_ids(plans, i));
    }
}

/// Every subscription pays for a plan that exists.
spec fn plan_ids_valid(subs: Seq<Subscription>, next_plan_id: u64) -> bool {
    forall|k: int| 0 <= k < subs.len() ==> 1 <= #[trigger] subs[k].plan_id < next_plan_id
}

/// Each balance plus the debits that stand equals what was credited.
spec fn accounted(
    balances: Map<Address, nat>,
    debited: Map<Address, nat>,
    credited: Map<Address, nat>,
) -> bool {
    forall|a: Address| #[trigger] amount_in(balances, a) + amount_in(debited, a) == amount_in(credited, a)
}

/// `m1` and `m0` hold the same amount for every identity but `who`.
spec fn same_except(m1: Map<Address, nat>, m0: Map<Address, nat>, who: Address) -> bool {
    forall|a: Address| a != who ==> #[trigger] amount_in(m1, a) == amount_in(m0, a)
}

/// Replacing one subscription by one of an existing plan keeps every plan id valid.
proof fn lemma_plan_ids_update(subs: Seq<Subscription>, next_plan_id: u64, i: int, s: Subscription)
    requires
        plan_ids_valid(subs, next_plan_id),
        0 <= i < subs.len(),
        1 <= s.plan_id < next_plan_id,
    ensures
        plan_ids_valid(subs.update(i, s), next_plan_id),
{
    assert forall|k: int| 0 <= k < subs.len() implies 1 <= #[trigger] subs.update(i, s)[k].plan_id
        < next_plan_id by {
        if k != i {
            assert(subs.update(i, s)[k] == subs[k]);
        }
    }
}

/// A change to one identity's amounts that keeps its own sum keeps the books balanced.
proof fn lemma_accounted_step(
    b0: Map<Address, nat>,
    d0: Map<Address, nat>,
    c0: Map<Address, nat>,
    b1: Map<Address, nat>,
    d1: Map<Address, nat>,
    c1: Map<Address, nat>,
    who: Address,
)
    requires
        accounted(b0, d0, c0),
        same_except(b1, b0, who),
        same_except(d1, d0, who),
        same_except(c1, c0, who),
        amount_in(b1, who) + amount_in(d1, who) == amount_in(c1, who),
    ensures
        accounted(b1, d1, c1),
{
    assert forall|a: Address| #[trigger] amount_in(b1, a) + amount_in(d1, a) == amount_in(c1, a) by {
        if a != who {
            assert(amount_in(b0, a) + amount_in(d0, a) == amount_in(c0, a));
        }
    }
}

impl SubscriptionEscrow {
    pub closed spec fn view(&self) -> EscrowModel {
        EscrowModel {
            admin: self.admin,
            fee_bps: self.fee_bps as nat,
            providers: self.providers@,
            plans: self.plans@.map_values(|p: Plan| p.view()),
            subscriptions: self.subscriptions@,
            next_subscription_id: self.next_subscription_id as nat,
            balances: self.balances@,
            royalties: self.royalties@,
            license_holders: self.license_holders@,
            pending: self.pending,
            credited: self.credited@,
            debited: self.debited@,
        }
    }

    /// The ledger's invariant.
    pub closed spec fn wf(&self) -> bool {
        &&& self.balances.wf()
        &&& self.royalties.wf()
        &&& self.fee_bps <= BASIS_POINTS
        &&& self.plans@.len() + 1 == self.next_plan_id
        &&& forall|k: int| 0 <= k < self.plans@.len() ==>
            #[trigger] self.plans@[k].price > 0 && self.plans@[k].interval > 0
        &&& 1 <= self.next_subscription_id
        &&& if self.pending matches Some(PendingTransfer::Subscription { .. }) {
            self.subscriptions@.len() == self.next_subscription_id
        } else {
            self.subscriptions@.len() + 1 == self.next_subscription_id
        }
        &&& plan_ids_valid(self.subscriptions@, self.next_plan_id)
        &&& accounted(self.balances@, self.debited@, self.credited@)
        &&& match self.pending {
            None => true,
            Some(PendingTransfer::Subscription { subscription_id, subscriber, balance_before, price }) => {
                &&& subscription_id == self.next_subscription_id
                &&& self.next_subscription_id < u64::MAX
                &&& amount_in(self.balances@, subscriber) + price == balance_before
                &&& amount_in(self.debited@, subscriber) >= price
            },
            Some(PendingTransfer::Renewal { subscription_id, subscriber, balance_before, price, .. }) => {
                &&& 1 <= subscription_id <= self.subscriptions@.len()
                &&& amount_in(self.balances@, subscriber) + price == balance_before
                &&& amount_in(self.debited@, subscriber) >= price
            },
            Some(PendingTransfer::Withdrawal { user, balance_before, amount }) => {
                &&& amount_in(self.balances@, user) + amount == balance_before
                &&& amount_in(self.debited@, user) >= amount
            },
        }
    }

    /// Every escrow balance is what was credited to it less the debits that
    /// stand, so it never exceeds the funds credited.
    pub proof fn lemma_balance_accounted(&self, a: Address)
        requires
            self.wf(),
        ensures
            self@.balance(a) + amount_in(self@.debited, a) == amount_in(self@.credited, a),
            self@.balance(a) <= amount_in(self@.credited, a) - amount_in(self@.debited, a),
    {
    }

    /// What every valid ledger guarantees: a fee rate of at most 10000 basis
    /// points, plans with a positive price and interval that fit their types,
    /// fewer plans than ids, one record per confirmed id (the next id is one
    /// past the last record, or is the last record's while its first charge is
    /// under way), and every subscription of an existing plan.
    pub proof fn lemma_valid_ledger(&self)
        requires
            self.wf(),
        ensures
            self@.fee_bps <= BASIS_POINTS,
            self@.plans.len() < u64::MAX,
            forall|k: int| 0 <= k < self@.plans.len() ==> {
                &&& 0 < #[trigger] self@.plans[k].price <= u128::MAX
                &&& 0 < self@.plans[k].interval <= u64::MAX
            },
            !self@.first_charge_pending() ==> self@.next_subscription_id
                == self@.subscriptions.len() + 1,
            self@.first_charge_pending() ==> self@.next_subscription_id == self@.subscriptions.len()
                && self@.next_subscription_id < u64::MAX,
            self@.next_subscription_id <= u64::MAX,
            forall|k: int| 0 <= k < self@.subscriptions.len() ==> self@.has_plan(
                #[trigger] self@.subscriptions[k].plan_id as int,
            ),
    {
        assert forall|k: int| 0 <= k < self@.plans.len() implies {
            &&& 0 < #[trigger] self@.plans[k].price <= u128::MAX
            &&& 0 < self@.plans[k].interval <= u64::MAX
        } by {
            assert(self@.plans[k] == self.plans@[k].view());
        }
    }

    /// An empty ledger, not yet initialized: no admin, no fee, no plans.
    pub fn new() -> (r: SubscriptionEscrow)
        ensures
            r.wf(),
            r@.admin.is_null(),
            r@.fee_bps == 0,
            r@.providers == Set::<Address>::empty(),
            r@.plans.len() == 0,
            r@.subscriptions.len() == 0,
            r@.next_subscription_id == 1,
            r@.balances == Map::<Address, nat>::empty(),
            r@.royalties == Map::<Address, nat>::empty(),
            r@.license_holders == Set::<Address>::empty(),
            r@.pending is None,
            r@.credited == Map::<Address, nat>::empty(),
            r@.debited == Map::<Address, nat>::empty(),
    {
        let r = SubscriptionEscrow {
            admin: Address::zero(),
            fee_bps: 0,
            providers: AddressSet::new(),
            plans: Vec::new(),
            next_plan_id: 1,
            subscriptions: Vec::new(),
            next_subscription_id: 1,
            balances: AmountBook::new(),
            royalties: AmountBook::new(),
            license_holders: AddressSet::new(),
            pending: None,
            credited: Ghost(Map::empty()),
            debited: Ghost(Map::empty()),
        };
        assert(r@.plans =~= Seq::<PlanModel>::empty());
        r
    }

    /// Makes `caller` the admin and sets the protocol fee; fails when an
    /// admin is already set.
    pub fn initialize(&mut self, caller: Address) -> (r: Result<bool, SubscriptionError>)
        requires
            old(self).wf(),
        ensures
            final(self).wf(),
            !old(self)@.admin.is_null() ==> r == Err::<bool, SubscriptionError>(
                SubscriptionError::InvalidInput,
            ) && final(self)@ == old(self)@,
            old(self)@.admin.is_null() ==> r == Ok::<bool, SubscriptionError>(true) && final(self)@
                == (EscrowModel { admin: caller, fee_bps: DEFAULT_FEE_BPS as nat, ..old(self)@ }),
    {
        if !self.admin.is_zero() {
            return Err(SubscriptionError::InvalidInput);
        }
        self.admin = caller;
        self.fee_bps = DEFAULT_FEE_BPS;
        Ok(true)
    }

    /// Registers `caller` as a provider under `name`.
    pub fn register_provider(&mut self, caller: Address, name: &str) -> (r: Result<
        bool,
        SubscriptionError,
    >)
        requires
            old(self).wf(),
        ensures
            final(self).wf(),
            old(self)@.register_error(caller, name@.len() as int) matches Some(e) ==> r == Err::<
                bool,
                SubscriptionError,
            >(e) && final(self)@ == old(self)@,
            old(self)@.register_error(caller, name@.len() as int) is None ==> r == Ok::<
                bool,
                SubscriptionError,
            >(true) && final(self)@ == (EscrowModel {
                providers: old(self)@.providers.insert(caller),
                ..old(self)@
            }),
    {
        if name.unicode_len() > MAX_NAME_CHARS {
            return Err(SubscriptionError::InvalidInput);
        }
        if self.providers.contains(caller) {
            return Err(SubscriptionError::InvalidInput);
        }
        self.providers.insert(caller);
        Ok(true)
    }

    /// Fails with `Unauthorized` unless `provider` is registered.
    fn require_registered_provider(&self, provider: Address) -> (r: Result<(), SubscriptionError>)
        ensures
            r == if self@.providers.contains(provider) {
                Ok::<(), SubscriptionError>(())
            } else {
                Err::<(), SubscriptionError>(SubscriptionError::Unauthorized)
            },
    {
        if !self.providers.contains(provider) {
            return Err(SubscriptionError::Unauthorized);
        }
        Ok(())
    }

    /// Publishes a plan of `caller` charging `price` every `interval`, and
    /// returns its identifier. The metadata is not kept.
    pub fn create_plan(&mut self, caller: Address, price: u128, interval: u64, _metadata_hash: &str) -> (r:
        Result<u64, SubscriptionError>)
        requires
            old(self).wf(),
        ensures
            final(self).wf(),
            !old(self)@.providers.contains(caller) ==> r == Err::<u64, SubscriptionError>(
                SubscriptionError::Unauthorized,
            ) && final(self)@ == old(self)@,
            old(self)@.providers.contains(caller) && (price == 0 || interval == 0
                || old(self)@.next_plan_id() == u64::MAX) ==> r == Err::<u64, SubscriptionError>(
                SubscriptionError::InvalidInput,
            ) && final(self)@ == old(self)@,
            old(self)@.providers.contains(caller) && price != 0 && interval != 0
                && old(self)@.next_plan_id() < u64::MAX ==> r == Ok::<u64, SubscriptionError>(
                old(self)@.next_plan_id() as u64,
            ) && final(self)@ == (EscrowModel {
                plans: old(self)@.plans.push(
                    PlanModel {
                        provider: caller,
                        price: price as nat,
                        interval: interval as nat,
                        ip_asset: Address { high: 0, low: 0 },
                        metadata_uri: Seq::empty(),
                    },
                ),
                ..old(self)@
            }),
    {
        self.require_registered_provider(caller)?;
        if price == 0 || interval == 0 || self.next_plan_id == u64::MAX {
            return Err(SubscriptionError::InvalidInput);
        }
        let plan_id = self.next_plan_id;
        let plan = Plan {
            provider: caller,
            price,
            interval,
            ip_asset: Address::zero(),
            metadata_uri: String::new(),
        };
        let ghost before = self.plans@;
        self.plans.push(plan);
        self.next_plan_id = plan_id + 1;
        proof {
            assert(self.plans@.map_values(|p: Plan| p.view()) =~= before.map_values(
                |p: Plan| p.view(),
            ).push(plan.view()));
        }
        Ok(plan_id)
    }

    /// Subscribes `caller` to `plan_id` at time `now`, first crediting the
    /// attached `value` to the caller's escrow. On success the first charge is
    /// debited, the subscription is recorded as active, and the provider's
    /// share is returned as the transfer to make; `complete_transfer` then
    /// settles it. The new record takes the next identifier, which is only
    /// confirmed when the transfer succeeds; no existing subscription is
    /// touched.
    pub fn subscribe(&mut self, caller: Address, plan_id: u64, value: u128, now: u64) -> (r: Result<
        Transfer,
        SubscriptionError,
    >)
        requires
            old(self).wf(),
        ensures
            final(self).wf(),
            old(self)@.subscribe_error(caller, plan_id as int, value as int) matches Some(e) ==> r
                == Err::<Transfer, SubscriptionError>(e) && final(self)@ == old(self)@,
            forall|k: int| old(self)@.has_subscription(k) ==> final(self)@.subscription(k)
                == old(self)@.subscription(k),
            old(self)@.subscribe_error(caller, plan_id as int, value as int) is None ==> {
                let plan = old(self)@.plan(plan_id as int);
                let id = old(self)@.next_subscription_id;
                let funded = old(self)@.balance(caller) + value;
                &&& r == Ok::<Transfer, SubscriptionError>(
                    Transfer {
                        to: plan.provider,
                        amount: (plan.price - fee_of(plan.price as int, old(self)@.fee_bps as int)) as u128,
                    },
                )
                &&& final(self)@ == (EscrowModel {
                    subscriptions: old(self)@.subscriptions.push(
                        Subscription {
                            plan_id,
                            subscriber: caller,
                            last_payment: now,
                            active: true,
                            content_ip: Address { high: 0, low: 0 },
                        },
                    ),
                    balances: old(self)@.balances.insert(caller, (funded - plan.price) as nat),
                    credited: if value > 0 {
                        credit(old(self)@.credited, caller, value as nat)
                    } else {
                        old(self)@.credited
                    },
                    debited: credit(old(self)@.debited, caller, plan.price),
                    pending: Some(
                        PendingTransfer::Subscription {
                            subscription_id: id as u64,
                            subscriber: caller,
                            balance_before: funded as u128,
                            price: plan.price as u128,
                        },
                    ),
                    ..old(self)@
                })
            },
    {
        if self.pending.is_some() {
            return Err(SubscriptionError::InvalidInput);
        }
        if plan_id == 0 || plan_id >= self.next_plan_id {
            return Err(SubscriptionError::NotFound);
        }
        let n: usize = self.plans.len();
        assert(plan_id - 1 < n);
        let idx = (plan_id - 1) as usize;
        let provider = self.plans[idx].provider;
        let price = self.plans[idx].price;
        assert(self@.plan(plan_id as int) == self.plans@[idx as int].view());
        if provider.is_zero() {
            return Err(SubscriptionError::NotFound);
        }
        let balance = self.balances.get(caller);
        if value > u128::MAX - balance {
            return Err(SubscriptionError::InvalidInput);
        }
        let funded = balance + value;
        if funded < price {
            return Err(SubscriptionError::InsufficientFunds);
        }
        if self.next_subscription_id == u64::MAX {
            return Err(SubscriptionError::InvalidInput);
        }
        let (_fee, provider_amount) = split_payment(price, self.fee_bps);
        let id = self.next_subscription_id;
        let record = Subscription {
            plan_id,
            subscriber: caller,
            last_payment: now,
            active: true,
            content_ip: Address::zero(),
        };
        self.subscriptions.push(record);
        let ghost old_balances = self.balances@;
        if value > 0 {
            self.balances.set(caller, funded);
            self.credited = Ghost(credit(self.credited@, caller, value as nat));
        }
        self.balances.set(caller, funded - price);
        self.debited = Ghost(credit(self.debited@, caller, price as nat));
        self.pending = Some(
            PendingTransfer::Subscription {
                subscription_id: id,
                subscriber: caller,
                balance_before: funded,
                price,
            },
        );
        proof {
            assert(self.balances@ =~= old_balances.insert(caller, (funded - price) as nat));
            lemma_accounted_step(
                old(self).balances@,
                old(self).debited@,
                old(self).credited@,
                self.balances@,
                self.debited@,
                self.credited@,
                caller,
            );
            assert forall|k: int| 0 <= k < self.subscriptions@.len() implies
                1 <= #[trigger] self.subscriptions@[k].plan_id < self.next_plan_id by {
                if k < old(self).subscriptions@.len() {
                    assert(self.subscriptions@[k] == old(self).subscriptions@[k]);
                }
            }
        }
        Ok(Transfer { to: provider, amount: provider_amount })
    }

    /// Charges subscription `subscription_id` for its next interval at time
    /// `now`. A subscriber who cannot pay loses the subscription for good. On
    /// success the charge is debited, the payment time moves to `now`, and the
    /// provider's share is returned as the transfer to make.
    pub fn process_subscription_payment(&mut self, subscription_id: u64, now: u64) -> (r: Result<
        Transfer,
        SubscriptionError,
    >)
        requires
            old(self).wf(),
        ensures
            final(self).wf(),
            old(self)@.renewal_error(subscription_id as int, now as int) matches Some(e) ==> r == Err::<
                Transfer,
                SubscriptionError,
            >(e) && final(self)@ == old(self)@,
            old(self)@.renewal_error(subscription_id as int, now as int) is None ==> {
                let id = subscription_id as int;
                let sub = old(self)@.subscription(id);
                let plan = old(self)@.plan(sub.plan_id as int);
                let balance = old(self)@.balance(sub.subscriber);
                &&& balance < plan.price ==> r == Err::<Transfer, SubscriptionError>(
                    SubscriptionError::InsufficientFunds,
                ) && final(self)@ == (EscrowModel {
                    subscriptions: old(self)@.subscriptions.update(
                        id - 1,
                        Subscription { active: false, ..sub },
                    ),
                    ..old(self)@
                })
                &&& balance >= plan.price ==> r == Ok::<Transfer, SubscriptionError>(
                    Transfer {
                        to: plan.provider,
                        amount: (plan.price - fee_of(plan.price as int, old(self)@.fee_bps as int)) as u128,
                    },
                ) && final(self)@ == (EscrowModel {
                    subscriptions: old(self)@.subscriptions.update(
                        id - 1,
                        Subscription { last_payment: now, ..sub },
                    ),
                    balances: old(self)@.balances.insert(sub.subscriber, (balance - plan.price) as nat),
                    debited: credit(old(self)@.debited, sub.subscriber, plan.price),
                    pending: Some(
                        PendingTransfer::Renewal {
                            subscription_id,
                            subscriber: sub.subscriber,
                            balance_before: balance as u128,
                            last_payment_before: sub.last_payment,
                            price: plan.price as u128,
                        },
                    ),
                    ..old(self)@
                })
            },
    {
        if self.pending.is_some() {
            return Err(SubscriptionError::InvalidInput);
        }
        let m: usize = self.subscriptions.len();
        if subscription_id == 0 || subscription_id - 1 >= m as u64 {
            return Err(SubscriptionError::InvalidInput);
        }
        let slot = (subscription_id - 1) as usize;
        let sub = self.subscriptions[slot];
        if !sub.active {
            return Err(SubscriptionError::InvalidInput);
        }
        assert(1 <= sub.plan_id < self.next_plan_id);
        let n: usize = self.plans.len();
        assert(sub.plan_id - 1 < n);
        let idx = (sub.plan_id - 1) as usize;
        let provider = self.plans[idx].provider;
        let price = self.plans[idx].price;
        let interval = self.plans[idx].interval;
        assert(self@.plan(sub.plan_id as int) == self.plans@[idx as int].view());
        if now < sub.last_payment || now - sub.last_payment < interval {
            return Err(SubscriptionError::InvalidInput);
        }
        let balance = self.balances.get(sub.subscriber);
        if balance < price {
            self.subscriptions.set(slot, Subscription { active: false, ..sub });
            proof {
                lemma_plan_ids_update(
                    old(self).subscriptions@,
                    self.next_plan_id,
                    slot as int,
                    self.subscriptions@[slot as int],
                );
            }
            return Err(SubscriptionError::InsufficientFunds);
        }
        let (_fee, provider_amount) = split_payment(price, self.fee_bps);
        self.balances.set(sub.subscriber, balance - price);
        self.debited = Ghost(credit(self.debited@, sub.subscriber, price as nat));
        self.subscriptions.set(slot, Subscription { last_payment: now, ..sub });
        self.pending = Some(
            PendingTransfer::Renewal {
                subscription_id,
                subscriber: sub.subscriber,
                balance_before: balance,
                last_payment_before: sub.last_payment,
                price,
            },
        );
        proof {
            lemma_accounted_step(
                old(self).balances@,
                old(self).debited@,
                old(self).credited@,
                self.balances@,
                self.debited@,
                self.credited@,
                sub.subscriber,
            );
            lemma_plan_ids_update(
                old(self).subscriptions@,
                self.next_plan_id,
                slot as int,
                self.subscriptions@[slot as int],
            );
        }
        Ok(Transfer { to: provider, amount: provider_amount })
    }

    /// Credits `amount` to `caller`'s escrow balance.
    pub fn deposit(&mut self, caller: Address, amount: u128) -> (r: Result<bool, SubscriptionError>)
        requires
            old(self).wf(),
        ensures
            final(self).wf(),
            old(self)@.deposit_error(caller, amount as int) matches Some(e) ==> r == Err::<
                bool,
                SubscriptionError,
            >(e) && final(self)@ == old(self)@,
            old(self)@.deposit_error(caller, amount as int) is None ==> r == Ok::<
                bool,
                SubscriptionError,
            >(true) && final(self)@ == (EscrowModel {
                balances: credit(old(self)@.balances, caller, amount as nat),
                credited: credit(old(self)@.credited, caller, amount as nat),
                ..old(self)@
            }),
    {
        if self.pending.is_some() || amount == 0 {
            return Err(SubscriptionError::InvalidInput);
        }
        let balance = self.balances.get(caller);
        if amount > u128::MAX - balance {
            return Err(SubscriptionError::InvalidInput);
        }
        self.balances.set(caller, balance + amount);
        self.credited = Ghost(credit(self.credited@, caller, amount as nat));
        proof {
            lemma_accounted_step(
                old(self).balances@,
                old(self).debited@,
                old(self).credited@,
                self.balances@,
                self.debited@,
                self.credited@,
                caller,
            );
        }
        Ok(true)
    }

    /// Debits `amount` from `caller`'s escrow balance and returns the transfer
    /// that pays it out to `caller`.
    pub fn withdraw(&mut self, caller: Address, amount: u128) -> (r: Result<Transfer, SubscriptionError>)
        requires
            old(self).wf(),
        ensures
            final(self).wf(),
            old(self)@.withdraw_error(caller, amount as int) matches Some(e) ==> r == Err::<
                Transfer,
                SubscriptionError,
            >(e) && final(self)@ == old(self)@,
            old(self)@.withdraw_error(caller, amount as int) is None ==> r == Ok::<
                Transfer,
                SubscriptionError,
            >(Transfer { to: caller, amount }) && final(self)@ == (EscrowModel {
                balances: debit(old(self)@.balances, caller, amount as nat),
                debited: credit(old(self)@.debited, caller, amount as nat),
                pending: Some(
                    PendingTransfer::Withdrawal {
                        user: caller,
                        balance_before: old(self)@.balance(caller) as u128,
                        amount,
                    },
                ),
                ..old(self)@
            }),
    {
        if self.pending.is_some() {
            return Err(SubscriptionError::InvalidInput);
        }
        let balance = self.balances.get(caller);
        if amount == 0 || balance < amount {
            return Err(SubscriptionError::InsufficientFunds);
        }
        self.balances.set(caller, balance - amount);
        self.debited = Ghost(credit(self.debited@, caller, amount as nat));
        self.pending = Some(
            PendingTransfer::Withdrawal { user: caller, balance_before: balance, amount },
        );
        proof {
            lemma_accounted_step(
                old(self).balances@,
                old(self).debited@,
                old(self).credited@,
                self.balances@,
                self.debited@,
                self.credited@,
                caller,
            );
        }
        Ok(Transfer { to: caller, amount })
    }

    /// Settles the transfer under way, which the host reports as `succeeded`
    /// or not. A failed transfer restores the balance it was paid from and
    /// fails with `InvalidInput`; a failed renewal also restores the last
    /// payment time. A successful first charge confirms the new subscription
    /// and advances the identifier counter; a failed one removes the record,
    /// so the identifier is handed out again. Failed first charges and failed
    /// renewals thus both leave the ledger as it was before the charge.
    pub fn complete_transfer(&mut self, succeeded: bool) -> (r: Result<Settled, SubscriptionError>)
        requires
            old(self).wf(),
        ensures
            final(self).wf(),
            final(self)@.pending is None,
            forall|k: int| 1 <= k < old(self)@.next_subscription_id ==> {
                &&& final(self)@.has_subscription(k)
                &&& (#[trigger] final(self)@.subscription(k)).active == old(self)@.subscription(k).active
                &&& final(self)@.subscription(k).subscriber == old(self)@.subscription(k).subscriber
            },
            match old(self)@.pending {
                None => r == Err::<Settled, SubscriptionError>(SubscriptionError::InvalidInput)
                    && final(self)@ == old(self)@,
                Some(PendingTransfer::Subscription { subscription_id, subscriber, balance_before, price }) => {
                    &&& succeeded ==> r == Ok::<Settled, SubscriptionError>(
                        Settled::Subscribed(subscription_id),
                    ) && final(self)@ == (EscrowModel {
                        next_subscription_id: (subscription_id + 1) as nat,
                        pending: None,
                        ..old(self)@
                    })
                    &&& !succeeded ==> r == Err::<Settled, SubscriptionError>(
                        SubscriptionError::InvalidInput,
                    ) && final(self)@.next_subscription_id == subscription_id as nat
                        && final(self)@ == (EscrowModel {
                        subscriptions: old(self)@.subscriptions.drop_last(),
                        balances: old(self)@.balances.insert(subscriber, balance_before as nat),
                        debited: debit(old(self)@.debited, subscriber, price as nat),
                        pending: None,
                        ..old(self)@
                    })
                },
                Some(
                    PendingTransfer::Renewal {
                        subscription_id,
                        subscriber,
                        balance_before,
                        last_payment_before,
                        price,
                    },
                ) => {
                    &&& succeeded ==> r == Ok::<Settled, SubscriptionError>(
                        Settled::Renewed(subscription_id),
                    ) && final(self)@ == (EscrowModel { pending: None, ..old(self)@ })
                    &&& !succeeded ==> r == Err::<Settled, SubscriptionError>(
                        SubscriptionError::InvalidInput,
                    ) && final(self)@ == (EscrowModel {
                        subscriptions: old(self)@.subscriptions.update(
                            subscription_id - 1,
                            Subscription {
                                last_payment: last_payment_before,
                                ..old(self)@.subscription(subscription_id as int)
                            },
                        ),
                        balances: old(self)@.balances.insert(subscriber, balance_before as nat),
                        debited: debit(old(self)@.debited, subscriber, price as nat),
                        pending: None,
                        ..old(self)@
                    })
                },
                Some(PendingTransfer::Withdrawal { user, balance_before, amount }) => {
                    &&& succeeded ==> r == Ok::<Settled, SubscriptionError>(
                        Settled::Withdrawn(amount),
                    ) && final(self)@ == (EscrowModel { pending: None, ..old(self)@ })
                    &&& !succeeded ==> r == Err::<Settled, SubscriptionError>(
                        SubscriptionError::InvalidInput,
                    ) && final(self)@ == (EscrowModel {
                        balances: old(self)@.balances.insert(user, balance_before as nat),
                        debited: debit(old(self)@.debited, user, amount as nat),
                        pending: None,
                        ..old(self)@
                    })
                },
            },
    {
        let pending = match self.pending {
            None => {
                return Err(SubscriptionError::InvalidInput);
            },
            Some(p) => p,
        };
        self.pending = None;
        match pending {
            PendingTransfer::Subscription { subscription_id, subscriber, balance_before, price } => {
                if succeeded {
                    self.next_subscription_id = subscription_id + 1;
                    Ok(Settled::Subscribed(subscription_id))
                } else {
                    self.subscriptions.pop();
                    proof {
                        assert forall|k: int| 0 <= k < self.subscriptions@.len() implies
                            1 <= #[trigger] self.subscriptions@[k].plan_id < self.next_plan_id by {
                            assert(self.subscriptions@[k] == old(self).subscriptions@[k]);
                        }
                    }
                    self.restore_balance(subscriber, balance_before, price);
                    Err(SubscriptionError::InvalidInput)
                }
            },
            PendingTransfer::Renewal {
                subscription_id,
                subscriber,
                balance_before,
                last_payment_before,
                price,
            } => {
                if succeeded {
                    Ok(Settled::Renewed(subscription_id))
                } else {
                    let m: usize = self.subscriptions.len();
                    assert(subscription_id - 1 < m);
                    let slot = (subscription_id - 1) as usize;
                    let sub = self.subscriptions[slot];
                    self.subscriptions.set(slot, Subscription { last_payment: last_payment_before, ..sub });
                    proof {
                        lemma_plan_ids_update(
                            old(self).subscriptions@,
                            self.next_plan_id,
                            slot as int,
                            self.subscriptions@[slot as int],
                        );
                    }
                    self.restore_balance(subscriber, balance_before, price);
                    Err(SubscriptionError::InvalidInput)
                }
            },
            PendingTransfer::Withdrawal { user, balance_before, amount } => {
                if succeeded {
                    Ok(Settled::Withdrawn(amount))
                } else {
                    self.restore_balance(user, balance_before, amount);
                    Err(SubscriptionError::InvalidInput)
                }
            },
        }
    }

    /// Puts `owner`'s balance back to `balance_before`, undoing a debit of
    /// `amount` that no longer stands.
    fn restore_balance(&mut self, owner: Address, balance_before: u128, amount: u128)
        requires
            old(self).balances.wf(),
            amount_in(old(self).balances@, owner) + amount == balance_before,
            amount_in(old(self).debited@, owner) >= amount,
            accounted(old(self).balances@, old(self).debited@, old(self).credited@),
        ensures
            final(self).balances.wf(),
            final(self).balances@ == old(self).balances@.insert(owner, balance_before as nat),
            final(self).debited@ == debit(old(self).debited@, owner, amount as nat),
            accounted(final(self).balances@, final(self).debited@, final(self).credited@),
            final(self).admin == old(self).admin,
            final(self).fee_bps == old(self).fee_bps,
            final(self).providers == old(self).providers,
            final(self).plans == old(self).plans,
            final(self).next_plan_id == old(self).next_plan_id,
            final(self).subscriptions == old(self).subscriptions,
            final(self).next_subscription_id == old(self).next_subscription_id,
            final(self).royalties == old(self).royalties,
            final(self).license_holders == old(self).license_holders,
            final(self).pending == old(self).pending,
            final(self).credited == old(self).credited,
    {
        self.balances.set(owner, balance_before);
        self.debited = Ghost(debit(self.debited@, owner, amount as nat));
        proof {
            lemma_accounted_step(
                old(self).balances@,
                old(self).debited@,
                old(self).credited@,
                self.balances@,
                self.debited@,
                self.credited@,
                owner,
            );
        }
    }

    /// Lists the ids of plans on offer, from the lowest, at most ten of them.
    pub fn get_plans(&self) -> (r: Vec<u64>)
        requires
            self.wf(),
        ensures
            r@ == listed_page(self@.plans),
    {
        let ghost plans = self@.plans;
        let mut ids: Vec<u64> = Vec::new();
        let mut id: u64 = 1;
        while id < self.next_plan_id && ids.len() < MAX_LISTED_PLANS
            invariant
                self.wf(),
                plans == self@.plans,
                1 <= id <= self.next_plan_id,
                ids@ == listed_ids(plans, id - 1),
                ids@.len() <= MAX_LISTED_PLANS,
            decreases self.next_plan_id - id,
        {
            let n: usize = self.plans.len();
            assert(id - 1 < n);
            let provider = self.plans[(id - 1) as usize].provider;
            assert(plans[id - 1].provider == provider);
            if !provider.is_zero() {
                ids.push(id);
            }
            id = id + 1;
        }
        proof {
            let n = plans.len() as int;
            lemma_listed_prefix(plans, id - 1, n);
            if ids@.len() >= MAX_LISTED_PLANS {
                assert(listed_ids(plans, n).take(MAX_LISTED_PLANS as int) == ids@);
            }
        }
        ids
    }

    /// Links plan `plan_id` to an IP asset and its metadata URI, replacing any
    /// earlier link. Only the plan's provider may do so.
    pub fn register_plan_ip_asset(
        &mut self,
        caller: Address,
        plan_id: u64,
        ip_asset: Address,
        metadata_uri: String,
    ) -> (r: Result<bool, SubscriptionError>)
        requires
            old(self).wf(),
        ensures
            final(self).wf(),
            !(old(self)@.has_plan(plan_id as int) && old(self)@.plan(plan_id as int).provider == caller)
                ==> r == Err::<bool, SubscriptionError>(SubscriptionError::Unauthorized)
                && final(self)@ == old(self)@,
            old(self)@.has_plan(plan_id as int) && old(self)@.plan(plan_id as int).provider == caller
                && ip_asset.is_null() ==> r == Err::<bool, SubscriptionError>(
                SubscriptionError::InvalidInput,
            ) && final(self)@ == old(self)@,
            old(self)@.has_plan(plan_id as int) && old(self)@.plan(plan_id as int).provider == caller
                && !ip_asset.is_null() ==> r == Ok::<bool, SubscriptionError>(true) && final(self)@
                == (EscrowModel {
                plans: old(self)@.plans.update(
                    plan_id - 1,
                    PlanModel {
                        ip_asset,
                        metadata_uri: metadata_uri@,
                        ..old(self)@.plan(plan_id as int)
                    },
                ),
                ..old(self)@
            }),
    {
        if plan_id == 0 || plan_id >= self.next_plan_id {
            return Err(SubscriptionError::Unauthorized);
        }
        let n: usize = self.plans.len();
        assert(plan_id - 1 < n);
        let idx = (plan_id - 1) as usize;
        assert(self@.plan(plan_id as int) == self.plans@[idx as int].view());
        if self.plans[idx].provider != caller {
            return Err(SubscriptionError::Unauthorized);
        }
        if ip_asset.is_zero() {
            return Err(SubscriptionError::InvalidInput);
        }
        let plan = Plan {
            provider: self.plans[idx].provider,
            price: self.plans[idx].price,
            interval: self.plans[idx].interval,
            ip_asset,
            metadata_uri,
        };
        self.plans.set(idx, plan);
        proof {
            assert(self@.plans =~= old(self)@.plans.update(idx as int, plan.view()));
        }
        Ok(true)
    }

    /// Accepts a report that license terms were attached to `ip_asset`; the
    /// ledger keeps nothing of it.
    pub fn record_license_attachment(&mut self, ip_asset: Address, _license_terms_id: u128) -> (r:
        Result<bool, SubscriptionError>)
        requires
            old(self).wf(),
        ensures
            final(self).wf(),
            final(self)@ == old(self)@,
            r == if ip_asset.is_null() {
                Err::<bool, SubscriptionError>(SubscriptionError::InvalidInput)
            } else {
                Ok::<bool, SubscriptionError>(true)
            },
    {
        if ip_asset.is_zero() {
            return Err(SubscriptionError::InvalidInput);
        }
        Ok(true)
    }

    /// Records that `licensee` was minted a license of `ip_asset`.
    pub fn record_license_mint(&mut self, ip_asset: Address, licensee: Address, _token_id: u128) -> (r:
        Result<bool, SubscriptionError>)
        requires
            old(self).wf(),
        ensures
            final(self).wf(),
            ip_asset.is_null() || licensee.is_null() ==> r == Err::<bool, SubscriptionError>(
                SubscriptionError::InvalidInput,
            ) && final(self)@ == old(self)@,
            !ip_asset.is_null() && !licensee.is_null() ==> r == Ok::<bool, SubscriptionError>(true)
                && final(self)@ == (EscrowModel {
                license_holders: old(self)@.license_holders.insert(licensee),
                ..old(self)@
            }),
    {
        if ip_asset.is_zero() || licensee.is_zero() {
            return Err(SubscriptionError::InvalidInput);
        }
        self.license_holders.insert(licensee);
        Ok(true)
    }

    /// Credits `amount` of royalties to `ip_asset`, on the admin's word. No
    /// funds move.
    pub fn distribute_ip_royalty(
        &mut self,
        caller: Address,
        ip_asset: Address,
        recipient: Address,
        amount: u128,
    ) -> (r: Result<bool, SubscriptionError>)
        requires
            old(self).wf(),
        ensures
            final(self).wf(),
            caller != old(self)@.admin ==> r == Err::<bool, SubscriptionError>(
                SubscriptionError::Unauthorized,
            ) && final(self)@ == old(self)@,
            caller == old(self)@.admin && (amount == 0 || recipient.is_null() || amount_in(
                old(self)@.royalties,
                ip_asset,
            ) + amount > u128::MAX) ==> r == Err::<bool, SubscriptionError>(
                SubscriptionError::InvalidInput,
            ) && final(self)@ == old(self)@,
            caller == old(self)@.admin && amount != 0 && !recipient.is_null() && amount_in(
                old(self)@.royalties,
                ip_asset,
            ) + amount <= u128::MAX ==> r == Ok::<bool, SubscriptionError>(true) && final(self)@
                == (EscrowModel {
                royalties: credit(old(self)@.royalties, ip_asset, amount as nat),
                ..old(self)@
            }),
    {
        if caller != self.admin {
            return Err(SubscriptionError::Unauthorized);
        }
        if amount == 0 || recipient.is_zero() {
            return Err(SubscriptionError::InvalidInput);
        }
        let current = self.royalties.get(ip_asset);
        if amount > u128::MAX - current {
            return Err(SubscriptionError::InvalidInput);
        }
        self.royalties.set(ip_asset, current + amount);
        Ok(true)
    }

    /// Records content IP that the subscriber of `subscription_id` created.
    pub fn register_content_ip(&mut self, caller: Address, subscription_id: u64, content_ip: Address) -> (r:
        Result<bool, SubscriptionError>)
        requires
            old(self).wf(),
        ensures
            final(self).wf(),
            !(old(self)@.has_subscription(subscription_id as int) && old(self)@.subscription(
                subscription_id as int,
            ).subscriber == caller) ==> r == Err::<bool, SubscriptionError>(
                SubscriptionError::Unauthorized,
            ) && final(self)@ == old(self)@,
            old(self)@.has_subscription(subscription_id as int) && old(self)@.subscription(
                subscription_id as int,
            ).subscriber == caller && !old(self)@.is_active(subscription_id as int) ==> r == Err::<
                bool,
                SubscriptionError,
            >(SubscriptionError::InvalidInput) && final(self)@ == old(self)@,
            old(self)@.has_subscription(subscription_id as int) && old(self)@.subscription(
                subscription_id as int,
            ).subscriber == caller && old(self)@.is_active(subscription_id as int) ==> r == Ok::<
                bool,
                SubscriptionError,
            >(true) && final(self)@ == (EscrowModel {
                subscriptions: old(self)@.subscriptions.update(
                    subscription_id - 1,
                    Subscription { content_ip, ..old(self)@.subscription(subscription_id as int) },
                ),
                ..old(self)@
            }),
    {
        let m: usize = self.subscriptions.len();
        if subscription_id == 0 || subscription_id - 1 >= m as u64 {
            return Err(SubscriptionError::Unauthorized);
        }
        let slot = (subscription_id - 1) as usize;
        let sub = self.subscriptions[slot];
        if sub.subscriber != caller {
            return Err(SubscriptionError::Unauthorized);
        }
        if !sub.active {
            return Err(SubscriptionError::InvalidInput);
        }
        self.subscriptions.set(slot, Subscription { content_ip, ..sub });
        proof {
            lemma_plan_ids_update(
                old(self).subscriptions@,
                self.next_plan_id,
                slot as int,
                self.subscriptions@[slot as int],
            );
        }
        Ok(true)
    }

    /// The escrow balance of `user`.
    pub fn get_user_balance(&self, user: Address) -> (r: u128)
        requires
            self.wf(),
        ensures
            r as nat == self@.balance(user),
    {
        self.balances.get(user)
    }

    pub fn is_provider_registered(&self, provider: Address) -> (r: bool)
        ensures
            r == self@.providers.contains(provider),
    {
        self.providers.contains(provider)
    }

    /// The IP asset linked to plan `plan_id`, null when there is none.
    pub fn get_plan_ip_asset(&self, plan_id: u64) -> (r: Address)
        requires
            self.wf(),
        ensures
            r == if self@.has_plan(plan_id as int) {
                self@.plan(plan_id as int).ip_asset
            } else {
                Address { high: 0, low: 0 }
            },
    {
        if plan_id == 0 || plan_id >= self.next_plan_id {
            return Address::zero();
        }
        let n: usize = self.plans.len();
        assert(plan_id - 1 < n);
        let idx = (plan_id - 1) as usize;
        assert(self@.plan(plan_id as int) == self.plans@[idx as int].view());
        self.plans[idx].ip_asset
    }

    /// The metadata URI of plan `plan_id`, empty when there is none.
    pub fn get_plan_metadata_uri(&self, plan_id: u64) -> (r: String)
        requires
            self.wf(),
        ensures
            r@ == if self@.has_plan(plan_id as int) {
                self@.plan(plan_id as int).metadata_uri
            } else {
                Seq::<char>::empty()
            },
    {
        if plan_id == 0 || plan_id >= self.next_plan_id {
            return String::new();
        }
        let n: usize = self.plans.len();
        assert(plan_id - 1 < n);
        let idx = (plan_id - 1) as usize;
        assert(self@.plan(plan_id as int) == self.plans@[idx as int].view());
        self.plans[idx].metadata_uri.clone()
    }

    /// The royalties credited to `ip_asset` so far.
    pub fn get_ip_royalty_balance(&self, ip_asset: Address) -> (r: u128)
        requires
            self.wf(),
        ensures
            r as nat == amount_in(self@.royalties, ip_asset),
    {
        self.royalties.get(ip_asset)
    }

    pub fn has_ip_license(&self, holder: Address) -> (r: bool)
        ensures
            r == self@.license_holders.contains(holder),
    {
        self.license_holders.contains(holder)
    }

    /// Subscription `subscription_id`, if one was recorded.
    pub fn subscription(&self, subscription_id: u64) -> (r: Option<Subscription>)
        requires
            self.wf(),
        ensures
            r == if self@.has_subscription(subscription_id as int) {
                Some(self@.subscription(subscription_id as int))
            } else {
                None::<Subscription>
            },
    {
        let m: usize = self.subscriptions.len();
        if subscription_id == 0 || subscription_id - 1 >= m as u64 {
            return None;
        }
        Some(self.subscriptions[(subscription_id - 1) as usize])
    }

    /// The transfer awaiting `complete_transfer`, if any.
    pub fn pending_transfer(&self) -> (r: Option<PendingTransfer>)
        ensures
            r == self@.pending,
    {
        self.pending
    }
}

} // verus!
