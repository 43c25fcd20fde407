use vstd::prelude::*;
use crate::address::Address;
use crate::book::amount_in;
use crate::escrow::{listed_ids, listed_page, SubscriptionEscrow, MAX_LISTED_PLANS};
use crate::fees::{fee_of, BASIS_POINTS};
use crate::model::{debit, EscrowModel, PlanModel, Subscription, SubscriptionError, MAX_NAME_CHARS};

verus! {

/// The platform's fee never exceeds the price, so the fee and the
/// provider's amount `price - fee` add up to the price exactly.
pub proof fn lemma_fee_split(price: nat, fee_bps: nat)
    requires
        fee_bps <= BASIS_POINTS,
    ensures
        0 <= fee_of(price as int, fee_bps as int) <= price,
        fee_of(price as int, fee_bps as int) + (price - fee_of(price as int, fee_bps as int)) == price,
{
    assert((price * fee_bps) / 10000 <= price) by (nonlinear_arith)
        requires fee_bps <= 10000;
    assert(0 <= (price * fee_bps) / 10000) by (nonlinear_arith);
}

/// On a valid ledger the charge of every plan splits exactly: the fee is at
/// most the price, and the fee and the provider's amount add up to the price.
pub proof fn lemma_plan_charge_splits(ledger: &SubscriptionEscrow, plan_id: int)
    requires
        ledger.wf(),
        ledger@.has_plan(plan_id),
    ensures
        ({
            let price = ledger@.plan(plan_id).price;
            let fee = fee_of(price as int, ledger@.fee_bps as int);
            &&& 0 <= fee <= price
            &&& fee + (price - fee) == price
        }),
{
    ledger.lemma_valid_ledger();
    lemma_fee_split(ledger@.plan(plan_id).price, ledger@.fee_bps);
}

/// A provider that registered is refused with `InvalidInput` when it
/// registers again, whatever the name.
pub proof fn lemma_second_registration_refused(
    before: EscrowModel,
    caller: Address,
    name_len: nat,
    second_name_len: nat,
)
    requires
        before.register_error(caller, name_len as int) is None,
    ensures
        (EscrowModel { providers: before.providers.insert(caller), ..before }).register_error(
            caller,
            second_name_len as int,
        ) == Some(SubscriptionError::InvalidInput),
{
}

/// A provider name of 101 characters is always refused with `InvalidInput`.
pub proof fn lemma_long_name_refused(state: EscrowModel, caller: Address, name: Seq<char>)
    requires
        name.len() == MAX_NAME_CHARS + 1,
    ensures
        state.register_error(caller, name.len() as int) == Some(SubscriptionError::InvalidInput),
{
}

/// Subscribing to a plan that does not exist is refused with `NotFound`
/// (while no transfer is under way), and a refused subscription changes
/// nothing, the caller's balance included.
pub proof fn lemma_subscribe_missing_plan(
    state: EscrowModel,
    caller: Address,
    plan_id: int,
    value: int,
)
    requires
        !state.locked(),
        !state.plan_exists(plan_id),
    ensures
        state.subscribe_error(caller, plan_id, value) == Some(SubscriptionError::NotFound),
{
}

/// Subscribing without the funds for the plan's price, counting the
/// attached value, is refused with `InsufficientFunds`.
pub proof fn lemma_subscribe_underfunded(state: EscrowModel, caller: Address, plan_id: int, value: int)
    requires
        !state.locked(),
        state.plan_exists(plan_id),
        0 <= value,
        state.plan(plan_id).price <= u128::MAX,
        state.balance(caller) + value < state.plan(plan_id).price,
    ensures
        state.subscribe_error(caller, plan_id, value) == Some(SubscriptionError::InsufficientFunds),
{
}

/// A renewal before the interval has elapsed since the last payment is
/// refused with `InvalidInput`.
pub proof fn lemma_renewal_too_early(state: EscrowModel, id: int, now: int)
    requires
        now < state.subscription(id).last_payment + state.plan(
            state.subscription(id).plan_id as int,
        ).interval,
    ensures
        state.renewal_error(id, now) == Some(SubscriptionError::InvalidInput),
{
}

/// Once a renewal finds the subscriber short of funds and deactivates the
/// subscription, every later renewal of it is refused with `InvalidInput`
/// before funds are looked at.
pub proof fn lemma_lapsed_subscription_refused(state: EscrowModel, id: int, now: int, later: int)
    requires
        state.renewal_error(id, now) is None,
        state.balance(state.subscription(id).subscriber) < state.price_of(id),
    ensures
        ({
            let lapsed = EscrowModel {
                subscriptions: state.subscriptions.update(
                    id - 1,
                    Subscription { active: false, ..state.subscription(id) },
                ),
                ..state
            };
            &&& !lapsed.is_active(id)
            &&& lapsed.renewal_error(id, later) == Some(SubscriptionError::InvalidInput)
        }),
{
}

/// A withdrawal of the whole (non-zero) balance is accepted and leaves the
/// balance at zero; one of a unit more is refused with `InsufficientFunds`.
pub proof fn lemma_withdraw_all(state: EscrowModel, caller: Address)
    requires
        !state.locked(),
        state.balance(caller) > 0,
    ensures
        state.withdraw_error(caller, state.balance(caller) as int) is None,
        amount_in(debit(state.balances, caller, state.balance(caller)), caller) == 0,
        state.withdraw_error(caller, (state.balance(caller) + 1) as int) == Some(
            SubscriptionError::InsufficientFunds,
        ),
{
}

/// Every id listed up to `n` names a plan with a non-null provider.
proof fn lemma_listed_on_offer(plans: Seq<PlanModel>, n: int)
    requires
        0 <= n <= plans.len(),
        plans.len() < u64::MAX,
    ensures
        forall|k: int| 0 <= k < listed_ids(plans, n).len() ==> {
            let id = #[trigger] listed_ids(plans, n)[k] as int;
            1 <= id <= n && !plans[id - 1].provider.is_null()
        },
    decreases n,
{
    if n > 0 {
        lemma_listed_on_offer(plans, n - 1);
        let prev = listed_ids(plans, n - 1);
        assert forall|k: int| 0 <= k < listed_ids(plans, n).len() implies {
            let id = #[trigger] listed_ids(plans, n)[k] as int;
            1 <= id <= n && !plans[id - 1].provider.is_null()
        } by {
            if k < prev.len() {
                assert(listed_ids(plans, n)[k] == prev[k]);
            }
        }
    }
}

/// The plan listing holds at most ten ids, each of a plan on offer.
pub proof fn lemma_listing_bounded(state: EscrowModel)
    requires
        state.plans.len() < u64::MAX,
    ensures
        listed_page(state.plans).len() <= MAX_LISTED_PLANS,
        forall|k: int| 0 <= k < listed_page(state.plans).len() ==> state.plan_exists(
            #[trigger] listed_page(state.plans)[k] as int,
        ),
{
    let n = state.plans.len() as int;
    lemma_listed_on_offer(state.plans, n);
    assert forall|k: int| 0 <= k < listed_page(state.plans).len() implies state.plan_exists(
        #[trigger] listed_page(state.plans)[k] as int,
    ) by {
        assert(listed_page(state.plans)[k] == listed_ids(state.plans, n)[k]);
    }
}

} // verus!
