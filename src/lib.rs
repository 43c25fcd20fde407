//! A subscription-billing escrow ledger: providers register and publish
//! recurring plans, users fund an escrow balance, and each charge is split
//! between the provider and the platform.

mod address;
mod book;
mod escrow;
mod fees;
pub mod laws;
mod model;

pub use address::Address;
pub use book::amount_in;
pub use escrow::{listed_ids, listed_page, SubscriptionEscrow, DEFAULT_FEE_BPS, MAX_LISTED_PLANS};
pub use fees::{fee_of, protocol_fee, split_payment, BASIS_POINTS};
pub use model::{
    credit, debit, EscrowModel, PendingTransfer, PlanModel, Settled, Subscription,
    SubscriptionError, Transfer, MAX_NAME_CHARS,
};
