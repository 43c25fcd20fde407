use vstd::prelude::*;

verus! {

/// The denominator of a fee rate: rates are given in basis points.
pub const BASIS_POINTS: u128 = 10000;

/// The platform's share of a charge: `floor(price * fee_bps / 10000)`.
pub open spec fn fee_of(price: int, fee_bps: int) -> int {
    (price * fee_bps) / (BASIS_POINTS as int)
}

/// Computes the platform's share of a charge of `price` at `fee_bps` basis points.
pub fn protocol_fee(price: u128, fee_bps: u128) -> (fee: u128)
    requires
        fee_bps <= BASIS_POINTS,
    ensures
        fee as int == fee_of(price as int, fee_bps as int),
        fee <= price,
{
    let q: u128 = price / BASIS_POINTS;
    let r: u128 = price % BASIS_POINTS;
    proof {
        let p = price as int;
        let b = fee_bps as int;
        let qi = q as int;
        let ri = r as int;
        assert(p == qi * 10000 + ri);
        assert(0 <= ri < 10000);
        assert(qi * b <= qi * 10000) by (nonlinear_arith)
            requires 0 <= qi, 0 <= b <= 10000;
        assert(qi * b + (ri * b) / 10000 == (p * b) / 10000) by (nonlinear_arith)
            requires p == qi * 10000 + ri, 0 <= ri < 10000, 0 <= b, 0 <= qi;
        assert((p * b) / 10000 <= p) by (nonlinear_arith)
            requires 0 <= p, 0 <= b <= 10000;
        assert(ri * b < 100000000) by (nonlinear_arith)
            requires 0 <= ri < 10000, 0 <= b <= 10000;
    }
    q * fee_bps + (r * fee_bps) / BASIS_POINTS
}

/// Splits a charge of `price` into the platform's fee and the provider's amount.
pub fn split_payment(price: u128, fee_bps: u128) -> (r: (u128, u128))
    requires
        fee_bps <= BASIS_POINTS,
    ensures
        r.0 as int == fee_of(price as int, fee_bps as int),
        r.0 + r.1 == price,
{
    let fee = protocol_fee(price, fee_bps);
    (fee, price - fee)
}

} // verus!
