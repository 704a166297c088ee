//! Royalty information for marketplaces.
//!
//! Royalty terms live in token metadata that the registry core stores
//! without inspecting; the host hands them in here together with a sale
//! price, and gets the owed amount back: the price times the percentage,
//! rounded down.

use vstd::prelude::*;

use vstd::arithmetic::div_mod::{
    lemma_div_by_multiple, lemma_div_is_ordered, lemma_div_multiples_vanish_fancy,
    lemma_fundamental_div_mod,
};

verus! {

/// Where a royalty is paid and how much is owed.
pub struct RoyaltiesInfoResponse {
    /// The payment address, empty when the metadata names none.
    pub address: String,
    /// The owed amount, in the sale's denomination.
    pub royalty_amount: u128,
}

/// Whether this registry's tokens carry royalty terms at all.
pub struct CheckRoyaltiesResponse {
    pub royalty_payments: bool,
}

/// The owed royalty: the sale price times the percentage, rounded down.
pub open spec fn spec_royalty_amount(sale_price: int, percentage: int) -> int {
    (sale_price * percentage) / 100
}

/// The royalty owed on a sale, from the token's royalty terms. An absent
/// percentage owes nothing; an absent payment address comes back empty.
pub fn query_royalties_info(
    royalty_percentage: Option<u64>,
    royalty_payment_address: Option<String>,
    sale_price: u128,
) -> (r: RoyaltiesInfoResponse)
    requires
        royalty_percentage matches Some(p) ==> p <= 100,
    ensures
        r.royalty_amount == spec_royalty_amount(
            sale_price as int,
            match royalty_percentage {
                Some(p) => p as int,
                None => 0,
            },
        ),
        r.address@ == (match royalty_payment_address {
            Some(a) => a@,
            None => Seq::<char>::empty(),
        }),
{
    let p: u64 = match royalty_percentage {
        Some(x) => x,
        None => 0,
    };
    let q: u128 = sale_price / 100;
    let rem: u128 = sale_price % 100;
    proof {
        let s = sale_price as int;
        let pi = p as int;
        lemma_fundamental_div_mod(s, 100);
        assert(s == 100 * (s / 100) + s % 100);
        assert(q as int == s / 100 && rem as int == s % 100);
        assert((q as int) * pi <= 100 * (q as int)) by (nonlinear_arith)
            requires
                0 <= (q as int),
                0 <= pi <= 100;
        assert((rem as int) * pi <= (rem as int) * 100) by (nonlinear_arith)
            requires
                0 <= (rem as int),
                0 <= pi <= 100;
        assert((rem as int) * 100 < 10000) by (nonlinear_arith)
            requires
                0 <= (rem as int),
                (rem as int) < 100;
    }
    let scaled: u128 = q * (p as u128);
    let frac_num: u128 = rem * (p as u128);
    let frac: u128 = frac_num / 100;
    proof {
        let s = sale_price as int;
        let pi = p as int;
        let a = (q as int) * pi;
        let b = (rem as int) * pi;
        // the fraction part never exceeds the remainder
        lemma_div_by_multiple(rem as int, 100);
        lemma_div_is_ordered(b, (rem as int) * 100, 100);
        assert(b / 100 <= rem as int);
        // the whole amount never exceeds the sale price
        assert(a + b / 100 <= s);
        // the split computes the rounded-down product
        lemma_fundamental_div_mod(b, 100);
        assert(b == 100 * (b / 100) + b % 100);
        assert(s * pi == 100 * (a + b / 100) + b % 100) by (nonlinear_arith)
            requires
                s == 100 * (q as int) + (rem as int),
                a == (q as int) * pi,
                b == (rem as int) * pi,
                b == 100 * (b / 100) + b % 100;
        lemma_div_multiples_vanish_fancy(a + b / 100, b % 100, 100);
        assert((s * pi) / 100 == a + b / 100);
    }
    let amount: u128 = scaled + frac;
    let address: String = match royalty_payment_address {
        Some(a) => a,
        None => String::new(),
    };
    RoyaltiesInfoResponse { address, royalty_amount: amount }
}

/// This registry specifies royalties at token level, so every token may
/// carry royalty terms: the check always answers yes.
pub fn check_royalties() -> (r: CheckRoyaltiesResponse)
    ensures
        r.royalty_payments == true,
{
    CheckRoyaltiesResponse { royalty_payments: true }
}

} // verus!
