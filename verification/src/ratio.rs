use vstd::prelude::*;

verus! {

/// `value * numerator / denominator`, rounded down, when the denominator is
/// nonzero and the quotient fits in 128 bits.
pub open spec fn ratio_floor(value: u128, numerator: u128, denominator: u128) -> Option<u128> {
    if denominator == 0 || (value * numerator) / (denominator as int) > u128::MAX {
        None
    } else {
        Some(((value * numerator) / (denominator as int)) as u128)
    }
}

/// Trusted: `cosmwasm_std::Uint128::checked_multiply_ratio`. It widens the
/// product to 256 bits, divides rounding down, and reports a zero
/// denominator or a quotient beyond 128 bits as an error; both errors are
/// mapped to `None` here.
#[verifier::external_body]
pub(crate) fn multiply_ratio(value: u128, numerator: u128, denominator: u128) -> (r: Option<u128>)
    ensures
        r == ratio_floor(value, numerator, denominator),
{
    match cosmwasm_std::Uint128::new(value).checked_multiply_ratio(numerator, denominator) {
        Ok(q) => Some(q.u128()),
        Err(_) => None,
    }
}

} // verus!
