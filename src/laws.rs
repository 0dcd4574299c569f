//! Properties of the lending rules that hold across operations.
use vstd::prelude::*;
use crate::model::{LoanError, LoanRequest, LoanStatus};
use crate::pricing::{collateral_value_of, lemma_max_loan_is_tight, ltv_within_max, max_loan_of_value};
use crate::registry::{fresh_profile, has_profile};
use crate::service::{
    after_repay, consistent, lemma_sum_nonneg, lemma_sum_remove, max_loan_of, profile_consistent,
    repay_refusal, request_refusal, total_fits, ServiceView,
};

verus! {

/// Every loan the service holds was within the loan-to-value ceiling when
/// it was made.
pub proof fn lemma_loans_within_ltv(v: ServiceView)
    requires
        consistent(v),
    ensures
        forall|i: int|
            0 <= i < v.loans.len() ==> ltv_within_max(
                #[trigger] v.loans[i].loan_amount as int,
                v.loans[i].collateral_value as int,
            ),
{
    assert forall|i: int| 0 <= i < v.loans.len() implies ltv_within_max(
        #[trigger] v.loans[i].loan_amount as int,
        v.loans[i].collateral_value as int,
    ) by {
        assert(crate::service::loan_sound(v.loans[i]));
    }
}

/// The maximum loan that `calculate_max_loan` reports for some collateral
/// passes the loan-to-value check when requested against that collateral,
/// and one cent more is refused with `LtvExceeded`.
pub proof fn lemma_max_loan_accepted(v: ServiceView, who: Seq<u8>, c: u64, days: u32)
    requires
        c > 0,
        1 <= max_loan_of(c, v.market.btc_price_cents) < u64::MAX,
    ensures
        ({
            let m = max_loan_of(c, v.market.btc_price_cents) as u64;
            let at_max = LoanRequest { collateral_amount: c, requested_amount: m, loan_duration_days: days };
            &&& request_refusal(v, who, at_max) is None <==> (has_profile(v.profiles, who)
                && v.loans.len() < u64::MAX && total_fits(v.profiles, who, c))
            &&& !(request_refusal(v, who, at_max) matches Some(LoanError::LtvExceeded { .. }))
        }),
        ({
            let m = max_loan_of(c, v.market.btc_price_cents) as u64;
            let over = LoanRequest {
                collateral_amount: c,
                requested_amount: (m + 1) as u64,
                loan_duration_days: days,
            };
            let value = collateral_value_of(c as int, v.market.btc_price_cents as int);
            request_refusal(v, who, over) == Some(
                LoanError::LtvExceeded { loan_amount: (m + 1) as u64, collateral_value: value as u128 },
            )
        }),
{
    let value = collateral_value_of(c as int, v.market.btc_price_cents as int);
    assert(value >= 0) by (nonlinear_arith)
        requires
            value == c as int * v.market.btc_price_cents as int / 100_000_000,
            c >= 0,
            v.market.btc_price_cents >= 0,
    ;
    lemma_max_loan_is_tight(value);
    assert(max_loan_of(c, v.market.btc_price_cents) == max_loan_of_value(value));
}

/// Once `who` has a profile, a second creation is refused: the state after
/// the first creation already holds a profile for `who`, so `create_user_profile`
/// answers `DuplicateProfile` and leaves that state, first profile included,
/// as it was.
pub proof fn lemma_profile_created_once(v: ServiceView, who: Seq<u8>, now: u64)
    ensures
        has_profile(v.profiles.push(fresh_profile(who, now)), who),
{
    let ps = v.profiles.push(fresh_profile(who, now));
    assert(ps[v.profiles.len() as int].user == who);
}

/// After a repayment: the loan is `Repaid`, repaying it again is refused
/// with `InvalidState`, and the borrower's profile no longer lists it and
/// has exactly its collateral less locked.
pub proof fn lemma_repay_settles(v: ServiceView, who: Seq<u8>, id: u64)
    requires
        consistent(v),
        repay_refusal(v, who, id) is None,
    ensures
        ({
            let w = after_repay(v, who, id);
            &&& w.loans[id - 1].status == LoanStatus::Repaid
            &&& repay_refusal(w, who, id) == Some(LoanError::InvalidState)
            &&& forall|i: int|
                0 <= i < v.profiles.len() && #[trigger] v.profiles[i].user == who ==> {
                    &&& !w.profiles[i].active_loans.contains(id)
                    &&& w.profiles[i].total_collateral == v.profiles[i].total_collateral
                        - v.loans[id - 1].collateral_amount
                }
        }),
{
    let w = after_repay(v, who, id);
    let c = v.loans[id - 1].collateral_amount;
    assert forall|i: int|
        0 <= i < v.profiles.len() && #[trigger] v.profiles[i].user == who implies {
            &&& !w.profiles[i].active_loans.contains(id)
            &&& w.profiles[i].total_collateral == v.profiles[i].total_collateral - c
        } by {
        let p = v.profiles[i];
        let ids = p.active_loans;
        assert(profile_consistent(p, v.loans));
        assert(v.loans[id - 1].borrower == p.user);
        assert(ids.contains(((id - 1) + 1) as u64));
        let k = ids.index_of(id);
        assert(ids[k] == id);
        lemma_sum_remove(ids, k, v.loans);
        lemma_sum_nonneg(ids.remove(k), v.loans);
        let rest = ids.remove(k);
        assert(w.profiles[i].active_loans == rest);
        if rest.contains(id) {
            let m = choose|m: int| 0 <= m < rest.len() && rest[m] == id;
            if m < k {
                assert(ids[m] == id);
            } else {
                assert(ids[m + 1] == id);
            }
        }
    }
}

/// A repayment by anyone but the borrower is refused with `Unauthorized`,
/// and `repay_loan` then leaves the state as it was.
pub proof fn lemma_repay_by_stranger_refused(v: ServiceView, who: Seq<u8>, id: u64)
    requires
        1 <= id <= v.loans.len(),
        v.loans[id - 1].borrower != who,
    ensures
        repay_refusal(v, who, id) == Some(LoanError::Unauthorized),
{
}

} // verus!
