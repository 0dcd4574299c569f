use vstd::prelude::*;
use crate::identity::Identity;

verus! {

/// Where a loan stands in its lifecycle. Only `Active` to `Repaid` is
/// produced by any operation; the other two are reserved.
#[derive(Clone, Copy, Debug, PartialEq, Eq, Structural)]
pub enum LoanStatus {
    Active,
    Repaid,
    Liquidated,
    Defaulted,
}

/// One origination event.
#[derive(Debug)]
pub struct Loan {
    pub id: u64,
    pub borrower: Identity,
    /// In satoshis; fixed at creation.
    pub collateral_amount: u64,
    /// In cents; fixed at creation.
    pub loan_amount: u64,
    /// Annual rate in basis points.
    pub interest_rate_bps: u64,
    /// Nanoseconds.
    pub created_at: u64,
    /// Nanoseconds.
    pub due_date: u64,
    pub status: LoanStatus,
    /// The collateral's value in cents at origination; the loan-to-value
    /// ratio is `loan_amount / collateral_value`.
    pub collateral_value: u128,
}

/// What a `Loan` holds, with the borrower as bytes.
pub ghost struct LoanView {
    pub id: u64,
    pub borrower: Seq<u8>,
    pub collateral_amount: u64,
    pub loan_amount: u64,
    pub interest_rate_bps: u64,
    pub created_at: u64,
    pub due_date: u64,
    pub status: LoanStatus,
    pub collateral_value: u128,
}

impl View for Loan {
    type V = LoanView;

    open spec fn view(&self) -> LoanView {
        LoanView {
            id: self.id,
            borrower: self.borrower@,
            collateral_amount: self.collateral_amount,
            loan_amount: self.loan_amount,
            interest_rate_bps: self.interest_rate_bps,
            created_at: self.created_at,
            due_date: self.due_date,
            status: self.status,
            collateral_value: self.collateral_value,
        }
    }
}

impl Loan {
    /// A copy of this loan record.
    pub fn duplicate(&self) -> (r: Loan)
        ensures
            r@ == self@,
    {
        Loan {
            id: self.id,
            borrower: self.borrower.duplicate(),
            collateral_amount: self.collateral_amount,
            loan_amount: self.loan_amount,
            interest_rate_bps: self.interest_rate_bps,
            created_at: self.created_at,
            due_date: self.due_date,
            status: self.status,
            collateral_value: self.collateral_value,
        }
    }
}

/// One per identity, created once and never deleted.
#[derive(Debug)]
pub struct UserProfile {
    pub user_principal: Identity,
    /// Satoshis locked across the user's active loans.
    pub total_collateral: u64,
    /// Ids of the user's active loans.
    pub active_loans: Vec<u64>,
    pub credit_score: u32,
    /// Nanoseconds.
    pub created_at: u64,
}

/// What a `UserProfile` holds, with the identity as bytes.
pub ghost struct ProfileView {
    pub user: Seq<u8>,
    pub total_collateral: u64,
    pub active_loans: Seq<u64>,
    pub credit_score: u32,
    pub created_at: u64,
}

impl View for UserProfile {
    type V = ProfileView;

    open spec fn view(&self) -> ProfileView {
        ProfileView {
            user: self.user_principal@,
            total_collateral: self.total_collateral,
            active_loans: self.active_loans@,
            credit_score: self.credit_score,
            created_at: self.created_at,
        }
    }
}

/// The ids in `ids`, copied.
pub fn copy_ids(ids: &Vec<u64>) -> (r: Vec<u64>)
    ensures
        r@ == ids@,
{
    let mut out: Vec<u64> = Vec::with_capacity(ids.len());
    let mut i: usize = 0;
    while i < ids.len()
        invariant
            i <= ids@.len(),
            out@ == ids@.subrange(0, i as int),
        decreases ids@.len() - i,
    {
        out.push(ids[i]);
        i = i + 1;
        assert(out@ =~= ids@.subrange(0, i as int));
    }
    assert(out@ =~= ids@);
    out
}

impl UserProfile {
    /// A copy of this profile.
    pub fn duplicate(&self) -> (r: UserProfile)
        ensures
            r@ == self@,
    {
        UserProfile {
            user_principal: self.user_principal.duplicate(),
            total_collateral: self.total_collateral,
            active_loans: copy_ids(&self.active_loans),
            credit_score: self.credit_score,
            created_at: self.created_at,
        }
    }
}

/// What a borrower asks for.
#[derive(Clone, Copy, Debug, PartialEq, Eq, Structural)]
pub struct LoanRequest {
    /// Satoshis.
    pub collateral_amount: u64,
    /// Cents.
    pub requested_amount: u64,
    pub loan_duration_days: u32,
}

/// The current collateral price.
#[derive(Clone, Copy, Debug, PartialEq, Eq, Structural)]
pub struct MarketData {
    /// Cents per whole coin.
    pub btc_price_cents: u64,
    /// Nanoseconds.
    pub last_updated: u64,
}

/// Why an operation was refused.
#[derive(Clone, Copy, Debug, PartialEq, Eq, Structural)]
pub enum LoanError {
    /// A zero collateral or loan amount.
    ValidationError,
    /// The loan would exceed the loan-to-value ceiling.
    LtvExceeded { loan_amount: u64, collateral_value: u128 },
    /// The caller already has a profile.
    DuplicateProfile,
    /// The caller has no profile to hold the loan.
    ProfileMissing,
    /// No loan has that id.
    NotFound,
    /// The caller is not the loan's borrower.
    Unauthorized,
    /// The loan is not active.
    InvalidState,
    /// A price of zero.
    InvalidPrice,
    /// Loan ids or a user's locked collateral would leave the `u64` range.
    CapacityExceeded,
}

} // verus!
