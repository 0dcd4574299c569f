use vstd::prelude::*;
use crate::identity::Identity;
use crate::ledger::{borrowed_by, with_status, LoanLedger};
use crate::model::{Loan, LoanError, LoanRequest, LoanStatus, LoanView, MarketData, ProfileView, UserProfile};
use crate::pricing::{
    collateral_value, collateral_value_of, interest_due, interest_of, ltv_acceptable,
    ltv_within_max, max_collateral_value, max_loan_for_value, max_loan_of_value,
    INTEREST_RATE_BPS, NANOS_PER_DAY,
};
use crate::registry::{fresh_profile, has_profile, UserRegistry};

verus! {

/// The price a new service starts from: 45,000.00 per coin, in cents.
pub const INITIAL_PRICE_CENTS: u64 = 4_500_000;

/// What the service holds: the price, the loans in id order, the profiles.
pub ghost struct ServiceView {
    pub market: MarketData,
    pub loans: Seq<LoanView>,
    pub profiles: Seq<ProfileView>,
}

/// Sum of the collateral of the loans named by `ids`.
pub open spec fn collateral_sum(ids: Seq<u64>, loans: Seq<LoanView>) -> int
    decreases ids.len(),
{
    if ids.len() == 0 {
        0
    } else {
        collateral_sum(ids.drop_last(), loans) + loans[ids.last() - 1].collateral_amount
    }
}

/// A stored loan's own fields are sound: positive amounts, the fixed rate,
/// and a loan-to-value ratio within the ceiling.
pub open spec fn loan_sound(l: LoanView) -> bool {
    &&& l.collateral_amount > 0
    &&& l.loan_amount > 0
    &&& l.interest_rate_bps == INTEREST_RATE_BPS
    &&& ltv_within_max(l.loan_amount as int, l.collateral_value as int)
}

/// `p` lists exactly the active loans of its user, once each, and its locked
/// collateral is their sum.
pub open spec fn profile_consistent(p: ProfileView, loans: Seq<LoanView>) -> bool {
    &&& p.active_loans.no_duplicates()
    &&& forall|k: int|
        0 <= k < p.active_loans.len() ==> {
            let id = #[trigger] p.active_loans[k];
            &&& 1 <= id <= loans.len()
            &&& loans[id - 1].borrower == p.user
            &&& loans[id - 1].status == LoanStatus::Active
        }
    &&& forall|i: int|
        0 <= i < loans.len() && #[trigger] loans[i].borrower == p.user && loans[i].status
            == LoanStatus::Active ==> p.active_loans.contains((i + 1) as u64)
    &&& p.total_collateral == collateral_sum(p.active_loans, loans)
}

proof fn lemma_sum_push(ids: Seq<u64>, id: u64, loans: Seq<LoanView>)
    ensures
        collateral_sum(ids.push(id), loans) == collateral_sum(ids, loans)
            + loans[id - 1].collateral_amount,
{
    assert(ids.push(id).drop_last() =~= ids);
}

pub proof fn lemma_sum_nonneg(ids: Seq<u64>, loans: Seq<LoanView>)
    ensures
        collateral_sum(ids, loans) >= 0,
    decreases ids.len(),
{
    if ids.len() > 0 {
        lemma_sum_nonneg(ids.drop_last(), loans);
    }
}

pub proof fn lemma_sum_remove(ids: Seq<u64>, k: int, loans: Seq<LoanView>)
    requires
        0 <= k < ids.len(),
    ensures
        collateral_sum(ids.remove(k), loans) == collateral_sum(ids, loans)
            - loans[ids[k] - 1].collateral_amount,
    decreases ids.len(),
{
    if k == ids.len() - 1 {
        assert(ids.remove(k) =~= ids.drop_last());
    } else {
        let rest = ids.drop_last();
        lemma_sum_remove(rest, k, loans);
        assert(ids.remove(k).drop_last() =~= rest.remove(k));
        assert(ids.remove(k).last() == ids.last());
    }
}

/// The sum reads only the collateral of the loans that `ids` names.
proof fn lemma_sum_frame(ids: Seq<u64>, a: Seq<LoanView>, b: Seq<LoanView>)
    requires
        forall|k: int|
            0 <= k < ids.len() ==> a[#[trigger] ids[k] - 1].collateral_amount == b[ids[k]
                - 1].collateral_amount,
    ensures
        collateral_sum(ids, a) == collateral_sum(ids, b),
    decreases ids.len(),
{
    if ids.len() > 0 {
        let rest = ids.drop_last();
        assert forall|k: int| 0 <= k < rest.len() implies a[#[trigger] rest[k] - 1].collateral_amount
            == b[rest[k] - 1].collateral_amount by {
            assert(rest[k] == ids[k]);
        }
        lemma_sum_frame(rest, a, b);
        assert(ids.last() == ids[ids.len() - 1]);
    }
}

/// The service's invariant over what it holds.
pub open spec fn consistent(v: ServiceView) -> bool {
    &&& v.market.btc_price_cents > 0
    &&& forall|i: int| 0 <= i < v.loans.len() ==> #[trigger] v.loans[i].id == i + 1
    &&& forall|i: int| 0 <= i < v.loans.len() ==> loan_sound(#[trigger] v.loans[i])
    &&& forall|i: int|
        0 <= i < v.loans.len() ==> has_profile(v.profiles, #[trigger] v.loans[i].borrower)
    &&& forall|i: int, j: int|
        0 <= i < v.profiles.len() && 0 <= j < v.profiles.len() && i != j
            ==> #[trigger] v.profiles[i].user != #[trigger] v.profiles[j].user
    &&& forall|i: int|
        0 <= i < v.profiles.len() ==> profile_consistent(#[trigger] v.profiles[i], v.loans)
}

/// The due date of a loan made at `now` for `days` days, in nanoseconds,
/// capped at the largest `u64`.
pub open spec fn due_date_of(now: u64, days: u32) -> u64 {
    let d = now + days * NANOS_PER_DAY;
    if d <= u64::MAX {
        d as u64
    } else {
        u64::MAX
    }
}

/// Whether adding `c` to the locked collateral of `who`'s profile fits.
pub open spec fn total_fits(profiles: Seq<ProfileView>, who: Seq<u8>, c: u64) -> bool {
    forall|i: int|
        0 <= i < profiles.len() && #[trigger] profiles[i].user == who ==> profiles[i].total_collateral
            + c <= u64::MAX
}

/// Why `who` may not borrow on `req` in state `v`, or `None` when it may.
pub open spec fn request_refusal(v: ServiceView, who: Seq<u8>, req: LoanRequest) -> Option<LoanError> {
    let value = collateral_value_of(req.collateral_amount as int, v.market.btc_price_cents as int);
    if req.collateral_amount == 0 || req.requested_amount == 0 {
        Some(LoanError::ValidationError)
    } else if !ltv_within_max(req.requested_amount as int, value) {
        Some(
            LoanError::LtvExceeded {
                loan_amount: req.requested_amount,
                collateral_value: value as u128,
            },
        )
    } else if !has_profile(v.profiles, who) {
        Some(LoanError::ProfileMissing)
    } else if v.loans.len() >= u64::MAX || !total_fits(v.profiles, who, req.collateral_amount) {
        Some(LoanError::CapacityExceeded)
    } else {
        None
    }
}

/// The loan that `req` by `who` creates at `now` in state `v`.
pub open spec fn originated(v: ServiceView, who: Seq<u8>, req: LoanRequest, now: u64) -> LoanView {
    LoanView {
        id: (v.loans.len() + 1) as u64,
        borrower: who,
        collateral_amount: req.collateral_amount,
        loan_amount: req.requested_amount,
        interest_rate_bps: INTEREST_RATE_BPS,
        created_at: now,
        due_date: due_date_of(now, req.loan_duration_days),
        status: LoanStatus::Active,
        collateral_value: collateral_value_of(
            req.collateral_amount as int,
            v.market.btc_price_cents as int,
        ) as u128,
    }
}

/// `p` with loan `id` of `c` satoshis added to its active ones.
pub open spec fn with_loan(p: ProfileView, id: u64, c: u64) -> ProfileView {
    ProfileView {
        total_collateral: (p.total_collateral + c) as u64,
        active_loans: p.active_loans.push(id),
        ..p
    }
}

/// Why `who` may not repay loan `id` in state `v`, or `None` when it may.
pub open spec fn repay_refusal(v: ServiceView, who: Seq<u8>, id: u64) -> Option<LoanError> {
    if !(1 <= id <= v.loans.len()) {
        Some(LoanError::NotFound)
    } else if v.loans[id - 1].borrower != who {
        Some(LoanError::Unauthorized)
    } else if v.loans[id - 1].status != LoanStatus::Active {
        Some(LoanError::InvalidState)
    } else {
        None
    }
}

/// `p` with loan `id` of `c` satoshis taken off its active ones.
pub open spec fn without_loan(p: ProfileView, id: u64, c: u64) -> ProfileView {
    ProfileView {
        total_collateral: (p.total_collateral - c) as u64,
        active_loans: p.active_loans.remove(p.active_loans.index_of(id)),
        ..p
    }
}

/// The largest loan, in cents, that `c` satoshis allow at `price` cents per
/// coin, capped at the largest `u64`.
pub open spec fn max_loan_of(c: u64, price: u64) -> int {
    let m = max_loan_of_value(collateral_value_of(c as int, price as int));
    if m <= u64::MAX {
        m
    } else {
        u64::MAX as int
    }
}

/// The state after `who` borrows on `req` at `now`.
pub open spec fn after_request(v: ServiceView, who: Seq<u8>, req: LoanRequest, now: u64) -> ServiceView {
    let id = (v.loans.len() + 1) as u64;
    ServiceView {
        market: v.market,
        loans: v.loans.push(originated(v, who, req, now)),
        profiles: v.profiles.map_values(
            |p: ProfileView|
                if p.user == who {
                    with_loan(p, id, req.collateral_amount)
                } else {
                    p
                },
        ),
    }
}

/// The state after `who` repays loan `id`.
pub open spec fn after_repay(v: ServiceView, who: Seq<u8>, id: u64) -> ServiceView {
    let c = v.loans[id - 1].collateral_amount;
    ServiceView {
        market: v.market,
        loans: with_status(v.loans, id - 1, LoanStatus::Repaid),
        profiles: v.profiles.map_values(
            |p: ProfileView|
                if p.user == who {
                    without_loan(p, id, c)
                } else {
                    p
                },
        ),
    }
}

/// What is owed, in cents, to repay `l` at `now`.
pub open spec fn total_due_of(l: LoanView, now: u64) -> int {
    let elapsed = if now >= l.created_at {
        now - l.created_at
    } else {
        0
    };
    l.loan_amount + interest_of(l.loan_amount as int, elapsed)
}

/// The loan ledger, the profiles and the price, kept mutually consistent.
pub struct LoanService {
    market: MarketData,
    ledger: LoanLedger,
    registry: UserRegistry,
}

proof fn lemma_originate_keeps_consistent(
    v: ServiceView,
    w: ServiceView,
    who: Seq<u8>,
    req: LoanRequest,
    now: u64,
    j: int,
)
    requires
        consistent(v),
        request_refusal(v, who, req) is None,
        collateral_value_of(req.collateral_amount as int, v.market.btc_price_cents as int)
            <= max_collateral_value(),
        0 <= j < v.profiles.len(),
        v.profiles[j].user == who,
        w.market == v.market,
        w.loans == v.loans.push(originated(v, who, req, now)),
        w.profiles == v.profiles.update(
            j,
            with_loan(v.profiles[j], (v.loans.len() + 1) as u64, req.collateral_amount),
        ),
    ensures
        consistent(w),
{
    let n = v.loans.len();
    let l = originated(v, who, req, now);
    let value = collateral_value_of(req.collateral_amount as int, v.market.btc_price_cents as int);
    assert(value >= 0) by (nonlinear_arith)
        requires
            value == req.collateral_amount as int * v.market.btc_price_cents as int / 100_000_000,
            req.collateral_amount >= 0,
            v.market.btc_price_cents >= 0,
    ;
    assert(loan_sound(l));
    assert forall|i: int| 0 <= i < w.profiles.len() implies #[trigger] w.profiles[i].user
        == v.profiles[i].user by {}
    assert forall|i: int| 0 <= i < w.loans.len() implies has_profile(
        w.profiles,
        #[trigger] w.loans[i].borrower,
    ) by {
        if i < n {
            let b = v.loans[i].borrower;
            assert(has_profile(v.profiles, b));
            let q = choose|q: int| 0 <= q < v.profiles.len() && #[trigger] v.profiles[q].user == b;
            assert(w.profiles[q].user == b);
        } else {
            assert(w.profiles[j].user == who);
        }
    }
    assert forall|i: int| 0 <= i < w.profiles.len() implies profile_consistent(
        #[trigger] w.profiles[i],
        w.loans,
    ) by {
        let p = v.profiles[i];
        assert(profile_consistent(p, v.loans));
        assert forall|k: int| 0 <= k < p.active_loans.len() implies v.loans[#[trigger] p.active_loans[k]
            - 1].collateral_amount == w.loans[p.active_loans[k] - 1].collateral_amount by {}
        lemma_sum_frame(p.active_loans, v.loans, w.loans);
        if i != j {
            assert(p.user != who);
            assert forall|x: int|
                0 <= x < w.loans.len() && #[trigger] w.loans[x].borrower == p.user
                    && w.loans[x].status == LoanStatus::Active implies p.active_loans.contains(
                (x + 1) as u64,
            ) by {
                assert(x < n);
                assert(w.loans[x] == v.loans[x]);
            }
        } else {
            let q = w.profiles[i];
            let id = (n + 1) as u64;
            assert(q.active_loans == p.active_loans.push(id));
            assert(!p.active_loans.contains(id)) by {
                if p.active_loans.contains(id) {
                    let k = choose|k: int| 0 <= k < p.active_loans.len() && p.active_loans[k] == id;
                    assert(p.active_loans[k] <= n);
                }
            }
            assert(q.active_loans.no_duplicates()) by {
                assert forall|a: int, b: int|
                    0 <= a < q.active_loans.len() && 0 <= b < q.active_loans.len() && a != b
                        implies q.active_loans[a] != q.active_loans[b] by {
                    if a < p.active_loans.len() && b < p.active_loans.len() {
                    } else if a < p.active_loans.len() {
                        assert(p.active_loans.contains(p.active_loans[a]));
                    } else {
                        assert(p.active_loans.contains(p.active_loans[b]));
                    }
                }
            }
            assert forall|k: int| 0 <= k < q.active_loans.len() implies {
                let x = #[trigger] q.active_loans[k];
                &&& 1 <= x <= w.loans.len()
                &&& w.loans[x - 1].borrower == q.user
                &&& w.loans[x - 1].status == LoanStatus::Active
            } by {
                if k < p.active_loans.len() {
                    assert(q.active_loans[k] == p.active_loans[k]);
                }
            }
            assert forall|x: int|
                0 <= x < w.loans.len() && #[trigger] w.loans[x].borrower == q.user
                    && w.loans[x].status == LoanStatus::Active implies q.active_loans.contains(
                (x + 1) as u64,
            ) by {
                if x < n {
                    assert(w.loans[x] == v.loans[x]);
                    assert(p.active_loans.contains((x + 1) as u64));
                    let k = choose|k: int|
                        0 <= k < p.active_loans.len() && p.active_loans[k] == (x + 1) as u64;
                    assert(q.active_loans[k] == (x + 1) as u64);
                } else {
                    assert(q.active_loans[p.active_loans.len() as int] == id);
                }
            }
            lemma_sum_push(p.active_loans, id, w.loans);
        }
    }
}

proof fn lemma_repay_keeps_consistent(v: ServiceView, w: ServiceView, who: Seq<u8>, id: u64, j: int, k: int)
    requires
        consistent(v),
        repay_refusal(v, who, id) is None,
        0 <= j < v.profiles.len(),
        v.profiles[j].user == who,
        0 <= k < v.profiles[j].active_loans.len(),
        v.profiles[j].active_loans[k] == id,
        w.market == v.market,
        w.loans == with_status(v.loans, id - 1, LoanStatus::Repaid),
        w.profiles == v.profiles.update(
            j,
            ProfileView {
                total_collateral: (v.profiles[j].total_collateral
                    - v.loans[id - 1].collateral_amount) as u64,
                active_loans: v.profiles[j].active_loans.remove(k),
                ..v.profiles[j]
            },
        ),
    ensures
        consistent(w),
{
    let n = v.loans.len();
    let gone = id - 1;
    assert forall|i: int| 0 <= i < n implies #[trigger] w.loans[i].borrower == v.loans[i].borrower
        && w.loans[i].collateral_amount == v.loans[i].collateral_amount && w.loans[i].id
        == v.loans[i].id && (i != gone ==> w.loans[i] == v.loans[i]) by {}
    assert forall|i: int| 0 <= i < w.loans.len() implies loan_sound(#[trigger] w.loans[i]) by {
        assert(loan_sound(v.loans[i]));
    }
    assert forall|i: int| 0 <= i < w.profiles.len() implies #[trigger] w.profiles[i].user
        == v.profiles[i].user by {}
    assert forall|i: int| 0 <= i < w.loans.len() implies has_profile(
        w.profiles,
        #[trigger] w.loans[i].borrower,
    ) by {
        let b = v.loans[i].borrower;
        assert(has_profile(v.profiles, b));
        let q = choose|q: int| 0 <= q < v.profiles.len() && #[trigger] v.profiles[q].user == b;
        assert(w.profiles[q].user == b);
    }
    assert forall|i: int| 0 <= i < w.profiles.len() implies profile_consistent(
        #[trigger] w.profiles[i],
        w.loans,
    ) by {
        let p = v.profiles[i];
        assert(profile_consistent(p, v.loans));
        assert forall|m: int| 0 <= m < p.active_loans.len() implies v.loans[#[trigger] p.active_loans[m]
            - 1].collateral_amount == w.loans[p.active_loans[m] - 1].collateral_amount by {}
        lemma_sum_frame(p.active_loans, v.loans, w.loans);
        if i != j {
            assert(p.user != who);
            assert forall|m: int| 0 <= m < p.active_loans.len() implies #[trigger] p.active_loans[m]
                != id by {}
            assert forall|m: int| 0 <= m < p.active_loans.len() implies {
                let x = #[trigger] p.active_loans[m];
                &&& 1 <= x <= w.loans.len()
                &&& w.loans[x - 1].borrower == p.user
                &&& w.loans[x - 1].status == LoanStatus::Active
            } by {
                assert(p.active_loans[m] != id);
            }
            assert forall|x: int|
                0 <= x < w.loans.len() && #[trigger] w.loans[x].borrower == p.user
                    && w.loans[x].status == LoanStatus::Active implies p.active_loans.contains(
                (x + 1) as u64,
            ) by {
                assert(x != gone);
                assert(w.loans[x] == v.loans[x]);
            }
        } else {
            let q = w.profiles[i];
            let ids = p.active_loans;
            assert(q.active_loans == ids.remove(k));
            assert forall|m: int| 0 <= m < q.active_loans.len() implies #[trigger] q.active_loans[m]
                == if m < k { ids[m] } else { ids[m + 1] } by {}
            assert forall|m: int| 0 <= m < q.active_loans.len() implies #[trigger] q.active_loans[m]
                != id by {
                if m < k {
                    assert(ids[m] != ids[k]);
                } else {
                    assert(ids[m + 1] != ids[k]);
                }
            }
            assert(q.active_loans.no_duplicates()) by {
                assert forall|a: int, b: int|
                    0 <= a < q.active_loans.len() && 0 <= b < q.active_loans.len() && a != b
                        implies q.active_loans[a] != q.active_loans[b] by {
                    let a2 = if a < k { a } else { a + 1 };
                    let b2 = if b < k { b } else { b + 1 };
                    assert(q.active_loans[a] == ids[a2]);
                    assert(q.active_loans[b] == ids[b2]);
                }
            }
            assert forall|m: int| 0 <= m < q.active_loans.len() implies {
                let x = #[trigger] q.active_loans[m];
                &&& 1 <= x <= w.loans.len()
                &&& w.loans[x - 1].borrower == q.user
                &&& w.loans[x - 1].status == LoanStatus::Active
            } by {
                let m2 = if m < k { m } else { m + 1 };
                assert(q.active_loans[m] == ids[m2]);
                assert(ids[m2] != id);
            }
            assert forall|x: int|
                0 <= x < w.loans.len() && #[trigger] w.loans[x].borrower == q.user
                    && w.loans[x].status == LoanStatus::Active implies q.active_loans.contains(
                (x + 1) as u64,
            ) by {
                assert(x != gone);
                assert(w.loans[x] == v.loans[x]);
                assert(ids.contains((x + 1) as u64));
                let m = choose|m: int| 0 <= m < ids.len() && ids[m] == (x + 1) as u64;
                assert(m != k);
                if m < k {
                    assert(q.active_loans[m] == ids[m]);
                } else {
                    assert(q.active_loans[m - 1] == ids[m]);
                }
            }
            lemma_sum_remove(ids, k, w.loans);
            lemma_sum_nonneg(ids.remove(k), w.loans);
        }
    }
}

impl View for LoanService {
    type V = ServiceView;

    closed spec fn view(&self) -> ServiceView {
        ServiceView { market: self.market, loans: self.ledger@, profiles: self.registry@ }
    }
}

} // verus!

verus! {

impl LoanService {
    /// Every operation keeps the records consistent with one another.
    pub open spec fn wf(&self) -> bool {
        consistent(self@)
    }

    /// An empty service at the initial price.
    pub fn new() -> (r: LoanService)
        ensures
            r.wf(),
            r@.market == (MarketData { btc_price_cents: INITIAL_PRICE_CENTS, last_updated: 0 }),
            r@.loans == Seq::<LoanView>::empty(),
            r@.profiles == Seq::<ProfileView>::empty(),
    {
        LoanService {
            market: MarketData { btc_price_cents: INITIAL_PRICE_CENTS, last_updated: 0 },
            ledger: LoanLedger::new(),
            registry: UserRegistry::new(),
        }
    }

    /// Originates a loan for `caller` at time `now`, locking its collateral
    /// in the caller's profile.
    pub fn request_loan(&mut self, caller: &Identity, request: LoanRequest, now: u64)
        -> (r: Result<Loan, LoanError>)
        requires
            old(self).wf(),
        ensures
            final(self).wf(),
            request_refusal(old(self)@, caller@, request) matches Some(e) ==> (r == Err::<Loan, LoanError>(e)
                && final(self)@ == old(self)@),
            request_refusal(old(self)@, caller@, request) is None ==> (r matches Ok(l)
                && l@ == originated(old(self)@, caller@, request, now)
                && final(self)@ == after_request(old(self)@, caller@, request, now)),
    {
        let ghost v = self@;
        if request.collateral_amount == 0 || request.requested_amount == 0 {
            return Err(LoanError::ValidationError);
        }
        let value = collateral_value(request.collateral_amount, self.market.btc_price_cents);
        if !ltv_acceptable(request.requested_amount, value) {
            return Err(
                LoanError::LtvExceeded {
                    loan_amount: request.requested_amount,
                    collateral_value: value,
                },
            );
        }
        let idx = match self.registry.find(caller) {
            Some(i) => i,
            None => {
                return Err(LoanError::ProfileMissing);
            },
        };
        let id = match self.ledger.next_id() {
            Some(id) => id,
            None => {
                return Err(LoanError::CapacityExceeded);
            },
        };
        let total = self.registry.total_collateral_at(idx);
        if total > u64::MAX - request.collateral_amount {
            assert(!total_fits(v.profiles, caller@, request.collateral_amount));
            return Err(LoanError::CapacityExceeded);
        }
        assert(total_fits(v.profiles, caller@, request.collateral_amount)) by {
            assert forall|i: int|
                0 <= i < v.profiles.len() && #[trigger] v.profiles[i].user == caller@ implies v.profiles[i].total_collateral
                    + request.collateral_amount <= u64::MAX by {
                if i != idx {
                    assert(v.profiles[i].user != v.profiles[idx as int].user);
                }
            }
        }
        let span = (request.loan_duration_days as u128) * (NANOS_PER_DAY as u128);
        let due = (now as u128) + span;
        let due_date = if due <= u64::MAX as u128 {
            due as u64
        } else {
            u64::MAX
        };
        let loan = Loan {
            id,
            borrower: caller.duplicate(),
            collateral_amount: request.collateral_amount,
            loan_amount: request.requested_amount,
            interest_rate_bps: INTEREST_RATE_BPS,
            created_at: now,
            due_date,
            status: LoanStatus::Active,
            collateral_value: value,
        };
        let result = loan.duplicate();
        assert(loan@ == originated(v, caller@, request, now));
        self.ledger.insert(loan);
        self.registry.add_active_loan(idx, id, request.collateral_amount);
        proof {
            let w = self@;
            assert(w.profiles == v.profiles.update(
                idx as int,
                with_loan(v.profiles[idx as int], id, request.collateral_amount),
            ));
            lemma_originate_keeps_consistent(v, w, caller@, request, now, idx as int);
            assert forall|i: int| 0 <= i < v.profiles.len() implies #[trigger] w.profiles[i]
                == if v.profiles[i].user == caller@ {
                with_loan(v.profiles[i], id, request.collateral_amount)
            } else {
                v.profiles[i]
            } by {
                if i != idx {
                    assert(v.profiles[i].user != v.profiles[idx as int].user);
                }
            }
            assert(w.profiles =~= after_request(v, caller@, request, now).profiles);
        }
        Ok(result)
    }

    /// Repays loan `loan_id` on behalf of `caller` at time `now`, releasing
    /// its collateral; returns the amount due in cents, principal plus
    /// interest prorated over the time since origination.
    pub fn repay_loan(&mut self, caller: &Identity, loan_id: u64, now: u64) -> (r: Result<u128, LoanError>)
        requires
            old(self).wf(),
        ensures
            final(self).wf(),
            repay_refusal(old(self)@, caller@, loan_id) matches Some(e) ==> (r == Err::<u128, LoanError>(e)
                && final(self)@ == old(self)@),
            repay_refusal(old(self)@, caller@, loan_id) is None ==> (r matches Ok(total)
                && total == total_due_of(old(self)@.loans[loan_id - 1], now)
                && final(self)@ == after_repay(old(self)@, caller@, loan_id)),
    {
        let ghost v = self@;
        let loan = match self.ledger.get(loan_id) {
            Some(l) => l,
            None => {
                return Err(LoanError::NotFound);
            },
        };
        if !loan.borrower.same_as(caller) {
            return Err(LoanError::Unauthorized);
        }
        if loan.status != LoanStatus::Active {
            return Err(LoanError::InvalidState);
        }
        let elapsed = if now >= loan.created_at {
            now - loan.created_at
        } else {
            0
        };
        let interest = interest_due(loan.loan_amount, elapsed);
        let total_due = loan.loan_amount as u128 + interest;
        let idx = match self.registry.find(caller) {
            Some(i) => i,
            None => {
                proof {
                    let gone = loan_id - 1;
                    assert(has_profile(v.profiles, v.loans[gone].borrower));
                }
                return Err(LoanError::NotFound);
            },
        };
        let ghost p = v.profiles[idx as int];
        proof {
            let gone = loan_id - 1;
            assert(profile_consistent(p, v.loans));
            assert(v.loans[gone].borrower == p.user);
            assert(p.active_loans.contains(loan_id));
            let k = choose|k: int| 0 <= k < p.active_loans.len() && p.active_loans[k] == loan_id;
            lemma_sum_remove(p.active_loans, k, v.loans);
            lemma_sum_nonneg(p.active_loans.remove(k), v.loans);
        }
        self.ledger.set_status(loan_id, LoanStatus::Repaid);
        self.registry.remove_active_loan(idx, loan_id, loan.collateral_amount);
        proof {
            let w = self@;
            let k = choose|k: int|
                0 <= k < p.active_loans.len() && p.active_loans[k] == loan_id && w.profiles
                    == v.profiles.update(
                    idx as int,
                    ProfileView {
                        total_collateral: (p.total_collateral - loan.collateral_amount) as u64,
                        active_loans: p.active_loans.remove(k),
                        ..p
                    },
                );
            lemma_repay_keeps_consistent(v, w, caller@, loan_id, idx as int, k);
            let c = p.active_loans.index_of(loan_id);
            assert(p.active_loans[c] == loan_id);
            assert(c == k);
            assert forall|i: int| 0 <= i < v.profiles.len() implies #[trigger] w.profiles[i]
                == if v.profiles[i].user == caller@ {
                without_loan(v.profiles[i], loan_id, loan.collateral_amount)
            } else {
                v.profiles[i]
            } by {
                if i != idx {
                    assert(v.profiles[i].user != v.profiles[idx as int].user);
                }
            }
            assert(w.profiles =~= after_repay(v, caller@, loan_id).profiles);
        }
        Ok(total_due)
    }

    /// Creates `caller`'s profile at time `now`, unless one exists.
    pub fn create_user_profile(&mut self, caller: Identity, now: u64) -> (r: Result<UserProfile, LoanError>)
        requires
            old(self).wf(),
        ensures
            final(self).wf(),
            has_profile(old(self)@.profiles, caller@) ==> (r == Err::<UserProfile, LoanError>(
                LoanError::DuplicateProfile,
            ) && final(self)@ == old(self)@),
            !has_profile(old(self)@.profiles, caller@) ==> (r matches Ok(p)
                && p@ == fresh_profile(caller@, now)
                && final(self)@.market == old(self)@.market
                && final(self)@.loans == old(self)@.loans
                && final(self)@.profiles == old(self)@.profiles.push(fresh_profile(caller@, now))),
    {
        let ghost v = self@;
        let ghost who = caller@;
        let r = self.registry.create(caller, now);
        proof {
            if !has_profile(v.profiles, who) {
                let w = self@;
                let n = v.profiles.len();
                assert forall|i: int| 0 <= i < n implies #[trigger] w.profiles[i] == v.profiles[i] by {}
                assert forall|i: int| 0 <= i < w.loans.len() implies has_profile(
                    w.profiles,
                    #[trigger] w.loans[i].borrower,
                ) by {
                    let b = v.loans[i].borrower;
                    assert(has_profile(v.profiles, b));
                    let q = choose|q: int| 0 <= q < n && #[trigger] v.profiles[q].user == b;
                    assert(w.profiles[q].user == b);
                }
                assert forall|i: int| 0 <= i < w.profiles.len() implies profile_consistent(
                    #[trigger] w.profiles[i],
                    w.loans,
                ) by {
                    if i == n {
                        assert forall|x: int|
                            0 <= x < w.loans.len() && #[trigger] w.loans[x].borrower == who
                                && w.loans[x].status == LoanStatus::Active implies false by {
                            assert(has_profile(v.profiles, v.loans[x].borrower));
                        }
                    } else {
                        assert(profile_consistent(v.profiles[i], v.loans));
                    }
                }
                assert forall|i: int, j: int|
                    0 <= i < w.profiles.len() && 0 <= j < w.profiles.len() && i != j
                        implies #[trigger] w.profiles[i].user != #[trigger] w.profiles[j].user by {
                    if i == n {
                        assert(v.profiles[j].user != who);
                    } else if j == n {
                        assert(v.profiles[i].user != who);
                    }
                }
            }
        }
        r
    }

    /// Every loan `user` has taken, in id order.
    pub fn get_user_loans(&self, user: &Identity) -> (r: Vec<Loan>)
        ensures
            r@.map_values(|l: Loan| l@) == self@.loans.filter(borrowed_by(user@)),
    {
        self.ledger.list_by_borrower(user)
    }

    /// The loan with id `loan_id`.
    pub fn get_loan(&self, loan_id: u64) -> (r: Option<Loan>)
        requires
            self.wf(),
        ensures
            r matches Some(l) ==> 1 <= loan_id <= self@.loans.len() && l@ == self@.loans[loan_id - 1],
            r is None <==> !(1 <= loan_id <= self@.loans.len()),
    {
        self.ledger.get(loan_id)
    }

    /// `user`'s profile.
    pub fn get_user_profile(&self, user: &Identity) -> (r: Option<UserProfile>)
        requires
            self.wf(),
        ensures
            r matches Some(p) ==> p@.user == user@ && self@.profiles.contains(p@),
            r is None <==> !has_profile(self@.profiles, user@),
    {
        self.registry.get(user)
    }

    /// Sets the price, in cents per coin, at time `now`; a zero price is
    /// refused.
    pub fn update_btc_price(&mut self, new_price: u64, now: u64) -> (r: Result<(), LoanError>)
        requires
            old(self).wf(),
        ensures
            final(self).wf(),
            new_price == 0 ==> r == Err::<(), LoanError>(LoanError::InvalidPrice) && final(self)@
                == old(self)@,
            new_price > 0 ==> r is Ok && final(self)@ == (ServiceView {
                market: MarketData { btc_price_cents: new_price, last_updated: now },
                ..old(self)@
            }),
    {
        if new_price == 0 {
            return Err(LoanError::InvalidPrice);
        }
        self.market = MarketData { btc_price_cents: new_price, last_updated: now };
        Ok(())
    }

    /// The current price and when it was set.
    pub fn get_btc_price(&self) -> (r: MarketData)
        ensures
            r == self@.market,
    {
        self.market
    }

    /// The largest loan, in cents, that `collateral_amount` satoshis allow at
    /// the current price.
    pub fn calculate_max_loan(&self, collateral_amount: u64) -> (r: u64)
        ensures
            r == max_loan_of(collateral_amount, self@.market.btc_price_cents),
    {
        let value = collateral_value(collateral_amount, self.market.btc_price_cents);
        max_loan_for_value(value)
    }
}

} // verus!
