use vstd::prelude::*;
use crate::identity::Identity;
use crate::model::{Loan, LoanStatus, LoanView};

verus! {

/// The loan records, stored so that the loan with id `k` sits at index
/// `k - 1`: ids start at 1, rise by one and are never reused.
pub struct LoanLedger {
    loans: Vec<Loan>,
}

/// `loans` with the status of the loan at index `i` set to `status`.
pub open spec fn with_status(loans: Seq<LoanView>, i: int, status: LoanStatus) -> Seq<LoanView> {
    loans.update(i, LoanView { status, ..loans[i] })
}

/// Picks the loans whose borrower is `who`.
pub open spec fn borrowed_by(who: Seq<u8>) -> spec_fn(LoanView) -> bool {
    |l: LoanView| l.borrower == who
}

impl View for LoanLedger {
    type V = Seq<LoanView>;

    closed spec fn view(&self) -> Seq<LoanView> {
        self.loans@.map_values(|l: Loan| l@)
    }
}

impl LoanLedger {
    /// Ids match positions.
    pub open spec fn wf(&self) -> bool {
        forall|i: int| 0 <= i < self@.len() ==> #[trigger] self@[i].id == i + 1
    }

    /// Whether `id` names a stored loan.
    pub open spec fn holds(&self, id: u64) -> bool {
        1 <= id <= self@.len()
    }

    pub fn new() -> (r: LoanLedger)
        ensures
            r.wf(),
            r@ == Seq::<LoanView>::empty(),
    {
        let r = LoanLedger { loans: Vec::new() };
        assert(r@ =~= Seq::<LoanView>::empty());
        r
    }

    /// The id the next inserted loan takes, unless ids are exhausted.
    pub fn next_id(&self) -> (r: Option<u64>)
        ensures
            r matches Some(id) ==> id == self@.len() + 1,
            r is None <==> self@.len() >= u64::MAX,
    {
        let n = self.loans.len();
        proof {
            assert(self@.len() == self.loans@.len());
        }
        if n as u64 == u64::MAX {
            None
        } else {
            Some(n as u64 + 1)
        }
    }

    /// Stores a loan under the next id.
    pub fn insert(&mut self, loan: Loan)
        requires
            old(self).wf(),
            loan.id == old(self)@.len() + 1,
        ensures
            final(self).wf(),
            final(self)@ == old(self)@.push(loan@),
    {
        self.loans.push(loan);
        assert(self@ =~= old(self)@.push(loan@));
    }

    /// The loan with this id.
    pub fn get(&self, id: u64) -> (r: Option<Loan>)
        requires
            self.wf(),
        ensures
            r matches Some(l) ==> self.holds(id) && l@ == self@[id - 1],
            r is None <==> !self.holds(id),
    {
        if id == 0 || id as u128 > self.loans.len() as u128 {
            None
        } else {
            Some(self.loans[(id - 1) as usize].duplicate())
        }
    }

    /// The borrower of a stored loan is `who`, and the loan is active.
    pub fn is_active_loan_of(&self, id: u64, who: &Identity) -> (r: bool)
        requires
            self.wf(),
            self.holds(id),
        ensures
            r == (self@[id - 1].borrower == who@ && self@[id - 1].status == LoanStatus::Active),
    {
        assert(self.loans@.len() == self@.len());
        let n = self.loans.len();
        assert(id - 1 < n);
        let i = (id - 1) as usize;
        let l = &self.loans[i];
        assert(l@ == self@[id - 1]);
        l.status == LoanStatus::Active && l.borrower.same_as(who)
    }

    /// Every loan of `who`, in id order.
    pub fn list_by_borrower(&self, who: &Identity) -> (r: Vec<Loan>)
        ensures
            r@.map_values(|l: Loan| l@) == self@.filter(borrowed_by(who@)),
    {
        let ghost pred = borrowed_by(who@);
        let mut out: Vec<Loan> = Vec::new();
        let mut i: usize = 0;
        while i < self.loans.len()
            invariant
                i <= self@.len(),
                self@.len() == self.loans@.len(),
                pred == borrowed_by(who@),
                out@.map_values(|l: Loan| l@) == self@.subrange(0, i as int).filter(pred),
            decreases self.loans@.len() - i,
        {
            let l = &self.loans[i];
            let ghost before = out@.map_values(|l: Loan| l@);
            let ghost s1 = self@.subrange(0, i + 1);
            assert(self@[i as int] == l@);
            assert(s1 =~= self@.subrange(0, i as int).push(l@));
            proof { self@.subrange(0, i as int).lemma_filter_push(l@, pred); }
            assert(s1.filter(pred) == if pred(l@) {
                self@.subrange(0, i as int).filter(pred).push(l@)
            } else {
                self@.subrange(0, i as int).filter(pred)
            });
            if l.borrower.same_as(who) {
                out.push(l.duplicate());
                assert(out@.map_values(|l: Loan| l@) =~= before.push(l@));
            }
            i = i + 1;
        }
        assert(self@.subrange(0, i as int) =~= self@);
        out
    }

    /// Sets the status of a stored loan.
    pub fn set_status(&mut self, id: u64, status: LoanStatus)
        requires
            old(self).wf(),
            old(self).holds(id),
        ensures
            final(self).wf(),
            final(self)@ == with_status(old(self)@, id - 1, status),
    {
        assert(self.loans@.len() == self@.len());
        let n = self.loans.len();
        assert(id - 1 < n);
        let i = (id - 1) as usize;
        self.loans[i].status = status;
        assert(self.loans@ == old(self).loans@.update(i as int, Loan { status, ..old(self).loans@[i as int] }));
        assert(self@ =~= with_status(old(self)@, id - 1, status));
    }
}

} // verus!
