use vstd::prelude::*;
use crate::identity::Identity;
use crate::model::{LoanError, ProfileView, UserProfile};

verus! {

/// The credit score every new profile starts with.
pub const DEFAULT_CREDIT_SCORE: u32 = 750;

/// The profiles, at most one per identity.
pub struct UserRegistry {
    users: Vec<UserProfile>,
}

/// Whether some profile in `profiles` belongs to `who`.
pub open spec fn has_profile(profiles: Seq<ProfileView>, who: Seq<u8>) -> bool {
    exists|i: int| 0 <= i < profiles.len() && #[trigger] profiles[i].user == who
}

/// A fresh profile for `who`, created at `now`.
pub open spec fn fresh_profile(who: Seq<u8>, now: u64) -> ProfileView {
    ProfileView {
        user: who,
        total_collateral: 0,
        active_loans: Seq::empty(),
        credit_score: DEFAULT_CREDIT_SCORE,
        created_at: now,
    }
}

impl View for UserRegistry {
    type V = Seq<ProfileView>;

    closed spec fn view(&self) -> Seq<ProfileView> {
        self.users@.map_values(|p: UserProfile| p@)
    }
}

impl UserRegistry {
    /// No identity has two profiles.
    pub open spec fn wf(&self) -> bool {
        forall|i: int, j: int|
            0 <= i < self@.len() && 0 <= j < self@.len() && i != j ==> #[trigger] self@[i].user
                != #[trigger] self@[j].user
    }

    pub fn new() -> (r: UserRegistry)
        ensures
            r.wf(),
            r@ == Seq::<ProfileView>::empty(),
    {
        let r = UserRegistry { users: Vec::new() };
        assert(r@ =~= Seq::<ProfileView>::empty());
        r
    }

    /// The position of `who`'s profile.
    pub fn find(&self, who: &Identity) -> (r: Option<usize>)
        ensures
            r matches Some(i) ==> i < self@.len() && self@[i as int].user == who@,
            r is None <==> !has_profile(self@, who@),
    {
        let mut i: usize = 0;
        while i < self.users.len()
            invariant
                i <= self.users@.len(),
                self@.len() == self.users@.len(),
                forall|k: int| 0 <= k < i ==> #[trigger] self@[k].user != who@,
            decreases self.users@.len() - i,
        {
            assert(self@[i as int] == self.users@[i as int]@);
            if self.users[i].user_principal.same_as(who) {
                assert(self@[i as int].user == who@);
                return Some(i);
            }
            i = i + 1;
        }
        None
    }

    /// Creates `who`'s profile, unless one exists.
    pub fn create(&mut self, who: Identity, now: u64) -> (r: Result<UserProfile, LoanError>)
        requires
            old(self).wf(),
        ensures
            final(self).wf(),
            has_profile(old(self)@, who@) ==> r == Err::<UserProfile, LoanError>(
                LoanError::DuplicateProfile,
            ) && final(self)@ == old(self)@,
            !has_profile(old(self)@, who@) ==> (r matches Ok(p) && p@ == fresh_profile(who@, now)
                && final(self)@ == old(self)@.push(fresh_profile(who@, now))),
    {
        if self.find(&who).is_some() {
            return Err(LoanError::DuplicateProfile);
        }
        let profile = UserProfile {
            user_principal: who,
            total_collateral: 0,
            active_loans: Vec::new(),
            credit_score: DEFAULT_CREDIT_SCORE,
            created_at: now,
        };
        assert(profile@.active_loans =~= Seq::<u64>::empty());
        let copy = profile.duplicate();
        self.users.push(profile);
        assert(self@ =~= old(self)@.push(fresh_profile(copy@.user, now)));
        Ok(copy)
    }

    /// `who`'s profile.
    pub fn get(&self, who: &Identity) -> (r: Option<UserProfile>)
        requires
            self.wf(),
        ensures
            r matches Some(p) ==> p@.user == who@ && self@.contains(p@),
            r is None <==> !has_profile(self@, who@),
    {
        match self.find(who) {
            Some(i) => {
                assert(self@[i as int] == self.users@[i as int]@);
                let p = self.users[i].duplicate();
                assert(self@[i as int] == p@);
                Some(p)
            },
            None => None,
        }
    }

    /// The locked collateral of the profile at `idx`.
    pub fn total_collateral_at(&self, idx: usize) -> (r: u64)
        requires
            idx < self@.len(),
        ensures
            r == self@[idx as int].total_collateral,
    {
        assert(self@[idx as int] == self.users@[idx as int]@);
        self.users[idx].total_collateral
    }

    /// Records a new active loan in the profile at `idx`.
    pub fn add_active_loan(&mut self, idx: usize, id: u64, collateral: u64)
        requires
            old(self).wf(),
            idx < old(self)@.len(),
            old(self)@[idx as int].total_collateral + collateral <= u64::MAX,
        ensures
            final(self).wf(),
            final(self)@ == old(self)@.update(
                idx as int,
                ProfileView {
                    total_collateral: (old(self)@[idx as int].total_collateral + collateral) as u64,
                    active_loans: old(self)@[idx as int].active_loans.push(id),
                    ..old(self)@[idx as int]
                },
            ),
    {
        assert(self@[idx as int] == self.users@[idx as int]@);
        self.users[idx].active_loans.push(id);
        self.users[idx].total_collateral = self.users[idx].total_collateral + collateral;
        assert(self@ =~= old(self)@.update(
            idx as int,
            ProfileView {
                total_collateral: (old(self)@[idx as int].total_collateral + collateral) as u64,
                active_loans: old(self)@[idx as int].active_loans.push(id),
                ..old(self)@[idx as int]
            },
        ));
    }

    /// Removes a loan from the active ones of the profile at `idx`.
    pub fn remove_active_loan(&mut self, idx: usize, id: u64, collateral: u64)
        requires
            old(self).wf(),
            idx < old(self)@.len(),
            old(self)@[idx as int].active_loans.contains(id),
            old(self)@[idx as int].total_collateral >= collateral,
        ensures
            final(self).wf(),
            exists|k: int|
                0 <= k < old(self)@[idx as int].active_loans.len()
                    && old(self)@[idx as int].active_loans[k] == id
                    && final(self)@ == old(self)@.update(
                    idx as int,
                    ProfileView {
                        total_collateral: (old(self)@[idx as int].total_collateral
                            - collateral) as u64,
                        active_loans: old(self)@[idx as int].active_loans.remove(k),
                        ..old(self)@[idx as int]
                    },
                ),
    {
        assert(self@[idx as int] == self.users@[idx as int]@);
        let ghost ids = self.users@[idx as int].active_loans@;
        let n = self.users[idx].active_loans.len();
        let mut k: usize = 0;
        while self.users[idx].active_loans[k] != id
            invariant
                n == ids.len(),
                self.users@ == old(self).users@,
                idx < self.users@.len(),
                ids == self.users@[idx as int].active_loans@,
                ids.contains(id),
                k < ids.len(),
                forall|j: int| 0 <= j < k ==> ids[j] != id,
            decreases ids.len() - k,
        {
            k = k + 1;
            assert(k < ids.len()) by {
                if k >= ids.len() {
                    let w = choose|w: int| 0 <= w < ids.len() && ids[w] == id;
                    assert(ids[w] != id);
                }
            }
        }
        self.users[idx].active_loans.remove(k);
        self.users[idx].total_collateral = self.users[idx].total_collateral - collateral;
        assert(self@ =~= old(self)@.update(
            idx as int,
            ProfileView {
                total_collateral: (old(self)@[idx as int].total_collateral - collateral) as u64,
                active_loans: old(self)@[idx as int].active_loans.remove(k as int),
                ..old(self)@[idx as int]
            },
        ));
    }
}

} // verus!
