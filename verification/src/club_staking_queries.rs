//! Read-only queries of club staking.
use vstd::prelude::*;
use vstd::string::StringExecFns;
use crate::club_staking::{
    ClubBondingDetails, ClubError, ClubOwnershipDetails, ClubPreviousOwnerDetails, ClubStaking, ClubStakingDetails,
    clone_bond, clone_bonds, clone_ownership, clone_previous, clone_stake, clone_stakes,
};
use crate::club_staking_rewards::all_stakes;
use crate::table::lookup;

verus! {

/// The stakes of a list placed by `user`, in order.
pub open spec fn stakes_by(l: Seq<ClubStakingDetails>, user: Seq<char>) -> Seq<ClubStakingDetails> {
    l.filter(|s: ClubStakingDetails| s.staker_address@ == user)
}

/// The bonds of a list held by `user`, in order.
pub open spec fn bonds_by(l: Seq<ClubBondingDetails>, user: Seq<char>) -> Seq<ClubBondingDetails> {
    l.filter(|b: ClubBondingDetails| b.bonder_address@ == user)
}

/// All bonds, club by club in key order.
pub open spec fn all_bonds(t: Seq<(Seq<char>, Seq<ClubBondingDetails>)>) -> Seq<ClubBondingDetails>
    decreases t.len(),
{
    if t.len() == 0 {
        Seq::empty()
    } else {
        all_bonds(t.drop_last()) + t.last().1
    }
}

/// The values of a table, in key order.
pub open spec fn values_of<V>(t: Seq<(Seq<char>, V)>) -> Seq<V> {
    t.map_values(|e: (Seq<char>, V)| e.1)
}

/// The ownerships of clubs held by `owner`, in key order.
pub open spec fn owned_by(s: Seq<ClubOwnershipDetails>, owner: Seq<char>) -> Seq<ClubOwnershipDetails> {
    s.filter(|o: ClubOwnershipDetails| o.owner_address@ == owner)
}

impl ClubStaking {
    /// The stakes on a club.
    pub fn query_club_staking_details(&self, club_name: &String) -> (r: Result<Vec<ClubStakingDetails>, ClubError>)
        requires
            self.wf(),
        ensures
            match lookup(self.stakes@, club_name@) {
                Some(l) => r matches Ok(v) && v@ == l,
                None => r == Err::<Vec<ClubStakingDetails>, ClubError>(ClubError::NoStakingDetails),
            },
    {
        match self.stakes.get(club_name) {
            Some(l) => Ok(clone_stakes(l)),
            None => Err(ClubError::NoStakingDetails),
        }
    }

    /// The bonds on a club.
    pub fn query_club_bonding_details(&self, club_name: &String) -> (r: Result<Vec<ClubBondingDetails>, ClubError>)
        requires
            self.wf(),
        ensures
            match lookup(self.bonds@, club_name@) {
                Some(l) => r matches Ok(v) && v@ == l,
                None => r == Err::<Vec<ClubBondingDetails>, ClubError>(ClubError::NoBondingDetails),
            },
    {
        match self.bonds.get(club_name) {
            Some(l) => Ok(clone_bonds(l)),
            None => Err(ClubError::NoBondingDetails),
        }
    }

    /// All bonds, club by club in key order.
    pub fn query_all_bonds(&self) -> (r: Vec<ClubBondingDetails>)
        ensures
            r@ == all_bonds(self.bonds@),
    {
        let mut r: Vec<ClubBondingDetails> = Vec::new();
        let mut i: usize = 0;
        while i < self.bonds.len()
            invariant
                i <= self.bonds@.len(),
                r@ == all_bonds(self.bonds@.take(i as int)),
            decreases self.bonds@.len() - i,
        {
            let l = self.bonds.val_at(i);
            let ghost r0 = r@;
            let mut j: usize = 0;
            while j < l.len()
                invariant
                    j <= l@.len(),
                    r@ == r0 + l@.take(j as int),
                decreases l@.len() - j,
            {
                r.push(clone_bond(&l[j]));
                assert(r@ =~= r0 + l@.take(j + 1));
                j = j + 1;
            }
            assert(l@.take(l@.len() as int) =~= l@);
            assert(self.bonds@.take(i + 1).drop_last() =~= self.bonds@.take(i as int));
            i = i + 1;
        }
        assert(self.bonds@.take(self.bonds@.len() as int) =~= self.bonds@);
        r
    }

    /// The accumulated reward not yet handed out.
    pub fn query_reward_amount(&self) -> (r: u128)
        ensures
            r == self.reward,
    {
        self.reward
    }

    /// The ownership of a club.
    pub fn query_club_ownership_details(&self, club_name: &String) -> (r: Result<ClubOwnershipDetails, ClubError>)
        requires
            self.wf(),
        ensures
            match lookup(self.ownerships@, club_name@) {
                Some(o) => r == Ok::<ClubOwnershipDetails, ClubError>(o),
                None => r == Err::<ClubOwnershipDetails, ClubError>(ClubError::NoOwnershipDetails),
            },
    {
        match self.ownerships.get(club_name) {
            Some(o) => Ok(clone_ownership(o)),
            None => Err(ClubError::NoOwnershipDetails),
        }
    }

    /// The record of a previous owner.
    pub fn query_club_previous_owner_details(&self, previous_owner: &String) -> (r: Result<ClubPreviousOwnerDetails, ClubError>)
        requires
            self.wf(),
        ensures
            match lookup(self.previous_owners@, previous_owner@) {
                Some(o) => r == Ok::<ClubPreviousOwnerDetails, ClubError>(o),
                None => r == Err::<ClubPreviousOwnerDetails, ClubError>(ClubError::NoPreviousOwnershipDetails),
            },
    {
        match self.previous_owners.get(previous_owner) {
            Some(o) => Ok(clone_previous(o)),
            None => Err(ClubError::NoPreviousOwnershipDetails),
        }
    }

    /// The stakes placed by a user, club by club in key order.
    pub fn query_all_stakes_for_user(&self, user_address: &String) -> (r: Vec<ClubStakingDetails>)
        ensures
            r@ == stakes_by(all_stakes(self.stakes@), user_address@),
    {
        let all = self.query_all_stakes();
        let mut r: Vec<ClubStakingDetails> = Vec::new();
        let mut i: usize = 0;
        while i < all.len()
            invariant
                i <= all@.len(),
                r@ == stakes_by(all@.take(i as int), user_address@),
            decreases all@.len() - i,
        {
            proof {
                reveal_with_fuel(Seq::filter, 1);
                assert(all@.take(i + 1).drop_last() =~= all@.take(i as int));
            }
            if all[i].staker_address.eq(user_address) {
                r.push(clone_stake(&all[i]));
            }
            i = i + 1;
        }
        assert(all@.take(all@.len() as int) =~= all@);
        r
    }

    /// The bonds of a user on a club.
    pub fn query_club_bonding_details_for_user(&self, club_name: &String, user_address: &String) -> (r: Result<
        Vec<ClubBondingDetails>,
        ClubError,
    >)
        requires
            self.wf(),
        ensures
            match lookup(self.bonds@, club_name@) {
                Some(l) => r matches Ok(v) && v@ == bonds_by(l, user_address@),
                None => r == Err::<Vec<ClubBondingDetails>, ClubError>(ClubError::NoBondingDetails),
            },
    {
        let l = match self.bonds.get(club_name) {
            Some(l) => l,
            None => {
                return Err(ClubError::NoBondingDetails);
            },
        };
        let mut r: Vec<ClubBondingDetails> = Vec::new();
        let mut i: usize = 0;
        while i < l.len()
            invariant
                i <= l@.len(),
                r@ == bonds_by(l@.take(i as int), user_address@),
            decreases l@.len() - i,
        {
            proof {
                reveal_with_fuel(Seq::filter, 1);
                assert(l@.take(i + 1).drop_last() =~= l@.take(i as int));
            }
            if l[i].bonder_address.eq(user_address) {
                r.push(clone_bond(&l[i]));
            }
            i = i + 1;
        }
        assert(l@.take(l@.len() as int) =~= l@);
        Ok(r)
    }

    /// The ownerships of all clubs, in key order.
    pub fn query_all_club_ownership_details(&self) -> (r: Vec<ClubOwnershipDetails>)
        ensures
            r@ == values_of(self.ownerships@),
    {
        let mut r: Vec<ClubOwnershipDetails> = Vec::new();
        let mut i: usize = 0;
        while i < self.ownerships.len()
            invariant
                i <= self.ownerships@.len(),
                r@ == values_of(self.ownerships@).take(i as int),
            decreases self.ownerships@.len() - i,
        {
            r.push(clone_ownership(self.ownerships.val_at(i)));
            assert(r@ =~= values_of(self.ownerships@).take(i + 1));
            i = i + 1;
        }
        assert(values_of(self.ownerships@).take(self.ownerships@.len() as int) =~= values_of(self.ownerships@));
        r
    }

    /// The records of all previous owners, in key order.
    pub fn query_all_previous_club_ownership_details(&self) -> (r: Vec<ClubPreviousOwnerDetails>)
        ensures
            r@ == values_of(self.previous_owners@),
    {
        let mut r: Vec<ClubPreviousOwnerDetails> = Vec::new();
        let mut i: usize = 0;
        while i < self.previous_owners.len()
            invariant
                i <= self.previous_owners@.len(),
                r@ == values_of(self.previous_owners@).take(i as int),
            decreases self.previous_owners@.len() - i,
        {
            r.push(clone_previous(self.previous_owners.val_at(i)));
            assert(r@ =~= values_of(self.previous_owners@).take(i + 1));
            i = i + 1;
        }
        assert(values_of(self.previous_owners@).take(self.previous_owners@.len() as int) =~= values_of(
            self.previous_owners@,
        ));
        r
    }

    /// The ownerships of the clubs an owner holds, in key order.
    pub fn query_club_ownership_details_for_owner(&self, owner_address: &String) -> (r: Vec<ClubOwnershipDetails>)
        ensures
            r@ == owned_by(values_of(self.ownerships@), owner_address@),
    {
        let all = self.query_all_club_ownership_details();
        let mut r: Vec<ClubOwnershipDetails> = Vec::new();
        let mut i: usize = 0;
        while i < all.len()
            invariant
                i <= all@.len(),
                r@ == owned_by(all@.take(i as int), owner_address@),
            decreases all@.len() - i,
        {
            proof {
                reveal_with_fuel(Seq::filter, 1);
                assert(all@.take(i + 1).drop_last() =~= all@.take(i as int));
            }
            if all[i].owner_address.eq(owner_address) {
                r.push(clone_ownership(&all[i]));
            }
            i = i + 1;
        }
        assert(all@.take(all@.len() as int) =~= all@);
        r
    }
}

} // verus!
