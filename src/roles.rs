//! Role sets: building them from a member's roles and taking roles out.
use std::collections::HashSet;
use vstd::prelude::*;

use crate::config::{Position, Rank, RoleId};

verus! {

broadcast use vstd::std_specs::hash::group_hash_axioms;

/// The roles of the first `hi` positions of `held`, except `keep`.
pub open spec fn position_roles_except(held: Seq<Position>, keep: RoleId, hi: int) -> Set<RoleId> {
    Set::new(|x: RoleId| exists|k: int| 0 <= k < hi && k < held.len() && held[k].role == x && x != keep)
}

/// The roles of the ranks of `held` from index `lo` up to `hi`.
pub open spec fn rank_roles_between(held: Seq<Rank>, lo: int, hi: int) -> Set<RoleId> {
    Set::new(|x: RoleId| exists|k: int| lo <= k < hi && k < held.len() && held[k].role == x)
}

/// The positions behind a list of references.
pub open spec fn positions_of(v: Seq<&Position>) -> Seq<Position> {
    v.map_values(|p: &Position| *p)
}

/// The ranks behind a list of references.
pub open spec fn ranks_of(v: Seq<&Rank>) -> Seq<Rank> {
    v.map_values(|k: &Rank| *k)
}

/// A list of ids as a set.
pub fn id_set(roles: &Vec<RoleId>) -> (r: HashSet<RoleId>)
    ensures
        r@ == roles@.to_set(),
{
    let mut r: HashSet<RoleId> = HashSet::new();
    let mut i: usize = 0;
    while i < roles.len()
        invariant
            i <= roles@.len(),
            forall|x: RoleId| r@.contains(x) <==> exists|j: int| 0 <= j < i && roles@[j] == x,
        decreases roles@.len() - i,
    {
        r.insert(roles[i]);
        assert forall|x: RoleId| r@.contains(x) <==> exists|j: int| 0 <= j < i + 1 && roles@[j] == x by {
            if x == roles@[i as int] {
                assert(exists|j: int| 0 <= j < i + 1 && roles@[j] == x);
            }
        }
        i = i + 1;
    }
    assert(r@ =~= roles@.to_set());
    r
}

/// `set` without the roles of the positions in `held`, but `keep`.
pub fn drop_positions(set: HashSet<RoleId>, held: &Vec<&Position>, keep: RoleId) -> (r: HashSet<
    RoleId,
>)
    ensures
        r@ == set@.difference(
            position_roles_except(positions_of(held@), keep, held@.len() as int),
        ),
{
    let ghost start = set@;
    let ghost ps = positions_of(held@);
    let mut set = set;
    let mut i: usize = 0;
    while i < held.len()
        invariant
            i <= held@.len(),
            ps == positions_of(held@),
            ps.len() == held@.len(),
            set@ == start.difference(position_roles_except(ps, keep, i as int)),
        decreases held@.len() - i,
    {
        let role = held[i].role;
        assert(role == ps[i as int].role);
        if role != keep {
            set.remove(&role);
            assert(position_roles_except(ps, keep, i + 1) =~= position_roles_except(ps, keep, i as int).insert(role));
        } else {
            assert(position_roles_except(ps, keep, i + 1) =~= position_roles_except(ps, keep, i as int));
        }
        assert(set@ =~= start.difference(position_roles_except(ps, keep, i + 1)));
        i = i + 1;
    }
    set
}

/// `set` without the roles of the ranks of `held` from index `lo` on.
pub fn drop_ranks(set: HashSet<RoleId>, held: &Vec<&Rank>, lo: usize) -> (r: HashSet<RoleId>)
    ensures
        r@ == set@.difference(rank_roles_between(ranks_of(held@), lo as int, held@.len() as int)),
{
    let ghost start = set@;
    let ghost ks = ranks_of(held@);
    let mut set = set;
    if lo >= held.len() {
        assert(rank_roles_between(ks, lo as int, held@.len() as int) =~= Set::empty());
        assert(set@ =~= start.difference(Set::empty()));
        return set;
    }
    assert(rank_roles_between(ks, lo as int, lo as int) =~= Set::empty());
    assert(set@ =~= start.difference(Set::empty()));
    let mut i: usize = lo;
    while i < held.len()
        invariant
            lo <= i <= held@.len(),
            ks == ranks_of(held@),
            ks.len() == held@.len(),
            set@ == start.difference(rank_roles_between(ks, lo as int, i as int)),
        decreases held@.len() - i,
    {
        let role = held[i].role;
        assert(role == ks[i as int].role);
        set.remove(&role);
        assert(rank_roles_between(ks, lo as int, i + 1) =~= rank_roles_between(ks, lo as int, i as int).insert(role));
        assert(set@ =~= start.difference(rank_roles_between(ks, lo as int, i + 1)));
        i = i + 1;
    }
    set
}

} // verus!
