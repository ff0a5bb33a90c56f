//! Moving a member along the rank ladder.
use std::collections::HashSet;
use vstd::prelude::*;

use crate::config::{
    higher_rank, lemma_rank_named_index, loose_rank, lower_rank, ranks_held, Config, Rank, RoleId,
};
use crate::roles::{ranks_of, id_set};

verus! {

broadcast use vstd::std_specs::hash::group_hash_axioms;

/// Which way a rank change goes.
pub enum Scheme {
    /// One step down the ladder.
    Lower,
    /// One step up the ladder.
    Higher,
    /// To the rank with this name, ignoring case.
    Named(String),
}

/// Why a rank change was declined.
#[derive(Debug, Clone, Copy, PartialEq, Eq, Structural)]
pub enum RankError {
    /// The member holds no rank of the ladder.
    NoCurrentRank,
    /// There is no rank above, no rank below, or no rank of that name.
    NoSuchTransition,
    /// The member already holds the requested rank.
    Unchanged,
}

/// The rank that `scheme` leads to from `old`.
pub open spec fn next_rank(ranks: Seq<Rank>, old: Rank, scheme: Scheme) -> Option<Rank> {
    match scheme {
        Scheme::Lower => lower_rank(ranks, old.name@),
        Scheme::Higher => higher_rank(ranks, old.name@),
        Scheme::Named(name) => loose_rank(ranks, name@),
    }
}

/// The outcome of a rank change: the first rank held is swapped for the one
/// `scheme` leads to.
pub open spec fn rank_change(c: Config, roles: Seq<RoleId>, scheme: Scheme) -> Result<
    Set<RoleId>,
    RankError,
> {
    let held = ranks_held(c.ranks@, roles);
    if held.len() == 0 {
        Err(RankError::NoCurrentRank)
    } else {
        match next_rank(c.ranks@, held[0], scheme) {
            None => Err(RankError::NoSuchTransition),
            Some(k) => if k.role == held[0].role {
                Err(RankError::Unchanged)
            } else {
                Ok(roles.to_set().insert(k.role).remove(held[0].role))
            },
        }
    }
}

/// A member whose first rank is the top of the ladder cannot be promoted:
/// every promotion is declined with no such transition, and so leaves their
/// roles as they are, however often it is asked for.
pub proof fn lemma_promote_at_top(c: Config, roles: Seq<RoleId>)
    requires
        c.wf(),
        ranks_held(c.ranks@, roles).len() > 0,
        ranks_held(c.ranks@, roles)[0] == c.ranks@.last(),
    ensures
        rank_change(c, roles, Scheme::Higher) == Err::<Set<RoleId>, RankError>(
            RankError::NoSuchTransition,
        ),
{
    let pred = |x: Rank| roles.contains(x.role);
    let held = ranks_held(c.ranks@, roles);
    assert(held.contains(held[0]));
    c.ranks@.lemma_filter_contains_rev(pred, held[0]);
    lemma_rank_named_index(c.ranks@, c.ranks@.len() - 1);
}

/// The member's roles after a rank change, applied as one replacement.
pub fn change_rank(config: &Config, roles: &Vec<RoleId>, scheme: &Scheme) -> (r: Result<
    HashSet<RoleId>,
    RankError,
>)
    ensures
        match r {
            Ok(set) => rank_change(*config, roles@, *scheme) == Ok::<Set<RoleId>, RankError>(set@),
            Err(e) => rank_change(*config, roles@, *scheme) == Err::<Set<RoleId>, RankError>(e),
        },
{
    let ranks = config.get_member_ranks(roles);
    assert(ranks_of(ranks@) == ranks_held(config.ranks@, roles@));
    if ranks.len() == 0 {
        return Err(RankError::NoCurrentRank);
    }
    let old_rank = ranks[0];
    let found = match scheme {
        Scheme::Lower => config.get_lower_rank(old_rank.name.as_str()),
        Scheme::Higher => config.get_higher_rank(old_rank.name.as_str()),
        Scheme::Named(name) => config.get_rank_by_name_loose(name.as_str()),
    };
    let new_rank = match found {
        Some(k) => k,
        None => {
            return Err(RankError::NoSuchTransition);
        },
    };
    if old_rank.role == new_rank.role {
        return Err(RankError::Unchanged);
    }
    let mut set = id_set(roles);
    set.insert(new_rank.role);
    set.remove(&old_rank.role);
    Ok(set)
}

} // verus!
