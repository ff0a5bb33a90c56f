//! The role-menu engine: what a reaction on the role menu should do to a member.
use std::collections::HashSet;
use vstd::prelude::*;

use crate::config::{
    first_menu_entry, first_menu_entry_named, first_position_named, first_rank_named,
    lemma_first_rank_named_unique,
    has_position_named, menu_has_emoji, menu_has_name, positions_held, ranks_held, Config,
    EmojiData, Position, Rank, RoleId, RoleMenuPosition, UserId,
};
use crate::text::{fill_mention, joined, mention_user, replaced, texts, user_mention_of};
use crate::roles::{
    drop_positions, drop_ranks, position_roles_except, positions_of, rank_roles_between,
    ranks_of, id_set,
};

verus! {

broadcast use vstd::std_specs::hash::group_hash_axioms;

/// What the caller should do about one reaction on the role menu.
pub enum GrantPlan {
    /// The member holds a position the menu does not offer: take back this
    /// reaction and change nothing else.
    Refuse,
    /// Give the member the position the emoji stands for.
    Grant(Grant),
}

pub struct Grant {
    /// The member's roles afterwards, applied as one replacement.
    pub roles: HashSet<RoleId>,
    /// The member already held this position; nothing else is owed.
    pub repeat: bool,
    /// Emoji of the member's other menu positions, whose reactions are stale.
    pub stale_reactions: Vec<EmojiData>,
    /// The position is one whose grant earns a greeting, if the member has not
    /// been greeted yet.
    pub greetable: bool,
}

/// The first menu entry for `emoji`.
pub open spec fn menu_index(c: Config, emoji: Seq<char>) -> int {
    choose|i: int| first_menu_entry(c.role_menu_positions@, emoji, i)
}

/// The position that reacting with `emoji` grants.
pub open spec fn target_position(c: Config, emoji: Seq<char>) -> Position {
    let name = c.role_menu_positions@[menu_index(c, emoji)].name@;
    c.positions@[choose|j: int| first_position_named(c.positions@, name, j)]
}

/// The role of the default rank.
pub open spec fn default_rank_role(c: Config) -> RoleId {
    c.ranks@[choose|i: int| first_rank_named(c.ranks@, c.default_rank@, i)].role
}

/// The member holds no position, or their first position is offered by the menu.
pub open spec fn governed(c: Config, roles: Seq<RoleId>) -> bool {
    let cur = positions_held(c.positions@, roles);
    cur.len() == 0 || menu_has_name(c.role_menu_positions@, cur[0].name@)
}

/// The member's first position is already `t`.
pub open spec fn is_repeat(c: Config, roles: Seq<RoleId>, t: Position) -> bool {
    let cur = positions_held(c.positions@, roles);
    cur.len() > 0 && cur[0].role == t.role
}

/// The roles after `t` is granted, before ranks are looked at: `t` added and
/// every other position held taken away.
pub open spec fn with_position(c: Config, roles: Seq<RoleId>, t: Position) -> Set<RoleId> {
    let cur = positions_held(c.positions@, roles);
    roles.to_set().insert(t.role).difference(position_roles_except(cur, t.role, cur.len() as int))
}

/// The roles after `t` is granted: a ranked position keeps the first rank held,
/// or gets the default rank when none is held; other positions keep no rank.
pub open spec fn granted_roles(c: Config, roles: Seq<RoleId>, t: Position) -> Set<RoleId> {
    let held = ranks_held(c.ranks@, roles);
    let s = with_position(c, roles, t);
    if t.ranked && held.len() == 0 {
        s.insert(default_rank_role(c))
    } else if t.ranked && held.len() > 1 {
        s.difference(rank_roles_between(held, 1, held.len() as int))
    } else if !t.ranked && held.len() > 0 {
        s.difference(rank_roles_between(held, 0, held.len() as int))
    } else {
        s
    }
}

/// The emoji of the first menu entry for the position called `name`.
pub open spec fn menu_emoji_for(menu: Seq<RoleMenuPosition>, name: Seq<char>) -> Seq<char> {
    menu[choose|i: int| first_menu_entry_named(menu, name, i)].emoji@
}

/// The emoji of the positions in `cur` other than `keep` that the menu offers, in order.
pub open spec fn stale_emoji(menu: Seq<RoleMenuPosition>, cur: Seq<Position>, keep: RoleId) -> Seq<
    Seq<char>,
>
    decreases cur.len(),
{
    if cur.len() == 0 {
        Seq::empty()
    } else {
        let rest = stale_emoji(menu, cur.drop_last(), keep);
        let p = cur.last();
        if p.role != keep && menu_has_name(menu, p.name@) {
            rest.push(menu_emoji_for(menu, p.name@))
        } else {
            rest
        }
    }
}

/// The greeting rule covers the position called `name`.
pub open spec fn is_greetable(c: Config, name: Seq<char>) -> bool {
    exists|i: int| 0 <= i < c.greetable_positions@.len() && c.greetable_positions@[i]@ == name
}

/// The texts of a list of emoji.
pub open spec fn emoji_texts(v: Seq<EmojiData>) -> Seq<Seq<char>> {
    v.map_values(|e: EmojiData| e@)
}

proof fn lemma_first_menu_entry_unique(menu: Seq<RoleMenuPosition>, emoji: Seq<char>, i: int, j: int)
    requires
        first_menu_entry(menu, emoji, i),
        first_menu_entry(menu, emoji, j),
    ensures
        i == j,
{
    if i < j {
        assert(menu[i].emoji@ != emoji);
    } else if j < i {
        assert(menu[j].emoji@ != emoji);
    }
}

proof fn lemma_first_menu_entry_named_unique(menu: Seq<RoleMenuPosition>, name: Seq<char>, i: int, j: int)
    requires
        first_menu_entry_named(menu, name, i),
        first_menu_entry_named(menu, name, j),
    ensures
        i == j,
{
    if i < j {
        assert(menu[i].name@ != name);
    } else if j < i {
        assert(menu[j].name@ != name);
    }
}

proof fn lemma_first_position_named_unique(ps: Seq<Position>, name: Seq<char>, i: int, j: int)
    requires
        first_position_named(ps, name, i),
        first_position_named(ps, name, j),
    ensures
        i == j,
{
    if i < j {
        assert(ps[i].name@ != name);
    } else if j < i {
        assert(ps[j].name@ != name);
    }
}

/// Whether the greeting rule covers the position called `name`.
fn greetable_name(config: &Config, name: &String) -> (r: bool)
    ensures
        r == is_greetable(*config, name@),
{
    let mut i: usize = 0;
    while i < config.greetable_positions.len()
        invariant
            i <= config.greetable_positions@.len(),
            forall|j: int| 0 <= j < i ==> config.greetable_positions@[j]@ != name@,
        decreases config.greetable_positions@.len() - i,
    {
        if config.greetable_positions[i] == *name {
            assert(config.greetable_positions@[i as int]@ == name@);
            return true;
        }
        i = i + 1;
    }
    false
}

/// Decides what a reaction with `emoji` on the role menu does to a member
/// holding `roles`. The caller has checked that the reaction is on the menu
/// message, that the menu governs the emoji and that the member is no bot.
pub fn maybe_grant_position(config: &Config, roles: &Vec<RoleId>, emoji: &EmojiData) -> (r:
    GrantPlan)
    requires
        config.wf(),
        menu_has_emoji(config.role_menu_positions@, emoji@),
    ensures
        !governed(*config, roles@) ==> r is Refuse,
        governed(*config, roles@) ==> r is Grant,
        match r {
            GrantPlan::Refuse => true,
            GrantPlan::Grant(g) => {
                let t = target_position(*config, emoji@);
                let cur = positions_held(config.positions@, roles@);
                &&& g.roles@ == granted_roles(*config, roles@, t)
                &&& g.repeat == is_repeat(*config, roles@, t)
                &&& g.repeat ==> g.stale_reactions@.len() == 0 && !g.greetable
                &&& !g.repeat ==> emoji_texts(g.stale_reactions@) == stale_emoji(
                    config.role_menu_positions@,
                    cur,
                    t.role,
                )
                &&& !g.repeat ==> g.greetable == is_greetable(*config, t.name@)
            },
        },
{
    let positions = config.get_member_positions(roles);
    let ghost cur = positions_held(config.positions@, roles@);
    assert(positions_of(positions@) == cur);
    let current = if positions.len() > 0 {
        Some(positions[0])
    } else {
        None
    };
    if !config.should_grant_position(current) {
        return GrantPlan::Refuse;
    }
    let entry = match config.get_role_menu_position(emoji) {
        Some(e) => e,
        None => {
            return GrantPlan::Refuse;
        },
    };
    let ghost mi = menu_index(*config, emoji@);
    proof {
        let i = choose|i: int| first_menu_entry(config.role_menu_positions@, emoji@, i) && *entry
            == config.role_menu_positions@[i];
        lemma_first_menu_entry_unique(config.role_menu_positions@, emoji@, i, mi);
        assert(has_position_named(config.positions@, config.role_menu_positions@[i].name@));
    }
    let target = match config.get_position_by_name(entry.name.as_str()) {
        Some(p) => p,
        None => {
            return GrantPlan::Refuse;
        },
    };
    proof {
        let name = config.role_menu_positions@[mi].name@;
        let j = choose|j: int| first_position_named(config.positions@, name, j) && *target
            == config.positions@[j];
        let j2 = choose|j: int| first_position_named(config.positions@, name, j);
        lemma_first_position_named_unique(config.positions@, name, j, j2);
    }
    let ghost t = target_position(*config, emoji@);
    assert(*target == t);

    let mut set = id_set(roles);
    set.insert(target.role);
    let set = drop_positions(set, &positions, target.role);
    assert(set@ == with_position(*config, roles@, t));

    let ranks = config.get_member_ranks(roles);
    let ghost held = ranks_held(config.ranks@, roles@);
    assert(ranks_of(ranks@) == held);
    let set = if target.ranked && ranks.len() == 0 {
        let default = match config.get_rank_by_name(config.default_rank.as_str()) {
            Some(k) => k,
            None => {
                return GrantPlan::Refuse;
            },
        };
        proof {
            let i = choose|i: int| first_rank_named(config.ranks@, config.default_rank@, i) && *default
                == config.ranks@[i];
            let i2 = choose|i: int| first_rank_named(config.ranks@, config.default_rank@, i);
            lemma_first_rank_named_unique(config.ranks@, config.default_rank@, i, i2);
        }
        let mut set = set;
        set.insert(default.role);
        set
    } else if target.ranked && ranks.len() > 1 {
        drop_ranks(set, &ranks, 1)
    } else if !target.ranked && ranks.len() > 0 {
        drop_ranks(set, &ranks, 0)
    } else {
        set
    };
    assert(set@ == granted_roles(*config, roles@, t));

    let repeat = positions.len() > 0 && positions[0].role == target.role;
    if repeat {
        return GrantPlan::Grant(
            Grant { roles: set, repeat: true, stale_reactions: Vec::new(), greetable: false },
        );
    }
    let mut stale: Vec<EmojiData> = Vec::new();
    let mut i: usize = 0;
    while i < positions.len()
        invariant
            i <= positions@.len(),
            cur == positions_of(positions@),
            cur.len() == positions@.len(),
            emoji_texts(stale@) == stale_emoji(
                config.role_menu_positions@,
                cur.subrange(0, i as int),
                target.role,
            ),
        decreases positions@.len() - i,
    {
        let ghost prefix = cur.subrange(0, i + 1);
        assert(prefix.drop_last() =~= cur.subrange(0, i as int));
        assert(prefix.last() == cur[i as int]);
        let old_position = positions[i];
        assert(*old_position == cur[i as int]);
        let ghost before = stale@;
        if old_position.role != target.role {
            match config.get_role_menu_emoji(old_position.name.as_str()) {
                Some(e) => {
                    proof {
                        let menu = config.role_menu_positions@;
                        let k = choose|k: int|
                            first_menu_entry_named(menu, old_position.name@, k) && e@
                                == menu[k].emoji@;
                        let k2 = choose|k: int| first_menu_entry_named(menu, old_position.name@, k);
                        lemma_first_menu_entry_named_unique(menu, old_position.name@, k, k2);
                        assert(menu_has_name(menu, old_position.name@));
                    }
                    stale.push(e);
                    assert(emoji_texts(stale@) =~= emoji_texts(before).push(
                        menu_emoji_for(config.role_menu_positions@, old_position.name@),
                    ));
                },
                None => {},
            }
        }
        i = i + 1;
    }
    assert(cur.subrange(0, cur.len() as int) =~= cur);
    let greetable = greetable_name(config, &target.name);
    GrantPlan::Grant(Grant { roles: set, repeat: false, stale_reactions: stale, greetable })
}

/// The greeting with `mention` put in place of every `{mention}`.
pub fn compose_greeting(config: &Config, mention: &str) -> (r: String)
    ensures
        r@ == replaced(joined(texts(config.greeting@)), "{mention}"@, mention@),
{
    let template = config.get_greeting();
    fill_mention(template.as_str(), mention)
}

/// The greeting for the member with id `user_id`.
pub fn greeting_for(config: &Config, user_id: UserId) -> (r: String)
    ensures
        r@ == replaced(joined(texts(config.greeting@)), "{mention}"@, user_mention_of(user_id)),
{
    let mention = mention_user(user_id);
    compose_greeting(config, mention.as_str())
}

/// A rank the member holds stands in the list of ranks held.
proof fn lemma_rank_in_held(ranks: Seq<Rank>, roles: Seq<RoleId>, k: int)
    requires
        0 <= k < ranks.len(),
        roles.contains(ranks[k].role),
    ensures
        exists|m: int|
            0 <= m < ranks_held(ranks, roles).len() && ranks_held(ranks, roles)[m] == ranks[k],
{
    let pred = |x: Rank| roles.contains(x.role);
    ranks.lemma_filter_contains(pred, k);
    let held = ranks.filter(pred);
    assert(held == ranks_held(ranks, roles));
    assert(held.contains(ranks[k]));
    let m = choose|m: int| 0 <= m < held.len() && held[m] == ranks[k];
    assert(0 <= m < ranks_held(ranks, roles).len() && ranks_held(ranks, roles)[m] == ranks[k]);
}

/// Each rank held is a rank of the ladder whose role the member holds.
proof fn lemma_held_rank(ranks: Seq<Rank>, roles: Seq<RoleId>, m: int)
    requires
        0 <= m < ranks_held(ranks, roles).len(),
    ensures
        roles.contains(ranks_held(ranks, roles)[m].role),
        exists|k: int| 0 <= k < ranks.len() && ranks[k] == ranks_held(ranks, roles)[m],
{
    let pred = |x: Rank| roles.contains(x.role);
    let held = ranks.filter(pred);
    ranks.lemma_filter_pred(pred, m);
    assert(held.contains(held[m]));
    ranks.lemma_filter_contains_rev(pred, held[m]);
}

/// The granted position is one of the configured positions, and its role is
/// no rank role.
proof fn lemma_target_known(c: Config, emoji: Seq<char>)
    requires
        c.wf(),
        menu_has_emoji(c.role_menu_positions@, emoji),
    ensures
        exists|j: int| 0 <= j < c.positions@.len() && c.positions@[j] == target_position(c, emoji),
        forall|k: int| 0 <= k < c.ranks@.len() ==> c.ranks@[k].role != target_position(c, emoji).role,
{
    let menu = c.role_menu_positions@;
    let i0 = choose|i: int| 0 <= i < menu.len() && menu[i].emoji@ == emoji;
    first_menu_entry_exists(menu, emoji, i0);
    let mi = menu_index(c, emoji);
    let name = menu[mi].name@;
    assert(has_position_named(c.positions@, name));
    let p0 = choose|j: int| 0 <= j < c.positions@.len() && c.positions@[j].name@ == name;
    first_position_named_exists(c.positions@, name, p0);
    let j = choose|j: int| first_position_named(c.positions@, name, j);
    assert(c.positions@[j] == target_position(c, emoji));
}

proof fn first_menu_entry_exists(menu: Seq<RoleMenuPosition>, emoji: Seq<char>, i: int)
    requires
        0 <= i < menu.len(),
        menu[i].emoji@ == emoji,
    ensures
        exists|f: int| first_menu_entry(menu, emoji, f),
    decreases i,
{
    if forall|j: int| 0 <= j < i ==> menu[j].emoji@ != emoji {
        assert(first_menu_entry(menu, emoji, i));
    } else {
        let j = choose|j: int| 0 <= j < i && menu[j].emoji@ == emoji;
        first_menu_entry_exists(menu, emoji, j);
    }
}

proof fn first_position_named_exists(ps: Seq<Position>, name: Seq<char>, i: int)
    requires
        0 <= i < ps.len(),
        ps[i].name@ == name,
    ensures
        exists|f: int| first_position_named(ps, name, f),
    decreases i,
{
    if forall|j: int| 0 <= j < i ==> ps[j].name@ != name {
        assert(first_position_named(ps, name, i));
    } else {
        let j = choose|j: int| 0 <= j < i && ps[j].name@ == name;
        first_position_named_exists(ps, name, j);
    }
}

/// Only rank roles that the member held, or the position's own role, can be
/// among the roles after a grant, before ranks are looked at.
proof fn lemma_with_position_rank_roles(c: Config, roles: Seq<RoleId>, emoji: Seq<char>, k: int)
    requires
        c.wf(),
        menu_has_emoji(c.role_menu_positions@, emoji),
        0 <= k < c.ranks@.len(),
    ensures
        with_position(c, roles, target_position(c, emoji)).contains(c.ranks@[k].role)
            <==> roles.contains(c.ranks@[k].role),
{
    lemma_target_known(c, emoji);
    let t = target_position(c, emoji);
    let cur = positions_held(c.positions@, roles);
    let x = c.ranks@[k].role;
    if position_roles_except(cur, t.role, cur.len() as int).contains(x) {
        let m = choose|m: int| 0 <= m < cur.len() as int && m < cur.len() && cur[m].role == x && x != t.role;
        let pred = |p: Position| roles.contains(p.role);
        assert(cur.contains(cur[m]));
        c.positions@.lemma_filter_contains_rev(pred, cur[m]);
        let j = choose|j: int| 0 <= j < c.positions@.len() && c.positions@[j] == cur[m];
        assert(c.positions@[j].role != c.ranks@[k].role);
    }
    assert(roles.to_set().contains(x) == roles.contains(x));
}

/// After a grant the only position role the member holds is the granted one.
proof fn lemma_granted_position_roles(c: Config, roles: Seq<RoleId>, emoji: Seq<char>, j: int)
    requires
        c.wf(),
        menu_has_emoji(c.role_menu_positions@, emoji),
        0 <= j < c.positions@.len(),
    ensures
        granted_roles(c, roles, target_position(c, emoji)).contains(c.positions@[j].role)
            <==> c.positions@[j].role == target_position(c, emoji).role,
{
    lemma_target_known(c, emoji);
    let t = target_position(c, emoji);
    let cur = positions_held(c.positions@, roles);
    let held = ranks_held(c.ranks@, roles);
    let x = c.positions@[j].role;
    let pred = |p: Position| roles.contains(p.role);
    if roles.contains(x) && x != t.role {
        c.positions@.lemma_filter_contains(pred, j);
        assert(cur.contains(c.positions@[j]));
        let m = choose|m: int| 0 <= m < cur.len() && cur[m] == c.positions@[j];
        assert(position_roles_except(cur, t.role, cur.len() as int).contains(x));
    }
    if x == t.role {
        assert(!position_roles_except(cur, t.role, cur.len() as int).contains(x));
        assert(roles.to_set().insert(t.role).contains(x));
    }
    if t.ranked && held.len() == 0 {
        let d = choose|i: int| first_rank_named(c.ranks@, c.default_rank@, i);
        let d0 = choose|i: int| 0 <= i < c.ranks@.len() && c.ranks@[i].name@ == c.default_rank@;
        first_rank_named_exists(c.ranks@, c.default_rank@, d0);
        assert(c.ranks@[d].role != x);
    }
    if rank_roles_between(held, 0, held.len() as int).contains(x) {
        let m = choose|m: int| 0 <= m < held.len() as int && m < held.len() && held[m].role == x;
        lemma_held_rank(c.ranks@, roles, m);
        let k = choose|k: int| 0 <= k < c.ranks@.len() && c.ranks@[k] == held[m];
        assert(c.positions@[j].role != c.ranks@[k].role);
    }
    if rank_roles_between(held, 1, held.len() as int).contains(x) {
        let m = choose|m: int| 1 <= m < held.len() as int && m < held.len() && held[m].role == x;
        lemma_held_rank(c.ranks@, roles, m);
        let k = choose|k: int| 0 <= k < c.ranks@.len() && c.ranks@[k] == held[m];
        assert(c.positions@[j].role != c.ranks@[k].role);
    }
}

/// Reacting again with the same emoji once the first reaction's roles are in
/// place is a repeat: the plan keeps the roles exactly as they are, and (as
/// `maybe_grant_position` states of every repeat) cleans up no reaction and
/// checks no greeting.
pub proof fn lemma_reapply_is_noop(c: Config, roles: Seq<RoleId>, emoji: Seq<char>, again: Seq<RoleId>)
    requires
        c.wf(),
        menu_has_emoji(c.role_menu_positions@, emoji),
        again.to_set() == granted_roles(c, roles, target_position(c, emoji)),
    ensures
        governed(c, again),
        is_repeat(c, again, target_position(c, emoji)),
        granted_roles(c, again, target_position(c, emoji)) == again.to_set(),
{
    lemma_target_known(c, emoji);
    let t = target_position(c, emoji);
    let g = granted_roles(c, roles, t);
    let ps = c.positions@;
    let b = choose|b: int| 0 <= b < ps.len() && ps[b] == t;
    let pred = |p: Position| again.contains(p.role);
    let cur2 = positions_held(ps, again);
    // the granted position is held again, and first
    lemma_granted_position_roles(c, roles, emoji, b);
    assert(again.to_set().contains(t.role));
    ps.lemma_filter_contains(pred, b);
    assert(cur2.contains(ps[b]));
    assert(cur2.len() > 0);
    ps.lemma_filter_pred(pred, 0);
    assert(cur2.contains(cur2[0]));
    ps.lemma_filter_contains_rev(pred, cur2[0]);
    let a = choose|a: int| 0 <= a < ps.len() && ps[a] == cur2[0];
    lemma_granted_position_roles(c, roles, emoji, a);
    assert(again.to_set().contains(ps[a].role));
    assert(a == b);
    // the menu offers it
    let menu = c.role_menu_positions@;
    let mi = menu_index(c, emoji);
    let i0 = choose|i: int| 0 <= i < menu.len() && menu[i].emoji@ == emoji;
    first_menu_entry_exists(menu, emoji, i0);
    let pj = choose|j: int| first_position_named(ps, menu[mi].name@, j);
    assert(has_position_named(ps, menu[mi].name@));
    let p0 = choose|j: int| 0 <= j < ps.len() && ps[j].name@ == menu[mi].name@;
    first_position_named_exists(ps, menu[mi].name@, p0);
    assert(t.name@ == menu[mi].name@);
    assert(menu_has_name(menu, cur2[0].name@));
    // taking other positions away changes nothing
    let s2 = with_position(c, again, t);
    assert forall|x: RoleId| #[trigger] position_roles_except(cur2, t.role, cur2.len() as int).contains(x)
        implies false by {
        let m = choose|m: int| 0 <= m < cur2.len() as int && m < cur2.len() && cur2[m].role == x && x != t.role;
        ps.lemma_filter_pred(pred, m);
        assert(cur2.contains(cur2[m]));
        ps.lemma_filter_contains_rev(pred, cur2[m]);
        let e = choose|e: int| 0 <= e < ps.len() && ps[e] == cur2[m];
        lemma_granted_position_roles(c, roles, emoji, e);
        assert(again.to_set().contains(ps[e].role));
    }
    assert(s2 =~= g);
    // and so does looking at ranks
    let held2 = ranks_held(c.ranks@, again);
    let rpred = |k: Rank| again.contains(k.role);
    if t.ranked {
        let held = ranks_held(c.ranks@, roles);
        let k_star: int = if held.len() == 0 {
            lemma_ranked_grant_without_rank(c, roles, emoji);
            let d0 = choose|i: int| 0 <= i < c.ranks@.len() && c.ranks@[i].name@ == c.default_rank@;
            d0
        } else {
            lemma_ranked_grant_keeps_first_rank(c, roles, emoji);
            lemma_held_rank(c.ranks@, roles, 0);
            let k0 = choose|k: int| 0 <= k < c.ranks@.len() && c.ranks@[k] == held[0];
            k0
        };
        assert(g.contains(c.ranks@[k_star].role));
        assert(again.contains(c.ranks@[k_star].role));
        c.ranks@.lemma_filter_contains(rpred, k_star);
        assert(held2.contains(c.ranks@[k_star]));
        if held2.len() > 1 {
            lemma_held_rank(c.ranks@, again, 0);
            lemma_held_rank(c.ranks@, again, 1);
            let k0 = choose|k: int| 0 <= k < c.ranks@.len() && c.ranks@[k] == held2[0];
            let k1 = choose|k: int| 0 <= k < c.ranks@.len() && c.ranks@[k] == held2[1];
            assert(again.to_set().contains(c.ranks@[k0].role));
            assert(again.to_set().contains(c.ranks@[k1].role));
            lemma_filter_distinct_first(c.ranks@, again, 1);
        }
    } else {
        lemma_unranked_grant_drops_ranks(c, roles, emoji);
        if held2.len() > 0 {
            lemma_held_rank(c.ranks@, again, 0);
            let k0 = choose|k: int| 0 <= k < c.ranks@.len() && c.ranks@[k] == held2[0];
            assert(again.to_set().contains(c.ranks@[k0].role));
        }
    }
}

/// Granting a ranked position to a member who holds no rank leaves them with
/// exactly one rank: the default rank.
pub proof fn lemma_ranked_grant_without_rank(c: Config, roles: Seq<RoleId>, emoji: Seq<char>)
    requires
        c.wf(),
        menu_has_emoji(c.role_menu_positions@, emoji),
        target_position(c, emoji).ranked,
        ranks_held(c.ranks@, roles).len() == 0,
    ensures
        forall|k: int|
            0 <= k < c.ranks@.len() ==> (granted_roles(c, roles, target_position(c, emoji)).contains(
                c.ranks@[k].role,
            ) <==> c.ranks@[k].name@ == c.default_rank@),
{
    let t = target_position(c, emoji);
    let d = choose|i: int| first_rank_named(c.ranks@, c.default_rank@, i);
    let d0 = choose|i: int| 0 <= i < c.ranks@.len() && c.ranks@[i].name@ == c.default_rank@;
    first_rank_named_exists(c.ranks@, c.default_rank@, d0);
    assert forall|k: int| 0 <= k < c.ranks@.len() implies (granted_roles(c, roles, t).contains(
        c.ranks@[k].role,
    ) <==> c.ranks@[k].name@ == c.default_rank@) by {
        lemma_with_position_rank_roles(c, roles, emoji, k);
        if roles.contains(c.ranks@[k].role) {
            lemma_rank_in_held(c.ranks@, roles, k);
        }
        if c.ranks@[k].name@ == c.default_rank@ {
            assert(k == d || c.ranks@[k].name@ != c.ranks@[d].name@);
        }
    }
}

proof fn first_rank_named_exists(ranks: Seq<Rank>, name: Seq<char>, i: int)
    requires
        0 <= i < ranks.len(),
        ranks[i].name@ == name,
    ensures
        exists|f: int| first_rank_named(ranks, name, f),
    decreases i,
{
    if forall|j: int| 0 <= j < i ==> ranks[j].name@ != name {
        assert(first_rank_named(ranks, name, i));
    } else {
        let j = choose|j: int| 0 <= j < i && ranks[j].name@ == name;
        first_rank_named_exists(ranks, name, j);
    }
}

/// Granting a ranked position to a member who holds ranks leaves them with
/// exactly one: the first they held in ladder order.
pub proof fn lemma_ranked_grant_keeps_first_rank(c: Config, roles: Seq<RoleId>, emoji: Seq<char>)
    requires
        c.wf(),
        menu_has_emoji(c.role_menu_positions@, emoji),
        target_position(c, emoji).ranked,
        ranks_held(c.ranks@, roles).len() >= 1,
    ensures
        forall|k: int|
            0 <= k < c.ranks@.len() ==> (granted_roles(c, roles, target_position(c, emoji)).contains(
                c.ranks@[k].role,
            ) <==> c.ranks@[k] == ranks_held(c.ranks@, roles)[0]),
{
    let t = target_position(c, emoji);
    let held = ranks_held(c.ranks@, roles);
    lemma_held_rank(c.ranks@, roles, 0);
    let k0 = choose|k: int| 0 <= k < c.ranks@.len() && c.ranks@[k] == held[0];
    assert forall|k: int| 0 <= k < c.ranks@.len() implies (granted_roles(c, roles, t).contains(
        c.ranks@[k].role,
    ) <==> c.ranks@[k] == held[0]) by {
        lemma_with_position_rank_roles(c, roles, emoji, k);
        let x = c.ranks@[k].role;
        if roles.contains(x) {
            lemma_rank_in_held(c.ranks@, roles, k);
        }
        if rank_roles_between(held, 1, held.len() as int).contains(x) {
            let m = choose|m: int| 1 <= m < held.len() as int && m < held.len() && held[m].role == x;
            lemma_held_rank(c.ranks@, roles, m);
            let km = choose|km: int| 0 <= km < c.ranks@.len() && c.ranks@[km] == held[m];
            assert(km == k);
            if c.ranks@[k] == held[0] {
                lemma_filter_distinct_first(c.ranks@, roles, m);
            }
        }
        if c.ranks@[k] != held[0] && roles.contains(x) {
            let m = choose|m: int| 0 <= m < held.len() && held[m] == c.ranks@[k];
            assert(m != 0);
            assert(rank_roles_between(held, 1, held.len() as int).contains(x));
        }
        if c.ranks@[k] == held[0] {
            assert(k == k0 || c.ranks@[k].role != c.ranks@[k0].role);
        }
    }
}

/// The first rank held appears once among the ranks held.
proof fn lemma_filter_distinct_first(ranks: Seq<Rank>, roles: Seq<RoleId>, m: int)
    requires
        forall|a: int, b: int|
            0 <= a < ranks.len() && 0 <= b < ranks.len() && a != b ==> ranks[a].role != ranks[b].role,
        1 <= m < ranks_held(ranks, roles).len(),
    ensures
        ranks_held(ranks, roles)[m].role != ranks_held(ranks, roles)[0].role,
    decreases ranks.len(),
{
    let pred = |x: Rank| roles.contains(x.role);
    reveal(Seq::filter);
    let rest = ranks.drop_last();
    let held = ranks.filter(pred);
    let held_rest = rest.filter(pred);
    if pred(ranks.last()) && m == held.len() - 1 {
        // the last one held is the ladder's last rank; the first lies before it
        assert(held[m] == ranks.last());
        assert(held[0] == held_rest[0]);
        rest.lemma_filter_pred(pred, 0);
        assert(held_rest.contains(held_rest[0]));
        rest.lemma_filter_contains_rev(pred, held_rest[0]);
        let a = choose|a: int| 0 <= a < rest.len() && rest[a] == held_rest[0];
        assert(ranks[a] == rest[a]);
        assert(a != ranks.len() - 1);
    } else {
        assert(held[m] == held_rest[m]);
        assert(held[0] == held_rest[0]);
        lemma_filter_distinct_first(rest, roles, m);
    }
}

/// Granting a position without rank leaves the member with no rank at all.
pub proof fn lemma_unranked_grant_drops_ranks(c: Config, roles: Seq<RoleId>, emoji: Seq<char>)
    requires
        c.wf(),
        menu_has_emoji(c.role_menu_positions@, emoji),
        !target_position(c, emoji).ranked,
    ensures
        forall|k: int|
            0 <= k < c.ranks@.len() ==> !granted_roles(c, roles, target_position(c, emoji)).contains(
                c.ranks@[k].role,
            ),
{
    let t = target_position(c, emoji);
    let held = ranks_held(c.ranks@, roles);
    assert forall|k: int| 0 <= k < c.ranks@.len() implies !granted_roles(c, roles, t).contains(
        c.ranks@[k].role,
    ) by {
        lemma_with_position_rank_roles(c, roles, emoji, k);
        if roles.contains(c.ranks@[k].role) {
            lemma_rank_in_held(c.ranks@, roles, k);
            let m = choose|m: int| 0 <= m < held.len() && held[m] == c.ranks@[k];
            assert(rank_roles_between(held, 0, held.len() as int).contains(c.ranks@[k].role));
        }
    }
}

} // verus!
