//! The configuration model: the rank ladder, the positions, the assignable
//! roles, the role menu and the greeting rule.
use std::collections::HashSet;
use vstd::prelude::*;
use vstd::string::*;

use crate::text::{joined, lower_of, same_text, same_text_loose, join_lines, texts};

verus! {

/// A role of the server, by its id.
pub type RoleId = u64;

/// A user of the server, by its id.
pub type UserId = u64;

/// A step of the rank ladder.
pub struct Rank {
    pub name: String,
    pub role: RoleId,
}

/// A position: at most one of them is meant to be held at a time.
pub struct Position {
    pub name: String,
    pub role: RoleId,
    /// Holders of this position carry exactly one rank.
    pub ranked: bool,
    /// Holders of this position are administrators.
    pub admin: bool,
}

/// An emoji as the platform serialises it: an opaque token compared for equality.
pub struct EmojiData(pub String);

impl EmojiData {
    pub open spec fn view(&self) -> Seq<char> {
        self.0@
    }

    /// The serialised form.
    pub fn to_string(&self) -> (r: String)
        ensures
            r@ == self@,
    {
        self.0.clone()
    }

    /// A copy of this token.
    pub fn duplicate(&self) -> (r: EmojiData)
        ensures
            r@ == self@,
    {
        EmojiData(self.0.clone())
    }
}

impl PartialEq for EmojiData {
    fn eq(&self, other: &EmojiData) -> (r: bool) {
        self.0 == other.0
    }
}

impl vstd::std_specs::cmp::PartialEqSpecImpl for EmojiData {
    open spec fn obeys_eq_spec() -> bool {
        true
    }

    open spec fn eq_spec(&self, other: &EmojiData) -> bool {
        self.0@ == other.0@
    }
}

impl From<String> for EmojiData {
    fn from(value: String) -> (r: EmojiData) {
        EmojiData(value)
    }
}

impl vstd::std_specs::convert::FromSpecImpl<String> for EmojiData {
    open spec fn obeys_from_spec() -> bool {
        true
    }

    open spec fn from_spec(v: String) -> EmojiData {
        EmojiData(v)
    }
}

/// One entry of the role menu: reacting with `emoji` grants the position `name`.
pub struct RoleMenuPosition {
    pub emoji: EmojiData,
    pub name: String,
}

pub struct Config {
    /// Users with absolute authority.
    pub owners: HashSet<UserId>,
    /// Token used to sign the bot in.
    pub token: String,
    /// The only guild the bot serves.
    pub guild: u64,
    /// Rank given to members who need a rank and have none.
    pub default_rank: String,
    /// The rank ladder, lowest first.
    pub ranks: Vec<Rank>,
    /// Position roles, only one of which may be held at a time.
    pub positions: Vec<Position>,
    /// Roles that may be toggled by name; a lookup takes the first match.
    pub assignable: Vec<(String, RoleId)>,
    /// The channel and message of the role menu.
    pub role_menu: (u64, u64),
    /// Which emoji grants which position.
    pub role_menu_positions: Vec<RoleMenuPosition>,
    /// Positions whose grant through the menu triggers a greeting.
    pub greetable_positions: Vec<String>,
    /// Channel that greetings go to.
    pub greeting_channel: u64,
    /// Lines of the greeting message.
    pub greeting: Vec<String>,
}

/// `i` is the first index of the ladder whose rank is called `name`.
pub open spec fn first_rank_named(ranks: Seq<Rank>, name: Seq<char>, i: int) -> bool {
    &&& 0 <= i < ranks.len()
    &&& ranks[i].name@ == name
    &&& forall|j: int| 0 <= j < i ==> ranks[j].name@ != name
}

/// `i` is the first index of the ladder whose rank is called `name`, ignoring case.
pub open spec fn first_rank_named_loose(ranks: Seq<Rank>, name: Seq<char>, i: int) -> bool {
    &&& 0 <= i < ranks.len()
    &&& lower_of(ranks[i].name@) == lower_of(name)
    &&& forall|j: int| 0 <= j < i ==> lower_of(ranks[j].name@) != lower_of(name)
}

/// The index of the first rank called `name`, if any.
pub open spec fn rank_named_index(ranks: Seq<Rank>, name: Seq<char>) -> Option<int> {
    if has_rank_named(ranks, name) {
        Some(choose|i: int| first_rank_named(ranks, name, i))
    } else {
        None
    }
}

/// The rank right above the one called `name`.
pub open spec fn higher_rank(ranks: Seq<Rank>, name: Seq<char>) -> Option<Rank> {
    match rank_named_index(ranks, name) {
        Some(i) => if i + 1 < ranks.len() {
            Some(ranks[i + 1])
        } else {
            None
        },
        None => None,
    }
}

/// The rank right below the one called `name`.
pub open spec fn lower_rank(ranks: Seq<Rank>, name: Seq<char>) -> Option<Rank> {
    match rank_named_index(ranks, name) {
        Some(i) => if i >= 1 {
            Some(ranks[i - 1])
        } else {
            None
        },
        None => None,
    }
}

/// Only one index can be the first one with a name.
pub proof fn lemma_first_rank_named_unique(ranks: Seq<Rank>, name: Seq<char>, i: int, j: int)
    requires
        first_rank_named(ranks, name, i),
        first_rank_named(ranks, name, j),
    ensures
        i == j,
{
    if i < j {
        assert(ranks[i].name@ != name);
    } else if j < i {
        assert(ranks[j].name@ != name);
    }
}

/// The lookup by name finds `i` itself when the ladder's names are unique.
pub proof fn lemma_rank_named_index(ranks: Seq<Rank>, i: int)
    requires
        0 <= i < ranks.len(),
        forall|a: int, b: int|
            0 <= a < ranks.len() && 0 <= b < ranks.len() && a != b ==> ranks[a].name@ != ranks[b].name@,
    ensures
        rank_named_index(ranks, ranks[i].name@) == Some(i),
{
    let name = ranks[i].name@;
    assert(first_rank_named(ranks, name, i));
    let j = choose|j: int| first_rank_named(ranks, name, j);
    lemma_first_rank_named_unique(ranks, name, i, j);
}

/// The first rank whose name matches `name` ignoring case, if any.
pub open spec fn loose_rank(ranks: Seq<Rank>, name: Seq<char>) -> Option<Rank> {
    if exists|i: int| first_rank_named_loose(ranks, name, i) {
        Some(ranks[choose|i: int| first_rank_named_loose(ranks, name, i)])
    } else {
        None
    }
}

/// The role of the first assignable whose name matches `name` ignoring case, if any.
pub open spec fn assignable_loose(assignable: Seq<(String, RoleId)>, name: Seq<char>) -> Option<
    RoleId,
> {
    if exists|i: int| first_assignable_loose(assignable, name, i) {
        Some(assignable[choose|i: int| first_assignable_loose(assignable, name, i)].1)
    } else {
        None
    }
}

/// On a well-formed ladder the rank above the one at `i` is the one at
/// `i + 1`, and the rank below it the one at `i - 1`; at the ends there is none.
pub proof fn lemma_ladder_neighbours(c: Config, i: int)
    requires
        c.wf(),
        0 <= i < c.ranks@.len(),
    ensures
        higher_rank(c.ranks@, c.ranks@[i].name@) == if i + 1 < c.ranks@.len() {
            Some(c.ranks@[i + 1])
        } else {
            None
        },
        lower_rank(c.ranks@, c.ranks@[i].name@) == if i >= 1 {
            Some(c.ranks@[i - 1])
        } else {
            None
        },
{
    lemma_rank_named_index(c.ranks@, i);
}

/// Some rank of the ladder is called `name`.
pub open spec fn has_rank_named(ranks: Seq<Rank>, name: Seq<char>) -> bool {
    exists|i: int| 0 <= i < ranks.len() && ranks[i].name@ == name
}

/// `i` is the first position called `name`.
pub open spec fn first_position_named(positions: Seq<Position>, name: Seq<char>, i: int) -> bool {
    &&& 0 <= i < positions.len()
    &&& positions[i].name@ == name
    &&& forall|j: int| 0 <= j < i ==> positions[j].name@ != name
}

/// Some position is called `name`.
pub open spec fn has_position_named(positions: Seq<Position>, name: Seq<char>) -> bool {
    exists|i: int| 0 <= i < positions.len() && positions[i].name@ == name
}

/// The ranks of the ladder whose role is among `roles`, in ladder order.
pub open spec fn ranks_held(ranks: Seq<Rank>, roles: Seq<RoleId>) -> Seq<Rank> {
    ranks.filter(|k: Rank| roles.contains(k.role))
}

/// The positions whose role is among `roles`, in list order.
pub open spec fn positions_held(positions: Seq<Position>, roles: Seq<RoleId>) -> Seq<Position> {
    positions.filter(|p: Position| roles.contains(p.role))
}

/// `i` is the first menu entry for `emoji`.
pub open spec fn first_menu_entry(menu: Seq<RoleMenuPosition>, emoji: Seq<char>, i: int) -> bool {
    &&& 0 <= i < menu.len()
    &&& menu[i].emoji@ == emoji
    &&& forall|j: int| 0 <= j < i ==> menu[j].emoji@ != emoji
}

/// `i` is the first menu entry that grants the position called `name`.
pub open spec fn first_menu_entry_named(menu: Seq<RoleMenuPosition>, name: Seq<char>, i: int) -> bool {
    &&& 0 <= i < menu.len()
    &&& menu[i].name@ == name
    &&& forall|j: int| 0 <= j < i ==> menu[j].name@ != name
}

/// The menu has an entry for `emoji`.
pub open spec fn menu_has_emoji(menu: Seq<RoleMenuPosition>, emoji: Seq<char>) -> bool {
    exists|i: int| 0 <= i < menu.len() && menu[i].emoji@ == emoji
}

/// The menu has an entry that grants the position called `name`.
pub open spec fn menu_has_name(menu: Seq<RoleMenuPosition>, name: Seq<char>) -> bool {
    exists|i: int| 0 <= i < menu.len() && menu[i].name@ == name
}

/// `i` is the first assignable role whose name matches `name`, ignoring case.
pub open spec fn first_assignable_loose(
    assignable: Seq<(String, RoleId)>,
    name: Seq<char>,
    i: int,
) -> bool {
    &&& 0 <= i < assignable.len()
    &&& lower_of(assignable[i].0@) == lower_of(name)
    &&& forall|j: int| 0 <= j < i ==> lower_of(assignable[j].0@) != lower_of(name)
}

/// Whether `role` is among `roles`.
pub fn holds_role(roles: &Vec<RoleId>, role: RoleId) -> (r: bool)
    ensures
        r == roles@.contains(role),
{
    let mut i: usize = 0;
    while i < roles.len()
        invariant
            i <= roles@.len(),
            forall|j: int| 0 <= j < i ==> roles@[j] != role,
        decreases roles@.len() - i,
    {
        if roles[i] == role {
            assert(roles@[i as int] == role);
            return true;
        }
        i = i + 1;
    }
    false
}

impl Config {
    /// What the engine needs of a configuration: names and roles unique on the
    /// ladder and among positions, no role both a rank and a position, the
    /// default rank on the ladder and every menu entry naming a position.
    pub open spec fn wf(&self) -> bool {
        let ranks = self.ranks@;
        let positions = self.positions@;
        &&& forall|i: int, j: int|
            0 <= i < ranks.len() && 0 <= j < ranks.len() && i != j ==> ranks[i].name@ != ranks[j].name@
                && ranks[i].role != ranks[j].role
        &&& forall|i: int, j: int|
            0 <= i < positions.len() && 0 <= j < positions.len() && i != j ==> positions[i].name@
                != positions[j].name@ && positions[i].role != positions[j].role
        &&& forall|i: int, j: int|
            0 <= i < positions.len() && 0 <= j < ranks.len() ==> positions[i].role != ranks[j].role
        &&& has_rank_named(ranks, self.default_rank@)
        &&& forall|i: int|
            0 <= i < self.role_menu_positions@.len() ==> has_position_named(
                positions,
                #[trigger] self.role_menu_positions@[i].name@,
            )
    }

    /// Whether `role` belongs to a position marked as administrative.
    pub fn is_admin_role(&self, role_id: RoleId) -> (r: bool)
        ensures
            r == exists|i: int|
                0 <= i < self.positions@.len() && self.positions@[i].admin
                    && self.positions@[i].role == role_id,
    {
        let mut i: usize = 0;
        while i < self.positions.len()
            invariant
                i <= self.positions@.len(),
                forall|j: int|
                    0 <= j < i ==> !(self.positions@[j].admin && self.positions@[j].role == role_id),
            decreases self.positions@.len() - i,
        {
            if self.positions[i].admin && self.positions[i].role == role_id {
                return true;
            }
            i = i + 1;
        }
        false
    }

    /// Whether a reaction with `emoji` on the given message is one the role
    /// menu governs.
    pub fn is_role_menu_reaction(&self, channel_id: u64, message_id: u64, emoji: &EmojiData) -> (r:
        bool)
        ensures
            r == (self.role_menu == (channel_id, message_id) && menu_has_emoji(
                self.role_menu_positions@,
                emoji@,
            )),
    {
        if self.role_menu.0 != channel_id || self.role_menu.1 != message_id {
            return false;
        }
        match self.get_role_menu_position(emoji) {
            Some(_) => true,
            None => false,
        }
    }

    /// Whether a member whose first position is `position` may use the role
    /// menu: always when they hold none, else only when the menu offers it.
    pub fn should_grant_position(&self, position: Option<&Position>) -> (r: bool)
        ensures
            r == match position {
                None => true,
                Some(p) => menu_has_name(self.role_menu_positions@, p.name@),
            },
    {
        match position {
            None => true,
            Some(p) => {
                let mut i: usize = 0;
                while i < self.role_menu_positions.len()
                    invariant
                        position == Some(p),
                        i <= self.role_menu_positions@.len(),
                        forall|j: int| 0 <= j < i ==> self.role_menu_positions@[j].name@ != p.name@,
                    decreases self.role_menu_positions@.len() - i,
                {
                    if self.role_menu_positions[i].name == p.name {
                        assert(self.role_menu_positions@[i as int].name@ == p.name@);
                        return true;
                    }
                    i = i + 1;
                }
                false
            },
        }
    }

    /// The first menu entry for `emoji`.
    pub fn get_role_menu_position(&self, emoji: &EmojiData) -> (r: Option<&RoleMenuPosition>)
        ensures
            match r {
                Some(e) => exists|i: int|
                    first_menu_entry(self.role_menu_positions@, emoji@, i)
                        && *e == self.role_menu_positions@[i],
                None => !menu_has_emoji(self.role_menu_positions@, emoji@),
            },
    {
                let mut i: usize = 0;
        while i < self.role_menu_positions.len()
            invariant
                i <= self.role_menu_positions@.len(),
                forall|j: int| 0 <= j < i ==> self.role_menu_positions@[j].emoji@ != emoji@,
            decreases self.role_menu_positions@.len() - i,
        {
            if self.role_menu_positions[i].emoji.0 == emoji.0 {
                let e = &self.role_menu_positions[i];
                assert(first_menu_entry(self.role_menu_positions@, emoji@, i as int)
                    && *e == self.role_menu_positions@[i as int]);
                return Some(e);
            }
            i = i + 1;
        }
        None
    }

    /// The emoji of the first menu entry that grants the position `position_name`.
    pub fn get_role_menu_emoji(&self, position_name: &str) -> (r: Option<EmojiData>)
        ensures
            match r {
                Some(e) => exists|i: int|
                    first_menu_entry_named(self.role_menu_positions@, position_name@, i) && e@
                        == self.role_menu_positions@[i].emoji@,
                None => !menu_has_name(self.role_menu_positions@, position_name@),
            },
    {
                let mut i: usize = 0;
        while i < self.role_menu_positions.len()
            invariant
                i <= self.role_menu_positions@.len(),
                forall|j: int| 0 <= j < i ==> self.role_menu_positions@[j].name@ != position_name@,
            decreases self.role_menu_positions@.len() - i,
        {
            if same_text(self.role_menu_positions[i].name.as_str(), position_name) {
                let e = self.role_menu_positions[i].emoji.duplicate();
                assert(first_menu_entry_named(self.role_menu_positions@, position_name@, i as int));
                return Some(e);
            }
            i = i + 1;
        }
        None
    }

    /// The rank called `rank_name`, ignoring case.
    pub fn get_rank_by_name_loose(&self, rank_name: &str) -> (r: Option<&Rank>)
        ensures
            match r {
                Some(k) => loose_rank(self.ranks@, rank_name@) == Some(*k),
                None => loose_rank(self.ranks@, rank_name@) is None,
            },
    {
        let mut i: usize = 0;
        while i < self.ranks.len()
            invariant
                i <= self.ranks@.len(),
                forall|j: int|
                    0 <= j < i ==> lower_of(self.ranks@[j].name@) != lower_of(rank_name@),
            decreases self.ranks@.len() - i,
        {
            if same_text_loose(self.ranks[i].name.as_str(), rank_name) {
                assert(first_rank_named_loose(self.ranks@, rank_name@, i as int));
                proof {
                    let j = choose|j: int| first_rank_named_loose(self.ranks@, rank_name@, j);
                    if j < i {
                        assert(lower_of(self.ranks@[j].name@) != lower_of(rank_name@));
                    } else if j > i {
                        assert(lower_of(self.ranks@[i as int].name@) != lower_of(rank_name@));
                    }
                }
                return Some(&self.ranks[i]);
            }
            i = i + 1;
        }
        None
    }

    /// The index of the first rank called `rank_name`.
    fn rank_index(&self, rank_name: &str) -> (r: Option<usize>)
        ensures
            match r {
                Some(i) => first_rank_named(self.ranks@, rank_name@, i as int),
                None => !has_rank_named(self.ranks@, rank_name@),
            },
    {
        let mut i: usize = 0;
        while i < self.ranks.len()
            invariant
                i <= self.ranks@.len(),
                forall|j: int| 0 <= j < i ==> self.ranks@[j].name@ != rank_name@,
            decreases self.ranks@.len() - i,
        {
            if same_text(self.ranks[i].name.as_str(), rank_name) {
                return Some(i);
            }
            i = i + 1;
        }
        None
    }

    /// The rank called exactly `rank_name`.
    pub fn get_rank_by_name(&self, rank_name: &str) -> (r: Option<&Rank>)
        ensures
            match r {
                Some(k) => exists|i: int|
                    first_rank_named(self.ranks@, rank_name@, i) && *k == self.ranks@[i],
                None => !has_rank_named(self.ranks@, rank_name@),
            },
    {
        match self.rank_index(rank_name) {
            Some(i) => Some(&self.ranks[i]),
            None => None,
        }
    }

    /// The rank right above the one called `rank_name`; none when that rank
    /// is missing or on top.
    pub fn get_higher_rank(&self, rank_name: &str) -> (r: Option<&Rank>)
        ensures
            match r {
                Some(k) => higher_rank(self.ranks@, rank_name@) == Some(*k),
                None => higher_rank(self.ranks@, rank_name@) is None,
            },
    {
        match self.rank_index(rank_name) {
            Some(i) => {
                proof {
                    let j = choose|j: int| first_rank_named(self.ranks@, rank_name@, j);
                    lemma_first_rank_named_unique(self.ranks@, rank_name@, i as int, j);
                }
                if i < self.ranks.len() - 1 {
                    Some(&self.ranks[i + 1])
                } else {
                    None
                }
            },
            None => None,
        }
    }

    /// The rank right below the one called `rank_name`; none when that rank
    /// is missing or at the bottom.
    pub fn get_lower_rank(&self, rank_name: &str) -> (r: Option<&Rank>)
        ensures
            match r {
                Some(k) => lower_rank(self.ranks@, rank_name@) == Some(*k),
                None => lower_rank(self.ranks@, rank_name@) is None,
            },
    {
        match self.rank_index(rank_name) {
            Some(i) => {
                proof {
                    let j = choose|j: int| first_rank_named(self.ranks@, rank_name@, j);
                    lemma_first_rank_named_unique(self.ranks@, rank_name@, i as int, j);
                }
                if i >= 1 {
                    Some(&self.ranks[i - 1])
                } else {
                    None
                }
            },
            None => None,
        }
    }

    /// The position called `position_name`.
    pub fn get_position_by_name(&self, position_name: &str) -> (r: Option<&Position>)
        ensures
            match r {
                Some(p) => exists|i: int|
                    first_position_named(self.positions@, position_name@, i) && *p
                        == self.positions@[i],
                None => !has_position_named(self.positions@, position_name@),
            },
    {
        let mut i: usize = 0;
        while i < self.positions.len()
            invariant
                i <= self.positions@.len(),
                forall|j: int| 0 <= j < i ==> self.positions@[j].name@ != position_name@,
            decreases self.positions@.len() - i,
        {
            if same_text(self.positions[i].name.as_str(), position_name) {
                assert(first_position_named(self.positions@, position_name@, i as int));
                return Some(&self.positions[i]);
            }
            i = i + 1;
        }
        None
    }

    /// The role of the first assignable whose name matches, ignoring case.
    pub fn get_assignable_loose(&self, assignable_name: &str) -> (r: Option<RoleId>)
        ensures
            r == assignable_loose(self.assignable@, assignable_name@),
    {
        let mut i: usize = 0;
        while i < self.assignable.len()
            invariant
                i <= self.assignable@.len(),
                forall|j: int|
                    0 <= j < i ==> lower_of(self.assignable@[j].0@) != lower_of(assignable_name@),
            decreases self.assignable@.len() - i,
        {
            if same_text_loose(self.assignable[i].0.as_str(), assignable_name) {
                assert(first_assignable_loose(self.assignable@, assignable_name@, i as int));
                proof {
                    let j = choose|j: int| first_assignable_loose(self.assignable@, assignable_name@, j);
                    if j < i {
                        assert(lower_of(self.assignable@[j].0@) != lower_of(assignable_name@));
                    } else if j > i {
                        assert(lower_of(self.assignable@[i as int].0@) != lower_of(assignable_name@));
                    }
                }
                return Some(self.assignable[i].1);
            }
            i = i + 1;
        }
        None
    }

    /// The ranks whose role the member holds, in ladder order.
    pub fn get_member_ranks(&self, roles: &Vec<RoleId>) -> (r: Vec<&Rank>)
        ensures
            r@.map_values(|x: &Rank| *x) == ranks_held(self.ranks@, roles@),
    {
        proof {
            reveal(Seq::filter);
        }
        let mut r: Vec<&Rank> = Vec::new();
        let mut i: usize = 0;
        while i < self.ranks.len()
            invariant
                i <= self.ranks@.len(),
                r@.map_values(|x: &Rank| *x) == ranks_held(self.ranks@.subrange(0, i as int), roles@),
            decreases self.ranks@.len() - i,
        {
            let ghost prefix = self.ranks@.subrange(0, i + 1);
            proof {
                reveal(Seq::filter);
            }
            assert(prefix.drop_last() =~= self.ranks@.subrange(0, i as int));
            assert(prefix.last() == self.ranks@[i as int]);
            assert(ranks_held(prefix, roles@) == if roles@.contains(self.ranks@[i as int].role) {
                ranks_held(self.ranks@.subrange(0, i as int), roles@).push(self.ranks@[i as int])
            } else {
                ranks_held(self.ranks@.subrange(0, i as int), roles@)
            });
            let ghost before = r@;
            if holds_role(roles, self.ranks[i].role) {
                r.push(&self.ranks[i]);
                assert(r@.map_values(|x: &Rank| *x) =~= before.map_values(|x: &Rank| *x).push(
                    self.ranks@[i as int],
                ));
            }
            i = i + 1;
        }
        assert(self.ranks@.subrange(0, self.ranks@.len() as int) =~= self.ranks@);
        r
    }

    /// The positions whose role the member holds, in list order.
    pub fn get_member_positions(&self, roles: &Vec<RoleId>) -> (r: Vec<&Position>)
        ensures
            r@.map_values(|x: &Position| *x) == positions_held(self.positions@, roles@),
    {
        proof {
            reveal(Seq::filter);
        }
        let mut r: Vec<&Position> = Vec::new();
        let mut i: usize = 0;
        while i < self.positions.len()
            invariant
                i <= self.positions@.len(),
                r@.map_values(|x: &Position| *x) == positions_held(self.positions@.subrange(0, i as int), roles@),
            decreases self.positions@.len() - i,
        {
            let ghost prefix = self.positions@.subrange(0, i + 1);
            proof {
                reveal(Seq::filter);
            }
            assert(prefix.drop_last() =~= self.positions@.subrange(0, i as int));
            assert(prefix.last() == self.positions@[i as int]);
            assert(positions_held(prefix, roles@) == if roles@.contains(self.positions@[i as int].role) {
                positions_held(self.positions@.subrange(0, i as int), roles@).push(self.positions@[i as int])
            } else {
                positions_held(self.positions@.subrange(0, i as int), roles@)
            });
            let ghost before = r@;
            if holds_role(roles, self.positions[i].role) {
                r.push(&self.positions[i]);
                assert(r@.map_values(|x: &Position| *x) =~= before.map_values(|x: &Position| *x).push(
                    self.positions@[i as int],
                ));
            }
            i = i + 1;
        }
        assert(self.positions@.subrange(0, self.positions@.len() as int) =~= self.positions@);
        r
    }

    /// Whether no two ranks of the ladder share a name or a role.
    fn ranks_distinct(&self) -> (r: bool)
        ensures
            r == forall|i: int, j: int|
                0 <= i < self.ranks@.len() && 0 <= j < self.ranks@.len() && i != j
                    ==> self.ranks@[i].name@ != self.ranks@[j].name@ && self.ranks@[i].role
                    != self.ranks@[j].role,
    {
        let n: usize = self.ranks.len();
        let mut i: usize = 0;
        while i < n
            invariant
                n == self.ranks@.len(),
                i <= n,
                forall|a: int, b: int|
                    0 <= a < i && 0 <= b < n && a != b ==> self.ranks@[a].name@
                        != self.ranks@[b].name@ && self.ranks@[a].role != self.ranks@[b].role,
            decreases n - i,
        {
            let mut j: usize = 0;
            while j < n
                invariant
                    n == self.ranks@.len(),
                    i < n,
                    j <= n,
                    forall|a: int, b: int|
                        0 <= a < i && 0 <= b < n && a != b ==> self.ranks@[a].name@
                            != self.ranks@[b].name@ && self.ranks@[a].role != self.ranks@[b].role,
                    forall|b: int|
                        0 <= b < j && b != i ==> self.ranks@[i as int].name@
                            != self.ranks@[b].name@ && self.ranks@[i as int].role
                            != self.ranks@[b].role,
                decreases n - j,
            {
                if j != i && (self.ranks[i].name == self.ranks[j].name || self.ranks[i].role
                    == self.ranks[j].role) {
                    assert(!(self.ranks@[i as int].name@ != self.ranks@[j as int].name@
                        && self.ranks@[i as int].role != self.ranks@[j as int].role));
                    return false;
                }
                j = j + 1;
            }
            i = i + 1;
        }
        true
    }

    /// Whether no two positions share a name or a role, and no position role
    /// is a rank role.
    fn positions_distinct(&self) -> (r: bool)
        ensures
            r == ((forall|i: int, j: int|
                0 <= i < self.positions@.len() && 0 <= j < self.positions@.len() && i != j
                    ==> self.positions@[i].name@ != self.positions@[j].name@
                    && self.positions@[i].role != self.positions@[j].role) && (forall|i: int, j: int|
                0 <= i < self.positions@.len() && 0 <= j < self.ranks@.len()
                    ==> self.positions@[i].role != self.ranks@[j].role)),
    {
        let n: usize = self.positions.len();
        let mut i: usize = 0;
        while i < n
            invariant
                n == self.positions@.len(),
                i <= n,
                forall|a: int, b: int|
                    0 <= a < i && 0 <= b < n && a != b ==> self.positions@[a].name@
                        != self.positions@[b].name@ && self.positions@[a].role
                        != self.positions@[b].role,
                forall|a: int, b: int|
                    0 <= a < i && 0 <= b < self.ranks@.len() ==> self.positions@[a].role
                        != self.ranks@[b].role,
            decreases n - i,
        {
            let mut j: usize = 0;
            while j < n
                invariant
                    n == self.positions@.len(),
                    i < n,
                    j <= n,
                    forall|b: int|
                        0 <= b < j && b != i ==> self.positions@[i as int].name@
                            != self.positions@[b].name@ && self.positions@[i as int].role
                            != self.positions@[b].role,
                decreases n - j,
            {
                if j != i && (self.positions[i].name == self.positions[j].name
                    || self.positions[i].role == self.positions[j].role) {
                    assert(!(self.positions@[i as int].name@ != self.positions@[j as int].name@
                        && self.positions@[i as int].role != self.positions@[j as int].role));
                    return false;
                }
                j = j + 1;
            }
            let mut k: usize = 0;
            while k < self.ranks.len()
                invariant
                    n == self.positions@.len(),
                    i < n,
                    k <= self.ranks@.len(),
                    forall|b: int| 0 <= b < k ==> self.positions@[i as int].role != self.ranks@[b].role,
                decreases self.ranks@.len() - k,
            {
                if self.positions[i].role == self.ranks[k].role {
                    return false;
                }
                k = k + 1;
            }
            i = i + 1;
        }
        true
    }

    /// Whether every menu entry names a position.
    fn menu_names_positions(&self) -> (r: bool)
        ensures
            r == forall|i: int|
                0 <= i < self.role_menu_positions@.len() ==> has_position_named(
                    self.positions@,
                    #[trigger] self.role_menu_positions@[i].name@,
                ),
    {
        let mut i: usize = 0;
        while i < self.role_menu_positions.len()
            invariant
                i <= self.role_menu_positions@.len(),
                forall|a: int|
                    0 <= a < i ==> has_position_named(
                        self.positions@,
                        #[trigger] self.role_menu_positions@[a].name@,
                    ),
            decreases self.role_menu_positions@.len() - i,
        {
            match self.get_position_by_name(self.role_menu_positions[i].name.as_str()) {
                Some(_) => {},
                None => {
                    return false;
                },
            }
            i = i + 1;
        }
        true
    }

    /// Whether this configuration meets what the engine needs of it.
    pub fn is_well_formed(&self) -> (r: bool)
        ensures
            r == self.wf(),
    {
        let default_known = match self.rank_index(self.default_rank.as_str()) {
            Some(_) => true,
            None => false,
        };
        self.ranks_distinct() && self.positions_distinct() && default_known
            && self.menu_names_positions()
    }

    /// The greeting template: its lines joined with newlines.
    pub fn get_greeting(&self) -> (r: String)
        ensures
            r@ == joined(texts(self.greeting@)),
    {
        join_lines(&self.greeting)
    }
}

impl Default for Config {
    /// A placeholder configuration: one rank and one position called `Test`,
    /// every id zero and a token of 59 `X`.
    fn default() -> (r: Config)
        ensures
            r.owners@ == Set::<UserId>::empty(),
            r.token@ == Seq::new(59, |_i: int| 'X'),
            r.guild == 0,
            r.default_rank@ == "Test"@,
            r.ranks@.len() == 1,
            r.ranks@[0].name@ == "Test"@,
            r.ranks@[0].role == 0,
            r.positions@.len() == 1,
            r.positions@[0].name@ == "Test"@,
            r.positions@[0].role == 0,
            !r.positions@[0].ranked,
            !r.positions@[0].admin,
            r.assignable@.len() == 0,
            r.role_menu == (0u64, 0u64),
            r.role_menu_positions@.len() == 0,
            r.greetable_positions@.len() == 0,
            r.greeting_channel == 0,
            r.greeting@.len() == 0,
    {
        let x = "X";
        proof {
            reveal_strlit("X");
        }
        let mut token = String::new();
        let mut i: usize = 0;
        while i < 59
            invariant
                i <= 59,
                x@ == seq!['X'],
                token@ == Seq::new(i as nat, |_i: int| 'X'),
            decreases 59 - i,
        {
            token.append(x);
            assert(token@ =~= Seq::new((i + 1) as nat, |_i: int| 'X'));
            i = i + 1;
        }
        let mut ranks: Vec<Rank> = Vec::new();
        ranks.push(Rank { role: 0, name: "Test".to_owned() });
        let mut positions: Vec<Position> = Vec::new();
        positions.push(Position { role: 0, name: "Test".to_owned(), ranked: false, admin: false });
        Config {
            owners: HashSet::new(),
            token,
            guild: 0,
            default_rank: "Test".to_owned(),
            ranks,
            positions,
            assignable: Vec::new(),
            role_menu: (0, 0),
            role_menu_positions: Vec::new(),
            greetable_positions: Vec::new(),
            greeting_channel: 0,
            greeting: Vec::new(),
        }
    }
}

/// The configuration as the running bot holds it: always well formed, and
/// swapped whole on reload.
pub struct ConfigContainer {
    config: Config,
}

impl ConfigContainer {
    pub closed spec fn view(&self) -> Config {
        self.config
    }

    pub closed spec fn inv(&self) -> bool {
        self.config.wf()
    }

    /// Holds `config` when it is well formed.
    pub fn new(config: Config) -> (r: Option<ConfigContainer>)
        ensures
            match r {
                Some(c) => c.inv() && c@ == config,
                None => !config.wf(),
            },
    {
        if config.is_well_formed() {
            Some(ConfigContainer { config })
        } else {
            None
        }
    }

    /// The snapshot in force.
    pub fn get(&self) -> (r: &Config)
        requires
            self.inv(),
        ensures
            *r == self@,
            r.wf(),
    {
        &self.config
    }

    /// Installs `fresh` when it is well formed; else keeps the snapshot in force.
    pub fn reload(&mut self, fresh: Config) -> (installed: bool)
        requires
            old(self).inv(),
        ensures
            final(self).inv(),
            installed == fresh.wf(),
            final(self)@ == if installed {
                fresh
            } else {
                old(self)@
            },
    {
        if fresh.is_well_formed() {
            self.config = fresh;
            true
        } else {
            false
        }
    }
}

} // verus!
