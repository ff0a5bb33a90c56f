use std::collections::HashSet;

use sentinel::commands::admin::{change_assignable, AssignError, Scheme as AssignScheme};
use sentinel::commands::owner::{change_rank, RankError, Scheme};
use sentinel::config::{Config, ConfigContainer, EmojiData, Position, Rank, RoleMenuPosition};

const RECRUIT: u64 = 10;
const MEMBER: u64 = 11;
const VETERAN: u64 = 12;
const NEWS: u64 = 50;
const OTHER: u64 = 99;

fn ladder_config() -> Config {
    Config {
        owners: HashSet::new(),
        token: "token".to_string(),
        guild: 1,
        default_rank: "Recruit".to_string(),
        ranks: vec![
            Rank { name: "Recruit".to_string(), role: RECRUIT },
            Rank { name: "Member".to_string(), role: MEMBER },
            Rank { name: "Veteran".to_string(), role: VETERAN },
        ],
        positions: vec![Position { name: "Guest".to_string(), role: 20, ranked: false, admin: true }],
        assignable: vec![("news".to_string(), NEWS), ("Events".to_string(), 51)],
        role_menu: (7, 8),
        role_menu_positions: vec![RoleMenuPosition {
            emoji: EmojiData("g".to_string()),
            name: "Guest".to_string(),
        }],
        greetable_positions: vec![],
        greeting_channel: 3,
        greeting: vec![],
    }
}

fn sorted(set: HashSet<u64>) -> Vec<u64> {
    let mut v: Vec<u64> = set.into_iter().collect();
    v.sort();
    v
}

#[test]
fn promote_walks_up_the_ladder_then_stops() {
    let config = ladder_config();
    let roles = vec![RECRUIT];
    let roles = sorted(change_rank(&config, &roles, &Scheme::Higher).unwrap());
    assert_eq!(roles, vec![MEMBER]);
    let roles = sorted(change_rank(&config, &roles, &Scheme::Higher).unwrap());
    assert_eq!(roles, vec![VETERAN]);
    assert_eq!(change_rank(&config, &roles, &Scheme::Higher), Err(RankError::NoSuchTransition));
    assert_eq!(roles, vec![VETERAN]);
}

#[test]
fn promote_at_top_keeps_failing() {
    let config = ladder_config();
    let roles = vec![OTHER, VETERAN];
    for _ in 0..3 {
        assert_eq!(change_rank(&config, &roles, &Scheme::Higher), Err(RankError::NoSuchTransition));
    }
    assert_eq!(roles, vec![OTHER, VETERAN]);
}

#[test]
fn demote_keeps_other_roles() {
    let config = ladder_config();
    let roles = vec![OTHER, MEMBER];
    let roles = sorted(change_rank(&config, &roles, &Scheme::Lower).unwrap());
    assert_eq!(roles, vec![RECRUIT, OTHER]);
    assert_eq!(change_rank(&config, &roles, &Scheme::Lower), Err(RankError::NoSuchTransition));
}

#[test]
fn set_rank_by_name_ignores_case() {
    let config = ladder_config();
    let roles = vec![RECRUIT];
    let roles = sorted(change_rank(&config, &roles, &Scheme::Named("VETERAN".to_string())).unwrap());
    assert_eq!(roles, vec![VETERAN]);
    assert_eq!(
        change_rank(&config, &roles, &Scheme::Named("veteran".to_string())),
        Err(RankError::Unchanged)
    );
    assert_eq!(
        change_rank(&config, &roles, &Scheme::Named("General".to_string())),
        Err(RankError::NoSuchTransition)
    );
}

#[test]
fn rank_change_without_rank_fails() {
    let config = ladder_config();
    assert_eq!(change_rank(&config, &vec![OTHER], &Scheme::Higher), Err(RankError::NoCurrentRank));
    assert_eq!(change_rank(&config, &vec![], &Scheme::Lower), Err(RankError::NoCurrentRank));
}

#[test]
fn rank_change_uses_first_rank_in_ladder_order() {
    let config = ladder_config();
    let roles = vec![VETERAN, RECRUIT];
    let roles = sorted(change_rank(&config, &roles, &Scheme::Higher).unwrap());
    assert_eq!(roles, vec![MEMBER, VETERAN]);
}

#[test]
fn ladder_neighbours() {
    let config = ladder_config();
    let names = ["Recruit", "Member", "Veteran"];
    for (i, name) in names.iter().enumerate() {
        let higher = config.get_higher_rank(name).map(|r| r.role);
        let lower = config.get_lower_rank(name).map(|r| r.role);
        assert_eq!(higher, config.ranks.get(i + 1).map(|r| r.role));
        assert_eq!(lower, if i == 0 { None } else { Some(config.ranks[i - 1].role) });
    }
    assert!(config.get_higher_rank("Nobody").is_none());
    assert!(config.get_lower_rank("Nobody").is_none());
    assert!(config.get_higher_rank("recruit").is_none());
}

#[test]
fn rank_lookups() {
    let config = ladder_config();
    assert_eq!(config.get_rank_by_name("Member").map(|r| r.role), Some(MEMBER));
    assert!(config.get_rank_by_name("member").is_none());
    assert_eq!(config.get_rank_by_name_loose("mEmBeR").map(|r| r.role), Some(MEMBER));
    let held: Vec<u64> = config.get_member_ranks(&vec![VETERAN, OTHER, RECRUIT]).iter().map(|r| r.role).collect();
    assert_eq!(held, vec![RECRUIT, VETERAN]);
}

#[test]
fn assign_then_assign_again() {
    let config = ladder_config();
    let roles = vec![RECRUIT];
    let scheme = AssignScheme::Assign("news".to_string());
    assert_eq!(change_assignable(&config, &roles, &scheme), Ok(NEWS));
    let roles = vec![RECRUIT, NEWS];
    assert_eq!(change_assignable(&config, &roles, &scheme), Err(AssignError::AlreadyAssigned));
}

#[test]
fn unassign_and_unknown_names() {
    let config = ladder_config();
    let roles = vec![NEWS];
    assert_eq!(change_assignable(&config, &roles, &AssignScheme::Unassign("NEWS".to_string())), Ok(NEWS));
    assert_eq!(
        change_assignable(&config, &vec![], &AssignScheme::Unassign("news".to_string())),
        Err(AssignError::NotAssigned)
    );
    assert_eq!(
        change_assignable(&config, &roles, &AssignScheme::Assign("sports".to_string())),
        Err(AssignError::NoSuchAssignable)
    );
    assert_eq!(config.get_assignable_loose("events"), Some(51));
    assert_eq!(AssignScheme::Assign("x y".to_string()).as_str(), "x y");
}

#[test]
fn well_formed_configurations() {
    let config = ladder_config();
    assert!(config.is_well_formed());
    let mut twin_names = ladder_config();
    twin_names.ranks[2].name = "Recruit".to_string();
    assert!(!twin_names.is_well_formed());
    let mut shared_role = ladder_config();
    shared_role.positions[0].role = MEMBER;
    assert!(!shared_role.is_well_formed());
    let mut unknown_default = ladder_config();
    unknown_default.default_rank = "Admiral".to_string();
    assert!(!unknown_default.is_well_formed());
    let mut unknown_menu = ladder_config();
    unknown_menu.role_menu_positions[0].name = "Pilot".to_string();
    assert!(!unknown_menu.is_well_formed());
    assert!(!Config::default().is_well_formed());
}

#[test]
fn default_configuration() {
    let config = Config::default();
    assert_eq!(config.token, "X".repeat(59));
    assert_eq!(config.default_rank, "Test");
    assert_eq!(config.ranks.len(), 1);
    assert_eq!(config.positions[0].name, "Test");
    assert!(config.role_menu_positions.is_empty());
}

#[test]
fn container_keeps_a_well_formed_snapshot() {
    assert!(ConfigContainer::new(Config::default()).is_none());
    let mut container = ConfigContainer::new(ladder_config()).unwrap();
    assert!(!container.reload(Config::default()));
    assert_eq!(container.get().ranks.len(), 3);
    let mut fresh = ladder_config();
    fresh.ranks.pop();
    assert!(container.reload(fresh));
    assert_eq!(container.get().ranks.len(), 2);
}

#[test]
fn admin_roles() {
    let config = ladder_config();
    assert!(config.is_admin_role(20));
    assert!(!config.is_admin_role(RECRUIT));
}
