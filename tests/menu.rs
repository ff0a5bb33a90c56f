use std::collections::HashSet;

use sentinel::config::{Config, EmojiData, Position, Rank, RoleMenuPosition};
use sentinel::handler::{compose_greeting, greeting_for, maybe_grant_position, GrantPlan};
use sentinel::persist::{Persist, PersistContainer};
use sentinel::text::{join_lines, same_text, same_text_loose};

const TRAINEE: u64 = 10;
const SOLDIER: u64 = 11;
const RECRUIT_POS: u64 = 20;
const VISITOR_POS: u64 = 21;
const STAFF_POS: u64 = 22;
const OTHER: u64 = 99;

fn menu_config() -> Config {
    Config {
        owners: HashSet::new(),
        token: "token".to_string(),
        guild: 1,
        default_rank: "Trainee".to_string(),
        ranks: vec![
            Rank { name: "Trainee".to_string(), role: TRAINEE },
            Rank { name: "Soldier".to_string(), role: SOLDIER },
        ],
        positions: vec![
            Position { name: "Recruit".to_string(), role: RECRUIT_POS, ranked: true, admin: false },
            Position { name: "Visitor".to_string(), role: VISITOR_POS, ranked: false, admin: false },
            Position { name: "Staff".to_string(), role: STAFF_POS, ranked: true, admin: true },
        ],
        assignable: vec![],
        role_menu: (7, 8),
        role_menu_positions: vec![
            RoleMenuPosition { emoji: EmojiData("r".to_string()), name: "Recruit".to_string() },
            RoleMenuPosition { emoji: EmojiData("v".to_string()), name: "Visitor".to_string() },
        ],
        greetable_positions: vec!["Recruit".to_string()],
        greeting_channel: 3,
        greeting: vec!["Welcome {mention}!".to_string(), "Read the rules, {mention}.".to_string()],
    }
}

fn emoji(s: &str) -> EmojiData {
    EmojiData(s.to_string())
}

fn sorted(set: &HashSet<u64>) -> Vec<u64> {
    let mut v: Vec<u64> = set.iter().copied().collect();
    v.sort();
    v
}

fn grant(config: &Config, roles: &Vec<u64>, e: &str) -> sentinel::handler::Grant {
    match maybe_grant_position(config, roles, &emoji(e)) {
        GrantPlan::Grant(g) => g,
        GrantPlan::Refuse => panic!("expected a grant"),
    }
}

#[test]
fn recruit_reaction_gives_default_rank_and_greeting() {
    let config = menu_config();
    let mut ledger = Persist::default();
    let member = 42;
    let g = grant(&config, &vec![], "r");
    assert_eq!(sorted(&g.roles), vec![TRAINEE, RECRUIT_POS]);
    assert!(!g.repeat);
    assert!(g.stale_reactions.is_empty());
    assert!(g.greetable);
    assert!(ledger.should_greet(member));
    let text = greeting_for(&config, member);
    assert_eq!(text, "Welcome <@42>!\nRead the rules, <@42>.");
    assert!(ledger.conclude_greeting(member, true));
    assert!(ledger.greeted_users.contains(&member));
    assert!(!ledger.should_greet(member));
    assert_eq!(ledger.greeted_users.len(), 1);
}

#[test]
fn reacting_again_is_a_repeat() {
    let config = menu_config();
    let first = grant(&config, &vec![OTHER], "r");
    let roles = sorted(&first.roles);
    let again = grant(&config, &roles, "r");
    assert!(again.repeat);
    assert_eq!(sorted(&again.roles), roles);
    assert!(again.stale_reactions.is_empty());
    assert!(!again.greetable);
}

#[test]
fn ranked_grant_keeps_first_ladder_rank() {
    let config = menu_config();
    let g = grant(&config, &vec![SOLDIER, OTHER, TRAINEE], "r");
    assert_eq!(sorted(&g.roles), vec![TRAINEE, RECRUIT_POS, OTHER]);
}

#[test]
fn ranked_grant_keeps_single_rank() {
    let config = menu_config();
    let g = grant(&config, &vec![SOLDIER], "r");
    assert_eq!(sorted(&g.roles), vec![SOLDIER, RECRUIT_POS]);
}

#[test]
fn unranked_grant_drops_every_rank() {
    let config = menu_config();
    let g = grant(&config, &vec![TRAINEE, SOLDIER, RECRUIT_POS], "v");
    assert_eq!(sorted(&g.roles), vec![VISITOR_POS]);
    assert!(!g.greetable);
    let g = grant(&config, &vec![OTHER], "v");
    assert_eq!(sorted(&g.roles), vec![VISITOR_POS, OTHER]);
}

#[test]
fn switching_position_cleans_stale_reactions() {
    let config = menu_config();
    let g = grant(&config, &vec![VISITOR_POS], "r");
    assert_eq!(sorted(&g.roles), vec![TRAINEE, RECRUIT_POS]);
    assert!(!g.repeat);
    let stale: Vec<String> = g.stale_reactions.iter().map(|e| e.to_string()).collect();
    assert_eq!(stale, vec!["v".to_string()]);
}

#[test]
fn position_outside_menu_is_refused() {
    let config = menu_config();
    let plan = maybe_grant_position(&config, &vec![STAFF_POS, SOLDIER], &emoji("r"));
    assert!(matches!(plan, GrantPlan::Refuse));
}

#[test]
fn greeted_member_is_not_greeted_again() {
    let mut ledger = Persist::default();
    assert!(ledger.register_greeted(5));
    assert!(!ledger.register_greeted(5));
    assert_eq!(ledger.greeted_users.len(), 1);
    assert!(!ledger.should_greet(5));
    assert!(ledger.should_greet(6));
}

#[test]
fn failed_send_records_nobody() {
    let mut ledger = Persist::default();
    assert!(!ledger.conclude_greeting(5, false));
    assert!(ledger.should_greet(5));
}

#[test]
fn reset_counts_everyone_present_as_greeted() {
    let mut container = PersistContainer::new(Persist::default());
    container.persist.register_greeted(1);
    container.persist.reset_greeted(&vec![2, 3, 3]);
    assert!(container.persist.should_greet(1));
    assert!(!container.persist.should_greet(2));
    assert_eq!(container.persist.greeted_users.len(), 2);
    container.reload(Persist::default());
    assert!(container.persist.should_greet(2));
}

#[test]
fn menu_lookups() {
    let config = menu_config();
    assert!(config.is_role_menu_reaction(7, 8, &emoji("v")));
    assert!(!config.is_role_menu_reaction(7, 9, &emoji("v")));
    assert!(!config.is_role_menu_reaction(7, 8, &emoji("x")));
    assert_eq!(config.get_role_menu_position(&emoji("v")).map(|p| p.name.clone()), Some("Visitor".to_string()));
    assert_eq!(config.get_role_menu_emoji("Recruit").map(|e| e.to_string()), Some("r".to_string()));
    assert!(config.get_role_menu_emoji("Staff").is_none());
    assert!(config.should_grant_position(None));
    assert!(config.should_grant_position(Some(&config.positions[1])));
    assert!(!config.should_grant_position(Some(&config.positions[2])));
    let held: Vec<u64> =
        config.get_member_positions(&vec![STAFF_POS, OTHER, RECRUIT_POS]).iter().map(|p| p.role).collect();
    assert_eq!(held, vec![RECRUIT_POS, STAFF_POS]);
    assert_eq!(config.get_position_by_name("Staff").map(|p| p.role), Some(STAFF_POS));
    assert!(config.get_position_by_name("staff").is_none());
}

#[test]
fn greeting_text() {
    let config = menu_config();
    assert_eq!(config.get_greeting(), "Welcome {mention}!\nRead the rules, {mention}.");
    assert_eq!(compose_greeting(&config, "Ann"), "Welcome Ann!\nRead the rules, Ann.");
    assert_eq!(join_lines(&vec![]), "");
    assert_eq!(join_lines(&vec!["a".to_string()]), "a");
}

#[test]
fn text_comparisons() {
    assert!(same_text("Ab", "Ab"));
    assert!(!same_text("Ab", "ab"));
    assert!(!same_text("Ab", "Abc"));
    assert!(same_text_loose("Ab", "aB"));
    assert!(!same_text_loose("Ab", "ac"));
}

#[test]
fn emoji_tokens() {
    let e = EmojiData::from("x".to_string());
    assert!(e == emoji("x"));
    assert!(e != emoji("y"));
    assert_eq!(e.duplicate().to_string(), "x");
}
