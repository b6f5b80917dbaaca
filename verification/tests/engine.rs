//! Deterministic tests of the turn-resolution engine, driven through the
//! `NoShuffle` test double so every branch is reproducible.

use colony::cards::{BonusCard, DamageCard, EventCard, RoleName};
use colony::game::GameState;
use colony::roles::{Role, Roles};
use colony::shuffle::{NoShuffle, RandomShuffler};

fn role(name: RoleName, facilities: usize, damaged: usize, resources: usize, acted: bool) -> Role {
    Role { name, facilities, facilities_damaged: damaged, resources, acted }
}

fn fresh_roles() -> Roles {
    Roles {
        hab: role(RoleName::Hab, 1, 0, 0, false),
        joul: role(RoleName::Joul, 1, 0, 0, false),
        man: role(RoleName::Man, 1, 0, 0, false),
    }
}

fn empty_state() -> GameState {
    GameState {
        bonus_cards_in_play: Vec::new(),
        event_deck: Vec::new(),
        event_cards_in_play: Vec::new(),
        bonus_deck: Vec::new(),
        damage_deck: Vec::new(),
        year_number: 0,
        roles: fresh_roles(),
        infra_damage: 0,
    }
}

#[test]
fn replenish_sets_production_and_clears_flags() {
    let mut gs = empty_state();
    gs.roles.hab = role(RoleName::Hab, 3, 1, 0, true);
    gs.roles.joul = role(RoleName::Joul, 2, 2, 5, true);
    gs.roles.man = role(RoleName::Man, 1, 2, 0, false);
    gs.roles.replenish_all();
    assert_eq!(gs.roles.hab.resources, 2);
    assert_eq!(gs.roles.joul.resources, 0);
    assert_eq!(gs.roles.man.resources, 0);
    for r in [gs.roles.hab, gs.roles.joul, gs.roles.man] {
        assert_eq!(r.facilities_damaged, 0);
        assert!(!r.acted);
    }
    assert_eq!(gs.roles.hab.facilities, 3);
}

#[test]
fn draw_damage_reshuffles_empty_deck() {
    let mut gs = empty_state();
    assert_eq!(gs.damage_deck.len(), 0);
    let mut ns = NoShuffle;
    let _card = gs.draw_damage_card(&mut ns);
    assert_eq!(gs.damage_deck.len(), 8);
    let infra = gs
        .damage_deck
        .iter()
        .filter(|c| **c == DamageCard::InfrastructureDamage)
        .count();
    assert!(infra == 2 || infra == 3);
}

#[test]
fn draw_damage_pops_last_when_nonempty() {
    let mut gs = empty_state();
    gs.damage_deck = vec![
        DamageCard::InfrastructureDamage,
        DamageCard::FacilityDamage(RoleName::Man),
    ];
    let mut ns = NoShuffle;
    let card = gs.draw_damage_card(&mut ns);
    assert_eq!(card, DamageCard::FacilityDamage(RoleName::Man));
    assert_eq!(gs.damage_deck, vec![DamageCard::InfrastructureDamage]);
}

#[test]
fn deal_bonus_card_moves_top_into_play() {
    let mut gs = empty_state();
    gs.bonus_deck = vec![
        BonusCard::Build(RoleName::Hab),
        BonusCard::Build(RoleName::Man),
    ];
    gs.deal_bonus_card();
    assert_eq!(gs.bonus_deck, vec![BonusCard::Build(RoleName::Hab)]);
    assert_eq!(gs.bonus_cards_in_play, vec![BonusCard::Build(RoleName::Man)]);
    gs.bonus_deck.clear();
    gs.deal_bonus_card();
    assert_eq!(gs.bonus_cards_in_play.len(), 1);
}

#[test]
fn find_cancel_last_match_wins() {
    let mut gs = empty_state();
    gs.bonus_cards_in_play = vec![
        BonusCard::Cancel("Meteor".to_string(), vec![RoleName::Joul]),
        BonusCard::Build(RoleName::Hab),
        BonusCard::Cancel("Meteor".to_string(), vec![RoleName::Man]),
        BonusCard::Cancel("Quake".to_string(), vec![RoleName::Hab]),
    ];
    let (roles, pos) = gs.find_roles_with_cancel(&"Meteor".to_string());
    assert_eq!(roles, vec![RoleName::Man]);
    assert_eq!(pos, 2);
    let (none_roles, none_pos) = gs.find_roles_with_cancel(&"Mutiny".to_string());
    assert!(none_roles.is_empty());
    assert_eq!(none_pos, 0);
}

#[test]
fn find_build_last_match_wins() {
    let mut gs = empty_state();
    gs.bonus_cards_in_play = vec![
        BonusCard::Build(RoleName::Hab),
        BonusCard::Cancel("Quake".to_string(), vec![RoleName::Joul]),
        BonusCard::Build(RoleName::Hab),
    ];
    assert_eq!(gs.find_role_with_build(RoleName::Hab), Some(2));
    assert_eq!(gs.find_role_with_build(RoleName::Joul), None);
}

#[test]
fn build_charges_everyone_and_caps_facilities() {
    let mut gs = empty_state();
    gs.roles.hab.resources = 2;
    gs.roles.joul.resources = 1;
    gs.roles.man.resources = 3;
    gs.build(RoleName::Hab, false);
    assert_eq!(gs.roles.hab.facilities, 2);
    assert!(gs.roles.hab.acted);
    assert_eq!(gs.roles.hab.resources, 1);
    assert_eq!(gs.roles.joul.resources, 0);
    assert_eq!(gs.roles.man.resources, 2);
    assert!(!gs.roles.joul.acted);

    let mut capped = empty_state();
    capped.roles.man.facilities = 4;
    capped.build(RoleName::Man, true);
    assert_eq!(capped.roles.man.facilities, 4);
    assert!(capped.roles.man.acted);
    assert_eq!(capped.roles.hab.resources, 0);
}

#[test]
fn do_damage_card_variants() {
    let mut gs = empty_state();
    gs.do_damage_card(None, DamageCard::InfrastructureDamage);
    assert_eq!(gs.infra_damage, 1);

    gs.roles.joul.facilities = 2;
    gs.do_damage_card(None, DamageCard::FacilityDamage(RoleName::Joul));
    assert_eq!(gs.roles.joul.facilities_damaged, 1);

    // The override redirects the hit away from the card's nominal role.
    gs.do_damage_card(Some(RoleName::Man), DamageCard::FacilityDamage(RoleName::Joul));
    assert_eq!(gs.roles.man.facilities_damaged, 1);
    assert_eq!(gs.roles.joul.facilities_damaged, 1);

    gs.do_damage_card(None, DamageCard::FacilityDestruction(RoleName::Joul));
    assert_eq!(gs.roles.joul.facilities, 1);
    assert_eq!(gs.roles.joul.facilities_damaged, 1);
    gs.do_damage_card(None, DamageCard::FacilityDestruction(RoleName::Joul));
    assert_eq!(gs.roles.joul.facilities, 1);
    assert_eq!(gs.roles.joul.facilities_damaged, 2);
}

#[test]
fn spend_cancel_card_removes_and_marks_acted() {
    let mut gs = empty_state();
    gs.bonus_cards_in_play = vec![
        BonusCard::Build(RoleName::Hab),
        BonusCard::Cancel("Quake".to_string(), vec![RoleName::Joul]),
    ];
    gs.spend_cancel_card(RoleName::Joul, 1);
    assert_eq!(gs.bonus_cards_in_play, vec![BonusCard::Build(RoleName::Hab)]);
    assert!(gs.roles.joul.acted);
    assert!(!gs.roles.hab.acted);
}

#[test]
fn can_deal_and_deal_with_event() {
    let mut gs = empty_state();
    gs.roles.joul.resources = 1;
    gs.roles.man.resources = 1;
    let card = EventCard::Problem(
        "Meteor".to_string(),
        vec![(RoleName::Joul, RoleName::Man), (RoleName::Man, RoleName::Joul)],
        None,
        Some(DamageCard::InfrastructureDamage),
    );
    assert!(gs.can_deal_with_event(&card));
    gs.deal_with_event(&card);
    assert_eq!(gs.roles.joul.resources, 0);
    assert_eq!(gs.roles.man.resources, 0);
    assert!(gs.roles.joul.acted);
    assert!(gs.roles.man.acted);
    assert!(!gs.roles.hab.acted);
    assert!(!gs.can_deal_with_event(&card));
}

#[test]
fn resolver_is_idempotent_on_cleared_list() {
    let mut gs = empty_state();
    gs.roles.hab.resources = 1;
    gs.event_cards_in_play = vec![EventCard::Problem(
        "Mutiny".to_string(),
        vec![(RoleName::Hab, RoleName::Hab)],
        None,
        Some(DamageCard::InfrastructureDamage),
    )];
    gs.resolve_events();
    assert!(gs.event_cards_in_play.is_empty());
    let snapshot = gs.clone();
    gs.resolve_events();
    assert_eq!(gs, snapshot);
}

#[test]
fn cancel_then_build_scenario() {
    // A role with no resources and one eligible cancel card: the event is
    // canceled, the role has acted, its resources are untouched, and the
    // bonus card leaves play.
    let mut gs = empty_state();
    gs.roles.hab.resources = 0;
    gs.bonus_cards_in_play = vec![BonusCard::Cancel("Mutiny".to_string(), vec![RoleName::Hab])];
    gs.event_cards_in_play = vec![EventCard::Problem(
        "Mutiny".to_string(),
        vec![(RoleName::Hab, RoleName::Hab)],
        None,
        Some(DamageCard::FacilityDamage(RoleName::Hab)),
    )];
    gs.resolve_events();
    assert!(gs.roles.hab.acted);
    assert_eq!(gs.roles.hab.resources, 0);
    assert!(gs.bonus_cards_in_play.is_empty());
    assert_eq!(gs.roles.hab.facilities_damaged, 0);
    assert_eq!(gs.infra_damage, 0);
}

#[test]
fn damage_scenario_one_facility() {
    // An unresolvable destruction against a one-facility role marks damage
    // instead of removing the last facility.
    let mut gs = empty_state();
    gs.roles.hab = role(RoleName::Hab, 1, 0, 0, false);
    gs.roles.joul.facilities = 0;
    gs.event_deck = vec![EventCard::Problem(
        "Raiding".to_string(),
        vec![(RoleName::Hab, RoleName::Joul)],
        None,
        None,
    )];
    gs.damage_deck = vec![DamageCard::FacilityDestruction(RoleName::Hab)];
    let mut ns = NoShuffle;
    gs.play_year(&mut ns);
    assert_eq!(gs.roles.hab.facilities, 1);
    assert_eq!(gs.roles.hab.facilities_damaged, 1);
}

#[test]
fn destruction_scenario_two_facilities() {
    let mut gs = empty_state();
    gs.roles.hab = role(RoleName::Hab, 2, 0, 0, false);
    gs.roles.joul.facilities = 0;
    gs.event_deck = vec![EventCard::Problem(
        "Raiding".to_string(),
        vec![(RoleName::Hab, RoleName::Joul)],
        None,
        None,
    )];
    gs.damage_deck = vec![DamageCard::FacilityDestruction(RoleName::Hab)];
    let mut ns = NoShuffle;
    gs.play_year(&mut ns);
    assert_eq!(gs.roles.hab.facilities, 1);
    assert_eq!(gs.roles.hab.facilities_damaged, 0);
}

#[test]
fn one_year_from_the_starting_roles() {
    // From the canonical starting roles, one year in which a single shared
    // problem is paid off leaves every role acted and the year counted.
    let mut gs = empty_state();
    gs.event_deck = vec![
        EventCard::NoProblem,
        EventCard::Problem(
            "Systemic".to_string(),
            vec![
                (RoleName::Joul, RoleName::Joul),
                (RoleName::Man, RoleName::Man),
                (RoleName::Hab, RoleName::Hab),
            ],
            None,
            None,
        ),
    ];
    gs.damage_deck = vec![DamageCard::InfrastructureDamage];
    let mut ns = NoShuffle;
    gs.play_year(&mut ns);
    assert_eq!(gs.year_number, 1);
    assert!(gs.roles.hab.acted);
    assert!(gs.roles.joul.acted);
    assert!(gs.roles.man.acted);
    assert_eq!(gs.infra_damage, 0);
    assert!(gs.event_cards_in_play.is_empty());
}

#[test]
fn unacted_roles_with_noshuffle_keep_registry_order() {
    let mut gs = empty_state();
    gs.roles.joul.acted = true;
    let mut ns = NoShuffle;
    let unacted = gs.get_unacted_roles(&mut ns);
    assert_eq!(unacted, vec![(RoleName::Hab, 1), (RoleName::Man, 1)]);
}

#[test]
fn build_using_bonus_spends_the_card() {
    let mut gs = empty_state();
    gs.bonus_cards_in_play = vec![
        BonusCard::Build(RoleName::Man),
        BonusCard::Cancel("Quake".to_string(), vec![RoleName::Joul]),
    ];
    gs.build_using_bonus(RoleName::Man);
    assert_eq!(gs.roles.man.facilities, 2);
    assert!(gs.roles.man.acted);
    assert_eq!(gs.roles.man.resources, 0);
    assert_eq!(gs.bonus_cards_in_play.len(), 1);
    gs.build_using_bonus(RoleName::Hab);
    assert_eq!(gs.roles.hab.facilities, 1);
    assert!(!gs.roles.hab.acted);
}

#[test]
fn new_deals_the_full_catalogs() {
    let mut rng = RandomShuffler;
    let gs = GameState::new(&mut rng);
    assert_eq!(gs.event_deck.len(), 27);
    assert_eq!(gs.bonus_deck.len(), 18);
    assert_eq!(gs.damage_deck.len(), 9);
    assert!(gs.event_cards_in_play.is_empty());
    assert!(gs.bonus_cards_in_play.is_empty());
    assert_eq!(gs.year_number, 0);
    assert_eq!(gs.infra_damage, 0);
    for r in [gs.roles.hab, gs.roles.joul, gs.roles.man] {
        assert_eq!(r.facilities, 1);
        assert_eq!(r.facilities_damaged, 0);
        assert_eq!(r.resources, 0);
        assert!(!r.acted);
    }
    let quiet = gs
        .event_deck
        .iter()
        .filter(|c| **c == EventCard::NoProblem)
        .count();
    assert_eq!(quiet, 3);
    let builds = gs
        .bonus_deck
        .iter()
        .filter(|c| matches!(c, BonusCard::Build(_)))
        .count();
    assert_eq!(builds, 6);
    let infra = gs
        .damage_deck
        .iter()
        .filter(|c| **c == DamageCard::InfrastructureDamage)
        .count();
    assert_eq!(infra, 3);
}

#[test]
fn deal_against_empty_damage_deck_reshuffles() {
    // Dealing one problem against an empty damage deck replaces it with a
    // fresh nine-card deck before the draw, leaving eight cards behind and
    // the problem in play with a damage card attached.
    let mut gs = empty_state();
    gs.event_deck = vec![EventCard::Problem(
        "Mutiny".to_string(),
        vec![(RoleName::Hab, RoleName::Hab)],
        None,
        None,
    )];
    assert!(gs.damage_deck.is_empty());
    let mut ns = NoShuffle;
    gs.deal_event_and_damage_cards(1, &mut ns);
    assert_eq!(gs.damage_deck.len(), 8);
    assert_eq!(gs.event_cards_in_play.len(), 1);
    match &gs.event_cards_in_play[0] {
        EventCard::Problem(_, _, _, damage) => assert!(damage.is_some()),
        EventCard::NoProblem => panic!("a problem card was dealt"),
    }
}

#[test]
fn deal_from_empty_event_deck_changes_nothing() {
    let mut gs = empty_state();
    gs.damage_deck = vec![DamageCard::InfrastructureDamage];
    let before = gs.clone();
    let mut ns = NoShuffle;
    gs.deal_event_and_damage_cards(5, &mut ns);
    assert_eq!(gs, before);
}

#[test]
fn quiet_year_only_replenishes() {
    // No events to deal, no bonus cards anywhere, and a role that replenishes
    // to zero resources: the year's only observable effect on the roles is
    // the replenish itself.
    let mut gs = empty_state();
    gs.roles.hab = role(RoleName::Hab, 2, 2, 7, true);
    gs.roles.joul = role(RoleName::Joul, 3, 1, 0, true);
    gs.roles.man = role(RoleName::Man, 1, 1, 2, false);
    let mut ns = NoShuffle;
    gs.play_year(&mut ns);
    assert_eq!(gs.roles.hab, role(RoleName::Hab, 2, 0, 0, false));
    assert_eq!(gs.roles.joul, role(RoleName::Joul, 3, 0, 2, false));
    assert_eq!(gs.roles.man, role(RoleName::Man, 1, 0, 0, false));
    assert_eq!(gs.year_number, 1);
    assert_eq!(gs.infra_damage, 0);
}

#[test]
fn full_game_keeps_the_bounds() {
    // A whole randomized game: facilities stay within 0..=4, the year counts
    // up, and infrastructure damage never decreases.
    let mut rng = RandomShuffler;
    let mut gs = GameState::new(&mut rng);
    let mut last_infra = 0;
    for n in 0..9 {
        if gs.infra_damage > 2 {
            break;
        }
        gs.play_year(&mut rng);
        assert_eq!(gs.year_number, n + 1);
        assert!(gs.infra_damage >= last_infra);
        last_infra = gs.infra_damage;
        for r in [gs.roles.hab, gs.roles.joul, gs.roles.man] {
            assert!(r.facilities <= 4);
            assert!(r.resources <= 4);
        }
        assert!(gs.event_cards_in_play.is_empty());
    }
}
