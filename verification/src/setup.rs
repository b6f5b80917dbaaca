//! Game setup: the fixed card catalogs and the construction of the starting
//! state. The event deck is a deterministic catalog dealt once per game; the
//! bonus deck and damage deck have fixed contents too. All three are shuffled
//! at construction.

use vstd::prelude::*;
use crate::cards::{
    BonusCard, BonusCardModel, EventCard, EventCardModel, RoleName, all_events_wf, bonus_models,
    event_model_wf, event_models, lemma_all_events_wf_multiset, lemma_map_values_multiset,
};
use crate::game::{GameState, fresh_damage_deck};
use crate::roles::{Role, Roles};
use crate::shuffle::Shuffler;
use crate::cards::DamageCard;

verus! {

/// A problem model as it sits in the catalog: no damage attached yet.
pub open spec fn pm(
    id: Seq<char>,
    pairs: Seq<(RoleName, RoleName)>,
    damage_override: Option<RoleName>,
) -> EventCardModel {
    EventCardModel::Problem { id, pairs, damage_override, damage: None }
}

/// The full 27-card event catalog: 24 problems and 3 quiet years.
pub open spec fn event_catalog() -> Seq<EventCardModel> {
    seq![
        pm("Spacecold"@, seq![(RoleName::Hab, RoleName::Hab)], Some(RoleName::Hab)),
        pm("Spacecold"@, seq![(RoleName::Hab, RoleName::Man)], Some(RoleName::Hab)),
        pm("Spacecold"@, seq![(RoleName::Hab, RoleName::Joul)], Some(RoleName::Hab)),
        pm("Mutiny"@, seq![(RoleName::Hab, RoleName::Hab)], None),
        pm("Mutiny"@, seq![(RoleName::Hab, RoleName::Hab)], None),
        pm("Mutiny"@, seq![(RoleName::Hab, RoleName::Hab)], None),
        pm("Nanobug"@, seq![(RoleName::Man, RoleName::Joul)], None),
        pm("Nanobug"@, seq![(RoleName::Man, RoleName::Hab)], None),
        pm("Nanobug"@, seq![(RoleName::Man, RoleName::Man)], None),
        pm("Raiding"@, seq![(RoleName::Hab, RoleName::Joul)], None),
        pm("Raiding"@, seq![(RoleName::Hab, RoleName::Hab)], None),
        pm("Raiding"@, seq![(RoleName::Hab, RoleName::Man)], None),
        pm("Surge"@, seq![(RoleName::Joul, RoleName::Joul)], Some(RoleName::Joul)),
        pm("Surge"@, seq![(RoleName::Joul, RoleName::Hab)], Some(RoleName::Joul)),
        pm("Surge"@, seq![(RoleName::Joul, RoleName::Man)], Some(RoleName::Joul)),
        pm(
            "Meteor"@,
            seq![(RoleName::Joul, RoleName::Man), (RoleName::Man, RoleName::Hab)],
            None,
        ),
        pm(
            "Meteor"@,
            seq![(RoleName::Joul, RoleName::Hab), (RoleName::Man, RoleName::Joul)],
            None,
        ),
        pm(
            "Meteor"@,
            seq![(RoleName::Joul, RoleName::Joul), (RoleName::Man, RoleName::Man)],
            None,
        ),
        pm(
            "Quake"@,
            seq![(RoleName::Joul, RoleName::Man), (RoleName::Man, RoleName::Hab)],
            None,
        ),
        pm(
            "Quake"@,
            seq![(RoleName::Joul, RoleName::Hab), (RoleName::Man, RoleName::Joul)],
            None,
        ),
        pm(
            "Quake"@,
            seq![(RoleName::Joul, RoleName::Joul), (RoleName::Man, RoleName::Man)],
            None,
        ),
        pm(
            "Systemic"@,
            seq![
                (RoleName::Joul, RoleName::Joul),
                (RoleName::Man, RoleName::Man),
                (RoleName::Hab, RoleName::Hab),
            ],
            None,
        ),
        pm(
            "Systemic"@,
            seq![
                (RoleName::Joul, RoleName::Man),
                (RoleName::Man, RoleName::Hab),
                (RoleName::Hab, RoleName::Joul),
            ],
            None,
        ),
        pm(
            "Systemic"@,
            seq![
                (RoleName::Joul, RoleName::Hab),
                (RoleName::Man, RoleName::Joul),
                (RoleName::Hab, RoleName::Man),
            ],
            None,
        ),
        EventCardModel::NoProblem,
        EventCardModel::NoProblem,
        EventCardModel::NoProblem,
    ]
}

/// A cancel model for the catalog.
pub open spec fn cm(id: Seq<char>, eligible: Seq<RoleName>) -> BonusCardModel {
    BonusCardModel::Cancel { id, eligible }
}

/// The 18-card bonus catalog: two build cards per role and two cancel cards
/// per cancellable scenario.
pub open spec fn bonus_catalog() -> Seq<BonusCardModel> {
    seq![
        BonusCardModel::Build { role: RoleName::Man },
        BonusCardModel::Build { role: RoleName::Man },
        BonusCardModel::Build { role: RoleName::Hab },
        BonusCardModel::Build { role: RoleName::Hab },
        BonusCardModel::Build { role: RoleName::Joul },
        BonusCardModel::Build { role: RoleName::Joul },
        cm("Systemic"@, seq![RoleName::Hab, RoleName::Joul, RoleName::Man]),
        cm("Systemic"@, seq![RoleName::Hab, RoleName::Joul, RoleName::Man]),
        cm("Quake"@, seq![RoleName::Joul, RoleName::Man]),
        cm("Quake"@, seq![RoleName::Joul, RoleName::Man]),
        cm("Meteor"@, seq![RoleName::Joul, RoleName::Man]),
        cm("Meteor"@, seq![RoleName::Joul, RoleName::Man]),
        cm("Mutiny"@, seq![RoleName::Hab]),
        cm("Mutiny"@, seq![RoleName::Hab]),
        cm("Raiding"@, seq![RoleName::Hab]),
        cm("Raiding"@, seq![RoleName::Hab]),
        cm("Spacecold"@, seq![RoleName::Hab]),
        cm("Spacecold"@, seq![RoleName::Hab]),
    ]
}

/// The starting registry: one facility per role, nothing else.
pub open spec fn initial_roles() -> Roles {
    Roles {
        hab: Role::initial(RoleName::Hab),
        joul: Role::initial(RoleName::Joul),
        man: Role::initial(RoleName::Man),
    }
}

/// Every catalog card charges each cost role at most once.
pub proof fn lemma_event_catalog_wf()
    ensures
        all_events_wf(event_catalog()),
{
    assert forall|i: int| 0 <= i < event_catalog().len() implies event_model_wf(
        #[trigger] event_catalog()[i],
    ) by {
        if i < 9 {
        } else if i < 18 {
        } else {
        }
    }
}

fn pairs1(a0: RoleName, c0: RoleName) -> (v: Vec<(RoleName, RoleName)>)
    ensures
        v@ == seq![(a0, c0)],
{
    let mut v: Vec<(RoleName, RoleName)> = Vec::new();
    v.push((a0, c0));
    proof {
        assert(v@ =~= seq![(a0, c0)]);
    }
    v
}

fn pairs2(a0: RoleName, c0: RoleName, a1: RoleName, c1: RoleName) -> (v: Vec<
    (RoleName, RoleName),
>)
    ensures
        v@ == seq![(a0, c0), (a1, c1)],
{
    let mut v: Vec<(RoleName, RoleName)> = Vec::new();
    v.push((a0, c0));
    v.push((a1, c1));
    proof {
        assert(v@ =~= seq![(a0, c0), (a1, c1)]);
    }
    v
}

fn pairs3(a0: RoleName, c0: RoleName, a1: RoleName, c1: RoleName, a2: RoleName, c2: RoleName) -> (v:
    Vec<(RoleName, RoleName)>)
    ensures
        v@ == seq![(a0, c0), (a1, c1), (a2, c2)],
{
    let mut v: Vec<(RoleName, RoleName)> = Vec::new();
    v.push((a0, c0));
    v.push((a1, c1));
    v.push((a2, c2));
    proof {
        assert(v@ =~= seq![(a0, c0), (a1, c1), (a2, c2)]);
    }
    v
}

fn roles1(r0: RoleName) -> (v: Vec<RoleName>)
    ensures
        v@ == seq![r0],
{
    let mut v: Vec<RoleName> = Vec::new();
    v.push(r0);
    proof {
        assert(v@ =~= seq![r0]);
    }
    v
}

fn roles2(r0: RoleName, r1: RoleName) -> (v: Vec<RoleName>)
    ensures
        v@ == seq![r0, r1],
{
    let mut v: Vec<RoleName> = Vec::new();
    v.push(r0);
    v.push(r1);
    proof {
        assert(v@ =~= seq![r0, r1]);
    }
    v
}

fn roles3(r0: RoleName, r1: RoleName, r2: RoleName) -> (v: Vec<RoleName>)
    ensures
        v@ == seq![r0, r1, r2],
{
    let mut v: Vec<RoleName> = Vec::new();
    v.push(r0);
    v.push(r1);
    v.push(r2);
    proof {
        assert(v@ =~= seq![r0, r1, r2]);
    }
    v
}

fn problem_card(
    id: &str,
    pairs: Vec<(RoleName, RoleName)>,
    damage_override: Option<RoleName>,
) -> (c: EventCard)
    ensures
        c@ == pm(id@, pairs@, damage_override),
{
    proof {
        broadcast use vstd::string::to_string_from_display_ensures_for_str;

    }
    EventCard::Problem(id.to_string(), pairs, damage_override, None)
}

fn cancel_card(id: &str, eligible: Vec<RoleName>) -> (c: BonusCard)
    ensures
        c@ == cm(id@, eligible@),
{
    proof {
        broadcast use vstd::string::to_string_from_display_ensures_for_str;

    }
    BonusCard::Cancel(id.to_string(), eligible)
}

impl GameState {
    /// The starting state: shuffled event, bonus and damage decks drawn from
    /// the fixed catalogs, empty in-play sets, one facility per role, and
    /// both counters at zero.
    #[verifier::rlimit(100)]
    pub fn new<S: Shuffler>(s: &mut S) -> (gs: GameState)
        ensures
            gs.wf(),
            gs.year_number == 0,
            gs.infra_damage == 0,
            gs.roles == initial_roles(),
            gs.event_cards_in_play@.len() == 0,
            gs.bonus_cards_in_play@.len() == 0,
            event_models(gs.event_deck@).to_multiset() == event_catalog().to_multiset(),
            gs.event_deck@.len() == 27,
            bonus_models(gs.bonus_deck@).to_multiset() == bonus_catalog().to_multiset(),
            gs.bonus_deck@.len() == 18,
            gs.damage_deck@.to_multiset() == fresh_damage_deck().to_multiset(),
            gs.damage_deck@.len() == 9,
    {
        let mut event_deck: Vec<EventCard> = Vec::new();
        event_deck.push(
            problem_card("Spacecold", pairs1(RoleName::Hab, RoleName::Hab), Some(RoleName::Hab)),
        );
        event_deck.push(
            problem_card("Spacecold", pairs1(RoleName::Hab, RoleName::Man), Some(RoleName::Hab)),
        );
        event_deck.push(
            problem_card("Spacecold", pairs1(RoleName::Hab, RoleName::Joul), Some(RoleName::Hab)),
        );
        event_deck.push(problem_card("Mutiny", pairs1(RoleName::Hab, RoleName::Hab), None));
        event_deck.push(problem_card("Mutiny", pairs1(RoleName::Hab, RoleName::Hab), None));
        event_deck.push(problem_card("Mutiny", pairs1(RoleName::Hab, RoleName::Hab), None));
        event_deck.push(problem_card("Nanobug", pairs1(RoleName::Man, RoleName::Joul), None));
        event_deck.push(problem_card("Nanobug", pairs1(RoleName::Man, RoleName::Hab), None));
        event_deck.push(problem_card("Nanobug", pairs1(RoleName::Man, RoleName::Man), None));
        event_deck.push(problem_card("Raiding", pairs1(RoleName::Hab, RoleName::Joul), None));
        event_deck.push(problem_card("Raiding", pairs1(RoleName::Hab, RoleName::Hab), None));
        event_deck.push(problem_card("Raiding", pairs1(RoleName::Hab, RoleName::Man), None));
        event_deck.push(
            problem_card("Surge", pairs1(RoleName::Joul, RoleName::Joul), Some(RoleName::Joul)),
        );
        event_deck.push(
            problem_card("Surge", pairs1(RoleName::Joul, RoleName::Hab), Some(RoleName::Joul)),
        );
        event_deck.push(
            problem_card("Surge", pairs1(RoleName::Joul, RoleName::Man), Some(RoleName::Joul)),
        );
        event_deck.push(
            problem_card(
                "Meteor",
                pairs2(RoleName::Joul, RoleName::Man, RoleName::Man, RoleName::Hab),
                None,
            ),
        );
        event_deck.push(
            problem_card(
                "Meteor",
                pairs2(RoleName::Joul, RoleName::Hab, RoleName::Man, RoleName::Joul),
                None,
            ),
        );
        event_deck.push(
            problem_card(
                "Meteor",
                pairs2(RoleName::Joul, RoleName::Joul, RoleName::Man, RoleName::Man),
                None,
            ),
        );
        event_deck.push(
            problem_card(
                "Quake",
                pairs2(RoleName::Joul, RoleName::Man, RoleName::Man, RoleName::Hab),
                None,
            ),
        );
        event_deck.push(
            problem_card(
                "Quake",
                pairs2(RoleName::Joul, RoleName::Hab, RoleName::Man, RoleName::Joul),
                None,
            ),
        );
        event_deck.push(
            problem_card(
                "Quake",
                pairs2(RoleName::Joul, RoleName::Joul, RoleName::Man, RoleName::Man),
                None,
            ),
        );
        event_deck.push(
            problem_card(
                "Systemic",
                pairs3(
                    RoleName::Joul,
                    RoleName::Joul,
                    RoleName::Man,
                    RoleName::Man,
                    RoleName::Hab,
                    RoleName::Hab,
                ),
                None,
            ),
        );
        event_deck.push(
            problem_card(
                "Systemic",
                pairs3(
                    RoleName::Joul,
                    RoleName::Man,
                    RoleName::Man,
                    RoleName::Hab,
                    RoleName::Hab,
                    RoleName::Joul,
                ),
                None,
            ),
        );
        event_deck.push(
            problem_card(
                "Systemic",
                pairs3(
                    RoleName::Joul,
                    RoleName::Hab,
                    RoleName::Man,
                    RoleName::Joul,
                    RoleName::Hab,
                    RoleName::Man,
                ),
                None,
            ),
        );
        event_deck.push(EventCard::NoProblem);
        event_deck.push(EventCard::NoProblem);
        event_deck.push(EventCard::NoProblem);
        proof {
            assert(event_models(event_deck@) =~= event_catalog());
        }
        let ghost event_built = event_deck@;
        s.shuffle(&mut event_deck);

        let mut bonus_deck: Vec<BonusCard> = Vec::new();
        bonus_deck.push(BonusCard::Build(RoleName::Man));
        bonus_deck.push(BonusCard::Build(RoleName::Man));
        bonus_deck.push(BonusCard::Build(RoleName::Hab));
        bonus_deck.push(BonusCard::Build(RoleName::Hab));
        bonus_deck.push(BonusCard::Build(RoleName::Joul));
        bonus_deck.push(BonusCard::Build(RoleName::Joul));
        bonus_deck.push(cancel_card("Systemic", roles3(RoleName::Hab, RoleName::Joul, RoleName::Man)));
        bonus_deck.push(cancel_card("Systemic", roles3(RoleName::Hab, RoleName::Joul, RoleName::Man)));
        bonus_deck.push(cancel_card("Quake", roles2(RoleName::Joul, RoleName::Man)));
        bonus_deck.push(cancel_card("Quake", roles2(RoleName::Joul, RoleName::Man)));
        bonus_deck.push(cancel_card("Meteor", roles2(RoleName::Joul, RoleName::Man)));
        bonus_deck.push(cancel_card("Meteor", roles2(RoleName::Joul, RoleName::Man)));
        bonus_deck.push(cancel_card("Mutiny", roles1(RoleName::Hab)));
        bonus_deck.push(cancel_card("Mutiny", roles1(RoleName::Hab)));
        bonus_deck.push(cancel_card("Raiding", roles1(RoleName::Hab)));
        bonus_deck.push(cancel_card("Raiding", roles1(RoleName::Hab)));
        bonus_deck.push(cancel_card("Spacecold", roles1(RoleName::Hab)));
        bonus_deck.push(cancel_card("Spacecold", roles1(RoleName::Hab)));
        proof {
            assert(bonus_models(bonus_deck@) =~= bonus_catalog());
        }
        let ghost bonus_built = bonus_deck@;
        s.shuffle(&mut bonus_deck);

        let mut damage_deck: Vec<DamageCard> = Vec::new();
        damage_deck.push(DamageCard::InfrastructureDamage);
        damage_deck.push(DamageCard::InfrastructureDamage);
        damage_deck.push(DamageCard::InfrastructureDamage);
        damage_deck.push(DamageCard::FacilityDamage(RoleName::Hab));
        damage_deck.push(DamageCard::FacilityDamage(RoleName::Man));
        damage_deck.push(DamageCard::FacilityDamage(RoleName::Joul));
        damage_deck.push(DamageCard::FacilityDestruction(RoleName::Hab));
        damage_deck.push(DamageCard::FacilityDestruction(RoleName::Man));
        damage_deck.push(DamageCard::FacilityDestruction(RoleName::Joul));
        proof {
            assert(damage_deck@ =~= fresh_damage_deck());
        }
        s.shuffle(&mut damage_deck);

        let roles = Roles {
            hab: Role {
                name: RoleName::Hab,
                facilities: 1,
                facilities_damaged: 0,
                acted: false,
                resources: 0,
            },
            joul: Role {
                name: RoleName::Joul,
                facilities: 1,
                facilities_damaged: 0,
                acted: false,
                resources: 0,
            },
            man: Role {
                name: RoleName::Man,
                facilities: 1,
                facilities_damaged: 0,
                acted: false,
                resources: 0,
            },
        };

        let gs = GameState {
            bonus_cards_in_play: Vec::new(),
            event_deck,
            event_cards_in_play: Vec::new(),
            bonus_deck,
            damage_deck,
            year_number: 0,
            roles,
            infra_damage: 0,
        };
        proof {
            broadcast use vstd::seq_lib::group_to_multiset_ensures;

            lemma_map_values_multiset(gs.event_deck@, event_built, |c: EventCard| c@);
            lemma_map_values_multiset(gs.bonus_deck@, bonus_built, |c: BonusCard| c@);
            assert(event_models(gs.event_deck@).to_multiset() == event_catalog().to_multiset());
            assert(bonus_models(gs.bonus_deck@).to_multiset() == bonus_catalog().to_multiset());
            lemma_event_catalog_wf();
            lemma_all_events_wf_multiset(event_catalog(), event_models(gs.event_deck@));
            assert(gs.event_deck@.len() == event_models(gs.event_deck@).to_multiset().len());
            assert(event_catalog().len() == event_catalog().to_multiset().len());
            assert(gs.bonus_deck@.len() == bonus_models(gs.bonus_deck@).to_multiset().len());
            assert(bonus_catalog().len() == bonus_catalog().to_multiset().len());
            assert(gs.damage_deck@.len() == gs.damage_deck@.to_multiset().len());
            assert(fresh_damage_deck().len() == fresh_damage_deck().to_multiset().len());
            assert(event_models(gs.event_cards_in_play@) =~= Seq::<EventCardModel>::empty());
        }
        gs
    }
}

} // verus!
