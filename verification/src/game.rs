//! The game state and the yearly turn-resolution engine: deck management,
//! event resolution and build allocation, sequenced by `play_year`.

use vstd::prelude::*;
use crate::cards::{
    EventCardId,
    BonusCard, BonusCardModel, DamageCard, EventCard, EventCardModel, RoleName, all_attach,
    all_events_wf, attaches, bonus_models, event_model_wf, cost_count, dealt_problems, event_models,
    is_affected, last_build_index, last_cancel_index,
    lemma_dealt_problems_len, lemma_dealt_problems_step, lemma_dealt_problems_sub,
    lemma_cost_count_take_le, lemma_cost_count_take_step, lemma_distinct_costs_bound,
    lemma_last_build_index, lemma_last_build_take_step, lemma_last_cancel_index,
    lemma_last_cancel_take_step,
};
use crate::roles::{Role, Roles};
use crate::shuffle::Shuffler;

verus! {

/// The aggregate owning the decks, the in-play sets, the role registry and
/// the global counters.
#[derive(Debug, Clone, PartialEq, Eq)]
pub struct GameState {
    pub bonus_cards_in_play: Vec<BonusCard>,
    pub event_deck: Vec<EventCard>,
    pub event_cards_in_play: Vec<EventCard>,
    pub bonus_deck: Vec<BonusCard>,
    pub damage_deck: Vec<DamageCard>,
    pub year_number: usize,
    pub roles: Roles,
    pub infra_damage: usize,
}

/// The damage target: the override role when present, else the role named by
/// the damage card itself.
pub open spec fn damage_target(override_role: Option<RoleName>, card_role: RoleName) -> RoleName {
    match override_role {
        Some(r) => r,
        None => card_role,
    }
}

/// The fixed nine-card damage deck: three infrastructure hits, one facility
/// damage and one facility destruction per role.
pub open spec fn fresh_damage_deck() -> Seq<DamageCard> {
    seq![
        DamageCard::InfrastructureDamage,
        DamageCard::InfrastructureDamage,
        DamageCard::InfrastructureDamage,
        DamageCard::FacilityDamage(RoleName::Hab),
        DamageCard::FacilityDamage(RoleName::Man),
        DamageCard::FacilityDamage(RoleName::Joul),
        DamageCard::FacilityDestruction(RoleName::Hab),
        DamageCard::FacilityDestruction(RoleName::Man),
        DamageCard::FacilityDestruction(RoleName::Joul),
    ]
}

/// `drawn` is a possible sequence of successive damage draws that turns the
/// deck `deck0` into `deck_fin`: each draw pops the back of the current deck,
/// and whenever the deck is empty a fresh shuffled nine-card deck (some
/// permutation of `fresh_damage_deck`) takes its place first. The draw itself
/// therefore never fails.
pub open spec fn draws_ok(
    deck0: Seq<DamageCard>,
    drawn: Seq<DamageCard>,
    deck_fin: Seq<DamageCard>,
) -> bool
    decreases drawn.len(),
{
    if drawn.len() == 0 {
        deck_fin == deck0
    } else if deck0.len() > 0 {
        drawn.first() == deck0.last() && draws_ok(deck0.drop_last(), drawn.drop_first(), deck_fin)
    } else {
        exists|fresh: Seq<DamageCard>|
            {
                &&& #[trigger] fresh.to_multiset() == fresh_damage_deck().to_multiset()
                &&& drawn.first() == fresh.last()
                &&& draws_ok(fresh.drop_last(), drawn.drop_first(), deck_fin)
            }
    }
}

/// The damage deck's length after `k` draws against a deck of `n` cards: one
/// less per draw, reset to eight whenever a draw finds the deck empty (the
/// fresh nine-card deck loses its first card at once).
pub open spec fn damage_len_after(n: nat, k: nat) -> nat
    decreases k,
{
    if k == 0 {
        n
    } else if n == 0 {
        damage_len_after(8, (k - 1) as nat)
    } else {
        damage_len_after((n - 1) as nat, (k - 1) as nat)
    }
}

/// One more draw at the end of a draw sequence.
pub proof fn lemma_draws_ok_push(
    deck0: Seq<DamageCard>,
    drawn: Seq<DamageCard>,
    mid: Seq<DamageCard>,
    c: DamageCard,
    fin: Seq<DamageCard>,
)
    requires
        draws_ok(deck0, drawn, mid),
        (mid.len() > 0 && c == mid.last() && fin == mid.drop_last()) || (mid.len() == 0 && exists|
            fresh: Seq<DamageCard>,
        |
            #[trigger] fresh.to_multiset() == fresh_damage_deck().to_multiset() && c == fresh.last()
                && fin == fresh.drop_last()),
    ensures
        draws_ok(deck0, drawn.push(c), fin),
    decreases drawn.len(),
{
    assert(drawn.push(c).first() == if drawn.len() == 0 {
        c
    } else {
        drawn.first()
    });
    assert(drawn.push(c).drop_first() =~= if drawn.len() == 0 {
        Seq::<DamageCard>::empty()
    } else {
        drawn.drop_first().push(c)
    });
    if drawn.len() == 0 {
        if deck0.len() > 0 {
            assert(draws_ok(deck0.drop_last(), Seq::<DamageCard>::empty(), fin));
        } else {
            let fresh = choose|fresh: Seq<DamageCard>|
                #[trigger] fresh.to_multiset() == fresh_damage_deck().to_multiset() && c
                    == fresh.last() && fin == fresh.drop_last();
            assert(draws_ok(fresh.drop_last(), Seq::<DamageCard>::empty(), fin));
        }
    } else {
        if deck0.len() > 0 {
            lemma_draws_ok_push(deck0.drop_last(), drawn.drop_first(), mid, c, fin);
        } else {
            let fresh = choose|fresh: Seq<DamageCard>|
                {
                    &&& #[trigger] fresh.to_multiset() == fresh_damage_deck().to_multiset()
                    &&& drawn.first() == fresh.last()
                    &&& draws_ok(fresh.drop_last(), drawn.drop_first(), mid)
                };
            lemma_draws_ok_push(fresh.drop_last(), drawn.drop_first(), mid, c, fin);
            assert(drawn.push(c).first() == fresh.last());
        }
    }
}

/// One more draw at the end of a draw sequence, on the deck's length.
pub proof fn lemma_damage_len_after_push(n: nat, k: nat)
    ensures
        damage_len_after(n, k + 1) == if damage_len_after(n, k) == 0 {
            8nat
        } else {
            (damage_len_after(n, k) - 1) as nat
        },
    decreases k,
{
    if k == 0 {
        assert(damage_len_after(n, 0) == n);
        if n == 0 {
            assert(damage_len_after(n, 1) == damage_len_after(8, 0));
        } else {
            assert(damage_len_after(n, 1) == damage_len_after((n - 1) as nat, 0));
        }
    } else {
        if n == 0 {
            lemma_damage_len_after_push(8, (k - 1) as nat);
            assert(damage_len_after(n, k + 1) == damage_len_after(8, k));
            assert(damage_len_after(n, k) == damage_len_after(8, (k - 1) as nat));
        } else {
            lemma_damage_len_after_push((n - 1) as nat, (k - 1) as nat);
            assert(damage_len_after(n, k + 1) == damage_len_after((n - 1) as nat, k));
            assert(damage_len_after(n, k) == damage_len_after((n - 1) as nat, (k - 1) as nat));
        }
    }
}

/// Applying `damage_card` cannot mark more units damaged than the target
/// owns: the struck role still has an undamaged facility.
pub open spec fn damage_safe(
    roles: Roles,
    override_role: Option<RoleName>,
    damage_card: DamageCard,
) -> bool {
    match damage_card {
        DamageCard::InfrastructureDamage => true,
        DamageCard::FacilityDamage(cr) => {
            let t = roles.spec_get(damage_target(override_role, cr));
            t.facilities_damaged < t.facilities
        },
        DamageCard::FacilityDestruction(cr) => {
            let t = roles.spec_get(damage_target(override_role, cr));
            t.facilities == 0 || t.facilities_damaged < t.facilities
        },
    }
}

/// Every cost role of the pairs currently holds at least one resource.
pub open spec fn can_pay(roles: Roles, pairs: Seq<(RoleName, RoleName)>) -> bool {
    forall|i: int| 0 <= i < pairs.len() ==> roles.spec_get((#[trigger] pairs[i]).1).resources > 0
}

/// A result entry of the unacted-role listing is truthful: the role has not
/// acted and the count is its facility count.
pub open spec fn entry_ok(roles: Roles, e: (RoleName, usize)) -> bool {
    !roles.spec_get(e.0).acted && e.1 == roles.spec_get(e.0).facilities
}

/// One role after paying its share of a problem: one resource per pair that
/// charges it, and it has acted if some pair names it as affected.
pub open spec fn paid_role(r: Role, pairs: Seq<(RoleName, RoleName)>, n: RoleName) -> Role {
    Role {
        resources: (r.resources - cost_count(pairs, n)) as usize,
        acted: r.acted || is_affected(pairs, n),
        ..r
    }
}

/// The whole registry after a problem is paid off.
pub open spec fn paid_roles(roles: Roles, pairs: Seq<(RoleName, RoleName)>) -> Roles {
    Roles {
        hab: paid_role(roles.hab, pairs, RoleName::Hab),
        joul: paid_role(roles.joul, pairs, RoleName::Joul),
        man: paid_role(roles.man, pairs, RoleName::Man),
    }
}

/// The registry and global counter after one damage card strikes.
pub open spec fn damaged_state(
    roles: Roles,
    infra: usize,
    override_role: Option<RoleName>,
    card: DamageCard,
) -> (Roles, usize) {
    match card {
        DamageCard::InfrastructureDamage => (roles, (infra + 1) as usize),
        DamageCard::FacilityDamage(cr) => {
            let t = damage_target(override_role, cr);
            let pre = roles.spec_get(t);
            (
                roles.spec_set(
                    t,
                    Role { facilities_damaged: (pre.facilities_damaged + 1) as usize, ..pre },
                ),
                infra,
            )
        },
        DamageCard::FacilityDestruction(cr) => {
            let t = damage_target(override_role, cr);
            let pre = roles.spec_get(t);
            (
                roles.spec_set(
                    t,
                    if pre.facilities > 1 {
                        Role { facilities: (pre.facilities - 1) as usize, ..pre }
                    } else if pre.facilities == 1 {
                        Role { facilities_damaged: (pre.facilities_damaged + 1) as usize, ..pre }
                    } else {
                        pre
                    },
                ),
                infra,
            )
        },
    }
}

/// What resolving one snapshot card does to the roles, the bonus cards in
/// play and the infrastructure counter: cancel with the last matching bonus
/// card (its last eligible role acts), else pay if every cost role can, else
/// apply the attached damage. Cards without damage attached, and quiet cards,
/// do nothing.
pub open spec fn resolve_card(
    roles: Roles,
    bonus: Seq<BonusCardModel>,
    infra: usize,
    c: EventCardModel,
) -> (Roles, Seq<BonusCardModel>, usize) {
    match c {
        EventCardModel::Problem { id, pairs, damage_override, damage: Some(d) } => {
            let li = last_cancel_index(bonus, id);
            if li >= 0 && (bonus[li] matches BonusCardModel::Cancel { eligible, .. }
                && eligible.len() > 0) {
                let eligible = bonus[li]->Cancel_eligible;
                let role = eligible.last();
                (
                    roles.spec_set(role, Role { acted: true, ..roles.spec_get(role) }),
                    bonus.remove(li),
                    infra,
                )
            } else if can_pay(roles, pairs) {
                (paid_roles(roles, pairs), bonus, infra)
            } else {
                let (r2, i2) = damaged_state(roles, infra, damage_override, d);
                (r2, bonus, i2)
            }
        },
        _ => (roles, bonus, infra),
    }
}

/// One whole resolution pass, card by card in snapshot order.
pub open spec fn resolve_pass(
    roles: Roles,
    bonus: Seq<BonusCardModel>,
    infra: usize,
    cards: Seq<EventCardModel>,
) -> (Roles, Seq<BonusCardModel>, usize)
    decreases cards.len(),
{
    if cards.len() == 0 {
        (roles, bonus, infra)
    } else {
        let (r1, b1, i1) = resolve_card(roles, bonus, infra, cards.first());
        resolve_pass(r1, b1, i1, cards.drop_first())
    }
}

impl GameState {
    /// The construction invariant: roles in bounds and under their own names,
    /// and every event card, waiting or in play, charging each cost role at
    /// most once.
    pub open spec fn wf(self) -> bool {
        &&& self.roles.wf()
        &&& all_events_wf(event_models(self.event_deck@))
        &&& all_events_wf(event_models(self.event_cards_in_play@))
    }

    /// Pops one card (if any) from the bonus deck into play. A no-op, not an
    /// error, when the deck is empty.
    pub fn deal_bonus_card(&mut self)
        ensures
            old(self).bonus_deck@.len() == 0 ==> *final(self) == *old(self),
            old(self).bonus_deck@.len() > 0 ==> {
                &&& final(self).bonus_deck@ == old(self).bonus_deck@.drop_last()
                &&& final(self).bonus_cards_in_play@ == old(self).bonus_cards_in_play@.push(
                    old(self).bonus_deck@.last(),
                )
            },
            final(self).event_deck == old(self).event_deck,
            final(self).event_cards_in_play == old(self).event_cards_in_play,
            final(self).damage_deck == old(self).damage_deck,
            final(self).year_number == old(self).year_number,
            final(self).roles == old(self).roles,
            final(self).infra_damage == old(self).infra_damage,
    {
        if self.bonus_deck.len() > 0 {
            match self.bonus_deck.pop() {
                Some(card) => self.bonus_cards_in_play.push(card),
                None => {},
            }
        }
    }

    /// Replaces the damage deck with a fresh nine-card set, shuffled.
    pub fn reinit_damage<S: Shuffler>(&mut self, s: &mut S)
        ensures
            final(self).damage_deck@.to_multiset() == fresh_damage_deck().to_multiset(),
            final(self).damage_deck@.len() == 9,
            final(self).bonus_cards_in_play == old(self).bonus_cards_in_play,
            final(self).event_deck == old(self).event_deck,
            final(self).event_cards_in_play == old(self).event_cards_in_play,
            final(self).bonus_deck == old(self).bonus_deck,
            final(self).year_number == old(self).year_number,
            final(self).roles == old(self).roles,
            final(self).infra_damage == old(self).infra_damage,
    {
        let mut damage_deck: Vec<DamageCard> = Vec::new();
        damage_deck.push(DamageCard::InfrastructureDamage);
        damage_deck.push(DamageCard::InfrastructureDamage);
        damage_deck.push(DamageCard::InfrastructureDamage);
        damage_deck.push(DamageCard::FacilityDamage(RoleName::Hab));
        damage_deck.push(DamageCard::FacilityDamage(RoleName::Man));
        damage_deck.push(DamageCard::FacilityDamage(RoleName::Joul));
        damage_deck.push(DamageCard::FacilityDestruction(RoleName::Hab));
        damage_deck.push(DamageCard::FacilityDestruction(RoleName::Man));
        damage_deck.push(DamageCard::FacilityDestruction(RoleName::Joul));
        proof {
            assert(damage_deck@ =~= fresh_damage_deck());
        }
        s.shuffle(&mut damage_deck);
        proof {
            broadcast use vstd::seq_lib::group_to_multiset_ensures;

            assert(damage_deck@.len() == damage_deck@.to_multiset().len());
            assert(fresh_damage_deck().len() == fresh_damage_deck().to_multiset().len());
        }
        self.damage_deck = damage_deck;
    }

    /// Draws one damage card. When the deck is empty it is first replaced by
    /// a fresh shuffled nine-card deck, so the draw itself never fails.
    pub fn draw_damage_card<S: Shuffler>(&mut self, s: &mut S) -> (c: DamageCard)
        ensures
            old(self).damage_deck@.len() > 0 ==> {
                &&& c == old(self).damage_deck@.last()
                &&& final(self).damage_deck@ == old(self).damage_deck@.drop_last()
            },
            old(self).damage_deck@.len() == 0 ==> {
                &&& final(self).damage_deck@.len() == 8
                &&& final(self).damage_deck@.to_multiset().insert(c)
                    == fresh_damage_deck().to_multiset()
            },
            final(self).bonus_cards_in_play == old(self).bonus_cards_in_play,
            final(self).event_deck == old(self).event_deck,
            final(self).event_cards_in_play == old(self).event_cards_in_play,
            final(self).bonus_deck == old(self).bonus_deck,
            final(self).year_number == old(self).year_number,
            final(self).roles == old(self).roles,
            final(self).infra_damage == old(self).infra_damage,
    {
        let ghost was_empty = self.damage_deck@.len() == 0;
        if self.damage_deck.len() == 0 {
            self.reinit_damage(s);
        }
        let ghost full = self.damage_deck@;
        let c = match self.damage_deck.pop() {
            Some(card) => card,
            None => {
                proof {
                    assert(false);
                }
                DamageCard::InfrastructureDamage
            },
        };
        proof {
            if was_empty {
                broadcast use vstd::seq_lib::group_to_multiset_ensures;

                assert(full.drop_last().push(c) =~= full);
                assert(full.drop_last().push(c).to_multiset() == full.drop_last().to_multiset().insert(c));
            }
        }
        c
    }

    /// True iff every role still holds at least one resource.
    pub fn resources_left_to_build(&self) -> (r: bool)
        ensures
            r == self.roles.all_have_resources(),
    {
        self.roles.hab.resources > 0 && self.roles.joul.resources > 0
            && self.roles.man.resources > 0
    }

    /// How many event cards this year deals: one more every third year,
    /// starting at two.
    pub fn get_num_event_cards(&self) -> (n: usize)
        ensures
            n == self.year_number / 3 + 2,
    {
        self.year_number / 3 + 2
    }

    /// Removes the bonus card at `pos` from play and marks `role` acted.
    pub fn spend_cancel_card(&mut self, role: RoleName, pos: usize)
        requires
            pos < old(self).bonus_cards_in_play@.len(),
        ensures
            final(self).bonus_cards_in_play@ == old(self).bonus_cards_in_play@.remove(pos as int),
            final(self).roles == old(self).roles.spec_set(
                role,
                Role { acted: true, ..old(self).roles.spec_get(role) },
            ),
            final(self).event_deck == old(self).event_deck,
            final(self).event_cards_in_play == old(self).event_cards_in_play,
            final(self).bonus_deck == old(self).bonus_deck,
            final(self).damage_deck == old(self).damage_deck,
            final(self).year_number == old(self).year_number,
            final(self).infra_damage == old(self).infra_damage,
            old(self).roles.wf() ==> final(self).roles.wf(),
            old(self).roles.damage_within() ==> final(self).roles.damage_within(),
    {
        self.bonus_cards_in_play.remove(pos);
        let r = self.roles.get_mut(role);
        r.acted = true;
    }

    /// Applies one damage card, directed at the override role if present,
    /// else at the role the card names. Infrastructure damage raises the
    /// global counter; facility damage marks one unit damaged; facility
    /// destruction removes one unit, or marks damage if only one remains.
    pub fn do_damage_card(&mut self, override_role: Option<RoleName>, damage_card: DamageCard)
        requires
            damage_card is InfrastructureDamage ==> old(self).infra_damage < usize::MAX,
            damage_card matches DamageCard::FacilityDamage(cr) ==> old(self).roles.spec_get(
                damage_target(override_role, cr),
            ).facilities_damaged < usize::MAX,
            damage_card matches DamageCard::FacilityDestruction(cr) ==> old(self).roles.spec_get(
                damage_target(override_role, cr),
            ).facilities_damaged < usize::MAX,
        ensures
            damage_card is InfrastructureDamage ==> {
                &&& final(self).infra_damage == old(self).infra_damage + 1
                &&& final(self).roles == old(self).roles
            },
            damage_card matches DamageCard::FacilityDamage(cr) ==> {
                let t = damage_target(override_role, cr);
                let pre = old(self).roles.spec_get(t);
                &&& final(self).roles == old(self).roles.spec_set(
                    t,
                    Role { facilities_damaged: (pre.facilities_damaged + 1) as usize, ..pre },
                )
                &&& final(self).infra_damage == old(self).infra_damage
            },
            damage_card matches DamageCard::FacilityDestruction(cr) ==> {
                let t = damage_target(override_role, cr);
                let pre = old(self).roles.spec_get(t);
                &&& final(self).roles == old(self).roles.spec_set(
                    t,
                    if pre.facilities > 1 {
                        Role { facilities: (pre.facilities - 1) as usize, ..pre }
                    } else if pre.facilities == 1 {
                        Role { facilities_damaged: (pre.facilities_damaged + 1) as usize, ..pre }
                    } else {
                        pre
                    },
                )
                &&& final(self).infra_damage == old(self).infra_damage
            },
            final(self).bonus_cards_in_play == old(self).bonus_cards_in_play,
            final(self).event_deck == old(self).event_deck,
            final(self).event_cards_in_play == old(self).event_cards_in_play,
            final(self).bonus_deck == old(self).bonus_deck,
            final(self).damage_deck == old(self).damage_deck,
            final(self).year_number == old(self).year_number,
            old(self).roles.wf() ==> final(self).roles.wf(),
            old(self).roles.damage_within() && damage_safe(
                old(self).roles,
                override_role,
                damage_card,
            ) ==> final(self).roles.damage_within(),
    {
        match damage_card {
            DamageCard::InfrastructureDamage => {
                self.infra_damage = self.infra_damage + 1;
            },
            DamageCard::FacilityDamage(card_role) => {
                let damage_type = match override_role {
                    Some(override_rolename) => override_rolename,
                    None => card_role,
                };
                let role = self.roles.get_mut(damage_type);
                role.facilities_damaged = role.facilities_damaged + 1;
            },
            DamageCard::FacilityDestruction(card_role) => {
                let damage_type = match override_role {
                    Some(override_rolename) => override_rolename,
                    None => card_role,
                };
                let role = self.roles.get_mut(damage_type);
                if role.facilities > 1 {
                    role.facilities = role.facilities - 1;
                } else if role.facilities == 1 {
                    role.facilities_damaged = role.facilities_damaged + 1;
                }
            },
        }
    }

    /// True iff every cost role named by the card's pairs can put up one
    /// resource; trivially true of a no-problem card.
    pub fn can_deal_with_event(&self, event_card: &EventCard) -> (r: bool)
        ensures
            r == match event_card@ {
                EventCardModel::Problem { pairs, .. } => can_pay(self.roles, pairs),
                EventCardModel::NoProblem => true,
            },
    {
        let mut can_deal = true;
        match event_card {
            EventCard::Problem(_, role_costs, _, _) => {
                let ghost pairs = role_costs@;
                let mut i: usize = 0;
                while i < role_costs.len()
                    invariant
                        i <= pairs.len(),
                        role_costs@ == pairs,
                        can_deal == (forall|k: int|
                            0 <= k < i ==> self.roles.spec_get(
                                (#[trigger] pairs[k]).1,
                            ).resources > 0),
                    decreases pairs.len() - i,
                {
                    let cost = role_costs[i].1;
                    can_deal = can_deal && self.roles.get(cost).resources > 0;
                    i = i + 1;
                }
            },
            EventCard::NoProblem => {},
        }
        can_deal
    }

    /// Pays a problem card off: each pair charges its cost role one resource
    /// and marks its affected role acted. A no-problem card has no effect.
    #[verifier::rlimit(50)]
    pub fn deal_with_event(&mut self, event_card: &EventCard)
        requires
            (event_card@ matches EventCardModel::Problem { pairs, .. } ==> forall|r: RoleName|
                cost_count(pairs, r) <= old(self).roles.spec_get(r).resources),
        ensures
            (event_card@ matches EventCardModel::Problem { pairs, .. } ==> forall|n: RoleName|
                final(self).roles.spec_get(n) == (Role {
                    resources: (old(self).roles.spec_get(n).resources - cost_count(pairs, n)) as usize,
                    acted: old(self).roles.spec_get(n).acted || is_affected(pairs, n),
                    ..old(self).roles.spec_get(n)
                })),
            event_card@ is NoProblem ==> *final(self) == *old(self),
            final(self).bonus_cards_in_play == old(self).bonus_cards_in_play,
            final(self).event_deck == old(self).event_deck,
            final(self).event_cards_in_play == old(self).event_cards_in_play,
            final(self).bonus_deck == old(self).bonus_deck,
            final(self).damage_deck == old(self).damage_deck,
            final(self).year_number == old(self).year_number,
            final(self).infra_damage == old(self).infra_damage,
            old(self).roles.wf() ==> final(self).roles.wf(),
            old(self).roles.damage_within() ==> final(self).roles.damage_within(),
    {
        match event_card {
            EventCard::Problem(_id, role_costs, _, _) => {
                let ghost pairs = role_costs@;
                let ghost roles0 = self.roles;
                let mut i: usize = 0;
                while i < role_costs.len()
                    invariant
                        i <= pairs.len(),
                        role_costs@ == pairs,
                        roles0 == old(self).roles,
                        self.bonus_cards_in_play == old(self).bonus_cards_in_play,
                        self.event_deck == old(self).event_deck,
                        self.event_cards_in_play == old(self).event_cards_in_play,
                        self.bonus_deck == old(self).bonus_deck,
                        self.damage_deck == old(self).damage_deck,
                        self.year_number == old(self).year_number,
                        self.infra_damage == old(self).infra_damage,
                        forall|r: RoleName| cost_count(pairs, r) <= roles0.spec_get(r).resources,
                        forall|n: RoleName| #![trigger self.roles.spec_get(n)]
                            self.roles.spec_get(n) == (Role {
                                resources: (roles0.spec_get(n).resources - cost_count(
                                    pairs.take(i as int),
                                    n,
                                )) as usize,
                                acted: roles0.spec_get(n).acted || is_affected(
                                    pairs.take(i as int),
                                    n,
                                ),
                                ..roles0.spec_get(n)
                            }),
                    decreases pairs.len() - i,
                {
                    let ghost pre = self.roles;
                    let (role, cost) = role_costs[i];
                    proof {
                        lemma_cost_count_take_step(pairs, i as int, cost);
                        lemma_cost_count_take_le(pairs, i as int + 1, cost);
                    }
                    let c = self.roles.get_mut(cost);
                    c.resources = c.resources - 1;
                    let a = self.roles.get_mut(role);
                    a.acted = true;
                    proof {
                        assert forall|n: RoleName| #![trigger self.roles.spec_get(n)]
                            self.roles.spec_get(n) == (Role {
                                resources: (roles0.spec_get(n).resources - cost_count(
                                    pairs.take(i as int + 1),
                                    n,
                                )) as usize,
                                acted: roles0.spec_get(n).acted || is_affected(
                                    pairs.take(i as int + 1),
                                    n,
                                ),
                                ..roles0.spec_get(n)
                            }) by {
                            assert(pre.spec_get(n) == (Role {
                                resources: (roles0.spec_get(n).resources - cost_count(
                                    pairs.take(i as int),
                                    n,
                                )) as usize,
                                acted: roles0.spec_get(n).acted || is_affected(
                                    pairs.take(i as int),
                                    n,
                                ),
                                ..roles0.spec_get(n)
                            }));
                            match n {
                                RoleName::Hab => {},
                                RoleName::Joul => {},
                                RoleName::Man => {},
                            }
                            match cost {
                                RoleName::Hab => {},
                                RoleName::Joul => {},
                                RoleName::Man => {},
                            }
                            match role {
                                RoleName::Hab => {},
                                RoleName::Joul => {},
                                RoleName::Man => {},
                            }
                            lemma_cost_count_take_step(pairs, i as int, n);
                            lemma_cost_count_take_le(pairs, i as int + 1, n);
                            assert(pairs.take(i as int + 1).drop_last() =~= pairs.take(i as int));
                            assert(is_affected(pairs.take(i as int + 1), n) == (is_affected(
                                pairs.take(i as int),
                                n,
                            ) || pairs[i as int].0 == n)) by {
                                let t1 = pairs.take(i as int + 1);
                                let t0 = pairs.take(i as int);
                                if is_affected(t0, n) {
                                    let k = choose|k: int| 0 <= k < t0.len() && (#[trigger] t0[k]).0 == n;
                                    assert(t1[k].0 == n);
                                }
                                if pairs[i as int].0 == n {
                                    assert(t1[i as int].0 == n);
                                }
                                if is_affected(t1, n) {
                                    let k = choose|k: int| 0 <= k < t1.len() && (#[trigger] t1[k]).0 == n;
                                    if k < i as int {
                                        assert(t0[k].0 == n);
                                    }
                                }
                            }
                        }
                    }
                    i = i + 1;
                }
                proof {
                    assert(pairs.take(pairs.len() as int) =~= pairs);
                    assert(self.roles.hab == self.roles.spec_get(RoleName::Hab));
                    assert(self.roles.joul == self.roles.spec_get(RoleName::Joul));
                    assert(self.roles.man == self.roles.spec_get(RoleName::Man));
                }
            },
            EventCard::NoProblem => {},
        }
    }

    /// Scans the bonus cards in play for a cancel card matching `event_id`.
    /// Returns the eligible-role list and position of the last match; an
    /// empty list (and position 0) when nothing matches.
    pub fn find_roles_with_cancel(&self, event_id: &EventCardId) -> (r: (Vec<RoleName>, usize))
        ensures
            ({
                let s = bonus_models(self.bonus_cards_in_play@);
                let li = last_cancel_index(s, event_id@);
                &&& li >= 0 ==> r.1 == li && (s[li] matches BonusCardModel::Cancel {
                    eligible,
                    ..
                } && r.0@ == eligible)
                &&& li < 0 ==> r.0@.len() == 0 && r.1 == 0
            }),
    {
        let ghost s = bonus_models(self.bonus_cards_in_play@);
        let mut roles: Vec<RoleName> = Vec::new();
        let mut found_pos: usize = 0;
        let mut pos: usize = 0;
        while pos < self.bonus_cards_in_play.len()
            invariant
                pos <= s.len(),
                s == bonus_models(self.bonus_cards_in_play@),
                ({
                    let li = last_cancel_index(s.take(pos as int), event_id@);
                    &&& li >= 0 ==> found_pos == li && (s[li] matches BonusCardModel::Cancel {
                        eligible,
                        ..
                    } && roles@ == eligible)
                    &&& li < 0 ==> roles@.len() == 0 && found_pos == 0
                }),
            decreases s.len() - pos,
        {
            proof {
                lemma_last_cancel_take_step(s, event_id@, pos as int);
                lemma_last_cancel_index(s.take(pos as int), event_id@);
            }
            match &self.bonus_cards_in_play[pos] {
                BonusCard::Cancel(id, cancel_roles) => {
                    if *id == *event_id {
                        roles = copy_role_list(cancel_roles);
                        found_pos = pos;
                    }
                },
                BonusCard::Build(_) => {},
            }
            pos = pos + 1;
        }
        proof {
            assert(s.take(s.len() as int) =~= s);
        }
        (roles, found_pos)
    }

    /// Scans the bonus cards in play for a build card granted to `role`,
    /// returning the position of the last match.
    pub fn find_role_with_build(&self, role: RoleName) -> (r: Option<usize>)
        ensures
            ({
                let s = bonus_models(self.bonus_cards_in_play@);
                let li = last_build_index(s, role);
                &&& li >= 0 ==> r == Some(li as usize)
                &&& li < 0 ==> r is None
            }),
    {
        let ghost s = bonus_models(self.bonus_cards_in_play@);
        let mut found = false;
        let mut found_pos: usize = 0;
        let mut pos: usize = 0;
        while pos < self.bonus_cards_in_play.len()
            invariant
                pos <= s.len(),
                s == bonus_models(self.bonus_cards_in_play@),
                ({
                    let li = last_build_index(s.take(pos as int), role);
                    &&& li >= 0 ==> found && found_pos == li
                    &&& li < 0 ==> !found
                }),
            decreases s.len() - pos,
        {
            proof {
                lemma_last_build_take_step(s, role, pos as int);
                lemma_last_build_index(s.take(pos as int), role);
            }
            match &self.bonus_cards_in_play[pos] {
                BonusCard::Build(build_role) => {
                    if role == *build_role {
                        found = true;
                        found_pos = pos;
                    }
                },
                BonusCard::Cancel(_, _) => {},
            }
            pos = pos + 1;
        }
        proof {
            assert(s.take(s.len() as int) =~= s);
        }
        if found {
            Some(found_pos)
        } else {
            None
        }
    }

    /// One build action: without a bonus card, every role pays one resource
    /// (the action funds the whole colony's upkeep, not just the builder's);
    /// the builder gains a facility, capped at four, and has acted.
    pub fn build(&mut self, role_to_build: RoleName, with_card: bool)
        requires
            !with_card ==> old(self).roles.all_have_resources(),
        ensures
            final(self).roles == old(self).roles.after_build(role_to_build, with_card),
            final(self).bonus_cards_in_play == old(self).bonus_cards_in_play,
            final(self).event_deck == old(self).event_deck,
            final(self).event_cards_in_play == old(self).event_cards_in_play,
            final(self).bonus_deck == old(self).bonus_deck,
            final(self).damage_deck == old(self).damage_deck,
            final(self).year_number == old(self).year_number,
            final(self).infra_damage == old(self).infra_damage,
            old(self).roles.wf() ==> final(self).roles.wf(),
            old(self).roles.damage_within() ==> final(self).roles.damage_within(),
    {
        if !with_card {
            self.roles.hab.resources = self.roles.hab.resources - 1;
            self.roles.joul.resources = self.roles.joul.resources - 1;
            self.roles.man.resources = self.roles.man.resources - 1;
        }
        let r = self.roles.get_mut(role_to_build);
        if r.facilities < 4 {
            r.facilities = r.facilities + 1;
        }
        r.acted = true;
        proof {
            match role_to_build {
                RoleName::Hab => {},
                RoleName::Joul => {},
                RoleName::Man => {},
            }
        }
    }

    /// The roles that have not acted this year, paired with their facility
    /// counts, in an order drawn fresh from the shuffler.
    pub fn get_unacted_roles<S: Shuffler>(&self, s: &mut S) -> (r: Vec<(RoleName, usize)>)
        ensures
            r@.to_multiset() == self.roles.unacted_entries().to_multiset(),
            r@.len() == self.roles.unacted_entries().len(),
            forall|k: int| 0 <= k < r@.len() ==> entry_ok(self.roles, #[trigger] r@[k]),
            (r@.len() == 0 <==> self.roles.all_acted()),
    {
        let mut out: Vec<(RoleName, usize)> = Vec::new();
        if !self.roles.hab.acted {
            out.push((RoleName::Hab, self.roles.hab.facilities));
        }
        if !self.roles.joul.acted {
            out.push((RoleName::Joul, self.roles.joul.facilities));
        }
        if !self.roles.man.acted {
            out.push((RoleName::Man, self.roles.man.facilities));
        }
        proof {
            assert(out@ =~= self.roles.unacted_entries());
        }
        s.shuffle(&mut out);
        proof {
            broadcast use vstd::seq_lib::group_to_multiset_ensures;

            self.roles.lemma_unacted_entries();
            assert forall|k: int| 0 <= k < out@.len() implies entry_ok(
                self.roles,
                #[trigger] out@[k],
            ) by {
                assert(out@.contains(out@[k]));
                assert(out@.to_multiset().count(out@[k]) > 0);
                assert(self.roles.unacted_entries().to_multiset().count(out@[k]) > 0);
                assert(self.roles.unacted_entries().contains(out@[k]));
            }
            assert(out@.len() == out@.to_multiset().len());
            assert(self.roles.unacted_entries().len()
                == self.roles.unacted_entries().to_multiset().len());
        }
        out
    }

    /// Spends a build bonus card for `role`, if one is in play: one free
    /// facility, the role has acted, and the card leaves play. A no-op when
    /// no matching card is held.
    #[verifier::rlimit(30)]
    pub fn build_using_bonus(&mut self, role: RoleName)
        ensures
            ({
                let s = bonus_models(old(self).bonus_cards_in_play@);
                let li = last_build_index(s, role);
                &&& li < 0 ==> *final(self) == *old(self)
                &&& li >= 0 ==> {
                    &&& final(self).bonus_cards_in_play@
                        == old(self).bonus_cards_in_play@.remove(li)
                    &&& final(self).roles == old(self).roles.after_build(role, true)
                }
            }),
            final(self).event_deck == old(self).event_deck,
            final(self).event_cards_in_play == old(self).event_cards_in_play,
            final(self).bonus_deck == old(self).bonus_deck,
            final(self).damage_deck == old(self).damage_deck,
            final(self).year_number == old(self).year_number,
            final(self).infra_damage == old(self).infra_damage,
            old(self).roles.wf() ==> final(self).roles.wf(),
            old(self).roles.damage_within() ==> final(self).roles.damage_within(),
    {
        match self.find_role_with_build(role) {
            Some(loc) => {
                proof {
                    lemma_last_build_index(bonus_models(self.bonus_cards_in_play@), role);
                }
                self.build(role, true);
                self.bonus_cards_in_play.remove(loc);
            },
            None => {},
        }
    }
    /// Deals `num` cards off the event deck, stopping silently if the deck
    /// runs out. Each dealt problem card gets one damage card attached (the
    /// damage deck is refreshed first whenever it is empty) and moves into
    /// play; no-problem cards are discarded. The event deck itself is never
    /// reshuffled.
    pub fn deal_event_and_damage_cards<S: Shuffler>(&mut self, num: usize, s: &mut S)
        ensures
            ({
                let deck0 = event_models(old(self).event_deck@);
                let n0 = old(self).event_deck@.len() as int;
                let dealt = if num <= n0 {
                    num as int
                } else {
                    n0
                };
                let probs = dealt_problems(deck0, num as nat);
                &&& final(self).event_deck@ == old(self).event_deck@.take(n0 - dealt)
                &&& final(self).event_cards_in_play@.len() == old(
                    self,
                ).event_cards_in_play@.len() + probs.len()
                &&& (forall|i: int| 0 <= i < old(self).event_cards_in_play@.len()
                    ==> final(self).event_cards_in_play@[i] == old(self).event_cards_in_play@[i])
                &&& all_attach(
                    probs,
                    event_models(
                        final(self).event_cards_in_play@.skip(
                            old(self).event_cards_in_play@.len() as int,
                        ),
                    ),
                )
                &&& final(self).damage_deck@.len() == damage_len_after(
                    old(self).damage_deck@.len() as nat,
                    probs.len(),
                )
                &&& (probs.len() == 0 ==> final(self).damage_deck == old(self).damage_deck
                    && final(self).event_cards_in_play == old(self).event_cards_in_play)
                &&& exists|drawn: Seq<DamageCard>|
                    {
                        &&& drawn.len() == probs.len()
                        &&& #[trigger] draws_ok(
                            old(self).damage_deck@,
                            drawn,
                            final(self).damage_deck@,
                        )
                        &&& forall|k: int| 0 <= k < probs.len() ==> (#[trigger] event_models(
                            final(self).event_cards_in_play@.skip(
                                old(self).event_cards_in_play@.len() as int,
                            ),
                        )[k])->Problem_damage == Some(drawn[k])
                    }
            }),
            final(self).bonus_cards_in_play == old(self).bonus_cards_in_play,
            final(self).bonus_deck == old(self).bonus_deck,
            final(self).year_number == old(self).year_number,
            final(self).roles == old(self).roles,
            final(self).infra_damage == old(self).infra_damage,
            old(self).wf() ==> final(self).wf(),
    {
        let ghost deck0 = event_models(old(self).event_deck@);
        let ghost n0 = old(self).event_deck@.len() as int;
        let ghost play0 = old(self).event_cards_in_play@;
        let ghost dmg0 = old(self).damage_deck@;
        let ghost mut drawn = Seq::<DamageCard>::empty();
        let mut x: usize = 0;
        while x < num
            invariant
                x <= num,
                deck0 == event_models(old(self).event_deck@),
                n0 == old(self).event_deck@.len() as int,
                play0 == old(self).event_cards_in_play@,
                self.event_deck@ == old(self).event_deck@.take(
                    if x as int <= n0 {
                        n0 - x as int
                    } else {
                        0
                    },
                ),
                self.event_cards_in_play@.len() == play0.len() + dealt_problems(
                    deck0,
                    x as nat,
                ).len(),
                forall|i: int| 0 <= i < play0.len() ==> self.event_cards_in_play@[i] == play0[i],
                all_attach(
                    dealt_problems(deck0, x as nat),
                    event_models(self.event_cards_in_play@.skip(play0.len() as int)),
                ),
                dmg0 == old(self).damage_deck@,
                drawn.len() == dealt_problems(deck0, x as nat).len(),
                draws_ok(dmg0, drawn, self.damage_deck@),
                self.damage_deck@.len() == damage_len_after(dmg0.len(), drawn.len()),
                drawn.len() == 0 ==> self.damage_deck == old(self).damage_deck
                    && self.event_cards_in_play == old(self).event_cards_in_play,
                forall|k: int| 0 <= k < drawn.len() ==> (#[trigger] event_models(
                    self.event_cards_in_play@.skip(play0.len() as int),
                )[k])->Problem_damage == Some(drawn[k]),
                self.bonus_cards_in_play == old(self).bonus_cards_in_play,
                self.bonus_deck == old(self).bonus_deck,
                self.year_number == old(self).year_number,
                self.roles == old(self).roles,
                self.infra_damage == old(self).infra_damage,
            decreases num - x,
        {
            proof {
                lemma_dealt_problems_step(deck0, x as nat);
                if (x as int) < n0 {
                    assert(self.event_deck@.last() == old(self).event_deck@[n0 - 1 - x as int]);
                    assert(self.event_deck@.take(self.event_deck@.len() - 1) =~= old(
                        self,
                    ).event_deck@.take(n0 - 1 - x as int));
                }
            }
            match self.event_deck.pop() {
                Some(card) => {
                    match card {
                        EventCard::Problem(cardid, role_pairs, damage_override, _) => {
                            let ghost before = self.event_cards_in_play@;
                            let ghost dmg_mid = self.damage_deck@;
                            let damage_card = self.draw_damage_card(s);
                            proof {
                                broadcast use vstd::seq_lib::group_to_multiset_ensures;

                                if dmg_mid.len() == 0 {
                                    let fresh = self.damage_deck@.push(damage_card);
                                    assert(fresh.to_multiset() == self.damage_deck@.to_multiset().insert(
                                        damage_card,
                                    ));
                                    assert(fresh.drop_last() =~= self.damage_deck@);
                                }
                                lemma_draws_ok_push(
                                    dmg0,
                                    drawn,
                                    dmg_mid,
                                    damage_card,
                                    self.damage_deck@,
                                );
                                lemma_damage_len_after_push(dmg0.len(), drawn.len() as nat);
                                drawn = drawn.push(damage_card);
                            }
                            self.event_cards_in_play.push(
                                EventCard::Problem(
                                    cardid,
                                    role_pairs,
                                    damage_override,
                                    Some(damage_card),
                                ),
                            );
                            proof {
                                let m = deck0[n0 - 1 - x as int];
                                assert(dealt_problems(deck0, x as nat + 1) =~= dealt_problems(
                                    deck0,
                                    x as nat,
                                ).push(m));
                                assert(self.event_cards_in_play@.skip(play0.len() as int)
                                    =~= before.skip(play0.len() as int).push(
                                    self.event_cards_in_play@.last(),
                                ));
                                assert(event_models(
                                    self.event_cards_in_play@.skip(play0.len() as int),
                                ) =~= event_models(before.skip(play0.len() as int)).push(
                                    self.event_cards_in_play@.last()@,
                                ));
                                assert(attaches(m, self.event_cards_in_play@.last()@));
                            }
                        },
                        EventCard::NoProblem => {
                            proof {
                                assert(dealt_problems(deck0, x as nat + 1) =~= dealt_problems(
                                    deck0,
                                    x as nat,
                                ));
                            }
                        },
                    }
                },
                None => {},
            }
            x = x + 1;
        }
        proof {
            if old(self).wf() {
                lemma_dealt_problems_sub(deck0, num as nat);
                assert forall|i: int| 0 <= i < event_models(
                    self.event_cards_in_play@,
                ).len() implies event_model_wf(
                    #[trigger] event_models(self.event_cards_in_play@)[i],
                ) by {
                    if i < play0.len() {
                        assert(event_models(self.event_cards_in_play@)[i] == event_models(
                            play0,
                        )[i]);
                    } else {
                        let k = i - play0.len();
                        let probs = dealt_problems(deck0, num as nat);
                        let got = event_models(self.event_cards_in_play@.skip(play0.len() as int));
                        assert(got[k] == event_models(self.event_cards_in_play@)[i]);
                        assert(attaches(probs[k], got[k]));
                        assert(deck0.contains(probs[k]));
                        let j = choose|j: int| 0 <= j < deck0.len() && deck0[j] == probs[k];
                        assert(event_model_wf(deck0[j]));
                    }
                }
                assert forall|i: int| 0 <= i < event_models(self.event_deck@).len() implies
                    event_model_wf(#[trigger] event_models(self.event_deck@)[i]) by {
                    assert(event_models(self.event_deck@)[i] == deck0[i]);
                }
            }
        }
    }

    /// The Action Phase's event pass. Takes a snapshot of the cards in play,
    /// clears the live list, then for each problem card of the snapshot with
    /// damage attached: cancel it with a matching bonus card if one is held
    /// (the last eligible role acts and the card is spent); else pay it off
    /// when every cost role can; else apply the attached damage. Running the
    /// resolver with nothing in play has no effect at all.
    pub fn resolve_events(&mut self)
        requires
            old(self).wf(),
            old(self).infra_damage + old(self).event_cards_in_play@.len() <= usize::MAX,
            forall|n: RoleName| old(self).roles.spec_get(n).facilities_damaged + old(
                self,
            ).event_cards_in_play@.len() <= usize::MAX,
        ensures
            final(self).event_cards_in_play@.len() == 0,
            final(self).wf(),
            final(self).event_deck == old(self).event_deck,
            final(self).bonus_deck == old(self).bonus_deck,
            final(self).damage_deck == old(self).damage_deck,
            final(self).year_number == old(self).year_number,
            old(self).infra_damage <= final(self).infra_damage,
            final(self).infra_damage <= old(self).infra_damage + old(
                self,
            ).event_cards_in_play@.len(),
            forall|n: RoleName| final(self).roles.spec_get(n).resources <= old(
                self,
            ).roles.spec_get(n).resources,
            forall|n: RoleName| final(self).roles.spec_get(n).facilities_damaged <= old(
                self,
            ).roles.spec_get(n).facilities_damaged + old(self).event_cards_in_play@.len(),
            forall|n: RoleName| old(self).roles.spec_get(n).facilities <= 4
                ==> final(self).roles.spec_get(n).facilities <= 4,
            old(self).event_cards_in_play@.len() == 0 ==> *final(self) == *old(self),
            ({
                let (r, b, inf) = resolve_pass(
                    old(self).roles,
                    bonus_models(old(self).bonus_cards_in_play@),
                    old(self).infra_damage,
                    event_models(old(self).event_cards_in_play@),
                );
                &&& final(self).roles == r
                &&& bonus_models(final(self).bonus_cards_in_play@) == b
                &&& final(self).infra_damage == inf
            }),
    {
        if self.event_cards_in_play.len() == 0 {
            return ;
        }
        let mut cards: Vec<EventCard> = Vec::new();
        core::mem::swap(&mut cards, &mut self.event_cards_in_play);
        let ghost snap = cards@;
        proof {
            assert(event_models(snap).skip(0) =~= event_models(snap));
        }
        let mut i: usize = 0;
        while i < cards.len()
            invariant
                i <= snap.len(),
                cards@ == snap,
                all_events_wf(event_models(snap)),
                self.wf(),
                self.event_cards_in_play@.len() == 0,
                self.event_deck == old(self).event_deck,
                self.bonus_deck == old(self).bonus_deck,
                self.damage_deck == old(self).damage_deck,
                self.year_number == old(self).year_number,
                old(self).infra_damage <= self.infra_damage,
                self.infra_damage <= old(self).infra_damage + i,
                forall|n: RoleName| self.roles.spec_get(n).resources <= old(self).roles.spec_get(
                    n,
                ).resources,
                forall|n: RoleName| self.roles.spec_get(n).facilities_damaged <= old(
                    self,
                ).roles.spec_get(n).facilities_damaged + i,
                forall|n: RoleName| old(self).roles.spec_get(n).facilities <= 4
                    ==> self.roles.spec_get(n).facilities <= 4,
                snap.len() == old(self).event_cards_in_play@.len(),
                old(self).infra_damage + snap.len() <= usize::MAX,
                forall|n: RoleName| old(self).roles.spec_get(n).facilities_damaged + snap.len()
                    <= usize::MAX,
                resolve_pass(
                    self.roles,
                    bonus_models(self.bonus_cards_in_play@),
                    self.infra_damage,
                    event_models(snap).skip(i as int),
                ) == resolve_pass(
                    old(self).roles,
                    bonus_models(old(self).bonus_cards_in_play@),
                    old(self).infra_damage,
                    event_models(snap),
                ),
            decreases snap.len() - i,
        {
            let ghost pre_roles = self.roles;
            let ghost cur_bonus = bonus_models(self.bonus_cards_in_play@);
            let ghost cur_infra = self.infra_damage;
            let ghost m = event_models(snap)[i as int];
            proof {
                assert(m == cards[i as int]@);
            }
            match &cards[i] {
                EventCard::Problem(id, _role_pairs, damage_override, opt_damage) => {
                    match opt_damage {
                        Some(damage) => {
                            let (mut capable_roles, pos) = self.find_roles_with_cancel(id);
                            if capable_roles.len() > 0 {
                                proof {
                                    lemma_last_cancel_index(
                                        bonus_models(self.bonus_cards_in_play@),
                                        id@,
                                    );
                                }
                                match capable_roles.pop() {
                                    Some(role) => {
                                        self.spend_cancel_card(role, pos);
                                        proof {
                                            assert(bonus_models(self.bonus_cards_in_play@)
                                                =~= cur_bonus.remove(pos as int));
                                        }
                                    },
                                    None => {},
                                }
                                proof {
                                    assert(self.roles == resolve_card(
                                        pre_roles,
                                        cur_bonus,
                                        cur_infra,
                                        m,
                                    ).0);
                                    assert(bonus_models(self.bonus_cards_in_play@) == resolve_card(
                                        pre_roles,
                                        cur_bonus,
                                        cur_infra,
                                        m,
                                    ).1);
                                }
                            } else if self.can_deal_with_event(&cards[i]) {
                                proof {
                                    let m = cards[i as int]@;
                                    assert(event_models(snap)[i as int] == m);
                                    assert(event_model_wf(m));
                                    let pairs = m->Problem_pairs;
                                    assert forall|r: RoleName| cost_count(pairs, r)
                                        <= self.roles.spec_get(r).resources by {
                                        lemma_distinct_costs_bound(pairs, r);
                                        if cost_count(pairs, r) == 1 {
                                            let k = choose|k: int|
                                                0 <= k < pairs.len() && (#[trigger] pairs[k]).1
                                                    == r;
                                            assert(self.roles.spec_get(pairs[k].1).resources > 0);
                                        }
                                    }
                                }
                                self.deal_with_event(&cards[i]);
                                proof {
                                    assert(self.roles.spec_get(RoleName::Hab) == self.roles.hab);
                                    assert(self.roles.spec_get(RoleName::Joul) == self.roles.joul);
                                    assert(self.roles.spec_get(RoleName::Man) == self.roles.man);
                                    assert(self.roles == paid_roles(pre_roles, m->Problem_pairs));
                                }
                            } else {
                                proof {
                                    assert(event_models(snap)[i as int] == cards[i as int]@);
                                    assert(self.infra_damage < usize::MAX);
                                    assert forall|n: RoleName| self.roles.spec_get(
                                        n,
                                    ).facilities_damaged < usize::MAX by {
                                        assert(self.roles.spec_get(n).facilities_damaged <= old(
                                            self,
                                        ).roles.spec_get(n).facilities_damaged + i);
                                    }
                                }
                                self.do_damage_card(*damage_override, *damage);
                                proof {
                                    match *damage {
                                        DamageCard::InfrastructureDamage => {},
                                        DamageCard::FacilityDamage(_) => {},
                                        DamageCard::FacilityDestruction(_) => {},
                                    }
                                    assert(self.roles == damaged_state(
                                        pre_roles,
                                        cur_infra,
                                        *damage_override,
                                        *damage,
                                    ).0);
                                    assert(self.infra_damage == damaged_state(
                                        pre_roles,
                                        cur_infra,
                                        *damage_override,
                                        *damage,
                                    ).1);
                                }
                            }
                        },
                        None => {},
                    }
                },
                EventCard::NoProblem => {},
            }
            proof {
                assert forall|n: RoleName| self.roles.spec_get(n).resources <= old(
                    self,
                ).roles.spec_get(n).resources && self.roles.spec_get(n).facilities_damaged <= old(
                    self,
                ).roles.spec_get(n).facilities_damaged + i + 1 && (old(self).roles.spec_get(
                    n,
                ).facilities <= 4 ==> self.roles.spec_get(n).facilities <= 4) by {
                    match n {
                        RoleName::Hab => {},
                        RoleName::Joul => {},
                        RoleName::Man => {},
                    }
                    assert(pre_roles.spec_get(n).resources <= old(self).roles.spec_get(
                        n,
                    ).resources);
                }
                assert(self.roles == resolve_card(pre_roles, cur_bonus, cur_infra, m).0);
                assert(bonus_models(self.bonus_cards_in_play@) == resolve_card(
                    pre_roles,
                    cur_bonus,
                    cur_infra,
                    m,
                ).1);
                assert(self.infra_damage == resolve_card(pre_roles, cur_bonus, cur_infra, m).2);
                assert(event_models(snap).skip(i as int).first() == m);
                assert(event_models(snap).skip(i as int).drop_first() =~= event_models(snap).skip(
                    i as int + 1,
                ));
                assert(resolve_pass(
                    pre_roles,
                    cur_bonus,
                    cur_infra,
                    event_models(snap).skip(i as int),
                ) == resolve_pass(
                    self.roles,
                    bonus_models(self.bonus_cards_in_play@),
                    self.infra_damage,
                    event_models(snap).skip(i as int + 1),
                ));
            }
            i = i + 1;
        }
        proof {
            assert(event_models(snap).skip(snap.len() as int) =~= Seq::<EventCardModel>::empty());
        }
    }

    /// One full year: deal a bonus card, replenish every role, deal this
    /// year's events with damage attached, resolve them, then build — first
    /// round-robin among unacted roles while everyone still holds a resource,
    /// then with any build bonus cards still in play — and count the year.
    pub fn play_year<S: Shuffler>(&mut self, s: &mut S)
        requires
            old(self).wf(),
            old(self).year_number < usize::MAX,
            old(self).infra_damage + old(self).event_cards_in_play@.len() + old(
                self,
            ).year_number / 3 + 2 <= usize::MAX,
        ensures
            final(self).year_number == old(self).year_number + 1,
            final(self).wf(),
            final(self).event_cards_in_play@.len() == 0,
            old(self).infra_damage <= final(self).infra_damage,
            final(self).bonus_deck@ == if old(self).bonus_deck@.len() == 0 {
                old(self).bonus_deck@
            } else {
                old(self).bonus_deck@.drop_last()
            },
            ({
                let n0 = old(self).event_deck@.len() as int;
                let num = old(self).year_number / 3 + 2;
                final(self).event_deck@ == old(self).event_deck@.take(
                    if num <= n0 {
                        n0 - num
                    } else {
                        0
                    },
                )
            }),
            forall|n: RoleName| final(self).roles.spec_get(n).resources <= 4,
            final(self).infra_damage <= old(self).infra_damage + old(
                self,
            ).event_cards_in_play@.len() + old(self).year_number / 3 + 2,
            forall|n: RoleName| final(self).roles.spec_get(n).facilities_damaged <= old(
                self,
            ).event_cards_in_play@.len() + old(self).year_number / 3 + 2,
            forall|n: RoleName| final(self).roles.spec_get(n).resources <= Roles::replenished(
                old(self).roles.spec_get(n),
            ).resources,
            ({
                let num = old(self).year_number / 3 + 2;
                let quiet = old(self).event_cards_in_play@.len() == 0 && dealt_problems(
                    event_models(old(self).event_deck@),
                    num as nat,
                ).len() == 0 && old(self).bonus_cards_in_play@.len() == 0 && old(
                    self,
                ).bonus_deck@.len() == 0 && !old(self).roles.replenish_spec().all_have_resources();
                quiet ==> final(self).roles == old(self).roles.replenish_spec()
            }),
    {
        self.deal_bonus_card();
        let ghost r0 = self.roles;
        self.roles.replenish_all();
        proof {
            assert forall|n: RoleName| self.roles.spec_get(n).resources <= 4
                && self.roles.spec_get(n).facilities_damaged == 0 by {
                match n {
                    RoleName::Hab => {},
                    RoleName::Joul => {},
                    RoleName::Man => {},
                }
                assert(self.roles.spec_get(n) == Roles::replenished(r0.spec_get(n)));
            }
            assert(r0 == old(self).roles);
            assert(self.roles == old(self).roles.replenish_spec());
        }
        let num_event_cards_to_play = self.get_num_event_cards();
        let ghost pre_deal = *self;
        self.deal_event_and_damage_cards(num_event_cards_to_play, s);
        proof {
            lemma_dealt_problems_len(
                event_models(pre_deal.event_deck@),
                num_event_cards_to_play as nat,
            );
        }
        self.resolve_events();
        let ghost mid = *self;
        proof {
            assert forall|n: RoleName| mid.roles.spec_get(n).resources <= 4
                && mid.roles.spec_get(n).resources <= Roles::replenished(
                old(self).roles.spec_get(n),
            ).resources && mid.roles.spec_get(n).facilities_damaged <= old(
                self,
            ).event_cards_in_play@.len() + old(self).year_number / 3 + 2 by {
                match n {
                    RoleName::Hab => {},
                    RoleName::Joul => {},
                    RoleName::Man => {},
                }
            }
            assert(mid.infra_damage <= old(self).infra_damage + old(
                self,
            ).event_cards_in_play@.len() + old(self).year_number / 3 + 2);
        }
        loop
            invariant
                self.wf(),
                self.event_cards_in_play@.len() == 0,
                self.event_deck == mid.event_deck,
                self.bonus_deck == mid.bonus_deck,
                self.year_number == mid.year_number,
                self.infra_damage == mid.infra_damage,
                forall|n: RoleName| self.roles.spec_get(n).resources <= mid.roles.spec_get(
                    n,
                ).resources,
                forall|n: RoleName| mid.roles.spec_get(n).resources <= 4,
                forall|n: RoleName| self.roles.spec_get(n).facilities_damaged
                    == mid.roles.spec_get(n).facilities_damaged,
                self.bonus_cards_in_play == mid.bonus_cards_in_play,
                !mid.roles.all_have_resources() ==> self.roles == mid.roles,
            ensures
                self.wf(),
                self.event_cards_in_play@.len() == 0,
                self.event_deck == mid.event_deck,
                self.bonus_deck == mid.bonus_deck,
                self.year_number == mid.year_number,
                self.infra_damage == mid.infra_damage,
                forall|n: RoleName| self.roles.spec_get(n).resources <= mid.roles.spec_get(
                    n,
                ).resources,
                forall|n: RoleName| self.roles.spec_get(n).facilities_damaged
                    == mid.roles.spec_get(n).facilities_damaged,
                self.bonus_cards_in_play == mid.bonus_cards_in_play,
                !mid.roles.all_have_resources() ==> self.roles == mid.roles,
            decreases self.roles.hab.resources,
        {
            let cont = self.resources_left_to_build();
            if !cont {
                break ;
            }
            let mut roles_left_to_play = self.get_unacted_roles(s);
            if roles_left_to_play.len() == 0 {
                break ;
            }
            match roles_left_to_play.pop() {
                Some((role, _facilities)) => {
                    self.build(role, false);
                },
                None => {},
            }
            proof {
                assert forall|n: RoleName| self.roles.spec_get(n).resources <= mid.roles.spec_get(
                    n,
                ).resources && self.roles.spec_get(n).facilities_damaged == mid.roles.spec_get(
                    n,
                ).facilities_damaged by {
                    match n {
                        RoleName::Hab => {},
                        RoleName::Joul => {},
                        RoleName::Man => {},
                    }
                }
            }
        }
        let ghost mid2 = *self;
        let roles_left_to_play = self.get_unacted_roles(s);
        let mut i: usize = 0;
        while i < roles_left_to_play.len()
            invariant
                self.wf(),
                self.event_cards_in_play@.len() == 0,
                self.event_deck == mid.event_deck,
                self.bonus_deck == mid.bonus_deck,
                self.year_number == mid.year_number,
                self.infra_damage == mid.infra_damage,
                forall|n: RoleName| self.roles.spec_get(n).resources <= mid.roles.spec_get(
                    n,
                ).resources,
                forall|n: RoleName| mid.roles.spec_get(n).resources <= 4,
                forall|n: RoleName| self.roles.spec_get(n).facilities_damaged
                    == mid.roles.spec_get(n).facilities_damaged,
                mid2.bonus_cards_in_play@.len() == 0 ==> self.roles == mid2.roles
                    && self.bonus_cards_in_play == mid2.bonus_cards_in_play,
            decreases roles_left_to_play@.len() - i,
        {
            self.build_using_bonus(roles_left_to_play[i].0);
            proof {
                assert forall|n: RoleName| self.roles.spec_get(n).resources <= mid.roles.spec_get(
                    n,
                ).resources && self.roles.spec_get(n).facilities_damaged == mid.roles.spec_get(
                    n,
                ).facilities_damaged by {
                    match n {
                        RoleName::Hab => {},
                        RoleName::Joul => {},
                        RoleName::Man => {},
                    }
                }
            }
            i = i + 1;
        }
        proof {
            assert forall|n: RoleName| self.roles.spec_get(n).resources <= 4
                && self.roles.spec_get(n).resources <= Roles::replenished(
                old(self).roles.spec_get(n),
            ).resources && self.roles.spec_get(n).facilities_damaged <= old(
                self,
            ).event_cards_in_play@.len() + old(self).year_number / 3 + 2 by {
                assert(self.roles.spec_get(n).resources <= mid.roles.spec_get(n).resources);
                assert(mid.roles.spec_get(n).resources <= 4);
                assert(self.roles.spec_get(n).facilities_damaged == mid.roles.spec_get(
                    n,
                ).facilities_damaged);
            }
            let num = old(self).year_number / 3 + 2;
            let quiet = old(self).event_cards_in_play@.len() == 0 && dealt_problems(
                event_models(old(self).event_deck@),
                num as nat,
            ).len() == 0 && old(self).bonus_cards_in_play@.len() == 0 && old(
                self,
            ).bonus_deck@.len() == 0 && !old(self).roles.replenish_spec().all_have_resources();
            if quiet {
                assert(mid.roles == old(self).roles.replenish_spec());
                assert(mid2.roles == mid.roles);
                assert(mid2.bonus_cards_in_play@.len() == 0);
                assert(self.roles == old(self).roles.replenish_spec());
            }
        }
        self.year_number = self.year_number + 1;
    }
}

/// Copies a role list, element for element.
fn copy_role_list(v: &Vec<RoleName>) -> (r: Vec<RoleName>)
    ensures
        r@ == v@,
{
    let mut out: Vec<RoleName> = Vec::new();
    let mut k: usize = 0;
    while k < v.len()
        invariant
            k <= v@.len(),
            out@ == v@.take(k as int),
        decreases v@.len() - k,
    {
        out.push(v[k]);
        proof {
            assert(out@ =~= v@.take(k as int + 1));
        }
        k = k + 1;
    }
    proof {
        assert(v@.take(v@.len() as int) =~= v@);
    }
    out
}

} // verus!
