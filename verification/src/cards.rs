//! Card types: role identities, damage cards, bonus cards and event cards,
//! together with their mathematical models and the spec functions that the
//! deck and resolver contracts are stated over.

use vstd::prelude::*;

verus! {

/// One of the three fixed cooperating roles.
#[derive(Copy, Clone, PartialEq, Eq, Structural, Hash, Debug)]
pub enum RoleName {
    Hab,
    Joul,
    Man,
}

/// Severity and target of unresolved-event fallout.
#[derive(Copy, Clone, PartialEq, Eq, Structural, Hash, Debug)]
pub enum DamageCard {
    FacilityDamage(RoleName),
    FacilityDestruction(RoleName),
    InfrastructureDamage,
}

/// Stable identifier shared across duplicate instances of the same scenario.
pub type EventCardId = String;

/// A consumable advantage: cancel a matching pending problem, or grant one
/// free facility build to a role.
#[derive(Clone, PartialEq, Eq, Debug)]
pub enum BonusCard {
    Cancel(EventCardId, Vec<RoleName>),
    Build(RoleName),
}

/// A yearly challenge. A `Problem` names the (affected, cost) role pairs it
/// must be paid by, an optional override for which role's facility takes
/// damage, and the damage card attached to it at deal time.
#[derive(Clone, PartialEq, Eq, Debug)]
pub enum EventCard {
    Problem(EventCardId, Vec<(RoleName, RoleName)>, Option<RoleName>, Option<DamageCard>),
    NoProblem,
}

/// Mathematical model of a bonus card.
pub enum BonusCardModel {
    Cancel { id: Seq<char>, eligible: Seq<RoleName> },
    Build { role: RoleName },
}

/// Mathematical model of an event card.
pub enum EventCardModel {
    Problem {
        id: Seq<char>,
        pairs: Seq<(RoleName, RoleName)>,
        damage_override: Option<RoleName>,
        damage: Option<DamageCard>,
    },
    NoProblem,
}

impl View for BonusCard {
    type V = BonusCardModel;

    open spec fn view(&self) -> BonusCardModel {
        match self {
            BonusCard::Cancel(id, eligible) => BonusCardModel::Cancel {
                id: id@,
                eligible: eligible@,
            },
            BonusCard::Build(role) => BonusCardModel::Build { role: *role },
        }
    }
}

impl View for EventCard {
    type V = EventCardModel;

    open spec fn view(&self) -> EventCardModel {
        match self {
            EventCard::Problem(id, pairs, damage_override, damage) => EventCardModel::Problem {
                id: id@,
                pairs: pairs@,
                damage_override: *damage_override,
                damage: *damage,
            },
            EventCard::NoProblem => EventCardModel::NoProblem,
        }
    }
}

/// The models of a whole deck of bonus cards.
pub open spec fn bonus_models(s: Seq<BonusCard>) -> Seq<BonusCardModel> {
    s.map_values(|c: BonusCard| c@)
}

/// The models of a whole deck of event cards.
pub open spec fn event_models(s: Seq<EventCard>) -> Seq<EventCardModel> {
    s.map_values(|c: EventCard| c@)
}

/// No two pairs of a problem charge the same cost role; trivially true of a
/// no-problem card. Every card the game constructs satisfies this, and it is
/// what makes "every cost role holds a resource" enough to pay a card off.
pub open spec fn event_model_wf(m: EventCardModel) -> bool {
    match m {
        EventCardModel::Problem { pairs, .. } => forall|i: int, j: int|
            0 <= i < j < pairs.len() ==> (#[trigger] pairs[i]).1 != (#[trigger] pairs[j]).1,
        EventCardModel::NoProblem => true,
    }
}

/// All cards of a deck are well formed.
pub open spec fn all_events_wf(s: Seq<EventCardModel>) -> bool {
    forall|i: int| 0 <= i < s.len() ==> event_model_wf(#[trigger] s[i])
}

/// How many of the pairs charge role `r`.
pub open spec fn cost_count(pairs: Seq<(RoleName, RoleName)>, r: RoleName) -> nat
    decreases pairs.len(),
{
    if pairs.len() == 0 {
        0
    } else {
        cost_count(pairs.drop_last(), r) + if pairs.last().1 == r {
            1nat
        } else {
            0nat
        }
    }
}

/// Role `r` is named as an affected role by some pair.
pub open spec fn is_affected(pairs: Seq<(RoleName, RoleName)>, r: RoleName) -> bool {
    exists|i: int| 0 <= i < pairs.len() && (#[trigger] pairs[i]).0 == r
}

/// `got` is `orig` with some damage card attached: a problem with the same
/// identifier, pairs and override, and a damage slot that is now filled.
pub open spec fn attaches(orig: EventCardModel, got: EventCardModel) -> bool {
    match (orig, got) {
        (
            EventCardModel::Problem { id: id0, pairs: p0, damage_override: o0, .. },
            EventCardModel::Problem { id: id1, pairs: p1, damage_override: o1, damage: d1 },
        ) => id1 == id0 && p1 == p0 && o1 == o0 && d1 is Some,
        _ => false,
    }
}

/// Pointwise attachment over two sequences of cards.
pub open spec fn all_attach(origs: Seq<EventCardModel>, got: Seq<EventCardModel>) -> bool {
    got.len() == origs.len() && forall|k: int|
        0 <= k < origs.len() ==> attaches(#[trigger] origs[k], got[k])
}

/// The problem cards among the first `num` cards popped off the back of
/// `deck`, in pop order. These are exactly the cards that a deal of `num`
/// moves into play (with damage attached); no-problem cards are discarded.
pub open spec fn dealt_problems(deck: Seq<EventCardModel>, num: nat) -> Seq<EventCardModel>
    decreases num,
{
    if num == 0 || deck.len() == 0 {
        Seq::empty()
    } else {
        let c = deck.last();
        let rest = dealt_problems(deck.drop_last(), (num - 1) as nat);
        if c is Problem {
            seq![c] + rest
        } else {
            rest
        }
    }
}

/// Popping one more card appends its model to the dealt problems exactly
/// when it is a problem card; past the end of the deck nothing changes.
pub proof fn lemma_dealt_problems_step(deck: Seq<EventCardModel>, x: nat)
    ensures
        x < deck.len() ==> dealt_problems(deck, x + 1) =~= dealt_problems(deck, x) + (
        if deck[deck.len() - 1 - x] is Problem {
            seq![deck[deck.len() - 1 - x]]
        } else {
            Seq::<EventCardModel>::empty()
        }),
        x >= deck.len() ==> dealt_problems(deck, x + 1) == dealt_problems(deck, x),
    decreases x,
{
    if deck.len() == 0 {
    } else if x == 0 {
        assert(dealt_problems(deck.drop_last(), 0) =~= Seq::<EventCardModel>::empty());
        assert(dealt_problems(deck, 0) =~= Seq::<EventCardModel>::empty());
        if deck.last() is Problem {
            assert(dealt_problems(deck, 1) =~= seq![deck.last()]);
        }
    } else {
        let dl = deck.drop_last();
        let c = deck.last();
        lemma_dealt_problems_step(dl, (x - 1) as nat);
        if x < deck.len() {
            assert(dl[dl.len() - 1 - (x - 1)] == deck[deck.len() - 1 - x]);
            let extra: Seq<EventCardModel> = if deck[deck.len() - 1 - x] is Problem {
                seq![deck[deck.len() - 1 - x]]
            } else {
                Seq::<EventCardModel>::empty()
            };
            if c is Problem {
                assert(seq![c] + (dealt_problems(dl, (x - 1) as nat) + extra) =~= (seq![c]
                    + dealt_problems(dl, (x - 1) as nat)) + extra);
            }
        }
    }
}

/// A deal of `num` puts at most `num` cards into play.
pub proof fn lemma_dealt_problems_len(deck: Seq<EventCardModel>, num: nat)
    ensures
        dealt_problems(deck, num).len() <= num,
    decreases num,
{
    if num != 0 && deck.len() != 0 {
        lemma_dealt_problems_len(deck.drop_last(), (num - 1) as nat);
    }
}

/// Every dealt problem comes from the deck, and is a problem card.
pub proof fn lemma_dealt_problems_sub(deck: Seq<EventCardModel>, num: nat)
    ensures
        forall|k: int| 0 <= k < dealt_problems(deck, num).len() ==> deck.contains(
            #[trigger] dealt_problems(deck, num)[k],
        ) && dealt_problems(deck, num)[k] is Problem,
    decreases num,
{
    if num == 0 || deck.len() == 0 {
    } else {
        let dl = deck.drop_last();
        let c = deck.last();
        lemma_dealt_problems_sub(dl, (num - 1) as nat);
        let rest = dealt_problems(dl, (num - 1) as nat);
        assert forall|k: int| 0 <= k < dealt_problems(deck, num).len() implies deck.contains(
            #[trigger] dealt_problems(deck, num)[k],
        ) && dealt_problems(deck, num)[k] is Problem by {
            let got = dealt_problems(deck, num);
            if c is Problem && k == 0 {
                assert(got[0] == c);
                assert(deck[deck.len() - 1] == c);
            } else {
                let e = if c is Problem {
                    rest[k - 1]
                } else {
                    rest[k]
                };
                assert(got[k] == e);
                assert(dl.contains(e));
                let j = choose|j: int| 0 <= j < dl.len() && dl[j] == e;
                assert(deck[j] == e);
            }
        }
    }
}

/// Index of the last cancel card in `s` whose identifier matches `id`, or -1
/// if none matches. The last match wins, reproducing the full scan of the
/// cards in play.
pub open spec fn last_cancel_index(s: Seq<BonusCardModel>, id: Seq<char>) -> int
    decreases s.len(),
{
    if s.len() == 0 {
        -1
    } else if s.last() matches BonusCardModel::Cancel { id: cid, .. } && cid == id {
        s.len() - 1
    } else {
        last_cancel_index(s.drop_last(), id)
    }
}

/// Index of the last build card in `s` granted to `role`, or -1 if none.
pub open spec fn last_build_index(s: Seq<BonusCardModel>, role: RoleName) -> int
    decreases s.len(),
{
    if s.len() == 0 {
        -1
    } else if s.last() matches BonusCardModel::Build { role: r } && r == role {
        s.len() - 1
    } else {
        last_build_index(s.drop_last(), role)
    }
}

/// Scanning one more card keeps the previous last match unless the new card
/// matches, in which case it wins.
pub proof fn lemma_last_cancel_take_step(s: Seq<BonusCardModel>, id: Seq<char>, i: int)
    requires
        0 <= i < s.len(),
    ensures
        last_cancel_index(s.take(i + 1), id) == if s[i] matches BonusCardModel::Cancel {
            id: cid,
            ..
        } && cid == id {
            i
        } else {
            last_cancel_index(s.take(i), id)
        },
{
    assert(s.take(i + 1).drop_last() =~= s.take(i));
    assert(s.take(i + 1).last() == s[i]);
}

/// The build-card counterpart of the cancel-scan step.
pub proof fn lemma_last_build_take_step(s: Seq<BonusCardModel>, role: RoleName, i: int)
    requires
        0 <= i < s.len(),
    ensures
        last_build_index(s.take(i + 1), role) == if s[i] matches BonusCardModel::Build {
            role: r,
        } && r == role {
            i
        } else {
            last_build_index(s.take(i), role)
        },
{
    assert(s.take(i + 1).drop_last() =~= s.take(i));
    assert(s.take(i + 1).last() == s[i]);
}

/// `last_cancel_index` names a real position holding a matching cancel card,
/// and nothing after it matches.
pub proof fn lemma_last_cancel_index(s: Seq<BonusCardModel>, id: Seq<char>)
    ensures
        last_cancel_index(s, id) >= 0 ==> {
            let li = last_cancel_index(s, id);
            &&& li < s.len()
            &&& s[li] matches BonusCardModel::Cancel { id: cid, .. } && cid == id
        },
    decreases s.len(),
{
    if s.len() > 0 {
        lemma_last_cancel_index(s.drop_last(), id);
    }
}

/// `last_build_index` names a real position holding a matching build card.
pub proof fn lemma_last_build_index(s: Seq<BonusCardModel>, role: RoleName)
    ensures
        last_build_index(s, role) >= 0 ==> {
            let li = last_build_index(s, role);
            &&& li < s.len()
            &&& s[li] matches BonusCardModel::Build { role: r } && r == role
        },
    decreases s.len(),
{
    if s.len() > 0 {
        lemma_last_build_index(s.drop_last(), role);
    }
}

/// A permutation of a deck maps to a permutation of its models: taking
/// values pointwise preserves multiset equality.
pub proof fn lemma_map_values_multiset<A, B>(s1: Seq<A>, s2: Seq<A>, f: spec_fn(A) -> B)
    requires
        s1.to_multiset() == s2.to_multiset(),
    ensures
        s1.map_values(f).to_multiset() == s2.map_values(f).to_multiset(),
    decreases s1.len(),
{
    broadcast use vstd::seq_lib::group_to_multiset_ensures;

    if s1.len() == 0 {
        assert(s2.to_multiset().len() == 0);
        assert(s2.len() == 0);
        assert(s1.map_values(f) =~= s2.map_values(f));
    } else {
        let a = s1.last();
        let n = s1.len() - 1;
        assert(s1.contains(a));
        assert(s1.to_multiset().count(a) > 0);
        assert(s2.contains(a));
        let j = choose|j: int| 0 <= j < s2.len() && s2[j] == a;
        let s1d = s1.drop_last();
        let s2r = s2.remove(j);
        assert(s1.remove(n) =~= s1d);
        assert(s1.remove(n).to_multiset() == s1.to_multiset().remove(a));
        assert(s2r.to_multiset() == s2.to_multiset().remove(a));
        lemma_map_values_multiset(s1d, s2r, f);
        assert(s1.map_values(f) =~= s1d.map_values(f).push(f(a)));
        assert(s2.map_values(f) =~= s2r.map_values(f).insert(j, f(a)));
        assert(s1d.map_values(f).push(f(a)).to_multiset() == s1d.map_values(f).to_multiset().insert(
            f(a),
        ));
        assert(s2r.map_values(f).insert(j, f(a)).to_multiset() == s2r.map_values(
            f,
        ).to_multiset().insert(f(a)));
    }
}

/// Whatever a well-formed deck is permuted into is well formed too.
pub proof fn lemma_all_events_wf_multiset(s1: Seq<EventCardModel>, s2: Seq<EventCardModel>)
    requires
        s1.to_multiset() == s2.to_multiset(),
        all_events_wf(s1),
    ensures
        all_events_wf(s2),
{
    broadcast use vstd::seq_lib::group_to_multiset_ensures;

    assert forall|i: int| 0 <= i < s2.len() implies event_model_wf(#[trigger] s2[i]) by {
        assert(s2.contains(s2[i]));
        assert(s2.to_multiset().count(s2[i]) > 0);
        assert(s1.contains(s2[i]));
        let j = choose|j: int| 0 <= j < s1.len() && s1[j] == s2[i];
        assert(event_model_wf(s1[j]));
    }
}

/// With pairwise-distinct cost roles, no role is charged more than once.
pub proof fn lemma_distinct_costs_bound(pairs: Seq<(RoleName, RoleName)>, r: RoleName)
    requires
        forall|i: int, j: int|
            0 <= i < j < pairs.len() ==> (#[trigger] pairs[i]).1 != (#[trigger] pairs[j]).1,
    ensures
        cost_count(pairs, r) <= 1,
        cost_count(pairs, r) == 1 ==> exists|i: int|
            0 <= i < pairs.len() && (#[trigger] pairs[i]).1 == r,
    decreases pairs.len(),
{
    if pairs.len() > 0 {
        lemma_distinct_costs_bound(pairs.drop_last(), r);
        if pairs.last().1 == r {
            assert forall|i: int| 0 <= i < pairs.len() - 1 implies (#[trigger] pairs.drop_last()[i]).1
                != r by {
                assert(pairs[i].1 != pairs[pairs.len() - 1].1);
            }
            if cost_count(pairs.drop_last(), r) == 1 {
                let i = choose|i: int|
                    0 <= i < pairs.drop_last().len() && (#[trigger] pairs.drop_last()[i]).1 == r;
                assert(pairs[i].1 == r);
            }
        } else {
            if cost_count(pairs.drop_last(), r) == 1 {
                let i = choose|i: int|
                    0 <= i < pairs.drop_last().len() && (#[trigger] pairs.drop_last()[i]).1 == r;
                assert(pairs[i].1 == r);
            }
        }
    }
}

/// Extending the charged prefix by one pair adds exactly that pair's charge.
pub proof fn lemma_cost_count_take_step(pairs: Seq<(RoleName, RoleName)>, i: int, r: RoleName)
    requires
        0 <= i < pairs.len(),
    ensures
        cost_count(pairs.take(i + 1), r) == cost_count(pairs.take(i), r) + if pairs[i].1 == r {
            1nat
        } else {
            0nat
        },
{
    assert(pairs.take(i + 1).drop_last() =~= pairs.take(i));
    assert(pairs.take(i + 1).last() == pairs[i]);
}

/// A prefix never charges a role more than the whole list does.
pub proof fn lemma_cost_count_take_le(pairs: Seq<(RoleName, RoleName)>, i: int, r: RoleName)
    requires
        0 <= i <= pairs.len(),
    ensures
        cost_count(pairs.take(i), r) <= cost_count(pairs, r),
    decreases pairs.len() - i,
{
    if i == pairs.len() {
        assert(pairs.take(i) =~= pairs);
    } else {
        lemma_cost_count_take_step(pairs, i, r);
        lemma_cost_count_take_le(pairs, i + 1, r);
    }
}

} // verus!
