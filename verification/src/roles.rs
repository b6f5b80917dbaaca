//! The role registry: per-role mutable state for the three fixed roles. The
//! identity set is fixed and small, so the registry holds one named field per
//! role and every lookup is an exhaustive match: a role can never be absent.

use vstd::prelude::*;
use crate::cards::RoleName;

verus! {

/// Per-role mutable state.
#[derive(Copy, Clone, PartialEq, Eq, Structural, Debug)]
pub struct Role {
    pub name: RoleName,
    /// Built production units, between 0 and 4.
    pub facilities: usize,
    /// Units damaged this year; reset to 0 by every replenish.
    pub facilities_damaged: usize,
    /// Resources produced this year and not yet consumed.
    pub resources: usize,
    /// The role has already taken its single build-or-response action.
    pub acted: bool,
}

/// The registry: one `Role` per identity, always all three present.
#[derive(Copy, Clone, PartialEq, Eq, Structural, Debug)]
pub struct Roles {
    pub hab: Role,
    pub joul: Role,
    pub man: Role,
}

impl Role {
    /// The role is internally consistent and within the game's bounds.
    pub open spec fn wf(self) -> bool {
        self.facilities <= 4
    }

    /// No more units are marked damaged than exist.
    pub open spec fn damage_within(self) -> bool {
        self.facilities_damaged <= self.facilities
    }

    /// A starting role: one facility, nothing else.
    pub open spec fn initial(name: RoleName) -> Role {
        Role { name, facilities: 1, facilities_damaged: 0, resources: 0, acted: false }
    }
}

impl Roles {
    /// The role stored under identity `n`.
    pub open spec fn spec_get(self, n: RoleName) -> Role {
        match n {
            RoleName::Hab => self.hab,
            RoleName::Joul => self.joul,
            RoleName::Man => self.man,
        }
    }

    /// The registry with the role under `n` replaced by `r`.
    pub open spec fn spec_set(self, n: RoleName, r: Role) -> Roles {
        match n {
            RoleName::Hab => Roles { hab: r, ..self },
            RoleName::Joul => Roles { joul: r, ..self },
            RoleName::Man => Roles { man: r, ..self },
        }
    }

    /// Every role is within the game's bounds and stored under its own name.
    pub open spec fn wf(self) -> bool {
        &&& self.hab.wf() && self.joul.wf() && self.man.wf()
        &&& self.hab.name == RoleName::Hab
        &&& self.joul.name == RoleName::Joul
        &&& self.man.name == RoleName::Man
    }

    /// No role has more units marked damaged than it owns.
    pub open spec fn damage_within(self) -> bool {
        self.hab.damage_within() && self.joul.damage_within() && self.man.damage_within()
    }

    /// Every role holds at least one resource.
    pub open spec fn all_have_resources(self) -> bool {
        self.hab.resources > 0 && self.joul.resources > 0 && self.man.resources > 0
    }

    /// Every role has taken its action this year.
    pub open spec fn all_acted(self) -> bool {
        self.hab.acted && self.joul.acted && self.man.acted
    }

    /// What one replenish gives a role: production from undamaged facilities,
    /// damage repaired, action available again.
    pub open spec fn replenished(r: Role) -> Role {
        Role {
            resources: if r.facilities > r.facilities_damaged {
                (r.facilities - r.facilities_damaged) as usize
            } else {
                0
            },
            facilities_damaged: 0,
            acted: false,
            ..r
        }
    }

    /// The whole registry after one replenish.
    pub open spec fn replenish_spec(self) -> Roles {
        Roles {
            hab: Roles::replenished(self.hab),
            joul: Roles::replenished(self.joul),
            man: Roles::replenished(self.man),
        }
    }

    /// The unacted roles paired with their facility counts, in the fixed
    /// registry order.
    pub open spec fn unacted_entries(self) -> Seq<(RoleName, usize)> {
        let h: Seq<(RoleName, usize)> = if !self.hab.acted {
            seq![(RoleName::Hab, self.hab.facilities)]
        } else {
            Seq::empty()
        };
        let j: Seq<(RoleName, usize)> = if !self.joul.acted {
            seq![(RoleName::Joul, self.joul.facilities)]
        } else {
            Seq::empty()
        };
        let m: Seq<(RoleName, usize)> = if !self.man.acted {
            seq![(RoleName::Man, self.man.facilities)]
        } else {
            Seq::empty()
        };
        h + j + m
    }

    /// What one build action leaves of a single role: without a bonus card
    /// the action costs every role one resource; the builder gains a facility
    /// (capped at four) and has acted.
    pub open spec fn after_build_role(r: Role, is_builder: bool, with_card: bool) -> Role {
        Role {
            resources: if with_card {
                r.resources
            } else {
                (r.resources - 1) as usize
            },
            facilities: if is_builder && r.facilities < 4 {
                (r.facilities + 1) as usize
            } else {
                r.facilities
            },
            acted: is_builder || r.acted,
            ..r
        }
    }

    /// The whole registry after one build action by `b`.
    pub open spec fn after_build(self, b: RoleName, with_card: bool) -> Roles {
        Roles {
            hab: Roles::after_build_role(self.hab, b == RoleName::Hab, with_card),
            joul: Roles::after_build_role(self.joul, b == RoleName::Joul, with_card),
            man: Roles::after_build_role(self.man, b == RoleName::Man, with_card),
        }
    }

    /// Shared read access by role identity.
    pub fn get(&self, n: RoleName) -> (r: &Role)
        ensures
            *r == self.spec_get(n),
    {
        match n {
            RoleName::Hab => &self.hab,
            RoleName::Joul => &self.joul,
            RoleName::Man => &self.man,
        }
    }

    /// Mutable access by role identity.
    pub fn get_mut(&mut self, n: RoleName) -> (r: &mut Role)
        ensures
            *r == old(self).spec_get(n),
            *final(self) == old(self).spec_set(n, *final(r)),
    {
        match n {
            RoleName::Hab => &mut self.hab,
            RoleName::Joul => &mut self.joul,
            RoleName::Man => &mut self.man,
        }
    }

    /// Start of the Good Phase: every role gains one resource per undamaged
    /// facility, damage is cleared, and the acted flag is reset.
    pub fn replenish_all(&mut self)
        ensures
            *final(self) == old(self).replenish_spec(),
            forall|n: RoleName| final(self).spec_get(n) == Roles::replenished(
                #[trigger] old(self).spec_get(n),
            ),
            final(self).damage_within(),
            old(self).wf() ==> final(self).wf(),
    {
        self.replenish_one(RoleName::Hab);
        self.replenish_one(RoleName::Joul);
        self.replenish_one(RoleName::Man);
        assert forall|n: RoleName| final(self).spec_get(n) == Roles::replenished(
            #[trigger] old(self).spec_get(n),
        ) by {
            match n {
                RoleName::Hab => {},
                RoleName::Joul => {},
                RoleName::Man => {},
            }
        }
    }

    /// The bound that well-formedness carries for every role: the facility
    /// count never exceeds four (and, being a count, never goes below zero).
    /// Every constructor and mutator of the game state keeps `wf`, so this
    /// holds at every observable point.
    pub proof fn lemma_wf_facility_bounds(self)
        requires
            self.wf(),
        ensures
            forall|n: RoleName| #[trigger] self.spec_get(n).facilities <= 4,
    {
        assert forall|n: RoleName| #[trigger] self.spec_get(n).facilities <= 4 by {
            match n {
                RoleName::Hab => {},
                RoleName::Joul => {},
                RoleName::Man => {},
            }
        }
    }

    /// The unacted listing is truthful and complete: it holds exactly the
    /// roles that have not acted, each with its facility count, and it is
    /// empty exactly when everyone has acted.
    pub proof fn lemma_unacted_entries(self)
        ensures
            forall|e: (RoleName, usize)| #[trigger] self.unacted_entries().contains(e)
                ==> !self.spec_get(e.0).acted && e.1 == self.spec_get(e.0).facilities,
            forall|n: RoleName| !self.spec_get(n).acted ==> self.unacted_entries().contains(
                (n, self.spec_get(n).facilities),
            ),
            self.unacted_entries().len() == 0 <==> self.all_acted(),
    {
        let u = self.unacted_entries();
        assert forall|e: (RoleName, usize)| #[trigger] u.contains(e) implies !self.spec_get(
            e.0,
        ).acted && e.1 == self.spec_get(e.0).facilities by {
            let i = choose|i: int| 0 <= i < u.len() && u[i] == e;
            assert(u[i] == e);
        }
        assert forall|n: RoleName| !self.spec_get(n).acted implies u.contains(
            (n, self.spec_get(n).facilities),
        ) by {
            let hlen: int = if !self.hab.acted { 1int } else { 0int };
            let jlen: int = if !self.joul.acted { 1int } else { 0int };
            match n {
                RoleName::Hab => {
                    assert(u[0] == (RoleName::Hab, self.hab.facilities));
                },
                RoleName::Joul => {
                    assert(u[hlen] == (RoleName::Joul, self.joul.facilities));
                },
                RoleName::Man => {
                    assert(u[hlen + jlen] == (RoleName::Man, self.man.facilities));
                },
            }
        }
    }

    fn replenish_one(&mut self, n: RoleName)
        ensures
            *final(self) == old(self).spec_set(n, Roles::replenished(old(self).spec_get(n))),
    {
        let r = self.get_mut(n);
        if r.facilities > r.facilities_damaged {
            r.resources = r.facilities - r.facilities_damaged;
        } else {
            r.resources = 0;
        }
        r.facilities_damaged = 0;
        r.acted = false;
    }
}

} // verus!
