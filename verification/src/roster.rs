//! The listing roster: the name of every stock slot, whether the slot is
//! listed, and the registry of names in use, kept in step so that listed
//! stocks always carry distinct, registered names.

use vstd::prelude::*;
use crate::names::{draw_nameplate, drawn_by, nameplate_len, views, NameRegistry};
use crate::seed::SplitMix64;
use crate::values::EXCHANGES;

verus! {

/// The names of the listed slots.
pub open spec fn listed_names(names: Seq<Seq<char>>, alive: Seq<bool>) -> Set<Seq<char>> {
    Set::new(|x: Seq<char>| exists|i: int| 0 <= i < names.len() && alive[i] && names[i] == x)
}

/// Names, listing flags and registry agree: one flag per slot, the
/// registry holds exactly the names of listed slots, and no two listed
/// slots share a name.
pub open spec fn roster_consistent(
    names: Seq<Seq<char>>,
    alive: Seq<bool>,
    used: Set<Seq<char>>,
) -> bool {
    &&& names.len() == alive.len()
    &&& used == listed_names(names, alive)
    &&& forall|i: int, j: int|
        0 <= i < names.len() && 0 <= j < names.len() && i != j && alive[i] && alive[j]
            ==> names[i] != names[j]
}

/// The stock slots of a market with their names and listing status.
pub struct Roster {
    names: Vec<String>,
    alive: Vec<bool>,
    used: NameRegistry,
}

impl Roster {
    /// The name of each slot.
    pub closed spec fn names(&self) -> Seq<Seq<char>> {
        views(self.names@)
    }

    /// Whether each slot is listed.
    pub closed spec fn alive(&self) -> Seq<bool> {
        self.alive@
    }

    /// The names in use.
    pub closed spec fn used(&self) -> Set<Seq<char>> {
        self.used@
    }

    #[verifier::type_invariant]
    spec fn inv(&self) -> bool {
        self.names@.len() == self.alive@.len()
    }

    /// An empty roster.
    pub fn new() -> (r: Self)
        ensures
            r.names() == Seq::<Seq<char>>::empty(),
            r.alive() == Seq::<bool>::empty(),
            r.used() == Set::<Seq<char>>::empty(),
            roster_consistent(r.names(), r.alive(), r.used()),
    {
        let used = NameRegistry::new();
        let names: Vec<String> = Vec::new();
        let alive: Vec<bool> = Vec::new();
        assert(views(names@) =~= Seq::<Seq<char>>::empty());
        assert(listed_names(views(names@), alive@) =~= Set::<Seq<char>>::empty());
        Roster { names, alive, used }
    }

    /// The number of slots.
    pub fn slot_count(&self) -> (n: usize)
        ensures
            n == self.names().len(),
            n == self.alive().len(),
    {
        proof {
            use_type_invariant(self);
        }
        self.names.len()
    }

    /// Whether slot `i` is listed.
    pub fn is_alive(&self, i: usize) -> (r: bool)
        requires
            i < self.names().len(),
        ensures
            r == self.alive()[i as int],
    {
        proof {
            use_type_invariant(self);
        }
        self.alive[i]
    }

    /// Opens a new slot on exchange `market_id`, listed under a freshly
    /// drawn name, and returns the name.
    pub fn list_new(&mut self, pp: &mut SplitMix64, market_id: u16) -> (name: String)
        requires
            market_id < EXCHANGES,
            old(self).used().len() < usize::MAX / 2,
        ensures
            !old(self).used().contains(name@),
            drawn_by(old(pp)@, nameplate_len(market_id), old(self).used(), name@, final(pp)@),
            final(self).names() == old(self).names().push(name@),
            final(self).alive() == old(self).alive().push(true),
            final(self).used() == old(self).used().insert(name@),
            roster_consistent(old(self).names(), old(self).alive(), old(self).used())
                ==> roster_consistent(final(self).names(), final(self).alive(), final(self).used()),
    {
        proof {
            use_type_invariant(&*self);
        }
        let mut taken = Roster::new();
        std::mem::swap(&mut taken, self);
        proof {
            use_type_invariant(&taken);
        }
        let Roster { mut names, mut alive, mut used } = taken;
        let ghost n0 = views(names@);
        let ghost a0 = alive@;
        let ghost u0 = used@;
        let name = draw_nameplate(pp, market_id, &mut used);
        names.push(name.clone());
        alive.push(true);
        proof {
            if roster_consistent(n0, a0, u0) {
                let n1 = views(names@);
                assert(n1 =~= n0.push(name@));
                assert(alive@ =~= a0.push(true));
                assert forall|x: Seq<char>| #[trigger] used@.contains(x) == listed_names(
                    n1,
                    alive@,
                ).contains(x) by {
                    if used@.contains(x) {
                        if x == name@ {
                            assert(n1[n0.len() as int] == x);
                        } else {
                            assert(u0.contains(x));
                            let i = choose|i: int| 0 <= i < n0.len() && a0[i] && n0[i] == x;
                            assert(n1[i] == x && alive@[i]);
                        }
                    }
                    if listed_names(n1, alive@).contains(x) {
                        let i = choose|i: int| 0 <= i < n1.len() && alive@[i] && n1[i] == x;
                        if i < n0.len() {
                            assert(listed_names(n0, a0).contains(x));
                        }
                    }
                }
                assert(used@ =~= listed_names(n1, alive@));
                assert forall|i: int, j: int|
                    0 <= i < n1.len() && 0 <= j < n1.len() && i != j && alive@[i] && alive@[j] implies n1[i]
                    != n1[j] by {
                    if i == n0.len() {
                        assert(listed_names(n0, a0).contains(n0[j]));
                    } else if j == n0.len() {
                        assert(listed_names(n0, a0).contains(n0[i]));
                    }
                }
            }
        }
        *self = Roster { names, alive, used };
        name
    }

    /// Takes slot `i` off the list and releases its name.
    pub fn delist(&mut self, i: usize)
        requires
            i < old(self).names().len(),
            old(self).alive()[i as int],
        ensures
            final(self).names() == old(self).names(),
            final(self).alive() == old(self).alive().update(i as int, false),
            final(self).used() == old(self).used().remove(old(self).names()[i as int]),
            roster_consistent(old(self).names(), old(self).alive(), old(self).used())
                ==> roster_consistent(final(self).names(), final(self).alive(), final(self).used()),
    {
        proof {
            use_type_invariant(&*self);
        }
        let mut taken = Roster::new();
        std::mem::swap(&mut taken, self);
        proof {
            use_type_invariant(&taken);
        }
        let Roster { names, mut alive, mut used } = taken;
        let ghost n0 = views(names@);
        let ghost a0 = alive@;
        let ghost u0 = used@;
        used.remove(&names[i]);
        alive.set(i, false);
        proof {
            if roster_consistent(n0, a0, u0) {
                let x0 = n0[i as int];
                assert(names@[i as int]@ == x0);
                assert forall|x: Seq<char>| #[trigger] used@.contains(x) == listed_names(
                    n0,
                    alive@,
                ).contains(x) by {
                    if used@.contains(x) {
                        assert(u0.contains(x) && x != x0);
                        let k = choose|k: int| 0 <= k < n0.len() && a0[k] && n0[k] == x;
                        assert(k != i);
                        assert(alive@[k]);
                    }
                    if listed_names(n0, alive@).contains(x) {
                        let k = choose|k: int| 0 <= k < n0.len() && alive@[k] && n0[k] == x;
                        assert(k != i && a0[k]);
                        assert(listed_names(n0, a0).contains(x));
                        assert(n0[k] != n0[i as int]);
                    }
                }
                assert(used@ =~= listed_names(n0, alive@));
            }
        }
        *self = Roster { names, alive, used };
    }

    /// Lists slot `i` again under a freshly drawn name for exchange
    /// `market_id`, and returns the name.
    pub fn respawn(&mut self, i: usize, pp: &mut SplitMix64, market_id: u16) -> (name: String)
        requires
            i < old(self).names().len(),
            !old(self).alive()[i as int],
            market_id < EXCHANGES,
            old(self).used().len() < usize::MAX / 2,
        ensures
            !old(self).used().contains(name@),
            drawn_by(old(pp)@, nameplate_len(market_id), old(self).used(), name@, final(pp)@),
            final(self).names() == old(self).names().update(i as int, name@),
            final(self).alive() == old(self).alive().update(i as int, true),
            final(self).used() == old(self).used().insert(name@),
            roster_consistent(old(self).names(), old(self).alive(), old(self).used())
                ==> roster_consistent(final(self).names(), final(self).alive(), final(self).used()),
    {
        proof {
            use_type_invariant(&*self);
        }
        let mut taken = Roster::new();
        std::mem::swap(&mut taken, self);
        proof {
            use_type_invariant(&taken);
        }
        let Roster { mut names, mut alive, mut used } = taken;
        let ghost n0 = views(names@);
        let ghost a0 = alive@;
        let ghost u0 = used@;
        let name = draw_nameplate(pp, market_id, &mut used);
        names.set(i, name.clone());
        alive.set(i, true);
        proof {
            if roster_consistent(n0, a0, u0) {
                let n1 = views(names@);
                assert(n1 =~= n0.update(i as int, name@));
                assert forall|x: Seq<char>| #[trigger] used@.contains(x) == listed_names(
                    n1,
                    alive@,
                ).contains(x) by {
                    if used@.contains(x) {
                        if x == name@ {
                            assert(n1[i as int] == x && alive@[i as int]);
                        } else {
                            assert(u0.contains(x));
                            let k = choose|k: int| 0 <= k < n0.len() && a0[k] && n0[k] == x;
                            assert(k != i);
                            assert(n1[k] == x && alive@[k]);
                        }
                    }
                    if listed_names(n1, alive@).contains(x) {
                        let k = choose|k: int| 0 <= k < n1.len() && alive@[k] && n1[k] == x;
                        if k != i {
                            assert(a0[k] && n0[k] == x);
                            assert(listed_names(n0, a0).contains(x));
                        }
                    }
                }
                assert(used@ =~= listed_names(n1, alive@));
                assert forall|a: int, b: int|
                    0 <= a < n1.len() && 0 <= b < n1.len() && a != b && alive@[a] && alive@[b] implies n1[a]
                    != n1[b] by {
                    if a == i {
                        assert(listed_names(n0, a0).contains(n0[b]));
                    } else if b == i {
                        assert(listed_names(n0, a0).contains(n0[a]));
                    }
                }
            }
        }
        *self = Roster { names, alive, used };
        name
    }

    /// A roster from saved slot names, listing flags and names in use,
    /// taken as they are.
    pub fn restore(names: Vec<String>, alive: Vec<bool>, used: Vec<String>) -> (r: Self)
        requires
            names@.len() == alive@.len(),
        ensures
            r.names() == views(names@),
            r.alive() == alive@,
            r.used() == views(used@).to_set(),
    {
        let used = NameRegistry::from_names(used);
        Roster { names, alive, used }
    }

    /// The number of names in use.
    pub fn used_count(&self) -> (n: usize)
        ensures
            n == self.used().len(),
    {
        self.used.len()
    }

    /// The names in use, each once, in no particular order.
    pub fn used_list(&self) -> (r: Vec<String>)
        ensures
            views(r@).no_duplicates(),
            views(r@).to_set() == self.used(),
    {
        self.used.to_vec()
    }
}

} // verus!
