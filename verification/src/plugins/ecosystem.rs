//! Species of the ecosystem and the relations between them.
use vstd::prelude::*;
use std::collections::HashMap;

verus! {

broadcast use vstd::std_specs::hash::group_hash_axioms;

/// Unique identifier for a species
#[derive(Clone, Copy, Debug, PartialEq, Eq, Hash, Structural)]
pub struct SpeciesId(pub u32);

/// Trophic role of a species
#[derive(Clone, Copy, Debug, PartialEq, Eq, Structural)]
pub enum SpeciesType {
    /// Plants, algae
    Producer,
    /// Plant eaters
    Herbivore,
    /// Meat eaters
    Carnivore,
    /// Both
    Omnivore,
    /// Break down dead matter
    Decomposer,
}

/// Index of cell (x, y) in a biome grid of `resolution` (columns, rows),
/// stored row by row. A cell inside the row maps to a distinct index from
/// which its column and row can be read back.
pub fn biome_cell_index(resolution: (usize, usize), x: usize, y: usize) -> (r: usize)
    requires
        y * resolution.0 + x <= usize::MAX,
    ensures
        r == y * resolution.0 + x,
        x < resolution.0 ==> r % resolution.0 == x && r / resolution.0 == y,
{
    proof {
        assert(0 <= y * resolution.0) by (nonlinear_arith);
        if x < resolution.0 {
            vstd::arithmetic::div_mod::lemma_fundamental_div_mod_converse(
                (y * resolution.0 + x) as int,
                resolution.0 as int,
                y as int,
                x as int,
            );
        }
    }
    y * resolution.0 + x
}

/// The species related to `id` in `m`, none when `id` has no entry.
pub open spec fn related(m: Map<u32, Seq<SpeciesId>>, id: u32) -> Seq<SpeciesId> {
    if m.contains_key(id) {
        m[id]
    } else {
        Seq::empty()
    }
}

/// `m` with `to` appended to the species related to `from`.
pub open spec fn with_relation(m: Map<u32, Seq<SpeciesId>>, from: SpeciesId, to: SpeciesId) -> Map<u32, Seq<SpeciesId>> {
    m.insert(from.0, related(m, from.0).push(to))
}

/// A relation between species: for each species, the list of species it relates to.
pub struct SpeciesRelations {
    map: HashMap<u32, Vec<SpeciesId>>,
}

impl View for SpeciesRelations {
    type V = Map<u32, Seq<SpeciesId>>;

    closed spec fn view(&self) -> Map<u32, Seq<SpeciesId>> {
        self.map@.map_values(|v: Vec<SpeciesId>| v@)
    }
}

impl SpeciesRelations {
    /// No relations.
    pub fn new() -> (r: Self)
        ensures
            r@ == Map::<u32, Seq<SpeciesId>>::empty(),
    {
        let r = SpeciesRelations { map: HashMap::new() };
        proof {
            assert(r@ =~= Map::<u32, Seq<SpeciesId>>::empty());
        }
        r
    }

    /// The species that `id` relates to, if it has an entry.
    pub fn get(&self, id: SpeciesId) -> (r: Option<&Vec<SpeciesId>>)
        ensures
            match r {
                Some(v) => self@.contains_key(id.0) && v@ == self@[id.0],
                None => !self@.contains_key(id.0),
            },
    {
        self.map.get(&id.0)
    }

    /// Whether no species has an entry.
    pub fn is_empty(&self) -> (r: bool)
        ensures
            r == self@.dom().is_empty(),
    {
        proof {
            assert(self@.dom() =~= self.map@.dom());
        }
        self.map.is_empty()
    }

    /// Number of species with an entry.
    pub fn len(&self) -> (r: usize)
        ensures
            r == self@.len(),
    {
        proof {
            assert(self@.dom() =~= self.map@.dom());
        }
        self.map.len()
    }

    /// Append `to` to the species related to `from`.
    fn add(&mut self, from: SpeciesId, to: SpeciesId)
        ensures
            final(self)@ == with_relation(old(self)@, from, to),
    {
        let mut list = match self.map.remove(&from.0) {
            Some(v) => v,
            None => Vec::new(),
        };
        list.push(to);
        self.map.insert(from.0, list);
        proof {
            assert(self@ =~= with_relation(old(self)@, from, to));
        }
    }
}

/// Food chain relationships
pub struct FoodChain {
    /// Predator-prey relationships (predator -> list of prey)
    pub predation: SpeciesRelations,
    /// Competition relationships (species -> competitors)
    pub competition: SpeciesRelations,
}

impl Default for FoodChain {
    fn default() -> (r: Self)
        ensures
            r.predation@ == Map::<u32, Seq<SpeciesId>>::empty(),
            r.competition@ == Map::<u32, Seq<SpeciesId>>::empty(),
    {
        FoodChain { predation: SpeciesRelations::new(), competition: SpeciesRelations::new() }
    }
}

impl FoodChain {
    /// Record that `predator` preys on `prey`
    pub fn add_predation(&mut self, predator: SpeciesId, prey: SpeciesId)
        ensures
            final(self).predation@ == with_relation(old(self).predation@, predator, prey),
            final(self).competition@ == old(self).competition@,
    {
        self.predation.add(predator, prey);
    }

    /// Record that the two species compete, in both directions
    pub fn add_competition(&mut self, species1: SpeciesId, species2: SpeciesId)
        ensures
            final(self).competition@ == with_relation(
                with_relation(old(self).competition@, species1, species2),
                species2,
                species1,
            ),
            final(self).predation@ == old(self).predation@,
    {
        self.competition.add(species1, species2);
        self.competition.add(species2, species1);
    }
}

/// Each species that `a` relates to relates back to `a`.
pub open spec fn symmetric(m: Map<u32, Seq<SpeciesId>>) -> bool {
    forall|a: u32, b: SpeciesId| #[trigger] related(m, a).contains(b) ==> related(m, b.0).contains(SpeciesId(a))
}

/// Law: recording a competition keeps the competition relation symmetric,
/// and both species then list each other.
pub proof fn law_competition_symmetric(m: Map<u32, Seq<SpeciesId>>, s1: SpeciesId, s2: SpeciesId)
    requires
        symmetric(m),
    ensures
        symmetric(with_relation(with_relation(m, s1, s2), s2, s1)),
        related(with_relation(with_relation(m, s1, s2), s2, s1), s1.0).contains(s2),
        related(with_relation(with_relation(m, s1, s2), s2, s1), s2.0).contains(s1),
{
    broadcast use vstd::seq_lib::lemma_seq_contains_after_push;

    let m1 = with_relation(m, s1, s2);
    let m2 = with_relation(m1, s2, s1);
    assert(SpeciesId(s1.0) == s1);
    assert(SpeciesId(s2.0) == s2);
    assert forall|a: u32, b: SpeciesId| #[trigger] related(m2, a).contains(b) implies related(m2, b.0).contains(
        SpeciesId(a),
    ) by {
        // every entry of m2 is an entry of m, or one of the two new ones
        assert(related(m2, a) == if a == s2.0 {
            related(m1, a).push(s1)
        } else {
            related(m1, a)
        });
        assert(related(m1, a) == if a == s1.0 {
            related(m, a).push(s2)
        } else {
            related(m, a)
        });
        assert(related(m2, b.0) == if b.0 == s2.0 {
            related(m1, b.0).push(s1)
        } else {
            related(m1, b.0)
        });
        assert(related(m1, b.0) == if b.0 == s1.0 {
            related(m, b.0).push(s2)
        } else {
            related(m, b.0)
        });
        if related(m, a).contains(b) {
            assert(related(m, b.0).contains(SpeciesId(a)));
        }
    }
}

} // verus!
