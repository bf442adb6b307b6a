//! Discovery and tech tree: players progress by discovering phenomena,
//! and technologies unlock once the phenomena they need are known.
use vstd::prelude::*;
use std::collections::{HashMap, HashSet};

verus! {

broadcast use vstd::std_specs::hash::group_hash_axioms, vstd::string::group_string_axioms;

/// Unique identifier for a phenomenon that can be discovered
#[derive(Clone, Copy, Debug, PartialEq, Eq, Hash, Structural)]
pub struct PhenomenonId(pub u32);

/// Unique identifier for a technology that can be unlocked
#[derive(Clone, Copy, Debug, PartialEq, Eq, Hash, Structural)]
pub struct TechId(pub u32);

/// Categories of phenomena
#[derive(Clone, Copy, Debug, PartialEq, Eq, Hash, Structural)]
pub enum PhenomenonCategory {
    // Tier 0: Basic Survival
    Fire,
    Gravity,
    Buoyancy,
    Leverage,
    // Tier 1: Agriculture & Metallurgy
    PlantGrowth,
    Fermentation,
    Smelting,
    Alloying,
    // Tier 2: Industrial
    SteamPower,
    MechanicalAdvantage,
    ChemicalReactions,
    Pressure,
    // Tier 3: Electrical
    Electricity,
    Magnetism,
    Electromagnetism,
    Semiconductors,
    // Tier 4: Nuclear & Space
    Radioactivity,
    NuclearFission,
    NuclearFusion,
    OrbitalMechanics,
    // Tier 5: Relativistic
    TimeDilation,
    LengthContraction,
    MassEnergy,
    // Tier 6: Quantum
    Superposition,
    Entanglement,
    Tunneling,
    // Tier 7+: Speculative
    ExoticMatter,
    WarpField,
    BlackHolePhysics,
    Multiverse,
}

/// How a phenomenon can be discovered
#[derive(Clone, Debug)]
pub enum DiscoveryMethod {
    /// Observe something happen naturally
    Observation { condition: String },
    /// Perform a specific experiment
    Experiment { procedure: String },
    /// Use instruments to measure, down to a resolution of `10^threshold_log10`
    Measurement { instrument: String, threshold_log10: i32 },
    /// Combine discovered phenomena
    Synthesis { required: Vec<PhenomenonId> },
    /// Taught by another player or NPC
    Teaching,
}

/// A phenomenon that can be discovered
#[derive(Clone, Debug)]
pub struct Phenomenon {
    pub id: PhenomenonId,
    pub name: String,
    pub description: String,
    pub category: PhenomenonCategory,
    pub tier: u32,
    /// Prerequisites (other phenomena that must be discovered first)
    pub prerequisites: Vec<PhenomenonId>,
    /// How the phenomenon can be discovered
    pub discovery_method: DiscoveryMethod,
    /// How difficult to discover (multiplier on conditions), in tenths
    pub discovery_difficulty_tenths: u32,
}

/// What a technology unlocks
#[derive(Clone, Debug)]
pub enum TechUnlock {
    /// A new ability (e.g., "Cook Food")
    Ability(String),
    /// A crafting recipe
    Recipe(String),
    /// A buildable blueprint
    Blueprint(String),
    /// Access to a new phenomenon to research
    Phenomenon(PhenomenonId),
}

/// A technology that can be unlocked
#[derive(Clone, Debug)]
pub struct Technology {
    pub id: TechId,
    pub name: String,
    pub description: String,
    pub tier: u32,
    /// Phenomena that must be known to unlock this tech
    pub required_knowledge: Vec<PhenomenonId>,
    /// What this technology unlocks
    pub unlocks: Vec<TechUnlock>,
}

/// A set of phenomena.
pub struct PhenomenonSet {
    ids: HashSet<u32>,
}

impl View for PhenomenonSet {
    type V = Set<u32>;

    closed spec fn view(&self) -> Set<u32> {
        self.ids@
    }
}

impl PhenomenonSet {
    /// The empty set.
    pub fn new() -> (r: Self)
        ensures
            r@ == Set::<u32>::empty(),
    {
        PhenomenonSet { ids: HashSet::new() }
    }

    /// Add `id`; true when it was not there before.
    pub fn insert(&mut self, id: PhenomenonId) -> (r: bool)
        ensures
            final(self)@ == old(self)@.insert(id.0),
            r == !old(self)@.contains(id.0),
    {
        self.ids.insert(id.0)
    }

    /// Whether `id` is in the set.
    pub fn contains(&self, id: &PhenomenonId) -> (r: bool)
        ensures
            r == self@.contains(id.0),
    {
        self.ids.contains(&id.0)
    }

    /// Number of phenomena in the set.
    pub fn len(&self) -> (r: usize)
        ensures
            r == self@.len(),
    {
        self.ids.len()
    }

    /// Whether the set is empty.
    pub fn is_empty(&self) -> (r: bool)
        ensures
            r == self@.is_empty(),
    {
        self.ids.is_empty()
    }
}

/// A set of technologies.
pub struct TechSet {
    ids: HashSet<u32>,
}

impl View for TechSet {
    type V = Set<u32>;

    closed spec fn view(&self) -> Set<u32> {
        self.ids@
    }
}

impl TechSet {
    /// The empty set.
    pub fn new() -> (r: Self)
        ensures
            r@ == Set::<u32>::empty(),
    {
        TechSet { ids: HashSet::new() }
    }

    /// Add `id`; true when it was not there before.
    pub fn insert(&mut self, id: TechId) -> (r: bool)
        ensures
            final(self)@ == old(self)@.insert(id.0),
            r == !old(self)@.contains(id.0),
    {
        self.ids.insert(id.0)
    }

    /// Whether `id` is in the set.
    pub fn contains(&self, id: &TechId) -> (r: bool)
        ensures
            r == self@.contains(id.0),
    {
        self.ids.contains(&id.0)
    }

    /// Number of technologies in the set.
    pub fn len(&self) -> (r: usize)
        ensures
            r == self@.len(),
    {
        self.ids.len()
    }

    /// Whether the set is empty.
    pub fn is_empty(&self) -> (r: bool)
        ensures
            r == self@.is_empty(),
    {
        self.ids.is_empty()
    }
}

/// A player's personal knowledge
pub struct PlayerKnowledge {
    /// Phenomena this player has personally discovered
    pub discovered: PhenomenonSet,
    /// Phenomena this player knows about (from teaching/reading)
    pub known: PhenomenonSet,
    /// Technologies this player has unlocked
    pub unlocked_tech: TechSet,
    /// Current research focus
    pub research_focus: Option<PhenomenonId>,
    /// Personal notes, by phenomenon id
    pub notes: HashMap<u32, String>,
}

impl Default for PlayerKnowledge {
    fn default() -> (r: Self)
        ensures
            r.discovered@ == Set::<u32>::empty(),
            r.known@ == Set::<u32>::empty(),
            r.unlocked_tech@ == Set::<u32>::empty(),
            r.research_focus is None,
            r.notes@ == Map::<u32, String>::empty(),
    {
        PlayerKnowledge {
            discovered: PhenomenonSet::new(),
            known: PhenomenonSet::new(),
            unlocked_tech: TechSet::new(),
            research_focus: None,
            notes: HashMap::new(),
        }
    }
}

/// The player has discovered or learned about `p`.
pub open spec fn knows(k: &PlayerKnowledge, p: PhenomenonId) -> bool {
    k.discovered@.contains(p.0) || k.known@.contains(p.0)
}

/// The player knows every phenomenon in `ids`.
pub open spec fn knows_all(k: &PlayerKnowledge, ids: Seq<PhenomenonId>) -> bool {
    forall|i: int| 0 <= i < ids.len() ==> knows(k, #[trigger] ids[i])
}

impl PlayerKnowledge {
    /// Whether every phenomenon in `ids` is discovered or known.
    fn knows_all_of(&self, ids: &Vec<PhenomenonId>) -> (r: bool)
        ensures
            r == knows_all(self, ids@),
    {
        let mut i: usize = 0;
        while i < ids.len()
            invariant
                i <= ids.len(),
                forall|j: int| 0 <= j < i ==> knows(self, #[trigger] ids@[j]),
            decreases ids.len() - i,
        {
            if !self.discovered.contains(&ids[i]) && !self.known.contains(&ids[i]) {
                return false;
            }
            i = i + 1;
        }
        true
    }

    /// Check if player can discover a phenomenon: every prerequisite is
    /// discovered or known.
    pub fn can_discover(&self, phenomenon: &Phenomenon) -> (r: bool)
        ensures
            r == knows_all(self, phenomenon.prerequisites@),
    {
        self.knows_all_of(&phenomenon.prerequisites)
    }
}

/// A discovered piece of knowledge
pub struct Discovery {
    pub phenomenon: PhenomenonId,
    /// Player ID (0 for NPC/system)
    pub discoverer: u64,
    /// Simulation time of the discovery, in whole seconds
    pub timestamp_seconds: u64,
    pub method: DiscoveryMethod,
    /// Player-written notes
    pub notes: String,
    /// How well-documented, in percent (0-100)
    pub reproducibility_percent: u8,
}

/// Global knowledge base shared by all players: the discovery record of
/// every phenomenon that anyone has discovered, by phenomenon id.
pub struct GlobalKnowledgeBase {
    discoveries: HashMap<u32, Discovery>,
}

impl View for GlobalKnowledgeBase {
    type V = Map<u32, Discovery>;

    closed spec fn view(&self) -> Map<u32, Discovery> {
        self.discoveries@
    }
}

impl Default for GlobalKnowledgeBase {
    fn default() -> (r: Self)
        ensures
            r@ == Map::<u32, Discovery>::empty(),
    {
        GlobalKnowledgeBase { discoveries: HashMap::new() }
    }
}

impl GlobalKnowledgeBase {
    /// Check if a phenomenon has been discovered globally
    pub fn is_discovered(&self, id: PhenomenonId) -> (r: bool)
        ensures
            r == self@.contains_key(id.0),
    {
        self.discoveries.contains_key(&id.0)
    }

    /// Get the discovery record for a phenomenon
    pub fn get_discovery(&self, id: PhenomenonId) -> (r: Option<&Discovery>)
        ensures
            r == if self@.contains_key(id.0) {
                Some(&self@[id.0])
            } else {
                None
            },
    {
        self.discoveries.get(&id.0)
    }

    /// Record a new discovery, replacing any earlier record of the same phenomenon
    pub fn record_discovery(&mut self, discovery: Discovery)
        ensures
            final(self)@ == old(self)@.insert(discovery.phenomenon.0, discovery),
    {
        let key = discovery.phenomenon.0;
        self.discoveries.insert(key, discovery);
    }

    /// Number of phenomena discovered by anyone.
    pub fn len(&self) -> (r: usize)
        ensures
            r == self@.len(),
    {
        self.discoveries.len()
    }
}

/// Event when something is discovered
pub struct DiscoveryEvent {
    pub player: u64,
    pub phenomenon: PhenomenonId,
    pub method: DiscoveryMethod,
    /// First person to discover this
    pub is_first: bool,
}

/// `j` is the first entry of `players` that belongs to player `id`.
pub open spec fn is_first_entry_of(players: Seq<(u64, PlayerKnowledge)>, id: u64, j: int) -> bool {
    &&& 0 <= j < players.len()
    &&& players[j].0 == id
    &&& forall|k: int| 0 <= k < j ==> players[k].0 != id
}

/// Process a discovery event. A first discovery is recorded in the shared
/// knowledge base: discovered by the event's player, at time zero, by the
/// event's method, without notes and fully reproducible. The phenomenon then
/// joins the personal discoveries of the first entry in `players` that
/// belongs to the event's player; nothing else changes.
pub fn process_discovery_event(
    knowledge_base: &mut GlobalKnowledgeBase,
    players: &mut Vec<(u64, PlayerKnowledge)>,
    event: DiscoveryEvent,
)
    ensures
        final(knowledge_base)@ == if event.is_first {
            old(knowledge_base)@.insert(
                event.phenomenon.0,
                final(knowledge_base)@[event.phenomenon.0],
            )
        } else {
            old(knowledge_base)@
        },
        event.is_first ==> {
            let d = final(knowledge_base)@[event.phenomenon.0];
            &&& d.phenomenon == event.phenomenon
            &&& d.discoverer == event.player
            &&& d.timestamp_seconds == 0
            &&& d.method == event.method
            &&& d.notes@ == Seq::<char>::empty()
            &&& d.reproducibility_percent == 100
        },
        final(players)@.len() == old(players)@.len(),
        forall|j: int|
            0 <= j < old(players)@.len() ==> {
                let (id, k) = #[trigger] final(players)@[j];
                &&& id == old(players)@[j].0
                &&& k.discovered@ == if is_first_entry_of(old(players)@, event.player, j) {
                    old(players)@[j].1.discovered@.insert(event.phenomenon.0)
                } else {
                    old(players)@[j].1.discovered@
                }
                &&& k.known@ == old(players)@[j].1.known@
                &&& k.unlocked_tech@ == old(players)@[j].1.unlocked_tech@
                &&& k.research_focus == old(players)@[j].1.research_focus
            },
{
    let player = event.player;
    let phenomenon = event.phenomenon;
    if event.is_first {
        knowledge_base.record_discovery(
            Discovery {
                phenomenon,
                discoverer: player,
                timestamp_seconds: 0,
                method: event.method,
                notes: String::new(),
                reproducibility_percent: 100,
            },
        );
    }
    let ghost base_after = knowledge_base@;
    proof {
        if event.is_first {
            assert(base_after == old(knowledge_base)@.insert(event.phenomenon.0, base_after[event.phenomenon.0]));
        }
    }
    let mut i: usize = 0;
    while i < players.len()
        invariant
            i <= players.len(),
            player == event.player,
            phenomenon == event.phenomenon,
            knowledge_base@ == base_after,
            base_after == if event.is_first {
                old(knowledge_base)@.insert(event.phenomenon.0, base_after[event.phenomenon.0])
            } else {
                old(knowledge_base)@
            },
            event.is_first ==> {
                let d = base_after[event.phenomenon.0];
                &&& d.phenomenon == event.phenomenon
                &&& d.discoverer == event.player
                &&& d.timestamp_seconds == 0
                &&& d.method == event.method
                &&& d.notes@ == Seq::<char>::empty()
                &&& d.reproducibility_percent == 100
            },
            players@.len() == old(players)@.len(),
            forall|k: int| 0 <= k < i ==> old(players)@[k].0 != player,
            forall|j: int| 0 <= j < players@.len() ==> #[trigger] players@[j] == old(players)@[j],
        decreases players.len() - i,
    {
        if players[i].0 == player {
            players[i].1.discovered.insert(phenomenon);
            assert forall|j: int| 0 <= j < old(players)@.len() && j != i implies !is_first_entry_of(
                old(players)@,
                player,
                j,
            ) by {
                if j > i {
                    assert(old(players)@[i as int].0 == player);
                }
            }
            assert(is_first_entry_of(old(players)@, player, i as int));
            return;
        }
        i = i + 1;
    }
}

/// All phenomena, each stored at the index given by its id.
pub struct PhenomenonRegistry {
    items: Vec<Phenomenon>,
}

impl View for PhenomenonRegistry {
    type V = Seq<Phenomenon>;

    closed spec fn view(&self) -> Seq<Phenomenon> {
        self.items@
    }
}

impl PhenomenonRegistry {
    #[verifier::type_invariant]
    closed spec fn inv(self) -> bool {
        forall|i: int| 0 <= i < self.items.len() ==> (#[trigger] self.items@[i]).id.0 == i
    }

    /// The registry is indexed by id.
    pub closed spec fn indexed(self) -> bool {
        forall|i: int| 0 <= i < self@.len() ==> (#[trigger] self@[i]).id.0 == i
    }

    /// An empty registry.
    pub fn new() -> (r: Self)
        ensures
            r@ == Seq::<Phenomenon>::empty(),
    {
        PhenomenonRegistry { items: Vec::new() }
    }

    /// Number of phenomena.
    pub fn len(&self) -> (r: usize)
        ensures
            r == self@.len(),
    {
        self.items.len()
    }

    /// Whether there are no phenomena.
    pub fn is_empty(&self) -> (r: bool)
        ensures
            r == (self@.len() == 0),
    {
        self.items.len() == 0
    }

    /// All phenomena, in id order.
    pub fn all(&self) -> (r: &Vec<Phenomenon>)
        ensures
            r@ == self@,
            forall|i: int| 0 <= i < r.len() ==> (#[trigger] r@[i]).id.0 == i,
    {
        proof {
            use_type_invariant(self);
        }
        &self.items
    }

    /// The phenomenon with id `id`, if any.
    pub fn get(&self, id: PhenomenonId) -> (r: Option<&Phenomenon>)
        ensures
            match r {
                Some(p) => id.0 < self@.len() && *p == self@[id.0 as int],
                None => id.0 >= self@.len(),
            },
    {
        if (id.0 as usize) < self.items.len() {
            Some(&self.items[id.0 as usize])
        } else {
            None
        }
    }

    /// Register `phenomenon` under the next free id, which it returns.
    fn push(&mut self, phenomenon: Phenomenon) -> (id: PhenomenonId)
        requires
            old(self)@.len() < u32::MAX,
        ensures
            id.0 == old(self)@.len(),
            final(self)@ == old(self)@.push(Phenomenon { id, ..phenomenon }),
    {
        proof {
            use_type_invariant(&*self);
        }
        let id = PhenomenonId(self.items.len() as u32);
        let mut items = Vec::new();
        std::mem::swap(&mut items, &mut self.items);
        items.push(Phenomenon { id, ..phenomenon });
        self.items = items;
        id
    }
}

/// All technologies, each stored at the index given by its id.
pub struct TechnologyRegistry {
    items: Vec<Technology>,
}

impl View for TechnologyRegistry {
    type V = Seq<Technology>;

    closed spec fn view(&self) -> Seq<Technology> {
        self.items@
    }
}

impl TechnologyRegistry {
    #[verifier::type_invariant]
    closed spec fn inv(self) -> bool {
        forall|i: int| 0 <= i < self.items.len() ==> (#[trigger] self.items@[i]).id.0 == i
    }

    /// An empty registry.
    pub fn new() -> (r: Self)
        ensures
            r@ == Seq::<Technology>::empty(),
    {
        TechnologyRegistry { items: Vec::new() }
    }

    /// Number of technologies.
    pub fn len(&self) -> (r: usize)
        ensures
            r == self@.len(),
    {
        self.items.len()
    }

    /// Whether there are no technologies.
    pub fn is_empty(&self) -> (r: bool)
        ensures
            r == (self@.len() == 0),
    {
        self.items.len() == 0
    }

    /// All technologies, in id order.
    pub fn all(&self) -> (r: &Vec<Technology>)
        ensures
            r@ == self@,
            forall|i: int| 0 <= i < r.len() ==> (#[trigger] r@[i]).id.0 == i,
    {
        proof {
            use_type_invariant(self);
        }
        &self.items
    }

    /// The technology with id `id`, if any.
    pub fn get(&self, id: TechId) -> (r: Option<&Technology>)
        ensures
            match r {
                Some(t) => id.0 < self@.len() && *t == self@[id.0 as int],
                None => id.0 >= self@.len(),
            },
    {
        if (id.0 as usize) < self.items.len() {
            Some(&self.items[id.0 as usize])
        } else {
            None
        }
    }

    /// Register `tech` under the next free id, which it returns.
    fn push(&mut self, tech: Technology) -> (id: TechId)
        requires
            old(self)@.len() < u32::MAX,
        ensures
            id.0 == old(self)@.len(),
            final(self)@ == old(self)@.push(Technology { id, ..tech }),
    {
        proof {
            use_type_invariant(&*self);
        }
        let id = TechId(self.items.len() as u32);
        let mut items = Vec::new();
        std::mem::swap(&mut items, &mut self.items);
        items.push(Technology { id, ..tech });
        self.items = items;
        id
    }
}

/// A technology the player has not unlocked and whose required phenomena are all known.
pub open spec fn tech_available(k: &PlayerKnowledge, t: Technology) -> bool {
    !k.unlocked_tech@.contains(t.id.0) && knows_all(k, t.required_knowledge@)
}

/// A phenomenon the player neither discovered nor knows, whose prerequisites are all known.
pub open spec fn phenomenon_researchable(k: &PlayerKnowledge, p: Phenomenon) -> bool {
    !k.discovered@.contains(p.id.0) && !k.known@.contains(p.id.0) && knows_all(k, p.prerequisites@)
}

/// The tech tree: phenomena to discover and technologies they unlock
pub struct TechTree {
    /// All technologies
    pub technologies: TechnologyRegistry,
    /// Phenomena registry
    pub phenomena: PhenomenonRegistry,
}

/// How a phenomenon is discovered, with its texts as character sequences.
pub ghost enum MethodView {
    Observation(Seq<char>),
    Experiment(Seq<char>),
    Measurement(Seq<char>, i32),
    Synthesis(Seq<PhenomenonId>),
    Teaching,
}

/// The view of a discovery method.
pub open spec fn method_view(m: DiscoveryMethod) -> MethodView {
    match m {
        DiscoveryMethod::Observation { condition } => MethodView::Observation(condition@),
        DiscoveryMethod::Experiment { procedure } => MethodView::Experiment(procedure@),
        DiscoveryMethod::Measurement { instrument, threshold_log10 } => MethodView::Measurement(
            instrument@,
            threshold_log10,
        ),
        DiscoveryMethod::Synthesis { required } => MethodView::Synthesis(required@),
        DiscoveryMethod::Teaching => MethodView::Teaching,
    }
}

/// What a technology unlocks, with its names as character sequences.
pub ghost enum UnlockView {
    Ability(Seq<char>),
    Recipe(Seq<char>),
    Blueprint(Seq<char>),
    Phenomenon(PhenomenonId),
}

/// The view of an unlock.
pub open spec fn unlock_view(u: TechUnlock) -> UnlockView {
    match u {
        TechUnlock::Ability(name) => UnlockView::Ability(name@),
        TechUnlock::Recipe(name) => UnlockView::Recipe(name@),
        TechUnlock::Blueprint(name) => UnlockView::Blueprint(name@),
        TechUnlock::Phenomenon(id) => UnlockView::Phenomenon(id),
    }
}

/// `p` has the given id, name, description, category, tier, prerequisites,
/// discovery method and difficulty.
pub open spec fn phenomenon_is(
    p: Phenomenon,
    id: u32,
    name: Seq<char>,
    description: Seq<char>,
    category: PhenomenonCategory,
    tier: u32,
    prerequisites: Seq<PhenomenonId>,
    method: MethodView,
    difficulty_tenths: u32,
) -> bool {
    &&& p.id.0 == id
    &&& p.name@ == name
    &&& p.description@ == description
    &&& p.category == category
    &&& p.tier == tier
    &&& p.prerequisites@ == prerequisites
    &&& method_view(p.discovery_method) == method
    &&& p.discovery_difficulty_tenths == difficulty_tenths
}

/// `t` has the given id, name, description, tier, required phenomena and unlocks.
pub open spec fn technology_is(
    t: Technology,
    id: u32,
    name: Seq<char>,
    description: Seq<char>,
    tier: u32,
    required: Seq<PhenomenonId>,
    unlocks: Seq<UnlockView>,
) -> bool {
    &&& t.id.0 == id
    &&& t.name@ == name
    &&& t.description@ == description
    &&& t.tier == tier
    &&& t.required_knowledge@ == required
    &&& t.unlocks@.map_values(|u: TechUnlock| unlock_view(u)) == unlocks
}

/// The base tree: its ten phenomena and five technologies.
pub open spec fn is_base_tree(t: TechTree) -> bool {
    let ph = t.phenomena@;
    let te = t.technologies@;
    &&& ph.len() == 10
    &&& phenomenon_is(
        ph[0],
        0,
        "Fire"@,
        "Combustion releases heat and light"@,
        PhenomenonCategory::Fire,
        0,
        seq![],
        MethodView::Observation("Strike flint and steel, or rub sticks together"@),
        10,
    )
    &&& phenomenon_is(
        ph[1],
        1,
        "Gravity"@,
        "Objects fall toward massive bodies"@,
        PhenomenonCategory::Gravity,
        0,
        seq![],
        MethodView::Observation("Drop an object and observe it fall"@),
        5,
    )
    &&& phenomenon_is(
        ph[2],
        2,
        "Leverage"@,
        "Mechanical advantage through levers"@,
        PhenomenonCategory::Leverage,
        0,
        seq![],
        MethodView::Experiment("Use a stick as a lever to move a heavy object"@),
        10,
    )
    &&& phenomenon_is(
        ph[3],
        3,
        "Plant Growth"@,
        "Plants grow from seeds with water and sunlight"@,
        PhenomenonCategory::PlantGrowth,
        1,
        seq![],
        MethodView::Observation("Plant a seed and watch it grow over time"@),
        20,
    )
    &&& phenomenon_is(
        ph[4],
        4,
        "Smelting"@,
        "Metal can be extracted from ore with heat"@,
        PhenomenonCategory::Smelting,
        1,
        seq![PhenomenonId(0)],
        MethodView::Experiment("Heat ore to extreme temperatures in a furnace"@),
        30,
    )
    &&& phenomenon_is(
        ph[5],
        5,
        "Electricity"@,
        "Flow of electric charge through conductors"@,
        PhenomenonCategory::Electricity,
        3,
        seq![],
        MethodView::Experiment("Create a potential difference between two materials"@),
        50,
    )
    &&& phenomenon_is(
        ph[6],
        6,
        "Magnetism"@,
        "Magnetic fields attract and repel"@,
        PhenomenonCategory::Magnetism,
        3,
        seq![],
        MethodView::Observation("Observe lodestone attracting iron"@),
        30,
    )
    &&& phenomenon_is(
        ph[7],
        7,
        "Electromagnetism"@,
        "Electric current creates magnetic fields"@,
        PhenomenonCategory::Electromagnetism,
        3,
        seq![PhenomenonId(5), PhenomenonId(6)],
        MethodView::Experiment("Pass current through a wire near a compass"@),
        60,
    )
    &&& phenomenon_is(
        ph[8],
        8,
        "Semiconductors"@,
        "Materials that conduct electricity under certain conditions"@,
        PhenomenonCategory::Semiconductors,
        3,
        seq![PhenomenonId(5)],
        MethodView::Measurement("Resistance Meter"@, -6i32),
        80,
    )
    &&& phenomenon_is(
        ph[9],
        9,
        "Time Dilation"@,
        "Time passes slower at high velocities"@,
        PhenomenonCategory::TimeDilation,
        5,
        seq![PhenomenonId(5), PhenomenonId(1)],
        MethodView::Measurement("Precise Atomic Clock"@, -15i32),
        200,
    )
    &&& te.len() == 5
    &&& technology_is(
        te[0],
        0,
        "Fire Starting"@,
        "Create and control fire"@,
        0,
        seq![PhenomenonId(0)],
        seq![UnlockView::Ability("Cook Food"@), UnlockView::Ability("Stay Warm"@), UnlockView::Recipe("Torch"@)],
    )
    &&& technology_is(
        te[1],
        1,
        "Simple Tools"@,
        "Basic hand tools for survival"@,
        0,
        seq![PhenomenonId(2)],
        seq![
            UnlockView::Recipe("Stone Knife"@),
            UnlockView::Recipe("Wooden Club"@),
            UnlockView::Recipe("Simple Lever"@),
        ],
    )
    &&& technology_is(
        te[2],
        2,
        "Basic Circuits"@,
        "Create simple electrical circuits"@,
        3,
        seq![PhenomenonId(5)],
        seq![
            UnlockView::Recipe("Wire"@),
            UnlockView::Recipe("Switch"@),
            UnlockView::Recipe("Resistor"@),
            UnlockView::Blueprint("Simple Circuit"@),
        ],
    )
    &&& technology_is(
        te[3],
        3,
        "Electromagnetic Devices"@,
        "Devices using electromagnetism"@,
        3,
        seq![PhenomenonId(7)],
        seq![
            UnlockView::Recipe("Electromagnet"@),
            UnlockView::Recipe("Electric Motor"@),
            UnlockView::Recipe("Generator"@),
        ],
    )
    &&& technology_is(
        te[4],
        4,
        "Transistors"@,
        "Semiconductor switches for computing"@,
        3,
        seq![PhenomenonId(8)],
        seq![
            UnlockView::Recipe("Transistor"@),
            UnlockView::Blueprint("Logic Gate"@),
            UnlockView::Blueprint("Amplifier"@),
        ],
    )
}

impl Default for TechTree {
    /// The tree with the base phenomena and technologies.
    fn default() -> (r: Self)
        ensures
            is_base_tree(r),
    {
        let mut tree = TechTree { technologies: TechnologyRegistry::new(), phenomena: PhenomenonRegistry::new() };
        tree.initialize_base_tree();
        tree
    }
}

impl TechTree {
    fn add_phenomenon(&mut self, phenomenon: Phenomenon) -> (id: PhenomenonId)
        requires
            old(self).phenomena@.len() < u32::MAX,
        ensures
            id.0 == old(self).phenomena@.len(),
            final(self).phenomena@ == old(self).phenomena@.push(Phenomenon { id, ..phenomenon }),
            final(self).technologies@ == old(self).technologies@,
    {
        self.phenomena.push(phenomenon)
    }

    fn add_technology(&mut self, tech: Technology) -> (id: TechId)
        requires
            old(self).technologies@.len() < u32::MAX,
        ensures
            id.0 == old(self).technologies@.len(),
            final(self).technologies@ == old(self).technologies@.push(Technology { id, ..tech }),
            final(self).phenomena@ == old(self).phenomena@,
    {
        self.technologies.push(tech)
    }

    fn initialize_base_tree(&mut self)
        requires
            old(self).phenomena@.len() == 0,
            old(self).technologies@.len() == 0,
        ensures
            is_base_tree(*final(self)),
    {
        // Tier 0: Basic Survival
        let fire = self.add_phenomenon(
            Phenomenon {
                id: PhenomenonId(0),
                name: "Fire".to_string(),
                description: "Combustion releases heat and light".to_string(),
                category: PhenomenonCategory::Fire,
                tier: 0,
                prerequisites: vec![],
                discovery_method: DiscoveryMethod::Observation {
                    condition: "Strike flint and steel, or rub sticks together".to_string(),
                },
                discovery_difficulty_tenths: 10,
            },
        );

        let gravity = self.add_phenomenon(
            Phenomenon {
                id: PhenomenonId(0),
                name: "Gravity".to_string(),
                description: "Objects fall toward massive bodies".to_string(),
                category: PhenomenonCategory::Gravity,
                tier: 0,
                prerequisites: vec![],
                discovery_method: DiscoveryMethod::Observation {
                    condition: "Drop an object and observe it fall".to_string(),
                },
                discovery_difficulty_tenths: 5,
            },
        );

        let leverage = self.add_phenomenon(
            Phenomenon {
                id: PhenomenonId(0),
                name: "Leverage".to_string(),
                description: "Mechanical advantage through levers".to_string(),
                category: PhenomenonCategory::Leverage,
                tier: 0,
                prerequisites: vec![],
                discovery_method: DiscoveryMethod::Experiment {
                    procedure: "Use a stick as a lever to move a heavy object".to_string(),
                },
                discovery_difficulty_tenths: 10,
            },
        );

        // Add basic technologies
        self.add_technology(
            Technology {
                id: TechId(0),
                name: "Fire Starting".to_string(),
                description: "Create and control fire".to_string(),
                tier: 0,
                required_knowledge: vec![fire],
                unlocks: vec![
                    TechUnlock::Ability("Cook Food".to_string()),
                    TechUnlock::Ability("Stay Warm".to_string()),
                    TechUnlock::Recipe("Torch".to_string()),
                ],
            },
        );

        self.add_technology(
            Technology {
                id: TechId(0),
                name: "Simple Tools".to_string(),
                description: "Basic hand tools for survival".to_string(),
                tier: 0,
                required_knowledge: vec![leverage],
                unlocks: vec![
                    TechUnlock::Recipe("Stone Knife".to_string()),
                    TechUnlock::Recipe("Wooden Club".to_string()),
                    TechUnlock::Recipe("Simple Lever".to_string()),
                ],
            },
        );

        // Tier 1: Agriculture & Metallurgy
        let _plant_growth = self.add_phenomenon(
            Phenomenon {
                id: PhenomenonId(0),
                name: "Plant Growth".to_string(),
                description: "Plants grow from seeds with water and sunlight".to_string(),
                category: PhenomenonCategory::PlantGrowth,
                tier: 1,
                prerequisites: vec![],
                discovery_method: DiscoveryMethod::Observation {
                    condition: "Plant a seed and watch it grow over time".to_string(),
                },
                discovery_difficulty_tenths: 20,
            },
        );

        let _smelting = self.add_phenomenon(
            Phenomenon {
                id: PhenomenonId(0),
                name: "Smelting".to_string(),
                description: "Metal can be extracted from ore with heat".to_string(),
                category: PhenomenonCategory::Smelting,
                tier: 1,
                prerequisites: vec![fire],
                discovery_method: DiscoveryMethod::Experiment {
                    procedure: "Heat ore to extreme temperatures in a furnace".to_string(),
                },
                discovery_difficulty_tenths: 30,
            },
        );

        // Tier 3: Electrical
        let electricity = self.add_phenomenon(
            Phenomenon {
                id: PhenomenonId(0),
                name: "Electricity".to_string(),
                description: "Flow of electric charge through conductors".to_string(),
                category: PhenomenonCategory::Electricity,
                tier: 3,
                prerequisites: vec![],
                discovery_method: DiscoveryMethod::Experiment {
                    procedure: "Create a potential difference between two materials".to_string(),
                },
                discovery_difficulty_tenths: 50,
            },
        );

        let magnetism = self.add_phenomenon(
            Phenomenon {
                id: PhenomenonId(0),
                name: "Magnetism".to_string(),
                description: "Magnetic fields attract and repel".to_string(),
                category: PhenomenonCategory::Magnetism,
                tier: 3,
                prerequisites: vec![],
                discovery_method: DiscoveryMethod::Observation {
                    condition: "Observe lodestone attracting iron".to_string(),
                },
                discovery_difficulty_tenths: 30,
            },
        );

        let electromagnetism = self.add_phenomenon(
            Phenomenon {
                id: PhenomenonId(0),
                name: "Electromagnetism".to_string(),
                description: "Electric current creates magnetic fields".to_string(),
                category: PhenomenonCategory::Electromagnetism,
                tier: 3,
                prerequisites: vec![electricity, magnetism],
                discovery_method: DiscoveryMethod::Experiment {
                    procedure: "Pass current through a wire near a compass".to_string(),
                },
                discovery_difficulty_tenths: 60,
            },
        );

        let semiconductors = self.add_phenomenon(
            Phenomenon {
                id: PhenomenonId(0),
                name: "Semiconductors".to_string(),
                description: "Materials that conduct electricity under certain conditions".to_string(),
                category: PhenomenonCategory::Semiconductors,
                tier: 3,
                prerequisites: vec![electricity],
                discovery_method: DiscoveryMethod::Measurement {
                    instrument: "Resistance Meter".to_string(),
                    threshold_log10: -6,
                },
                discovery_difficulty_tenths: 80,
            },
        );

        // Tier 5: Relativistic
        let _time_dilation = self.add_phenomenon(
            Phenomenon {
                id: PhenomenonId(0),
                name: "Time Dilation".to_string(),
                description: "Time passes slower at high velocities".to_string(),
                category: PhenomenonCategory::TimeDilation,
                tier: 5,
                prerequisites: vec![electricity, gravity],
                discovery_method: DiscoveryMethod::Measurement {
                    instrument: "Precise Atomic Clock".to_string(),
                    threshold_log10: -15,
                },
                discovery_difficulty_tenths: 200,
            },
        );

        // Technologies for electrical tier
        self.add_technology(
            Technology {
                id: TechId(0),
                name: "Basic Circuits".to_string(),
                description: "Create simple electrical circuits".to_string(),
                tier: 3,
                required_knowledge: vec![electricity],
                unlocks: vec![
                    TechUnlock::Recipe("Wire".to_string()),
                    TechUnlock::Recipe("Switch".to_string()),
                    TechUnlock::Recipe("Resistor".to_string()),
                    TechUnlock::Blueprint("Simple Circuit".to_string()),
                ],
            },
        );

        self.add_technology(
            Technology {
                id: TechId(0),
                name: "Electromagnetic Devices".to_string(),
                description: "Devices using electromagnetism".to_string(),
                tier: 3,
                required_knowledge: vec![electromagnetism],
                unlocks: vec![
                    TechUnlock::Recipe("Electromagnet".to_string()),
                    TechUnlock::Recipe("Electric Motor".to_string()),
                    TechUnlock::Recipe("Generator".to_string()),
                ],
            },
        );

        self.add_technology(
            Technology {
                id: TechId(0),
                name: "Transistors".to_string(),
                description: "Semiconductor switches for computing".to_string(),
                tier: 3,
                required_knowledge: vec![semiconductors],
                unlocks: vec![
                    TechUnlock::Recipe("Transistor".to_string()),
                    TechUnlock::Blueprint("Logic Gate".to_string()),
                    TechUnlock::Blueprint("Amplifier".to_string()),
                ],
            },
        );
        proof {
            let ph = self.phenomena@;
            let te = self.technologies@;
            assert(ph[0].prerequisites@ =~= seq![]);
            assert(ph[1].prerequisites@ =~= seq![]);
            assert(ph[2].prerequisites@ =~= seq![]);
            assert(ph[3].prerequisites@ =~= seq![]);
            assert(ph[4].prerequisites@ =~= seq![PhenomenonId(0)]);
            assert(ph[5].prerequisites@ =~= seq![]);
            assert(ph[6].prerequisites@ =~= seq![]);
            assert(ph[7].prerequisites@ =~= seq![PhenomenonId(5), PhenomenonId(6)]);
            assert(ph[8].prerequisites@ =~= seq![PhenomenonId(5)]);
            assert(ph[9].prerequisites@ =~= seq![PhenomenonId(5), PhenomenonId(1)]);
            assert(te[0].required_knowledge@ =~= seq![PhenomenonId(0)]);
            assert(te[1].required_knowledge@ =~= seq![PhenomenonId(2)]);
            assert(te[2].required_knowledge@ =~= seq![PhenomenonId(5)]);
            assert(te[3].required_knowledge@ =~= seq![PhenomenonId(7)]);
            assert(te[4].required_knowledge@ =~= seq![PhenomenonId(8)]);
            let f = |u: TechUnlock| unlock_view(u);
            assert(te[0].unlocks@.map_values(f) =~= seq![
                UnlockView::Ability("Cook Food"@),
                UnlockView::Ability("Stay Warm"@),
                UnlockView::Recipe("Torch"@),
            ]);
            assert(te[1].unlocks@.map_values(f) =~= seq![
                UnlockView::Recipe("Stone Knife"@),
                UnlockView::Recipe("Wooden Club"@),
                UnlockView::Recipe("Simple Lever"@),
            ]);
            assert(te[2].unlocks@.map_values(f) =~= seq![
                UnlockView::Recipe("Wire"@),
                UnlockView::Recipe("Switch"@),
                UnlockView::Recipe("Resistor"@),
                UnlockView::Blueprint("Simple Circuit"@),
            ]);
            assert(te[3].unlocks@.map_values(f) =~= seq![
                UnlockView::Recipe("Electromagnet"@),
                UnlockView::Recipe("Electric Motor"@),
                UnlockView::Recipe("Generator"@),
            ]);
            assert(te[4].unlocks@.map_values(f) =~= seq![
                UnlockView::Recipe("Transistor"@),
                UnlockView::Blueprint("Logic Gate"@),
                UnlockView::Blueprint("Amplifier"@),
            ]);
        }
    }

    /// Get all technologies available given current knowledge, in id order:
    /// those not yet unlocked whose required phenomena are all known.
    pub fn available_technologies(&self, knowledge: &PlayerKnowledge) -> (r: Vec<&Technology>)
        ensures
            r@.map_values(|t: &Technology| *t) == self.technologies@.filter(
                |t: Technology| tech_available(knowledge, t),
            ),
    {
        let techs = self.technologies.all();
        let ghost pred = |t: Technology| tech_available(knowledge, t);
        let mut r: Vec<&Technology> = Vec::new();
        let mut i: usize = 0;
        while i < techs.len()
            invariant
                i <= techs.len(),
                techs@ == self.technologies@,
                pred == (|t: Technology| tech_available(knowledge, t)),
                r@.map_values(|t: &Technology| *t) == techs@.take(i as int).filter(pred),
            decreases techs.len() - i,
        {
            let tech = &techs[i];
            proof {
                reveal(Seq::filter);
                assert(techs@.take(i + 1).drop_last() =~= techs@.take(i as int));
                assert(techs@.take(i + 1).last() == *tech);
            }
            if !knowledge.unlocked_tech.contains(&tech.id) && knowledge.knows_all_of(&tech.required_knowledge) {
                r.push(tech);
                proof {
                    assert(r@.map_values(|t: &Technology| *t) =~= techs@.take(i as int).filter(pred).push(*tech));
                }
            }
            i = i + 1;
        }
        proof {
            assert(techs@.take(techs.len() as int) =~= techs@);
        }
        r
    }

    /// Get all phenomena that can currently be researched, in id order: those
    /// neither discovered nor known whose prerequisites are all known.
    pub fn researchable_phenomena(&self, knowledge: &PlayerKnowledge) -> (r: Vec<&Phenomenon>)
        ensures
            r@.map_values(|p: &Phenomenon| *p) == self.phenomena@.filter(
                |p: Phenomenon| phenomenon_researchable(knowledge, p),
            ),
    {
        let all = self.phenomena.all();
        let ghost pred = |p: Phenomenon| phenomenon_researchable(knowledge, p);
        let mut r: Vec<&Phenomenon> = Vec::new();
        let mut i: usize = 0;
        while i < all.len()
            invariant
                i <= all.len(),
                all@ == self.phenomena@,
                pred == (|p: Phenomenon| phenomenon_researchable(knowledge, p)),
                r@.map_values(|p: &Phenomenon| *p) == all@.take(i as int).filter(pred),
            decreases all.len() - i,
        {
            let p = &all[i];
            proof {
                reveal(Seq::filter);
                assert(all@.take(i + 1).drop_last() =~= all@.take(i as int));
                assert(all@.take(i + 1).last() == *p);
            }
            if !knowledge.discovered.contains(&p.id) && !knowledge.known.contains(&p.id)
                && knowledge.knows_all_of(&p.prerequisites) {
                r.push(p);
                proof {
                    assert(r@.map_values(|p: &Phenomenon| *p) =~= all@.take(i as int).filter(pred).push(*p));
                }
            }
            i = i + 1;
        }
        proof {
            assert(all@.take(all.len() as int) =~= all@);
        }
        r
    }

    /// Unlock every technology available to the player, returning the ids
    /// unlocked, in id order.
    pub fn unlock_available_technologies(&self, knowledge: &mut PlayerKnowledge) -> (r: Vec<TechId>)
        ensures
            r@ == self.technologies@.filter(|t: Technology| tech_available(old(knowledge), t)).map_values(
                |t: Technology| t.id,
            ),
            final(knowledge).unlocked_tech@ == old(knowledge).unlocked_tech@.union(
                r@.map_values(|id: TechId| id.0).to_set(),
            ),
            final(knowledge).discovered@ == old(knowledge).discovered@,
            final(knowledge).known@ == old(knowledge).known@,
            final(knowledge).research_focus == old(knowledge).research_focus,
    {
        let available = self.available_technologies(knowledge);
        let ghost chosen = available@.map_values(|t: &Technology| *t);
        let mut r: Vec<TechId> = Vec::new();
        let mut i: usize = 0;
        while i < available.len()
            invariant
                i <= available.len(),
                chosen == available@.map_values(|t: &Technology| *t),
                r@ == chosen.take(i as int).map_values(|t: Technology| t.id),
                knowledge.unlocked_tech@ == old(knowledge).unlocked_tech@.union(
                    r@.map_values(|id: TechId| id.0).to_set(),
                ),
                knowledge.discovered@ == old(knowledge).discovered@,
                knowledge.known@ == old(knowledge).known@,
                knowledge.research_focus == old(knowledge).research_focus,
            decreases available.len() - i,
        {
            let id = available[i].id;
            knowledge.unlocked_tech.insert(id);
            let ghost r_old = r@;
            r.push(id);
            proof {
                assert(chosen[i as int] == *available@[i as int]);
                assert(chosen.take(i + 1).map_values(|t: Technology| t.id) =~= chosen.take(i as int).map_values(
                    |t: Technology| t.id,
                ).push(id));
                assert(r@.map_values(|id: TechId| id.0) =~= r_old.map_values(|id: TechId| id.0).push(id.0));
                r_old.map_values(|id: TechId| id.0).lemma_push_to_set_commute(id.0);
            }
            i = i + 1;
        }
        proof {
            assert(chosen.take(available.len() as int) =~= chosen);
        }
        r
    }
}

/// Law: once every available technology has been unlocked, none is available
/// any more until the player learns something new.
pub proof fn law_unlocking_exhausts_availability(
    techs: Seq<Technology>,
    before: PlayerKnowledge,
    after: PlayerKnowledge,
)
    requires
        after.discovered@ == before.discovered@,
        after.known@ == before.known@,
        after.unlocked_tech@ == before.unlocked_tech@.union(
            techs.filter(|t: Technology| tech_available(&before, t)).map_values(|t: Technology| t.id.0).to_set(),
        ),
    ensures
        techs.filter(|t: Technology| tech_available(&after, t)).len() == 0,
{
    let pred_before = |t: Technology| tech_available(&before, t);
    let pred_after = |t: Technology| tech_available(&after, t);
    let unlocked_now = techs.filter(pred_before);
    if techs.filter(pred_after).len() > 0 {
        let t = techs.filter(pred_after)[0];
        techs.lemma_filter_pred(pred_after, 0);
        assert(techs.filter(pred_after).contains(t));
        techs.lemma_filter_contains_rev(pred_after, t);
        let i = choose|i: int| 0 <= i < techs.len() && techs[i] == t;
        assert(pred_before(t));
        techs.lemma_filter_contains(pred_before, i);
        let j = choose|j: int| 0 <= j < unlocked_now.len() && unlocked_now[j] == t;
        assert(unlocked_now.map_values(|t: Technology| t.id.0)[j] == t.id.0);
        assert(unlocked_now.map_values(|t: Technology| t.id.0).to_set().contains(t.id.0));
        assert(after.unlocked_tech@.contains(t.id.0));
    }
}

/// Law: knowledge only opens doors. A player who knows everything another
/// player knows can discover whatever the other can, and has available every
/// technology available to the other that it has not unlocked yet.
pub proof fn law_more_knowledge_discovers_more(
    less: PlayerKnowledge,
    more: PlayerKnowledge,
    prerequisites: Seq<PhenomenonId>,
    t: Technology,
)
    requires
        forall|p: PhenomenonId| knows(&less, p) ==> knows(&more, p),
    ensures
        knows_all(&less, prerequisites) ==> knows_all(&more, prerequisites),
        tech_available(&less, t) && !more.unlocked_tech@.contains(t.id.0) ==> tech_available(&more, t),
{
    assert(knows_all(&less, t.required_knowledge@) ==> knows_all(&more, t.required_knowledge@));
}

} // verus!
