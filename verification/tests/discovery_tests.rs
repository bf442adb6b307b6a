use genesis_engine::plugins::discovery::{
    process_discovery_event, Discovery, DiscoveryEvent, DiscoveryMethod, GlobalKnowledgeBase, PhenomenonId,
    PlayerKnowledge, TechId, TechTree, TechUnlock,
};

#[test]
fn test_tech_tree_initialization() {
    let tree = TechTree::default();

    // Should have some base phenomena
    assert!(!tree.phenomena.is_empty());

    // Should have some base technologies
    assert!(!tree.technologies.is_empty());
}

#[test]
fn test_player_knowledge() {
    let mut knowledge = PlayerKnowledge::default();
    let fire_id = PhenomenonId(0);

    // Initially nothing discovered
    assert!(knowledge.discovered.is_empty());

    // Discover fire
    knowledge.discovered.insert(fire_id);
    assert!(knowledge.discovered.contains(&fire_id));
}

#[test]
fn base_tree_contents() {
    let tree = TechTree::default();
    assert_eq!(tree.phenomena.len(), 10);
    assert_eq!(tree.technologies.len(), 5);
    let fire = tree.phenomena.get(PhenomenonId(0)).unwrap();
    assert_eq!(fire.name, "Fire");
    let em = tree.phenomena.get(PhenomenonId(7)).unwrap();
    assert_eq!(em.name, "Electromagnetism");
    assert_eq!(em.prerequisites, vec![PhenomenonId(5), PhenomenonId(6)]);
    assert!(tree.phenomena.get(PhenomenonId(10)).is_none());
    let transistors = tree.technologies.get(TechId(4)).unwrap();
    assert_eq!(transistors.name, "Transistors");
    assert_eq!(transistors.required_knowledge, vec![PhenomenonId(8)]);
}

#[test]
fn fresh_player_can_research_only_phenomena_without_prerequisites() {
    let tree = TechTree::default();
    let knowledge = PlayerKnowledge::default();
    let ids: Vec<u32> = tree.researchable_phenomena(&knowledge).iter().map(|p| p.id.0).collect();
    assert_eq!(ids, vec![0, 1, 2, 3, 5, 6]);
    assert!(tree.available_technologies(&knowledge).is_empty());
}

#[test]
fn discovering_fire_makes_fire_starting_available() {
    let tree = TechTree::default();
    let mut knowledge = PlayerKnowledge::default();
    knowledge.discovered.insert(PhenomenonId(0));
    let names: Vec<String> = tree.available_technologies(&knowledge).iter().map(|t| t.name.clone()).collect();
    assert_eq!(names, vec!["Fire Starting".to_string()]);
    let ids: Vec<u32> = tree.researchable_phenomena(&knowledge).iter().map(|p| p.id.0).collect();
    assert_eq!(ids, vec![1, 2, 3, 4, 5, 6]);
}

#[test]
fn can_discover_needs_every_prerequisite() {
    let tree = TechTree::default();
    let mut knowledge = PlayerKnowledge::default();
    let em = tree.phenomena.get(PhenomenonId(7)).unwrap();
    assert!(!knowledge.can_discover(em));
    knowledge.discovered.insert(PhenomenonId(5));
    assert!(!knowledge.can_discover(em));
    knowledge.known.insert(PhenomenonId(6));
    assert!(knowledge.can_discover(em));
}

#[test]
fn unlocking_twice_unlocks_nothing_more() {
    let tree = TechTree::default();
    let mut knowledge = PlayerKnowledge::default();
    knowledge.discovered.insert(PhenomenonId(0));
    knowledge.known.insert(PhenomenonId(5));
    let first = tree.unlock_available_technologies(&mut knowledge);
    assert_eq!(first, vec![TechId(0), TechId(2)]);
    assert!(knowledge.unlocked_tech.contains(&TechId(0)));
    assert!(knowledge.unlocked_tech.contains(&TechId(2)));
    let second = tree.unlock_available_technologies(&mut knowledge);
    assert!(second.is_empty());
    assert_eq!(knowledge.unlocked_tech.len(), 2);
}

#[test]
fn knowledge_base_records_and_replaces() {
    let mut base = GlobalKnowledgeBase::default();
    assert!(!base.is_discovered(PhenomenonId(3)));
    assert!(base.get_discovery(PhenomenonId(3)).is_none());
    base.record_discovery(Discovery {
        phenomenon: PhenomenonId(3),
        discoverer: 9,
        timestamp_seconds: 120,
        method: DiscoveryMethod::Teaching,
        notes: "first".to_string(),
        reproducibility_percent: 40,
    });
    assert!(base.is_discovered(PhenomenonId(3)));
    assert_eq!(base.get_discovery(PhenomenonId(3)).unwrap().discoverer, 9);
    base.record_discovery(Discovery {
        phenomenon: PhenomenonId(3),
        discoverer: 10,
        timestamp_seconds: 200,
        method: DiscoveryMethod::Teaching,
        notes: String::new(),
        reproducibility_percent: 90,
    });
    assert_eq!(base.len(), 1);
    assert_eq!(base.get_discovery(PhenomenonId(3)).unwrap().discoverer, 10);
}

#[test]
fn discovery_event_updates_base_and_first_matching_player() {
    let mut base = GlobalKnowledgeBase::default();
    let mut players = vec![
        (1u64, PlayerKnowledge::default()),
        (2u64, PlayerKnowledge::default()),
        (2u64, PlayerKnowledge::default()),
    ];
    process_discovery_event(
        &mut base,
        &mut players,
        DiscoveryEvent {
            player: 2,
            phenomenon: PhenomenonId(0),
            method: DiscoveryMethod::Observation { condition: "lightning".to_string() },
            is_first: true,
        },
    );
    let d = base.get_discovery(PhenomenonId(0)).unwrap();
    assert_eq!(d.discoverer, 2);
    assert_eq!(d.timestamp_seconds, 0);
    assert_eq!(d.reproducibility_percent, 100);
    assert!(d.notes.is_empty());
    assert!(matches!(&d.method, DiscoveryMethod::Observation { condition } if condition == "lightning"));
    assert!(!players[0].1.discovered.contains(&PhenomenonId(0)));
    assert!(players[1].1.discovered.contains(&PhenomenonId(0)));
    assert!(!players[2].1.discovered.contains(&PhenomenonId(0)));

    // A repeat discovery is not recorded again; an unknown player changes nothing.
    process_discovery_event(
        &mut base,
        &mut players,
        DiscoveryEvent { player: 1, phenomenon: PhenomenonId(0), method: DiscoveryMethod::Teaching, is_first: false },
    );
    assert_eq!(base.get_discovery(PhenomenonId(0)).unwrap().discoverer, 2);
    assert!(players[0].1.discovered.contains(&PhenomenonId(0)));
    process_discovery_event(
        &mut base,
        &mut players,
        DiscoveryEvent { player: 7, phenomenon: PhenomenonId(5), method: DiscoveryMethod::Teaching, is_first: false },
    );
    assert!(!base.is_discovered(PhenomenonId(5)));
    for (_, k) in &players {
        assert!(!k.discovered.contains(&PhenomenonId(5)));
    }
}

#[test]
fn learning_more_keeps_every_door_open() {
    let tree = TechTree::default();
    let mut less = PlayerKnowledge::default();
    less.discovered.insert(PhenomenonId(5));
    less.known.insert(PhenomenonId(6));
    let mut more = PlayerKnowledge::default();
    more.known.insert(PhenomenonId(5));
    more.discovered.insert(PhenomenonId(6));
    more.discovered.insert(PhenomenonId(0));
    for p in tree.phenomena.all() {
        if less.can_discover(p) {
            assert!(more.can_discover(p));
        }
    }
    let less_ids: Vec<u32> = tree.available_technologies(&less).iter().map(|t| t.id.0).collect();
    let more_ids: Vec<u32> = tree.available_technologies(&more).iter().map(|t| t.id.0).collect();
    for id in &less_ids {
        assert!(more_ids.contains(id));
    }
    assert!(more_ids.len() > less_ids.len());
}

#[test]
fn base_tree_texts_methods_and_unlocks() {
    let tree = TechTree::default();
    let fire = tree.phenomena.get(PhenomenonId(0)).unwrap();
    assert_eq!(fire.description, "Combustion releases heat and light");
    assert!(matches!(&fire.discovery_method,
        DiscoveryMethod::Observation { condition } if condition == "Strike flint and steel, or rub sticks together"));
    let clock = tree.phenomena.get(PhenomenonId(9)).unwrap();
    assert!(matches!(&clock.discovery_method,
        DiscoveryMethod::Measurement { instrument, threshold_log10: -15 } if instrument == "Precise Atomic Clock"));
    assert_eq!(clock.discovery_difficulty_tenths, 200);
    let circuits = tree.technologies.get(TechId(2)).unwrap();
    assert_eq!(circuits.description, "Create simple electrical circuits");
    assert_eq!(circuits.unlocks.len(), 4);
    assert!(matches!(&circuits.unlocks[3], TechUnlock::Blueprint(name) if name == "Simple Circuit"));
    let fire_starting = tree.technologies.get(TechId(0)).unwrap();
    assert!(matches!(&fire_starting.unlocks[0], TechUnlock::Ability(name) if name == "Cook Food"));
}

#[test]
fn player_notes_start_empty_and_keep_what_is_written() {
    let mut knowledge = PlayerKnowledge::default();
    assert!(knowledge.notes.is_empty());
    knowledge.notes.insert(3, "Sparks fly from struck flint".to_string());
    assert_eq!(knowledge.notes.get(&3).map(|s| s.as_str()), Some("Sparks fly from struck flint"));
}
