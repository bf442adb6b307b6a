use genesis_engine::net::connection::{
    connection_resolved, connection_step, transition_from_connecting, ConnectionState,
};
use genesis_engine::physics::grid::{grid_coords, grid_index};
use genesis_engine::plugins::camera::{
    camera_state_from_name, cursor_confined, next_camera_state, toggle_cursor_lock, CameraState, CursorGrab,
};
use genesis_engine::plugins::creature::spawning::{plan_spawns, spawn_budget};
use genesis_engine::plugins::chunk_mesh::{grid_triangle_indices, skirt_triangle_indices};
use genesis_engine::plugins::chunked_terrain::resolution_for_depth;
use genesis_engine::plugins::climate::next_seed;
use genesis_engine::plugins::creature::species::{observable_phenomenon, observation_threshold};
use genesis_engine::plugins::discovery::PhenomenonId;
use genesis_engine::plugins::ecosystem::{biome_cell_index, FoodChain, SpeciesId, SpeciesType};
use genesis_engine::plugins::simulation::{calendar_events, season_for_day, CalendarEvent, GameCalendar, Season};
use genesis_engine::plugins::speculative_physics::TraversalFailure;
use genesis_engine::plugins::technology::{logic_gate_layout, LogicGateType};
use genesis_engine::GameState;

#[test]
fn test_fluid_grid_indexing() {
    let dims = (10, 10, 10);
    assert_eq!(grid_index(dims, 0, 0, 0), 0);
    assert_eq!(grid_index(dims, 9, 9, 9), 999);
    let (x, y, z) = grid_coords(dims, 123);
    assert_eq!(grid_index(dims, x, y, z), 123);
}

#[test]
fn grid_coords_of_non_cubic_grid() {
    let dims = (4, 3, 2);
    assert_eq!(grid_coords(dims, 17), (1, 1, 1));
    assert_eq!(grid_index(dims, 3, 2, 1), 23);
}

#[test]
fn test_logic_gate_design() {
    let (name, components) = logic_gate_layout(LogicGateType::AND);
    assert_eq!(name, "AND Gate");
    assert_eq!(components, 2);
}

#[test]
fn gate_component_counts() {
    assert_eq!(logic_gate_layout(LogicGateType::NOT), ("NOT Gate", 1));
    assert_eq!(logic_gate_layout(LogicGateType::NAND), ("NAND Gate", 3));
    assert_eq!(logic_gate_layout(LogicGateType::XOR), ("XOR Gate", 4));
}

#[test]
fn resolution_follows_depth_bands() {
    assert_eq!(resolution_for_depth(0), 16);
    assert_eq!(resolution_for_depth(2), 16);
    assert_eq!(resolution_for_depth(3), 32);
    assert_eq!(resolution_for_depth(8), 64);
    assert_eq!(resolution_for_depth(12), 128);
    assert_eq!(resolution_for_depth(13), 64);
    assert_eq!(resolution_for_depth(255), 64);
}

#[test]
fn seasons_by_day() {
    assert_eq!(season_for_day(1), Season::Spring);
    assert_eq!(season_for_day(91), Season::Spring);
    assert_eq!(season_for_day(92), Season::Summer);
    assert_eq!(season_for_day(273), Season::Autumn);
    assert_eq!(season_for_day(274), Season::Winter);
    assert_eq!(season_for_day(0), Season::Winter);
}

#[test]
fn calendar_from_components_counts_days_from_one_and_sets_season() {
    let c = GameCalendar::from_components(1, 0, 5, 30);
    assert_eq!(c.day_of_year, 1);
    assert_eq!(c.season, Season::Spring);
    let c = GameCalendar::from_components(1, 364, 0, 0);
    assert_eq!((c.day_of_year, c.season), (365, Season::Winter));
    // The last quarter day of the year stays on day 365.
    let c = GameCalendar::from_components(1, 365, 18, 0);
    assert_eq!((c.day_of_year, c.season), (365, Season::Winter));
    let c = GameCalendar::from_components(3, 199, 23, 59);
    assert_eq!((c.year, c.day_of_year, c.hour, c.minute, c.season), (3, 200, 23, 59, Season::Autumn));
}

#[test]
fn calendar_events_report_each_change() {
    let a = GameCalendar::from_components(1, 90, 23, 59);
    let b = GameCalendar::from_components(1, 91, 0, 0);
    assert_eq!(
        calendar_events(&a, &b, 92),
        vec![CalendarEvent::NewDay { day_number: 92 }, CalendarEvent::SeasonChanged { new_season: Season::Summer }]
    );
    let c = GameCalendar::from_components(2, 0, 0, 0);
    let d = GameCalendar::from_components(1, 364, 0, 0);
    assert_eq!(
        calendar_events(&d, &c, 365),
        vec![
            CalendarEvent::NewDay { day_number: 365 },
            CalendarEvent::NewYear { year_number: 2 },
            CalendarEvent::SeasonChanged { new_season: Season::Spring },
        ]
    );
    assert!(calendar_events(&a, &a, 5).is_empty());
}

#[test]
fn camera_cycles_through_four_modes() {
    let mut s = CameraState::default();
    assert_eq!(s, CameraState::Orbital);
    assert!(!cursor_confined(s));
    s = next_camera_state(s);
    assert_eq!(s, CameraState::Surface);
    assert!(cursor_confined(s));
    s = next_camera_state(s);
    assert_eq!(s, CameraState::ThirdPerson);
    s = next_camera_state(s);
    assert_eq!(s, CameraState::FreeCam);
    s = next_camera_state(s);
    assert_eq!(s, CameraState::Orbital);
}

#[test]
fn connection_lifecycle() {
    let first = connection_step(&ConnectionState::Disconnected, false, false, false);
    assert_eq!(first.state, ConnectionState::Connecting);
    assert!(first.connection_attempted);
    let second = connection_step(&first.state, first.connection_attempted, false, false);
    assert_eq!(second.state, ConnectionState::Offline);
    assert!(connection_resolved(&second.state));
    assert!(!connection_resolved(&ConnectionState::Connecting));
    assert!(connection_resolved(&ConnectionState::Error("timeout".to_string())));

    let waiting = connection_step(&ConnectionState::Error("x".to_string()), true, true, false);
    assert_eq!(waiting.state, ConnectionState::Error("x".to_string()));
    assert!(!waiting.reset_reconnect_timer);
    let retry = connection_step(&ConnectionState::Error("x".to_string()), true, false, true);
    assert_eq!(retry.state, ConnectionState::Reconnecting);
    assert!(retry.reset_reconnect_timer);
    let gave_up = connection_step(&ConnectionState::Reconnecting, true, true, false);
    assert_eq!(gave_up.state, ConnectionState::Offline);
}

#[test]
fn lcg_sequence() {
    assert_eq!(next_seed(0), 12345);
    assert_eq!(next_seed(1), 1103515245 + 12345);
    assert_eq!(next_seed(u64::MAX), 0u64.wrapping_sub(1103515245).wrapping_add(12345));
}

#[test]
fn species_teach_phenomena() {
    assert_eq!(observable_phenomenon(&SpeciesType::Herbivore), Some(PhenomenonId(3)));
    assert_eq!(observable_phenomenon(&SpeciesType::Carnivore), Some(PhenomenonId(1)));
    assert_eq!(observable_phenomenon(&SpeciesType::Decomposer), None);
}

#[test]
fn food_chain_relations() {
    let mut chain = FoodChain::default();
    assert!(chain.predation.is_empty());
    chain.add_predation(SpeciesId(2), SpeciesId(1));
    chain.add_predation(SpeciesId(3), SpeciesId(2));
    chain.add_predation(SpeciesId(3), SpeciesId(1));
    assert_eq!(chain.predation.get(SpeciesId(3)).unwrap(), &vec![SpeciesId(2), SpeciesId(1)]);
    assert!(chain.predation.get(SpeciesId(1)).is_none());
    chain.add_competition(SpeciesId(4), SpeciesId(5));
    assert_eq!(chain.competition.get(SpeciesId(4)).unwrap(), &vec![SpeciesId(5)]);
    assert_eq!(chain.competition.get(SpeciesId(5)).unwrap(), &vec![SpeciesId(4)]);
    assert_eq!(chain.predation.len(), 2);
}

#[test]
fn traversal_hints() {
    assert_eq!(TraversalFailure::AngleTooWide.hint_message(), "Something about the approach angle felt wrong...");
    assert_eq!(TraversalFailure::VelocityTooLow.hint_message(), "The gravitational pull was too strong to escape.");
}

#[test]
fn game_starts_loading() {
    assert_eq!(GameState::default(), GameState::Loading);
}

#[test]
fn biome_cells_are_stored_row_by_row() {
    assert_eq!(biome_cell_index((360, 180), 0, 0), 0);
    assert_eq!(biome_cell_index((360, 180), 5, 2), 725);
    assert_eq!(biome_cell_index((360, 180), 359, 179), 360 * 180 - 1);
    let i = biome_cell_index((7, 3), 4, 2);
    assert_eq!((i % 7, i / 7), (4, 2));
}

#[test]
fn observation_thresholds_by_species() {
    assert_eq!(observation_threshold(&SpeciesType::Herbivore), 10);
    assert_eq!(observation_threshold(&SpeciesType::Carnivore), 15);
    assert_eq!(observation_threshold(&SpeciesType::Omnivore), 12);
    assert_eq!(observation_threshold(&SpeciesType::Producer), 8);
    assert_eq!(observation_threshold(&SpeciesType::Decomposer), 20);
}

/// The calendar at a number of simulation seconds since spawn, as the game
/// computes it from the clock.
fn from_simulation_seconds(seconds: f64) -> GameCalendar {
    let days = seconds / (24.0 * 3600.0);
    let year = (days / 365.25).floor() as u32 + 1;
    let day_index = (days % 365.25).floor() as u16;
    let hours = (seconds % (24.0 * 3600.0)) / 3600.0;
    let hour = hours.floor() as u8;
    let minute = ((hours - hour as f64) * 60.0).floor() as u8;
    GameCalendar::from_components(year, day_index, hour, minute)
}

#[test]
fn test_calendar_conversion() {
    // One day = 86400 seconds
    let cal = from_simulation_seconds(86400.0);
    assert_eq!(cal.year, 1);
    assert_eq!(cal.day_of_year, 2); // Day 1 is first day, after 1 day we're on day 2

    // One year
    let cal = from_simulation_seconds(365.25 * 24.0 * 3600.0);
    assert_eq!(cal.year, 2);
}

#[test]
fn game_plays_once_connection_resolves() {
    assert_eq!(transition_from_connecting(GameState::Connecting, &ConnectionState::Connecting), GameState::Connecting);
    assert_eq!(transition_from_connecting(GameState::Connecting, &ConnectionState::Offline), GameState::Playing);
    assert_eq!(transition_from_connecting(GameState::Connecting, &ConnectionState::Connected), GameState::Playing);
    assert_eq!(
        transition_from_connecting(GameState::Connecting, &ConnectionState::Error("refused".to_string())),
        GameState::Playing
    );
    assert_eq!(transition_from_connecting(GameState::Loading, &ConnectionState::Offline), GameState::Loading);
    assert_eq!(transition_from_connecting(GameState::Connecting, &ConnectionState::Reconnecting), GameState::Connecting);
}

#[test]
fn camera_modes_by_name() {
    assert_eq!(camera_state_from_name(&"Orbital".to_string()), Some(CameraState::Orbital));
    assert_eq!(camera_state_from_name(&"Surface".to_string()), Some(CameraState::Surface));
    assert_eq!(camera_state_from_name(&"ThirdPerson".to_string()), Some(CameraState::ThirdPerson));
    assert_eq!(camera_state_from_name(&"FreeCam".to_string()), Some(CameraState::FreeCam));
    assert_eq!(camera_state_from_name(&"orbital".to_string()), None);
    assert_eq!(camera_state_from_name(&String::new()), None);
}

#[test]
fn cursor_lock_toggle() {
    assert_eq!(toggle_cursor_lock(CursorGrab::Free, true, CameraState::Surface), (CursorGrab::Confined, false));
    assert_eq!(toggle_cursor_lock(CursorGrab::Free, true, CameraState::Orbital), (CursorGrab::Free, true));
    assert_eq!(toggle_cursor_lock(CursorGrab::Free, false, CameraState::Orbital), (CursorGrab::Free, false));
    assert_eq!(toggle_cursor_lock(CursorGrab::Confined, false, CameraState::FreeCam), (CursorGrab::Free, true));
    assert_eq!(toggle_cursor_lock(CursorGrab::Locked, false, CameraState::Orbital), (CursorGrab::Free, true));
    // Two presses outside orbital mode give the cursor back.
    let (g, v) = toggle_cursor_lock(CursorGrab::Free, true, CameraState::ThirdPerson);
    assert_eq!(toggle_cursor_lock(g, v, CameraState::ThirdPerson), (CursorGrab::Free, true));
}

#[test]
fn creature_spawn_budget() {
    assert_eq!(spawn_budget(50, 0), 10);
    assert_eq!(spawn_budget(50, 45), 5);
    assert_eq!(spawn_budget(50, 50), 0);
    assert_eq!(spawn_budget(50, 60), 0);
}

#[test]
fn creature_spawn_plan() {
    // Targets and counts per species: short by 4, satisfied, short by 9, short by 2.
    let wants = vec![(6, 2), (3, 3), (9, 0), (2, 0)];
    assert_eq!(plan_spawns(10, &wants), vec![4, 0, 6, 0]);
    assert_eq!(plan_spawns(20, &wants), vec![4, 0, 9, 2]);
    assert_eq!(plan_spawns(0, &wants), vec![0, 0, 0, 0]);
    let plan = plan_spawns(7, &wants);
    assert!(plan.iter().sum::<usize>() <= 7);
}

#[test]
fn chunk_grid_triangles() {
    assert!(grid_triangle_indices(1).is_empty());
    assert_eq!(grid_triangle_indices(2), vec![0, 3, 2, 0, 1, 3]);
    assert_eq!(
        grid_triangle_indices(3),
        vec![0, 4, 3, 0, 1, 4, 1, 5, 4, 1, 2, 5, 3, 7, 6, 3, 4, 7, 4, 8, 7, 4, 5, 8]
    );
    let r = 16u32;
    let g = grid_triangle_indices(r);
    assert_eq!(g.len() as u32, 6 * (r - 1) * (r - 1));
    assert!(g.iter().all(|&i| i < r * r));
}

#[test]
fn chunk_skirt_triangles() {
    assert!(skirt_triangle_indices(1).is_empty());
    assert_eq!(
        skirt_triangle_indices(3),
        vec![
            0, 1, 9, 1, 10, 9, 1, 2, 10, 2, 11, 10, // bottom
            6, 7, 12, 7, 13, 12, 7, 8, 13, 8, 14, 13, // top
            0, 3, 15, 3, 16, 15, 3, 6, 16, 6, 17, 16, // left
            2, 5, 18, 5, 19, 18, 5, 8, 19, 8, 20, 19, // right
        ]
    );
    let r = 32u32;
    let s = skirt_triangle_indices(r);
    assert_eq!(s.len() as u32, 24 * (r - 1));
    assert!(s.iter().all(|&i| i < r * r + 4 * r));
}
