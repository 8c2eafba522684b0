use game_core::{GameLevel, GameMapAction, GameState, MapNode, MapSignal};

fn level_for(seed: u64) -> GameLevel {
    GameState::new(seed).level
}

/// Recovers the layers from the edges: Start alone, then each layer is the
/// set of targets of the previous one.
fn layers_of(level: &GameLevel) -> Vec<Vec<usize>> {
    let mut layers = vec![vec![0usize]];
    loop {
        let last = layers.last().unwrap();
        let mut next: Vec<usize> = Vec::new();
        for &a in last {
            for &b in &level.edges[a] {
                if !next.contains(&b) {
                    next.push(b);
                }
            }
        }
        if next.is_empty() {
            break;
        }
        next.sort();
        layers.push(next);
    }
    layers
}

#[test]
fn generated_levels_are_layered() {
    for seed in 0..200u64 {
        let level = level_for(seed);
        let n = level.nodes.len();
        assert_eq!(level.edges.len(), n);
        assert_eq!(level.nodes[0], MapNode::Start);
        assert_eq!(level.nodes[n - 1], MapNode::End);
        for i in 1..n - 1 {
            assert_eq!(level.nodes[i], MapNode::Combat);
        }
        for a in 0..n - 1 {
            assert!(!level.edges[a].is_empty(), "seed {} node {} has no way on", seed, a);
        }
        assert!(level.edges[n - 1].is_empty());
        for b in 1..n {
            assert!((0..n).any(|a| level.edges[a].contains(&b)), "seed {} node {} unreached", seed, b);
        }
        let layers = layers_of(&level);
        assert!(layers.len() >= 7 && layers.len() <= 9, "seed {}: {} layers", seed, layers.len());
        assert_eq!(layers[layers.len() - 1], vec![n - 1]);
        for l in 1..layers.len() - 1 {
            assert!(layers[l].len() >= 2 && layers[l].len() <= 4);
        }
        // ids are dense and in layer order
        let flat: Vec<usize> = layers.iter().flatten().copied().collect();
        assert_eq!(flat, (0..n).collect::<Vec<usize>>());
        assert_eq!(level.current, 0);
        assert!(level.visited.is_empty());
    }
}

#[test]
fn edges_join_adjacent_layers_only() {
    for seed in 0..200u64 {
        let level = level_for(seed);
        let layers = layers_of(&level);
        let layer_of = |i: usize| layers.iter().position(|l| l.contains(&i)).unwrap();
        for a in 0..level.nodes.len() {
            for &b in &level.edges[a] {
                assert_eq!(layer_of(b), layer_of(a) + 1);
                assert!(b > a);
            }
        }
    }
}

#[test]
fn same_seed_gives_identical_levels() {
    for seed in [0u64, 1, 7, 42, 12345, u64::MAX] {
        let a = GameState::new(seed);
        let b = GameState::new(seed);
        assert_eq!(a, b);
    }
}

#[test]
fn different_seeds_give_different_levels() {
    let first = level_for(1);
    assert!((2..40u64).any(|s| level_for(s) != first));
}

#[test]
fn seeded_state_is_fresh() {
    let s = GameState::new(99);
    let n = s.level.nodes.len();
    assert!(n >= 12 && n <= 30);
    assert_eq!(s.level.current, 0);
    assert_eq!(s.level.nodes[n - 1], MapNode::End);
    assert!(s.level.is_well_formed());
}

#[test]
fn level_from_draws_follows_the_cursor_walk() {
    let sizes = vec![1usize, 2, 2, 2, 2, 2, 1];
    let kinds = vec![0usize; 10];
    let choices: Vec<Vec<u8>> = vec![vec![], vec![2], vec![0], vec![1], vec![2], vec![]];
    let level = GameLevel::level_from_draws(&sizes, &kinds, &choices);
    let mut nodes = vec![MapNode::Start];
    nodes.extend(vec![MapNode::Combat; 10]);
    nodes.push(MapNode::End);
    assert_eq!(level.nodes, nodes);
    let expected: Vec<Vec<usize>> = vec![
        vec![1, 2],
        vec![3],
        vec![4],
        vec![5],
        vec![5, 6],
        vec![7, 8],
        vec![8],
        vec![9],
        vec![10],
        vec![11],
        vec![11],
        vec![],
    ];
    assert_eq!(level.edges, expected);
    assert_eq!(level.current, 0);
    assert!(level.visited.is_empty());
}

#[test]
fn level_from_draws_missing_choice_moves_previous() {
    let sizes = vec![1usize, 3, 3, 2, 2, 2, 1];
    let kinds = vec![0usize; 12];
    let choices: Vec<Vec<u8>> = vec![vec![]; 6];
    let level = GameLevel::level_from_draws(&sizes, &kinds, &choices);
    // layers 1..3 are ids 1-3 and 4-6: the previous cursor runs first
    assert_eq!(level.edges[1], vec![4]);
    assert_eq!(level.edges[2], vec![4]);
    assert_eq!(level.edges[3], vec![4, 5, 6]);
}

#[test]
fn malformed_levels_are_rejected() {
    let mut level = small_level();
    assert!(level.is_well_formed());
    level.current = 4;
    assert!(!level.is_well_formed());
    let mut back = small_level();
    back.edges[2] = vec![1];
    assert!(!back.is_well_formed());
    let mut seen = small_level();
    seen.visited = vec![0];
    assert!(!seen.is_well_formed());
}

#[test]
fn walking_any_path_ends_on_end() {
    for seed in 0..50u64 {
        let mut level = level_for(seed);
        let n = level.nodes.len();
        let mut steps = 0;
        // always take the last way on, then the first, alternating
        while !level.edges[level.current].is_empty() {
            let row = &level.edges[level.current];
            let target = if steps % 2 == 0 { row[row.len() - 1] } else { row[0] };
            let from = level.current;
            assert_eq!(level.advance(Some(GameMapAction::GoToNode(target))), MapSignal::StayOnMap);
            assert_eq!(level.current, target);
            assert_eq!(*level.visited.last().unwrap(), from);
            steps += 1;
            assert!(steps <= 8);
        }
        assert_eq!(level.current, n - 1);
        assert_eq!(level.nodes[level.current], MapNode::End);
    }
}

fn small_level() -> GameLevel {
    GameLevel {
        nodes: vec![MapNode::Start, MapNode::Combat, MapNode::Combat, MapNode::End],
        edges: vec![vec![1, 2], vec![3], vec![3], vec![]],
        current: 0,
        visited: vec![],
    }
}

#[test]
fn go_to_adjacent_node_moves() {
    let mut level = small_level();
    assert!(level.can_go_to(2));
    assert!(level.go_to_node(2));
    assert_eq!(level.current, 2);
    assert_eq!(level.visited, vec![0]);
    assert!(level.go_to_node(3));
    assert_eq!(level.current, 3);
    assert_eq!(level.visited, vec![0, 2]);
}

#[test]
fn go_to_non_adjacent_node_is_ignored() {
    let mut level = small_level();
    let before = level.clone();
    assert!(!level.can_go_to(3));
    assert!(!level.go_to_node(3));
    assert_eq!(level, before);
    assert_eq!(level.advance(Some(GameMapAction::GoToNode(0))), MapSignal::StayOnMap);
    assert_eq!(level, before);
}

#[test]
fn no_move_from_end() {
    let mut level = small_level();
    level.current = 3;
    let before = level.clone();
    for id in 0..5 {
        assert!(!level.go_to_node(id));
    }
    assert_eq!(level, before);
}

#[test]
fn waiting_and_pause_change_nothing() {
    let mut level = small_level();
    let before = level.clone();
    assert_eq!(level.advance(Some(GameMapAction::Waiting)), MapSignal::StayOnMap);
    assert_eq!(level.advance(None), MapSignal::StayOnMap);
    assert_eq!(level.advance(Some(GameMapAction::PauseGame)), MapSignal::EnterPauseMenu);
    assert_eq!(level, before);
}

#[test]
fn node_tags() {
    assert_eq!(MapNode::Start.as_u8(), 0);
    assert_eq!(MapNode::Combat.as_u8(), 1);
    assert_eq!(MapNode::End.as_u8(), 2);
    assert_eq!(MapNode::interior(0), MapNode::Combat);
}
