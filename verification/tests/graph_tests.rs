//! Behavior of the grid graph and its two-phase step engine on concrete
//! boards: neighbor enumeration on the torus, forward weights, the walk
//! back along descending weights, and the wall-masking quirk.
use canvas_demos::data_structures::graph::{Graph, Type};

fn drive_forward(g: &mut Graph, cap: usize) {
    let mut steps = 0;
    while g.queue_len() > 0 && !g.is_backtracking() && steps < cap {
        g.bfs();
        steps += 1;
    }
}

fn index(g: &Graph, row: u32, column: u32) -> usize {
    g.get_index(row, column)
}

#[test]
fn neighbor_set_cardinality() {
    let g = Graph::new(10, 10);

    // An interior cell has 8 pairwise distinct neighbors.
    let interior = g.get_neighbor_indexes(5, 5);
    assert_eq!(interior.len(), 8);
    for a in 0..8 {
        for b in 0..8 {
            if a != b {
                assert_ne!(interior[a], interior[b]);
            }
        }
    }

    // So does a corner, thanks to the wrap-around.
    let corner = g.get_neighbor_indexes(0, 0);
    assert_eq!(corner.len(), 8);
    for a in 0..8 {
        for b in 0..8 {
            if a != b {
                assert_ne!(corner[a], corner[b]);
            }
        }
    }
    // In enumeration order: same row right and left, the row above
    // (center, right, left), then the row below.
    assert_eq!(corner, vec![1, 9, 90, 91, 99, 10, 11, 19]);
}

#[test]
fn bfs_weight_correctness() {
    // 10x10 empty board, Start at the origin, no End: the forward phase
    // drains the frontier, and every weight is bounded by the 8-connected
    // Chebyshev distance to Start on the torus (at most 5).
    let mut g = Graph::new(10, 10);
    g.set_start_node(0, 0);
    drive_forward(&mut g, 10_000);
    assert_eq!(g.queue_len(), 0);
    assert!(!g.is_backtracking());

    for row in 0..10u32 {
        for column in 0..10u32 {
            if row == 0 && column == 0 {
                continue;
            }
            let wrap_r = row.min(10 - row);
            let wrap_c = column.min(10 - column);
            let chebyshev = wrap_r.max(wrap_c);
            let weight = g.nodes()[index(&g, row, column)].weight;
            assert!(weight <= chebyshev, "({row},{column}): {weight} > {chebyshev}");
            assert!(weight <= 5);
        }
    }
    // The Start cell is the one exception: seeding the frontier does not
    // mark it visited, so a neighboring cell of weight 1 later relaxes it
    // to weight 2.
    assert_eq!(g.nodes()[index(&g, 0, 0)].weight, 2);
}

#[test]
fn bfs_scenario_five_by_five() {
    // 5x5, Start (0,0), End (0,4), no walls: on the torus, End is the
    // left-hand neighbor of Start, so its weight is 1.
    let mut g = Graph::new(5, 5);
    g.set_start_node(0, 0);
    g.set_end_node(0, 4);
    let mut steps = 0;
    while !g.is_backtracking() && steps < 1000 {
        g.bfs();
        steps += 1;
    }
    assert!(g.is_backtracking());
    assert_eq!(g.nodes()[index(&g, 0, 4)].weight, 1);
}

#[test]
fn backtracking_path_is_a_descent() {
    // 9x9 board, Start (1,1), End (5,5): drive the forward phase to the
    // End, then the backward walk to exhaustion. The cells re-typed Path
    // carry strictly decreasing weights, and the walk ends once a neighbor
    // of the last dequeued cell is the Start.
    let mut g = Graph::new(9, 9);
    g.set_start_node(1, 1);
    g.set_end_node(5, 5);
    let mut steps = 0;
    while !g.is_backtracking() && steps < 10_000 {
        g.bfs();
        steps += 1;
    }
    assert!(g.is_backtracking());

    let total = (g.width() * g.height()) as usize;
    let mut path: Vec<(usize, u32)> = Vec::new();
    let mut steps = 0;
    while g.queue_len() > 0 && steps < 10_000 {
        g.bfs();
        steps += 1;
        for i in 0..total {
            let node = &g.nodes()[i];
            if node.node_type() == Type::Path && !path.iter().any(|(j, _)| *j == i) {
                path.push((i, node.weight));
            }
        }
    }
    assert_eq!(g.queue_len(), 0);
    assert!(!path.is_empty());
    // Strict descent of weights along the walk.
    for pair in path.windows(2) {
        assert!(pair[1].1 < pair[0].1, "weights do not descend: {path:?}");
    }
    // The walk ends adjacent to Start: the last Path cell has the Start
    // among its neighbors.
    let (last, last_weight) = *path.last().unwrap();
    assert_eq!(last_weight, 1);
    let row = (last / 9) as u32;
    let column = (last % 9) as u32;
    let start_index = index(&g, 1, 1);
    assert!(g.get_neighbor_indexes(row, column).contains(&start_index));
}

#[test]
fn wall_neighbors_are_masked_but_not_enqueued() {
    let mut g = Graph::new(5, 5);
    g.set_start_node(2, 2);
    g.set_wall_node(2, 3);
    g.bfs();

    let wall = index(&g, 2, 3);
    assert_eq!(g.nodes()[wall].node_type(), Type::Wall);
    assert!(g.nodes()[wall].is_visited());
    assert_eq!(g.nodes()[wall].weight, 0);
    assert!(!g.queue.contains(&wall));
    // The seven other neighbors were relaxed and enqueued.
    assert_eq!(g.queue_len(), 7);
}

#[test]
fn two_by_two_board_duplicates_neighbors_without_requeuing() {
    // On a 2x2 torus the 8 neighbor slots name only the 3 other cells, with
    // repeats; each cell is still seen and enqueued once.
    let mut g = Graph::new(2, 2);
    g.set_start_node(0, 0);
    let neighbors = g.get_neighbor_indexes(0, 0);
    assert_eq!(neighbors.len(), 8);
    assert!(!neighbors.contains(&0));
    g.bfs();
    assert_eq!(g.queue_len(), 3);
    for i in 1..4 {
        assert!(g.nodes()[i].is_visited());
        assert_eq!(g.nodes()[i].weight, 1);
    }
}

#[test]
fn bfs_without_start_is_a_noop() {
    let mut g = Graph::new(4, 4);
    g.bfs();
    assert_eq!(g.queue_len(), 0);
    assert!(!g.is_backtracking());
    for i in 0..16 {
        assert_eq!(g.nodes()[i].node_type(), Type::Available);
        assert!(!g.nodes()[i].is_visited());
        assert_eq!(g.nodes()[i].weight, 0);
    }
}

#[test]
fn setters_mark_cells_and_seed_the_frontier() {
    let mut g = Graph::new(6, 4);
    assert_eq!(g.width(), 6);
    assert_eq!(g.height(), 4);
    assert_eq!(g.nodes().len(), 24);

    g.set_start_node(3, 2);
    assert_eq!(g.nodes()[index(&g, 3, 2)].node_type(), Type::Start);
    assert_eq!(g.queue_len(), 1);

    g.set_end_node(0, 5);
    assert_eq!(g.nodes()[index(&g, 0, 5)].node_type(), Type::End);
    // Setting End does not touch the frontier.
    assert_eq!(g.queue_len(), 1);

    g.set_wall_node(1, 1);
    assert_eq!(g.nodes()[index(&g, 1, 1)].node_type(), Type::Wall);

    // Last write wins on a cell.
    g.set_wall_node(0, 5);
    assert_eq!(g.nodes()[index(&g, 0, 5)].node_type(), Type::Wall);
}

#[test]
fn setting_start_twice_reseeds_without_clearing() {
    let mut g = Graph::new(5, 5);
    g.set_start_node(0, 0);
    g.set_start_node(2, 2);
    // The earlier seed stays in the frontier; the mark moves.
    assert_eq!(g.queue_len(), 2);
    assert_eq!(g.nodes()[index(&g, 0, 0)].node_type(), Type::Start);
    assert_eq!(g.nodes()[index(&g, 2, 2)].node_type(), Type::Start);
}

#[test]
fn reaching_the_end_reseeds_the_frontier_alone() {
    let mut g = Graph::new(5, 5);
    g.set_start_node(0, 0);
    g.set_end_node(1, 1);
    // First tick expands Start; the End is a neighbor, relaxed to weight 1.
    g.bfs();
    assert!(!g.is_backtracking());
    // Next ticks dequeue until the End comes up, which clears the frontier,
    // re-seeds it with the End alone, and flips the phase.
    let mut steps = 0;
    while !g.is_backtracking() && steps < 100 {
        g.bfs();
        steps += 1;
    }
    assert!(g.is_backtracking());
    assert_eq!(g.queue_len(), 1);
    assert_eq!(g.nodes()[index(&g, 1, 1)].node_type(), Type::End);
}
