use segmenter::lattice::{Lattice, LatticeNode};

fn node(start: usize, end: usize, score: u64) -> LatticeNode {
    LatticeNode { term_id: None, start, end, score }
}

fn term_node(term_id: u32, start: usize, end: usize, score: u64) -> LatticeNode {
    LatticeNode { term_id: Some(term_id), start, end, score }
}

fn span_list(path: &[&LatticeNode]) -> Vec<(usize, usize)> {
    path.iter().map(|node| (node.start, node.end)).collect()
}

#[test]
fn empty_lattice_has_no_path() {
    assert!(Lattice::new(0, 0).find_path().is_empty());
    assert!(Lattice::new(10, 5).find_path().is_empty());
}

#[test]
fn lattice_of_length_one_has_no_path() {
    let mut lattice = Lattice::new(1, 1);
    lattice.add_node(node(0, 1, 9));
    assert!(lattice.find_path().is_empty());
}

#[test]
fn path_ends_one_position_before_the_length() {
    let mut lattice = Lattice::new(4, 3);
    lattice.add_node(node(0, 1, 1));
    lattice.add_node(node(1, 2, 1));
    lattice.add_node(node(2, 3, 100));
    lattice.add_node(node(0, 3, 100));
    assert_eq!(span_list(&lattice.find_path()), vec![(0, 1), (1, 2)]);
}

#[test]
fn path_of_greatest_total_is_taken() {
    let mut lattice = Lattice::new(8, 5);
    lattice.add_node(node(0, 1, 5));
    lattice.add_node(node(1, 2, 5));
    lattice.add_node(node(2, 4, 5));
    lattice.add_node(node(0, 2, 11));
    lattice.add_node(node(0, 4, 15));
    lattice.add_node(node(1, 4, 11));
    // 5 + 5 + 5 = 15, 11 + 5 = 16, 15, 5 + 11 = 16: the first path of 16 ends
    // with node (2, 4), which was laid before node (1, 4).
    assert_eq!(span_list(&lattice.find_path()), vec![(0, 2), (2, 4)]);
}

#[test]
fn node_carries_its_term() {
    let mut lattice = Lattice::new(2, 3);
    lattice.add_node(term_node(7, 0, 2, 3));
    let path = lattice.find_path();
    assert_eq!(path.len(), 1);
    assert_eq!(path[0].term_id, Some(7));
    assert_eq!(path[0].score, 3);
}

#[test]
fn equal_totals_keep_the_node_laid_first() {
    let mut lattice = Lattice::new(4, 3);
    lattice.add_node(term_node(1, 0, 2, 4));
    lattice.add_node(term_node(2, 0, 2, 4));
    let path = lattice.find_path();
    assert_eq!(path.len(), 1);
    assert_eq!(path[0].term_id, Some(1));

    let mut lattice = Lattice::new(4, 4);
    lattice.add_node(term_node(1, 0, 1, 4));
    lattice.add_node(term_node(2, 0, 1, 4));
    lattice.add_node(term_node(3, 1, 3, 1));
    let path = lattice.find_path();
    assert_eq!(path.len(), 2);
    assert_eq!(path[0].term_id, Some(1));
    assert_eq!(path[1].term_id, Some(3));
}

#[test]
fn node_without_predecessor_is_not_on_a_path() {
    let mut lattice = Lattice::new(4, 4);
    lattice.add_node(node(1, 3, 1000));
    assert!(lattice.find_path().is_empty());
    lattice.add_node(node(0, 2, 1));
    assert!(lattice.find_path().is_empty());
    lattice.add_node(node(2, 3, 1));
    assert_eq!(span_list(&lattice.find_path()), vec![(0, 2), (2, 3)]);
}

#[test]
fn node_of_score_zero_leads_nowhere() {
    // A predecessor must have a total above 0.
    let mut lattice = Lattice::new(4, 3);
    lattice.add_node(node(0, 1, 0));
    lattice.add_node(node(1, 2, 5));
    assert!(lattice.find_path().is_empty());
    // And so must the last node of the path.
    let mut lattice = Lattice::new(4, 3);
    lattice.add_node(node(0, 2, 0));
    assert!(lattice.find_path().is_empty());
    // A node of score 0 in the middle is passed.
    let mut lattice = Lattice::new(4, 4);
    lattice.add_node(node(0, 1, 2));
    lattice.add_node(node(1, 2, 0));
    lattice.add_node(node(2, 3, 1));
    assert_eq!(span_list(&lattice.find_path()), vec![(0, 1), (1, 2), (2, 3)]);
}

#[test]
fn totals_beyond_sixty_four_bits_are_compared_exactly() {
    let mut lattice = Lattice::new(8, 4);
    lattice.add_node(term_node(1, 0, 1, u64::MAX));
    lattice.add_node(term_node(2, 1, 2, u64::MAX));
    lattice.add_node(term_node(3, 2, 3, u64::MAX - 1));
    lattice.add_node(term_node(4, 1, 3, u64::MAX));
    lattice.add_node(term_node(5, 0, 3, u64::MAX));
    let path = lattice.find_path();
    let ids: Vec<Option<u32>> = path.iter().map(|node| node.term_id).collect();
    assert_eq!(ids, vec![Some(1), Some(2), Some(3)]);
}

/// The greatest score of a chain of nodes from position 0 to `target`, by
/// trying every chain.
fn best_by_search(nodes: &[LatticeNode], position: usize, target: usize) -> Option<u128> {
    if position == target {
        return Some(0);
    }
    let mut best: Option<u128> = None;
    for node in nodes.iter().filter(|node| node.start == position && node.end <= target) {
        if let Some(rest) = best_by_search(nodes, node.end, target) {
            let total = rest + node.score as u128;
            if best.map_or(true, |most| total > most) {
                best = Some(total);
            }
        }
    }
    best
}

#[test]
fn path_is_as_good_as_any_chain() {
    let mut seed: u64 = 0x2545_F491_4F6C_DD1D;
    let mut next = move |bound: u64| {
        seed ^= seed << 13;
        seed ^= seed >> 7;
        seed ^= seed << 17;
        seed % bound
    };
    for round in 0..200 {
        let length = 2 + (round % 7) as usize;
        let count = next(12) as usize;
        let mut lattice = Lattice::new(count, length);
        let mut nodes = Vec::new();
        for _ in 0..count {
            let start = next(length as u64) as usize;
            let end = start + 1 + next((length - start) as u64) as usize;
            let laid = node(start, end, 1 + next(20));
            lattice.add_node(laid);
            nodes.push(laid);
        }
        let path = lattice.find_path();
        let expected = best_by_search(&nodes, 0, length - 1);
        match expected {
            None => assert!(path.is_empty()),
            Some(most) => {
                assert!(!path.is_empty());
                assert_eq!(path[0].start, 0);
                assert_eq!(path[path.len() - 1].end, length - 1);
                for pair in path.windows(2) {
                    assert_eq!(pair[0].end, pair[1].start);
                }
                let total: u128 = path.iter().map(|node| node.score as u128).sum();
                assert_eq!(total, most);
            }
        }
    }
}

#[test]
fn node_path_gives_the_nodes_in_text_order() {
    let mut lattice = Lattice::new(4, 4);
    lattice.add_node(term_node(3, 2, 3, 1));
    lattice.add_node(term_node(2, 1, 2, 1));
    lattice.add_node(term_node(1, 0, 1, 1));
    let found = lattice.find_node_path().unwrap();
    let ids: Vec<Option<u32>> = found.path().iter().map(|node| node.term_id).collect();
    assert_eq!(ids, vec![Some(1), Some(2), Some(3)]);
    assert_eq!(span_list(&lattice.find_path()), vec![(0, 1), (1, 2), (2, 3)]);
}

#[test]
fn node_path_is_none_without_a_path() {
    assert!(Lattice::new(0, 0).find_node_path().is_none());
    let mut lattice = Lattice::new(4, 4);
    lattice.add_node(node(0, 1, 1));
    lattice.add_node(node(2, 3, 1));
    assert!(lattice.find_node_path().is_none());
}

#[test]
fn cloned_lattice_has_the_same_path() {
    let mut lattice = Lattice::new(4, 4);
    lattice.add_node(term_node(1, 0, 1, 2));
    lattice.add_node(term_node(2, 1, 3, 2));
    let mut copy = lattice.clone();
    assert_eq!(span_list(&copy.find_path()), vec![(0, 1), (1, 3)]);
    copy.add_node(term_node(3, 0, 3, 9));
    assert_eq!(span_list(&copy.find_path()), vec![(0, 3)]);
    assert_eq!(span_list(&lattice.find_path()), vec![(0, 1), (1, 3)]);
}
