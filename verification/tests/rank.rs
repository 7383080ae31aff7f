use food_access::{
    calculate_degree_centrality, create_edges, Centrality, Node, NodeMap, RankError, Score,
};

fn score(x: f64) -> Score {
    let bits = (x + 0.0).to_bits() as i64;
    Score { ordinal: bits ^ ((((bits >> 63) as u64) >> 1) as i64) }
}

fn centrality(c: Centrality) -> f64 {
    c.degree as f64 / c.out_of as f64
}

fn scored(id: &str, county: &str, urban: &str, value: f64) -> Node {
    Node {
        food_insecurity_score: score(value),
        census_tract: id.to_string(),
        county: county.to_string(),
        urban: urban.to_string(),
        pop_2010: String::new(),
        housing_units: String::new(),
        group_quarters: String::new(),
        vehicle_access: String::new(),
        low_income: String::new(),
        poverty_rate: String::new(),
        median_family_income: String::new(),
        no_supermarket: String::new(),
        tract_kids: String::new(),
        tract_seniors: String::new(),
        tract_white: String::new(),
        tract_black: String::new(),
        tract_asian: String::new(),
        tract_hispanic: String::new(),
        tract_snap: String::new(),
        edges: Vec::new(),
    }
}

fn joined_map(nodes: Vec<Node>) -> NodeMap {
    let mut map = NodeMap::new();
    for node in nodes {
        map.insert(node);
    }
    create_edges(&mut map);
    map
}

#[test]
fn the_order_of_scores_is_the_order_of_their_integers() {
    let values = [-1.0e300, -20.5, -1.0, -0.0, 0.0, 1.0e-300, 0.1, 10.0, 15.0, 20.0, 1.0e300];
    for a in values {
        for b in values {
            assert_eq!(score(a).ordinal < score(b).ordinal, a < b, "{a} {b}");
            assert_eq!(score(a) == score(b), a == b, "{a} {b}");
        }
    }
}

#[test]
fn the_higher_score_wins_over_the_better_connected() {
    // X stands alone; Y is joined to one of the two other tracts.
    let map = joined_map(vec![
        scored("36001ABC", "Albany", "1", 20.0),
        scored("36001000100", "Bronx", "0", 15.0),
        scored("36001000105", "Kings", "0", 1.0),
    ]);
    let y = map.get("36001000100").unwrap();
    assert_eq!(y.edges.len(), 1);
    assert_eq!(map.get("36001ABC").unwrap().edges.len(), 0);
    let best = calculate_degree_centrality(&map, 3).unwrap();
    assert_eq!(best.id, "36001ABC");
    assert_eq!(best.region, "Albany");
    assert_eq!(best.composite_score, score(20.0));
    assert_eq!(best.degree_centrality, Centrality { degree: 0, out_of: 2 });
    assert_eq!(centrality(best.degree_centrality), 0.0);
}

#[test]
fn among_equal_scores_the_better_connected_wins() {
    // Nine tracts: the first has two neighbours, the fourth has five.
    let map = joined_map(vec![
        scored("36001000100", "A", "1", 10.0),
        scored("36001000105", "B", "1", 1.0),
        scored("36001000110", "C", "1", 1.0),
        scored("36001000500", "D", "1", 10.0),
        scored("36001000501", "E", "1", 1.0),
        scored("36001000502", "F", "1", 1.0),
        scored("36001000503", "G", "1", 1.0),
        scored("36001000504", "H", "1", 1.0),
        scored("36001000505", "I", "1", 1.0),
    ]);
    assert_eq!(map.get("36001000100").unwrap().edges.len(), 2);
    assert_eq!(map.get("36001000500").unwrap().edges.len(), 5);
    let best = calculate_degree_centrality(&map, 9).unwrap();
    assert_eq!(best.id, "36001000500");
    assert_eq!(best.region, "D");
    assert_eq!(best.composite_score, score(10.0));
    assert_eq!(best.degree_centrality, Centrality { degree: 5, out_of: 8 });
    assert_eq!(centrality(best.degree_centrality), 0.625);
}

#[test]
fn among_equals_in_both_the_first_wins() {
    let map = joined_map(vec![
        scored("36001000100", "A", "1", 1.0),
        scored("36001000900", "B", "0", 7.5),
        scored("36001000500", "C", "1", 7.5),
        scored("36001000700", "D", "0", 7.5),
    ]);
    let best = calculate_degree_centrality(&map, 4).unwrap();
    assert_eq!(best.id, "36001000900");
    assert_eq!(best.degree_centrality, Centrality { degree: 0, out_of: 3 });
}

#[test]
fn a_later_node_takes_the_lead_only_when_it_is_better() {
    let map = joined_map(vec![
        scored("36001000100", "A", "1", 5.0),
        scored("36001000105", "B", "0", 5.0),
        scored("36001000111", "C", "0", 5.0),
        scored("36001000900", "D", "0", 4.0),
    ]);
    // The second tract has two neighbours, the first and the third one each.
    let best = calculate_degree_centrality(&map, 4).unwrap();
    assert_eq!(best.id, "36001000105");
    assert_eq!(best.degree_centrality, Centrality { degree: 2, out_of: 3 });
}

#[test]
fn scores_below_nought_are_ranked_like_any_other() {
    let map = joined_map(vec![
        scored("36001000100", "A", "1", -3.0),
        scored("36001000900", "B", "0", -2.5),
        scored("36001000500", "C", "1", -7.0),
    ]);
    let best = calculate_degree_centrality(&map, 3).unwrap();
    assert_eq!(best.id, "36001000900");
    assert_eq!(best.composite_score, score(-2.5));
    let zero = joined_map(vec![scored("36001000100", "A", "1", 0.0)]);
    assert_eq!(calculate_degree_centrality(&zero, 2).unwrap().id, "36001000100");
}

#[test]
fn an_empty_mapping_cannot_be_ranked() {
    let map = NodeMap::new();
    assert_eq!(calculate_degree_centrality(&map, 0).unwrap_err(), RankError::EmptyGraph);
    assert_eq!(calculate_degree_centrality(&map, 1).unwrap_err(), RankError::EmptyGraph);
    assert_eq!(calculate_degree_centrality(&map, 9).unwrap_err(), RankError::EmptyGraph);
}

#[test]
fn a_count_below_two_cannot_be_ranked_against() {
    let map = joined_map(vec![scored("36001000100", "A", "1", 5.0)]);
    assert_eq!(calculate_degree_centrality(&map, 0).unwrap_err(), RankError::InsufficientData);
    assert_eq!(calculate_degree_centrality(&map, 1).unwrap_err(), RankError::InsufficientData);
    assert_eq!(
        calculate_degree_centrality(&map, 2).unwrap().degree_centrality,
        Centrality { degree: 0, out_of: 1 }
    );
}

#[test]
fn the_count_is_that_of_the_records_not_of_the_nodes() {
    let map = joined_map(vec![
        scored("36001000100", "A", "1", 5.0),
        scored("36001000105", "B", "0", 1.0),
    ]);
    let best = calculate_degree_centrality(&map, 11).unwrap();
    assert_eq!(best.degree_centrality, Centrality { degree: 1, out_of: 10 });
    assert_eq!(centrality(best.degree_centrality), 0.1);
}

#[test]
fn centrality_lies_between_nought_and_one() {
    let map = joined_map(vec![
        scored("36001000100", "A", "1", 5.0),
        scored("36001000105", "A", "1", 5.0),
        scored("36001000110", "A", "1", 5.0),
        scored("36001000900", "B", "0", 9.0),
    ]);
    let count = map.len();
    for node in map.nodes() {
        assert!(node.edges.len() <= count - 1);
    }
    let best = calculate_degree_centrality(&map, count).unwrap();
    let c = centrality(best.degree_centrality);
    assert!(0.0 <= c && c <= 1.0);
    let full = joined_map(vec![
        scored("36001000100", "A", "1", 5.0),
        scored("36001000105", "A", "1", 5.0),
        scored("36001000110", "A", "1", 5.0),
    ]);
    let top = calculate_degree_centrality(&full, 3).unwrap();
    assert_eq!(top.degree_centrality, Centrality { degree: 2, out_of: 2 });
    assert_eq!(centrality(top.degree_centrality), 1.0);
}

#[test]
fn the_same_nodes_give_the_same_result() {
    let build = || {
        joined_map(vec![
            scored("36001000100", "A", "1", 5.0),
            scored("36001000105", "B", "0", 5.0),
            scored("36001000900", "A", "1", 5.0),
        ])
    };
    let first = calculate_degree_centrality(&build(), 3).unwrap();
    let second = calculate_degree_centrality(&build(), 3).unwrap();
    assert_eq!(first.id, second.id);
    assert_eq!(first.region, second.region);
    assert_eq!(first.composite_score, second.composite_score);
    assert_eq!(first.degree_centrality, second.degree_centrality);
    assert_eq!(first.id, "36001000100");
    assert_eq!(first.degree_centrality, Centrality { degree: 2, out_of: 2 });
}
