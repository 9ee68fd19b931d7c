use pagerank::error::Error;
use pagerank::graph::Graph;
use pagerank::graph::BASE_SCORE;
use pagerank::graph::SCORE_SCALE;

fn score_as_float(units: u64) -> f64 {
    units as f64 / SCORE_SCALE as f64
}

#[test]
fn test_example_1() {
    let mut g = Graph::new(2);
    g.connect(0, 1).unwrap();
    g.connect(1, 0).unwrap();

    g.pagerank(100).unwrap();
    let pagerank = g.scores();
    let epsilon: f64 = 0.01;
    assert!((score_as_float(*pagerank.get(0).unwrap()) - 1.0).abs() < epsilon);
    assert!((score_as_float(*pagerank.get(1).unwrap()) - 1.0).abs() < epsilon);
}

#[test]
fn test_example_2() {
    let mut g = Graph::new(4);
    g.connect(0, 1).unwrap();
    g.connect(0, 2).unwrap();
    g.connect(1, 2).unwrap();
    g.connect(2, 0).unwrap();
    g.connect(3, 2).unwrap();

    g.pagerank(100).unwrap();
    let pagerank = g.scores();
    let epsilon: f64 = 0.01;
    assert!((score_as_float(*pagerank.get(0).unwrap()) - 1.5).abs() < epsilon);
    assert!((score_as_float(*pagerank.get(1).unwrap()) - 0.78).abs() < epsilon);
    assert!((score_as_float(*pagerank.get(2).unwrap()) - 1.58).abs() < epsilon);
    assert!((score_as_float(*pagerank.get(3).unwrap()) - 0.15).abs() < epsilon);
}

#[test]
fn test_example_3() {
    let mut g = Graph::new(8);
    g.connect(0, 1).unwrap();
    g.connect(0, 2).unwrap();
    g.connect(0, 3).unwrap();
    g.connect(1, 0).unwrap();
    g.connect(2, 0).unwrap();
    g.connect(3, 0).unwrap();
    g.connect(3, 4).unwrap();
    g.connect(3, 5).unwrap();
    g.connect(3, 6).unwrap();
    g.connect(3, 7).unwrap();
    g.connect(4, 0).unwrap();
    g.connect(5, 0).unwrap();
    g.connect(6, 0).unwrap();
    g.connect(7, 0).unwrap();

    g.pagerank(100).unwrap();
    let pagerank = g.scores();
    let epsilon: f64 = 0.01;
    assert!((score_as_float(*pagerank.get(0).unwrap()) - 3.35).abs() < epsilon);
    assert!((score_as_float(*pagerank.get(1).unwrap()) - 1.1).abs() < epsilon);
    assert!((score_as_float(*pagerank.get(2).unwrap()) - 1.1).abs() < epsilon);
    assert!((score_as_float(*pagerank.get(3).unwrap()) - 1.1).abs() < epsilon);
    assert!((score_as_float(*pagerank.get(4).unwrap()) - 0.34).abs() < epsilon);
    assert!((score_as_float(*pagerank.get(5).unwrap()) - 0.34).abs() < epsilon);
    assert!((score_as_float(*pagerank.get(6).unwrap()) - 0.34).abs() < epsilon);
    assert!((score_as_float(*pagerank.get(7).unwrap()) - 0.34).abs() < epsilon);
}

#[test]
fn zero_iterations_keep_fresh_scores() {
    let mut g = Graph::new(3);
    g.connect(0, 1).unwrap();
    g.connect(1, 2).unwrap();
    g.connect(2, 0).unwrap();

    g.pagerank(0).unwrap();
    assert_eq!(g.scores().as_slice(), &[0, 0, 0]);
}

#[test]
fn zero_iterations_keep_earlier_results() {
    let mut g = Graph::new(3);
    g.connect(0, 1).unwrap();
    g.connect(1, 2).unwrap();
    g.connect(2, 0).unwrap();

    g.pagerank(7).unwrap();
    let before = g.scores().clone();
    g.pagerank(0).unwrap();
    assert_eq!(g.scores(), &before);
}

#[test]
fn repeated_calls_accumulate_sweeps() {
    let mut once = Graph::new(4);
    let mut twice = Graph::new(4);
    for g in [&mut once, &mut twice] {
        g.connect(0, 1).unwrap();
        g.connect(1, 2).unwrap();
        g.connect(2, 3).unwrap();
        g.connect(3, 0).unwrap();
    }

    once.pagerank(10).unwrap();
    twice.pagerank(4).unwrap();
    twice.pagerank(6).unwrap();
    assert_eq!(once.scores(), twice.scores());
}

#[test]
fn vertex_without_in_neighbors_scores_exactly_base() {
    // Vertex 3 of the second example graph has no incoming edges.
    let mut g = Graph::new(4);
    g.connect(0, 1).unwrap();
    g.connect(0, 2).unwrap();
    g.connect(1, 2).unwrap();
    g.connect(2, 0).unwrap();
    g.connect(3, 2).unwrap();

    g.pagerank(1).unwrap();
    assert_eq!(g.scores()[3], BASE_SCORE);
    g.pagerank(99).unwrap();
    assert_eq!(g.scores()[3], BASE_SCORE);
    assert_eq!(score_as_float(BASE_SCORE), 0.15);
}

#[test]
fn fresh_graph_has_zero_out_degrees() {
    let g = Graph::new(5);
    for v in 0..5 {
        assert_eq!(g.outgoing_links_count(v), 0);
        assert_eq!(g.contributed_vertexes(v), Vec::<usize>::new());
    }
}

#[test]
fn connect_raises_out_degree_by_one_and_adds_in_neighbor() {
    let mut g = Graph::new(5);
    g.connect(1, 3).unwrap();
    assert_eq!(g.outgoing_links_count(1), 1);
    assert_eq!(g.contributed_vertexes(3), vec![1]);

    // Connecting the same pair again has no further effect.
    g.connect(1, 3).unwrap();
    assert_eq!(g.outgoing_links_count(1), 1);
    assert_eq!(g.contributed_vertexes(3), vec![1]);
}

#[test]
fn self_loops_count_for_nothing() {
    let mut g = Graph::new(3);
    g.connect(2, 2).unwrap();
    assert_eq!(g.outgoing_links_count(2), 0);
    assert_eq!(g.contributed_vertexes(2), Vec::<usize>::new());
}

#[test]
fn connect_out_of_range_reports_index_error() {
    let mut g = Graph::new(5);
    assert_eq!(g.connect(5, 0), Err(Error::IndexOutOfRange));
    assert_eq!(g.connect(0, 5), Err(Error::IndexOutOfRange));
    assert_eq!(g.connect(7, 9), Err(Error::IndexOutOfRange));
}

#[test]
fn in_neighbors_come_in_ascending_scan_order() {
    let mut g = Graph::new(4);
    // Insert edges into vertex 2 out of order.
    g.connect(3, 2).unwrap();
    g.connect(0, 2).unwrap();
    g.connect(1, 2).unwrap();
    assert_eq!(g.contributed_vertexes(2), vec![0, 1, 3]);
}
