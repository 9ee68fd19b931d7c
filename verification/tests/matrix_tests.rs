use pagerank::error::Error;
use pagerank::graph::Graph;
use pagerank::matrix::Matrix;

#[test]
fn new_matrix_is_default_filled() {
    let m: Matrix<u64> = Matrix::new(2, 3);
    for r in 0..2 {
        for c in 0..3 {
            assert_eq!(m.get(r, c), Ok(&0));
        }
    }
}

#[test]
fn set_then_get_round_trips() {
    let mut m: Matrix<u64> = Matrix::new(2, 3);
    m.set(1, 2, 42).unwrap();
    m.set(0, 0, 7).unwrap();
    assert_eq!(m.get(1, 2), Ok(&42));
    assert_eq!(m.get(0, 0), Ok(&7));
    assert_eq!(m.get(0, 1), Ok(&0));
}

#[test]
fn get_and_set_out_of_range_report_index_error() {
    let mut m: Matrix<u64> = Matrix::new(2, 3);
    // Boundary indices: row == rows, col == cols.
    assert_eq!(m.get(2, 0), Err(Error::IndexOutOfRange));
    assert_eq!(m.get(0, 3), Err(Error::IndexOutOfRange));
    assert_eq!(m.set(2, 0, 1), Err(Error::IndexOutOfRange));
    assert_eq!(m.set(0, 3, 1), Err(Error::IndexOutOfRange));
    // Far out of range.
    assert_eq!(m.get(100, 0), Err(Error::IndexOutOfRange));
    assert_eq!(m.get(0, 100), Err(Error::IndexOutOfRange));
    assert_eq!(m.set(100, 100, 1), Err(Error::IndexOutOfRange));
    // The failed writes changed nothing.
    assert_eq!(m.get(1, 2), Ok(&0));
}

#[test]
fn every_out_of_range_index_fails_on_a_square_matrix() {
    let m: Matrix<u64> = Matrix::new(3, 3);
    for i in 0..3 {
        for oob in 3..6 {
            assert_eq!(m.get(i, oob), Err(Error::IndexOutOfRange));
            assert_eq!(m.get(oob, i), Err(Error::IndexOutOfRange));
        }
    }
}

#[test]
fn render_writes_one_wrapped_line_per_row() {
    let mut g = Graph::new(2);
    g.connect(0, 1).unwrap();
    assert_eq!(g.adjacency().render(), "|false true|\n|false false|\n");

    let empty = Graph::new(0);
    assert_eq!(empty.adjacency().render(), "");
}

#[test]
fn render_shows_the_demo_adjacency() {
    let mut g = Graph::new(4);
    g.connect(0, 1).unwrap();
    g.connect(0, 2).unwrap();
    g.connect(1, 2).unwrap();
    g.connect(2, 0).unwrap();
    g.connect(3, 2).unwrap();
    let expected = "|false true true false|\n\
                    |false false true false|\n\
                    |true false false false|\n\
                    |false false true false|\n";
    assert_eq!(g.adjacency().render(), expected);
}
