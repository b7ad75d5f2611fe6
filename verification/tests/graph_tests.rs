use algokit::matrix::{Matrix, SMatrix};

#[test]
fn bfs_connected() {
    const ROW0: [i64; 5] = [0, 1, 1, 1, 1];
    const ROW1: [i64; 5] = [1, 0, 1, 1, 1];
    const ROW2: [i64; 5] = [1, 1, 0, 1, 1];
    const ROW3: [i64; 5] = [1, 1, 1, 0, 1];
    const ROW4: [i64; 5] = [1, 1, 1, 1, 0];
    const MATRIX: [[i64; 5]; 5] = [ROW0, ROW1, ROW2, ROW3, ROW4];

    let graph = SMatrix::from_raw(MATRIX);

    assert_eq!(graph.bfs(0), true);
}

#[test]
fn bfs_not_connected() {
    const MATRIX: [[i64; 5]; 5] = [[0; 5]; 5];

    let graph = SMatrix::from_raw(MATRIX);

    assert_eq!(graph.bfs(0), false);
}

#[test]
fn dfs_connected() {
    const ROW0: [i64; 5] = [0, 1, 1, 1, 1];
    const ROW1: [i64; 5] = [1, 0, 1, 1, 1];
    const ROW2: [i64; 5] = [1, 1, 0, 1, 1];
    const ROW3: [i64; 5] = [1, 1, 1, 0, 1];
    const ROW4: [i64; 5] = [1, 1, 1, 1, 0];
    const MATRIX: [[i64; 5]; 5] = [ROW0, ROW1, ROW2, ROW3, ROW4];

    let graph = SMatrix::from_raw(MATRIX);

    assert_eq!(graph.dfs(0), true);
}

#[test]
fn dfs_not_connected() {
    const MATRIX: [[i64; 5]; 5] = [[0; 5]; 5];

    let graph = SMatrix::from_raw(MATRIX);

    assert_eq!(graph.dfs(0), false);
}

fn dijkstra_graph() -> SMatrix<10> {
    let mut graph = SMatrix::<10>::from_raw([[0; 10]; 10]);

    graph.sset(0, 1, 85);
    graph.sset(0, 2, 217);
    graph.sset(0, 4, 173);
    graph.sset(1, 5, 80);
    graph.sset(2, 6, 186);
    graph.sset(2, 7, 103);
    graph.sset(3, 7, 183);
    graph.sset(4, 9, 502);
    graph.sset(5, 8, 250);
    graph.sset(7, 9, 167);
    graph.sset(8, 9, 84);

    graph
}

#[test]
fn dijkstra() {
    let graph = dijkstra_graph();

    assert_eq!(graph.dijkstra(0, 3), 503);
}

#[test]
fn dijkstra_with_path() {
    let graph = dijkstra_graph();

    assert_eq!(graph.dijkstra_with_path(0, 3), (503, vec![3, 7, 2, 0]));
}

#[test]
fn dijkstra_from_src() {
    let graph = dijkstra_graph();

    assert_eq!(
        graph.dijkstra_from_src(0),
        vec![0, 85, 217, 503, 173, 165, 403, 320, 415, 487]
    );
}

#[test]
fn dijkstra_from_src_with_path() {
    let graph = dijkstra_graph();

    assert_eq!(
        graph.dijkstra_from_src_with_path(0),
        vec![
            (85, vec![1, 0]),
            (165, vec![5, 1, 0]),
            (173, vec![4, 0]),
            (217, vec![2, 0]),
            (320, vec![7, 2, 0]),
            (403, vec![6, 2, 0]),
            (415, vec![8, 5, 1, 0]),
            (487, vec![9, 7, 2, 0]),
            (503, vec![3, 7, 2, 0]),
        ]
    );
}

#[test]
fn flood_fill() {
    let mut m = Matrix::from_raw([[0; 4], [0, 1, 0, 0], [0; 4], [0; 4]]);
    let n = Matrix::from_raw([[2; 4], [2, 1, 2, 2], [2; 4], [2; 4]]);

    m.flood_fill(1, 0, 2);

    assert!(m == n);
}

#[test]
fn kruskal() {
    let mut graph = SMatrix::<5>::from_raw([[0; 5]; 5]);

    graph.sset(0, 1, 2);
    graph.sset(0, 3, 6);
    graph.sset(1, 2, 3);
    graph.sset(1, 3, 8);
    graph.sset(1, 4, 5);
    graph.sset(2, 4, 7);
    graph.sset(3, 4, 9);

    let mut expected = SMatrix::<5>::from_raw([[0; 5]; 5]);
    expected.sset(0, 1, 2);
    expected.sset(1, 2, 3);
    expected.sset(1, 4, 5);
    expected.sset(0, 3, 6);

    assert!(graph.kruskal() == expected);
}
