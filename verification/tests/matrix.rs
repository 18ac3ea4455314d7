use braacket_h2h::matrix::{assemble_matrix, merge_pages, MatrixAssemblyError, PageResult};
use braacket_h2h::record::PlayerH2H;

fn player(name: &str, results: &[(u16, u16)]) -> PlayerH2H {
    PlayerH2H::new(name.to_string(), results.to_vec()).unwrap()
}

fn page(row_page: u16, col_page: u16, players: Vec<PlayerH2H>) -> PageResult {
    PageResult { row_page, col_page, players }
}

#[test]
fn three_column_pages_merge_in_page_order() {
    let pages = vec![
        page(1, 1, vec![player("Alice", &[(3, 1)])]),
        page(1, 2, vec![player("Alice", &[(0, 2)])]),
        page(1, 3, vec![player("Alice", &[(5, 0)])]),
    ];
    let merged = merge_pages(&pages, 1, 3);
    assert_eq!(merged, vec![player("Alice", &[(3, 1), (0, 2), (5, 0)])]);
    assert_eq!(assemble_matrix(&pages, 1, 3, 3), Ok(vec![player("Alice", &[(3, 1), (0, 2), (5, 0)])]));
}

#[test]
fn reversed_arrival_merges_by_page_index() {
    let pages = vec![
        page(1, 3, vec![player("Alice", &[(5, 0)])]),
        page(1, 2, vec![player("Alice", &[(0, 2)])]),
        page(1, 1, vec![player("Alice", &[(3, 1)])]),
    ];
    assert_eq!(merge_pages(&pages, 1, 3), vec![player("Alice", &[(3, 1), (0, 2), (5, 0)])]);
    assert_eq!(assemble_matrix(&pages, 1, 3, 3), Ok(vec![player("Alice", &[(3, 1), (0, 2), (5, 0)])]));
}

#[test]
fn any_arrival_order_gives_the_same_matrix() {
    let a = || page(1, 1, vec![player("Alice", &[(1, 0)]), player("Bob", &[(0, 1)])]);
    let b = || page(1, 2, vec![player("Alice", &[(2, 0)]), player("Bob", &[(0, 2)])]);
    let c = || page(2, 1, vec![player("Carol", &[(3, 0)])]);
    let d = || page(2, 2, vec![player("Carol", &[(4, 0)])]);
    let expected = vec![
        player("Alice", &[(1, 0), (2, 0)]),
        player("Bob", &[(0, 1), (0, 2)]),
        player("Carol", &[(3, 0), (4, 0)]),
    ];
    let orders = vec![
        vec![a(), b(), c(), d()],
        vec![d(), c(), b(), a()],
        vec![b(), d(), a(), c()],
        vec![c(), a(), d(), b()],
    ];
    for pages in orders {
        assert_eq!(assemble_matrix(&pages, 2, 2, 2), Ok(expected.clone()));
    }
}

#[test]
fn two_page_league_yields_alice() {
    let pages = vec![
        page(1, 1, vec![player("Alice", &[(2, 0)])]),
        page(1, 2, vec![player("Alice", &[(1, 3)])]),
    ];
    let matrix = assemble_matrix(&pages, 1, 2, 2).unwrap();
    assert_eq!(matrix.len(), 1);
    assert_eq!(matrix[0].player_name(), "Alice");
    assert_eq!(matrix[0].ordered_head_to_heads(), &vec![(2, 0), (1, 3)]);
}

#[test]
fn length_mismatch_is_an_assembly_error() {
    let pages = vec![
        page(1, 1, vec![player("Alice", &[(2, 0), (1, 1)])]),
        page(1, 2, vec![player("Alice", &[(1, 3)])]),
    ];
    assert_eq!(
        assemble_matrix(&pages, 1, 2, 4),
        Err(MatrixAssemblyError { player_name: "Alice".to_string(), expected: 4, actual: 3 })
    );
    assert_eq!(assemble_matrix(&pages, 1, 2, 3), Ok(vec![player("Alice", &[(2, 0), (1, 1), (1, 3)])]));
}

#[test]
fn first_mismatching_player_is_reported() {
    let pages = vec![page(
        1,
        1,
        vec![player("Alice", &[(1, 0), (0, 1)]), player("Bob", &[(1, 0)]), player("Carol", &[(1, 0), (1, 0), (1, 0)])],
    )];
    assert_eq!(
        assemble_matrix(&pages, 1, 1, 2),
        Err(MatrixAssemblyError { player_name: "Bob".to_string(), expected: 2, actual: 1 })
    );
}

#[test]
fn dropped_column_page_is_surfaced() {
    let pages = vec![
        page(1, 1, vec![player("Alice", &[(2, 0)])]),
        page(1, 3, vec![player("Alice", &[(1, 3)])]),
    ];
    assert_eq!(merge_pages(&pages, 1, 3), vec![player("Alice", &[(2, 0), (1, 3)])]);
    assert_eq!(
        assemble_matrix(&pages, 1, 3, 3),
        Err(MatrixAssemblyError { player_name: "Alice".to_string(), expected: 3, actual: 2 })
    );
}

#[test]
fn players_are_matched_by_row_and_named_by_the_first_column_page() {
    let pages = vec![
        page(1, 1, vec![player("Alice", &[(1, 0)]), player("Bob", &[(0, 1)])]),
        page(1, 2, vec![player("ALICE ", &[(2, 0)]), player("bob", &[(0, 2)]), player("Extra", &[(9, 9)])]),
        page(1, 3, vec![player("Alice", &[(3, 0)])]),
    ];
    assert_eq!(
        merge_pages(&pages, 1, 3),
        vec![player("Alice", &[(1, 0), (2, 0), (3, 0)]), player("Bob", &[(0, 1), (0, 2)])]
    );
}

#[test]
fn row_pages_follow_one_another() {
    let pages = vec![
        page(2, 1, vec![player("Carol", &[(3, 0)]), player("Dave", &[(4, 0)])]),
        page(1, 1, vec![player("Alice", &[(1, 0)]), player("Bob", &[(2, 0)])]),
    ];
    assert_eq!(
        assemble_matrix(&pages, 2, 1, 1),
        Ok(vec![player("Alice", &[(1, 0)]), player("Bob", &[(2, 0)]), player("Carol", &[(3, 0)]), player("Dave", &[(4, 0)])])
    );
}

#[test]
fn pages_outside_the_grid_are_left_out() {
    let pages = vec![
        page(1, 1, vec![player("Alice", &[(1, 0)])]),
        page(1, 2, vec![player("Alice", &[(2, 0)])]),
        page(2, 1, vec![player("Bob", &[(3, 0)])]),
        page(0, 0, vec![player("Nobody", &[(7, 7)])]),
    ];
    assert_eq!(assemble_matrix(&pages, 1, 1, 1), Ok(vec![player("Alice", &[(1, 0)])]));
    assert_eq!(assemble_matrix(&pages, 0, 5, 0), Ok(vec![]));
    assert_eq!(assemble_matrix(&pages, 5, 0, 0), Ok(vec![]));
    assert_eq!(assemble_matrix(&Vec::new(), 3, 3, 7), Ok(vec![]));
}

#[test]
fn first_page_of_a_tag_is_the_one_that_counts() {
    let pages = vec![
        page(1, 1, vec![player("Alice", &[(1, 0)])]),
        page(1, 1, vec![player("Other", &[(9, 9)])]),
    ];
    assert_eq!(assemble_matrix(&pages, 1, 1, 1), Ok(vec![player("Alice", &[(1, 0)])]));
}
