use search_utils::a_star::{
    a_star_search, a_star_search_all_with_max_score, a_star_search_for_target,
    CurrentNodeDetails, CustomNode, Error, Node, Options, Successor,
};

#[derive(Clone, Hash, Eq, PartialEq, Ord, PartialOrd, Debug)]
struct TestNode(i32);

impl Node for TestNode {
    fn key_spec(&self) -> u64 {
        self.0 as u32 as u64
    }

    fn get_key(&self) -> u64 {
        self.0 as u32 as u64
    }

    fn clone_node(&self) -> Self {
        self.clone()
    }
}

fn distance_function(node_details: CurrentNodeDetails<TestNode, i32>, target_node: &TestNode) -> i32 {
    let CurrentNodeDetails {
        current_node: left,
        cost_to_move_to_current: _to_current,
    } = node_details;
    (left.0 - target_node.0).abs()
}

fn get_successors(node: &TestNode) -> Vec<Successor<TestNode, i32>> {
    vec![
        Successor::new(TestNode(node.0 - 1), 1),
        Successor::new(TestNode(node.0 + 1), 1),
    ]
}

#[test]
fn a_star_should_find_seven() {
    let start = TestNode(1);
    let target = TestNode(7);

    let solution = a_star_search(
        start,
        get_successors,
        |current| distance_function(current, &target),
        |current| current == &target,
        None,
    )
    .unwrap();

    assert_eq!(
        solution.shortest_path,
        vec![
            TestNode(1),
            TestNode(2),
            TestNode(3),
            TestNode(4),
            TestNode(5),
            TestNode(6),
            TestNode(7),
        ]
    );
}

#[test]
fn a_star_should_find_eight() {
    let start = TestNode(1);
    let target = TestNode(7);

    let options = Options::default();
    let options = Some(&options);

    let solution = a_star_search(
        start,
        get_successors,
        |current| distance_function(current, &target),
        |current: &TestNode| current.0 == 8,
        options,
    )
    .unwrap();

    assert_eq!(
        solution.shortest_path,
        vec![
            TestNode(1),
            TestNode(2),
            TestNode(3),
            TestNode(4),
            TestNode(5),
            TestNode(6),
            TestNode(7),
            TestNode(8),
        ]
    );
}

#[test]
fn mod_should_find_seven() {
    let start = TestNode(1);
    let target = TestNode(7);

    let solution = a_star_search(
        start,
        get_successors,
        |current| distance_function(current, &target),
        |current| current == &target,
        None,
    )
    .unwrap();

    assert_eq!(
        solution.shortest_path,
        vec![
            TestNode(1),
            TestNode(2),
            TestNode(3),
            TestNode(4),
            TestNode(5),
            TestNode(6),
            TestNode(7),
        ]
    );
    assert_eq!(solution.shortest_path_cost, 6);
}

#[test]
fn mod_should_find_eight() {
    let start = TestNode(1);
    let target = TestNode(7);

    let options = Options::default();
    let options = Some(&options);

    let solution = a_star_search(
        start,
        get_successors,
        |current| distance_function(current, &target),
        |current: &TestNode| current.0 == 8,
        options,
    )
    .unwrap();

    assert_eq!(
        solution.shortest_path,
        vec![
            TestNode(1),
            TestNode(2),
            TestNode(3),
            TestNode(4),
            TestNode(5),
            TestNode(6),
            TestNode(7),
            TestNode(8),
        ]
    );
    assert_eq!(solution.shortest_path_cost, 7);
}

#[test]
fn should_find_both_paths() {
    let start = TestNode(0);
    let target = TestNode(25);

    let solution = a_star_search_all_with_max_score(
        5,
        start,
        |node: &TestNode| {
            vec![
                Successor::new(TestNode(node.0 - 1), 1),
                Successor::new(TestNode(node.0 + 1), 1),
            ]
        },
        |node: CurrentNodeDetails<TestNode, i32>| (node.current_node.0.pow(2) - target.0).abs(),
        |current: &TestNode| current.0.pow(2) == target.0,
        None,
    )
    .unwrap();

    assert_eq!(solution.len(), 2);

    assert!(solution.iter().any(|solution| {
        solution.shortest_path
            == vec![
                TestNode(0),
                TestNode(1),
                TestNode(2),
                TestNode(3),
                TestNode(4),
                TestNode(5),
            ]
    }));
    assert!(solution.iter().any(|solution| {
        solution.shortest_path
            == vec![
                TestNode(0),
                TestNode(-1),
                TestNode(-2),
                TestNode(-3),
                TestNode(-4),
                TestNode(-5),
            ]
    }));
    assert_eq!(solution[0].shortest_path_cost, 5);
    assert_eq!(solution[1].shortest_path_cost, 5);
}

#[derive(Clone, Debug, PartialEq, Eq)]
struct TestNode2(i32);

impl CustomNode for TestNode2 {
    fn id_spec(&self) -> u64 {
        ((i32::MAX / 2) + self.0) as u64
    }

    fn pos_spec(&self) -> u64 {
        self.0.unsigned_abs() as u64
    }

    fn same_key_spec() -> bool {
        false
    }

    fn keys_consistent(&self) {}

    fn get_node_id(&self) -> u64 {
        ((i32::MAX / 2) + self.0) as u64
    }

    fn get_position_hash(&self) -> u64 {
        self.0.unsigned_abs() as u64
    }

    fn node_id_and_position_hash_same() -> bool {
        false
    }

    fn clone_node(&self) -> Self {
        self.clone()
    }
}

#[test]
fn should_find_both_paths_different_position_hash() {
    let start = TestNode2(0);
    let target = TestNode2(25);

    let solution = a_star_search_all_with_max_score(
        5,
        start,
        |node: &TestNode2| {
            vec![
                Successor::new(TestNode2(node.0 - 1), 1),
                Successor::new(TestNode2(node.0 + 1), 1),
            ]
        },
        |node: CurrentNodeDetails<TestNode2, i32>| (node.current_node.0.pow(2) - target.0).abs(),
        |current: &TestNode2| current.0.pow(2) == target.0,
        None,
    )
    .unwrap();

    assert_eq!(solution.len(), 2);

    assert!(solution.iter().any(|solution| {
        solution.shortest_path
            == vec![
                TestNode2(0),
                TestNode2(1),
                TestNode2(2),
                TestNode2(3),
                TestNode2(4),
                TestNode2(5),
            ]
    }));
    assert!(solution.iter().any(|solution| {
        solution.shortest_path
            == vec![
                TestNode2(0),
                TestNode2(-1),
                TestNode2(-2),
                TestNode2(-3),
                TestNode2(-4),
                TestNode2(-5),
            ]
    }));
    assert_eq!(solution[0].shortest_path_cost, 5);
    assert_eq!(solution[1].shortest_path_cost, 5);
}

#[test]
fn duplicate_discoveries_leave_the_result_unchanged() {
    // A diamond: 0 reaches 3 through 1 and through 2 at equal cost, so the
    // record for 3 is offered to the registry a second time with an
    // equal-cost route; the re-insertion is a no-op and the result is the
    // deterministic first route.
    let start = TestNode(0);

    let solution = a_star_search(
        start,
        |node: &TestNode| match node.0 {
            0 => vec![
                Successor::new(TestNode(1), 1),
                Successor::new(TestNode(2), 1),
            ],
            1 | 2 => vec![Successor::new(TestNode(3), 1)],
            _ => vec![],
        },
        |_node: CurrentNodeDetails<TestNode, i32>| 0,
        |current: &TestNode| current.0 == 3,
        None,
    )
    .unwrap();

    assert_eq!(
        solution.shortest_path,
        vec![TestNode(0), TestNode(1), TestNode(3)]
    );
    assert_eq!(solution.shortest_path_cost, 2);
}

#[test]
fn exhausted_finite_graph_returns_no_solution() {
    let start = TestNode(0);
    let target = TestNode(10);

    let result = a_star_search(
        start,
        |node: &TestNode| {
            if node.0.abs() < 3 {
                vec![
                    Successor::new(TestNode(node.0 - 1), 1),
                    Successor::new(TestNode(node.0 + 1), 1),
                ]
            } else {
                vec![]
            }
        },
        |current| distance_function(current, &target),
        |current: &TestNode| current == &target,
        None,
    );

    assert!(matches!(result, Err(Error::NoSolutionFound)));
}

#[test]
fn exhausted_budget_without_goal_returns_no_solution() {
    let start = TestNode(0);

    let result = a_star_search_all_with_max_score(
        3,
        start,
        get_successors,
        |_node: CurrentNodeDetails<TestNode, i32>| 0,
        |current: &TestNode| current.0 == 100,
        None,
    );

    assert!(matches!(result, Err(Error::NoSolutionFound)));
}

#[test]
fn iteration_limit_bounds_an_infinite_search() {
    let start = TestNode(0);

    let options = Options::default().with_no_logs().with_iteration_limit(50);
    let result = a_star_search(
        start,
        get_successors,
        |_node: CurrentNodeDetails<TestNode, i32>| 0,
        |_current: &TestNode| false,
        Some(&options),
    );

    assert!(matches!(result, Err(Error::IterLimitExceeded)));
}

#[test]
fn target_search_terminates_on_the_target() {
    let start = TestNode(1);
    let target = TestNode(7);

    let solution = a_star_search_for_target(
        start,
        &target,
        get_successors,
        |current| distance_function(current, &target),
        None,
    )
    .unwrap();

    assert_eq!(
        solution.shortest_path,
        vec![
            TestNode(1),
            TestNode(2),
            TestNode(3),
            TestNode(4),
            TestNode(5),
            TestNode(6),
            TestNode(7),
        ]
    );
    assert_eq!(solution.shortest_path_cost, 6);
}

#[test]
fn budgeted_search_respects_the_iteration_limit() {
    let start = TestNode(0);

    let options = Options::default().with_no_logs().with_iteration_limit(10);
    let result = a_star_search_all_with_max_score(
        1000,
        start,
        get_successors,
        |_node: CurrentNodeDetails<TestNode, i32>| 0,
        |_current: &TestNode| false,
        Some(&options),
    );

    assert!(matches!(result, Err(Error::IterLimitExceeded)));
}

#[test]
fn parallel_expansion_matches_sequential_cost() {
    let target = TestNode(7);

    let sequential = a_star_search(
        TestNode(1),
        get_successors,
        |current| distance_function(current, &target),
        |current| current == &target,
        None,
    )
    .unwrap();

    let options = Options::default().with_no_logs().with_expansion_workers(4);
    let parallel = a_star_search(
        TestNode(1),
        get_successors,
        |current| distance_function(current, &target),
        |current| current == &target,
        Some(&options),
    )
    .unwrap();

    assert_eq!(sequential.shortest_path_cost, parallel.shortest_path_cost);
    assert_eq!(parallel.shortest_path_cost, 6);
    assert_eq!(parallel.shortest_path.first(), Some(&TestNode(1)));
    assert_eq!(parallel.shortest_path.last(), Some(&TestNode(7)));
}

#[test]
fn options_builders_set_their_fields() {
    let options = Options::default()
        .with_log_interval(std::time::Duration::from_secs(2))
        .with_no_logs()
        .with_iteration_limit(9)
        .with_expansion_workers(3);
    assert!(options.suppress_logs);
    assert_eq!(options.iteration_limit, Some(9));
    assert_eq!(options.expansion_workers, 3);
    assert_eq!(options.log_interval, std::time::Duration::from_secs(2));
}
