use permute_compile::callgraph::build_call_graph;
use permute_compile::loops::{
    first_forbidden_loop, first_forbidden_sharded, merge_first, no_forbidden_loops,
    verify_no_forbidden_loops, ForbiddenLoop,
};
use permute_compile::model::{
    Body, ExprKind, ExprNode, Item, ItemKind, MatchSource, ProgramModel, Visibility,
};
use permute_compile::recursion::{no_recursion, reachable, Recursion};

fn node(kind: ExprKind, children: &[usize]) -> ExprNode {
    ExprNode { kind, children: children.to_vec() }
}

fn path(segments: &[&str]) -> Vec<String> {
    segments.iter().map(|s| s.to_string()).collect()
}

fn function(name: &str, nodes: Vec<ExprNode>, terminating: bool) -> Item {
    let root = nodes.len() - 1;
    Item {
        path: path(&["unit", name]),
        kind: ItemKind::Function { body: Body { nodes, root }, terminating },
    }
}

/// A function whose body is a block of calls to `targets`.
fn caller(name: &str, targets: &[usize], terminating: bool) -> Item {
    let mut nodes: Vec<ExprNode> = targets
        .iter()
        .map(|t| node(ExprKind::Call { target: Some(*t) }, &[]))
        .collect();
    let children: Vec<usize> = (0..nodes.len()).collect();
    nodes.push(node(ExprKind::Block, &children));
    function(name, nodes, terminating)
}

fn model(items: Vec<Item>) -> ProgramModel {
    ProgramModel { items, trusted_traits: vec![] }
}

fn bare_loop(name: &str, terminating: bool) -> Item {
    function(
        name,
        vec![
            node(ExprKind::Lit, &[]),
            node(ExprKind::Block, &[0]),
            node(ExprKind::Loop, &[1]),
            node(ExprKind::Block, &[2]),
        ],
        terminating,
    )
}

fn loop_free_fn(name: &str) -> Item {
    function(
        name,
        vec![
            node(ExprKind::Lit, &[]),
            node(ExprKind::Lit, &[]),
            node(ExprKind::Binary, &[0, 1]),
            node(ExprKind::Block, &[2]),
        ],
        false,
    )
}

#[test]
fn bare_loop_is_rejected() {
    let m = model(vec![loop_free_fn("ok"), bare_loop("spin", false)]);
    assert!(m.is_well_formed());
    assert!(!no_forbidden_loops(&m));
    assert_eq!(verify_no_forbidden_loops(&m), Err(ForbiddenLoop { item: 1 }));
}

#[test]
fn for_loop_desugar_is_rejected_like_a_loop() {
    let desugared = function(
        "iterate",
        vec![
            node(ExprKind::Path, &[]),
            node(ExprKind::Lit, &[]),
            node(ExprKind::Match { source: MatchSource::ForLoopDesugar }, &[0, 1]),
            node(ExprKind::Block, &[2]),
        ],
        false,
    );
    let m = model(vec![desugared]);
    assert!(!no_forbidden_loops(&m));
    assert_eq!(verify_no_forbidden_loops(&m), Err(ForbiddenLoop { item: 0 }));
}

#[test]
fn plain_match_is_accepted() {
    let plain = function(
        "choose",
        vec![
            node(ExprKind::Path, &[]),
            node(ExprKind::Lit, &[]),
            node(ExprKind::Lit, &[]),
            node(ExprKind::Match { source: MatchSource::Normal }, &[0, 1, 2]),
        ],
        false,
    );
    let m = model(vec![plain]);
    assert!(no_forbidden_loops(&m));
    assert_eq!(verify_no_forbidden_loops(&m), Ok(()));
}

#[test]
fn loop_nested_in_arm_is_rejected() {
    let nested = function(
        "nested",
        vec![
            node(ExprKind::Path, &[]),
            node(ExprKind::Block, &[]),
            node(ExprKind::Loop, &[1]),
            node(ExprKind::If, &[0, 2]),
            node(ExprKind::Match { source: MatchSource::Normal }, &[0, 3]),
        ],
        false,
    );
    assert!(!no_forbidden_loops(&model(vec![nested])));
}

#[test]
fn terminating_function_may_loop() {
    let m = model(vec![bare_loop("const_spin", true), loop_free_fn("ok")]);
    assert!(no_forbidden_loops(&m));
    assert_eq!(verify_no_forbidden_loops(&m), Ok(()));
}

#[test]
fn terminating_function_may_recurse() {
    let m = model(vec![caller("fact", &[0], true), caller("user", &[0], false)]);
    assert_eq!(no_recursion(&m).map_err(|v| v.len()), Ok(()));
}

#[test]
fn const_block_and_terminating_closure_are_exempt() {
    let body = function(
        "exempt",
        vec![
            node(ExprKind::Block, &[]),
            node(ExprKind::Loop, &[0]),
            node(ExprKind::ConstBlock, &[1]),
            node(ExprKind::Closure { terminating: true }, &[1]),
            node(ExprKind::Cast, &[1]),
            node(ExprKind::Tup, &[2, 3, 4]),
        ],
        false,
    );
    assert!(no_forbidden_loops(&model(vec![body])));
}

#[test]
fn closure_not_known_to_terminate_is_checked() {
    let body = function(
        "closure",
        vec![
            node(ExprKind::Block, &[]),
            node(ExprKind::Loop, &[0]),
            node(ExprKind::Closure { terminating: false }, &[1]),
            node(ExprKind::Block, &[2]),
        ],
        false,
    );
    assert!(!no_forbidden_loops(&model(vec![body])));
}

#[test]
fn control_flow_carries_its_value() {
    let body = function(
        "ret",
        vec![
            node(ExprKind::Block, &[]),
            node(ExprKind::Loop, &[0]),
            node(ExprKind::Ret, &[1]),
        ],
        false,
    );
    assert!(!no_forbidden_loops(&model(vec![body])));
    let yielded = function(
        "gen",
        vec![node(ExprKind::Lit, &[]), node(ExprKind::Yield, &[0]), node(ExprKind::Continue, &[])],
        false,
    );
    assert!(no_forbidden_loops(&model(vec![yielded])));
}

#[test]
fn first_violation_is_the_lowest_item() {
    let m = model(vec![
        loop_free_fn("a"),
        loop_free_fn("b"),
        bare_loop("c", false),
        loop_free_fn("d"),
        bare_loop("e", false),
    ]);
    assert_eq!(verify_no_forbidden_loops(&m), Err(ForbiddenLoop { item: 2 }));
    assert_eq!(first_forbidden_loop(&m, 3, 5), Some(4));
    assert_eq!(first_forbidden_loop(&m, 0, 2), None);
}

#[test]
fn sharded_check_matches_sequential() {
    let m = model(vec![
        loop_free_fn("a"),
        bare_loop("b", false),
        loop_free_fn("c"),
        bare_loop("d", false),
        loop_free_fn("e"),
        bare_loop("f", false),
    ]);
    let sequential = first_forbidden_loop(&m, 0, 6);
    assert_eq!(sequential, Some(1));
    for bounds in [vec![0, 6], vec![0, 2, 4, 6], vec![0, 1, 2, 3, 4, 5, 6], vec![0, 0, 3, 3, 6]] {
        assert_eq!(first_forbidden_sharded(&m, &bounds), sequential);
    }
}

#[test]
fn merge_keeps_lowest() {
    assert_eq!(merge_first(Some(4), Some(2)), Some(2));
    assert_eq!(merge_first(None, Some(3)), Some(3));
    assert_eq!(merge_first(Some(3), None), Some(3));
    assert_eq!(merge_first(None, None), None);
}

#[test]
fn three_cycle_reports_each_edge() {
    // 0 -> 1 -> 2 -> 0, and 3 -> 0 from outside the cycle.
    let m = model(vec![
        caller("a", &[1], false),
        caller("b", &[2], false),
        caller("c", &[0], false),
        caller("d", &[0], false),
    ]);
    let found = no_recursion(&m).unwrap_err();
    assert_eq!(
        found,
        vec![
            Recursion { callee: 1, caller: 0 },
            Recursion { callee: 2, caller: 1 },
            Recursion { callee: 0, caller: 2 },
        ]
    );
}

#[test]
fn acyclic_graph_on_same_nodes_reports_nothing() {
    let m = model(vec![
        caller("a", &[1], false),
        caller("b", &[2], false),
        caller("c", &[], false),
    ]);
    assert!(no_recursion(&m).is_ok());
}

#[test]
fn self_recursion_is_one_violation() {
    let m = model(vec![caller("d", &[0, 0], false)]);
    assert_eq!(no_recursion(&m).unwrap_err(), vec![Recursion { callee: 0, caller: 0 }]);
}

#[test]
fn independent_chains_report_nothing() {
    // X -> Y -> Z and P -> Q.
    let m = model(vec![
        caller("x", &[1], false),
        caller("y", &[2], false),
        caller("z", &[], false),
        caller("p", &[4], false),
        caller("q", &[], false),
    ]);
    assert!(no_recursion(&m).is_ok());
}

#[test]
fn calls_outside_the_unit_are_ignored() {
    let mut items = vec![
        function(
            "external",
            vec![
                node(ExprKind::Call { target: None }, &[]),
                node(ExprKind::MethodCall { target: Some(1) }, &[]),
                node(ExprKind::Call { target: Some(9) }, &[]),
                node(ExprKind::Block, &[0, 1, 2]),
            ],
            false,
        ),
    ];
    items.push(Item { path: path(&["unit", "S"]), kind: ItemKind::TypeDecl { visibility: Visibility::DirectlyPublic } });
    let m = model(items);
    let g = build_call_graph(&m);
    assert_eq!(g.succ, vec![Vec::<usize>::new(), vec![]]);
    assert!(no_recursion(&m).is_ok());
}

#[test]
fn call_graph_lists_distinct_callees_in_order() {
    let m = model(vec![
        caller("a", &[2, 1, 2, 0], false),
        caller("b", &[], false),
        caller("c", &[], true),
        caller("d", &[0], true),
    ]);
    let g = build_call_graph(&m);
    assert_eq!(g.succ, vec![vec![2, 1, 0], vec![], vec![], vec![]]);
    assert!(reachable(&m, &g, 0, 2));
    assert!(!reachable(&m, &g, 1, 0));
    assert!(reachable(&m, &g, 1, 1));
}

#[test]
fn analyses_are_idempotent() {
    let m = model(vec![
        caller("a", &[1], false),
        caller("b", &[0, 2], false),
        bare_loop("c", false),
        caller("d", &[3], false),
    ]);
    assert_eq!(no_recursion(&m), no_recursion(&m));
    assert_eq!(verify_no_forbidden_loops(&m), verify_no_forbidden_loops(&m));
    assert_eq!(verify_no_forbidden_loops(&m), Err(ForbiddenLoop { item: 2 }));
    assert_eq!(
        no_recursion(&m).unwrap_err(),
        vec![
            Recursion { callee: 1, caller: 0 },
            Recursion { callee: 0, caller: 1 },
            Recursion { callee: 3, caller: 3 },
        ]
    );
}

#[test]
fn ill_formed_body_is_detected() {
    let bad = function("bad", vec![node(ExprKind::Block, &[0])], false);
    assert!(!model(vec![bad]).is_well_formed());
    let no_root = Item {
        path: path(&["unit", "f"]),
        kind: ItemKind::Function { body: Body { nodes: vec![], root: 0 }, terminating: false },
    };
    assert!(!model(vec![no_root]).is_well_formed());
    assert!(model(vec![loop_free_fn("ok")]).is_well_formed());
}

#[test]
fn continue_carrying_a_loop_is_rejected() {
    let body = function(
        "carried",
        vec![
            node(ExprKind::Block, &[]),
            node(ExprKind::Loop, &[0]),
            node(ExprKind::Continue, &[1]),
            node(ExprKind::Block, &[2]),
        ],
        false,
    );
    let m = model(vec![body]);
    assert!(!no_forbidden_loops(&m));
    assert_eq!(verify_no_forbidden_loops(&m), Err(ForbiddenLoop { item: 0 }));
}

#[test]
fn nested_item_and_path_carrying_a_loop_are_rejected() {
    for kind in [ExprKind::ItemStmt, ExprKind::Path] {
        let body = function(
            "carried",
            vec![
                node(ExprKind::Block, &[]),
                node(ExprKind::Match { source: MatchSource::ForLoopDesugar }, &[0]),
                node(kind, &[1]),
                node(ExprKind::Block, &[2]),
            ],
            false,
        );
        assert!(!no_forbidden_loops(&model(vec![body])));
    }
}

#[test]
fn cycle_through_terminating_function_is_accepted() {
    // 0 -> 1 -> 0, where 1 is known to terminate.
    let m = model(vec![caller("a", &[1], false), caller("t", &[0], true)]);
    assert!(no_recursion(&m).is_ok());
}
