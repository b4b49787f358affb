use graphql_waf::upstream::{
    big_list, bounded_fib, build_node, fib, get_query, nested_node, request_meta, sleep_ms, Node,
};

#[test]
fn fib_matches_known_values() {
    assert_eq!(fib(0), 0);
    assert_eq!(fib(1), 1);
    assert_eq!(fib(10), 55);
    assert_eq!(fib(45), 1_134_903_170);
}

#[test]
fn build_node_chain_length_clamps_to_requested_max() {
    // The chain has exactly `max + 1` nodes (ids 0..=max), which is what the bound of 200 on the
    // requested depth relies on to bound the response size.
    let root = build_node(0, 200);
    let mut count = 1;
    let mut cur = &root;
    while let Some(child) = &cur.child {
        count += 1;
        cur = child;
    }
    assert_eq!(count, 201);
}

#[test]
fn big_list_clamps_size_to_50_000() {
    let list = big_list(1000000);
    assert_eq!(list.len(), 50_000);
}

#[test]
fn big_list_respects_smaller_requested_size() {
    let list = big_list(5);
    assert_eq!(list.len(), 5);
}

#[test]
fn nested_node_does_not_truncate_below_a_modest_depth() {
    let levels = 20;
    let root = nested_node(100_000);
    let mut node = &root;
    for expected_depth in 0..=levels {
        assert_eq!(node.id, expected_depth);
        if expected_depth < levels {
            node = node.child.as_ref().unwrap();
        }
    }
}

fn chain_len(node: &Node) -> usize {
    let mut n = 1;
    let mut cur = node;
    while let Some(child) = &cur.child {
        n += 1;
        cur = child;
    }
    n
}

#[test]
fn nodes_carry_their_number() {
    let root = build_node(9, 11);
    assert_eq!((root.id, root.name.as_str(), root.depth), (9, "node-9", 9));
    let second = root.child.as_ref().unwrap();
    assert_eq!(second.name, "node-10");
    let third = second.child.as_ref().unwrap();
    assert_eq!(third.name, "node-11");
    assert!(third.child.is_none());
}

#[test]
fn a_chain_that_starts_past_its_end_is_one_node() {
    let node = build_node(5, 3);
    assert_eq!(node.name, "node-5");
    assert!(node.child.is_none());
}

#[test]
fn negative_numbers_are_written_with_a_sign() {
    assert_eq!(build_node(-120, -120).name, "node--120");
    assert_eq!(
        build_node(i32::MIN, i32::MIN).name,
        format!("node-{}", i32::MIN)
    );
    assert_eq!(
        build_node(i32::MAX, i32::MAX).name,
        format!("node-{}", i32::MAX)
    );
}

#[test]
fn nested_nodes_stay_within_the_bound() {
    assert_eq!(chain_len(&nested_node(100_000)), 201);
    assert_eq!(chain_len(&nested_node(3)), 4);
    assert_eq!(chain_len(&nested_node(-7)), 1);
}

#[test]
fn list_items_are_numbered() {
    let list = big_list(12);
    assert_eq!(list[11].id, 11);
    assert_eq!(list[11].name, "item-11");
    assert_eq!(list[11].depth, 0);
    assert!(list[11].child.is_none());
    assert_eq!(big_list(-1).len(), 0);
}

#[test]
fn fibonacci_numbers_add_up() {
    for n in 0..91 {
        assert_eq!(fib(n + 2), fib(n + 1) + fib(n));
    }
    assert_eq!(fib(92), 7_540_113_804_746_346_429);
    assert_eq!(bounded_fib(-1), 0);
    assert_eq!(bounded_fib(1000), 1_134_903_170);
}

#[test]
fn sleeps_stay_within_the_bound() {
    assert_eq!(sleep_ms(-1), 0);
    assert_eq!(sleep_ms(250), 250);
    assert_eq!(sleep_ms(60_000), 10_000);
}

#[test]
fn echoes_headers_with_visible_values() {
    let headers = vec![
        ("host".to_string(), b"a b\tc".to_vec()),
        ("x-raw".to_string(), vec![0xff]),
        ("accept".to_string(), b"*/*".to_vec()),
    ];
    assert_eq!(
        request_meta(&headers),
        vec![
            ("host".to_string(), "a b\tc".to_string()),
            ("accept".to_string(), "*/*".to_string()),
        ]
    );
}

#[test]
fn echoes_the_first_hundred_headers() {
    let mut headers = vec![("x-raw".to_string(), vec![7u8])];
    for i in 0..150 {
        headers.push((format!("x-{i}"), b"1".to_vec()));
    }
    let echoed = request_meta(&headers);
    assert_eq!(echoed.len(), 100);
    assert_eq!(echoed[0].0, "x-0");
    assert_eq!(echoed[99].0, "x-99");
}

#[test]
fn a_blank_query_is_no_query() {
    assert_eq!(get_query(None), None);
    assert_eq!(get_query(Some(" \t\u{3000}".to_string())), None);
    assert_eq!(get_query(Some(" {ping}".to_string())), Some(" {ping}".to_string()));
}
