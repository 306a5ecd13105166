use rp::matcher::{contains_attr, pool_matches, solve_resource_matches};
use rp::inventory::{Pool, Resource, ResourceRequest};
use rp::text::{
    chars_of, clone_opt_string, clone_string_lists, clone_strings, decimal_of, join, parse_u64,
    split_on,
};
use std::collections::HashMap;

fn strings(items: &[&str]) -> Vec<String> {
    items.iter().map(|s| s.to_string()).collect()
}

fn pool_with(resources: &[&[&str]]) -> Pool {
    Pool {
        name: "p".into(),
        attributes: strings(&["attr1", "attr2"]),
        location: "here".into(),
        resources: resources
            .iter()
            .map(|attributes| Resource {
                attributes: strings(attributes),
                properties: HashMap::new(),
            })
            .collect(),
        user: None,
    }
}

fn chosen(pairing: &Option<Vec<(Vec<String>, Resource)>>) -> Option<Vec<Vec<String>>> {
    pairing
        .as_ref()
        .map(|pairs| pairs.iter().map(|pair| pair.1.attributes.clone()).collect())
}

#[test]
fn subset_is_case_sensitive_and_ignores_order_and_repetition() {
    assert!(rp::matcher::matches(&strings(&[]), &strings(&[])));
    assert!(rp::matcher::matches(&strings(&[]), &strings(&["a"])));
    assert!(!rp::matcher::matches(&strings(&["a"]), &strings(&[])));
    assert!(rp::matcher::matches(&strings(&["a"]), &strings(&["b", "a"])));
    assert!(rp::matcher::matches(&strings(&["b", "a"]), &strings(&["a", "b", "c"])));
    assert!(rp::matcher::matches(&strings(&["a", "a", "a"]), &strings(&["a"])));
    assert!(rp::matcher::matches(&strings(&["a"]), &strings(&["a", "a"])));
    assert!(!rp::matcher::matches(&strings(&["a", "d"]), &strings(&["a", "b", "c"])));
    assert!(!rp::matcher::matches(&strings(&["A"]), &strings(&["a"])));
    assert!(!rp::matcher::matches(&strings(&["attr"]), &strings(&["attr1"])));
    assert!(rp::matcher::matches(&strings(&[""]), &strings(&["x", ""])));
}

#[test]
fn contains_finds_exact_strings_only() {
    assert!(contains_attr(&strings(&["x", "y"]), &"y".to_string()));
    assert!(!contains_attr(&strings(&["x", "y"]), &"Y".to_string()));
    assert!(!contains_attr(&strings(&[]), &"y".to_string()));
}

#[test]
fn pool_filters_are_a_conjunction() {
    let pool = pool_with(&[]);
    let all = ResourceRequest {
        by_name: Some("p".into()),
        location: Some("here".into()),
        pool_attributes: Some(strings(&["attr2"])),
        ..Default::default()
    };
    assert!(pool_matches(&pool, &all));
    assert!(pool_matches(&pool, &ResourceRequest::default()));
    assert!(!pool_matches(&pool, &ResourceRequest { by_name: Some("q".into()), ..all.clone() }));
    assert!(!pool_matches(&pool, &ResourceRequest { location: Some("there".into()), ..all.clone() }));
    assert!(!pool_matches(
        &pool,
        &ResourceRequest { pool_attributes: Some(strings(&["attr3"])), ..all.clone() }
    ));
    // resource attributes and timeout are no pool filters
    assert!(pool_matches(
        &pool,
        &ResourceRequest {
            resource_attributes: Some(vec![strings(&["nothing"])]),
            timeout: Some(1),
            ..all.clone()
        }
    ));
}

#[test]
fn pairing_is_first_fit_in_request_order() {
    let pool = pool_with(&[&["RA1", "RA2"], &["RB1", "RB2"], &["RA1", "RB1"]]);
    let pairing = solve_resource_matches(&pool, &vec![strings(&["RA1"])]);
    assert_eq!(chosen(&pairing), Some(vec![strings(&["RA1", "RA2"])]));
    let pairing = solve_resource_matches(&pool, &vec![strings(&["RB1"]), strings(&["RA1"])]);
    assert_eq!(
        chosen(&pairing),
        Some(vec![strings(&["RB1", "RB2"]), strings(&["RA1", "RA2"])])
    );
    let pairs = pairing.unwrap();
    assert_eq!(pairs[0].0, strings(&["RB1"]));
    assert_eq!(pairs[1].0, strings(&["RA1"]));
}

#[test]
fn pairing_gives_no_resource_twice() {
    let pool = pool_with(&[&["RA1", "RA2"], &["RB1", "RB2"], &["RA1", "RB1"]]);
    let pairing = solve_resource_matches(&pool, &vec![strings(&["RA1"]), strings(&["RA1"])]);
    assert_eq!(
        chosen(&pairing),
        Some(vec![strings(&["RA1", "RA2"]), strings(&["RA1", "RB1"])])
    );
    let three = vec![strings(&["RA1"]), strings(&["RA1"]), strings(&["RA1"])];
    assert!(solve_resource_matches(&pool, &three).is_none());
    let single = pool_with(&[&["RA1"]]);
    assert!(solve_resource_matches(&single, &vec![strings(&["RA1"]), strings(&["RA1"])]).is_none());
}

#[test]
fn pairing_fails_when_a_set_finds_nothing() {
    let pool = pool_with(&[&["RA1", "RA2"], &["RB1", "RB2"]]);
    assert!(solve_resource_matches(&pool, &vec![strings(&["RA3"])]).is_none());
    assert!(solve_resource_matches(&pool, &vec![strings(&["RA1"]), strings(&["RA3"])]).is_none());
    assert!(solve_resource_matches(&pool, &vec![strings(&["RA1", "RB1"])]).is_none());
    assert!(solve_resource_matches(&pool_with(&[]), &vec![strings(&[])]).is_none());
}

#[test]
fn pairing_is_greedy_not_optimal() {
    // the first set takes the only resource that the second could use
    let pool = pool_with(&[&["x", "y"], &["x"]]);
    assert!(solve_resource_matches(&pool, &vec![strings(&["x"]), strings(&["y"])]).is_none());
    let other_order = solve_resource_matches(&pool, &vec![strings(&["y"]), strings(&["x"])]);
    assert_eq!(chosen(&other_order), Some(vec![strings(&["x", "y"]), strings(&["x"])]));
}

#[test]
fn pairing_of_nothing_is_empty() {
    let pool = pool_with(&[&["RA1"]]);
    assert_eq!(chosen(&solve_resource_matches(&pool, &vec![])), Some(vec![]));
    let any = solve_resource_matches(&pool, &vec![strings(&[])]);
    assert_eq!(chosen(&any), Some(vec![strings(&["RA1"])]));
}

#[test]
fn split_cuts_at_every_separator() {
    assert_eq!(split_on("a,b", ','), strings(&["a", "b"]));
    assert_eq!(split_on("attr1", ','), strings(&["attr1"]));
    assert_eq!(split_on("", ','), strings(&[""]));
    assert_eq!(split_on(",", ','), strings(&["", ""]));
    assert_eq!(split_on("a,", ','), strings(&["a", ""]));
    assert_eq!(split_on(",a", ','), strings(&["", "a"]));
    assert_eq!(split_on("a,,b", ','), strings(&["a", "", "b"]));
    assert_eq!(split_on("RA1,RA2,RA3", ','), strings(&["RA1", "RA2", "RA3"]));
    assert_eq!(split_on("é,ü", ','), strings(&["é", "ü"]));
    assert_eq!(split_on("a;b,c", ';'), strings(&["a", "b,c"]));
    for text in ["", "a", "a,b", ",,", "x,,y,", "日本,語"] {
        let expected: Vec<String> = text.split(',').map(String::from).collect();
        assert_eq!(split_on(text, ','), expected);
    }
}

#[test]
fn join_puts_the_separator_between_neighbours() {
    assert_eq!(join(&strings(&[]), "&"), "");
    assert_eq!(join(&strings(&["a"]), "&"), "a");
    assert_eq!(join(&strings(&["a", "b"]), "&"), "a&b");
    assert_eq!(join(&strings(&["a", "", "b"]), ", "), "a, , b");
    assert_eq!(join(&strings(&["", ""]), "&"), "&");
}

#[test]
fn joining_the_pieces_gives_the_string_back() {
    for text in ["", "a", "a,b", ",,", "x,,y,", ",lead", "日本,語"] {
        let pieces = split_on(text, ',');
        assert!(!pieces.is_empty());
        assert!(pieces.iter().all(|piece| !piece.contains(',')));
        assert_eq!(join(&pieces, ","), text);
    }
}

#[test]
fn decimal_numbers_are_read_exactly() {
    assert_eq!(parse_u64("0"), Some(0));
    assert_eq!(parse_u64("7"), Some(7));
    assert_eq!(parse_u64("007"), Some(7));
    assert_eq!(parse_u64("+5"), Some(5));
    assert_eq!(parse_u64("1234"), Some(1234));
    assert_eq!(parse_u64("18446744073709551615"), Some(u64::MAX));
    assert_eq!(parse_u64("18446744073709551616"), None);
    assert_eq!(parse_u64("99999999999999999999999"), None);
    assert_eq!(parse_u64("18446744073709551615x"), None);
    assert_eq!(parse_u64("184467440737095516150"), None);
    assert_eq!(parse_u64(""), None);
    assert_eq!(parse_u64("+"), None);
    assert_eq!(parse_u64("++1"), None);
    assert_eq!(parse_u64("-1"), None);
    assert_eq!(parse_u64("-0"), None);
    assert_eq!(parse_u64(" 1"), None);
    assert_eq!(parse_u64("1 "), None);
    assert_eq!(parse_u64("1_000"), None);
    assert_eq!(parse_u64("12a"), None);
    assert_eq!(parse_u64("1.5"), None);
    assert_eq!(parse_u64("٣"), None);
    for text in ["0", "+0", "42", "00000000000000000000001", "+", "", "9x", "18446744073709551616"] {
        assert_eq!(parse_u64(text), text.parse::<u64>().ok());
    }
}

#[test]
fn characters_and_copies() {
    assert_eq!(chars_of("añ日"), vec!['a', 'ñ', '日']);
    assert_eq!(chars_of(""), Vec::<char>::new());
    assert_eq!(clone_strings(&strings(&["a", "b"])), strings(&["a", "b"]));
    assert_eq!(clone_opt_string(&Some("x".to_string())), Some("x".to_string()));
    assert_eq!(clone_opt_string(&None), None);
    let lists = vec![strings(&["a"]), strings(&[]), strings(&["b", "c"])];
    assert_eq!(clone_string_lists(&lists), lists);
}

#[test]
fn numbers_are_written_in_decimal_and_read_back() {
    assert_eq!(decimal_of(0), "0");
    assert_eq!(decimal_of(7), "7");
    assert_eq!(decimal_of(10), "10");
    assert_eq!(decimal_of(1234), "1234");
    assert_eq!(decimal_of(9_007_000_100), "9007000100");
    assert_eq!(decimal_of(u64::MAX as u128), "18446744073709551615");
    assert_eq!(decimal_of(u128::MAX), "340282366920938463463374607431768211455");
    for n in [0u64, 1, 9, 10, 99, 100, 1234, 1_000_000_007, u64::MAX] {
        assert_eq!(decimal_of(n as u128), n.to_string());
        assert_eq!(parse_u64(&decimal_of(n as u128)), Some(n));
    }
}

#[test]
fn splitting_the_joined_pieces_gives_them_back() {
    for pieces in [vec!["a"], vec!["a", "b"], vec!["", ""], vec!["x", "", "y"], vec![""]] {
        let pieces = strings(&pieces);
        assert_eq!(split_on(&join(&pieces, ","), ','), pieces);
    }
}
