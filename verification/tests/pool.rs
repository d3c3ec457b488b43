use redis_cluster_async::pool::{draw_candidate, get_random_connection, select_endpoint, EndpointSet};

fn set(names: &[&str]) -> EndpointSet {
    let mut s = EndpointSet::new();
    for n in names {
        s.insert(n.to_string());
    }
    s
}

fn names(s: &EndpointSet) -> Vec<String> {
    (0..s.len()).map(|i| s.get(i).clone()).collect()
}

#[test]
fn insert_keeps_each_name_once() {
    let mut s = EndpointSet::new();
    assert!(s.is_empty());
    assert!(s.insert("a".to_string()));
    assert!(s.insert("b".to_string()));
    assert!(!s.insert("a".to_string()));
    assert_eq!(s.len(), 2);
    assert_eq!(names(&s), vec!["a", "b"]);
    assert!(s.contains(&"a".to_string()));
    assert!(!s.contains(&"c".to_string()));
    assert_eq!(s.position(&"b".to_string()), Some(1));
    assert_eq!(s.position(&"c".to_string()), None);
}

#[test]
fn remove_and_clear() {
    let mut s = set(&["a", "b", "c"]);
    assert!(s.remove(&"b".to_string()));
    assert!(!s.remove(&"b".to_string()));
    assert_eq!(names(&s), vec!["a", "c"]);
    let copy = s.duplicate();
    s.clear();
    assert!(s.is_empty());
    assert_eq!(names(&copy), vec!["a", "c"]);
}

#[test]
fn a_draw_counts_through_the_candidates() {
    let pool = set(&["a", "b", "c", "d"]);
    let excludes = set(&["b", "x"]);
    // Without exclusions the whole pool is eligible.
    assert_eq!(select_endpoint(&pool, None, Some(0)), Some("a".to_string()));
    assert_eq!(select_endpoint(&pool, None, Some(3)), Some("d".to_string()));
    assert_eq!(select_endpoint(&pool, None, Some(4)), None);
    assert_eq!(select_endpoint(&pool, None, None), None);
    // With exclusions the excluded endpoints are skipped.
    assert_eq!(select_endpoint(&pool, Some(&excludes), Some(0)), Some("a".to_string()));
    assert_eq!(select_endpoint(&pool, Some(&excludes), Some(1)), Some("c".to_string()));
    assert_eq!(select_endpoint(&pool, Some(&excludes), Some(2)), Some("d".to_string()));
    assert_eq!(select_endpoint(&pool, Some(&excludes), Some(3)), None);
}

#[test]
fn exclusions_that_cover_the_pool_are_ignored() {
    let pool = set(&["a", "b"]);
    let all = set(&["b", "x", "a"]);
    assert!(all.covers(&pool));
    assert_eq!(select_endpoint(&pool, Some(&all), Some(0)), Some("a".to_string()));
    assert_eq!(select_endpoint(&pool, Some(&all), Some(1)), Some("b".to_string()));
    assert_eq!(select_endpoint(&pool, Some(&all), Some(2)), None);
}

#[test]
fn exclusions_count_by_what_they_name_and_not_by_how_many_they_are() {
    let pool = set(&["a", "b"]);
    // More exclusions than endpoints, but one endpoint is left.
    let many = set(&["x", "a", "y", "z"]);
    assert!(!many.covers(&pool));
    assert_eq!(select_endpoint(&pool, Some(&many), Some(0)), Some("b".to_string()));
    assert_eq!(select_endpoint(&pool, Some(&many), Some(1)), None);
    for _ in 0..50 {
        assert_eq!(get_random_connection(&pool, Some(&many)), "b");
    }
    let strangers = set(&["x", "y", "z"]);
    assert_eq!(select_endpoint(&pool, Some(&strangers), Some(1)), Some("b".to_string()));
    let empty = EndpointSet::new();
    assert!(!empty.covers(&pool));
    assert!(empty.covers(&EndpointSet::new()));
    assert_eq!(select_endpoint(&pool, Some(&empty), Some(1)), Some("b".to_string()));
}

#[test]
fn random_choice_comes_from_the_pool() {
    let pool = set(&["a", "b", "c"]);
    for _ in 0..200 {
        let chosen = get_random_connection(&pool, None);
        assert!(pool.contains(&chosen));
    }
}

#[test]
fn random_choice_respects_exclusions() {
    let pool = set(&["a", "b", "c"]);
    let excludes = set(&["a", "c"]);
    for _ in 0..200 {
        assert_eq!(get_random_connection(&pool, Some(&excludes)), "b");
    }
}

#[test]
fn random_choice_reaches_every_candidate() {
    let pool = set(&["a", "b", "c"]);
    let excludes = set(&["b"]);
    let mut seen_a = false;
    let mut seen_c = false;
    for _ in 0..500 {
        match get_random_connection(&pool, Some(&excludes)).as_str() {
            "a" => seen_a = true,
            "c" => seen_c = true,
            other => panic!("excluded endpoint {} was chosen", other),
        }
    }
    assert!(seen_a && seen_c);
}

#[test]
fn random_choice_ignores_saturated_exclusions() {
    let pool = set(&["a", "b"]);
    let excludes = set(&["a", "b", "c"]);
    for _ in 0..50 {
        let chosen = get_random_connection(&pool, Some(&excludes));
        assert!(chosen == "a" || chosen == "b");
    }
    let lone = set(&["only"]);
    assert_eq!(get_random_connection(&lone, Some(&set(&["only"]))), "only");
}

#[test]
fn a_draw_lies_within_the_candidates() {
    let pool = set(&["a", "b", "c"]);
    let excludes = set(&["b"]);
    for _ in 0..200 {
        assert!(draw_candidate(&pool, None).unwrap() < 3);
        let drawn = draw_candidate(&pool, Some(&excludes));
        assert!(drawn.unwrap() < 2);
        let chosen = select_endpoint(&pool, Some(&excludes), drawn).unwrap();
        assert!(chosen == "a" || chosen == "c");
    }
    assert_eq!(draw_candidate(&EndpointSet::new(), None), None);
    assert_eq!(draw_candidate(&EndpointSet::new(), Some(&excludes)), None);
}
