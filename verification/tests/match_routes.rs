use monolith_core::match_routes::does_route_match;
use monolith_core::match_routes::find_matches;

#[test]
fn match_routes_test_does_match() {
    let map = does_route_match(
        "/text/:text",
        "/text/makkara"
    );
    assert_eq!(
        map,
        Some(
            [("text".to_string(), "makkara".to_string())].iter().cloned().collect()
        )
    );
}

#[test]
fn match_routes_test_does_match2() {
    let map = does_route_match(
        "/person/:personId/profile",
        "/person/qwert/profile"
    );

    assert_eq!(
        map,
        Some(
            [("personId".to_string(), "qwert".to_string())].iter().cloned().collect()
        )
    );
}

#[test]
fn match_routes_test_does_match3() {
    let map = does_route_match(
        "/person/:personId/profile",
        "/person/qwert/profile/123"
    );

    assert_eq!(map, None);
}

#[test]
fn match_routes_test_find_matches() {
    let routes = vec![
        "/hello".to_string(),
        "/text/:textName".to_string(),
    ];
    let text = find_matches(&routes, "/text/makkara");
    assert_eq!(
        text,
        Some(
            (
                "/text/:textName".to_string(),
                vec![("textName".to_string(), "makkara".to_string())].into_iter().collect()
            )
        )
    );
}

fn pairs(list: &[(&str, &str)]) -> Vec<(String, String)> {
    list.iter().map(|(name, value)| (name.to_string(), value.to_string())).collect()
}

#[test]
fn literal_routes_match_themselves_only() {
    assert_eq!(does_route_match("/hello", "/hello"), Some(vec![]));
    assert_eq!(does_route_match("", ""), Some(vec![]));
    assert_eq!(does_route_match("/hello", "/hell"), None);
    assert_eq!(does_route_match("/hello", "/hello/"), None);
    assert_eq!(does_route_match("/hello", ""), None);
}

#[test]
fn two_parameters_come_in_order() {
    assert_eq!(
        does_route_match("/a/:x/b/:y", "/a/1/b/22"),
        Some(pairs(&[("x", "1"), ("y", "22")]))
    );
}

#[test]
fn a_name_bound_twice_keeps_its_last_value_in_its_first_place() {
    assert_eq!(
        does_route_match("/:x/:y/:x", "/1/2/3"),
        Some(pairs(&[("x", "3"), ("y", "2")]))
    );
}

#[test]
fn the_slashes_behind_name_and_value_are_passed_over_unread() {
    assert_eq!(does_route_match("/:a", "/x/"), Some(pairs(&[("a", "x")])));
    assert_eq!(does_route_match("/:a/", "/x"), Some(pairs(&[("a", "x")])));
    assert_eq!(does_route_match("/:a/b", "/x"), None);
}

#[test]
fn an_empty_value_is_a_value() {
    assert_eq!(does_route_match("/:a", "/"), Some(pairs(&[("a", "")])));
}

#[test]
fn a_nameless_parameter_hands_its_value_on() {
    assert_eq!(does_route_match("/:/:b", "/x/y"), Some(pairs(&[("b", "xy")])));
    assert_eq!(does_route_match("/:", "/x"), Some(vec![]));
    assert_eq!(does_route_match("/:/z", "/x"), None);
}

#[test]
fn a_colon_in_a_name_hides_the_next_character() {
    assert_eq!(does_route_match("/:a:bc", "/v"), Some(pairs(&[("a:c", "v")])));
}

#[test]
fn the_character_zero_ends_a_text() {
    assert_eq!(does_route_match("/a\0b", "/a"), Some(vec![]));
}

#[test]
fn find_matches_gives_the_first_match() {
    let routes = vec!["/:a".to_string(), "/:b".to_string()];
    assert_eq!(
        find_matches(&routes, "/x"),
        Some(("/:a".to_string(), pairs(&[("a", "x")])))
    );
    assert_eq!(find_matches(&routes, "/x/y/z"), None);
    assert_eq!(find_matches(&vec![], "/x"), None);
}
