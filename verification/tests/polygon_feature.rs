use overpass_geo::is_polygon_feature;
use overpass_geo::polygon_feature_rule;
use overpass_geo::Rule;
use overpass_geo::Tags;

fn tags_of(pairs: &[(&str, &str)]) -> Tags {
    let mut t = Tags::new();
    for (k, v) in pairs {
        t.insert(String::from(*k), String::from(*v));
    }
    t
}

#[test]
fn test_building_yes_is_polygon() {
    assert!(is_polygon_feature(&tags_of(&[("building", "yes")])));
}

#[test]
fn test_area_no_overrides() {
    assert!(!is_polygon_feature(&tags_of(&[("building", "yes"), ("area", "no")])));
}

#[test]
fn test_highway_included_values() {
    assert!(!is_polygon_feature(&tags_of(&[("highway", "residential")])));
    assert!(is_polygon_feature(&tags_of(&[("highway", "services")])));
    assert!(is_polygon_feature(&tags_of(&[("highway", "rest_area")])));
}

#[test]
fn test_natural_excluded_values() {
    assert!(!is_polygon_feature(&tags_of(&[("natural", "coastline")])));
    assert!(is_polygon_feature(&tags_of(&[("natural", "wood")])));
}

#[test]
fn test_empty_tags_not_polygon() {
    assert!(!is_polygon_feature(&Tags::new()));
}

#[test]
fn test_value_no_never_matches() {
    assert!(!is_polygon_feature(&tags_of(&[("building", "no")])));
}

#[test]
fn test_area_yes_is_polygon() {
    assert!(is_polygon_feature(&tags_of(&[("area", "yes")])));
}

#[test]
fn test_unknown_tags_not_polygon() {
    assert!(!is_polygon_feature(&tags_of(&[("name", "The Green"), ("surface", "grass")])));
}

#[test]
fn test_order_independence() {
    let forward = tags_of(&[("highway", "residential"), ("natural", "wood"), ("name", "x")]);
    let backward = tags_of(&[("name", "x"), ("natural", "wood"), ("highway", "residential")]);
    assert_eq!(is_polygon_feature(&forward), is_polygon_feature(&backward));
    assert!(is_polygon_feature(&backward));
    let f2 = tags_of(&[("building", "yes"), ("area", "no")]);
    let b2 = tags_of(&[("area", "no"), ("building", "yes")]);
    assert_eq!(is_polygon_feature(&f2), is_polygon_feature(&b2));
}

#[test]
fn test_rule_table_entries() {
    assert!(matches!(
        polygon_feature_rule(&String::from("building")),
        Some(Rule::Boolean(true))
    ));
    assert!(matches!(
        polygon_feature_rule(&String::from("highway")),
        Some(Rule::Values { included: Some(_), excluded: None })
    ));
    assert!(matches!(
        polygon_feature_rule(&String::from("natural")),
        Some(Rule::Values { included: None, excluded: Some(_) })
    ));
    assert!(matches!(polygon_feature_rule(&String::from("name")), None));
}

#[test]
fn test_tags_get_and_replace() {
    let mut t = Tags::new();
    t.insert(String::from("area"), String::from("yes"));
    t.insert(String::from("area"), String::from("no"));
    assert_eq!(t.get(&String::from("area")), Some(&String::from("no")));
    assert_eq!(t.get(&String::from("building")), None);
}
