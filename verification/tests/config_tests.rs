use anemoia::config::{get_active_profile_name, config_file_name, get_profiles, profile_of_file};

#[test]
fn active_profile_defaults() {
    assert_eq!(get_active_profile_name(None), "default");
    assert_eq!(get_active_profile_name(Some("  \n")), "default");
    assert_eq!(get_active_profile_name(Some(" pvp\n")), "pvp");
}

#[test]
fn profile_files() {
    assert_eq!(profile_of_file("pvp.json"), Some("pvp".to_string()));
    assert_eq!(profile_of_file("a.b.json"), Some("a.b".to_string()));
    assert_eq!(profile_of_file(".json"), None);
    assert_eq!(profile_of_file("notes.txt"), None);
    assert_eq!(profile_of_file("json"), None);
    assert_eq!(profile_of_file("x.JSON"), None);
    assert_eq!(config_file_name("pvp"), "pvp.json");
}

#[test]
fn profiles_are_sorted_unique_with_default() {
    let entries = vec![
        ("zeta.json".to_string(), true),
        ("alpha.json".to_string(), true),
        ("dir.json".to_string(), false),
        ("readme.md".to_string(), true),
        ("default.json".to_string(), true),
        ("alpha.json".to_string(), true),
    ];
    assert_eq!(get_profiles(&entries), vec!["alpha", "default", "zeta"]);
    assert_eq!(get_profiles(&Vec::new()), vec!["default"]);
    let upper = vec![("B.json".to_string(), true), ("a.json".to_string(), true)];
    assert_eq!(get_profiles(&upper), vec!["B", "a", "default"]);
}
