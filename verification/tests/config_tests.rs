use ffbridge::config::{AppConfig, ConnectionProfile};

#[test]
fn the_default_document_is_empty() {
    let config = AppConfig::default();
    assert!(config.profiles.is_empty());
    assert!(config.current_profile.is_none());
}

#[test]
fn profiles_are_found_by_name() {
    let config = AppConfig {
        profiles: vec![
            (
                String::from("home"),
                ConnectionProfile { mode: 0, target: String::from("127.0.0.1"), port: 8080 },
            ),
            (
                String::from("work"),
                ConnectionProfile { mode: 1, target: String::from("10.0.0.2"), port: 9090 },
            ),
        ],
        current_profile: Some(String::from("home")),
    };
    let work = config.profile_named("work").unwrap();
    assert_eq!(work.target, "10.0.0.2");
    assert_eq!(work.port, 9090);
    assert!(config.profile_named("road").is_none());
}
