use oszdl::cli::parse_args;
use oszdl::cli::Cli;
use oszdl::cli::Mode;
use oszdl::config::Config;

fn filter_of(config: &Config, key: &str) -> Option<String> {
    for (k, v) in config.filters.iter() {
        if k == key {
            return Some(v.clone());
        }
    }
    None
}

#[test]
fn set_filter_inserts_then_replaces() {
    let mut config = Config::new();
    config.set_filter("m", "2");
    assert_eq!(filter_of(&config, "m"), Some("2".to_string()));
    config.set_filter("m", "3");
    assert_eq!(filter_of(&config, "m"), Some("3".to_string()));
    assert_eq!(config.filters.len(), 1);
    config.set_filter("c", "recommended");
    assert_eq!(config.filters.len(), 2);
    assert_eq!(filter_of(&config, "m"), Some("3".to_string()));
}

#[test]
fn parse_args_folds_flags_into_filters() {
    let mut config = Config::new();
    let cli = Cli {
        query: "some song".to_string(),
        mode: Some(Mode::Mania),
        recommended_difficulty: true,
    };
    let query = parse_args(&cli, &mut config);
    assert_eq!(query, "some song");
    assert_eq!(filter_of(&config, "m"), Some("3".to_string()));
    assert_eq!(filter_of(&config, "c"), Some("recommended".to_string()));
}

#[test]
fn parse_args_without_flags_leaves_filters_alone() {
    let mut config = Config::new();
    config.set_filter("s", "ranked");
    let cli = Cli { query: "q".to_string(), mode: None, recommended_difficulty: false };
    let query = parse_args(&cli, &mut config);
    assert_eq!(query, "q");
    assert_eq!(config.filters.len(), 1);
    assert_eq!(filter_of(&config, "s"), Some("ranked".to_string()));
    assert_eq!(filter_of(&config, "m"), None);
    assert_eq!(filter_of(&config, "c"), None);
}

#[test]
fn mode_any_still_sets_its_code() {
    let mut config = Config::new();
    let cli = Cli { query: String::new(), mode: Some(Mode::Any), recommended_difficulty: false };
    parse_args(&cli, &mut config);
    assert_eq!(filter_of(&config, "m"), Some("4".to_string()));
}
