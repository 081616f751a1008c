//! The configuration file.

use ia_get::config::{
    locate_config_file, max_bytes_per_second, user_config_paths, Config, ConfigPath,
};
use ia_get::error::IaGetError;

#[test]
fn parse_config_values() {
    let config = Config::parse(
        "# comment\nmaxbandwidth = 4000\nmultithreading = true\nthreads = 8\n",
    )
    .unwrap();

    assert_eq!(config.max_bandwidth_kbps, 4000);
    assert!(config.multithreading);
    assert_eq!(config.thread_count, 8);
}

#[test]
fn defaults_when_empty() {
    let config = Config::parse("").unwrap();
    assert_eq!(config, Config::default());
}

#[test]
fn max_bytes_per_second_conversion() {
    assert_eq!(max_bytes_per_second(-1), None);
    assert_eq!(max_bytes_per_second(4000), Some(4_096_000));
}

fn error_of(content: &str) -> IaGetError {
    Config::parse(content).unwrap_err()
}

#[test]
fn keys_have_two_spellings_and_either_separator() {
    let config =
        Config::parse("MAX_Bandwidth: 12\nmulti_threading=ON\n thread_count = 2 # few\n").unwrap();
    assert_eq!(config.max_bandwidth_kbps, 12);
    assert!(config.multithreading);
    assert_eq!(config.thread_count, 2);
}

#[test]
fn other_lines_are_ignored() {
    let config = Config::parse("[section]\n\nfoo = bar\nno separator\r\n# threads = 9\n").unwrap();
    assert_eq!(config, Config::default());
}

#[test]
fn the_last_line_decides() {
    let config = Config::parse("threads = 2\nthreads = 7").unwrap();
    assert_eq!(config.thread_count, 7);
}

#[test]
fn booleans_have_four_words_each() {
    for (word, value) in [
        ("true", true), ("YES", true), ("1", true), ("on", true),
        ("false", false), ("no", false), ("0", false), ("Off", false),
    ] {
        let config = Config::parse(&format!("multithreading = {word}")).unwrap();
        assert_eq!(config.multithreading, value);
    }
}

#[test]
fn unusable_values_are_errors() {
    assert_eq!(
        error_of("maxbandwidth = fast"),
        IaGetError::Config("Invalid maxbandwidth value:  fast".to_string())
    );
    assert_eq!(
        error_of("multithreading=maybe"),
        IaGetError::Config("Invalid boolean value: maybe".to_string())
    );
    assert_eq!(
        error_of("threads=-1"),
        IaGetError::Config("Invalid threads value: -1".to_string())
    );
    assert_eq!(
        error_of("threads=0"),
        IaGetError::Config("threads must be at least 1".to_string())
    );
    assert_eq!(
        error_of("threads=4294967296"),
        IaGetError::Config("Invalid threads value: 4294967296".to_string())
    );
}

#[test]
fn numbers_may_carry_a_sign() {
    assert_eq!(Config::parse("maxbandwidth=+5").unwrap().max_bandwidth_kbps, 5);
    assert_eq!(Config::parse("maxbandwidth=-5").unwrap().max_bandwidth_kbps, -5);
    assert_eq!(
        Config::parse("maxbandwidth=-9223372036854775808").unwrap().max_bandwidth_kbps,
        i64::MIN
    );
    assert!(Config::parse("maxbandwidth=9223372036854775808").is_err());
    assert_eq!(Config::parse("threads=+3").unwrap().thread_count, 3);
}

#[test]
fn a_separator_within_the_value_belongs_to_it() {
    assert_eq!(
        error_of("threads = 1=2"),
        IaGetError::Config("Invalid threads value:  1=2".to_string())
    );
    assert_eq!(Config::parse("threads:1=2").unwrap(), Config::default());
}

#[test]
fn an_unusable_file_leaves_the_defaults() {
    assert_eq!(Config::load(None), (Config::default(), None));
    let (config, warning) = Config::load(Some(Ok("threads = 6".to_string())));
    assert_eq!((config.thread_count, warning), (6, None));
    assert_eq!(
        Config::load(Some(Ok("threads = 0".to_string()))),
        (
            Config::default(),
            Some(
                "Warning: could not load ia-get.ini (threads must be at least 1), using defaults"
                    .to_string()
            )
        )
    );
    assert_eq!(
        Config::load(Some(Err(IaGetError::FileSystem("denied".to_string())))),
        (
            Config::default(),
            Some("Warning: could not load ia-get.ini (denied), using defaults".to_string())
        )
    );
}

fn places(appdata: Option<&str>, home: Option<&str>, files: &[bool]) -> Vec<(ConfigPath, bool)> {
    user_config_paths(appdata.map(str::to_string), home.map(str::to_string))
        .into_iter()
        .zip(files.iter().copied())
        .collect()
}

#[test]
fn the_places_of_the_user_are_listed_in_order() {
    let both = places(Some("data"), Some("home"), &[true, true]);
    assert_eq!(both.len(), 2);
    assert_eq!(both[0].0.parts, ["data", "ia-get", "ia-get.ini"]);
    assert_eq!(both[1].0.parts, ["home", ".config", "ia-get", "ia-get.ini"]);
    assert_eq!(places(None, Some("home"), &[true])[0].0.parts[0], "home");
    assert_eq!(places(Some("data"), None, &[true])[0].0.parts[0], "data");
    assert!(places(None, None, &[]).is_empty());
}

#[test]
fn the_first_place_with_a_file_is_used() {
    let located = |local: bool, files: &[bool]| {
        locate_config_file(local, places(Some("data"), Some("home"), files)).map(|path| path.parts)
    };
    assert_eq!(located(true, &[true, true]).unwrap(), ["ia-get.ini"]);
    assert_eq!(located(false, &[true, true]).unwrap()[0], "data");
    assert_eq!(
        located(false, &[false, true]).unwrap(),
        ["home", ".config", "ia-get", "ia-get.ini"]
    );
    assert_eq!(located(false, &[false, false]), None);
    assert!(locate_config_file(false, Vec::new()).is_none());
}

#[test]
fn zero_bandwidth_is_a_limit() {
    assert_eq!(max_bytes_per_second(0), Some(0));
    assert_eq!(max_bytes_per_second(1), Some(1024));
    assert_eq!(max_bytes_per_second(i64::MIN), None);
}

#[test]
fn a_second_content_lies_over_the_first() {
    let first = "threads = 2\nmultithreading = on\r";
    let second = "maxbandwidth = 7\nthreads = 5";
    let config = Config::parse(&format!("{first}\n{second}")).unwrap();
    assert_eq!(
        config,
        Config { max_bandwidth_kbps: 7, multithreading: true, thread_count: 5 }
    );
    assert_eq!(error_of("threads=0\nmultithreading=x"), error_of("threads=0"));
    assert_eq!(error_of("threads=1\r\nmultithreading=x"), error_of("multithreading=x"));
    assert_eq!(error_of("threads = a\r\n"), error_of("threads = a\r"));
}
