use crab_io::Config;
use crab_io::ConfigError;

fn three_args() -> Vec<String> {
    vec![
        String::from("prog"),
        String::from("needle"),
        String::from("haystack.txt"),
    ]
}

#[test]
fn program_name_alone_is_rejected() {
    let args = vec![String::from("prog")];
    assert_eq!(
        Err(ConfigError::InsufficientArguments),
        Config::new(&args, None).map(|c| c.query)
    );
}

#[test]
fn one_argument_is_rejected() {
    let args = vec![String::from("prog"), String::from("needle")];
    assert_eq!(
        Err(ConfigError::InsufficientArguments),
        Config::new(&args, None).map(|c| c.query)
    );
}

#[test]
fn no_arguments_are_rejected() {
    let args: Vec<String> = Vec::new();
    assert_eq!(
        Err(ConfigError::InsufficientArguments),
        Config::new(&args, None).map(|c| c.query)
    );
}

#[test]
fn query_and_filename_are_taken_in_order() {
    let config = Config::new(&three_args(), None).unwrap();
    assert_eq!("needle", config.query);
    assert_eq!("haystack.txt", config.filename);
}

#[test]
fn absent_flag_means_case_sensitive() {
    let config = Config::new(&three_args(), None).unwrap();
    assert!(config.case_sensitive);
}

#[test]
fn empty_flag_value_means_case_insensitive() {
    let config = Config::new(&three_args(), Some(String::new())).unwrap();
    assert!(!config.case_sensitive);
}

#[test]
fn any_flag_value_means_case_insensitive() {
    let config = Config::new(&three_args(), Some(String::from("yes"))).unwrap();
    assert!(!config.case_sensitive);
}

#[test]
fn extra_arguments_are_ignored() {
    let mut args = three_args();
    args.push(String::from("extra"));
    let config = Config::new(&args, None).unwrap();
    assert_eq!("needle", config.query);
    assert_eq!("haystack.txt", config.filename);
}
