use hashbench::args::{parse_algorithm, parse_arg, parse_args, parse_costs, parse_number};
use hashbench::config::Config;
use hashbench::error::BenchError;
use hashbench::primitive::Algorithm;

fn args(list: &[&str]) -> Vec<Vec<u8>> {
    list.iter().map(|arg| arg.as_bytes().to_vec()).collect()
}

#[test]
fn number_is_read_in_decimal() {
    assert_eq!(parse_number(b"0"), Some(0));
    assert_eq!(parse_number(b"8"), Some(8));
    assert_eq!(parse_number(b"10"), Some(10));
    assert_eq!(parse_number(b"600000"), Some(600_000));
}

#[test]
fn number_may_have_leading_zeros() {
    assert_eq!(parse_number(b"007"), Some(7));
    assert_eq!(parse_number(b"00000000000000000012"), Some(12));
}

#[test]
fn number_must_fit_in_32_bits() {
    assert_eq!(parse_number(b"4294967295"), Some(u32::MAX));
    assert_eq!(parse_number(b"4294967296"), None);
    assert_eq!(parse_number(b"4294967300"), None);
    assert_eq!(parse_number(b"99999999999999999999"), None);
}

#[test]
fn number_must_be_digits_only() {
    assert_eq!(parse_number(b""), None);
    assert_eq!(parse_number(b"-1"), None);
    assert_eq!(parse_number(b"+1"), None);
    assert_eq!(parse_number(b" 1"), None);
    assert_eq!(parse_number(b"1 "), None);
    assert_eq!(parse_number(b"1a"), None);
    assert_eq!(parse_number(b"a1"), None);
    assert_eq!(parse_number(b"1.5"), None);
    assert_eq!(parse_number(b"0x10"), None);
    assert_eq!(parse_number(b"/"), None);
    assert_eq!(parse_number(b":"), None);
    assert_eq!(parse_number(b"99999999999x"), None);
}

#[test]
fn costs_are_separated_by_commas() {
    assert_eq!(parse_costs(b"8,10,12,15"), Some(vec![8, 10, 12, 15]));
    assert_eq!(parse_costs(b"8"), Some(vec![8]));
    assert_eq!(parse_costs(b"15,8,8"), Some(vec![15, 8, 8]));
}

#[test]
fn no_text_is_no_costs() {
    assert_eq!(parse_costs(b""), Some(Vec::new()));
}

#[test]
fn costs_with_an_empty_field_are_rejected() {
    assert_eq!(parse_costs(b","), None);
    assert_eq!(parse_costs(b"8,"), None);
    assert_eq!(parse_costs(b",8"), None);
    assert_eq!(parse_costs(b"8,,10"), None);
}

#[test]
fn costs_with_a_malformed_field_are_rejected() {
    assert_eq!(parse_costs(b"8, 10"), None);
    assert_eq!(parse_costs(b"8;10"), None);
    assert_eq!(parse_costs(b"8,x,10"), None);
    assert_eq!(parse_costs(b"8,10,4294967296"), None);
    assert_eq!(parse_costs(b"-8"), None);
}

#[test]
fn algorithm_names() {
    assert_eq!(parse_algorithm(b"bcrypt"), Some(Algorithm::Bcrypt));
    assert_eq!(parse_algorithm(b"pbkdf2"), Some(Algorithm::Pbkdf2));
}

#[test]
fn unknown_algorithm_names() {
    assert_eq!(parse_algorithm(b""), None);
    assert_eq!(parse_algorithm(b"Bcrypt"), None);
    assert_eq!(parse_algorithm(b"bcrypt "), None);
    assert_eq!(parse_algorithm(b"bcryp"), None);
    assert_eq!(parse_algorithm(b"pbkdf"), None);
    assert_eq!(parse_algorithm(b"pbkdf2-sha256"), None);
    assert_eq!(parse_algorithm(b"argon2"), None);
}

#[test]
fn one_argument_changes_one_setting() {
    let next = parse_arg(Config::default(), b"--samples=3").unwrap();
    assert_eq!(next, Config { samples: 3, ..Config::default() });
    let next = parse_arg(Config::default(), b"--costs=4,5").unwrap();
    assert_eq!(next, Config { costs: vec![4, 5], ..Config::default() });
    let next = parse_arg(Config::default(), b"--algorithm=pbkdf2").unwrap();
    assert_eq!(next, Config { algorithm: Algorithm::Pbkdf2, ..Config::default() });
}

#[test]
fn argument_that_is_no_option_is_rejected() {
    assert_eq!(parse_arg(Config::default(), b""), None);
    assert_eq!(parse_arg(Config::default(), b"--costs"), None);
    assert_eq!(parse_arg(Config::default(), b"--cost=8"), None);
    assert_eq!(parse_arg(Config::default(), b"-costs=8"), None);
    assert_eq!(parse_arg(Config::default(), b" --costs=8"), None);
    assert_eq!(parse_arg(Config::default(), b"--password=x"), None);
    assert_eq!(parse_arg(Config::default(), b"8"), None);
}

#[test]
fn no_arguments_give_the_standard_configuration() {
    assert_eq!(parse_args(&Vec::new()), Ok(Config::default()));
}

#[test]
fn all_three_options() {
    let config = parse_args(&args(&["--costs=1000,2000", "--samples=3", "--algorithm=pbkdf2"])).unwrap();
    assert_eq!(config.costs, vec![1000, 2000]);
    assert_eq!(config.samples, 3);
    assert_eq!(config.algorithm, Algorithm::Pbkdf2);
    assert_eq!(config.password, b"hunter2".to_vec());
}

#[test]
fn options_in_any_order() {
    let one = parse_args(&args(&["--samples=3", "--costs=4"])).unwrap();
    let other = parse_args(&args(&["--costs=4", "--samples=3"])).unwrap();
    assert_eq!(one, other);
}

#[test]
fn later_option_overrides_earlier() {
    let config = parse_args(&args(&["--samples=3", "--costs=4", "--samples=7"])).unwrap();
    assert_eq!(config.samples, 7);
    assert_eq!(config.costs, vec![4]);
}

#[test]
fn empty_cost_list_option() {
    let config = parse_args(&args(&["--costs="])).unwrap();
    assert_eq!(config.costs, Vec::<u32>::new());
    assert_eq!(config.validate(), Ok(()));
}

#[test]
fn one_bad_argument_spoils_the_list() {
    assert_eq!(parse_args(&args(&["--samples=x"])), Err(BenchError::InvalidConfiguration));
    assert_eq!(parse_args(&args(&["--samples="])), Err(BenchError::InvalidConfiguration));
    assert_eq!(parse_args(&args(&["--samples=-1"])), Err(BenchError::InvalidConfiguration));
    assert_eq!(parse_args(&args(&["--algorithm=md5"])), Err(BenchError::InvalidConfiguration));
    assert_eq!(parse_args(&args(&["--costs=8,,10"])), Err(BenchError::InvalidConfiguration));
    assert_eq!(parse_args(&args(&["--verbose"])), Err(BenchError::InvalidConfiguration));
    assert_eq!(
        parse_args(&args(&["--samples=3", "oops", "--samples=4"])),
        Err(BenchError::InvalidConfiguration)
    );
    assert_eq!(parse_args(&args(&["--samples=x", "--samples=4"])), Err(BenchError::InvalidConfiguration));
}

#[test]
fn parsing_does_not_judge_the_values() {
    let config = parse_args(&args(&["--samples=0", "--costs=99"])).unwrap();
    assert_eq!(config.samples, 0);
    assert_eq!(config.costs, vec![99]);
    assert_eq!(config.validate(), Err(BenchError::InvalidConfiguration));
}

#[test]
fn argument_that_is_not_text_is_rejected() {
    assert_eq!(parse_args(&vec![vec![0xff, 0xfe]]), Err(BenchError::InvalidConfiguration));
    assert_eq!(
        parse_args(&vec![b"--samples=\xff".to_vec()]),
        Err(BenchError::InvalidConfiguration)
    );
}
