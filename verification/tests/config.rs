use hashbench::config::Config;
use hashbench::error::BenchError;
use hashbench::primitive::Algorithm;

fn config(costs: Vec<u32>, samples: u32, algorithm: Algorithm) -> Config {
    Config { costs, samples, algorithm, password: b"hunter2".to_vec() }
}

#[test]
fn standard_configuration() {
    let standard = Config::default();
    assert_eq!(standard.costs, vec![8, 10, 12, 15]);
    assert_eq!(standard.samples, 10);
    assert_eq!(standard.algorithm, Algorithm::Bcrypt);
    assert_eq!(standard.password, b"hunter2".to_vec());
    assert_eq!(standard.validate(), Ok(()));
}

#[test]
fn no_costs_are_a_usable_configuration() {
    assert_eq!(config(Vec::new(), 1, Algorithm::Bcrypt).validate(), Ok(()));
    assert_eq!(config(Vec::new(), 1, Algorithm::Pbkdf2).validate(), Ok(()));
}

#[test]
fn zero_samples_are_unusable() {
    assert_eq!(config(vec![8], 0, Algorithm::Bcrypt).validate(), Err(BenchError::InvalidConfiguration));
    assert_eq!(config(Vec::new(), 0, Algorithm::Pbkdf2).validate(), Err(BenchError::InvalidConfiguration));
}

#[test]
fn bcrypt_supports_costs_from_4_to_31() {
    assert!(!Algorithm::Bcrypt.supports(0));
    assert!(!Algorithm::Bcrypt.supports(3));
    assert!(Algorithm::Bcrypt.supports(4));
    assert!(Algorithm::Bcrypt.supports(12));
    assert!(Algorithm::Bcrypt.supports(31));
    assert!(!Algorithm::Bcrypt.supports(32));
    assert!(!Algorithm::Bcrypt.supports(99));
    assert!(!Algorithm::Bcrypt.supports(u32::MAX));
}

#[test]
fn pbkdf2_supports_every_positive_iteration_count() {
    assert!(!Algorithm::Pbkdf2.supports(0));
    assert!(Algorithm::Pbkdf2.supports(1));
    assert!(Algorithm::Pbkdf2.supports(1000));
    assert!(Algorithm::Pbkdf2.supports(u32::MAX));
}

#[test]
fn unsupported_cost_anywhere_in_the_list_is_unusable() {
    assert_eq!(config(vec![99], 3, Algorithm::Bcrypt).validate(), Err(BenchError::InvalidConfiguration));
    assert_eq!(config(vec![8, 10, 3], 3, Algorithm::Bcrypt).validate(), Err(BenchError::InvalidConfiguration));
    assert_eq!(config(vec![32, 8], 3, Algorithm::Bcrypt).validate(), Err(BenchError::InvalidConfiguration));
    assert_eq!(config(vec![1000, 0], 3, Algorithm::Pbkdf2).validate(), Err(BenchError::InvalidConfiguration));
}

#[test]
fn support_depends_on_the_algorithm() {
    assert_eq!(config(vec![1000], 3, Algorithm::Pbkdf2).validate(), Ok(()));
    assert_eq!(config(vec![1000], 3, Algorithm::Bcrypt).validate(), Err(BenchError::InvalidConfiguration));
    assert_eq!(config(vec![4, 31], 3, Algorithm::Bcrypt).validate(), Ok(()));
}
