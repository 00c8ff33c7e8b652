use hashbench::bench::{benchmark_bcrypt, benchmark_pbkdf2, run_benchmark, run_from_args};
use hashbench::config::Config;
use hashbench::error::BenchError;
use hashbench::primitive::{bcrypt_once, pbkdf2_once, pbkdf2_with_salt, Algorithm};
use hashbench::report::{Outcome, EXIT_SUCCESS};

fn args(list: &[&str]) -> Vec<Vec<u8>> {
    list.iter().map(|arg| arg.as_bytes().to_vec()).collect()
}

#[test]
fn bcrypt_hashes_at_a_supported_cost() {
    assert_eq!(bcrypt_once(b"hunter2", 4), Ok(()));
    assert_eq!(bcrypt_once(b"", 5), Ok(()));
}

#[test]
fn bcrypt_rejects_costs_out_of_range() {
    assert_eq!(bcrypt_once(b"hunter2", 3), Err(BenchError::PrimitiveFailure));
    assert_eq!(bcrypt_once(b"hunter2", 0), Err(BenchError::PrimitiveFailure));
    assert_eq!(bcrypt_once(b"hunter2", 32), Err(BenchError::PrimitiveFailure));
    assert_eq!(bcrypt_once(b"hunter2", 99), Err(BenchError::PrimitiveFailure));
}

#[test]
fn pbkdf2_derives_with_positive_rounds() {
    assert_eq!(pbkdf2_once(b"password", 1), Ok(()));
    assert_eq!(pbkdf2_once(b"password", 1000), Ok(()));
    assert_eq!(pbkdf2_once(b"", 2), Ok(()));
}

#[test]
fn pbkdf2_rejects_zero_rounds() {
    assert_eq!(pbkdf2_once(b"password", 0), Err(BenchError::PrimitiveFailure));
}

#[test]
fn pbkdf2_with_salt_derives_under_the_given_bytes() {
    assert_eq!(pbkdf2_with_salt(b"password", 1000, &[7u8; 16]), Ok(()));
    assert_eq!(pbkdf2_with_salt(b"password", 1, &[0u8; 16]), Ok(()));
    assert_eq!(pbkdf2_with_salt(b"", 2, &[255u8; 16]), Ok(()));
}

#[test]
fn pbkdf2_with_salt_takes_salts_from_3_to_48_bytes() {
    assert_eq!(pbkdf2_with_salt(b"password", 1, &[1u8; 3]), Ok(()));
    assert_eq!(pbkdf2_with_salt(b"password", 1, &[1u8; 4]), Ok(()));
    assert_eq!(pbkdf2_with_salt(b"password", 1, &[1u8; 48]), Ok(()));
}

#[test]
fn pbkdf2_with_salt_rejects_zero_rounds() {
    assert_eq!(pbkdf2_with_salt(b"password", 0, &[7u8; 16]), Err(BenchError::PrimitiveFailure));
}

#[test]
fn pbkdf2_with_salt_rejects_bytes_too_few_for_a_salt() {
    assert_eq!(pbkdf2_with_salt(b"password", 1000, &[]), Err(BenchError::PrimitiveFailure));
    assert_eq!(pbkdf2_with_salt(b"password", 1000, &[1]), Err(BenchError::PrimitiveFailure));
    assert_eq!(pbkdf2_with_salt(b"password", 1000, &[1, 2]), Err(BenchError::PrimitiveFailure));
}

#[test]
fn pbkdf2_with_salt_rejects_bytes_too_many_for_a_salt() {
    assert_eq!(pbkdf2_with_salt(b"password", 1000, &[1u8; 49]), Err(BenchError::PrimitiveFailure));
    assert_eq!(pbkdf2_with_salt(b"password", 1000, &[1u8; 100]), Err(BenchError::PrimitiveFailure));
}

#[test]
fn benchmark_bcrypt_gives_a_mean() {
    let mean = benchmark_bcrypt(b"hunter2", 4, 3);
    assert!(mean.is_ok());
    assert!(mean.unwrap() < 10_000);
}

#[test]
fn benchmark_bcrypt_rejects_zero_samples() {
    assert_eq!(benchmark_bcrypt(b"hunter2", 4, 0), Err(BenchError::InvalidConfiguration));
    assert_eq!(benchmark_bcrypt(b"hunter2", 99, 0), Err(BenchError::InvalidConfiguration));
}

#[test]
fn benchmark_bcrypt_at_cost_99_is_a_failure() {
    assert_eq!(benchmark_bcrypt(b"hunter2", 99, 3), Err(BenchError::PrimitiveFailure));
    assert_eq!(benchmark_bcrypt(b"hunter2", 3, 1), Err(BenchError::PrimitiveFailure));
}

#[test]
fn benchmark_pbkdf2_gives_a_mean() {
    let mean = benchmark_pbkdf2(b"password", 1000, 3);
    assert!(mean.is_ok());
    assert!(mean.unwrap() < 10_000);
}

#[test]
fn benchmark_pbkdf2_rejects_zero_samples() {
    assert_eq!(benchmark_pbkdf2(b"password", 1000, 0), Err(BenchError::InvalidConfiguration));
}

#[test]
fn benchmark_pbkdf2_with_zero_rounds_is_a_failure() {
    assert_eq!(benchmark_pbkdf2(b"password", 0, 3), Err(BenchError::PrimitiveFailure));
}

#[test]
fn run_benchmark_reports_every_cost_in_order() {
    let config = Config {
        costs: vec![6, 4, 5],
        samples: 2,
        algorithm: Algorithm::Bcrypt,
        password: b"hunter2".to_vec(),
    };
    let report = run_benchmark(&config).unwrap();
    let costs: Vec<u32> = report.outcomes.iter().map(|outcome| outcome.cost).collect();
    assert_eq!(costs, vec![6, 4, 5]);
    assert!(report.outcomes.iter().all(|outcome| outcome.result.is_ok()));
    assert_eq!(report.invocations, 6);
    assert_eq!(report.output_lines().len(), 3);
    assert_eq!(report.error_lines().len(), 0);
    assert_eq!(report.exit_code(), EXIT_SUCCESS);
}

#[test]
fn run_benchmark_lines_have_the_reported_shape() {
    let config = Config {
        costs: vec![4],
        samples: 1,
        algorithm: Algorithm::Bcrypt,
        password: b"hunter2".to_vec(),
    };
    let report = run_benchmark(&config).unwrap();
    let mean = report.outcomes[0].result.unwrap();
    assert_eq!(report.output_lines(), vec![format!("4, {} ms", mean)]);
}

#[test]
fn run_benchmark_with_pbkdf2() {
    let config = Config {
        costs: vec![1, 1000],
        samples: 2,
        algorithm: Algorithm::Pbkdf2,
        password: b"password".to_vec(),
    };
    let report = run_benchmark(&config).unwrap();
    assert_eq!(report.outcomes.len(), 2);
    assert_eq!(report.outcomes[0].cost, 1);
    assert_eq!(report.outcomes[1].cost, 1000);
    assert_eq!(report.invocations, 4);
    assert_eq!(report.exit_code(), EXIT_SUCCESS);
}

#[test]
fn run_benchmark_over_no_costs_prints_nothing_and_succeeds() {
    let config = Config {
        costs: Vec::new(),
        samples: 10,
        algorithm: Algorithm::Bcrypt,
        password: b"hunter2".to_vec(),
    };
    let report = run_benchmark(&config).unwrap();
    assert_eq!(report.outcomes, Vec::<Outcome>::new());
    assert_eq!(report.invocations, 0);
    assert_eq!(report.output_lines(), Vec::<String>::new());
    assert_eq!(report.error_lines(), Vec::<String>::new());
    assert_eq!(report.exit_code(), 0);
}

#[test]
fn run_benchmark_rejects_an_unusable_configuration() {
    let zero_samples = Config {
        costs: vec![4],
        samples: 0,
        algorithm: Algorithm::Bcrypt,
        password: b"hunter2".to_vec(),
    };
    assert_eq!(run_benchmark(&zero_samples), Err(BenchError::InvalidConfiguration));
    let cost_99 = Config {
        costs: vec![4, 99],
        samples: 3,
        algorithm: Algorithm::Bcrypt,
        password: b"hunter2".to_vec(),
    };
    assert_eq!(run_benchmark(&cost_99), Err(BenchError::InvalidConfiguration));
    let zero_rounds = Config {
        costs: vec![0],
        samples: 3,
        algorithm: Algorithm::Pbkdf2,
        password: b"password".to_vec(),
    };
    assert_eq!(run_benchmark(&zero_rounds), Err(BenchError::InvalidConfiguration));
}

#[test]
fn run_from_args_reads_and_runs() {
    let report = run_from_args(&args(&["--costs=5,4", "--samples=2"])).unwrap();
    assert_eq!(report.outcomes.len(), 2);
    assert_eq!(report.outcomes[0].cost, 5);
    assert_eq!(report.outcomes[1].cost, 4);
    assert_eq!(report.invocations, 4);
    let report = run_from_args(&args(&["--algorithm=pbkdf2", "--costs=10", "--samples=1"])).unwrap();
    assert_eq!(report.outcomes.len(), 1);
    assert_eq!(report.invocations, 1);
}

#[test]
fn run_from_args_rejects_what_it_cannot_read_or_use() {
    assert_eq!(run_from_args(&args(&["--frobnicate"])), Err(BenchError::InvalidConfiguration));
    assert_eq!(run_from_args(&args(&["--costs=4", "--samples=0"])), Err(BenchError::InvalidConfiguration));
    assert_eq!(run_from_args(&args(&["--costs=99", "--samples=1"])), Err(BenchError::InvalidConfiguration));
    assert_eq!(
        run_from_args(&args(&["--algorithm=pbkdf2", "--costs=0"])),
        Err(BenchError::InvalidConfiguration)
    );
}
