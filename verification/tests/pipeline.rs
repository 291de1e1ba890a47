use data_gen::arith::solve;
use data_gen::config::{Config, Value};
use data_gen::runtime::{pool_size, Executor};
use data_gen::task::{generator_line, input_line, solver_line, ExtrernalSolver, MOD};
use data_gen::text::parse_two_u64;

#[test]
fn input_line_format() {
    assert_eq!("8 9\n", input_line(8, 9));
    assert_eq!("0 18446744073709551615\n", input_line(0, u64::MAX));
}

#[test]
fn parse_two_accepts_tokens() {
    assert_eq!(Some((8, 9)), parse_two_u64("8 9\n"));
    assert_eq!(Some((12, 34)), parse_two_u64("  12\t34  "));
    assert_eq!(Some((u64::MAX, 1)), parse_two_u64("18446744073709551615 1"));
    // further tokens are ignored, as only the first two are read
    assert_eq!(Some((1, 2)), parse_two_u64("1 2 3"));
}

#[test]
fn parse_two_rejects_bad_input() {
    assert_eq!(None, parse_two_u64(""));
    assert_eq!(None, parse_two_u64("abc"));
    assert_eq!(None, parse_two_u64("12"));
    assert_eq!(None, parse_two_u64("12 a"));
    assert_eq!(None, parse_two_u64("12a 3"));
    assert_eq!(None, parse_two_u64("99999999999999999999 1"));
}

#[test]
fn solver_line_end_to_end() {
    // the scenario pair: generator drew 8 and 9 under max_n = max_m = 10
    let input = input_line(8, 9);
    let expected = format!("{}\n", solve(8, 9, MOD));
    assert_eq!(Some(expected), solver_line(&input));
    assert_eq!(Some(format!("{}\n", solve(8, 9, MOD))), solver_line("8 9"));
}

#[test]
fn solver_line_rejects_bad_sizes() {
    assert_eq!(None, solver_line("8 0"));
    assert_eq!(None, solver_line("9999999999 1"));
    assert_eq!(None, solver_line("nonsense"));
}

#[test]
fn generator_line_stays_in_range() {
    let config = Config::new(1)
        .insert("max_n", Value::Integer(10))
        .insert("max_m", Value::Integer(10));
    let line = generator_line(&config);
    let (n, m) = parse_two_u64(&line).expect("a generated line holds two numbers");
    assert!((8..=10).contains(&n));
    assert!((8..=10).contains(&m));
}

#[test]
fn executor_plans_one_unit_per_configuration() {
    let mut executor = Executor::new("output/queuing");
    for i in 1..=3 {
        executor.testcase(
            Config::new(i)
                .insert("max_n", Value::Integer(100))
                .insert("max_m", Value::Integer(100)),
        );
    }
    executor.testcase(Config::with_subtask(2, 4));
    let units = executor.into_units();
    assert_eq!(4, units.len());
    for (i, unit) in units.iter().take(3).enumerate() {
        let id = (i + 1) as u32;
        assert_eq!(id, unit.config.id());
        assert_eq!(format!("output/queuing{}.in", id), unit.input_path);
        assert_eq!(format!("output/queuing{}.out", id), unit.output_path);
    }
    assert_eq!(4, units[3].config.id());
    assert_eq!(Some(2), units[3].config.subtask_id());
    assert_eq!("output/queuing2_4.in", units[3].input_path);
    assert_eq!("output/queuing2_4.out", units[3].output_path);
}

#[test]
fn pool_size_is_at_least_one() {
    assert_eq!(1, pool_size(0));
    assert_eq!(1, pool_size(1));
    assert_eq!(24, pool_size(24));
}

#[test]
fn external_solver_keeps_its_path() {
    let solver = ExtrernalSolver::new("/bin/cat");
    assert_eq!("/bin/cat", solver.executable());
}
