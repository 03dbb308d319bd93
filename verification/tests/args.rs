//! The command-line helpers: flag presence, first keyed option, and the
//! repeatable input option.

use rdf5d::args::{parse_flag, parse_multi_inputs, parse_opt};

fn argv(items: &[&str]) -> Vec<String> {
    items.iter().map(|s| s.to_string()).collect()
}

#[test]
fn flag_present_and_absent() {
    let args = argv(&["prog", "build-graph", "--zstd", "--input", "a.ttl"]);
    assert!(parse_flag(&args, "--zstd"));
    assert!(!parse_flag(&args, "--no-crc"));
    assert!(!parse_flag(&[], "--zstd"));
}

#[test]
fn opt_takes_value_after_first_key() {
    let args = argv(&["--output", "out.r5tu", "--id", "one", "--id", "two"]);
    assert_eq!(parse_opt(&args, "--output"), Some("out.r5tu".to_string()));
    assert_eq!(parse_opt(&args, "--id"), Some("one".to_string()));
    assert_eq!(parse_opt(&args, "--format"), None);
    // a key in last position has no value
    let tail = argv(&["--output"]);
    assert_eq!(parse_opt(&tail, "--output"), None);
}

#[test]
fn multi_inputs_collects_each_value() {
    let args = argv(&["cmd", "--input", "a.ttl", "--zstd", "--input", "b.ttl", "--input"]);
    assert_eq!(parse_multi_inputs(&args), argv(&["a.ttl", "b.ttl"]));
    assert!(parse_multi_inputs(&argv(&["cmd", "--zstd"])).is_empty());
}

#[test]
fn multi_inputs_steps_over_consumed_values() {
    // the value after one input is never itself treated as a key
    let args = argv(&["--input", "--input", "x"]);
    assert_eq!(parse_multi_inputs(&args), argv(&["--input"]));
}
