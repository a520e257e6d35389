use typing_store::json::parse_i64;
use typing_store::keyboard::get_current_input_source;
use typing_store::metrics::ErrorInfo;
use typing_store::metrics::MetricsCalculator;

#[test]
fn test_get_current_input_source() {
    let result = get_current_input_source();
    println!("Detected keyboard input source: {:?}", result);
}

#[test]
fn test_get_input_source() {
    let result = get_current_input_source();
    println!("Detected input source: {:?}", result);
    // Only the Apple toolbox call can detect a source; this build target's
    // detector reports none, exactly as its contract states.
    assert!(result.is_none());
}

#[test]
fn test_parse_i64_plain() {
    assert_eq!(parse_i64("0"), Some(0));
    assert_eq!(parse_i64("123"), Some(123));
    assert_eq!(parse_i64("+42"), Some(42));
    assert_eq!(parse_i64("-7"), Some(-7));
}

#[test]
fn test_parse_i64_bounds() {
    assert_eq!(parse_i64("9223372036854775807"), Some(i64::MAX));
    assert_eq!(parse_i64("-9223372036854775808"), Some(i64::MIN));
    assert_eq!(parse_i64("9223372036854775808"), None);
    assert_eq!(parse_i64("-9223372036854775809"), None);
    assert_eq!(parse_i64("99999999999999999999999999"), None);
}

#[test]
fn test_parse_i64_rejects_junk() {
    assert_eq!(parse_i64(""), None);
    assert_eq!(parse_i64("-"), None);
    assert_eq!(parse_i64("+"), None);
    assert_eq!(parse_i64("12a"), None);
    assert_eq!(parse_i64(" 5"), None);
    assert_eq!(parse_i64("1.5"), None);
    assert_eq!(parse_i64("sieben"), None);
}

fn err(expected: char) -> ErrorInfo {
    ErrorInfo { index: 0, expected, typed: 'x', timestamp: 0 }
}

#[test]
fn test_analyze_problem_keys_counts_and_order() {
    let errors = vec![err('a'), err('b'), err('a'), err('c'), err('a'), err('b')];
    let tally = MetricsCalculator::analyze_problem_keys(&errors);
    assert_eq!(tally.len(), 3);
    assert_eq!(tally[0], ('a', 3));
    assert_eq!(tally[1], ('b', 2));
    assert_eq!(tally[2], ('c', 1));
}

#[test]
fn test_analyze_problem_keys_empty() {
    let tally = MetricsCalculator::analyze_problem_keys(&vec![]);
    assert_eq!(tally.len(), 0);
}
