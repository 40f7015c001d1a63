use cranberry::logging::parse_level;
use cranberry::loki::escape_label_value;
use cranberry::prometheus::parse_metrics;

#[test]
fn parses_exposition_lines() {
    let input = r#"
        # TYPE up gauge
        up{job="node",instance="localhost:9100"} 1
        process_cpu_seconds_total 2.5
        "#;

    let metrics = parse_metrics(input).expect("expected valid metrics");
    assert_eq!(metrics.len(), 2);
    assert_eq!(metrics[0].name, "up");
    assert_eq!(metrics[0].labels.len(), 2);
    assert_eq!(metrics[1].value.parse::<f64>().unwrap(), 2.5);
}

#[test]
fn parses_quoted_label_values_with_commas() {
    let input = r#"http_requests_total{handler="/api/v1,internal",message="say \"hello\""} 3"#;

    let metrics = parse_metrics(input).expect("expected valid metrics");
    assert_eq!(metrics.len(), 1);
    assert_eq!(metrics[0].labels[0].1, "/api/v1,internal");
    assert_eq!(metrics[0].labels[1].1, "say \"hello\"");
}

#[test]
fn escapes_quotes_and_backslashes_in_label_values() {
    assert_eq!(escape_label_value(r#"api\"test"#), r#"api\\\"test"#);
}

#[test]
fn rejects_invalid_log_level() {
    let err = parse_level("verbose").expect_err("level should be rejected");

    assert!(err.contains("unsupported log level"));
}
