use cranberry::app::{App, DataSource, HistoryView, LogFocus, Request, LOG_ENTRY_LIMIT};
use cranberry::cli::{apply_base_url_override, parse_args};
use cranberry::config::{Config, DisplayConfig, LokiConfig, PrometheusConfig};
use cranberry::keys::{handle_key, handle_main_key, AppAction, Key, KeyPress};
use cranberry::logging::{parse_level, to_ascii_lowercase, LogLevel};
use cranberry::loki::{
    escape_label_value, entries_from_reply, label_values_from_reply, nanos_to_i64, now_unix_nanos, LogEntry, LogStream,
    LokiClient, QueryRangeData,
};
use cranberry::prometheus::{parse_head, parse_labels, parse_metrics, skip_delimiters, MetricSample};
use cranberry::schedule::{after_action, due_work};
use cranberry::queries::{
    series_request, target_metrics_request, escape_matcher, into_metric_sample, metrics_from_query, query_url, series_url, target_metrics_expr,
    targets_from_series, QueryData, QuerySample,
};
use cranberry::targets::{build_target_options, label_value, TargetFilter};
use cranberry::view::{format_metric_labels, history_point_label, history_rows_start, list_rows, window_start};
use cranberry::wrap::advance_wrapped_index;

fn s(text: &str) -> String {
    String::from(text)
}

fn target(job: &str, target: &str) -> TargetFilter {
    TargetFilter { job: s(job), target: s(target) }
}

fn entry(timestamp_ns: i64, line: &str) -> LogEntry {
    LogEntry { timestamp_ns, line: s(line) }
}

fn sample_app() -> App {
    App::new(PrometheusConfig::default(), DisplayConfig::default())
}

fn press(key: Key) -> KeyPress {
    KeyPress { key, ctrl: false }
}

#[test]
fn sample_source_loads_the_built_in_metrics() {
    let app = sample_app();
    assert_eq!(app.source_label, "sample");
    assert_eq!(app.metrics.len(), 5);
    assert_eq!(app.status, "loaded 5 metrics for all targets");
    assert_eq!(app.target_options, vec![TargetFilter::wildcard(), target("node", "localhost:9100")]);
    assert!(app.pending.is_none());
}

#[test]
fn prometheus_source_asks_for_targets_then_samples() {
    let mut app = App::new(
        PrometheusConfig { base_url: Some(s("http://prom:9090/")) },
        DisplayConfig::default(),
    );
    assert_eq!(app.source_label, "http://prom:9090/");
    assert_eq!(app.status, "initializing");
    match app.take_request() {
        Some(Request::FetchTargets { base_url }) => assert_eq!(base_url, "http://prom:9090/"),
        _ => panic!("expected a target request"),
    }
    assert!(app.pending.is_none());

    let options = targets_from_series(
        "success",
        vec![
            vec![(s("__name__"), s("up")), (s("instance"), s("b:1")), (s("job"), s("api"))],
            vec![(s("__name__"), s("up")), (s("instance"), s("a:1")), (s("job"), s("api"))],
            vec![(s("__name__"), s("up")), (s("job"), s("lonely"))],
        ],
    )
    .expect("series reply succeeds");
    app.complete_targets(Ok(options));
    assert_eq!(app.target_options, vec![TargetFilter::wildcard(), target("api", "a:1"), target("api", "b:1")]);
    match app.take_request() {
        Some(Request::FetchTargetMetrics { base_url, target: t }) => {
            assert_eq!(base_url, "http://prom:9090/");
            assert_eq!(t, TargetFilter::wildcard());
        }
        _ => panic!("expected a metrics request"),
    }

    let metrics = metrics_from_query(
        "success",
        Some(QueryData {
            result_type: s("vector"),
            result: vec![QuerySample {
                metric: vec![(s("__name__"), s("up")), (s("instance"), s("a:1")), (s("job"), s("api"))],
                value_text: s("1"),
            }],
        }),
    )
    .expect("query reply succeeds");
    app.complete_target_metrics(Ok(metrics));
    assert_eq!(app.metrics.len(), 1);
    assert_eq!(app.status, "loaded 1 metrics for all targets");

    app.next_target();
    match app.take_request() {
        Some(Request::FetchTargetMetrics { target: t, .. }) => assert_eq!(t, target("api", "a:1")),
        _ => panic!("expected a metrics request for the new target"),
    }

    app.complete_target_metrics(Err(s("connection refused")));
    assert_eq!(app.status, "fetch error: connection refused");
    assert!(app.metrics.is_empty());
    assert_eq!(app.target_options, vec![TargetFilter::wildcard()]);
}

#[test]
fn failed_target_fetch_resets_state() {
    let mut app = App::new(PrometheusConfig { base_url: Some(s("http://prom")) }, DisplayConfig::default());
    let _ = app.take_request();
    app.complete_targets(Err(s("timeout")));
    assert_eq!(app.status, "fetch error: timeout");
    assert_eq!(app.target_selected, 0);
    assert!(app.pending.is_none());
}

#[test]
fn upper_case_filter_matches_lower_case_metric_names() {
    let mut app = sample_app();
    app.push_filter_char('C');
    app.push_filter_char('P');
    app.push_filter_char('U');
    assert_eq!(app.metrics.len(), 1);
    assert_eq!(app.metrics[0].name, "process_cpu_seconds_total");
    assert_eq!(app.status, "filter metrics: CPU");
    app.pop_filter_char();
    assert_eq!(app.filter_query, "CP");
}

#[test]
fn filter_matches_label_values() {
    let mut app = sample_app();
    for ch in "500".chars() {
        app.push_filter_char(ch);
    }
    assert_eq!(app.metrics.len(), 1);
    assert_eq!(app.metrics[0].labels[1].1, "500");
}

#[test]
fn toggling_history_view_twice_restores_it() {
    let mut app = sample_app();
    let before = app.history_view;
    app.toggle_history_view();
    app.toggle_history_view();
    assert_eq!(app.history_view, before);
    assert_eq!(before, HistoryView::Graph);
    assert_eq!(HistoryView::Table.label(), "table");
}

#[test]
fn log_focus_cycles_in_three_steps() {
    let mut app = sample_app();
    for _ in 0..3 {
        app.next_log_focus();
    }
    assert_eq!(app.log_focus, LogFocus::Hosts);
    app.previous_log_focus();
    assert_eq!(app.log_focus, LogFocus::Tail);
    assert_eq!(app.status, "log pane focus: tail");
    app.next_log_focus();
    assert_eq!(app.log_focus, LogFocus::Hosts);
}

#[test]
fn cursor_moves_round_trip_and_wrap() {
    let mut app = sample_app();
    app.previous();
    assert_eq!(app.cursor, app.metrics.len() - 1);
    app.next();
    assert_eq!(app.cursor, 0);
    app.next();
    app.previous();
    assert_eq!(app.cursor, 0);
}

#[test]
fn toggling_selection_twice_restores_it() {
    let mut app = sample_app();
    app.toggle_metric_selection();
    assert_eq!(app.status, "selected up");
    assert_eq!(app.selected_metrics_len(), 1);
    app.toggle_metric_selection();
    assert_eq!(app.status, "unselected up");
    assert_eq!(app.selected_metrics_len(), 0);
    app.toggle_metric_selection();
    app.clear_metric_selection();
    assert_eq!(app.status, "selection cleared");
    assert_eq!(app.selected_metrics_len(), 0);
}

#[test]
fn target_picker_round_trip() {
    let mut app = sample_app();
    app.open_target_picker();
    assert_eq!(app.status, "select target and press Enter");
    app.picker_previous();
    assert_eq!(app.target_cursor, 1);
    app.close_target_picker();
    assert!(!app.target_picker_open);
    assert_eq!(app.target_selected, 0);
    assert_eq!(app.status, "loaded 5 metrics for all targets");
}

#[test]
fn filter_input_open_and_close() {
    let mut app = sample_app();
    app.open_filter_input();
    assert!(app.filter_input_open);
    assert_eq!(app.status, "filter metrics: ");
    app.close_filter_input();
    assert!(!app.filter_input_open);
    app.clear_filter();
    assert_eq!(app.status, "filter cleared");
}

#[test]
fn refresh_and_poll_intervals() {
    let app = sample_app();
    assert_eq!(app.refresh_secs(), 15);
    assert_eq!(app.log_poll_secs(), 1);
    let app = App::with_loki(
        PrometheusConfig::default(),
        LokiConfig { poll_secs: 0, ..LokiConfig::default() },
        DisplayConfig { refresh_secs: Some(7), ..DisplayConfig::default() },
    );
    assert_eq!(app.refresh_secs(), 7);
    assert_eq!(app.log_poll_secs(), 1);
    assert!(!app.is_logs_screen());
}

#[test]
fn max_metrics_caps_the_list() {
    let app = App::new(
        PrometheusConfig::default(),
        DisplayConfig { max_metrics: Some(0), initial_metric: None, refresh_secs: None },
    );
    assert!(app.metrics.is_empty());
    assert!(app.selected_metric().is_none());
    assert!(app.selected_metric_history().is_empty());
}

#[test]
fn logs_screen_requests_labels_then_entries() {
    let mut app = sample_app();
    app.open_logs();
    assert!(app.is_logs_screen());
    assert_eq!(app.status, "loading loki labels");
    assert!(matches!(app.take_request(), Some(Request::FetchLogHosts)));

    app.complete_log_hosts(Ok(vec![s("host-a"), s("host-b")]));
    assert!(matches!(app.take_request(), Some(Request::FetchLogNames)));

    app.complete_log_names(Ok(vec![s("kernel")]));
    match app.take_request() {
        Some(Request::PollLogs { host, log_name, since_ns }) => {
            assert_eq!(host, "host-a");
            assert_eq!(log_name, "kernel");
            assert_eq!(since_ns, None);
        }
        _ => panic!("expected a poll"),
    }

    app.complete_poll_logs(Ok(vec![entry(5, "boot"), entry(9, "ready")]));
    assert_eq!(app.status, "streaming logs for host-a / kernel (2 shown)");
    assert_eq!(app.last_log_timestamp_ns, Some(9));

    app.refresh_logs();
    match app.take_request() {
        Some(Request::PollLogs { since_ns, .. }) => assert_eq!(since_ns, Some(9)),
        _ => panic!("expected a poll"),
    }

    app.complete_poll_logs(Err(s("503")));
    assert_eq!(app.status, "loki log fetch error: 503");

    app.close_logs();
    assert!(!app.is_logs_screen());
}

#[test]
fn log_label_errors_are_reported() {
    let mut app = sample_app();
    app.complete_log_hosts(Err(s("refused")));
    assert_eq!(app.status, "no loki host/log labels available");
    app.log_hosts = vec![s("h")];
    app.log_names = vec![s("n")];
    app.complete_log_names(Err(s("bad gateway")));
    assert!(matches!(app.take_request(), Some(Request::PollLogs { .. })));
    assert_eq!(app.status, "loki log labels error: bad gateway");
}

#[test]
fn logs_without_loki_say_so() {
    let mut app = App::with_loki(
        PrometheusConfig::default(),
        LokiConfig { base_url: None, ..LokiConfig::default() },
        DisplayConfig::default(),
    );
    app.open_logs();
    assert_eq!(app.status, "loki is not configured");
    assert!(!app.is_logs_screen());
    app.reload_logs_screen();
    assert_eq!(app.status, "loki is not configured");
}

#[test]
fn log_entries_are_capped() {
    let mut app = sample_app();
    let entries: Vec<LogEntry> = (0..(LOG_ENTRY_LIMIT as i64 + 1)).map(|t| entry(t, "x")).collect();
    app.append_log_entries(entries);
    assert_eq!(app.log_entries.len(), LOG_ENTRY_LIMIT);
    assert_eq!(app.log_entries[0].timestamp_ns, 1);
    assert_eq!(app.status, "streaming logs for - / - (3000 shown)");
}

#[test]
fn log_filter_is_case_insensitive() {
    let mut app = sample_app();
    app.log_entries = vec![entry(1, "ERROR disk full"), entry(2, "ok")];
    app.open_log_filter_input();
    assert_eq!(app.status, "filter logs: ");
    for ch in "error".chars() {
        app.push_log_filter_char(ch);
    }
    assert_eq!(app.visible_log_entries().len(), 1);
    app.pop_log_filter_char();
    assert_eq!(app.log_filter_query, "erro");
    app.close_log_filter_input();
    assert_eq!(app.status, "streaming logs for - / - (1 shown)");
}

#[test]
fn keys_drive_the_metric_screen() {
    let mut app = sample_app();
    assert_eq!(handle_main_key(&mut app, press(Key::Char('j'))), AppAction::Continue);
    assert_eq!(app.cursor, 1);
    assert_eq!(handle_main_key(&mut app, press(Key::Up)), AppAction::Continue);
    assert_eq!(app.cursor, 0);
    assert_eq!(handle_main_key(&mut app, press(Key::Char('r'))), AppAction::Reloaded);
    assert_eq!(handle_main_key(&mut app, press(Key::Char('q'))), AppAction::Quit);
    assert_eq!(handle_main_key(&mut app, press(Key::Char('l'))), AppAction::LogsReloaded);
    assert!(app.is_logs_screen());
    assert_eq!(handle_key(&mut app, press(Key::Tab)), AppAction::Continue);
    assert_eq!(app.log_focus, LogFocus::Logs);
    assert_eq!(handle_key(&mut app, press(Key::Char('/'))), AppAction::Continue);
    assert!(app.log_filter_input_open);
    handle_key(&mut app, press(Key::Char('a')));
    assert_eq!(app.log_filter_query, "a");
    handle_key(&mut app, KeyPress { key: Key::Char('u'), ctrl: true });
    assert_eq!(app.log_filter_query, "");
    handle_key(&mut app, press(Key::Esc));
    assert!(!app.log_filter_input_open);
    handle_key(&mut app, press(Key::Esc));
    assert!(!app.is_logs_screen());
    handle_key(&mut app, press(Key::Char('/')));
    handle_key(&mut app, press(Key::Char('z')));
    assert_eq!(app.filter_query, "z");
    handle_key(&mut app, press(Key::Backspace));
    handle_key(&mut app, press(Key::Enter));
    assert!(!app.filter_input_open);
    handle_key(&mut app, press(Key::Char('t')));
    handle_key(&mut app, press(Key::Down));
    handle_key(&mut app, press(Key::Enter));
    assert_eq!(app.selected_target(), &target("node", "localhost:9100"));
    assert_eq!(app.metrics.len(), 1);
}

#[test]
fn metric_parse_errors_name_the_line() {
    assert_eq!(parse_metrics("up 1\nbad x\n").unwrap_err(), "invalid value at line 2");
    assert_eq!(
        parse_metrics("up{job=\"a\" 1").unwrap_err(),
        "missing closing label brace at line 1"
    );
    assert_eq!(parse_metrics("lonely\n").unwrap_err(), "missing metric name at line 1");
    assert_eq!(parse_metrics("up{job=a} 1").unwrap_err(), "label value must be quoted at line 1");
    let ok = parse_metrics("# comment\r\n\r\nup +Inf\r\nnan_metric NaN\n").unwrap();
    assert_eq!(ok.len(), 2);
    assert!(ok[1].value.parse::<f64>().unwrap().is_nan());
}

#[test]
fn label_parsing_errors_and_escapes() {
    assert_eq!(parse_labels("abc").unwrap_err(), "invalid label entry");
    assert_eq!(parse_labels("a=b").unwrap_err(), "label value must be quoted");
    assert_eq!(parse_labels("a=\"x\\").unwrap_err(), "unfinished escape sequence");
    assert_eq!(
        parse_labels(" a =\"x\\ny\\\\z\" , b=\"\"").unwrap(),
        vec![(s("a"), s("x\ny\\z")), (s("b"), s(""))]
    );
    assert_eq!(parse_labels("").unwrap(), Vec::<(String, String)>::new());
    assert_eq!(parse_head("up").unwrap(), (s("up"), Vec::<(String, String)>::new()));
    assert_eq!(parse_head("up{a=\"1\"}").unwrap(), (s("up"), vec![(s("a"), s("1"))]));
    let chars: Vec<char> = ", ,a".chars().collect();
    let mut cursor = 0;
    skip_delimiters(&chars, &mut cursor);
    assert_eq!(cursor, 3);
}

#[test]
fn target_options_are_sorted_and_distinct() {
    let options = build_target_options(vec![
        target("b", "2"),
        target("a", "9"),
        target("b", "1"),
        target("a", "9"),
    ]);
    assert_eq!(
        options,
        vec![TargetFilter::wildcard(), target("a", "9"), target("b", "1"), target("b", "2")]
    );
    assert_eq!(TargetFilter::wildcard().display_text(), "all targets");
    assert_eq!(target("api", "a:1").display_text(), "api/a:1");
    let labels = vec![(s("job"), s("x")), (s("job"), s("y"))];
    assert_eq!(label_value(&labels, "job"), Some(s("x")));
    assert_eq!(label_value(&labels, "instance"), None);
}

#[test]
fn prometheus_queries() {
    assert_eq!(series_url("http://p:9090//"), "http://p:9090/api/v1/series");
    assert_eq!(query_url("http://p:9090"), "http://p:9090/api/v1/query");
    assert_eq!(escape_matcher("a\"b\\c"), "a\\\"b\\\\c");
    assert_eq!(target_metrics_expr(&TargetFilter::wildcard()), "{job!=\"\"}");
    assert_eq!(
        target_metrics_expr(&target("api", "a\"1")),
        "{job=\"api\",instance=\"a\\\"1\"}"
    );
    assert_eq!(targets_from_series("error", vec![]).unwrap_err(), "series status error");
}

#[test]
fn query_replies_are_checked() {
    assert_eq!(metrics_from_query("error", None).unwrap_err(), "query status error");
    assert_eq!(metrics_from_query("success", None).unwrap_err(), "missing response data");
    assert_eq!(
        metrics_from_query("success", Some(QueryData { result_type: s("matrix"), result: vec![] }))
            .unwrap_err(),
        "unsupported result type matrix"
    );
    let bad = QuerySample { metric: vec![], value_text: s("one") };
    assert_eq!(into_metric_sample(&bad).unwrap_err(), "invalid sample value");
    let unnamed = QuerySample { metric: vec![(s("job"), s("x"))], value_text: s("2.5") };
    let m: MetricSample = into_metric_sample(&unnamed).unwrap();
    assert_eq!(m.name, "unknown");
    assert_eq!(m.labels, vec![(s("job"), s("x"))]);
}

#[test]
fn loki_requests() {
    let client = LokiClient::new(LokiConfig::default()).expect("default Loki has an address");
    assert_eq!(client.lookback_secs(), 300);
    let hosts = client.hosts_query(1_000_000_000_000);
    assert_eq!(hosts.url, "http://127.0.0.1:3100/loki/api/v1/label/host/values");
    assert_eq!(
        hosts.params,
        vec![(s("start"), s("700000000000")), (s("end"), s("1000000000000"))]
    );
    let logs = client.logs_query(5);
    assert_eq!(logs.url, "http://127.0.0.1:3100/loki/api/v1/label/job/values");
    assert_eq!(logs.params[0].1, "-299999999995");
    let poll = client.poll_query("h\"1", "k", Some(41), 99);
    assert_eq!(poll.url, "http://127.0.0.1:3100/loki/api/v1/query_range");
    assert_eq!(
        poll.params,
        vec![
            (s("query"), s("{host=\"h\\\"1\",job=\"k\"}")),
            (s("start"), s("42")),
            (s("end"), s("99")),
            (s("limit"), s("200")),
            (s("direction"), s("forward")),
        ]
    );
    assert!(LokiClient::new(LokiConfig { base_url: None, ..LokiConfig::default() }).is_none());
}

#[test]
fn loki_replies_are_checked() {
    assert_eq!(
        label_values_from_reply("success", vec![s("b"), s(""), s("a"), s("b")]).unwrap(),
        vec![s("a"), s("b")]
    );
    assert_eq!(label_values_from_reply("fail", vec![]).unwrap_err(), "label status fail");
    let data = QueryRangeData {
        result_type: s("streams"),
        result: vec![
            LogStream { values: vec![(s("30"), s("c")), (s("10"), s("a"))] },
            LogStream { values: vec![(s("20"), s("b")), (s("10"), s("a2"))] },
        ],
    };
    assert_eq!(
        entries_from_reply("success", Some(data)).unwrap(),
        vec![entry(10, "a"), entry(10, "a2"), entry(20, "b"), entry(30, "c")]
    );
    let bad = QueryRangeData {
        result_type: s("streams"),
        result: vec![LogStream { values: vec![(s("x"), s("c"))] }],
    };
    assert_eq!(entries_from_reply("success", Some(bad)).unwrap_err(), "invalid log timestamp");
    assert_eq!(entries_from_reply("oops", None).unwrap_err(), "query_range status oops");
    assert_eq!(entries_from_reply("success", None).unwrap_err(), "missing response data");
}

#[test]
fn clock_reads_after_the_epoch() {
    let now = now_unix_nanos().expect("the clock reads after the epoch");
    assert!(now > 1_500_000_000_000_000_000);
    assert_eq!(nanos_to_i64(7), Ok(7));
    assert_eq!(nanos_to_i64(u128::MAX).unwrap_err(), "system clock overflow");
}

#[test]
fn wrapped_index_moves_both_ways() {
    let mut index = 0;
    assert!(advance_wrapped_index(&mut index, 3, -1));
    assert_eq!(index, 2);
    assert!(advance_wrapped_index(&mut index, 3, 4));
    assert_eq!(index, 0);
    assert!(!advance_wrapped_index(&mut index, 0, 1));
    assert_eq!(index, 0);
}

#[test]
fn log_levels_ignore_case() {
    assert_eq!(parse_level("WARN"), Ok(LogLevel::Warn));
    assert_eq!(parse_level("trace"), Ok(LogLevel::Trace));
    assert_eq!(parse_level("Debug"), Ok(LogLevel::Debug));
    assert_eq!(parse_level("info"), Ok(LogLevel::Info));
    assert_eq!(parse_level("ERROR"), Ok(LogLevel::Error));
    assert_eq!(parse_level("Verbose").unwrap_err(), "unsupported log level: Verbose");
    assert_eq!(to_ascii_lowercase("ÄbC"), "Äbc");
}

#[test]
fn command_line_arguments() {
    let args = parse_args(vec![]).unwrap();
    assert_eq!(args.config_path, "cranberry.toml");
    assert_eq!(args.base_url, None);
    let args = parse_args(vec![s("http://a"), s("--config"), s("x.toml"), s("http://b")]).unwrap();
    assert_eq!(args.config_path, "x.toml");
    assert_eq!(args.base_url, Some(s("http://b")));
    assert_eq!(parse_args(vec![s("--config")]).unwrap_err(), "missing path after --config");
    let config = apply_base_url_override(Config::default(), Some(s("http://c")));
    assert_eq!(config.prometheus.base_url, Some(s("http://c")));
    let config = apply_base_url_override(config, None);
    assert_eq!(config.prometheus.base_url, Some(s("http://c")));
}

#[test]
fn configuration_defaults() {
    let config = Config::default();
    assert_eq!(config.logging.path, "cranberry.log");
    assert_eq!(config.logging.level, "info");
    assert_eq!(config.loki.base_url, Some(s("http://127.0.0.1:3100")));
    assert_eq!(config.loki.host_label, "host");
    assert_eq!(config.loki.log_label, "job");
    assert_eq!(config.loki.poll_secs, 1);
    assert_eq!(config.loki.lookback_secs, 300);
    assert_eq!(config.prometheus.base_url, None);
}

#[test]
fn list_windows_and_rows() {
    assert_eq!(window_start(0, 10, 0), 0);
    assert_eq!(window_start(7, 5, 10), 0);
    assert_eq!(window_start(2, 10, 4), 0);
    assert_eq!(window_start(5, 10, 4), 2);
    assert_eq!(window_start(9, 10, 4), 6);
    let rows = list_rows(&vec![s("a"), s("b"), s("c")], 1, 5, 2);
    assert_eq!(rows, vec![s("  b"), s("> c")]);
    assert_eq!(history_rows_start(10, 4), 6);
    assert_eq!(history_rows_start(10, 0), 9);
    assert_eq!(history_rows_start(3, 4), 0);
    assert_eq!(history_point_label(3, 2), "now");
    assert_eq!(history_point_label(3, 0), "-2");
}

#[test]
fn metric_labels_text() {
    let m = MetricSample { name: s("up"), labels: vec![(s("a"), s("1")), (s("b"), s("2"))], value: s("1") };
    assert_eq!(format_metric_labels(&m), "a=\"1\"\nb=\"2\"");
    let bare = MetricSample { name: s("up"), labels: vec![], value: s("1") };
    assert_eq!(format_metric_labels(&bare), "none");
}

#[test]
fn sample_source_kind() {
    let app = sample_app();
    assert!(matches!(app.source, DataSource::Sample));
}

#[test]
fn parsing_undoes_label_escaping() {
    for value in ["plain", "say \"hi\"", "back\\slash", "", "\\\"mixed\\\""] {
        let text = format!("k=\"{}\"", escape_label_value(value));
        assert_eq!(parse_labels(&text).unwrap(), vec![(s("k"), s(value))]);
        let text = format!("k=\"{}\"", escape_matcher(value));
        assert_eq!(parse_labels(&text).unwrap(), vec![(s("k"), s(value))]);
    }
}

#[test]
fn event_loop_schedule() {
    let mut app = sample_app();
    assert_eq!(due_work(&app, 14_999_999_999, 0), (false, false));
    assert_eq!(due_work(&app, 15_000_000_000, 5_000_000_000), (true, false));
    app.open_logs();
    assert_eq!(due_work(&app, 0, 999_999_999), (false, false));
    assert_eq!(due_work(&app, 0, 1_000_000_000), (false, true));
    assert_eq!(after_action(AppAction::Continue), (false, false, false));
    assert_eq!(after_action(AppAction::Reloaded), (true, false, false));
    assert_eq!(after_action(AppAction::LogsReloaded), (false, true, false));
    assert_eq!(after_action(AppAction::Quit), (false, false, true));
}

#[test]
fn prometheus_request_shapes() {
    let series = series_request("http://p/");
    assert_eq!(series.url, "http://p/api/v1/series");
    assert_eq!(series.params, vec![(s("match[]"), s("up"))]);
    assert_eq!(series.timeout_secs, 5);
    let query = target_metrics_request("http://p", &target("api", "a"));
    assert_eq!(query.url, "http://p/api/v1/query");
    assert_eq!(query.params, vec![(s("query"), s("{job=\"api\",instance=\"a\"}"))]);
    assert_eq!(query.timeout_secs, 10);
}

#[test]
fn polls_after_an_entry_need_no_lookback_window() {
    let client = LokiClient::new(LokiConfig { lookback_secs: u64::MAX, ..LokiConfig::default() }).unwrap();
    assert!(!client.lookback_in_range());
    let poll = client.poll_query("h", "k", Some(i64::MAX), 7);
    assert_eq!(poll.params[1], (s("start"), i64::MAX.to_string()));
    assert_eq!(poll.timeout_secs, 5);
}

#[test]
fn empty_log_filter_shows_every_entry() {
    let mut app = sample_app();
    app.log_entries = vec![entry(1, "a"), entry(2, "B")];
    assert_eq!(app.visible_log_entries().len(), 2);
    app.scroll_log_tail_to_oldest();
    assert_eq!(app.log_tail_scroll_offset(), 1);
}

#[test]
fn parsing_undoes_escaping_of_label_lists() {
    let labels = vec![
        (s("handler"), s("/api/v1,internal")),
        (s("message"), s("say \"hello\"\\now")),
        (s("multi"), s("line\nbreak")),
        (s("empty"), s("")),
    ];
    let text = labels
        .iter()
        .map(|(k, v)| format!("{k}=\"{}\"", escape_label_value(v)))
        .collect::<Vec<_>>()
        .join(",");
    assert_eq!(parse_labels(&text).unwrap(), labels);
}

#[test]
fn cursor_goes_to_initial_metric_when_selected_metric_disappears() {
    let mut app = App::new(
        PrometheusConfig::default(),
        DisplayConfig { max_metrics: None, initial_metric: Some(s("b")), refresh_secs: None },
    );
    app.reload_from_str("a 1\nb 2\nc 3\n");
    assert_eq!(app.cursor, 1);
    app.next();
    assert_eq!(app.metrics[app.cursor].name, "c");
    app.reload_from_str("a 1\nb 2\n");
    assert_eq!(app.cursor, 1);
    app.reload_from_str("x 1\n");
    assert_eq!(app.cursor, 0);
    app.reload_from_str("bad line\n");
    assert!(app.metrics.is_empty());
    assert_eq!(app.cursor, 0);
}
