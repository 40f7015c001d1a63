use cranberry::app::{App, HistoryView, LogFocus, HISTORY_LIMIT};
use cranberry::config::{DisplayConfig, PrometheusConfig};
use cranberry::loki::LogEntry;
use cranberry::targets::TargetFilter;

fn history_values(app: &App) -> Vec<f64> {
    app.selected_metric_history()
        .iter()
        .map(|value| value.parse::<f64>().expect("history values are numbers"))
        .collect()
}

#[test]
fn applies_display_config_after_reload() {
    let mut app = App::new(
        PrometheusConfig::default(),
        DisplayConfig {
            max_metrics: Some(2),
            initial_metric: Some(String::from("http_requests_total")),
            refresh_secs: None,
        },
    );

    app.reload_from_str(
        "up{job=\"node\"} 1\nhttp_requests_total{code=\"200\"} 2\nprocess_cpu_seconds_total 3\n",
    );

    assert_eq!(app.metrics.len(), 2);
    assert_eq!(app.cursor, 1);
    assert_eq!(app.metrics[app.cursor].name, "http_requests_total");
}

#[test]
fn filters_metrics_by_selected_target() {
    let mut app = App::new(
        PrometheusConfig::default(),
        DisplayConfig {
            max_metrics: None,
            initial_metric: None,
            refresh_secs: None,
        },
    );

    app.reload_from_str(
        "up{job=\"api\",instance=\"a:9090\"} 1\nrequests_total{job=\"api\",instance=\"a:9090\"} 2\nup{job=\"api\",instance=\"b:9090\"} 1\n",
    );

    assert_eq!(app.target_options.len(), 3);
    app.next_target();
    assert_eq!(
        app.selected_target(),
        &TargetFilter {
            job: String::from("api"),
            target: String::from("a:9090"),
        }
    );
    assert_eq!(app.metrics.len(), 2);

    app.next_target();
    assert_eq!(app.metrics.len(), 1);
    assert_eq!(app.selected_target().target, "b:9090");
}

#[test]
fn applies_target_picker_selection() {
    let mut app = App::new(
        PrometheusConfig::default(),
        DisplayConfig {
            max_metrics: None,
            initial_metric: None,
            refresh_secs: None,
        },
    );

    app.reload_from_str(
        "up{job=\"api\",instance=\"a:9090\"} 1\nup{job=\"api\",instance=\"b:9090\"} 1\n",
    );
    app.open_target_picker();
    app.picker_next();
    app.picker_next();
    app.picker_apply();

    assert!(!app.target_picker_open);
    assert_eq!(app.selected_target().target, "b:9090");
    assert_eq!(app.metrics.len(), 1);
}

#[test]
fn keeps_target_picker_open_and_cursor_position_after_reload() {
    let mut app = App::new(
        PrometheusConfig::default(),
        DisplayConfig {
            max_metrics: None,
            initial_metric: None,
            refresh_secs: None,
        },
    );

    app.reload_from_str(
        "up{job=\"api\",instance=\"a:9090\"} 1\nup{job=\"api\",instance=\"b:9090\"} 1\n",
    );
    app.open_target_picker();
    app.picker_next();
    app.picker_next();

    app.reload_from_str(
        "up{job=\"api\",instance=\"a:9090\"} 2\nup{job=\"api\",instance=\"b:9090\"} 2\n",
    );

    assert!(app.target_picker_open);
    assert_eq!(app.selected_target(), &TargetFilter::wildcard());
    assert_eq!(app.target_options[app.target_cursor].target, "b:9090");
}

#[test]
fn falls_back_when_picker_cursor_target_disappears_after_reload() {
    let mut app = App::new(
        PrometheusConfig::default(),
        DisplayConfig {
            max_metrics: None,
            initial_metric: None,
            refresh_secs: None,
        },
    );

    app.reload_from_str(
        "up{job=\"api\",instance=\"a:9090\"} 1\nup{job=\"api\",instance=\"b:9090\"} 1\n",
    );
    app.open_target_picker();
    app.picker_next();
    app.picker_next();

    app.reload_from_str("up{job=\"api\",instance=\"a:9090\"} 2\n");

    assert!(app.target_picker_open);
    assert_eq!(app.selected_target(), &TargetFilter::wildcard());
    assert_eq!(app.target_cursor, app.target_selected);
    assert_eq!(app.status, "loaded 1 metrics for all targets (previous picker cursor target is no longer available)");
}

#[test]
fn filters_metrics_by_text_query() {
    let mut app = App::new(
        PrometheusConfig::default(),
        DisplayConfig {
            max_metrics: None,
            initial_metric: None,
            refresh_secs: None,
        },
    );

    app.reload_from_str(
        "up{job=\"api\",instance=\"a:9090\"} 1\ngpu_temperature_celsius{job=\"api\",instance=\"a:9090\",gpu=\"0\"} 70\nrequests_total{job=\"api\",instance=\"a:9090\"} 2\n",
    );
    app.push_filter_char('g');
    app.push_filter_char('p');
    app.push_filter_char('u');

    assert_eq!(app.metrics.len(), 1);
    assert_eq!(app.metrics[0].name, "gpu_temperature_celsius");

    app.clear_filter();
    assert_eq!(app.metrics.len(), 3);
}

#[test]
fn keeps_selected_metric_on_reload() {
    let mut app = App::new(
        PrometheusConfig::default(),
        DisplayConfig {
            max_metrics: None,
            initial_metric: Some(String::from("up")),
            refresh_secs: None,
        },
    );

    app.reload_from_str(
        "up{job=\"api\",instance=\"a:9090\"} 1\ngpu_temperature_celsius{job=\"api\",instance=\"a:9090\",gpu=\"0\"} 70\nrequests_total{job=\"api\",instance=\"a:9090\"} 2\n",
    );
    app.next();
    assert_eq!(app.metrics[app.cursor].name, "gpu_temperature_celsius");

    app.reload_from_str(
        "up{job=\"api\",instance=\"a:9090\"} 1\ngpu_temperature_celsius{job=\"api\",instance=\"a:9090\",gpu=\"0\"} 71\nrequests_total{job=\"api\",instance=\"a:9090\"} 3\n",
    );

    assert_eq!(app.metrics[app.cursor].name, "gpu_temperature_celsius");
}

#[test]
fn keeps_text_filter_applied_after_reload() {
    let mut app = App::new(
        PrometheusConfig::default(),
        DisplayConfig {
            max_metrics: None,
            initial_metric: None,
            refresh_secs: None,
        },
    );

    app.reload_from_str(
        "up{job=\"api\",instance=\"a:9090\"} 1\ngpu_temperature_celsius{job=\"api\",instance=\"a:9090\",gpu=\"0\"} 70\nrequests_total{job=\"api\",instance=\"a:9090\"} 2\n",
    );
    app.push_filter_char('g');
    app.push_filter_char('p');
    app.push_filter_char('u');
    assert_eq!(app.metrics.len(), 1);

    app.reload_from_str(
        "up{job=\"api\",instance=\"a:9090\"} 1\ngpu_temperature_celsius{job=\"api\",instance=\"a:9090\",gpu=\"0\"} 71\nrequests_total{job=\"api\",instance=\"a:9090\"} 3\n",
    );

    assert_eq!(app.metrics.len(), 1);
    assert_eq!(app.metrics[0].name, "gpu_temperature_celsius");
}

#[test]
fn filters_log_entries_by_text_query() {
    let mut app = App::new(PrometheusConfig::default(), DisplayConfig::default());
    app.log_entries = vec![
        LogEntry {
            timestamp_ns: 1,
            line: String::from("tailscaled: upload failed 429"),
        },
        LogEntry {
            timestamp_ns: 2,
            line: String::from("sshd: accepted publickey"),
        },
    ];

    app.push_log_filter_char('4');
    app.push_log_filter_char('2');
    app.push_log_filter_char('9');

    let visible = app.visible_log_entries();
    assert_eq!(visible.len(), 1);
    assert_eq!(visible[0].line, "tailscaled: upload failed 429");

    app.clear_log_filter();
    assert_eq!(app.visible_log_entries().len(), 2);
}

#[test]
fn keeps_log_filter_applied_when_new_entries_arrive() {
    let mut app = App::new(PrometheusConfig::default(), DisplayConfig::default());
    app.log_entries = vec![LogEntry {
        timestamp_ns: 1,
        line: String::from("tailscaled: upload failed 429"),
    }];
    app.push_log_filter_char('t');
    app.push_log_filter_char('a');
    app.push_log_filter_char('i');
    app.push_log_filter_char('l');

    app.log_entries.push(LogEntry {
        timestamp_ns: 2,
        line: String::from("kernel: link is up"),
    });

    let visible = app.visible_log_entries();
    assert_eq!(visible.len(), 1);
    assert_eq!(visible[0].line, "tailscaled: upload failed 429");
}

#[test]
fn cycles_log_focus_across_tail_pane() {
    let mut app = App::new(PrometheusConfig::default(), DisplayConfig::default());

    assert_eq!(app.log_focus, LogFocus::Hosts);

    app.next_log_focus();
    assert_eq!(app.log_focus, LogFocus::Logs);

    app.next_log_focus();
    assert_eq!(app.log_focus, LogFocus::Tail);

    app.previous_log_focus();
    assert_eq!(app.log_focus, LogFocus::Logs);
}

#[test]
fn scrolls_tail_offset_and_clamps_to_visible_logs() {
    let mut app = App::new(PrometheusConfig::default(), DisplayConfig::default());
    app.log_entries = vec![
        LogEntry {
            timestamp_ns: 1,
            line: String::from("line 1"),
        },
        LogEntry {
            timestamp_ns: 2,
            line: String::from("line 2"),
        },
        LogEntry {
            timestamp_ns: 3,
            line: String::from("line 3"),
        },
    ];

    app.scroll_log_tail_up(1);
    assert_eq!(app.log_tail_scroll_offset(), 1);

    app.scroll_log_tail_up(10);
    assert_eq!(app.log_tail_scroll_offset(), 2);

    app.scroll_log_tail_down(1);
    assert_eq!(app.log_tail_scroll_offset(), 1);

    app.push_log_filter_char('3');
    assert_eq!(app.log_tail_scroll_offset(), 0);

    app.clear_log_filter();
    app.scroll_log_tail_to_oldest();
    assert_eq!(app.log_tail_scroll_offset(), 2);

    app.scroll_log_tail_to_latest();
    assert_eq!(app.log_tail_scroll_offset(), 0);
}

#[test]
fn preserves_tail_scroll_position_when_new_matching_entries_arrive() {
    let mut app = App::new(PrometheusConfig::default(), DisplayConfig::default());
    app.log_entries = vec![
        LogEntry {
            timestamp_ns: 1,
            line: String::from("match 1"),
        },
        LogEntry {
            timestamp_ns: 2,
            line: String::from("match 2"),
        },
        LogEntry {
            timestamp_ns: 3,
            line: String::from("match 3"),
        },
    ];

    app.scroll_log_tail_up(1);
    app.append_log_entries(vec![LogEntry {
        timestamp_ns: 4,
        line: String::from("match 4"),
    }]);
    assert_eq!(app.log_tail_scroll_offset(), 2);

    app.push_log_filter_char('1');
    app.scroll_log_tail_to_latest();
    app.append_log_entries(vec![LogEntry {
        timestamp_ns: 5,
        line: String::from("other"),
    }]);
    assert_eq!(app.log_tail_scroll_offset(), 0);
}

#[test]
fn preserves_loaded_logs_per_host_and_log_selection() {
    let mut app = App::new(PrometheusConfig::default(), DisplayConfig::default());
    app.log_hosts = vec![String::from("host-a"), String::from("host-b")];
    app.log_names = vec![String::from("kernel"), String::from("tailscaled")];

    app.log_entries = vec![
        LogEntry {
            timestamp_ns: 1,
            line: String::from("host-a kernel line 1"),
        },
        LogEntry {
            timestamp_ns: 2,
            line: String::from("host-a kernel line 2"),
        },
    ];
    app.last_log_timestamp_ns = Some(2);
    app.log_tail_offset = 1;
    app.store_current_log_stream();

    app.log_focus = LogFocus::Logs;
    app.next_log_option();
    assert!(app.log_entries.is_empty());
    assert_eq!(app.last_log_timestamp_ns, None);
    assert_eq!(app.log_tail_scroll_offset(), 0);

    app.log_entries = vec![LogEntry {
        timestamp_ns: 3,
        line: String::from("host-a tailscaled line"),
    }];
    app.last_log_timestamp_ns = Some(3);
    app.log_tail_offset = 0;
    app.store_current_log_stream();

    app.log_focus = LogFocus::Hosts;
    app.next_log_option();
    assert!(app.log_entries.is_empty());
    assert_eq!(app.last_log_timestamp_ns, None);
    assert_eq!(app.log_tail_scroll_offset(), 0);

    app.log_entries = vec![
        LogEntry {
            timestamp_ns: 4,
            line: String::from("host-b tailscaled line 1"),
        },
        LogEntry {
            timestamp_ns: 5,
            line: String::from("host-b tailscaled line 2"),
        },
        LogEntry {
            timestamp_ns: 6,
            line: String::from("host-b tailscaled line 3"),
        },
    ];
    app.last_log_timestamp_ns = Some(6);
    app.log_tail_offset = 2;
    app.store_current_log_stream();

    app.previous_log_option();
    assert_eq!(app.selected_log_host(), Some("host-a"));
    assert_eq!(app.selected_log_name(), Some("tailscaled"));
    assert_eq!(
        app.log_entries,
        vec![LogEntry {
            timestamp_ns: 3,
            line: String::from("host-a tailscaled line"),
        }]
    );
    assert_eq!(app.last_log_timestamp_ns, Some(3));
    assert_eq!(app.log_tail_scroll_offset(), 0);

    app.log_focus = LogFocus::Logs;
    app.previous_log_option();
    assert_eq!(app.selected_log_host(), Some("host-a"));
    assert_eq!(app.selected_log_name(), Some("kernel"));
    assert_eq!(
        app.log_entries,
        vec![
            LogEntry {
                timestamp_ns: 1,
                line: String::from("host-a kernel line 1"),
            },
            LogEntry {
                timestamp_ns: 2,
                line: String::from("host-a kernel line 2"),
            },
        ]
    );
    assert_eq!(app.last_log_timestamp_ns, Some(2));
    assert_eq!(app.log_tail_scroll_offset(), 1);
}

#[test]
fn accumulates_selected_metric_history_across_reloads() {
    let mut app = App::new(
        PrometheusConfig::default(),
        DisplayConfig {
            max_metrics: None,
            initial_metric: Some(String::from("gpu_temperature_celsius")),
            refresh_secs: None,
        },
    );

    app.reload_from_str(
        "up{job=\"api\",instance=\"a:9090\"} 1\ngpu_temperature_celsius{job=\"api\",instance=\"a:9090\",gpu=\"0\"} 70\n",
    );
    app.reload_from_str(
        "up{job=\"api\",instance=\"a:9090\"} 1\ngpu_temperature_celsius{job=\"api\",instance=\"a:9090\",gpu=\"0\"} 71\n",
    );
    app.reload_from_str(
        "up{job=\"api\",instance=\"a:9090\"} 1\ngpu_temperature_celsius{job=\"api\",instance=\"a:9090\",gpu=\"0\"} 69\n",
    );

    assert_eq!(
        app.selected_metric().map(|metric| metric.name.as_str()),
        Some("gpu_temperature_celsius")
    );
    assert_eq!(history_values(&app), vec![70.0, 71.0, 69.0]);
}

#[test]
fn caps_metric_history_to_history_limit() {
    let mut app = App::new(
        PrometheusConfig::default(),
        DisplayConfig {
            max_metrics: None,
            initial_metric: Some(String::from("up")),
            refresh_secs: None,
        },
    );

    for value in 0..(HISTORY_LIMIT + 5) {
        app.reload_from_str(&format!("up{{job=\"api\",instance=\"a:9090\"}} {value}\n"));
    }

    let expected: Vec<f64> = (5..(HISTORY_LIMIT + 5)).map(|value| value as f64).collect();
    assert_eq!(history_values(&app), expected);
}

#[test]
fn toggles_multiple_metric_selection() {
    let mut app = App::new(
        PrometheusConfig::default(),
        DisplayConfig {
            max_metrics: None,
            initial_metric: None,
            refresh_secs: None,
        },
    );

    app.reload_from_str(
        "up{job=\"api\",instance=\"a:9090\"} 1\ngpu_temperature_celsius{job=\"api\",instance=\"a:9090\",gpu=\"0\"} 70\nrequests_total{job=\"api\",instance=\"a:9090\"} 2\n",
    );

    app.toggle_metric_selection();
    app.next();
    app.toggle_metric_selection();

    assert_eq!(app.selected_metrics_len(), 2);
    assert!(app.is_metric_selected(&app.metrics[0]));
    assert!(app.is_metric_selected(&app.metrics[1]));

    app.previous();
    app.toggle_metric_selection();

    assert_eq!(app.selected_metrics_len(), 1);
    assert!(!app.is_metric_selected(&app.metrics[0]));
    assert!(app.is_metric_selected(&app.metrics[1]));
}

#[test]
fn retains_only_visible_selected_metrics_after_filtering() {
    let mut app = App::new(
        PrometheusConfig::default(),
        DisplayConfig {
            max_metrics: None,
            initial_metric: None,
            refresh_secs: None,
        },
    );

    app.reload_from_str(
        "up{job=\"api\",instance=\"a:9090\"} 1\ngpu_temperature_celsius{job=\"api\",instance=\"a:9090\",gpu=\"0\"} 70\nrequests_total{job=\"api\",instance=\"a:9090\"} 2\n",
    );

    app.toggle_metric_selection();
    app.next();
    app.toggle_metric_selection();
    assert_eq!(app.selected_metrics_len(), 2);

    app.push_filter_char('g');
    app.push_filter_char('p');
    app.push_filter_char('u');

    assert_eq!(app.metrics.len(), 1);
    assert_eq!(app.selected_metrics_len(), 1);
    assert_eq!(app.metrics[0].name, "gpu_temperature_celsius");
    assert!(app.is_metric_selected(&app.metrics[0]));
}

#[test]
fn filters_metrics_by_target_label_when_instance_is_missing() {
    let mut app = App::new(
        PrometheusConfig::default(),
        DisplayConfig {
            max_metrics: None,
            initial_metric: None,
            refresh_secs: None,
        },
    );

    app.reload_from_str(
        "up{job=\"api\",target=\"alpha\"} 1\nrequests_total{job=\"api\",target=\"alpha\"} 2\nup{job=\"api\",target=\"beta\"} 1\n",
    );

    assert_eq!(app.target_options.len(), 3);
    app.next_target();
    assert_eq!(app.selected_target().target, "alpha");
    assert_eq!(app.metrics.len(), 2);

    app.next_target();
    assert_eq!(app.selected_target().target, "beta");
    assert_eq!(app.metrics.len(), 1);
}

#[test]
fn resets_loaded_state_after_parse_error() {
    let mut app = App::new(
        PrometheusConfig::default(),
        DisplayConfig {
            max_metrics: None,
            initial_metric: None,
            refresh_secs: None,
        },
    );

    app.reload_from_str(
        "up{job=\"api\",instance=\"a:9090\"} 1\nrequests_total{job=\"api\",instance=\"a:9090\"} 2\n",
    );
    app.toggle_metric_selection();
    app.open_target_picker();

    app.reload_from_str("up{job=\"api\" 1\n");

    assert!(app.metrics.is_empty());
    assert!(app.selected_metric().is_none());
    assert_eq!(app.selected_metrics_len(), 0);
    assert_eq!(app.target_options, vec![TargetFilter::wildcard()]);
    assert!(!app.target_picker_open);
    assert!(app.status.starts_with("parse error:"));
}

#[test]
fn toggles_history_view_mode() {
    let mut app = App::new(PrometheusConfig::default(), DisplayConfig::default());

    assert_eq!(app.history_view, HistoryView::Graph);

    app.toggle_history_view();
    assert_eq!(app.history_view, HistoryView::Table);
    assert_eq!(app.status, "history view: table");

    app.toggle_history_view();
    assert_eq!(app.history_view, HistoryView::Graph);
    assert_eq!(app.status, "history view: graph");
}
