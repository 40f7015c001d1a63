# Cranberry

Cranberry is a terminal dashboard for Prometheus metrics and Loki logs. This
crate is its core, written in Verus: every function in `src/` carries a
contract that Verus proves.

## Layout

- `src/prometheus.rs`: the text exposition format (`parse_metrics`, `parse_head`,
  `parse_labels`), with the sample values kept as the text of a number.
- `src/numbers.rs`: which texts are numbers, and integer texts.
- `src/text.rs`: character-level helpers: trimming, decimal text, substring
  search, the text order, quoting.
- `src/targets.rs`: target filters and the sorted, distinct target options.
- `src/queries.rs`: the Prometheus API requests and what their replies yield.
- `src/loki.rs`: the Loki requests, what their replies yield, and the clock.
- `src/config.rs`: the settings and their defaults.
- `src/app.rs`: the metric screen: list, filters, target picker, selection,
  value histories, loading and failure.
- `src/logs.rs`: the log screen: host and log lists, the filtered tail, and what
  is remembered of each host's log.
- `src/keys.rs`: what each key does on each screen.
- `src/schedule.rs`: when the event loop reloads metrics and polls logs.
- `src/view.rs`: list windows and the text of panels.
- `src/cli.rs`, `src/logging.rs`: the command line and log levels.
- `src/wrap.rs`: cyclic cursor movement.
- `src/laws.rs`: properties that span operations.
- `app/`: the program around the library: terminal, HTTP, settings file, log
  file and drawing.

The dashboard state never performs a request itself. An operation that needs
data leaves a `Request` in `App::pending`; the program takes it with
`App::take_request`, sends it, and hands the decoded reply to the matching
`App::complete_*` method.
