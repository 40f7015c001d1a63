//! The dashboard state: the metric list with its target and text filters,
//! the target picker, per-metric value history, multi-selection, and the log
//! screen with its per-stream memory. Fetching is not done here: an operation
//! that needs data from Prometheus or Loki leaves a [`Request`] behind, and
//! the caller hands the reply back to the matching `complete_*` method.

use vstd::prelude::*;
use crate::config::{DisplayConfig, LokiConfig, PrometheusConfig};
use crate::loki::{LogEntry, LokiClient, EntryView, texts_view};
use crate::prometheus::{LabelsView, MetricSample, SampleView, parse_metrics, parse_metrics_spec, samples_view};
use crate::targets::{TargetFilter, TargetView, build_target_options, lemma_contains_push, wildcard_view, label_value, label_value_spec, same_target, target_display, target_options_spec, targets_view};
use crate::wrap::{advance_wrapped_index, wrapped};
use crate::schedule::refresh_value;
use crate::text::{chars_of, contains_text, has_substring, lowercase, needle_text, pop_char, push_char, text_eq, to_lowercase, usize_text};

verus! {

/// How many values the history of one metric keeps.
pub const HISTORY_LIMIT: usize = 60;

/// How many log entries the log screen keeps.
pub const LOG_ENTRY_LIMIT: usize = 3000;

/// How the history of the selected metric is drawn.
#[derive(Clone, Copy, Debug, PartialEq, Eq, Structural)]
pub enum HistoryView {
    Graph,
    Table,
}

/// Which screen is shown.
#[derive(Clone, Copy, Debug, PartialEq, Eq, Structural)]
pub enum ScreenMode {
    Metrics,
    Logs,
}

/// Which pane of the log screen has the focus.
#[derive(Clone, Copy, Debug, PartialEq, Eq, Structural)]
pub enum LogFocus {
    Hosts,
    Logs,
    Tail,
}

/// The name of a history view.
pub open spec fn history_label(v: HistoryView) -> Seq<char> {
    match v {
        HistoryView::Graph => "graph"@,
        HistoryView::Table => "table"@,
    }
}

/// The name of a log pane.
pub open spec fn focus_label(f: LogFocus) -> Seq<char> {
    match f {
        LogFocus::Hosts => "hosts"@,
        LogFocus::Logs => "logs"@,
        LogFocus::Tail => "tail"@,
    }
}

impl HistoryView {
    /// The view's name.
    pub fn label(self) -> (s: &'static str)
        ensures
            s@ == history_label(self),
    {
        match self {
            HistoryView::Graph => "graph",
            HistoryView::Table => "table",
        }
    }
}

impl LogFocus {
    /// The pane's name.
    pub fn label(self) -> (s: &'static str)
        ensures
            s@ == focus_label(self),
    {
        match self {
            LogFocus::Hosts => "hosts",
            LogFocus::Logs => "logs",
            LogFocus::Tail => "tail",
        }
    }
}

/// What identifies a metric across reloads: its name and labels.
pub type KeyView = (Seq<char>, LabelsView);

/// The key of a sample.
pub open spec fn sample_key(m: SampleView) -> KeyView {
    (m.0, m.1)
}

/// The target a sample reports: its `instance` label, else its `target` label.
pub open spec fn target_label(l: LabelsView) -> Option<Seq<char>> {
    match label_value_spec(l, "instance"@) {
        Some(v) => Some(v),
        None => label_value_spec(l, "target"@),
    }
}

/// Whether a sample belongs to a target filter.
pub open spec fn matches_target(t: TargetView, m: SampleView) -> bool {
    t.0 == seq!['*'] || (label_value_spec(m.1, "job"@) == Some(t.0) && target_label(m.1) == Some(t.1))
}

/// Whether a label's name or value holds `needle`, ignoring case.
pub open spec fn label_matches(needle: Seq<char>, p: (Seq<char>, Seq<char>)) -> bool {
    has_substring(lowercase(p.0), needle) || has_substring(lowercase(p.1), needle)
}

/// Whether a sample passes the text filter whose lowercase text is `needle`.
pub open spec fn matches_filter(needle: Seq<char>, m: SampleView) -> bool {
    ||| needle.len() == 0
    ||| has_substring(lowercase(m.0), needle)
    ||| exists|i: int| 0 <= i < m.1.len() && label_matches(needle, #[trigger] m.1[i])
}

/// The samples that a target and a text filter keep.
pub open spec fn shown(t: TargetView, needle: Seq<char>) -> spec_fn(SampleView) -> bool {
    |m: SampleView| matches_target(t, m) && matches_filter(needle, m)
}

/// At most `max` leading elements.
pub open spec fn capped<A>(s: Seq<A>, max: Option<usize>) -> Seq<A> {
    match max {
        Some(n) => if s.len() > n {
            s.take(n as int)
        } else {
            s
        },
        None => s,
    }
}

/// The metric list: the samples the filters keep, in load order, cut to `max`.
pub open spec fn visible_metrics(
    all: Seq<SampleView>,
    t: TargetView,
    needle: Seq<char>,
    max: Option<usize>,
) -> Seq<SampleView> {
    capped(all.filter(shown(t, needle)), max)
}

/// Whether a log entry passes the log filter whose lowercase text is `needle`.
pub open spec fn matches_log_filter(needle: Seq<char>, e: EntryView) -> bool {
    needle.len() == 0 || has_substring(lowercase(e.1), needle)
}

/// The log entries that the log filter keeps.
pub open spec fn log_shown(needle: Seq<char>) -> spec_fn(EntryView) -> bool {
    |e: EntryView| matches_log_filter(needle, e)
}

/// A copy of a label list.
pub fn copy_labels(l: &Vec<(String, String)>) -> (r: Vec<(String, String)>)
    ensures
        r.deep_view() == l.deep_view(),
{
    let mut r: Vec<(String, String)> = Vec::new();
    let mut i: usize = 0;
    while i < l.len()
        invariant
            0 <= i <= l.len(),
            r.deep_view() == l.deep_view().take(i as int),
        decreases l.len() - i,
    {
        let ghost before = r.deep_view();
        r.push((l[i].0.clone(), l[i].1.clone()));
        assert(r.deep_view() =~= before.push(l.deep_view()[i as int]));
        assert(l.deep_view().take(i + 1) =~= l.deep_view().take(i as int).push(l.deep_view()[i as int]));
        i += 1;
    }
    assert(l.deep_view().take(l.len() as int) =~= l.deep_view());
    r
}

/// A copy of a sample.
pub fn copy_sample(m: &MetricSample) -> (r: MetricSample)
    ensures
        r@ == m@,
{
    MetricSample { name: m.name.clone(), labels: copy_labels(&m.labels), value: m.value.clone() }
}

/// A copy of a run of texts.
pub fn copy_texts(v: &Vec<String>) -> (r: Vec<String>)
    ensures
        texts_view(r@) == texts_view(v@),
{
    let mut r: Vec<String> = Vec::new();
    let mut i: usize = 0;
    while i < v.len()
        invariant
            0 <= i <= v.len(),
            texts_view(r@) == texts_view(v@.take(i as int)),
        decreases v.len() - i,
    {
        let ghost before = r@;
        r.push(v[i].clone());
        assert(texts_view(r@) =~= texts_view(before).push(v@[i as int]@));
        assert(texts_view(v@.take(i + 1)) =~= texts_view(v@.take(i as int)).push(v@[i as int]@));
        i += 1;
    }
    assert(v@.take(v.len() as int) =~= v@);
    r
}

/// Whether two label lists are the same.
pub fn same_labels(a: &Vec<(String, String)>, b: &Vec<(String, String)>) -> (r: bool)
    ensures
        r == (a.deep_view() == b.deep_view()),
{
    if a.len() != b.len() {
        assert(a.deep_view().len() != b.deep_view().len());
        return false;
    }
    let mut i: usize = 0;
    while i < a.len()
        invariant
            a.len() == b.len(),
            0 <= i <= a.len(),
            forall|k: int| 0 <= k < i ==> a.deep_view()[k] == b.deep_view()[k],
        decreases a.len() - i,
    {
        if !text_eq(a[i].0.as_str(), b[i].0.as_str()) || !text_eq(a[i].1.as_str(), b[i].1.as_str()) {
            assert(a.deep_view()[i as int] != b.deep_view()[i as int]);
            return false;
        }
        assert(a.deep_view()[i as int] == b.deep_view()[i as int]);
        i += 1;
    }
    assert(a.deep_view() =~= b.deep_view());
    true
}

/// Whether a sample has the key `(name, labels)`.
pub fn has_key(m: &MetricSample, name: &String, labels: &Vec<(String, String)>) -> (r: bool)
    ensures
        r == (sample_key(m@) == (name@, labels.deep_view())),
{
    text_eq(m.name.as_str(), name.as_str()) && same_labels(&m.labels, labels)
}

/// Whether a sample belongs to a target filter.
pub fn matches_selected_target(t: &TargetFilter, m: &MetricSample) -> (r: bool)
    ensures
        r == matches_target(t@, m@),
{
    proof {
        reveal_strlit("*");
    }
    assert("*"@ =~= seq!['*']);
    if text_eq(t.job.as_str(), "*") {
        return true;
    }
    let job = label_value(&m.labels, "job");
    let target = match label_value(&m.labels, "instance") {
        Some(v) => Some(v),
        None => label_value(&m.labels, "target"),
    };
    match (job, target) {
        (Some(j), Some(tt)) => text_eq(j.as_str(), t.job.as_str()) && text_eq(tt.as_str(), t.target.as_str()),
        _ => false,
    }
}

fn lower_contains(s: &String, needle: &Vec<char>) -> (r: bool)
    ensures
        r == has_substring(lowercase(s@), needle@),
{
    let low = to_lowercase(s.as_str());
    let lv = chars_of(low.as_str());
    contains_text(&lv, needle)
}

/// Whether a sample passes the text filter whose lowercase text is `needle`.
pub fn matches_filter_with(needle: &Vec<char>, m: &MetricSample) -> (r: bool)
    ensures
        r == matches_filter(needle@, m@),
{
    if needle.len() == 0 {
        return true;
    }
    if lower_contains(&m.name, needle) {
        return true;
    }
    let mut i: usize = 0;
    while i < m.labels.len()
        invariant
            0 <= i <= m.labels.len(),
            forall|k: int| 0 <= k < i ==> !label_matches(needle@, #[trigger] m@.1[k]),
        decreases m.labels.len() - i,
    {
        assert(m@.1[i as int] == (m.labels@[i as int].0@, m.labels@[i as int].1@));
        if lower_contains(&m.labels[i].0, needle) || lower_contains(&m.labels[i].1, needle) {
            assert(label_matches(needle@, m@.1[i as int]));
            return true;
        }
        i += 1;
    }
    false
}

/// Whether a log entry passes the log filter whose lowercase text is `needle`.
pub fn matches_log_filter_with(needle: &Vec<char>, e: &LogEntry) -> (r: bool)
    ensures
        r == matches_log_filter(needle@, e@),
{
    needle.len() == 0 || lower_contains(&e.line, needle)
}

/// The value history of one metric.
pub struct HistoryRecord {
    pub name: String,
    pub labels: Vec<(String, String)>,
    pub values: Vec<String>,
}

/// What the log screen remembers of one host's log.
pub struct StoredStream {
    pub host: String,
    pub log_name: String,
    pub entries: Vec<LogEntry>,
    pub last_timestamp_ns: Option<i64>,
    pub tail_offset: usize,
}

/// Where metrics come from.
pub enum DataSource {
    Sample,
    PrometheusApi { base_url: String },
}

/// Data that an operation is waiting for.
pub enum Request {
    /// The series of `up`, to list the targets.
    FetchTargets { base_url: String },
    /// The samples of one target.
    FetchTargetMetrics { base_url: String, target: TargetFilter },
    /// The values of the host label.
    FetchLogHosts,
    /// The values of the log label.
    FetchLogNames,
    /// The entries of one host's log after `since_ns`.
    PollLogs { host: String, log_name: String, since_ns: Option<i64> },
}

/// The dashboard state.
pub struct App {
    pub metrics: Vec<MetricSample>,
    pub cursor: usize,
    pub status: String,
    pub source_label: String,
    pub filter_query: String,
    pub filter_input_open: bool,
    pub target_options: Vec<TargetFilter>,
    pub target_selected: usize,
    pub target_picker_open: bool,
    pub target_cursor: usize,
    pub history_view: HistoryView,
    pub screen: ScreenMode,
    pub log_focus: LogFocus,
    pub log_hosts: Vec<String>,
    pub log_host_selected: usize,
    pub log_names: Vec<String>,
    pub log_name_selected: usize,
    pub log_entries: Vec<LogEntry>,
    pub log_filter_query: String,
    pub log_filter_input_open: bool,
    pub source: DataSource,
    pub loki: Option<LokiClient>,
    pub loki_poll_secs: u64,
    pub log_streams: Vec<StoredStream>,
    pub log_tail_offset: usize,
    pub last_log_timestamp_ns: Option<i64>,
    pub display: DisplayConfig,
    pub all_metrics: Vec<MetricSample>,
    pub metric_history: Vec<HistoryRecord>,
    pub selected_metrics: Vec<(String, Vec<(String, String)>)>,
    pub target_notice: Option<String>,
    pub pending: Option<Request>,
}

/// The key of a history record.
pub open spec fn record_key(r: HistoryRecord) -> KeyView {
    (r.name@, r.labels.deep_view())
}

/// The first position of a record with key `k`, or the length.
pub open spec fn record_index(rs: Seq<HistoryRecord>, k: KeyView) -> int
    decreases rs.len(),
{
    if rs.len() == 0 {
        0
    } else if record_key(rs[0]) == k {
        0
    } else {
        1 + record_index(rs.drop_first(), k)
    }
}

/// The history that the first record with key `k` holds, if any.
pub open spec fn history_lookup(rs: Seq<HistoryRecord>, k: KeyView) -> Option<Seq<Seq<char>>> {
    let i = record_index(rs, k);
    if i < rs.len() {
        Some(texts_view(rs[i].values@))
    } else {
        None
    }
}

/// The history recorded for key `k` (empty when there is none).
pub open spec fn recorded(rs: Seq<HistoryRecord>, k: KeyView) -> Seq<Seq<char>> {
    match history_lookup(rs, k) {
        Some(h) => h,
        None => seq![],
    }
}

/// The history of the metric with key `k` (empty when it has none).
pub open spec fn history_of(a: App, k: KeyView) -> Seq<Seq<char>> {
    recorded(a.metric_history@, k)
}

/// The last `n` elements of `s` (all of them when it is shorter).
pub open spec fn keep_last<A>(s: Seq<A>, n: nat) -> Seq<A> {
    if s.len() > n {
        s.skip(s.len() - n)
    } else {
        s
    }
}

/// Whether a sample has key `k`.
pub open spec fn key_is(k: KeyView) -> spec_fn(SampleView) -> bool {
    |m: SampleView| sample_key(m) == k
}

/// The values that the samples with key `k` carry, in order.
pub open spec fn values_for(ms: Seq<SampleView>, k: KeyView) -> Seq<Seq<char>> {
    ms.filter(key_is(k)).map_values(|m: SampleView| m.2)
}

/// The history of key `k` after the samples `ms` were loaded over the records
/// `rs`: none for a key that no sample has; else what it had, followed by the
/// new values, of which the last `HISTORY_LIMIT` stay.
pub open spec fn next_history(rs: Seq<HistoryRecord>, ms: Seq<SampleView>, k: KeyView) -> Option<
    Seq<Seq<char>>,
> {
    if has_metric_key(ms, k) {
        Some(keep_last(recorded(rs, k) + values_for(ms, k), HISTORY_LIMIT as nat))
    } else {
        None
    }
}

/// No two records are for the same metric.
pub open spec fn records_distinct(rs: Seq<HistoryRecord>) -> bool {
    forall|i: int, j: int| 0 <= i < j < rs.len() ==> record_key(#[trigger] rs[i]) != record_key(#[trigger] rs[j])
}

/// Every record holds at most `HISTORY_LIMIT` values.
pub open spec fn histories_capped(rs: Seq<HistoryRecord>) -> bool {
    forall|i: int| 0 <= i < rs.len() ==> (#[trigger] rs[i]).values.len() <= HISTORY_LIMIT
}

/// `record_index` is the first position holding key `k`.
pub proof fn lemma_record_index(rs: Seq<HistoryRecord>, k: KeyView)
    ensures
        0 <= record_index(rs, k) <= rs.len(),
        record_index(rs, k) < rs.len() ==> record_key(rs[record_index(rs, k)]) == k,
        forall|j: int| 0 <= j < record_index(rs, k) ==> record_key(#[trigger] rs[j]) != k,
    decreases rs.len(),
{
    if rs.len() > 0 && record_key(rs[0]) != k {
        let rest = rs.drop_first();
        lemma_record_index(rest, k);
        assert forall|j: int| 0 <= j < record_index(rs, k) implies record_key(#[trigger] rs[j]) != k by {
            if j > 0 {
                assert(rs[j] == rest[j - 1]);
            }
        }
        if record_index(rs, k) < rs.len() {
            assert(rs[record_index(rs, k)] == rest[record_index(rest, k)]);
        }
    }
}

/// A position that holds key `k` (or is the length) with no earlier one
/// holding it is `record_index`.
pub proof fn lemma_record_index_unique(rs: Seq<HistoryRecord>, k: KeyView, i: int)
    requires
        0 <= i <= rs.len(),
        i < rs.len() ==> record_key(rs[i]) == k,
        forall|j: int| 0 <= j < i ==> record_key(#[trigger] rs[j]) != k,
    ensures
        record_index(rs, k) == i,
    decreases rs.len(),
{
    if rs.len() > 0 && i > 0 {
        assert(record_key(rs[0]) != k);
        let rest = rs.drop_first();
        assert forall|j: int| 0 <= j < i - 1 implies record_key(#[trigger] rest[j]) != k by {
            assert(rest[j] == rs[j + 1]);
        }
        if i - 1 < rest.len() {
            assert(rest[i - 1] == rs[i]);
        }
        lemma_record_index_unique(rest, k, i - 1);
    }
}

/// Keeping the last `n` of a kept tail and one more is keeping the last `n`
/// of the whole.
pub proof fn lemma_keep_last_push<A>(s: Seq<A>, x: A, n: nat)
    requires
        n > 0,
    ensures
        keep_last(keep_last(s, n).push(x), n) == keep_last(s.push(x), n),
{
    if s.len() > n {
        assert(keep_last(s, n).push(x).skip(1) =~= s.push(x).skip(s.len() + 1 - n));
    }
}

/// A sample list with one more sample has that sample's key too.
pub proof fn lemma_has_metric_key_push(ms: Seq<SampleView>, x: SampleView, k: KeyView)
    ensures
        has_metric_key(ms.push(x), k) == (has_metric_key(ms, k) || sample_key(x) == k),
{
    if has_metric_key(ms, k) {
        let j = choose|j: int| 0 <= j < ms.len() && sample_key(ms[j]) == k;
        assert(ms.push(x)[j] == ms[j]);
    }
    if sample_key(x) == k {
        assert(ms.push(x)[ms.len() as int] == x);
    }
    if has_metric_key(ms.push(x), k) {
        let j = choose|j: int| 0 <= j < ms.len() + 1 && sample_key(ms.push(x)[j]) == k;
        if j < ms.len() {
            assert(ms.push(x)[j] == ms[j]);
        }
    }
}

/// The values of key `k` after one more sample.
pub proof fn lemma_values_for_push(ms: Seq<SampleView>, x: SampleView, k: KeyView)
    ensures
        values_for(ms.push(x), k) == if sample_key(x) == k {
            values_for(ms, k).push(x.2)
        } else {
            values_for(ms, k)
        },
{
    ms.lemma_filter_push(x, key_is(k));
    if sample_key(x) == k {
        assert(ms.filter(key_is(k)).push(x).map_values(|m: SampleView| m.2) =~= values_for(ms, k).push(
            x.2,
        ));
    }
}

/// A key that no sample has has no values.
pub proof fn lemma_values_for_absent(ms: Seq<SampleView>, k: KeyView)
    requires
        !has_metric_key(ms, k),
    ensures
        values_for(ms, k) == Seq::<Seq<char>>::empty(),
{
    let f = ms.filter(key_is(k));
    if f.len() > 0 {
        ms.lemma_filter_pred(key_is(k), 0);
        assert(f.contains(f[0]));
        ms.lemma_filter_contains_rev(key_is(k), f[0]);
        let j = choose|j: int| 0 <= j < ms.len() && ms[j] == f[0];
        assert(sample_key(ms[j]) == k);
    }
    assert(values_for(ms, k) =~= Seq::<Seq<char>>::empty());
}

/// One step of recording: the record of the sample's key got the sample's
/// value (or was added after the others), and no other record changed.
pub proof fn lemma_history_step(
    old_rs: Seq<HistoryRecord>,
    pre: Seq<SampleView>,
    x: SampleView,
    hb: Seq<HistoryRecord>,
    ha: Seq<HistoryRecord>,
)
    requires
        forall|k: KeyView| #[trigger] history_lookup(hb, k) == next_history(old_rs, pre, k),
        ({
            let idx = record_index(hb, sample_key(x));
            &&& idx <= hb.len()
            &&& forall|j: int| 0 <= j < hb.len() && j != idx ==> #[trigger] ha[j] == hb[j]
            &&& idx < ha.len()
            &&& record_key(ha[idx]) == sample_key(x)
            &&& idx < hb.len() ==> ha.len() == hb.len() && texts_view(ha[idx].values@) == keep_last(
                texts_view(hb[idx].values@).push(x.2),
                HISTORY_LIMIT as nat,
            )
            &&& idx == hb.len() ==> ha.len() == hb.len() + 1 && texts_view(ha[idx].values@)
                == keep_last(recorded(old_rs, sample_key(x)).push(x.2), HISTORY_LIMIT as nat)
        }),
    ensures
        forall|k: KeyView| #[trigger] history_lookup(ha, k) == next_history(old_rs, pre.push(x), k),
{
    let kx = sample_key(x);
    lemma_record_index(hb, kx);
    let idx = record_index(hb, kx);
    assert forall|k: KeyView| #[trigger] history_lookup(ha, k) == next_history(old_rs, pre.push(x), k) by {
        lemma_record_index(hb, k);
        lemma_has_metric_key_push(pre, x, k);
        lemma_values_for_push(pre, x, k);
        assert(history_lookup(hb, k) == next_history(old_rs, pre, k));
        let ik = record_index(hb, k);
        if k == kx {
            assert forall|j: int| 0 <= j < idx implies record_key(#[trigger] ha[j]) != k by {
                assert(ha[j] == hb[j]);
            }
            lemma_record_index_unique(ha, k, idx);
            let r = recorded(old_rs, k);
            if idx < hb.len() {
                let vf = values_for(pre, k);
                lemma_keep_last_push(r + vf, x.2, HISTORY_LIMIT as nat);
                assert((r + vf).push(x.2) =~= r + vf.push(x.2));
            } else {
                lemma_values_for_absent(pre, k);
                assert(r + values_for(pre, k).push(x.2) =~= r.push(x.2));
            }
        } else {
            if ik < hb.len() {
                assert forall|j: int| 0 <= j < ik implies record_key(#[trigger] ha[j]) != k by {
                    if j != idx {
                        assert(ha[j] == hb[j]);
                    }
                }
                assert(ha[ik] == hb[ik]);
                lemma_record_index_unique(ha, k, ik);
            } else {
                assert forall|j: int| 0 <= j < ha.len() implies record_key(#[trigger] ha[j]) != k by {
                    if j < hb.len() && j != idx {
                        assert(ha[j] == hb[j]);
                    }
                }
                lemma_record_index_unique(ha, k, ha.len() as int);
            }
        }
    }
}

/// The filter in effect.
pub open spec fn selected_target_view(a: App) -> TargetView {
    a.target_options@[a.target_selected as int]@
}

/// The lowercase text of the metric filter.
pub open spec fn metric_needle(a: App) -> Seq<char> {
    needle_text(a.filter_query@)
}

/// The metric names the list starts on.
pub open spec fn initial_metric_view(d: DisplayConfig) -> Option<Seq<char>> {
    match d.initial_metric {
        Some(n) => Some(n@),
        None => None,
    }
}

/// The key of the metric under the cursor.
pub open spec fn current_key(a: App) -> Option<KeyView> {
    if a.cursor < a.metrics.len() {
        Some(sample_key(a.metrics@[a.cursor as int]@))
    } else {
        None
    }
}

/// The first position of a metric with key `k`, or the length.
pub open spec fn key_index(ms: Seq<SampleView>, k: KeyView) -> int
    decreases ms.len(),
{
    if ms.len() == 0 {
        0
    } else if sample_key(ms[0]) == k {
        0
    } else {
        1 + key_index(ms.drop_first(), k)
    }
}

/// The first position of a metric named `n`, or the length.
pub open spec fn name_index(ms: Seq<SampleView>, n: Seq<char>) -> int
    decreases ms.len(),
{
    if ms.len() == 0 {
        0
    } else if ms[0].0 == n {
        0
    } else {
        1 + name_index(ms.drop_first(), n)
    }
}

/// Where the cursor goes in a rebuilt list: to the metric it was on, else to
/// the configured initial metric, else to the top.
pub open spec fn restored_cursor(ms: Seq<SampleView>, prev: Option<KeyView>, initial: Option<Seq<char>>) -> int {
    let by_key = match prev {
        Some(k) => key_index(ms, k),
        None => ms.len() as int,
    };
    if by_key < ms.len() {
        by_key
    } else {
        match initial {
            Some(n) => if name_index(ms, n) < ms.len() {
                name_index(ms, n)
            } else {
                0
            },
            None => 0,
        }
    }
}

/// Whether some metric of a list has key `k`.
pub open spec fn has_metric_key(ms: Seq<SampleView>, k: KeyView) -> bool {
    exists|j: int| 0 <= j < ms.len() && sample_key(ms[j]) == k
}

/// The keys that a metric list shows.
pub open spec fn listed(ms: Seq<SampleView>) -> spec_fn(KeyView) -> bool {
    |k: KeyView| has_metric_key(ms, k)
}

/// The key a remembered selection names, if any.
pub open spec fn key_opt_view(p: Option<(String, Vec<(String, String)>)>) -> Option<KeyView> {
    match p {
        Some(k) => Some((k.0@, k.1.deep_view())),
        None => None,
    }
}

/// `key_index` is the first position holding key `k`.
pub proof fn lemma_key_index(ms: Seq<SampleView>, k: KeyView)
    ensures
        0 <= key_index(ms, k) <= ms.len(),
        key_index(ms, k) < ms.len() ==> sample_key(ms[key_index(ms, k)]) == k,
        forall|j: int| 0 <= j < key_index(ms, k) ==> sample_key(#[trigger] ms[j]) != k,
        has_metric_key(ms, k) == (key_index(ms, k) < ms.len()),
    decreases ms.len(),
{
    if ms.len() > 0 && sample_key(ms[0]) != k {
        let rest = ms.drop_first();
        lemma_key_index(rest, k);
        assert forall|j: int| 0 <= j < key_index(ms, k) implies sample_key(#[trigger] ms[j]) != k by {
            if j > 0 {
                assert(ms[j] == rest[j - 1]);
            }
        }
        if key_index(ms, k) < ms.len() {
            assert(ms[key_index(ms, k)] == rest[key_index(rest, k)]);
        }
        if has_metric_key(ms, k) {
            let j = choose|j: int| 0 <= j < ms.len() && sample_key(ms[j]) == k;
            assert(rest[j - 1] == ms[j]);
        }
    }
}

/// Filtering keeps a sequence free of duplicates.
pub proof fn lemma_filter_no_duplicates<A>(s: Seq<A>, p: spec_fn(A) -> bool)
    requires
        s.no_duplicates(),
    ensures
        s.filter(p).no_duplicates(),
    decreases s.len(),
{
    reveal(Seq::filter);
    if s.len() > 0 {
        let init = s.drop_last();
        assert(init.no_duplicates());
        lemma_filter_no_duplicates(init, p);
        if p(s.last()) {
            let f = init.filter(p);
            assert forall|i: int| 0 <= i < f.len() implies f[i] != s.last() by {
                assert(f.contains(f[i]));
                init.lemma_filter_contains_rev(p, f[i]);
                let j = choose|j: int| 0 <= j < init.len() && init[j] == f[i];
                assert(s[j] == init[j]);
            }
        }
    }
}

/// The status line after the metric list changed.
pub open spec fn loaded_status(n: nat, t: TargetView, notice: Option<Seq<char>>) -> Seq<char> {
    "loaded "@ + crate::text::decimal(n) + " metrics for "@ + target_display(t) + match notice {
        Some(x) => " ("@ + x + ")"@,
        None => seq![],
    }
}

/// The notice about target state that did not survive a reload.
pub open spec fn notice_view(a: App) -> Option<Seq<char>> {
    match a.target_notice {
        Some(n) => Some(n@),
        None => None,
    }
}

/// The metric list of a state for a filter text whose lowercase form is `needle`.
pub open spec fn listed_metrics(a: App, needle: Seq<char>) -> Seq<SampleView> {
    visible_metrics(samples_view(a.all_metrics@), selected_target_view(a), needle, a.display.max_metrics)
}

/// The list, cursor and selection after rebuilding the list of `old` for
/// `needle`, with `prev` as the metric to stay on; the notice is consumed.
pub open spec fn list_rebuilt(old: App, new: App, prev: Option<KeyView>, needle: Seq<char>) -> bool {
    let ms = listed_metrics(old, needle);
    &&& samples_view(new.metrics@) == ms
    &&& new.cursor == restored_cursor(ms, prev, initial_metric_view(old.display))
    &&& new.selected_metrics.deep_view() == old.selected_metrics.deep_view().filter(listed(ms))
    &&& new.target_notice is None
}

/// The effect of rebuilding the metric list with `prev` as the metric to stay on.
pub open spec fn rebuilt(old: App, new: App, prev: Option<KeyView>) -> bool {
    &&& list_rebuilt(old, new, prev, metric_needle(old))
    &&& new.status@ == loaded_status(
        listed_metrics(old, metric_needle(old)).len(),
        selected_target_view(old),
        notice_view(old),
    )
    &&& new == (App {
        metrics: new.metrics,
        cursor: new.cursor,
        selected_metrics: new.selected_metrics,
        status: new.status,
        target_notice: new.target_notice,
        ..old
    })
}

/// The first position of filter `t` in `opts`, or the length.
pub open spec fn target_index(opts: Seq<TargetView>, t: TargetView) -> int
    decreases opts.len(),
{
    if opts.len() == 0 {
        0
    } else if opts[0] == t {
        0
    } else {
        1 + target_index(opts.drop_first(), t)
    }
}

/// The position of `t` in `opts` when it is there, else `fallback`.
pub open spec fn found_or(opts: Seq<TargetView>, t: Option<TargetView>, fallback: int) -> int {
    match t {
        Some(x) => if target_index(opts, x) < opts.len() {
            target_index(opts, x)
        } else {
            fallback
        },
        None => fallback,
    }
}

/// Whether a remembered filter is no longer among `opts`.
pub open spec fn missing(opts: Seq<TargetView>, t: Option<TargetView>) -> bool {
    match t {
        Some(x) => target_index(opts, x) >= opts.len(),
        None => false,
    }
}

/// The notice shown when remembered target state did not survive a reload.
pub open spec fn notice_for(selected_missing: bool, cursor_missing: bool) -> Option<Seq<char>> {
    if selected_missing && cursor_missing {
        Some("previous target selection and picker cursor are no longer available"@)
    } else if selected_missing {
        Some("previous target selection is no longer available"@)
    } else if cursor_missing {
        Some("previous picker cursor target is no longer available"@)
    } else {
        None
    }
}

/// The filter in effect, if the selection points at an option.
pub open spec fn selected_option(a: App) -> Option<TargetView> {
    if a.target_selected < a.target_options.len() {
        Some(a.target_options@[a.target_selected as int]@)
    } else {
        None
    }
}

/// The filter under the picker cursor, while the picker is open.
pub open spec fn cursor_option(a: App) -> Option<TargetView> {
    if a.target_picker_open && a.target_cursor < a.target_options.len() {
        Some(a.target_options@[a.target_cursor as int]@)
    } else {
        None
    }
}

/// The effect of replacing the target options by `opts`: the selection and
/// the open picker's cursor stay on the filters they were on where those
/// remain, the selection falls back to the wildcard and the cursor to the
/// selection, and a notice says what was lost.
pub open spec fn retargeted(old: App, new: App, opts: Seq<TargetView>) -> bool {
    let sel = found_or(opts, selected_option(old), 0);
    &&& targets_view(new.target_options@) == opts
    &&& new.target_selected == sel
    &&& new.target_cursor == found_or(opts, cursor_option(old), sel)
    &&& notice_view(new) == notice_for(
        missing(opts, selected_option(old)),
        missing(opts, cursor_option(old)),
    )
    &&& new == (App {
        target_options: new.target_options,
        target_selected: new.target_selected,
        target_cursor: new.target_cursor,
        target_notice: new.target_notice,
        ..old
    })
}

/// The filter a sample reports: its job, with its `instance` (else `target`,
/// else `-`) label; none without a job.
pub open spec fn metric_target(m: SampleView) -> Option<TargetView> {
    match label_value_spec(m.1, "job"@) {
        Some(job) => Some(
            (
                job,
                match target_label(m.1) {
                    Some(t) => t,
                    None => "-"@,
                },
            ),
        ),
        None => None,
    }
}

/// The filters the samples report, in order.
pub open spec fn metric_targets(ms: Seq<SampleView>) -> Seq<TargetView> {
    ms.filter_map(|m: SampleView| metric_target(m))
}

/// `target_index` is the first position holding `t`.
pub proof fn lemma_target_index(opts: Seq<TargetView>, t: TargetView)
    ensures
        0 <= target_index(opts, t) <= opts.len(),
        target_index(opts, t) < opts.len() ==> opts[target_index(opts, t)] == t,
        forall|j: int| 0 <= j < target_index(opts, t) ==> #[trigger] opts[j] != t,
    decreases opts.len(),
{
    if opts.len() > 0 && opts[0] != t {
        let rest = opts.drop_first();
        lemma_target_index(rest, t);
        assert forall|j: int| 0 <= j < target_index(opts, t) implies #[trigger] opts[j] != t by {
            if j > 0 {
                assert(opts[j] == rest[j - 1]);
            }
        }
        if target_index(opts, t) < opts.len() {
            assert(opts[target_index(opts, t)] == rest[target_index(rest, t)]);
        }
    }
}

/// The effect of loading the samples `ms` and offering the filters they
/// report: the histories grow, the target options are rebuilt with the
/// selection kept where it can be, and the metric list is rebuilt.
pub open spec fn loaded_into(old: App, new: App, ms: Seq<SampleView>) -> bool {
    let opts = target_options_spec(metric_targets(ms));
    let sel = found_or(opts, selected_option(old), 0);
    let notice = notice_for(missing(opts, selected_option(old)), missing(opts, cursor_option(old)));
    let shown_ms = visible_metrics(ms, opts[sel], metric_needle(old), old.display.max_metrics);
    &&& samples_view(new.all_metrics@) == ms
    &&& forall|k: KeyView| #[trigger]
        history_lookup(new.metric_history@, k) == next_history(old.metric_history@, ms, k)
    &&& histories_capped(new.metric_history@)
    &&& records_distinct(new.metric_history@)
    &&& targets_view(new.target_options@) == opts
    &&& new.target_selected == sel
    &&& new.target_cursor == found_or(opts, cursor_option(old), sel)
    &&& samples_view(new.metrics@) == shown_ms
    &&& new.cursor == restored_cursor(shown_ms, current_key(old), initial_metric_view(old.display))
    &&& new.selected_metrics.deep_view() == old.selected_metrics.deep_view().filter(listed(shown_ms))
    &&& new.status@ == loaded_status(shown_ms.len(), opts[sel], notice)
    &&& new.target_notice is None
    &&& new == (App {
        all_metrics: new.all_metrics,
        metric_history: new.metric_history,
        target_options: new.target_options,
        target_selected: new.target_selected,
        target_cursor: new.target_cursor,
        metrics: new.metrics,
        cursor: new.cursor,
        selected_metrics: new.selected_metrics,
        status: new.status,
        target_notice: new.target_notice,
        ..old
    })
}

/// The effect of loading the samples `ms` of the filter in effect: the
/// histories grow and the metric list is rebuilt.
pub open spec fn target_loaded(old: App, new: App, ms: Seq<SampleView>) -> bool {
    let t = selected_target_view(old);
    let shown_ms = visible_metrics(ms, t, metric_needle(old), old.display.max_metrics);
    &&& samples_view(new.all_metrics@) == ms
    &&& forall|k: KeyView| #[trigger]
        history_lookup(new.metric_history@, k) == next_history(old.metric_history@, ms, k)
    &&& histories_capped(new.metric_history@)
    &&& records_distinct(new.metric_history@)
    &&& samples_view(new.metrics@) == shown_ms
    &&& new.cursor == restored_cursor(shown_ms, current_key(old), initial_metric_view(old.display))
    &&& new.selected_metrics.deep_view() == old.selected_metrics.deep_view().filter(listed(shown_ms))
    &&& new.status@ == loaded_status(shown_ms.len(), t, notice_view(old))
    &&& new.target_notice is None
    &&& new == (App {
        all_metrics: new.all_metrics,
        metric_history: new.metric_history,
        metrics: new.metrics,
        cursor: new.cursor,
        selected_metrics: new.selected_metrics,
        status: new.status,
        target_notice: new.target_notice,
        ..old
    })
}

/// The effect of a failed load: nothing is loaded, the options are the
/// wildcard alone, the picker is closed, and the status says why.
pub open spec fn failed(old: App, new: App, status: Seq<char>) -> bool {
    &&& new.all_metrics@.len() == 0
    &&& new.metrics@.len() == 0
    &&& new.metric_history@.len() == 0
    &&& targets_view(new.target_options@) == seq![wildcard_view()]
    &&& new.target_selected == 0
    &&& new.target_cursor == 0
    &&& !new.target_picker_open
    &&& new.cursor == 0
    &&& new.selected_metrics@.len() == 0
    &&& new.target_notice is None
    &&& new.status@ == status
    &&& new == (App {
        all_metrics: new.all_metrics,
        metrics: new.metrics,
        metric_history: new.metric_history,
        target_options: new.target_options,
        target_selected: 0,
        target_cursor: 0,
        target_picker_open: false,
        cursor: 0,
        selected_metrics: new.selected_metrics,
        target_notice: None,
        status: new.status,
        ..old
    })
}

/// Where a cursor over `len` entries goes after `step` moves: nowhere when
/// the list is empty.
pub open spec fn moved(index: usize, len: usize, step: int) -> int {
    if len > 0 {
        wrapped(index as int, len as int, step)
    } else {
        index as int
    }
}

/// The effect of putting a new filter in effect: a sample source rebuilds
/// the list, a Prometheus source asks for the samples of that filter.
pub open spec fn selection_applied(old: App, new: App) -> bool {
    match old.source {
        DataSource::Sample => rebuilt(old, new, current_key(old)),
        DataSource::PrometheusApi { base_url } => {
            &&& new.pending matches Some(Request::FetchTargetMetrics { base_url: b, target: t })
                && b@ == base_url@ && t@ == selected_target_view(old)
            &&& new == (App { pending: new.pending, ..old })
        },
    }
}

/// The effect of editing the metric filter text to `q`: the list is rebuilt
/// for it, staying on the metric the cursor was on.
pub open spec fn filter_edited(old: App, new: App, q: Seq<char>) -> bool {
    &&& new.filter_query@ == q
    &&& list_rebuilt(old, new, current_key(old), needle_text(q))
    &&& new == (App {
        filter_query: new.filter_query,
        metrics: new.metrics,
        cursor: new.cursor,
        selected_metrics: new.selected_metrics,
        status: new.status,
        target_notice: new.target_notice,
        ..old
    })
}

/// Keys other than `k`.
pub open spec fn other_than(k: KeyView) -> spec_fn(KeyView) -> bool {
    |x: KeyView| x != k
}

/// A selection with key `k` toggled: taken out when it is there, else added
/// at the end.
pub open spec fn toggled(sel: Seq<KeyView>, k: KeyView) -> Seq<KeyView> {
    if sel.contains(k) {
        sel.filter(other_than(k))
    } else {
        sel.push(k)
    }
}

/// The effect of a reload: a sample source loads the built-in samples, a
/// Prometheus source asks for its targets.
pub open spec fn reloaded(old: App, new: App) -> bool {
    match old.source {
        DataSource::Sample => {
            &&& new.source_label@ == "sample"@
            &&& match parse_metrics_spec(SAMPLE_PROMETHEUS@) {
                Ok(ms) => loaded_into(App { source_label: new.source_label, ..old }, new, ms),
                Err(e) => failed(App { source_label: new.source_label, ..old }, new, "parse error: "@ + e),
            }
        },
        DataSource::PrometheusApi { base_url } => {
            &&& new.source_label@ == base_url@
            &&& new.pending matches Some(Request::FetchTargets { base_url: b }) && b@ == base_url@
            &&& new == (App { source_label: new.source_label, pending: new.pending, ..old })
        },
    }
}

/// The source a Prometheus configuration selects: its server when it has an
/// address, else the built-in samples.
pub open spec fn source_from(s: DataSource, prometheus: PrometheusConfig) -> bool {
    match prometheus.base_url {
        None => s is Sample,
        Some(u) => s matches DataSource::PrometheusApi { base_url } && base_url@ == u@,
    }
}

/// The Loki connection a configuration selects: none without an address.
pub open spec fn loki_from(c: Option<LokiClient>, loki: LokiConfig) -> bool {
    match loki.base_url {
        None => c is None,
        Some(u) => c matches Some(c) && c.spec_base_url() == u@ && c.spec_host_label() == loki.host_label@
            && c.spec_log_label() == loki.log_label@ && c.spec_lookback_secs() == loki.lookback_secs,
    }
}

/// The state of a dashboard before its first load.
pub open spec fn fresh(a: App, prometheus: PrometheusConfig, loki: LokiConfig, display: DisplayConfig) -> bool {
    &&& a.metrics@.len() == 0
    &&& a.cursor == 0
    &&& a.status@ == "initializing"@
    &&& a.source_label@ == Seq::<char>::empty()
    &&& a.filter_query@ == Seq::<char>::empty()
    &&& !a.filter_input_open
    &&& targets_view(a.target_options@) == seq![wildcard_view()]
    &&& a.target_selected == 0
    &&& !a.target_picker_open
    &&& a.target_cursor == 0
    &&& a.history_view == HistoryView::Graph
    &&& a.screen == ScreenMode::Metrics
    &&& a.log_focus == LogFocus::Hosts
    &&& a.log_hosts@.len() == 0
    &&& a.log_host_selected == 0
    &&& a.log_names@.len() == 0
    &&& a.log_name_selected == 0
    &&& a.log_entries@.len() == 0
    &&& a.log_filter_query@ == Seq::<char>::empty()
    &&& !a.log_filter_input_open
    &&& source_from(a.source, prometheus)
    &&& loki_from(a.loki, loki)
    &&& a.loki_poll_secs == if loki.poll_secs > 1 { loki.poll_secs } else { 1 }
    &&& a.log_streams@.len() == 0
    &&& a.log_tail_offset == 0
    &&& a.last_log_timestamp_ns is None
    &&& a.display == display
    &&& a.all_metrics@.len() == 0
    &&& a.metric_history@.len() == 0
    &&& a.selected_metrics@.len() == 0
    &&& a.target_notice is None
    &&& a.pending is None
}

/// The values that `LokiConfig::default` gives.
pub open spec fn default_loki(l: LokiConfig) -> bool {
    &&& l.base_url matches Some(u) && u@ == "http://127.0.0.1:3100"@
    &&& l.host_label@ == "host"@
    &&& l.log_label@ == "job"@
    &&& l.poll_secs == 1
    &&& l.lookback_secs == 300
}

/// The invariant the state keeps: the selection holds each key once and only
/// keys of listed metrics, the cursor is on a listed metric when there is
/// one and at the top otherwise, no history holds more than its limit, the filter in effect and the
/// picker cursor are options, and the wildcard is the first option.
pub open spec fn app_wf(a: App) -> bool {
    &&& a.selected_metrics.deep_view().no_duplicates()
    &&& forall|i: int|
        0 <= i < a.selected_metrics.deep_view().len() ==> has_metric_key(
            samples_view(a.metrics@),
            #[trigger] a.selected_metrics.deep_view()[i],
        )
    &&& a.metrics.len() > 0 ==> a.cursor < a.metrics.len()
    &&& a.metrics.len() == 0 ==> a.cursor == 0
    &&& histories_capped(a.metric_history@)
    &&& records_distinct(a.metric_history@)
    &&& a.target_selected < a.target_options.len()
    &&& a.target_cursor < a.target_options.len()
    &&& a.target_options@[0]@ == wildcard_view()
}

/// Rebuilding the list keeps the invariant.
pub proof fn lemma_rebuilt_wf(old: App, new: App, prev: Option<KeyView>)
    requires
        app_wf(old),
        rebuilt(old, new, prev),
    ensures
        app_wf(new),
{
    let ms = listed_metrics(old, metric_needle(old));
    lemma_filter_no_duplicates(old.selected_metrics.deep_view(), listed(ms));
    lemma_filter_listed(old.selected_metrics.deep_view(), ms);
    lemma_restored_cursor(ms, prev, initial_metric_view(old.display));
}

/// `name_index` is the first position of a metric named `n`, or the length.
pub proof fn lemma_name_index(ms: Seq<SampleView>, n: Seq<char>)
    ensures
        0 <= name_index(ms, n) <= ms.len(),
        name_index(ms, n) < ms.len() ==> ms[name_index(ms, n)].0 == n,
        forall|j: int| 0 <= j < name_index(ms, n) ==> (#[trigger] ms[j]).0 != n,
    decreases ms.len(),
{
    if ms.len() > 0 && ms[0].0 != n {
        let rest = ms.drop_first();
        lemma_name_index(rest, n);
        assert forall|j: int| 0 <= j < name_index(ms, n) implies (#[trigger] ms[j]).0 != n by {
            if j > 0 {
                assert(ms[j] == rest[j - 1]);
            }
        }
        if name_index(ms, n) < ms.len() {
            assert(ms[name_index(ms, n)] == rest[name_index(rest, n)]);
        }
    }
}

/// A restored cursor is on a metric of a non-empty list.
pub proof fn lemma_restored_cursor(ms: Seq<SampleView>, prev: Option<KeyView>, initial: Option<Seq<char>>)
    ensures
        0 <= restored_cursor(ms, prev, initial),
        ms.len() > 0 ==> restored_cursor(ms, prev, initial) < ms.len(),
{
    match prev {
        Some(k) => lemma_key_index(ms, k),
        None => {},
    }
    match initial {
        Some(n) => lemma_name_index(ms, n),
        None => {},
    }
}

/// A selection trimmed to a list holds only keys of that list.
pub proof fn lemma_filter_listed(sel: Seq<KeyView>, ms: Seq<SampleView>)
    ensures
        forall|i: int|
            0 <= i < sel.filter(listed(ms)).len() ==> has_metric_key(ms, #[trigger] sel.filter(listed(ms))[i]),
{
    assert forall|i: int| 0 <= i < sel.filter(listed(ms)).len() implies has_metric_key(
        ms,
        #[trigger] sel.filter(listed(ms))[i],
    ) by {
        sel.lemma_filter_pred(listed(ms), i);
    }
}

/// Putting a filter in effect keeps the invariant.
pub proof fn lemma_applied_wf(old: App, new: App)
    requires
        app_wf(old),
        selection_applied(old, new),
    ensures
        app_wf(new),
{
    if old.source is Sample {
        lemma_rebuilt_wf(old, new, current_key(old));
    }
}

impl App {
    /// Keeps in the selection only the metrics that the list shows.
    fn retain_visible_selection(&mut self)
        ensures
            final(self).selected_metrics.deep_view() == old(self).selected_metrics.deep_view().filter(
                listed(samples_view(old(self).metrics@)),
            ),
            *final(self) == (App { selected_metrics: final(self).selected_metrics, ..*old(self) }),
    {
        let ghost ms = samples_view(self.metrics@);
        let ghost sel = self.selected_metrics.deep_view();
        let mut kept: Vec<(String, Vec<(String, String)>)> = Vec::new();
        let mut i: usize = 0;
        while i < self.selected_metrics.len()
            invariant
                0 <= i <= self.selected_metrics.len(),
                ms == samples_view(self.metrics@),
                sel == self.selected_metrics.deep_view(),
                kept.deep_view() == sel.take(i as int).filter(listed(ms)),
            decreases self.selected_metrics.len() - i,
        {
            let name = &self.selected_metrics[i].0;
            let labels = &self.selected_metrics[i].1;
            let ghost k = (name@, labels.deep_view());
            assert(sel[i as int] == k);
            let p = position_of_key(&self.metrics, name, labels);
            proof {
                lemma_key_index(ms, k);
                sel.take(i as int).lemma_filter_push(k, listed(ms));
            }
            assert(sel.take(i + 1) =~= sel.take(i as int).push(k));
            if p < self.metrics.len() {
                let ghost before = kept.deep_view();
                kept.push((name.clone(), copy_labels(labels)));
                assert(kept.deep_view() =~= before.push(k));
            }
            i += 1;
        }
        assert(sel.take(sel.len() as int) =~= sel);
        self.selected_metrics = kept;
    }

    /// Sets the status line to the size of the list and the target, with the
    /// pending notice, which it clears.
    pub(crate) fn update_loaded_status(&mut self)
        requires
            old(self).target_selected < old(self).target_options.len(),
        ensures
            final(self).status@ == loaded_status(
                old(self).metrics.len() as nat,
                selected_target_view(*old(self)),
                notice_view(*old(self)),
            ),
            *final(self) == (App { status: final(self).status, target_notice: None, ..*old(self) }),
    {
        let mut status = String::from_str("loaded ");
        let count = usize_text(self.metrics.len());
        status.append(count.as_str());
        status.append(" metrics for ");
        let shown = self.target_options[self.target_selected].display_text();
        status.append(shown.as_str());
        match &self.target_notice {
            Some(notice) => {
                status.append(" (");
                status.append(notice.as_str());
                status.append(")");
            },
            None => {},
        }
        self.status = status;
        self.target_notice = None;
    }

    /// Rebuilds the metric list from the loaded samples, the target in effect
    /// and the text filter, then puts the cursor back, trims the selection to
    /// the list and sets the status line.
    fn rebuild_metrics_view(&mut self, previous: &Option<(String, Vec<(String, String)>)>)
        requires
            old(self).target_selected < old(self).target_options.len(),
        ensures
            rebuilt(*old(self), *final(self), key_opt_view(*previous)),
    {
        let low = to_lowercase(self.filter_query.as_str());
        let needle = chars_of(low.as_str());
        assert(needle@ =~= needle_text(self.filter_query@));
        let ghost t = selected_target_view(*self);
        let ghost all = samples_view(self.all_metrics@);
        let mut out: Vec<MetricSample> = Vec::new();
        let mut i: usize = 0;
        while i < self.all_metrics.len()
            invariant
                0 <= i <= self.all_metrics.len(),
                self.target_selected < self.target_options.len(),
                all == samples_view(self.all_metrics@),
                t == selected_target_view(*self),
                needle@ == metric_needle(*self),
                samples_view(out@) == all.take(i as int).filter(shown(t, needle@)),
            decreases self.all_metrics.len() - i,
        {
            let m = &self.all_metrics[i];
            let keep = matches_selected_target(&self.target_options[self.target_selected], m)
                && matches_filter_with(&needle, m);
            proof {
                all.take(i as int).lemma_filter_push(all[i as int], shown(t, needle@));
            }
            assert(all.take(i + 1) =~= all.take(i as int).push(all[i as int]));
            if keep {
                let ghost before = out@;
                out.push(copy_sample(m));
                assert(samples_view(out@) =~= samples_view(before).push(m@));
            }
            i += 1;
        }
        assert(all.take(all.len() as int) =~= all);
        match self.display.max_metrics {
            Some(n) => {
                if out.len() > n {
                    let ghost before = out@;
                    out.truncate(n);
                    assert(samples_view(out@) =~= samples_view(before).take(n as int));
                }
            },
            None => {},
        }
        self.metrics = out;
        self.restore_selection(previous);
        self.retain_visible_selection();
        self.update_loaded_status();
    }

    /// Appends the loaded values to the history of each loaded metric and
    /// forgets the histories of metrics that are gone.
    fn record_metric_history(&mut self)
        requires
            histories_capped(old(self).metric_history@),
        ensures
            forall|k: KeyView| #[trigger] history_lookup(final(self).metric_history@, k) == next_history(
                old(self).metric_history@,
                samples_view(old(self).all_metrics@),
                k,
            ),
            histories_capped(final(self).metric_history@),
            records_distinct(final(self).metric_history@),
            *final(self) == (App { metric_history: final(self).metric_history, ..*old(self) }),
    {
        let ghost old_rs = self.metric_history@;
        let ghost all = samples_view(self.all_metrics@);
        let mut hist: Vec<HistoryRecord> = Vec::new();
        let mut i: usize = 0;
        proof {
            assert forall|k: KeyView| #[trigger] history_lookup(hist@, k) == next_history(
                old_rs,
                all.take(0),
                k,
            ) by {
                assert(!has_metric_key(all.take(0), k));
            }
        }
        while i < self.all_metrics.len()
            invariant
                0 <= i <= self.all_metrics.len(),
                old_rs == self.metric_history@,
                all == samples_view(self.all_metrics@),
                histories_capped(old_rs),
                histories_capped(hist@),
                records_distinct(hist@),
                forall|k: KeyView| #[trigger] history_lookup(hist@, k) == next_history(
                    old_rs,
                    all.take(i as int),
                    k,
                ),
            decreases self.all_metrics.len() - i,
        {
            let m = &self.all_metrics[i];
            let ghost kx = sample_key(m@);
            let ghost hb = hist@;
            assert(all.take(i + 1) =~= all.take(i as int).push(m@));
            let j = record_position(&hist, &m.name, &m.labels);
            proof {
                lemma_record_index(hb, kx);
            }
            if j < hist.len() {
                let mut vals = copy_texts(&hist[j].values);
                assert(hist@[j as int].values.len() <= HISTORY_LIMIT);
                assert(texts_view(vals@).len() == texts_view(hist@[j as int].values@).len());
                push_capped(&mut vals, m.value.clone());
                let rec = HistoryRecord { name: m.name.clone(), labels: copy_labels(&m.labels), values: vals };
                hist.set(j, rec);
            } else {
                let o = record_position(&self.metric_history, &m.name, &m.labels);
                proof {
                    lemma_record_index(old_rs, kx);
                }
                let mut vals: Vec<String> = if o < self.metric_history.len() {
                    copy_texts(&self.metric_history[o].values)
                } else {
                    Vec::new()
                };
                assert(texts_view(vals@) == recorded(old_rs, kx));
                if o < self.metric_history.len() {
                    assert(old_rs[o as int].values.len() <= HISTORY_LIMIT);
                    assert(texts_view(vals@).len() == texts_view(old_rs[o as int].values@).len());
                }
                push_capped(&mut vals, m.value.clone());
                hist.push(HistoryRecord { name: m.name.clone(), labels: copy_labels(&m.labels), values: vals });
            }
            proof {
                lemma_history_step(old_rs, all.take(i as int), m@, hb, hist@);
            }
            i += 1;
        }
        assert(all.take(all.len() as int) =~= all);
        self.metric_history = hist;
    }

    /// The key of the metric under the cursor.
    fn selected_metric_key(&self) -> (k: Option<(String, Vec<(String, String)>)>)
        ensures
            match k {
                Some(k) => current_key(*self) == Some((k.0@, k.1.deep_view())),
                None => current_key(*self) is None,
            },
    {
        if self.cursor < self.metrics.len() {
            let m = &self.metrics[self.cursor];
            Some((m.name.clone(), copy_labels(&m.labels)))
        } else {
            None
        }
    }

    /// Puts the cursor on the metric it was on, else on the initial metric,
    /// else on the top.
    fn restore_selection(&mut self, previous: &Option<(String, Vec<(String, String)>)>)
        ensures
            final(self).cursor == restored_cursor(
                samples_view(old(self).metrics@),
                key_opt_view(*previous),
                initial_metric_view(old(self).display),
            ),
            *final(self) == (App { cursor: final(self).cursor, ..*old(self) }),
    {
        let n = self.metrics.len();
        if let Some((name, labels)) = previous {
            let i = position_of_key(&self.metrics, name, labels);
            if i < n {
                self.cursor = i;
                return;
            }
        }
        let mut c: usize = 0;
        if let Some(initial) = &self.display.initial_metric {
            let i = position_of_name(&self.metrics, initial);
            if i < n {
                c = i;
            }
        }
        self.cursor = c;
    }
}

/// The first position of a metric with key `(name, labels)`, or the length.
fn position_of_key(ms: &Vec<MetricSample>, name: &String, labels: &Vec<(String, String)>) -> (r: usize)
    ensures
        r == key_index(samples_view(ms@), (name@, labels.deep_view())),
        r <= ms.len(),
{
    let ghost s = samples_view(ms@);
    let ghost k = (name@, labels.deep_view());
    assert(s.skip(0) =~= s);
    let mut i: usize = 0;
    while i < ms.len()
        invariant
            0 <= i <= ms.len(),
            s == samples_view(ms@),
            k == (name@, labels.deep_view()),
            key_index(s, k) == i + key_index(s.skip(i as int), k),
        decreases ms.len() - i,
    {
        let ghost rest = s.skip(i as int);
        assert(rest[0] == ms@[i as int]@);
        if has_key(&ms[i], name, labels) {
            return i;
        }
        assert(rest.drop_first() =~= s.skip(i + 1));
        i += 1;
    }
    i
}

/// The first position of a record with key `(name, labels)`, or the length.
fn record_position(rs: &Vec<HistoryRecord>, name: &String, labels: &Vec<(String, String)>) -> (r: usize)
    ensures
        r == record_index(rs@, (name@, labels.deep_view())),
        r <= rs.len(),
{
    let ghost k = (name@, labels.deep_view());
    proof {
        lemma_record_index(rs@, k);
    }
    let mut i: usize = 0;
    while i < rs.len()
        invariant
            0 <= i <= rs.len(),
            k == (name@, labels.deep_view()),
            i <= record_index(rs@, k),
            0 <= record_index(rs@, k) <= rs.len(),
            record_index(rs@, k) < rs.len() ==> record_key(rs@[record_index(rs@, k)]) == k,
        decreases rs.len() - i,
    {
        if text_eq(rs[i].name.as_str(), name.as_str()) && same_labels(&rs[i].labels, labels) {
            assert(record_key(rs@[i as int]) == k);
            proof {
                lemma_record_index(rs@, k);
            }
            return i;
        }
        proof {
            lemma_record_index(rs@, k);
        }
        i += 1;
    }
    i
}

/// Appends `v` to a history and drops its oldest value when it grows past
/// `HISTORY_LIMIT`.
fn push_capped(values: &mut Vec<String>, v: String)
    requires
        old(values).len() <= HISTORY_LIMIT,
    ensures
        texts_view(final(values)@) == keep_last(texts_view(old(values)@).push(v@), HISTORY_LIMIT as nat),
        final(values).len() <= HISTORY_LIMIT,
{
    let ghost before = texts_view(values@);
    let ghost vv = v@;
    values.push(v);
    assert(texts_view(values@) =~= before.push(vv));
    if values.len() > HISTORY_LIMIT {
        let ghost full = values@;
        values.remove(0);
        assert(texts_view(values@) =~= texts_view(full).skip(1));
    }
}

/// The first position of a metric named `name`, or the length.
fn position_of_name(ms: &Vec<MetricSample>, name: &String) -> (r: usize)
    ensures
        r == name_index(samples_view(ms@), name@),
        r <= ms.len(),
{
    let ghost s = samples_view(ms@);
    assert(s.skip(0) =~= s);
    let mut i: usize = 0;
    while i < ms.len()
        invariant
            0 <= i <= ms.len(),
            s == samples_view(ms@),
            name_index(s, name@) == i + name_index(s.skip(i as int), name@),
        decreases ms.len() - i,
    {
        assert(s.skip(i as int)[0] == ms@[i as int]@);
        if text_eq(ms[i].name.as_str(), name.as_str()) {
            return i;
        }
        assert(s.skip(i as int).drop_first() =~= s.skip(i + 1));
        i += 1;
    }
    i
}


/// The first position of filter `t` in `opts`, or the length.
fn position_of_target(opts: &Vec<TargetFilter>, t: &TargetFilter) -> (r: usize)
    ensures
        r == target_index(targets_view(opts@), t@),
{
    let ghost v = targets_view(opts@);
    proof {
        lemma_target_index(v, t@);
    }
    let mut i: usize = 0;
    while i < opts.len()
        invariant
            0 <= i <= opts.len(),
            v == targets_view(opts@),
            i <= target_index(v, t@),
            0 <= target_index(v, t@) <= v.len(),
            target_index(v, t@) < v.len() ==> v[target_index(v, t@)] == t@,
        decreases opts.len() - i,
    {
        if same_target(&opts[i], t) {
            assert(v[i as int] == t@);
            proof {
                lemma_target_index(v, t@);
            }
            return i;
        }
        i += 1;
    }
    i
}

/// The filter and picker cursor in effect before the options change.
struct TargetStateSnapshot {
    selected: Option<TargetFilter>,
    cursor: Option<TargetFilter>,
}

/// Which remembered target state did not survive.
struct TargetStateRestore {
    selected_missing: bool,
    cursor_missing: bool,
}

/// A filter as texts, if there is one.
pub open spec fn target_opt_view(t: Option<TargetFilter>) -> Option<TargetView> {
    match t {
        Some(x) => Some(x@),
        None => None,
    }
}

impl App {
    /// The filter in effect and, while the picker is open, the filter under
    /// its cursor.
    fn capture_target_state(&self) -> (s: TargetStateSnapshot)
        ensures
            target_opt_view(s.selected) == selected_option(*self),
            target_opt_view(s.cursor) == cursor_option(*self),
    {
        let selected = if self.target_selected < self.target_options.len() {
            Some(self.target_options[self.target_selected].copy())
        } else {
            None
        };
        let cursor = if self.target_picker_open && self.target_cursor < self.target_options.len() {
            Some(self.target_options[self.target_cursor].copy())
        } else {
            None
        };
        TargetStateSnapshot { selected, cursor }
    }

    /// Puts the selection and the cursor back on the filters of `previous`
    /// where the options still hold them.
    fn restore_target_state(&mut self, previous: TargetStateSnapshot) -> (r: TargetStateRestore)
        ensures
            ({
                let opts = targets_view(old(self).target_options@);
                let sel = found_or(opts, target_opt_view(previous.selected), 0);
                &&& final(self).target_selected == sel
                &&& final(self).target_cursor == found_or(opts, target_opt_view(previous.cursor), sel)
                &&& r.selected_missing == missing(opts, target_opt_view(previous.selected))
                &&& r.cursor_missing == missing(opts, target_opt_view(previous.cursor))
            }),
            *final(self) == (App {
                target_selected: final(self).target_selected,
                target_cursor: final(self).target_cursor,
                ..*old(self)
            }),
    {
        let n = self.target_options.len();
        let mut selected_missing = false;
        let mut cursor_missing = false;
        let sel = match &previous.selected {
            Some(current) => {
                let i = position_of_target(&self.target_options, current);
                if i < n {
                    i
                } else {
                    selected_missing = true;
                    0
                }
            },
            None => 0,
        };
        let cur = match &previous.cursor {
            Some(current) => {
                let i = position_of_target(&self.target_options, current);
                if i < n {
                    i
                } else {
                    cursor_missing = true;
                    sel
                }
            },
            None => sel,
        };
        self.target_selected = sel;
        self.target_cursor = cur;
        TargetStateRestore { selected_missing, cursor_missing }
    }

    /// Sets the notice that says which remembered target state was lost.
    fn apply_target_restore(&mut self, restore: TargetStateRestore)
        ensures
            notice_view(*final(self)) == notice_for(restore.selected_missing, restore.cursor_missing),
            *final(self) == (App { target_notice: final(self).target_notice, ..*old(self) }),
    {
        self.target_notice = if restore.selected_missing && restore.cursor_missing {
            Some(String::from_str("previous target selection and picker cursor are no longer available"))
        } else if restore.selected_missing {
            Some(String::from_str("previous target selection is no longer available"))
        } else if restore.cursor_missing {
            Some(String::from_str("previous picker cursor target is no longer available"))
        } else {
            None
        };
    }

    /// Replaces the target options, keeping the selection and the picker
    /// cursor where it can.
    fn set_target_options(&mut self, options: Vec<TargetFilter>)
        ensures
            retargeted(*old(self), *final(self), targets_view(options@)),
    {
        let previous = self.capture_target_state();
        self.target_options = options;
        let restore = self.restore_target_state(previous);
        self.apply_target_restore(restore);
    }

    /// Offers the filters that the loaded samples report.
    fn refresh_target_options(&mut self)
        ensures
            retargeted(*old(self), *final(self), target_options_spec(metric_targets(samples_view(old(self).all_metrics@)))),
    {
        let ghost all = samples_view(self.all_metrics@);
        let mut filters: Vec<TargetFilter> = Vec::new();
        let mut i: usize = 0;
        while i < self.all_metrics.len()
            invariant
                0 <= i <= self.all_metrics.len(),
                all == samples_view(self.all_metrics@),
                targets_view(filters@) == metric_targets(all.take(i as int)),
            decreases self.all_metrics.len() - i,
        {
            let m = &self.all_metrics[i];
            proof {
                all.lemma_filter_map_take_succ(|m: SampleView| metric_target(m), i as int);
            }
            assert(all[i as int] == m@);
            match label_value(&m.labels, "job") {
                Some(job) => {
                    let target = match label_value(&m.labels, "instance") {
                        Some(v) => v,
                        None => match label_value(&m.labels, "target") {
                            Some(v) => v,
                            None => String::from_str("-"),
                        },
                    };
                    let ghost before = targets_view(filters@);
                    let f = TargetFilter { job, target };
                    let ghost fv = f@;
                    filters.push(f);
                    assert(targets_view(filters@) =~= before + seq![fv]);
                },
                None => {},
            }
            i += 1;
        }
        assert(all.take(all.len() as int) =~= all);
        let options = build_target_options(filters);
        self.set_target_options(options);
    }
}


/// The sample metrics shown when no Prometheus is configured.
pub const SAMPLE_PROMETHEUS: &'static str = "\n# HELP up Was the last scrape of the target successful.\n# TYPE up gauge\nup{job=\"node\",instance=\"localhost:9100\"} 1\nprocess_cpu_seconds_total{instance=\"localhost:9100\"} 12.4\nprocess_resident_memory_bytes{instance=\"localhost:9100\"} 4.194304e+07\nhttp_requests_total{method=\"GET\",code=\"200\"} 128\nhttp_requests_total{method=\"GET\",code=\"500\"} 3\n";

/// The sample metrics, with their length made known.
fn sample_text() -> (s: &'static str)
    ensures
        s@ == SAMPLE_PROMETHEUS@,
        s@.len() < usize::MAX,
{
    proof {
        reveal_strlit("\n# HELP up Was the last scrape of the target successful.\n# TYPE up gauge\nup{job=\"node\",instance=\"localhost:9100\"} 1\nprocess_cpu_seconds_total{instance=\"localhost:9100\"} 12.4\nprocess_resident_memory_bytes{instance=\"localhost:9100\"} 4.194304e+07\nhttp_requests_total{method=\"GET\",code=\"200\"} 128\nhttp_requests_total{method=\"GET\",code=\"500\"} 3\n");
    }
    SAMPLE_PROMETHEUS
}

/// `prefix` followed by `detail`.
pub(crate) fn prefixed(prefix: &str, detail: &str) -> (r: String)
    ensures
        r@ == prefix@ + detail@,
{
    let mut r = String::from_str(prefix);
    r.append(detail);
    r
}

impl App {
    /// Loads `metrics` as the new samples: records their values, offers the
    /// filters they report and rebuilds the list.
    fn set_metrics(&mut self, metrics: Vec<MetricSample>)
        requires
            histories_capped(old(self).metric_history@),
        ensures
            loaded_into(*old(self), *final(self), samples_view(metrics@)),
    {
        let previous = self.selected_metric_key();
        self.all_metrics = metrics;
        self.record_metric_history();
        self.refresh_target_options();
        let ghost opts = targets_view(self.target_options@);
        proof {
            match selected_option(*old(self)) {
                Some(x) => lemma_target_index(opts, x),
                None => {},
            }
        }
        assert(self.target_selected < self.target_options.len());
        self.rebuild_metrics_view(&previous);
    }

    /// Loads `metrics` as the samples of the filter in effect.
    fn set_target_metrics(&mut self, metrics: Vec<MetricSample>)
        requires
            histories_capped(old(self).metric_history@),
            old(self).target_selected < old(self).target_options.len(),
        ensures
            target_loaded(*old(self), *final(self), samples_view(metrics@)),
    {
        let previous = self.selected_metric_key();
        self.all_metrics = metrics;
        self.record_metric_history();
        self.rebuild_metrics_view(&previous);
    }

    /// Forgets everything loaded and shows `status`.
    fn reset_failed_state(&mut self, status: String)
        ensures
            failed(*old(self), *final(self), status@),
    {
        self.all_metrics = Vec::new();
        self.metrics = Vec::new();
        self.metric_history = Vec::new();
        let mut options: Vec<TargetFilter> = Vec::new();
        options.push(TargetFilter::wildcard());
        self.target_options = options;
        self.target_selected = 0;
        self.target_cursor = 0;
        self.target_picker_open = false;
        self.cursor = 0;
        self.selected_metrics = Vec::new();
        self.target_notice = None;
        self.status = status;
        assert(targets_view(self.target_options@) =~= seq![wildcard_view()]);
    }

    /// Loads metrics from exposition text; on a parse error, forgets what was
    /// loaded and says why.
    pub fn reload_from_str(&mut self, input: &str)
        requires
            app_wf(*old(self)),
            input@.len() < usize::MAX,
        ensures
            app_wf(*final(self)),
            match parse_metrics_spec(input@) {
                Ok(ms) => loaded_into(*old(self), *final(self), ms),
                Err(e) => failed(*old(self), *final(self), "parse error: "@ + e),
            },
    {
        match parse_metrics(input) {
            Ok(metrics) => {
                self.set_metrics(metrics);
                proof {
                    let opts = targets_view(self.target_options@);
                    match cursor_option(*old(self)) {
                        Some(x) => lemma_target_index(opts, x),
                        None => {},
                    }
                    match selected_option(*old(self)) {
                        Some(x) => lemma_target_index(opts, x),
                        None => {},
                    }
                    lemma_filter_no_duplicates(
                        old(self).selected_metrics.deep_view(),
                        listed(samples_view(self.metrics@)),
                    );
                    assert(self.target_options@[0]@ == targets_view(self.target_options@)[0]);
                }

            },
            Err(err) => {
                self.reset_failed_state(prefixed("parse error: ", err.as_str()));
                assert(self.selected_metrics.deep_view().len() == 0);
                assert(targets_view(self.target_options@).len() == self.target_options@.len());
                assert(self.target_options@[0]@ == targets_view(self.target_options@)[0]);
            },
        }
    }
}


impl App {
    /// Moves the cursor to the next metric, wrapping at the end.
    pub fn next(&mut self)
        requires
            app_wf(*old(self)),
        ensures
            app_wf(*final(self)),
            final(self).cursor == moved(old(self).cursor, old(self).metrics.len(), 1),
            *final(self) == (App { cursor: final(self).cursor, ..*old(self) }),
    {
        let n = self.metrics.len();
        let _ = advance_wrapped_index(&mut self.cursor, n, 1);
    }

    /// Moves the cursor to the previous metric, wrapping at the start.
    pub fn previous(&mut self)
        requires
            app_wf(*old(self)),
        ensures
            app_wf(*final(self)),
            final(self).cursor == moved(old(self).cursor, old(self).metrics.len(), -1),
            *final(self) == (App { cursor: final(self).cursor, ..*old(self) }),
    {
        let n = self.metrics.len();
        let _ = advance_wrapped_index(&mut self.cursor, n, -1);
    }

    /// The metric under the cursor.
    pub fn selected_metric(&self) -> (r: Option<&MetricSample>)
        ensures
            match r {
                Some(m) => self.cursor < self.metrics.len() && *m == self.metrics@[self.cursor as int],
                None => self.cursor >= self.metrics.len(),
            },
    {
        if self.cursor < self.metrics.len() {
            Some(&self.metrics[self.cursor])
        } else {
            None
        }
    }

    /// The recorded values of the metric under the cursor, oldest first.
    pub fn selected_metric_history(&self) -> (r: Vec<String>)
        ensures
            texts_view(r@) == match current_key(*self) {
                Some(k) => history_of(*self, k),
                None => seq![],
            },
    {
        if self.cursor < self.metrics.len() {
            let m = &self.metrics[self.cursor];
            let j = record_position(&self.metric_history, &m.name, &m.labels);
            proof {
                lemma_record_index(self.metric_history@, sample_key(m@));
            }
            if j < self.metric_history.len() {
                copy_texts(&self.metric_history[j].values)
            } else {
                let r: Vec<String> = Vec::new();
                assert(texts_view(r@) =~= seq![]);
                r
            }
        } else {
            let r: Vec<String> = Vec::new();
            assert(texts_view(r@) =~= seq![]);
            r
        }
    }

    /// Adds the metric under the cursor to the selection, or takes it out
    /// when it is there.
    pub fn toggle_metric_selection(&mut self)
        requires
            app_wf(*old(self)),
        ensures
            app_wf(*final(self)),
            match current_key(*old(self)) {
                None => *final(self) == *old(self),
                Some(k) => {
                    let name = old(self).metrics@[old(self).cursor as int].name@;
                    &&& final(self).selected_metrics.deep_view() == toggled(
                        old(self).selected_metrics.deep_view(),
                        k,
                    )
                    &&& final(self).status@ == if old(self).selected_metrics.deep_view().contains(k) {
                        "unselected "@ + name
                    } else {
                        "selected "@ + name
                    }
                    &&& *final(self) == (App {
                        selected_metrics: final(self).selected_metrics,
                        status: final(self).status,
                        ..*old(self)
                    })
                },
            },
    {
        if self.cursor >= self.metrics.len() {
            return;
        }
        let ghost sel = self.selected_metrics.deep_view();
        let name = self.metrics[self.cursor].name.clone();
        let labels = copy_labels(&self.metrics[self.cursor].labels);
        let ghost k = (name@, labels.deep_view());
        assert(current_key(*self) == Some(k));
        let mut kept: Vec<(String, Vec<(String, String)>)> = Vec::new();
        let mut found = false;
        let mut i: usize = 0;
        while i < self.selected_metrics.len()
            invariant
                0 <= i <= self.selected_metrics.len(),
                sel == self.selected_metrics.deep_view(),
                k == (name@, labels.deep_view()),
                kept.deep_view() == sel.take(i as int).filter(other_than(k)),
                found == sel.take(i as int).contains(k),
            decreases self.selected_metrics.len() - i,
        {
            let e = &self.selected_metrics[i];
            let ghost x = sel[i as int];
            assert(x == (e.0@, e.1.deep_view()));
            proof {
                sel.take(i as int).lemma_filter_push(x, other_than(k));
            }
            assert(sel.take(i + 1) =~= sel.take(i as int).push(x));
            proof {
                lemma_contains_push(sel.take(i as int), k, x);
            }
            if text_eq(e.0.as_str(), name.as_str()) && same_labels(&e.1, &labels) {
                found = true;
            } else {
                let ghost before = kept.deep_view();
                kept.push((e.0.clone(), copy_labels(&e.1)));
                assert(kept.deep_view() =~= before.push(x));
            }
            i += 1;
        }
        assert(sel.take(sel.len() as int) =~= sel);
        if found {
            self.selected_metrics = kept;
            self.status = prefixed("unselected ", name.as_str());
            proof {
                lemma_filter_no_duplicates(sel, other_than(k));
                let f = sel.filter(other_than(k));
                assert forall|i: int| 0 <= i < f.len() implies has_metric_key(
                    samples_view(self.metrics@),
                    #[trigger] f[i],
                ) by {
                    assert(f.contains(f[i]));
                    sel.lemma_filter_contains_rev(other_than(k), f[i]);
                }
            }
        } else {
            let ghost before = self.selected_metrics.deep_view();
            self.selected_metrics.push((name.clone(), labels));
            assert(self.selected_metrics.deep_view() =~= before.push(k));
            assert(sample_key(samples_view(self.metrics@)[self.cursor as int]) == k);
            self.status = prefixed("selected ", name.as_str());
        }
    }

    /// Empties the selection.
    pub fn clear_metric_selection(&mut self)
        requires
            app_wf(*old(self)),
        ensures
            app_wf(*final(self)),
            final(self).selected_metrics@.len() == 0,
            final(self).status@ == "selection cleared"@,
            *final(self) == (App {
                selected_metrics: final(self).selected_metrics,
                status: final(self).status,
                ..*old(self)
            }),
    {
        self.selected_metrics = Vec::new();
        self.status = String::from_str("selection cleared");
        assert(self.selected_metrics.deep_view().len() == 0);
    }

    /// Whether a metric is selected.
    pub fn is_metric_selected(&self, metric: &MetricSample) -> (r: bool)
        ensures
            r == self.selected_metrics.deep_view().contains(sample_key(metric@)),
    {
        let ghost sel = self.selected_metrics.deep_view();
        let ghost k = sample_key(metric@);
        let mut i: usize = 0;
        while i < self.selected_metrics.len()
            invariant
                0 <= i <= self.selected_metrics.len(),
                sel == self.selected_metrics.deep_view(),
                k == sample_key(metric@),
                !sel.take(i as int).contains(k),
            decreases self.selected_metrics.len() - i,
        {
            let e = &self.selected_metrics[i];
            assert(sel[i as int] == (e.0@, e.1.deep_view()));
            if text_eq(e.0.as_str(), metric.name.as_str()) && same_labels(&e.1, &metric.labels) {
                return true;
            }
            assert(sel.take(i + 1) =~= sel.take(i as int).push(sel[i as int]));
            proof {
                lemma_contains_push(sel.take(i as int), k, sel[i as int]);
            }
            i += 1;
        }
        assert(sel.take(sel.len() as int) =~= sel);
        false
    }

    /// How many metrics are selected.
    pub fn selected_metrics_len(&self) -> (n: usize)
        ensures
            n == self.selected_metrics@.len(),
    {
        self.selected_metrics.len()
    }

    /// Puts the filter that was moved to in effect.
    fn apply_target_selection(&mut self)
        requires
            app_wf(*old(self)),
        ensures
            selection_applied(*old(self), *final(self)),
    {
        match &self.source {
            DataSource::Sample => {
                let previous = self.selected_metric_key();
                self.rebuild_metrics_view(&previous);
            },
            DataSource::PrometheusApi { base_url } => {
                let target = self.target_options[self.target_selected].copy();
                self.pending = Some(Request::FetchTargetMetrics { base_url: base_url.clone(), target });
            },
        }
    }

    /// Puts the next target filter in effect, wrapping at the end.
    pub fn next_target(&mut self)
        requires
            app_wf(*old(self)),
        ensures
            app_wf(*final(self)),
            ({
                let w = moved(old(self).target_selected, old(self).target_options.len(), 1) as usize;
                selection_applied(App { target_selected: w, target_cursor: w, ..*old(self) }, *final(self))
            }),
    {
        let n = self.target_options.len();
        if advance_wrapped_index(&mut self.target_selected, n, 1) {
            self.target_cursor = self.target_selected;
            let ghost mid = *self;
            self.apply_target_selection();
            proof {
                lemma_applied_wf(mid, *self);
            }
        }
    }

    /// Puts the previous target filter in effect, wrapping at the start.
    pub fn previous_target(&mut self)
        requires
            app_wf(*old(self)),
        ensures
            app_wf(*final(self)),
            ({
                let w = moved(old(self).target_selected, old(self).target_options.len(), -1) as usize;
                selection_applied(App { target_selected: w, target_cursor: w, ..*old(self) }, *final(self))
            }),
    {
        let n = self.target_options.len();
        if advance_wrapped_index(&mut self.target_selected, n, -1) {
            self.target_cursor = self.target_selected;
            let ghost mid = *self;
            self.apply_target_selection();
            proof {
                lemma_applied_wf(mid, *self);
            }
        }
    }
}


/// The other history view.
pub open spec fn flipped(v: HistoryView) -> HistoryView {
    match v {
        HistoryView::Graph => HistoryView::Table,
        HistoryView::Table => HistoryView::Graph,
    }
}

impl App {
    /// The filter in effect.
    pub fn selected_target(&self) -> (t: &TargetFilter)
        requires
            app_wf(*self),
        ensures
            *t == self.target_options@[self.target_selected as int],
    {
        &self.target_options[self.target_selected]
    }

    /// Seconds between metric reloads: the configured value, else 15.
    pub fn refresh_secs(&self) -> (n: u64)
        ensures
            n == refresh_value(self.display),
    {
        match self.display.refresh_secs {
            Some(x) => x,
            None => 15,
        }
    }

    /// Seconds between log polls.
    pub fn log_poll_secs(&self) -> (n: u64)
        ensures
            n == self.loki_poll_secs,
    {
        self.loki_poll_secs
    }

    /// Whether the log screen is shown.
    pub fn is_logs_screen(&self) -> (b: bool)
        ensures
            b == (self.screen == ScreenMode::Logs),
    {
        self.screen == ScreenMode::Logs
    }

    /// Switches between the graph and the table of the history.
    pub fn toggle_history_view(&mut self)
        requires
            app_wf(*old(self)),
        ensures
            app_wf(*final(self)),
            final(self).history_view == flipped(old(self).history_view),
            final(self).status@ == "history view: "@ + history_label(final(self).history_view),
            *final(self) == (App {
                history_view: final(self).history_view,
                status: final(self).status,
                ..*old(self)
            }),
    {
        self.history_view = match self.history_view {
            HistoryView::Graph => HistoryView::Table,
            HistoryView::Table => HistoryView::Graph,
        };
        self.status = prefixed("history view: ", self.history_view.label());
    }

    /// Opens the metric filter input.
    pub fn open_filter_input(&mut self)
        requires
            app_wf(*old(self)),
        ensures
            app_wf(*final(self)),
            final(self).filter_input_open,
            final(self).status@ == "filter metrics: "@ + old(self).filter_query@,
            *final(self) == (App {
                filter_input_open: true,
                status: final(self).status,
                ..*old(self)
            }),
    {
        self.filter_input_open = true;
        self.status = prefixed("filter metrics: ", self.filter_query.as_str());
    }

    /// Closes the metric filter input, keeping the filter.
    pub fn close_filter_input(&mut self)
        requires
            app_wf(*old(self)),
        ensures
            app_wf(*final(self)),
            !final(self).filter_input_open,
            final(self).status@ == loaded_status(
                old(self).metrics.len() as nat,
                selected_target_view(*old(self)),
                notice_view(*old(self)),
            ),
            *final(self) == (App {
                filter_input_open: false,
                status: final(self).status,
                target_notice: None,
                ..*old(self)
            }),
    {
        self.filter_input_open = false;
        self.update_loaded_status();
    }

    /// Adds a character to the metric filter.
    pub fn push_filter_char(&mut self, ch: char)
        requires
            app_wf(*old(self)),
        ensures
            app_wf(*final(self)),
            filter_edited(*old(self), *final(self), old(self).filter_query@.push(ch)),
            final(self).status@ == "filter metrics: "@ + final(self).filter_query@,
    {
        let previous = self.selected_metric_key();
        push_char(&mut self.filter_query, ch);
        let ghost mid = *self;
        self.rebuild_metrics_view(&previous);
        proof {
            lemma_rebuilt_wf(mid, *self, key_opt_view(previous));
        }
        self.status = prefixed("filter metrics: ", self.filter_query.as_str());
    }

    /// Deletes the last character of the metric filter.
    pub fn pop_filter_char(&mut self)
        requires
            app_wf(*old(self)),
        ensures
            app_wf(*final(self)),
            filter_edited(
                *old(self),
                *final(self),
                if old(self).filter_query@.len() > 0 {
                    old(self).filter_query@.drop_last()
                } else {
                    old(self).filter_query@
                },
            ),
            final(self).status@ == "filter metrics: "@ + final(self).filter_query@,
    {
        let previous = self.selected_metric_key();
        let _ = pop_char(&mut self.filter_query);
        let ghost mid = *self;
        self.rebuild_metrics_view(&previous);
        proof {
            lemma_rebuilt_wf(mid, *self, key_opt_view(previous));
        }
        self.status = prefixed("filter metrics: ", self.filter_query.as_str());
    }

    /// Clears the metric filter.
    pub fn clear_filter(&mut self)
        requires
            app_wf(*old(self)),
        ensures
            app_wf(*final(self)),
            filter_edited(*old(self), *final(self), seq![]),
            final(self).status@ == "filter cleared"@,
            samples_view(final(self).metrics@) == capped(
                samples_view(old(self).all_metrics@).filter(
                    |m: SampleView| matches_target(selected_target_view(*old(self)), m),
                ),
                old(self).display.max_metrics,
            ),
    {
        let previous = self.selected_metric_key();
        self.filter_query = String::new();
        let ghost mid = *self;
        self.rebuild_metrics_view(&previous);
        proof {
            let all = samples_view(mid.all_metrics@);
            let t = selected_target_view(mid);
            assert(shown(t, metric_needle(mid)) =~= (|m: SampleView| matches_target(t, m)));
        }
        proof {
            lemma_rebuilt_wf(mid, *self, key_opt_view(previous));
        }
        self.status = String::from_str("filter cleared");
    }

    /// Opens the target picker on the filter in effect.
    pub fn open_target_picker(&mut self)
        requires
            app_wf(*old(self)),
        ensures
            app_wf(*final(self)),
            final(self).status@ == "select target and press Enter"@,
            *final(self) == (App {
                target_picker_open: true,
                target_cursor: old(self).target_selected,
                status: final(self).status,
                ..*old(self)
            }),
    {
        self.target_picker_open = true;
        self.target_cursor = self.target_selected;
        self.status = String::from_str("select target and press Enter");
    }

    /// Closes the target picker without changing the filter.
    pub fn close_target_picker(&mut self)
        requires
            app_wf(*old(self)),
        ensures
            app_wf(*final(self)),
            final(self).status@ == loaded_status(
                old(self).metrics.len() as nat,
                selected_target_view(*old(self)),
                notice_view(*old(self)),
            ),
            *final(self) == (App {
                target_picker_open: false,
                status: final(self).status,
                target_notice: None,
                ..*old(self)
            }),
    {
        self.target_picker_open = false;
        self.update_loaded_status();
    }

    /// Moves the picker cursor down, wrapping at the end.
    pub fn picker_next(&mut self)
        requires
            app_wf(*old(self)),
        ensures
            app_wf(*final(self)),
            final(self).target_cursor == moved(old(self).target_cursor, old(self).target_options.len(), 1),
            *final(self) == (App { target_cursor: final(self).target_cursor, ..*old(self) }),
    {
        let n = self.target_options.len();
        let _ = advance_wrapped_index(&mut self.target_cursor, n, 1);
    }

    /// Moves the picker cursor up, wrapping at the start.
    pub fn picker_previous(&mut self)
        requires
            app_wf(*old(self)),
        ensures
            app_wf(*final(self)),
            final(self).target_cursor == moved(old(self).target_cursor, old(self).target_options.len(), -1),
            *final(self) == (App { target_cursor: final(self).target_cursor, ..*old(self) }),
    {
        let n = self.target_options.len();
        let _ = advance_wrapped_index(&mut self.target_cursor, n, -1);
    }

    /// Puts the filter under the picker cursor in effect and closes the picker.
    pub fn picker_apply(&mut self)
        requires
            app_wf(*old(self)),
        ensures
            app_wf(*final(self)),
            selection_applied(
                App {
                    target_selected: old(self).target_cursor,
                    target_picker_open: false,
                    ..*old(self)
                },
                *final(self),
            ),
    {
        if self.target_options.len() == 0 {
            return;
        }
        self.target_selected = self.target_cursor;
        self.target_picker_open = false;
        let ghost mid = *self;
        self.apply_target_selection();
        proof {
            lemma_applied_wf(mid, *self);
        }
    }

    /// Loads the metrics again: the built-in samples, or a request for the
    /// Prometheus targets.
    pub fn reload(&mut self)
        requires
            app_wf(*old(self)),
        ensures
            app_wf(*final(self)),
            reloaded(*old(self), *final(self)),
    {
        match &self.source {
            DataSource::Sample => {
                self.source_label = String::from_str("sample");
                self.reload_from_str(sample_text());
            },
            DataSource::PrometheusApi { base_url } => {
                self.source_label = base_url.clone();
                self.pending = Some(Request::FetchTargets { base_url: base_url.clone() });
            },
        }
    }

    /// Hands out the data that the last operation is waiting for.
    pub fn take_request(&mut self) -> (r: Option<Request>)
        ensures
            app_wf(*old(self)) ==> app_wf(*final(self)),
            r == old(self).pending,
            *final(self) == (App { pending: None, ..*old(self) }),
    {
        let r = self.pending.take();
        r
    }
}


/// The source a Prometheus configuration selects.
fn build_source(prometheus: PrometheusConfig) -> (s: DataSource)
    ensures
        source_from(s, prometheus),
{
    match prometheus.base_url {
        Some(base_url) => DataSource::PrometheusApi { base_url },
        None => DataSource::Sample,
    }
}

/// Replacing the options by a non-empty run keeps the invariant.
pub proof fn lemma_retargeted_wf(old: App, new: App, opts: Seq<TargetView>)
    requires
        app_wf(old),
        retargeted(old, new, opts),
        opts.len() >= 1,
        opts[0] == wildcard_view(),
    ensures
        app_wf(new),
{
    match selected_option(old) {
        Some(x) => lemma_target_index(opts, x),
        None => {},
    }
    match cursor_option(old) {
        Some(x) => lemma_target_index(opts, x),
        None => {},
    }
    assert(new.target_options@.len() == opts.len());
    assert(new.target_options@[0]@ == opts[0]);
}

impl App {
    /// A dashboard for a Prometheus source and the default Loki settings,
    /// after its first load.
    pub fn new(prometheus: PrometheusConfig, display: DisplayConfig) -> (app: App)
        ensures
            app_wf(app),
            exists|a0: App, l: LokiConfig|
                #[trigger] fresh(a0, prometheus, l, display) && default_loki(l) && reloaded(a0, app),
    {
        let loki = LokiConfig::default();
        let ghost l = loki;
        let app = Self::with_loki(prometheus, loki, display);
        let ghost a0 = choose|a0: App| #[trigger] fresh(a0, prometheus, l, display) && reloaded(a0, app);
        assert(fresh(a0, prometheus, l, display) && default_loki(l) && reloaded(a0, app));
        app
    }

    /// A dashboard for Prometheus and Loki sources, after its first load.
    pub fn with_loki(prometheus: PrometheusConfig, loki: LokiConfig, display: DisplayConfig) -> (app: App)
        ensures
            app_wf(app),
            exists|a0: App| #[trigger] fresh(a0, prometheus, loki, display) && reloaded(a0, app),
    {
        let ghost p0 = prometheus;
        let ghost l0 = loki;
        let ghost d0 = display;
        let source = build_source(prometheus);
        let loki_poll_secs = if loki.poll_secs > 1 {
            loki.poll_secs
        } else {
            1
        };
        let client = LokiClient::new(loki);
        let mut options: Vec<TargetFilter> = Vec::new();
        options.push(TargetFilter::wildcard());
        let mut app = App {
            metrics: Vec::new(),
            cursor: 0,
            status: String::from_str("initializing"),
            source_label: String::new(),
            filter_query: String::new(),
            filter_input_open: false,
            target_options: options,
            target_selected: 0,
            target_picker_open: false,
            target_cursor: 0,
            history_view: HistoryView::Graph,
            screen: ScreenMode::Metrics,
            log_focus: LogFocus::Hosts,
            log_hosts: Vec::new(),
            log_host_selected: 0,
            log_names: Vec::new(),
            log_name_selected: 0,
            log_entries: Vec::new(),
            log_filter_query: String::new(),
            log_filter_input_open: false,
            source,
            loki: client,
            loki_poll_secs,
            log_streams: Vec::new(),
            log_tail_offset: 0,
            last_log_timestamp_ns: None,
            display,
            all_metrics: Vec::new(),
            metric_history: Vec::new(),
            selected_metrics: Vec::new(),
            target_notice: None,
            pending: None,
        };
        assert(targets_view(app.target_options@) =~= seq![wildcard_view()]);
        assert(app.selected_metrics.deep_view().len() == 0);
        let ghost a0 = app;
        assert(fresh(a0, p0, l0, d0));
        app.reload();
        app
    }

    /// Takes in the target options a Prometheus server reported, then asks
    /// for the samples of the filter in effect; on an error, forgets what
    /// was loaded and says why.
    pub fn complete_targets(&mut self, result: Result<Vec<TargetFilter>, String>)
        requires
            app_wf(*old(self)),
            result matches Ok(v) ==> v.len() >= 1 && v@[0]@ == wildcard_view(),
        ensures
            app_wf(*final(self)),
            match result {
                Ok(v) => {
                    &&& retargeted(*old(self), App { pending: old(self).pending, ..*final(self) }, targets_view(v@))
                    &&& match old(self).source {
                        DataSource::PrometheusApi { base_url } => final(self).pending matches Some(
                            Request::FetchTargetMetrics { base_url: b, target: t },
                        ) && b@ == base_url@ && t@ == targets_view(v@)[final(self).target_selected as int],
                        DataSource::Sample => final(self).pending == old(self).pending,
                    }
                },
                Err(e) => failed(*old(self), *final(self), "fetch error: "@ + e@),
            },
    {
        match result {
            Ok(options) => {
                let ghost opts = targets_view(options@);
                self.set_target_options(options);
                proof {
                    lemma_retargeted_wf(*old(self), *self, opts);
                }
                match &self.source {
                    DataSource::PrometheusApi { base_url } => {
                        let target = self.target_options[self.target_selected].copy();
                        self.pending = Some(Request::FetchTargetMetrics { base_url: base_url.clone(), target });
                    },
                    DataSource::Sample => {},
                }
            },
            Err(err) => {
                self.reset_failed_state(prefixed("fetch error: ", err.as_str()));
                assert(self.selected_metrics.deep_view().len() == 0);
                assert(targets_view(self.target_options@).len() == self.target_options@.len());
                assert(self.target_options@[0]@ == targets_view(self.target_options@)[0]);
            },
        }
    }

    /// Takes in the samples of the filter in effect; on an error, forgets
    /// what was loaded and says why.
    pub fn complete_target_metrics(&mut self, result: Result<Vec<MetricSample>, String>)
        requires
            app_wf(*old(self)),
        ensures
            app_wf(*final(self)),
            match result {
                Ok(v) => target_loaded(*old(self), *final(self), samples_view(v@)),
                Err(e) => failed(*old(self), *final(self), "fetch error: "@ + e@),
            },
    {
        match result {
            Ok(metrics) => {
                self.set_target_metrics(metrics);
                proof {
                    lemma_filter_no_duplicates(
                        old(self).selected_metrics.deep_view(),
                        listed(samples_view(self.metrics@)),
                    );
                    assert(self.target_options@[0]@ == targets_view(self.target_options@)[0]);
                }
            },
            Err(err) => {
                self.reset_failed_state(prefixed("fetch error: ", err.as_str()));
                assert(self.selected_metrics.deep_view().len() == 0);
                assert(targets_view(self.target_options@).len() == self.target_options@.len());
                assert(self.target_options@[0]@ == targets_view(self.target_options@)[0]);
            },
        }
    }
}

} // verus!
