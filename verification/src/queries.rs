//! The Prometheus HTTP API as the dashboard uses it: the requests it makes
//! (as URLs and query expressions) and what it makes of the decoded replies.

use vstd::prelude::*;
use crate::text::{join_url, trim_trailing_slashes, escape_quotes, escape_quoted, text_eq, chars_of};
use crate::numbers::{is_float_literal, float_literal_in};
use crate::prometheus::{LabelsView, MetricSample, SampleView, samples_view};
use crate::targets::{
    TargetFilter, TargetView, build_target_options, label_value, label_value_spec, strictly_sorted,
    targets_view, wildcard_view,
};

verus! {

/// One element of a vector query result: the metric's labels (`__name__`
/// among them, in key order) and the sample value as text.
pub struct QuerySample {
    pub metric: Vec<(String, String)>,
    pub value_text: String,
}

/// The `data` member of a query reply.
pub struct QueryData {
    pub result_type: String,
    pub result: Vec<QuerySample>,
}

/// A query result element as texts.
pub open spec fn query_sample_view(q: QuerySample) -> (LabelsView, Seq<char>) {
    (q.metric.deep_view(), q.value_text@)
}

/// Query data as texts.
pub open spec fn query_data_view(d: QueryData) -> (Seq<char>, Seq<(LabelsView, Seq<char>)>) {
    (d.result_type@, d.result@.map_values(|q: QuerySample| query_sample_view(q)))
}

/// Optional query data as texts.
pub open spec fn query_data_opt_view(d: Option<QueryData>) -> Option<(Seq<char>, Seq<(LabelsView, Seq<char>)>)> {
    match d {
        Some(x) => Some(query_data_view(x)),
        None => None,
    }
}

/// The endpoint that lists series.
pub fn series_url(base_url: &str) -> (r: String)
    ensures
        r@ == trim_trailing_slashes(base_url@) + "/api/v1/series"@,
{
    join_url(base_url, "/api/v1/series")
}

/// The endpoint that evaluates an instant query.
pub fn query_url(base_url: &str) -> (r: String)
    ensures
        r@ == trim_trailing_slashes(base_url@) + "/api/v1/query"@,
{
    join_url(base_url, "/api/v1/query")
}

/// An HTTP GET to make to Prometheus: the URL, its query parameters, and how
/// long to wait for the reply in seconds.
pub struct PrometheusRequest {
    pub url: String,
    pub params: Vec<(String, String)>,
    pub timeout_secs: u64,
}

/// The request that lists the series of `up`, one per scraped target.
pub fn series_request(base_url: &str) -> (r: PrometheusRequest)
    ensures
        r.url@ == trim_trailing_slashes(base_url@) + "/api/v1/series"@,
        r.params.deep_view() == seq![("match[]"@, "up"@)],
        r.timeout_secs == 5,
{
    let mut params: Vec<(String, String)> = Vec::new();
    params.push((String::from_str("match[]"), String::from_str("up")));
    assert(params.deep_view() =~= seq![("match[]"@, "up"@)]);
    PrometheusRequest { url: series_url(base_url), params, timeout_secs: 5 }
}

/// The instant query for the samples of `target`.
pub fn target_metrics_request(base_url: &str, target: &TargetFilter) -> (r: PrometheusRequest)
    ensures
        r.url@ == trim_trailing_slashes(base_url@) + "/api/v1/query"@,
        r.params.deep_view() == seq![("query"@, target_expr(target@))],
        r.timeout_secs == 10,
{
    let mut params: Vec<(String, String)> = Vec::new();
    params.push((String::from_str("query"), target_metrics_expr(target)));
    assert(params.deep_view() =~= seq![("query"@, target_expr(target@))]);
    PrometheusRequest { url: query_url(base_url), params, timeout_secs: 10 }
}

/// Escapes a value for a double-quoted label matcher.
pub fn escape_matcher(value: &str) -> (r: String)
    ensures
        r@ == escape_quoted(value@),
{
    escape_quotes(value)
}

/// The query that selects a target's samples.
pub open spec fn target_expr(t: TargetView) -> Seq<char> {
    if t.0 == seq!['*'] {
        "{job!=\"\"}"@
    } else {
        "{job=\""@ + escape_quoted(t.0) + "\",instance=\""@ + escape_quoted(t.1) + "\"}"@
    }
}

/// The query expression that selects the samples of `target`: every series
/// with a job for the wildcard, the job and instance matchers otherwise.
pub fn target_metrics_expr(target: &TargetFilter) -> (r: String)
    ensures
        r@ == target_expr(target@),
{
    proof {
        reveal_strlit("*");
    }
    assert("*"@ =~= seq!['*']);
    if text_eq(target.job.as_str(), "*") {
        String::from_str("{job!=\"\"}")
    } else {
        let mut e = String::from_str("{job=\"");
        e.append(escape_matcher(target.job.as_str()).as_str());
        e.append("\",instance=\"");
        e.append(escape_matcher(target.target.as_str()).as_str());
        e.append("\"}");
        e
    }
}

/// Whether a label is the metric name.
pub open spec fn is_name_label(p: (Seq<char>, Seq<char>)) -> bool {
    p.0 == "__name__"@
}

/// The sample that a query result element stands for, or why it is refused.
pub open spec fn sample_from_query(metric: LabelsView, value: Seq<char>) -> Result<SampleView, Seq<char>> {
    if !is_float_literal(value) {
        Err("invalid sample value"@)
    } else {
        let name = match label_value_spec(metric, "__name__"@) {
            Some(n) => n,
            None => "unknown"@,
        };
        Ok((name, metric.filter(|p: (Seq<char>, Seq<char>)| !is_name_label(p)), value))
    }
}

/// Turns a query result element into a sample: the value must be a number,
/// the name comes from `__name__` (`unknown` without it), and the other labels
/// stay in their order.
pub fn into_metric_sample(sample: &QuerySample) -> (r: Result<MetricSample, String>)
    ensures
        match r {
            Ok(m) => sample_from_query(sample.metric.deep_view(), sample.value_text@) == Ok::<
                SampleView,
                Seq<char>,
            >(m@),
            Err(e) => sample_from_query(sample.metric.deep_view(), sample.value_text@) == Err::<
                SampleView,
                Seq<char>,
            >(e@),
        },
{
    let chars = chars_of(sample.value_text.as_str());
    if !float_literal_in(&chars, 0, chars.len()) {
        assert(chars@.subrange(0, chars.len() as int) =~= sample.value_text@);
        return Err(String::from_str("invalid sample value"));
    }
    assert(chars@.subrange(0, chars.len() as int) =~= sample.value_text@);
    let name = match label_value(&sample.metric, "__name__") {
        Some(n) => n,
        None => String::from_str("unknown"),
    };
    let ghost pred = |p: (Seq<char>, Seq<char>)| !is_name_label(p);
    let ghost mv = sample.metric.deep_view();
    let mut labels: Vec<(String, String)> = Vec::new();
    let mut i: usize = 0;
    assert(mv.take(0) =~= Seq::<(Seq<char>, Seq<char>)>::empty());
    proof {
        reveal(Seq::filter);
    }
    assert(labels.deep_view() =~= mv.take(0).filter(pred));
    while i < sample.metric.len()
        invariant
            0 <= i <= sample.metric.len(),
            mv == sample.metric.deep_view(),
            pred == (|p: (Seq<char>, Seq<char>)| !is_name_label(p)),
            labels.deep_view() == mv.take(i as int).filter(pred),
        decreases sample.metric.len() - i,
    {
        let ghost before = labels.deep_view();
        assert(mv.take(i + 1) =~= mv.take(i as int).push(mv[i as int]));
        proof {
            mv.take(i as int).lemma_filter_push(mv[i as int], pred);
        }
        assert(mv[i as int] == (sample.metric@[i as int].0@, sample.metric@[i as int].1@));
        if !text_eq(sample.metric[i].0.as_str(), "__name__") {
            let k = sample.metric[i].0.clone();
            let v = sample.metric[i].1.clone();
            labels.push((k, v));
            assert(labels.deep_view() =~= before.push(mv[i as int]));
        } else {
            assert(!pred(mv[i as int]));
        }
        i += 1;
    }
    assert(mv.take(sample.metric.len() as int) =~= mv);
    Ok(MetricSample { name, labels, value: sample.value_text.clone() })
}

/// The samples of a run of query result elements, or the first refusal.
pub open spec fn collect_samples(rs: Seq<(LabelsView, Seq<char>)>) -> Result<Seq<SampleView>, Seq<char>>
    decreases rs.len(),
{
    if rs.len() == 0 {
        Ok(seq![])
    } else {
        match collect_samples(rs.drop_last()) {
            Err(e) => Err(e),
            Ok(prefix) => match sample_from_query(rs.last().0, rs.last().1) {
                Ok(m) => Ok(prefix.push(m)),
                Err(e) => Err(e),
            },
        }
    }
}

/// What a query reply yields: its samples when it succeeded with a vector
/// result, the reason otherwise.
pub open spec fn metrics_from_query_spec(
    status: Seq<char>,
    data: Option<(Seq<char>, Seq<(LabelsView, Seq<char>)>)>,
) -> Result<Seq<SampleView>, Seq<char>> {
    if status != "success"@ {
        Err("query status "@ + status)
    } else {
        match data {
            None => Err("missing response data"@),
            Some((rt, rs)) => if rt != "vector"@ {
                Err("unsupported result type "@ + rt)
            } else {
                collect_samples(rs)
            },
        }
    }
}

/// The samples of a decoded query reply.
pub fn metrics_from_query(status: &str, data: Option<QueryData>) -> (r: Result<Vec<MetricSample>, String>)
    ensures
        match r {
            Ok(v) => metrics_from_query_spec(status@, query_data_opt_view(data))
                == Ok::<Seq<SampleView>, Seq<char>>(samples_view(v@)),
            Err(e) => metrics_from_query_spec(status@, query_data_opt_view(data))
                == Err::<Seq<SampleView>, Seq<char>>(e@),
        },
{
    if !text_eq(status, "success") {
        let mut e = String::from_str("query status ");
        e.append(status);
        return Err(e);
    }
    let d = match data {
        None => {
            return Err(String::from_str("missing response data"));
        },
        Some(d) => d,
    };
    if !text_eq(d.result_type.as_str(), "vector") {
        let mut e = String::from_str("unsupported result type ");
        e.append(d.result_type.as_str());
        return Err(e);
    }
    let ghost rs = query_data_view(d).1;
    let mut out: Vec<MetricSample> = Vec::new();
    let n = d.result.len();
    let mut i: usize = 0;
    assert(rs.take(0) =~= Seq::<(LabelsView, Seq<char>)>::empty());
    assert(samples_view(out@) =~= Seq::<SampleView>::empty());
    while i < n
        invariant
            n == d.result.len(),
            0 <= i <= n,
            rs == d.result@.map_values(|q: QuerySample| query_sample_view(q)),
            status@ == "success"@,
            d.result_type@ == "vector"@,
            query_data_opt_view(data) == Some((d.result_type@, rs)),
            collect_samples(rs.take(i as int)) == Ok::<Seq<SampleView>, Seq<char>>(samples_view(out@)),
        decreases n - i,
    {
        let q = &d.result[i];
        assert(rs.take(i + 1).drop_last() =~= rs.take(i as int));
        assert(rs.take(i + 1).last() == query_sample_view(*q));
        match into_metric_sample(q) {
            Ok(m) => {
                let ghost before = samples_view(out@);
                out.push(m);
                assert(samples_view(out@) =~= before.push(m@));
            },
            Err(e) => {
                assert(collect_samples(rs.take(i + 1)) == Err::<Seq<SampleView>, Seq<char>>(e@));
                proof {
                    lemma_collect_samples_err(rs, i as int + 1);
                }
                return Err(e);
            },
        }
        i += 1;
    }
    assert(rs.take(n as int) =~= rs);
    Ok(out)
}

proof fn lemma_collect_samples_err(rs: Seq<(LabelsView, Seq<char>)>, i: int)
    requires
        0 <= i <= rs.len(),
        collect_samples(rs.take(i)) is Err,
    ensures
        collect_samples(rs) == collect_samples(rs.take(i)),
    decreases rs.len() - i,
{
    if i < rs.len() {
        assert(rs.take(i + 1).drop_last() =~= rs.take(i));
        lemma_collect_samples_err(rs, i + 1);
    } else {
        assert(rs.take(i) =~= rs);
    }
}

/// The filter that a series stands for: its job and instance, when it has both.
pub open spec fn series_target(series: LabelsView) -> Option<TargetView> {
    match (label_value_spec(series, "job"@), label_value_spec(series, "instance"@)) {
        (Some(j), Some(t)) => Some((j, t)),
        _ => None,
    }
}

/// The target options of a decoded series reply: the reason when it did not
/// succeed, else the wildcard followed by each distinct job/instance pair of
/// the series, in order.
pub fn targets_from_series(status: &str, data: Vec<Vec<(String, String)>>) -> (r: Result<Vec<TargetFilter>, String>)
    ensures
        status@ != "success"@ ==> (r matches Err(e) && e@ == "series status "@ + status@),
        status@ == "success"@ ==> (r matches Ok(options) && {
            &&& options.len() >= 1
            &&& options@[0]@ == wildcard_view()
            &&& strictly_sorted(targets_view(options@).skip(1))
            &&& forall|x: TargetView|
                targets_view(options@).skip(1).contains(x) <==> exists|k: int|
                    0 <= k < data.len() && series_target(#[trigger] data@[k].deep_view()) == Some(x)
        }),
{
    if !text_eq(status, "success") {
        let mut e = String::from_str("series status ");
        e.append(status);
        return Err(e);
    }
    let mut filters: Vec<TargetFilter> = Vec::new();
    let mut i: usize = 0;
    while i < data.len()
        invariant
            0 <= i <= data.len(),
            forall|x: TargetView|
                targets_view(filters@).contains(x) <==> exists|k: int|
                    0 <= k < i && series_target(#[trigger] data@[k].deep_view()) == Some(x),
        decreases data.len() - i,
    {
        let job = label_value(&data[i], "job");
        let instance = label_value(&data[i], "instance");
        let ghost before = targets_view(filters@);
        match (job, instance) {
            (Some(j), Some(t)) => {
                let f = TargetFilter { job: j, target: t };
                let ghost fv = f@;
                filters.push(f);
                assert(targets_view(filters@) =~= before.push(fv));
                assert forall|x: TargetView|
                    targets_view(filters@).contains(x) <==> exists|k: int|
                        0 <= k < i + 1 && series_target(#[trigger] data@[k].deep_view()) == Some(x) by {
                    if before.contains(x) {
                        let w = choose|w: int| 0 <= w < before.len() && #[trigger] before[w] == x;
                        assert(targets_view(filters@)[w] == x);
                    }
                    if x == fv {
                        assert(targets_view(filters@)[before.len() as int] == x);
                        assert(series_target(data@[i as int].deep_view()) == Some(x));
                    }
                    if targets_view(filters@).contains(x) && x != fv {
                        let w = choose|w: int| 0 <= w < targets_view(filters@).len() && #[trigger] targets_view(filters@)[w] == x;
                        assert(before[w] == x);
                    }
                    if exists|k: int| 0 <= k < i + 1 && series_target(#[trigger] data@[k].deep_view()) == Some(x) {
                        let k = choose|k: int| 0 <= k < i + 1 && series_target(#[trigger] data@[k].deep_view()) == Some(x);
                        if k == i {
                            assert(x == fv);
                        }
                    }
                }
            },
            _ => {
                assert(series_target(data@[i as int].deep_view()) is None);
                assert forall|x: TargetView|
                    targets_view(filters@).contains(x) <==> exists|k: int|
                        0 <= k < i + 1 && series_target(#[trigger] data@[k].deep_view()) == Some(x) by {
                    if exists|k: int| 0 <= k < i + 1 && series_target(#[trigger] data@[k].deep_view()) == Some(x) {
                        let k = choose|k: int| 0 <= k < i + 1 && series_target(#[trigger] data@[k].deep_view()) == Some(x);
                        assert(k != i);
                    }
                }
            },
        }
        i += 1;
    }
    let ghost fv = targets_view(filters@);
    let options = build_target_options(filters);
    assert forall|x: TargetView|
        targets_view(options@).skip(1).contains(x) <==> exists|k: int|
            0 <= k < data.len() && series_target(#[trigger] data@[k].deep_view()) == Some(x) by {
        assert(targets_view(options@).skip(1).contains(x) <==> fv.contains(x));
    }
    Ok(options)
}

} // verus!
