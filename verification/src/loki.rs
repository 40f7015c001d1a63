//! Loki as the log screen uses it: which label values name hosts and logs,
//! the range queries that poll a log stream, and the entries a reply holds.

use vstd::prelude::*;
use crate::config::LokiConfig;
use crate::text::{
    join_url, trim_trailing_slashes, escape_quotes, escape_quoted, text_eq, text_less, text_lt,
    chars_of, i64_text, usize_text, signed_decimal, decimal, lemma_text_lt_total,
    lemma_text_lt_transitive,
};
use crate::numbers::{parse_i64_in, i64_text_value};
use std::time::{Duration, SystemTime, SystemTimeError, UNIX_EPOCH};

verus! {

/// The most entries a range query asks for.
pub const QUERY_LIMIT: usize = 200;

/// One log line and its time in nanoseconds since the epoch.
#[derive(Clone, Debug, PartialEq, Eq)]
pub struct LogEntry {
    pub timestamp_ns: i64,
    pub line: String,
}

/// An entry as its time and text.
pub type EntryView = (i64, Seq<char>);

impl View for LogEntry {
    type V = EntryView;

    open spec fn view(&self) -> EntryView {
        (self.timestamp_ns, self.line@)
    }
}

/// Entries as times and texts.
pub open spec fn entries_view(v: Seq<LogEntry>) -> Seq<EntryView> {
    v.map_values(|e: LogEntry| e@)
}

/// A copy of an entry.
pub fn copy_entry(e: &LogEntry) -> (r: LogEntry)
    ensures
        r@ == e@,
{
    LogEntry { timestamp_ns: e.timestamp_ns, line: e.line.clone() }
}

/// A copy of a run of entries.
pub fn copy_entries(v: &Vec<LogEntry>) -> (r: Vec<LogEntry>)
    ensures
        entries_view(r@) == entries_view(v@),
{
    let mut r: Vec<LogEntry> = Vec::new();
    let mut i: usize = 0;
    while i < v.len()
        invariant
            0 <= i <= v.len(),
            entries_view(r@) == entries_view(v@.take(i as int)),
        decreases v.len() - i,
    {
        let ghost before = r@;
        let e = copy_entry(&v[i]);
        r.push(e);
        assert(entries_view(r@) =~= entries_view(before).push(v@[i as int]@));
        assert(v@.take(i + 1) =~= v@.take(i as int).push(v@[i as int]));
        assert(entries_view(v@.take(i + 1)) =~= entries_view(v@.take(i as int)).push(v@[i as int]@));
        i += 1;
    }
    assert(v@.take(v.len() as int) =~= v@);
    r
}

/// The connection settings of a Loki server.
pub struct LokiClient {
    base_url: String,
    host_label: String,
    log_label: String,
    lookback_secs: u64,
}

/// An HTTP GET to make: the URL and its query parameters.
pub struct LokiRequest {
    pub url: String,
    pub params: Vec<(String, String)>,
    /// How long to wait for the reply, in seconds.
    pub timeout_secs: u64,
}

/// How long a Loki request waits for its reply, in seconds.
pub const LOKI_TIMEOUT_SECS: u64 = 5;

/// `x` held to the range of `i64`.
pub open spec fn saturate(x: int) -> int {
    if x < i64::MIN {
        i64::MIN as int
    } else if x > i64::MAX {
        i64::MAX as int
    } else {
        x
    }
}

fn saturating(x: i128) -> (r: i64)
    ensures
        r == saturate(x as int),
{
    if x < i64::MIN as i128 {
        i64::MIN
    } else if x > i64::MAX as i128 {
        i64::MAX
    } else {
        x as i64
    }
}

/// A look-back window in nanoseconds fits in `i64`.
pub open spec fn lookback_fits(lookback_secs: u64) -> bool {
    lookback_secs * 1_000_000_000 <= i64::MAX
}

impl LokiClient {
    /// The client for a configuration, or nothing when Loki has no address.
    pub fn new(config: LokiConfig) -> (c: Option<LokiClient>)
        ensures
            config.base_url is None ==> c is None,
            config.base_url matches Some(u) ==> (c matches Some(c) && c.spec_base_url() == u@
                && c.spec_host_label() == config.host_label@ && c.spec_log_label() == config.log_label@
                && c.spec_lookback_secs() == config.lookback_secs),
    {
        match config.base_url {
            None => None,
            Some(base_url) => Some(
                LokiClient {
                    base_url,
                    host_label: config.host_label,
                    log_label: config.log_label,
                    lookback_secs: config.lookback_secs,
                },
            ),
        }
    }

    /// The server address.
    pub closed spec fn spec_base_url(&self) -> Seq<char> {
        self.base_url@
    }

    /// The label whose values name hosts.
    pub closed spec fn spec_host_label(&self) -> Seq<char> {
        self.host_label@
    }

    /// The label whose values name logs.
    pub closed spec fn spec_log_label(&self) -> Seq<char> {
        self.log_label@
    }

    /// How far back a first query looks, in seconds.
    pub closed spec fn spec_lookback_secs(&self) -> u64 {
        self.lookback_secs
    }

    /// How far back a first query looks, in seconds.
    pub fn lookback_secs(&self) -> (n: u64)
        ensures
            n == self.spec_lookback_secs(),
    {
        self.lookback_secs
    }

    /// Whether the look-back window, in nanoseconds, fits in `i64`, as the
    /// queries need.
    pub fn lookback_in_range(&self) -> (b: bool)
        ensures
            b == lookback_fits(self.spec_lookback_secs()),
    {
        self.lookback_secs <= 9_223_372_036
    }

    /// The start of the look-back window that ends at `end_ns`.
    pub open spec fn window_start(&self, end_ns: i64) -> int {
        saturate(end_ns - self.spec_lookback_secs() * 1_000_000_000)
    }

    fn lookback_start(&self, end_ns: i64) -> (r: i64)
        requires
            lookback_fits(self.spec_lookback_secs()),
        ensures
            r == self.window_start(end_ns),
    {
        let back: i128 = (self.lookback_secs as i128) * 1_000_000_000;
        saturating(end_ns as i128 - back)
    }

    /// The request that lists the values of `label` seen in the window that
    /// ends at `end_ns`.
    pub fn label_values_query(&self, label: &str, end_ns: i64) -> (r: LokiRequest)
        requires
            lookback_fits(self.spec_lookback_secs()),
        ensures
            r.timeout_secs == LOKI_TIMEOUT_SECS,
            r.url@ == trim_trailing_slashes(self.spec_base_url()) + "/loki/api/v1/label/"@
                + label@ + "/values"@,
            r.params.deep_view() == seq![
                ("start"@, signed_decimal(self.window_start(end_ns))),
                ("end"@, signed_decimal(end_ns as int)),
            ],
    {
        let mut path = String::from_str("/loki/api/v1/label/");
        path.append(label);
        path.append("/values");
        let url = join_url(self.base_url.as_str(), path.as_str());
        let start = self.lookback_start(end_ns);
        let mut params: Vec<(String, String)> = Vec::new();
        params.push((String::from_str("start"), i64_text(start)));
        params.push((String::from_str("end"), i64_text(end_ns)));
        assert(params.deep_view() =~= seq![
            ("start"@, signed_decimal(self.window_start(end_ns))),
            ("end"@, signed_decimal(end_ns as int)),
        ]);
        LokiRequest { url, params, timeout_secs: LOKI_TIMEOUT_SECS }
    }

    /// The request for the host names.
    pub fn hosts_query(&self, end_ns: i64) -> (r: LokiRequest)
        requires
            lookback_fits(self.spec_lookback_secs()),
        ensures
            r.timeout_secs == LOKI_TIMEOUT_SECS,
            r.url@ == trim_trailing_slashes(self.spec_base_url()) + "/loki/api/v1/label/"@
                + self.spec_host_label() + "/values"@,
            r.params.deep_view() == seq![
                ("start"@, signed_decimal(self.window_start(end_ns))),
                ("end"@, signed_decimal(end_ns as int)),
            ],
    {
        self.label_values_query(self.host_label.as_str(), end_ns)
    }

    /// The request for the log names.
    pub fn logs_query(&self, end_ns: i64) -> (r: LokiRequest)
        requires
            lookback_fits(self.spec_lookback_secs()),
        ensures
            r.timeout_secs == LOKI_TIMEOUT_SECS,
            r.url@ == trim_trailing_slashes(self.spec_base_url()) + "/loki/api/v1/label/"@
                + self.spec_log_label() + "/values"@,
            r.params.deep_view() == seq![
                ("start"@, signed_decimal(self.window_start(end_ns))),
                ("end"@, signed_decimal(end_ns as int)),
            ],
    {
        self.label_values_query(self.log_label.as_str(), end_ns)
    }

    /// The stream selector of a host's log.
    pub open spec fn stream_selector(&self, host: Seq<char>, log_name: Seq<char>) -> Seq<char> {
        "{"@ + self.spec_host_label() + "=\""@ + escape_quoted(host) + "\","@
            + self.spec_log_label() + "=\""@ + escape_quoted(log_name) + "\"}"@
    }

    /// Where a poll starts: just after the last entry seen, or at the start
    /// of the look-back window.
    pub open spec fn poll_start(&self, since_ns: Option<i64>, end_ns: i64) -> int {
        match since_ns {
            Some(s) => saturate(s + 1),
            None => self.window_start(end_ns),
        }
    }

    /// The range query that fetches a host's log up to `end_ns`, oldest first,
    /// after `since_ns` when an entry was seen already.
    pub fn poll_query(&self, host: &str, log_name: &str, since_ns: Option<i64>, end_ns: i64) -> (r: LokiRequest)
        requires
            since_ns is None ==> lookback_fits(self.spec_lookback_secs()),
        ensures
            r.timeout_secs == LOKI_TIMEOUT_SECS,
            r.url@ == trim_trailing_slashes(self.spec_base_url()) + "/loki/api/v1/query_range"@,
            r.params.deep_view() == seq![
                ("query"@, self.stream_selector(host@, log_name@)),
                ("start"@, signed_decimal(self.poll_start(since_ns, end_ns))),
                ("end"@, signed_decimal(end_ns as int)),
                ("limit"@, decimal(QUERY_LIMIT as nat)),
                ("direction"@, "forward"@),
            ],
    {
        let start = match since_ns {
            Some(s) => saturating(s as i128 + 1),
            None => self.lookback_start(end_ns),
        };
        let mut query = String::from_str("{");
        query.append(self.host_label.as_str());
        query.append("=\"");
        query.append(escape_label_value(host).as_str());
        query.append("\",");
        query.append(self.log_label.as_str());
        query.append("=\"");
        query.append(escape_label_value(log_name).as_str());
        query.append("\"}");
        let url = join_url(self.base_url.as_str(), "/loki/api/v1/query_range");
        let mut params: Vec<(String, String)> = Vec::new();
        params.push((String::from_str("query"), query));
        params.push((String::from_str("start"), i64_text(start)));
        params.push((String::from_str("end"), i64_text(end_ns)));
        params.push((String::from_str("limit"), usize_text(QUERY_LIMIT)));
        params.push((String::from_str("direction"), String::from_str("forward")));
        assert(params.deep_view() =~= seq![
            ("query"@, self.stream_selector(host@, log_name@)),
            ("start"@, signed_decimal(self.poll_start(since_ns, end_ns))),
            ("end"@, signed_decimal(end_ns as int)),
            ("limit"@, decimal(QUERY_LIMIT as nat)),
            ("direction"@, "forward"@),
        ]);
        LokiRequest { url, params, timeout_secs: LOKI_TIMEOUT_SECS }
    }
}

/// Escapes a value for a double-quoted stream selector.
pub fn escape_label_value(value: &str) -> (r: String)
    ensures
        r@ == escape_quoted(value@),
{
    escape_quotes(value)
}

/// Strictly increasing texts, so also free of repeats.
pub open spec fn texts_strictly_sorted(s: Seq<Seq<char>>) -> bool {
    forall|i: int, j: int| 0 <= i < j < s.len() ==> text_lt(#[trigger] s[i], #[trigger] s[j])
}

/// Texts as character sequences.
pub open spec fn texts_view(v: Seq<String>) -> Seq<Seq<char>> {
    v.map_values(|s: String| s@)
}

/// The label values of a reply: the reason when it did not succeed, else its
/// non-empty values, each once, in order.
pub fn label_values_from_reply(status: &str, data: Vec<String>) -> (r: Result<Vec<String>, String>)
    ensures
        status@ != "success"@ ==> (r matches Err(e) && e@ == "label status "@ + status@),
        status@ == "success"@ ==> (r matches Ok(values) && texts_strictly_sorted(texts_view(values@))
            && forall|x: Seq<char>|
            texts_view(values@).contains(x) <==> (x.len() > 0 && texts_view(data@).contains(x))),
{
    if !text_eq(status, "success") {
        let mut e = String::from_str("label status ");
        e.append(status);
        return Err(e);
    }
    let mut values: Vec<String> = Vec::new();
    let mut i: usize = 0;
    while i < data.len()
        invariant
            0 <= i <= data.len(),
            texts_strictly_sorted(texts_view(values@)),
            forall|x: Seq<char>|
                texts_view(values@).contains(x) <==> (x.len() > 0 && texts_view(data@.take(i as int)).contains(x)),
        decreases data.len() - i,
    {
        let ghost before = texts_view(values@);
        let ghost dv = data@[i as int]@;
        assert(texts_view(data@.take(i + 1)) =~= texts_view(data@.take(i as int)).push(dv));
        proof {
            lemma_text_contains_push(texts_view(data@.take(i as int)), dv);
        }
        if data[i].as_str().unicode_len() == 0 {
            assert forall|x: Seq<char>|
                texts_view(values@).contains(x) <==> (x.len() > 0 && texts_view(data@.take(i + 1)).contains(x)) by {
                lemma_text_contains_push_one(texts_view(data@.take(i as int)), dv, x);
            }
        } else {
            let mut p: usize = 0;
            while p < values.len() && text_less(values[p].as_str(), data[i].as_str())
                invariant
                    0 <= p <= values.len(),
                    i < data.len(),
                    before == texts_view(values@),
                    dv == data@[i as int]@,
                    forall|k: int| 0 <= k < p ==> text_lt(#[trigger] before[k], dv),
                decreases values.len() - p,
            {
                p += 1;
            }
            if p < values.len() && text_eq(values[p].as_str(), data[i].as_str()) {
                assert forall|x: Seq<char>|
                    texts_view(values@).contains(x) <==> (x.len() > 0 && texts_view(data@.take(i + 1)).contains(x)) by {
                    lemma_text_contains_push_one(texts_view(data@.take(i as int)), dv, x);
                    if x == dv {
                        assert(before[p as int] == x);
                    }
                }
            } else {
                proof {
                    if p < values.len() {
                        lemma_text_lt_total(before[p as int], dv);
                    }
                }
                values.insert(p, data[i].clone());
                let ghost after = texts_view(values@);
                assert(after =~= before.insert(p as int, dv));
                assert forall|a: int, b: int| 0 <= a < b < after.len() implies text_lt(#[trigger] after[a], #[trigger] after[b]) by {
                    let q = p as int;
                    if b < q {
                    } else if b == q {
                        assert(after[a] == before[a]);
                    } else if a < q {
                        assert(after[b] == before[b - 1]);
                        assert(after[a] == before[a]);
                        lemma_text_lt_transitive(before[a], dv, before[q]);
                        if b - 1 > q {
                            lemma_text_lt_transitive(before[a], before[q], before[b - 1]);
                        }
                    } else if a == q {
                        assert(after[b] == before[b - 1]);
                        if b - 1 > q {
                            lemma_text_lt_transitive(dv, before[q], before[b - 1]);
                        }
                    } else {
                        assert(after[a] == before[a - 1]);
                        assert(after[b] == before[b - 1]);
                    }
                }
                assert forall|x: Seq<char>|
                    after.contains(x) <==> (x.len() > 0 && texts_view(data@.take(i + 1)).contains(x)) by {
                    lemma_text_contains_push_one(texts_view(data@.take(i as int)), dv, x);
                    lemma_text_contains_insert(before, p as int, x, dv);
                }
            }
        }
        i += 1;
    }
    assert(data@.take(data.len() as int) =~= data@);
    Ok(values)
}

proof fn lemma_text_contains_push(s: Seq<Seq<char>>, y: Seq<char>)
    ensures
        forall|x: Seq<char>| s.push(y).contains(x) <==> (s.contains(x) || x == y),
{
    assert forall|x: Seq<char>| s.push(y).contains(x) <==> (s.contains(x) || x == y) by {
        lemma_text_contains_push_one(s, y, x);
    }
}

proof fn lemma_text_contains_push_one(s: Seq<Seq<char>>, y: Seq<char>, x: Seq<char>)
    ensures
        s.push(y).contains(x) <==> (s.contains(x) || x == y),
{
    if s.contains(x) {
        let k = choose|k: int| 0 <= k < s.len() && #[trigger] s[k] == x;
        assert(s.push(y)[k] == x);
    }
    if x == y {
        assert(s.push(y)[s.len() as int] == x);
    }
    if s.push(y).contains(x) && x != y {
        let k = choose|k: int| 0 <= k < s.push(y).len() && #[trigger] s.push(y)[k] == x;
        assert(s[k] == x);
    }
}

proof fn lemma_text_contains_insert(s: Seq<Seq<char>>, q: int, x: Seq<char>, y: Seq<char>)
    requires
        0 <= q <= s.len(),
    ensures
        s.insert(q, y).contains(x) <==> (s.contains(x) || x == y),
{
    let t = s.insert(q, y);
    if s.contains(x) {
        let k = choose|k: int| 0 <= k < s.len() && #[trigger] s[k] == x;
        if k < q {
            assert(t[k] == x);
        } else {
            assert(t[k + 1] == x);
        }
    }
    if x == y {
        assert(t[q] == x);
    }
    if t.contains(x) && x != y {
        let k = choose|k: int| 0 <= k < t.len() && #[trigger] t[k] == x;
        if k < q {
            assert(s[k] == x);
        } else {
            assert(s[k - 1] == x);
        }
    }
}

/// The values of one stream of a range query reply: (time text, line) pairs.
pub struct LogStream {
    pub values: Vec<(String, String)>,
}

/// The `data` member of a range query reply.
pub struct QueryRangeData {
    pub result_type: String,
    pub result: Vec<LogStream>,
}

/// The values of all streams, stream after stream.
pub open spec fn all_values(streams: Seq<LogStream>) -> Seq<(Seq<char>, Seq<char>)>
    decreases streams.len(),
{
    if streams.len() == 0 {
        seq![]
    } else {
        all_values(streams.drop_last()) + streams.last().values.deep_view()
    }
}

/// The entries that (time text, line) pairs stand for, or the refusal of the
/// first time that is not an `i64`.
pub open spec fn parse_entries(vals: Seq<(Seq<char>, Seq<char>)>) -> Result<Seq<EntryView>, Seq<char>>
    decreases vals.len(),
{
    if vals.len() == 0 {
        Ok(seq![])
    } else {
        match parse_entries(vals.drop_last()) {
            Err(e) => Err(e),
            Ok(p) => match i64_text_value(vals.last().0) {
                Some(t) => Ok(p.push((t, vals.last().1))),
                None => Err("invalid log timestamp"@),
            },
        }
    }
}

/// Entries in order of time.
pub open spec fn time_sorted(s: Seq<EntryView>) -> bool {
    forall|i: int, j: int| 0 <= i < j < s.len() ==> (#[trigger] s[i]).0 <= (#[trigger] s[j]).0
}

/// The entries at time `t`.
pub open spec fn at_time(t: i64) -> spec_fn(EntryView) -> bool {
    |e: EntryView| e.0 == t
}

/// `a` and `b` hold the same entries at every time, in the same order: `a`
/// is a stable reordering of `b`.
pub open spec fn same_per_time(a: Seq<EntryView>, b: Seq<EntryView>) -> bool {
    forall|t: i64| #[trigger] a.filter(at_time(t)) == b.filter(at_time(t))
}

proof fn lemma_filter_none(s: Seq<EntryView>, pred: spec_fn(EntryView) -> bool)
    requires
        forall|i: int| 0 <= i < s.len() ==> !pred(#[trigger] s[i]),
    ensures
        s.filter(pred) == Seq::<EntryView>::empty(),
    decreases s.len(),
{
    reveal(Seq::filter);
    if s.len() > 0 {
        assert forall|i: int| 0 <= i < s.drop_last().len() implies !pred(#[trigger] s.drop_last()[i]) by {
            assert(s.drop_last()[i] == s[i]);
        }
        lemma_filter_none(s.drop_last(), pred);
    } else {
        assert(s.filter(pred) =~= Seq::<EntryView>::empty());
    }
}

/// Puts `e` after every entry whose time is not later than its own.
fn insert_by_time(out: &mut Vec<LogEntry>, e: LogEntry)
    requires
        time_sorted(entries_view(old(out)@)),
    ensures
        time_sorted(entries_view(final(out)@)),
        same_per_time(entries_view(final(out)@), entries_view(old(out)@).push(e@)),
{
    let ghost s = entries_view(out@);
    let mut p: usize = 0;
    while p < out.len() && out[p].timestamp_ns <= e.timestamp_ns
        invariant
            0 <= p <= out.len(),
            s == entries_view(out@),
            forall|k: int| 0 <= k < p ==> (#[trigger] s[k]).0 <= e.timestamp_ns,
        decreases out.len() - p,
    {
        p += 1;
    }
    let ghost x = e@;
    out.insert(p, e);
    let ghost f = entries_view(out@);
    assert(f =~= s.insert(p as int, x));
    assert forall|i: int, j: int| 0 <= i < j < f.len() implies (#[trigger] f[i]).0 <= (#[trigger] f[j]).0 by {
        let q = p as int;
        if j < q {
        } else if j == q {
            assert(f[i] == s[i]);
        } else if i < q {
            assert(f[j] == s[j - 1]);
            assert(f[i] == s[i]);
            assert(s[q].0 > x.0);
            if j - 1 > q {
                assert(s[q].0 <= s[j - 1].0);
            }
        } else if i == q {
            assert(f[j] == s[j - 1]);
            assert(s[q].0 > x.0);
            if j - 1 > q {
                assert(s[q].0 <= s[j - 1].0);
            }
        } else {
            assert(f[i] == s[i - 1]);
            assert(f[j] == s[j - 1]);
        }
    }
    assert forall|t: i64| #[trigger] f.filter(at_time(t)) == s.push(x).filter(at_time(t)) by {
        let q = p as int;
        let a = s.take(q);
        let b = s.skip(q);
        assert(f =~= a + seq![x] + b);
        assert(s.push(x) =~= a + b + seq![x]);
        assert(s =~= a + b);
        Seq::filter_distributes_over_add(a + seq![x], b, at_time(t));
        Seq::filter_distributes_over_add(a, seq![x], at_time(t));
        Seq::filter_distributes_over_add(a + b, seq![x], at_time(t));
        Seq::filter_distributes_over_add(a, b, at_time(t));
        reveal(Seq::filter);
        assert(seq![x].drop_last() =~= Seq::<EntryView>::empty());
        if t == x.0 {
            assert forall|i: int| 0 <= i < b.len() implies !at_time(t)(#[trigger] b[i]) by {
                assert(b[i] == s[q + i]);
                if q + i > q {
                    assert(s[q].0 <= s[q + i].0);
                }
            }
            lemma_filter_none(b, at_time(t));
            assert(b.filter(at_time(t)) + seq![x].filter(at_time(t)) =~= seq![x].filter(at_time(t)) + b.filter(at_time(t)));
        } else {
            Seq::<EntryView>::empty().lemma_filter_push(x, at_time(t));
            assert(seq![x] =~= Seq::<EntryView>::empty().push(x));
            lemma_filter_none(Seq::<EntryView>::empty(), at_time(t));
            assert(seq![x].filter(at_time(t)) =~= Seq::<EntryView>::empty());
            assert(b.filter(at_time(t)) + seq![x].filter(at_time(t)) =~= b.filter(at_time(t)));
            assert(seq![x].filter(at_time(t)) + b.filter(at_time(t)) =~= b.filter(at_time(t)));
        }
        assert((a + seq![x]).filter(at_time(t)) + b.filter(at_time(t)) =~= a.filter(at_time(t)) + (seq![x].filter(at_time(t)) + b.filter(at_time(t))));
        assert((a + b).filter(at_time(t)) + seq![x].filter(at_time(t)) =~= a.filter(at_time(t)) + (b.filter(at_time(t)) + seq![x].filter(at_time(t))));
    }
}

/// The reasons a range query reply can be refused, and what it yields otherwise.
pub open spec fn entries_reply_error(
    status: Seq<char>,
    data: Option<QueryRangeData>,
) -> Option<Seq<char>> {
    if status != "success"@ {
        Some("query_range status "@ + status)
    } else {
        match data {
            None => Some("missing response data"@),
            Some(d) => if d.result_type@ != "streams"@ {
                Some("unsupported result type "@ + d.result_type@)
            } else {
                match parse_entries(all_values(d.result@)) {
                    Err(e) => Some(e),
                    Ok(_) => None,
                }
            },
        }
    }
}

/// The entries of a range query reply, oldest first (entries of the same
/// time keep their reply order), or why the reply is refused.
pub fn entries_from_reply(status: &str, data: Option<QueryRangeData>) -> (r: Result<Vec<LogEntry>, String>)
    ensures
        entries_reply_error(status@, data) matches Some(msg) ==> (r matches Err(e) && e@ == msg),
        entries_reply_error(status@, data) is None ==> (r matches Ok(out) && time_sorted(entries_view(out@))
            && same_per_time(entries_view(out@), parse_entries(all_values(data->Some_0.result@))->Ok_0)),
{
    if !text_eq(status, "success") {
        let mut e = String::from_str("query_range status ");
        e.append(status);
        return Err(e);
    }
    let d = match data {
        None => {
            return Err(String::from_str("missing response data"));
        },
        Some(d) => d,
    };
    if !text_eq(d.result_type.as_str(), "streams") {
        let mut e = String::from_str("unsupported result type ");
        e.append(d.result_type.as_str());
        return Err(e);
    }
    let ghost streams = d.result@;
    let mut out: Vec<LogEntry> = Vec::new();
    let ghost mut parsed: Seq<EntryView> = seq![];
    let mut s: usize = 0;
    assert(streams.take(0) =~= Seq::<LogStream>::empty());
    assert(entries_view(out@) =~= parsed);
    while s < d.result.len()
        invariant
            0 <= s <= d.result.len(),
            status@ == "success"@,
            data == Some(d),
            d.result_type@ == "streams"@,
            streams == d.result@,
            parse_entries(all_values(streams.take(s as int))) == Ok::<Seq<EntryView>, Seq<char>>(parsed),
            time_sorted(entries_view(out@)),
            same_per_time(entries_view(out@), parsed),
        decreases d.result.len() - s,
    {
        let stream = &d.result[s];
        let ghost pre = all_values(streams.take(s as int));
        let ghost vals = stream.values.deep_view();
        assert(streams.take(s + 1).drop_last() =~= streams.take(s as int));
        assert(all_values(streams.take(s + 1)) == pre + vals);
        let mut k: usize = 0;
        assert(pre + vals.take(0) =~= pre);
        while k < stream.values.len()
            invariant
                0 <= k <= stream.values.len(),
                s < d.result.len(),
                streams == d.result@,
                stream == d.result@[s as int],
                pre == all_values(streams.take(s as int)),
                all_values(streams.take(s + 1)) == pre + vals,
                status@ == "success"@,
                data == Some(d),
                d.result_type@ == "streams"@,
                vals == stream.values.deep_view(),
                parse_entries(pre + vals.take(k as int)) == Ok::<Seq<EntryView>, Seq<char>>(parsed),
                time_sorted(entries_view(out@)),
                same_per_time(entries_view(out@), parsed),
            decreases stream.values.len() - k,
        {
            let pair = &stream.values[k];
            assert((pre + vals.take(k + 1)).drop_last() =~= pre + vals.take(k as int));
            assert((pre + vals.take(k + 1)).last() == (pair.0@, pair.1@));
            let tv = chars_of(pair.0.as_str());
            assert(tv@.subrange(0, tv.len() as int) =~= pair.0@);
            match parse_i64_in(&tv, 0, tv.len()) {
                None => {
                    proof {
                        lemma_parse_entries_err(pre + vals, (pre.len() + k + 1) as int);
                        assert((pre + vals).take(pre.len() + k + 1) =~= pre + vals.take(k + 1));
                        lemma_all_values_err(streams, s as int + 1, pre + vals);
                    }
                    return Err(String::from_str("invalid log timestamp"));
                },
                Some(t) => {
                    let entry = LogEntry { timestamp_ns: t, line: pair.1.clone() };
                    let ghost ev = entry@;
                    let ghost old_out = entries_view(out@);
                    insert_by_time(&mut out, entry);
                    proof {
                        assert forall|tt: i64| #[trigger] entries_view(out@).filter(at_time(tt)) == parsed.push(ev).filter(at_time(tt)) by {
                            old_out.lemma_filter_push(ev, at_time(tt));
                            parsed.lemma_filter_push(ev, at_time(tt));
                            assert(old_out.filter(at_time(tt)) == parsed.filter(at_time(tt)));
                        }
                        parsed = parsed.push(ev);
                    }
                },
            }
            k += 1;
        }
        assert(vals.take(stream.values.len() as int) =~= vals);
        s += 1;
    }
    assert(streams.take(d.result.len() as int) =~= streams);
    Ok(out)
}

proof fn lemma_parse_entries_err(vals: Seq<(Seq<char>, Seq<char>)>, i: int)
    requires
        0 <= i <= vals.len(),
        parse_entries(vals.take(i)) is Err,
    ensures
        parse_entries(vals) == parse_entries(vals.take(i)),
    decreases vals.len() - i,
{
    if i < vals.len() {
        assert(vals.take(i + 1).drop_last() =~= vals.take(i));
        lemma_parse_entries_err(vals, i + 1);
    } else {
        assert(vals.take(i) =~= vals);
    }
}

proof fn lemma_all_values_err(streams: Seq<LogStream>, s: int, prefix: Seq<(Seq<char>, Seq<char>)>)
    requires
        0 <= s <= streams.len(),
        all_values(streams.take(s)) == prefix,
        parse_entries(prefix) is Err,
    ensures
        parse_entries(all_values(streams)) == parse_entries(prefix),
    decreases streams.len() - s,
{
    if s < streams.len() {
        let next = all_values(streams.take(s + 1));
        assert(streams.take(s + 1).drop_last() =~= streams.take(s));
        assert(next == prefix + streams[s].values.deep_view());
        assert(next.take(prefix.len() as int) =~= prefix);
        lemma_parse_entries_err(next, prefix.len() as int);
        lemma_all_values_err(streams, s + 1, next);
    } else {
        assert(streams.take(s) =~= streams);
    }
}

/// A reading of the system clock.
#[verifier::external_type_specification]
#[verifier::external_body]
pub struct ExSystemTime(SystemTime);

/// A clock reading earlier than the point it was measured from.
#[verifier::external_type_specification]
#[verifier::external_body]
pub struct ExSystemTimeError(SystemTimeError);

/// `SystemTime::now`: the clock's reading. Nothing is promised of it.
#[verifier::external_body]
fn clock_now() -> SystemTime {
    SystemTime::now()
}

/// `SystemTime::duration_since(UNIX_EPOCH)`: the time since the epoch, or an
/// error when the clock reads earlier. Which, depends on the clock; nothing
/// is promised of it.
#[verifier::external_body]
fn since_epoch(t: &SystemTime) -> Result<Duration, SystemTimeError> {
    t.duration_since(UNIX_EPOCH)
}

/// `Duration::as_nanos`: the whole nanoseconds of a span. The span is opaque
/// here, so nothing is stated of the number.
#[verifier::external_body]
fn whole_nanos(d: &Duration) -> u128 {
    d.as_nanos()
}

/// The message of a clock error (its `Display` text), of which nothing is
/// stated.
#[verifier::external_body]
fn clock_error_text(e: &SystemTimeError) -> String {
    e.to_string()
}

/// Nanoseconds since the epoch as an `i64`, or an error when they do not fit.
pub fn nanos_to_i64(nanos: u128) -> (r: Result<i64, String>)
    ensures
        nanos <= i64::MAX ==> r == Ok::<i64, String>(nanos as i64),
        nanos > i64::MAX ==> (r matches Err(e) && e@ == "system clock overflow"@),
{
    if nanos <= i64::MAX as u128 {
        Ok(nanos as i64)
    } else {
        Err(String::from_str("system clock overflow"))
    }
}

/// The time now in nanoseconds since the epoch; an error when the clock reads
/// before the epoch or too far after it. What it reads depends on the clock,
/// so all that holds of every outcome is that a time is not negative.
pub fn now_unix_nanos() -> (r: Result<i64, String>)
    ensures
        r matches Ok(n) ==> n >= 0,
{
    let now = clock_now();
    match since_epoch(&now) {
        Ok(d) => nanos_to_i64(whole_nanos(&d)),
        Err(e) => Err(clock_error_text(&e)),
    }
}

} // verus!
