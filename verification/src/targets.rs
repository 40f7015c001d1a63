//! Target filters: which (job, target) pairs the dashboard offers, and which
//! samples a filter keeps.

use vstd::prelude::*;
use crate::text::{text_lt, text_less, text_eq, lemma_text_lt_transitive, lemma_text_lt_total};
use crate::prometheus::LabelsView;

verus! {

/// A (job, target) pair that restricts the metric list; job `*` means all targets.
#[derive(Clone, Debug, PartialEq, Eq)]
pub struct TargetFilter {
    pub job: String,
    pub target: String,
}

/// A filter as texts.
pub type TargetView = (Seq<char>, Seq<char>);

impl View for TargetFilter {
    type V = TargetView;

    open spec fn view(&self) -> TargetView {
        (self.job@, self.target@)
    }
}

/// The filter that keeps every sample.
pub open spec fn wildcard_view() -> TargetView {
    (seq!['*'], seq!['*'])
}

/// Filters in order: by job, then by target.
pub open spec fn target_lt(a: TargetView, b: TargetView) -> bool {
    text_lt(a.0, b.0) || (a.0 == b.0 && text_lt(a.1, b.1))
}

/// Strictly increasing, so also free of repeats.
pub open spec fn strictly_sorted(s: Seq<TargetView>) -> bool {
    forall|i: int, j: int| 0 <= i < j < s.len() ==> target_lt(#[trigger] s[i], #[trigger] s[j])
}

/// Filters as texts.
pub open spec fn targets_view(v: Seq<TargetFilter>) -> Seq<TargetView> {
    v.map_values(|t: TargetFilter| t@)
}

proof fn lemma_target_lt_transitive(a: TargetView, b: TargetView, c: TargetView)
    requires
        target_lt(a, b),
        target_lt(b, c),
    ensures
        target_lt(a, c),
{
    if text_lt(a.0, b.0) && text_lt(b.0, c.0) {
        lemma_text_lt_transitive(a.0, b.0, c.0);
    } else if a.0 == b.0 && b.0 == c.0 {
        lemma_text_lt_transitive(a.1, b.1, c.1);
    }
}

proof fn lemma_target_lt_total(a: TargetView, b: TargetView)
    ensures
        a == b || target_lt(a, b) || target_lt(b, a),
{
    lemma_text_lt_total(a.0, b.0);
    lemma_text_lt_total(a.1, b.1);
}

/// One more element is contained, and so is everything that was.
pub proof fn lemma_contains_push<A>(s: Seq<A>, x: A, y: A)
    ensures
        s.push(y).contains(x) <==> (s.contains(x) || x == y),
{
    if s.contains(x) {
        let k = choose|k: int| 0 <= k < s.len() && #[trigger] s[k] == x;
        assert(s.push(y)[k] == x);
    }
    if x == y {
        assert(s.push(y)[s.len() as int] == x);
    }
    if s.push(y).contains(x) && x != y {
        let k = choose|k: int| 0 <= k < s.push(y).len() && #[trigger] s.push(y)[k] == x;
        assert(s[k] == x);
    }
}

proof fn lemma_contains_insert(s: Seq<TargetView>, q: int, x: TargetView, y: TargetView)
    requires
        0 <= q <= s.len(),
    ensures
        s.insert(q, y).contains(x) <==> (s.contains(x) || x == y),
{
    let t = s.insert(q, y);
    if s.contains(x) {
        let k = choose|k: int| 0 <= k < s.len() && #[trigger] s[k] == x;
        if k < q {
            assert(t[k] == x);
        } else {
            assert(t[k + 1] == x);
        }
    }
    if x == y {
        assert(t[q] == x);
    }
    if t.contains(x) && x != y {
        let k = choose|k: int| 0 <= k < t.len() && #[trigger] t[k] == x;
        if k < q {
            assert(s[k] == x);
        } else {
            assert(s[k - 1] == x);
        }
    }
}

impl TargetFilter {
    /// The filter that keeps every sample.
    pub fn wildcard() -> (t: TargetFilter)
        ensures
            t@ == wildcard_view(),
    {
        let t = TargetFilter { job: String::from_str("*"), target: String::from_str("*") };
        proof {
            reveal_strlit("*");
        }
        assert(t@.0 =~= seq!['*']);
        assert(t@.1 =~= seq!['*']);
        t
    }

    /// A copy of this filter.
    pub fn copy(&self) -> (t: TargetFilter)
        ensures
            t@ == self@,
    {
        TargetFilter { job: self.job.clone(), target: self.target.clone() }
    }

    /// How the filter reads on screen: `all targets` for the wildcard job,
    /// `job/target` otherwise.
    pub fn display_text(&self) -> (s: String)
        ensures
            s@ == target_display(self@),
    {
        proof {
            reveal_strlit("*");
        }
        assert("*"@ =~= seq!['*']);
        if text_eq(self.job.as_str(), "*") {
            String::from_str("all targets")
        } else {
            let mut s = self.job.clone();
            s.append("/");
            s.append(self.target.as_str());
            s
        }
    }
}

/// How a filter reads on screen.
pub open spec fn target_display(t: TargetView) -> Seq<char> {
    if t.0 == seq!['*'] {
        "all targets"@
    } else {
        t.0 + "/"@ + t.1
    }
}

/// Where `x` goes in a sorted run: after every filter that comes before it.
pub open spec fn insert_pos(s: Seq<TargetView>, x: TargetView) -> int
    decreases s.len(),
{
    if s.len() == 0 {
        0
    } else if target_lt(s[0], x) {
        1 + insert_pos(s.drop_first(), x)
    } else {
        0
    }
}

/// A sorted run with `x` added, unless it holds `x` already.
pub open spec fn insert_target(s: Seq<TargetView>, x: TargetView) -> Seq<TargetView> {
    let p = insert_pos(s, x);
    if 0 <= p < s.len() && s[p] == x {
        s
    } else {
        s.insert(p, x)
    }
}

/// The distinct filters of `fs`, in order.
pub open spec fn sorted_targets(fs: Seq<TargetView>) -> Seq<TargetView>
    decreases fs.len(),
{
    if fs.len() == 0 {
        seq![]
    } else {
        insert_target(sorted_targets(fs.drop_last()), fs.last())
    }
}

/// The target options for a run of filters: the wildcard, then the distinct
/// filters in order.
pub open spec fn target_options_spec(fs: Seq<TargetView>) -> Seq<TargetView> {
    seq![wildcard_view()] + sorted_targets(fs)
}

proof fn lemma_insert_pos(s: Seq<TargetView>, x: TargetView, r: int)
    requires
        0 <= r <= s.len(),
        forall|k: int| 0 <= k < r ==> target_lt(#[trigger] s[k], x),
        r < s.len() ==> !target_lt(s[r], x),
    ensures
        insert_pos(s, x) == r,
    decreases s.len(),
{
    if r > 0 {
        assert(target_lt(s[0], x));
        assert forall|k: int| 0 <= k < r - 1 implies target_lt(#[trigger] s.drop_first()[k], x) by {
            assert(s.drop_first()[k] == s[k + 1]);
        }
        if r < s.len() {
            assert(s.drop_first()[r - 1] == s[r]);
        }
        lemma_insert_pos(s.drop_first(), x, r - 1);
    }
}

/// Whether `a` comes before `b`.
pub fn target_less(a: &TargetFilter, b: &TargetFilter) -> (r: bool)
    ensures
        r == target_lt(a@, b@),
{
    if text_less(a.job.as_str(), b.job.as_str()) {
        true
    } else if text_eq(a.job.as_str(), b.job.as_str()) {
        text_less(a.target.as_str(), b.target.as_str())
    } else {
        false
    }
}

/// Whether two filters name the same pair.
pub fn same_target(a: &TargetFilter, b: &TargetFilter) -> (r: bool)
    ensures
        r == (a@ == b@),
{
    text_eq(a.job.as_str(), b.job.as_str()) && text_eq(a.target.as_str(), b.target.as_str())
}

/// The options of the target list: the wildcard first, then each distinct
/// (job, target) pair of `targets` once, ordered by job and then target.
pub fn build_target_options(targets: Vec<TargetFilter>) -> (options: Vec<TargetFilter>)
    ensures
        options.len() >= 1,
        options@[0]@ == wildcard_view(),
        strictly_sorted(targets_view(options@).skip(1)),
        forall|x: TargetView|
            targets_view(options@).skip(1).contains(x) <==> targets_view(targets@).contains(x),
        targets_view(options@) == target_options_spec(targets_view(targets@)),
{
    let mut options: Vec<TargetFilter> = Vec::new();
    options.push(TargetFilter::wildcard());
    let mut i: usize = 0;
    while i < targets.len()
        invariant
            0 <= i <= targets.len(),
            options.len() >= 1,
            options@[0]@ == wildcard_view(),
            strictly_sorted(targets_view(options@).skip(1)),
            forall|x: TargetView|
                targets_view(options@).skip(1).contains(x) <==> targets_view(targets@.take(i as int)).contains(x),
            targets_view(options@).skip(1) == sorted_targets(targets_view(targets@.take(i as int))),
        decreases targets.len() - i,
    {
        let f = &targets[i];
        let ghost fv = f@;
        let ghost before = targets_view(options@).skip(1);
        let mut p: usize = 1;
        while p < options.len() && target_less(&options[p], f)
            invariant
                1 <= p <= options.len(),
                before == targets_view(options@).skip(1),
                fv == f@,
                forall|k: int| 0 <= k < p - 1 ==> target_lt(#[trigger] before[k], fv),
            decreases options.len() - p,
        {
            assert(before[p - 1] == options@[p as int]@);
            p += 1;
        }
        assert(targets_view(targets@.take(i + 1)) =~= targets_view(targets@.take(i as int)).push(fv));
        proof {
            if p < options.len() {
                assert(before[p - 1] == options@[p as int]@);
            }
            lemma_insert_pos(before, fv, p - 1);
            assert(targets_view(targets@.take(i + 1)).drop_last() =~= targets_view(targets@.take(i as int)));
        }
        if p < options.len() && same_target(&options[p], f) {
            assert(before[p - 1] == fv);
            assert forall|x: TargetView|
                before.contains(x) <==> targets_view(targets@.take(i + 1)).contains(x) by {
                lemma_contains_push(targets_view(targets@.take(i as int)), x, fv);
            }
        } else {
            proof {
                if p < options.len() {
                    assert(before[p - 1] == options@[p as int]@);
                    lemma_target_lt_total(before[p - 1], fv);
                }
            }
            options.insert(p, f.copy());
            let ghost after = targets_view(options@).skip(1);
            assert(after =~= before.insert(p - 1, fv));
            assert forall|a: int, b: int| 0 <= a < b < after.len() implies target_lt(#[trigger] after[a], #[trigger] after[b]) by {
                let q = p - 1;
                if b < q {
                } else if b == q {
                    assert(after[a] == before[a]);
                } else if a < q {
                    assert(after[b] == before[b - 1]);
                    assert(after[a] == before[a]);
                    if b - 1 > q {
                        assert(target_lt(before[q], before[b - 1]));
                    }
                    lemma_target_lt_transitive(before[a], fv, before[q]);
                    if b - 1 > q {
                        lemma_target_lt_transitive(before[a], before[q], before[b - 1]);
                    }
                } else if a == q {
                    assert(after[b] == before[b - 1]);
                    if b - 1 > q {
                        assert(target_lt(before[q], before[b - 1]));
                        lemma_target_lt_transitive(fv, before[q], before[b - 1]);
                    }
                } else {
                    assert(after[a] == before[a - 1]);
                    assert(after[b] == before[b - 1]);
                }
            }
            assert forall|x: TargetView|
                after.contains(x) <==> targets_view(targets@.take(i + 1)).contains(x) by {
                lemma_contains_push(targets_view(targets@.take(i as int)), x, fv);
                lemma_contains_insert(before, p - 1, x, fv);
            }
        }
        i += 1;
    }
    assert(targets@.take(targets.len() as int) =~= targets@);
    assert(targets_view(options@) =~= seq![targets_view(options@)[0]] + targets_view(options@).skip(1));
    options
}

/// The value of the first label named `key`.
pub open spec fn label_value_spec(labels: LabelsView, key: Seq<char>) -> Option<Seq<char>>
    decreases labels.len(),
{
    if labels.len() == 0 {
        None
    } else if labels[0].0 == key {
        Some(labels[0].1)
    } else {
        label_value_spec(labels.drop_first(), key)
    }
}

/// The value of the first label of `labels` whose name is `key`.
pub fn label_value(labels: &Vec<(String, String)>, key: &str) -> (r: Option<String>)
    ensures
        match r {
            Some(s) => label_value_spec(labels.deep_view(), key@) == Some(s@),
            None => label_value_spec(labels.deep_view(), key@) is None,
        },
{
    let mut i: usize = 0;
    assert(labels.deep_view().skip(0) =~= labels.deep_view());
    while i < labels.len()
        invariant
            0 <= i <= labels.len(),
            label_value_spec(labels.deep_view(), key@) == label_value_spec(labels.deep_view().skip(i as int), key@),
        decreases labels.len() - i,
    {
        assert(labels.deep_view().skip(i as int)[0] == labels.deep_view()[i as int]);
        if text_eq(labels[i].0.as_str(), key) {
            return Some(labels[i].1.clone());
        }
        assert(labels.deep_view().skip(i as int).drop_first() =~= labels.deep_view().skip(i + 1));
        i += 1;
    }
    None
}

} // verus!
