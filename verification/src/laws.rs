//! What holds of the dashboard across operations.

use vstd::prelude::*;
use crate::app::{
    App, HistoryView, KeyView, LogFocus, flipped, keep_last, lemma_key_index, lemma_filter_no_duplicates,
    has_metric_key, lemma_name_index, name_index, restored_cursor, app_wf, history_of, lemma_record_index,
    record_index, loaded_into, current_key, initial_metric_view, sample_key, capped, matches_target, log_shown, moved, next_history, other_than, recorded, toggled, values_for,
    visible_metrics, shown, HISTORY_LIMIT, LOG_ENTRY_LIMIT,
};
use crate::logs::{
    appended, current_stream_key, max_tail, max_tail_of, log_needle, next_focus, previous_focus, restored,
    scrolled, stored, streams_map, at_most,
};
use crate::loki::entries_view;
use crate::prometheus::{
    samples_view,
    LabelsView, SampleView, is_delim, lemma_index_of, lemma_skip_delims, parse_labels_spec, scan_value, skip_delims,
    unescape,
};
use crate::text::{escape_char, escape_quoted, is_ws, trim, trim_start};
use crate::text::needle_text;
use crate::targets::{TargetView, wildcard_view, strictly_sorted, target_lt};
use crate::text::lemma_text_lt_irreflexive;
use crate::wrap::lemma_wrap_round_trip;
use crate::app::{matches_filter, matches_log_filter};
use crate::keys::{Key, log_key_effect};
use crate::logs::{hosts_taken, names_taken, stream_shown, visible_entries};
use crate::numbers::{all_digits, is_float_literal, is_mantissa};
use crate::text::{has_substring, lowercase};

verus! {

/// Switching the history view twice shows the view it started on.
pub proof fn law_history_view_toggle_twice(v: HistoryView)
    ensures
        flipped(flipped(v)) == v,
{
}

/// The log panes form a cycle of three: next undoes previous, previous
/// undoes next, and three steps return to the start.
pub proof fn law_log_focus_cycle(f: LogFocus)
    ensures
        next_focus(previous_focus(f)) == f,
        previous_focus(next_focus(f)) == f,
        next_focus(next_focus(next_focus(f))) == f,
{
}

/// A cursor moved down and then up (or up and then down) through a
/// non-empty list is back where it was.
pub proof fn law_cursor_round_trip(index: usize, len: usize)
    requires
        index < len,
    ensures
        moved(moved(index, len, 1) as usize, len, -1) == index,
        moved(moved(index, len, -1) as usize, len, 1) == index,
{
    lemma_wrap_round_trip(index as int, len as int, 1);
    lemma_wrap_round_trip(index as int, len as int, -1);
    assert(moved(index, len, 1) < len) by {
        vstd::arithmetic::div_mod::lemma_mod_bound(index + 1, len as int);
    }
    assert(moved(index, len, -1) >= 0 && moved(index, len, -1) < len) by {
        vstd::arithmetic::div_mod::lemma_mod_bound(index - 1, len as int);
    }
}

/// Toggling the same metric twice leaves the same set of metrics selected,
/// and a selection without repeats keeps none after a toggle.
pub proof fn law_selection_toggle_twice(sel: Seq<KeyView>, k: KeyView)
    requires
        sel.no_duplicates(),
    ensures
        toggled(sel, k).no_duplicates(),
        toggled(toggled(sel, k), k).to_set() == sel.to_set(),
{
    broadcast use vstd::seq_lib::group_seq_properties;
    broadcast use vstd::seq_lib::group_filter_ensures;

    let f = sel.filter(other_than(k));
    if sel.contains(k) {
        lemma_filter_no_duplicates(sel, other_than(k));
        assert(!f.contains(k)) by {
            if f.contains(k) {
                let i = choose|i: int| 0 <= i < f.len() && f[i] == k;
                sel.lemma_filter_pred(other_than(k), i);
            }
        }
        assert(toggled(f, k) == f.push(k));
        assert forall|x: KeyView| f.push(k).to_set().contains(x) == sel.to_set().contains(x) by {
            if x != k && sel.contains(x) {
                let i = choose|i: int| 0 <= i < sel.len() && sel[i] == x;
                sel.lemma_filter_contains(other_than(k), i);
            }
            if f.contains(x) {
                sel.lemma_filter_contains_rev(other_than(k), x);
            }
            if f.push(k).contains(x) && x != k {
                let i = choose|i: int| 0 <= i < f.len() + 1 && f.push(k)[i] == x;
                assert(f[i] == x);
            }
            if x == k {
                assert(f.push(k)[f.len() as int] == k);
            }
        }
        assert(f.push(k).to_set() =~= sel.to_set());
        assert forall|i: int, j: int| 0 <= i < j < f.len() + 1 implies f.push(k)[i] != f.push(k)[j] by {
            if j == f.len() {
                assert(f.push(k)[i] == f[i]);
            }
        }
    } else {
        let p = sel.push(k);
        assert(p[sel.len() as int] == k);
        assert forall|i: int, j: int| 0 <= i < j < p.len() implies p[i] != p[j] by {
            if j == sel.len() {
                assert(p[i] == sel[i]);
            }
        }
        assert(toggled(p, k) == p.filter(other_than(k)));
        sel.lemma_filter_push(k, other_than(k));
        assert(p.filter(other_than(k)) == f);
        assert forall|x: KeyView| f.to_set().contains(x) == sel.to_set().contains(x) by {
            if sel.contains(x) {
                let i = choose|i: int| 0 <= i < sel.len() && sel[i] == x;
                sel.lemma_filter_contains(other_than(k), i);
            }
            if f.contains(x) {
                sel.lemma_filter_contains_rev(other_than(k), x);
            }
        }
        assert(f.to_set() =~= sel.to_set());
    }
}

/// A recorded history never holds more than `HISTORY_LIMIT` values, and the
/// history of a loaded metric ends with the last value it was loaded with.
pub proof fn law_history_capped(rs: Seq<crate::app::HistoryRecord>, ms: Seq<SampleView>, k: KeyView)
    requires
        has_metric_key(ms, k),
    ensures
        next_history(rs, ms, k) matches Some(h) && h.len() <= HISTORY_LIMIT && h.len() > 0 && h.last()
            == values_for(ms, k).last(),
{
    let j = choose|j: int| 0 <= j < ms.len() && crate::app::sample_key(ms[j]) == k;
    let f = ms.filter(crate::app::key_is(k));
    ms.lemma_filter_contains(crate::app::key_is(k), j);
    assert(f.len() > 0);
    let all = recorded(rs, k) + values_for(ms, k);
    assert(all.last() == values_for(ms, k).last());
    if all.len() > HISTORY_LIMIT {
        assert(keep_last(all, HISTORY_LIMIT as nat).last() == all.last());
    }
}

/// A metric list never holds more samples than the configured maximum, and
/// each of its samples is a loaded sample that passes both filters.
pub proof fn law_visible_metrics_bounded(
    all: Seq<SampleView>,
    t: TargetView,
    needle: Seq<char>,
    max: Option<usize>,
)
    ensures
        max matches Some(m) ==> visible_metrics(all, t, needle, max).len() <= m,
        forall|i: int|
            0 <= i < visible_metrics(all, t, needle, max).len() ==> all.contains(
                #[trigger] visible_metrics(all, t, needle, max)[i],
            ) && shown(t, needle)(visible_metrics(all, t, needle, max)[i]),
{
    let f = all.filter(shown(t, needle));
    assert forall|i: int| 0 <= i < visible_metrics(all, t, needle, max).len() implies all.contains(
        #[trigger] visible_metrics(all, t, needle, max)[i],
    ) && shown(t, needle)(visible_metrics(all, t, needle, max)[i]) by {
        let x = visible_metrics(all, t, needle, max)[i];
        assert(f[i] == x);
        all.lemma_filter_pred(shown(t, needle), i);
        assert(f.contains(x));
        all.lemma_filter_contains_rev(shown(t, needle), x);
    }
}

/// A remembered log comes back as it was left: storing the log on screen
/// and then showing the same host and log gives back its entries, the time
/// of its last entry and its scroll position (held to what the filter shows).
pub proof fn law_stream_round_trip(a1: App, a2: App, a3: App)
    requires
        current_stream_key(a1) is Some,
        stored(a1, a2),
        restored(a2, a3),
    ensures
        entries_view(a3.log_entries@) == entries_view(a1.log_entries@),
        a3.last_log_timestamp_ns == a1.last_log_timestamp_ns,
        a3.log_tail_offset == at_most(a1.log_tail_offset as int, max_tail(a1) as int),
{
    let k = current_stream_key(a1)->0;
    assert(current_stream_key(a2) == Some(k));
    assert(streams_map(a2.log_streams@).contains_key(k));
    assert(max_tail(a3) == max_tail(a1));
}

/// Remembering one host's log leaves what is remembered of every other log.
pub proof fn law_store_keeps_other_streams(a1: App, a2: App, other: (Seq<char>, Seq<char>))
    requires
        stored(a1, a2),
        current_stream_key(a1) != Some(other),
    ensures
        streams_map(a2.log_streams@).contains_key(other) == streams_map(a1.log_streams@).contains_key(other),
        streams_map(a1.log_streams@).contains_key(other) ==> streams_map(a2.log_streams@)[other]
            == streams_map(a1.log_streams@)[other],
{
}

/// Taking in entries keeps at most `LOG_ENTRY_LIMIT` of them and the tail
/// within what the filter shows.
pub proof fn law_appended_bounds(old: App, new: App, es: Seq<(i64, Seq<char>)>)
    requires
        appended(old, new, es),
    ensures
        new.log_entries@.len() <= LOG_ENTRY_LIMIT,
        new.log_tail_offset <= max_tail(new),
{
    assert(entries_view(new.log_entries@).len() == new.log_entries@.len());
    assert(log_needle(new) == log_needle(old));
}

/// The cursor stays on the metric it was on whenever the rebuilt list still
/// shows that metric.
pub proof fn law_cursor_follows_metric(ms: Seq<SampleView>, k: KeyView, initial: Option<Seq<char>>)
    requires
        has_metric_key(ms, k),
    ensures
        0 <= restored_cursor(ms, Some(k), initial) < ms.len(),
        sample_key(ms[restored_cursor(ms, Some(k), initial)]) == k,
{
    lemma_key_index(ms, k);
}

/// Without a metric to stay on, the cursor goes to the first metric with the
/// configured initial name when the list has one, and to the top otherwise.
pub proof fn law_cursor_starts_on_initial_metric(ms: Seq<SampleView>, name: Seq<char>)
    ensures
        (exists|j: int| 0 <= j < ms.len() && ms[j].0 == name) ==> ({
            let c = restored_cursor(ms, None, Some(name));
            &&& 0 <= c < ms.len()
            &&& ms[c].0 == name
            &&& forall|j: int| 0 <= j < c ==> ms[j].0 != name
        }),
        !(exists|j: int| 0 <= j < ms.len() && ms[j].0 == name) ==> restored_cursor(ms, None, Some(name)) == 0,
{
    lemma_name_index(ms, name);
    if exists|j: int| 0 <= j < ms.len() && ms[j].0 == name {
        let j = choose|j: int| 0 <= j < ms.len() && ms[j].0 == name;
        assert(name_index(ms, name) <= j);
    }
}

/// An empty metric filter keeps every loaded sample of the filter in effect:
/// the list is those samples in load order, cut to the configured maximum.
pub proof fn law_empty_metric_filter_keeps_target(
    all: Seq<SampleView>,
    t: TargetView,
    max: Option<usize>,
)
    ensures
        visible_metrics(all, t, needle_text(Seq::empty()), max) == capped(
            all.filter(|m: SampleView| matches_target(t, m)),
            max,
        ),
{
    assert(shown(t, needle_text(Seq::empty())) =~= (|m: SampleView| matches_target(t, m)));
}

/// An empty log filter keeps every entry, so the tail can be scrolled back to
/// the oldest entry.
pub proof fn law_empty_log_filter_keeps_all(es: Seq<(i64, Seq<char>)>)
    ensures
        es.filter(log_shown(needle_text(Seq::empty()))) == es,
        max_tail_of(es, needle_text(Seq::empty())) == if es.len() > 0 { es.len() - 1 } else { 0 },
    decreases es.len(),
{
    let p = log_shown(needle_text(Seq::empty()));
    if es.len() > 0 {
        let init = es.drop_last();
        law_empty_log_filter_keeps_all(init);
        assert(es =~= init.push(es.last()));
        init.lemma_filter_push(es.last(), p);
    } else {
        reveal(Seq::filter);
    }
}

/// Escaping works character by character from the front too.
pub proof fn lemma_escape_quoted_prepend(c: char, v: Seq<char>)
    ensures
        escape_quoted(seq![c] + v) == escape_char(c) + escape_quoted(v),
    decreases v.len(),
{
    if v.len() == 0 {
        assert((seq![c] + v).drop_last() =~= Seq::<char>::empty());
        assert(escape_quoted(Seq::<char>::empty()) == Seq::<char>::empty());
        assert(escape_char(c) + escape_quoted(v) =~= escape_char(c));
        assert(escape_quoted(seq![c] + v) =~= escape_quoted(Seq::<char>::empty()) + escape_char(c));
    } else {
        lemma_escape_quoted_prepend(c, v.drop_last());
        assert((seq![c] + v).drop_last() =~= seq![c] + v.drop_last());
        assert((seq![c] + v).last() == v.last());
        assert(escape_quoted(seq![c] + v) == escape_quoted(seq![c] + v.drop_last()) + escape_char(v.last()));
        assert(escape_char(c) + escape_quoted(v.drop_last()) + escape_char(v.last()) =~= escape_char(c) + (
        escape_quoted(v.drop_last()) + escape_char(v.last())));
    }
}

/// Reading an escaped value back stops at its closing quote and gives the
/// value.
pub proof fn lemma_scan_escaped(v: Seq<char>, rest: Seq<char>)
    ensures
        scan_value(escape_quoted(v) + seq!['"'] + rest) == Some((v, rest)),
    decreases v.len(),
{
    if v.len() == 0 {
        assert(escape_quoted(v) + seq!['"'] + rest =~= seq!['"'] + rest);
        assert((seq!['"'] + rest).drop_first() =~= rest);
    } else {
        let c = v[0];
        let tail = v.drop_first();
        assert(v =~= seq![c] + tail);
        lemma_escape_quoted_prepend(c, tail);
        lemma_scan_escaped(tail, rest);
        let s = escape_quoted(v) + seq!['"'] + rest;
        let after = escape_quoted(tail) + seq!['"'] + rest;
        assert(s =~= escape_char(c) + after);
        if c == '\\' || c == '"' {
            assert(s.skip(2) =~= after);
            assert(seq![unescape(s[1])] + tail =~= v);
        } else {
            assert(s.drop_first() =~= after);
            assert(seq![s[0]] + tail =~= v);
        }
    }
}

/// One label written as `key="escaped value"`.
pub open spec fn label_written(p: (Seq<char>, Seq<char>)) -> Seq<char> {
    p.0 + seq!['=', '"'] + escape_quoted(p.1) + seq!['"']
}

/// Labels written one after another, separated by commas.
pub open spec fn labels_written(ls: LabelsView) -> Seq<char>
    decreases ls.len(),
{
    if ls.len() == 0 {
        seq![]
    } else if ls.len() == 1 {
        label_written(ls[0])
    } else {
        label_written(ls[0]) + seq![','] + labels_written(ls.drop_first())
    }
}

/// A key that reads back as written: not empty, without `=`, not starting
/// with a separator and not ending in whitespace.
pub open spec fn plain_key(k: Seq<char>) -> bool {
    &&& k.len() > 0
    &&& !is_delim(k[0])
    &&& !is_ws(k.last())
    &&& forall|i: int| 0 <= i < k.len() ==> k[i] != '='
}

/// A label written with its value escaped, in front of more text, is read
/// as that label followed by what the rest holds.
pub proof fn lemma_parse_one(k: Seq<char>, v: Seq<char>, rest: Seq<char>)
    requires
        k.len() > 0,
        !is_delim(k[0]),
        forall|i: int| 0 <= i < k.len() ==> k[i] != '=',
    ensures
        parse_labels_spec(label_written((k, v)) + rest) == match parse_labels_spec(rest) {
            Ok(l) => Ok::<LabelsView, Seq<char>>(seq![(trim(k), v)] + l),
            Err(x) => Err(x),
        },
{
    let s = label_written((k, v)) + rest;
    lemma_skip_delims(s, 0);
    assert(s.skip(0) =~= s);
    assert(s[k.len() as int] == '=');
    lemma_index_of(s, '=', k.len() as int);
    assert(s[k.len() + 1int] == '"');
    assert(s.skip(k.len() + 2int) =~= escape_quoted(v) + seq!['"'] + rest);
    lemma_scan_escaped(v, rest);
    assert(s.take(k.len() as int) =~= k);
}

/// Text that starts past its separators parses as it is after a comma.
pub proof fn lemma_parse_after_comma(w: Seq<char>)
    requires
        w.len() > 0,
        !is_delim(w[0]),
    ensures
        parse_labels_spec(seq![','] + w) == parse_labels_spec(w),
{
    assert((seq![','] + w)[0] == ',');
    assert((seq![','] + w).drop_first() =~= w);
    assert(skip_delims(seq![','] + w) == skip_delims(w));
}

/// Labels written with their values escaped and separated by commas read
/// back as exactly those labels, in order: the parser undoes
/// `escape_label_value` and `escape_matcher` for every value.
pub proof fn law_parse_undoes_escape(ls: LabelsView)
    requires
        forall|i: int| 0 <= i < ls.len() ==> plain_key(#[trigger] ls[i].0),
    ensures
        parse_labels_spec(labels_written(ls)) == Ok::<LabelsView, Seq<char>>(ls),
    decreases ls.len(),
{
    if ls.len() == 0 {
        assert(labels_written(ls) =~= Seq::<char>::empty());
        assert(skip_delims(Seq::<char>::empty()) =~= Seq::<char>::empty());
        assert(ls =~= seq![]);
    } else {
        let k = ls[0].0;
        let v = ls[0].1;
        assert(plain_key(ls[0].0));
        assert(trim(k) == k) by {
            assert(trim_start(k) == k);
        }
        let tail = ls.drop_first();
        assert forall|i: int| 0 <= i < tail.len() implies plain_key(#[trigger] tail[i].0) by {
            assert(tail[i] == ls[i + 1]);
        }
        if ls.len() == 1 {
            lemma_parse_one(k, v, Seq::empty());
            assert(label_written((k, v)) + Seq::empty() =~= labels_written(ls));
            assert(skip_delims(Seq::<char>::empty()) =~= Seq::<char>::empty());
            assert(seq![(trim(k), v)] + Seq::<(Seq<char>, Seq<char>)>::empty() =~= ls);
            assert(parse_labels_spec(labels_written(ls)) == Ok::<LabelsView, Seq<char>>(ls));
        } else {
            let w = labels_written(tail);
            law_parse_undoes_escape(tail);
            assert(plain_key(tail[0].0));
            assert(w[0] == tail[0].0[0]) by {
                if tail.len() == 1 {
                    assert(w == label_written(tail[0]));
                } else {
                    assert(w == label_written(tail[0]) + seq![','] + labels_written(tail.drop_first()));
                }
            }
            lemma_parse_after_comma(w);
            lemma_parse_one(k, v, seq![','] + w);
            assert(label_written((k, v)) + (seq![','] + w) =~= labels_written(ls));
            assert(seq![(trim(k), v)] + tail =~= ls);
            assert(parse_labels_spec(labels_written(ls)) == Ok::<LabelsView, Seq<char>>(ls));
        }
    }
}

/// What the dashboard invariant gives: the wildcard is the first option, the
/// filter in effect and the picker cursor are options, the cursor is on a
/// listed metric (or at the top of an empty list), every selected metric is
/// listed, no metric is selected twice, and no history holds more than
/// `HISTORY_LIMIT` values.
pub proof fn law_dashboard_invariant(a: App)
    requires
        app_wf(a),
    ensures
        a.target_options@[0]@ == wildcard_view(),
        a.target_selected < a.target_options.len(),
        a.target_cursor < a.target_options.len(),
        a.cursor < a.metrics.len() || (a.metrics.len() == 0 && a.cursor == 0),
        forall|k: KeyView| #[trigger] a.selected_metrics.deep_view().contains(k) ==> has_metric_key(
            samples_view(a.metrics@),
            k,
        ),
        a.selected_metrics.deep_view().no_duplicates(),
        forall|k: KeyView| (#[trigger] history_of(a, k)).len() <= HISTORY_LIMIT,
{
    assert forall|k: KeyView| #[trigger] a.selected_metrics.deep_view().contains(k) implies has_metric_key(
        samples_view(a.metrics@),
        k,
    ) by {
        let i = choose|i: int| 0 <= i < a.selected_metrics.deep_view().len() && a.selected_metrics.deep_view()[i] == k;
        assert(has_metric_key(samples_view(a.metrics@), a.selected_metrics.deep_view()[i]));
    }
    assert forall|k: KeyView| (#[trigger] history_of(a, k)).len() <= HISTORY_LIMIT by {
        lemma_record_index(a.metric_history@, k);
        let i = record_index(a.metric_history@, k);
        if i < a.metric_history@.len() {
            assert(a.metric_history@[i].values.len() <= HISTORY_LIMIT);
        }
    }
}

/// A load keeps the cursor on the metric it was on when the new list still
/// shows a metric with that name and those labels; otherwise the cursor goes
/// to the first metric with the configured initial name, or to the top.
pub proof fn law_load_keeps_selected_metric(old: App, new: App, ms: Seq<SampleView>, k: KeyView)
    requires
        loaded_into(old, new, ms),
        current_key(old) == Some(k),
    ensures
        has_metric_key(samples_view(new.metrics@), k) ==> new.cursor < new.metrics.len() && sample_key(
            new.metrics@[new.cursor as int]@,
        ) == k,
        !has_metric_key(samples_view(new.metrics@), k) ==> match initial_metric_view(old.display) {
            Some(n) => if exists|j: int| 0 <= j < new.metrics.len() && new.metrics@[j].name@ == n {
                &&& new.cursor < new.metrics.len()
                &&& new.metrics@[new.cursor as int].name@ == n
                &&& forall|j: int| 0 <= j < new.cursor ==> new.metrics@[j].name@ != n
            } else {
                new.cursor == 0
            },
            None => new.cursor == 0,
        },
{
    let shown = samples_view(new.metrics@);
    lemma_key_index(shown, k);
    if !has_metric_key(shown, k) {
        match initial_metric_view(old.display) {
            Some(n) => {
                lemma_name_index(shown, n);
                if exists|j: int| 0 <= j < new.metrics.len() && new.metrics@[j].name@ == n {
                    let j = choose|j: int| 0 <= j < new.metrics.len() && new.metrics@[j].name@ == n;
                    assert(shown[j].0 == n);
                    assert forall|i: int| 0 <= i < new.cursor implies new.metrics@[i].name@ != n by {
                        assert(shown[i].0 == new.metrics@[i].name@);
                    }
                } else {
                    if name_index(shown, n) < shown.len() {
                        assert(new.metrics@[name_index(shown, n)].name@ == n);
                    }
                }
            },
            None => {},
        }
    }
}

/// Target options in their order hold no filter twice.
pub proof fn law_sorted_targets_distinct(s: Seq<TargetView>)
    requires
        strictly_sorted(s),
    ensures
        s.no_duplicates(),
{
    assert forall|i: int, j: int| 0 <= i < s.len() && 0 <= j < s.len() && i != j implies s[i] != s[j] by {
        if s[i] == s[j] {
            lemma_text_lt_irreflexive(s[i].0);
            lemma_text_lt_irreflexive(s[i].1);
            if i < j {
                assert(target_lt(s[i], s[j]));
            } else {
                assert(target_lt(s[j], s[i]));
            }
        }
    }
}

/// Scrolling never leaves the tail past the oldest entry shown, when it
/// started within it.
pub proof fn law_scroll_within_view(old: App, new: App, offset: usize)
    requires
        scrolled(old, new, offset),
        offset <= max_tail(old),
    ensures
        new.log_tail_offset <= max_tail(new),
{
}


/// Switching to another host or log leaves both lists, both choices and the
/// focus as they were.
pub proof fn lemma_stream_shown_keeps_choices(old: App, new: App)
    requires
        stream_shown(old, new),
    ensures
        new.log_hosts == old.log_hosts,
        new.log_names == old.log_names,
        new.log_host_selected == old.log_host_selected,
        new.log_name_selected == old.log_name_selected,
        new.log_focus == old.log_focus,
        new.log_filter_query == old.log_filter_query,
{
}

/// One step up through a list of `len` entries from `sel`: the entry above,
/// or the last from the first.
pub open spec fn step_up(sel: int, len: int) -> int {
    if sel == 0 {
        len - 1
    } else {
        sel - 1
    }
}

/// One step down through a list of `len` entries from `sel`: the entry
/// below, or the first from the last.
pub open spec fn step_down(sel: int, len: int) -> int {
    if sel == len - 1 {
        0
    } else {
        sel + 1
    }
}

/// Moving a cursor by -1 and +1 through a list are the steps up and down.
pub proof fn lemma_moved_steps(sel: usize, len: usize)
    requires
        sel < len,
    ensures
        moved(sel, len, -1) == step_up(sel as int, len as int),
        moved(sel, len, 1) == step_down(sel as int, len as int),
{
    let l = len as int;
    if sel == 0 {
        vstd::arithmetic::div_mod::lemma_mod_multiples_vanish(-1, l - 1, l);
        assert(l * -1 + (l - 1) == -1) by (nonlinear_arith);
        vstd::arithmetic::div_mod::lemma_small_mod((l - 1) as nat, l as nat);
    } else {
        vstd::arithmetic::div_mod::lemma_small_mod((sel - 1) as nat, l as nat);
    }
    if sel == len - 1 {
        vstd::arithmetic::div_mod::lemma_mod_self_0(l);
    } else {
        vstd::arithmetic::div_mod::lemma_small_mod((sel + 1) as nat, l as nat);
    }
}

/// On the log screen, Up (or `k`) moves the choice of the focused host or
/// log list one entry up, wrapping from the first to the last; Down (or `j`)
/// moves it one entry down, wrapping from the last to the first. So Up then
/// Down comes back to the choice it started on.
pub proof fn law_log_keys_move_choice(old: App, up: App, back: App)
    requires
        log_key_effect(old, up, Key::Up),
        log_key_effect(up, back, Key::Down),
        old.log_focus == LogFocus::Hosts ==> old.log_host_selected < old.log_hosts.len(),
        old.log_focus == LogFocus::Logs ==> old.log_name_selected < old.log_names.len(),
    ensures
        old.log_focus == LogFocus::Hosts ==> up.log_host_selected == step_up(
            old.log_host_selected as int,
            old.log_hosts.len() as int,
        ) && back.log_host_selected == old.log_host_selected,
        old.log_focus == LogFocus::Logs ==> up.log_name_selected == step_up(
            old.log_name_selected as int,
            old.log_names.len() as int,
        ) && back.log_name_selected == old.log_name_selected,
        old.log_focus == LogFocus::Tail ==> up == old && back == old,
{
    if old.log_focus == LogFocus::Hosts {
        let n = old.log_hosts.len();
        lemma_moved_steps(old.log_host_selected, n);
        let w = moved(old.log_host_selected, n, -1) as usize;
        lemma_stream_shown_keeps_choices(App { log_host_selected: w, ..old }, up);
        lemma_moved_steps(up.log_host_selected, n);
        let w2 = moved(up.log_host_selected, n, 1) as usize;
        lemma_stream_shown_keeps_choices(App { log_host_selected: w2, ..up }, back);
    } else if old.log_focus == LogFocus::Logs {
        let n = old.log_names.len();
        lemma_moved_steps(old.log_name_selected, n);
        let w = moved(old.log_name_selected, n, -1) as usize;
        lemma_stream_shown_keeps_choices(App { log_name_selected: w, ..old }, up);
        lemma_moved_steps(up.log_name_selected, n);
        let w2 = moved(up.log_name_selected, n, 1) as usize;
        lemma_stream_shown_keeps_choices(App { log_name_selected: w2, ..up }, back);
    }
}

/// When new host names arrive, a choice that still points into the new list
/// stays; only a choice past its end falls back to the first host.
pub proof fn law_new_hosts_keep_choice(old: App, new: App, hosts: Seq<String>)
    requires
        hosts_taken(old, new, hosts),
    ensures
        old.log_host_selected < hosts.len() ==> new.log_host_selected == old.log_host_selected,
        old.log_host_selected >= hosts.len() ==> new.log_host_selected == 0,
        new.log_name_selected == old.log_name_selected,
{
}

/// When new log names arrive, a choice that still points into the new list
/// stays; only a choice past its end falls back to the first log. The host
/// choice does not change.
pub proof fn law_new_log_names_keep_choice(old: App, new: App, names: Seq<String>)
    requires
        names_taken(old, new, names),
    ensures
        old.log_name_selected < names.len() ==> new.log_name_selected == old.log_name_selected,
        old.log_name_selected >= names.len() ==> new.log_name_selected == 0,
        new.log_host_selected == old.log_host_selected,
{
    let mid = App {
        log_names: new.log_names,
        log_name_selected: crate::logs::kept_choice(old.log_name_selected, names.len()),
        ..old
    };
    lemma_stream_shown_keeps_choices(mid, new);
}

/// A sample passes a non-empty text filter exactly when the filter text
/// occurs in its lowercased name, or in the lowercased name or value of one
/// of its labels; an empty filter passes every sample.
pub proof fn law_text_filter_searches_names_and_labels(needle: Seq<char>, m: SampleView)
    ensures
        matches_filter(needle, m) == (needle.len() == 0 || has_substring(lowercase(m.0), needle) || exists|i: int|
            0 <= i < m.1.len() && (has_substring(lowercase((#[trigger] m.1[i]).0), needle) || has_substring(
                lowercase(m.1[i].1),
                needle,
            ))),
{
    if exists|i: int|
        0 <= i < m.1.len() && (has_substring(lowercase((#[trigger] m.1[i]).0), needle) || has_substring(
            lowercase(m.1[i].1),
            needle,
        )) {
        let i = choose|i: int|
            0 <= i < m.1.len() && (has_substring(lowercase((#[trigger] m.1[i]).0), needle) || has_substring(
                lowercase(m.1[i].1),
                needle,
            ));
        assert(crate::app::label_matches(needle, m.1[i]));
    }
    if exists|i: int| 0 <= i < m.1.len() && crate::app::label_matches(needle, #[trigger] m.1[i]) {
        let i = choose|i: int| 0 <= i < m.1.len() && crate::app::label_matches(needle, #[trigger] m.1[i]);
        assert(has_substring(lowercase(m.1[i].0), needle) || has_substring(lowercase(m.1[i].1), needle));
    }
}

/// A number with a negative exponent is a float literal: any mantissa, then
/// `e-`, then digits.
pub proof fn law_negative_exponent_accepted(m: Seq<char>, d: Seq<char>)
    requires
        is_mantissa(m),
        d.len() > 0,
        all_digits(d),
    ensures
        is_float_literal(m + seq!['e', '-'] + d),
        is_float_literal(m + seq!['E', '-'] + d),
{
    let s = m + seq!['e', '-'] + d;
    let t = m + seq!['E', '-'] + d;
    assert(m.len() > 0);
    assert(!crate::numbers::is_sign(m[0])) by {
        if !(m.len() > 0 && all_digits(m)) {
            let p = choose|p: int|
                0 <= p < m.len() && m.len() > 1 && #[trigger] m[p] == '.' && all_digits(m.take(p))
                    && all_digits(m.skip(p + 1));
            if p > 0 {
                assert(m.take(p)[0] == m[0]);
            }
        }
    }
    let e = m.len() as int;
    assert(s[0] == m[0]);
    assert(t[0] == m[0]);
    assert(s.take(e) =~= m);
    assert(t.take(e) =~= m);
    assert(s.skip(e + 1) =~= seq!['-'] + d);
    assert(t.skip(e + 1) =~= seq!['-'] + d);
    assert((seq!['-'] + d).skip(1) =~= d);
    assert(s[e] == 'e');
    assert(t[e] == 'E');
    assert(crate::numbers::is_number(s));
    assert(crate::numbers::is_number(t));
}

/// Entries that the log filter hides never move a tail scrolled back within
/// the shown entries, as long as nothing is dropped for the entry limit.
pub proof fn law_hidden_entries_keep_scroll(old: App, new: App, es: Seq<(i64, Seq<char>)>)
    requires
        appended(old, new, es),
        forall|i: int| 0 <= i < es.len() ==> !matches_log_filter(needle_text(old.log_filter_query@), #[trigger] es[i]),
        old.log_entries.len() + es.len() <= LOG_ENTRY_LIMIT,
        old.log_tail_offset <= max_tail(old),
    ensures
        new.log_tail_offset == old.log_tail_offset,
        visible_entries(new) == visible_entries(old),
{
    let p = log_shown(log_needle(old));
    let e0 = entries_view(old.log_entries@);
    assert(e0.len() == old.log_entries.len());
    assert(keep_last(e0 + es, LOG_ENTRY_LIMIT as nat) == e0 + es);
    lemma_filter_none(es, p);
    Seq::filter_distributes_over_add(e0, es, p);
    assert(e0.filter(p) + es.filter(p) =~= e0.filter(p));
    assert(log_needle(new) == log_needle(old));
}

/// A tail scrolled back keeps its place when entries arrive: its distance
/// from the newest shown entry grows by exactly the number of new entries the
/// filter shows (while it stays within them and nothing is dropped).
pub proof fn law_shown_entries_move_scroll(old: App, new: App, es: Seq<(i64, Seq<char>)>)
    requires
        appended(old, new, es),
        old.log_tail_offset > 0,
        old.log_entries.len() + es.len() <= LOG_ENTRY_LIMIT,
        old.log_tail_offset + (visible_entries(new).len() - visible_entries(old).len()) <= max_tail(new),
    ensures
        new.log_tail_offset == old.log_tail_offset + (visible_entries(new).len() - visible_entries(old).len()),
        visible_entries(new).len() - visible_entries(old).len() == es.filter(
            |e: (i64, Seq<char>)| matches_log_filter(needle_text(old.log_filter_query@), e),
        ).len(),
{
    let p = log_shown(log_needle(old));
    let e0 = entries_view(old.log_entries@);
    assert(e0.len() == old.log_entries.len());
    assert(keep_last(e0 + es, LOG_ENTRY_LIMIT as nat) == e0 + es);
    Seq::filter_distributes_over_add(e0, es, p);
    assert(log_needle(new) == log_needle(old));
    assert(p =~= (|e: (i64, Seq<char>)| matches_log_filter(needle_text(old.log_filter_query@), e)));
}

/// A filter that keeps no element of `s` gives nothing.
pub proof fn lemma_filter_none<A>(s: Seq<A>, p: spec_fn(A) -> bool)
    requires
        forall|i: int| 0 <= i < s.len() ==> !p(#[trigger] s[i]),
    ensures
        s.filter(p) == Seq::<A>::empty(),
{
    let f = s.filter(p);
    if f.len() > 0 {
        s.lemma_filter_pred(p, 0);
        assert(f.contains(f[0]));
        s.lemma_filter_contains_rev(p, f[0]);
    }
    assert(f =~= Seq::<A>::empty());
}

} // verus!
