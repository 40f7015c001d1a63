//! The text of the dashboard's lists and panels that does not depend on how
//! the terminal draws it.

use vstd::prelude::*;
use crate::prometheus::{LabelsView, MetricSample};
use crate::text::{decimal, usize_text};

verus! {

/// The first row shown of a list of `len` rows in a window of `visible`
/// rows, so that row `selected` is in the window.
pub open spec fn window_start_spec(selected: int, len: int, visible: int) -> int {
    if visible == 0 || len <= visible {
        0
    } else {
        let back = if selected > visible - 1 { selected - (visible - 1) } else { 0 };
        if back < len - visible { back } else { len - visible }
    }
}

/// The first row shown of a list of `len` rows in a window of `visible`
/// rows: the window ends at row `selected` when it can, and never runs past
/// the end of the list.
pub fn window_start(selected: usize, len: usize, visible: usize) -> (r: usize)
    ensures
        r == window_start_spec(selected as int, len as int, visible as int),
        visible > 0 && len > visible && selected < len ==> r <= selected < r + visible,
        r + visible <= len || r == 0,
{
    if visible == 0 || len <= visible {
        return 0;
    }
    let max_start = len - visible;
    let back = if selected > visible - 1 {
        selected - (visible - 1)
    } else {
        0
    };
    if back < max_start {
        back
    } else {
        max_start
    }
}

/// One label as a line: `key="value"`.
pub open spec fn label_line(p: (Seq<char>, Seq<char>)) -> Seq<char> {
    p.0 + "=\""@ + p.1 + "\""@
}

/// The label lines, one per label, joined by newlines.
pub open spec fn label_lines(l: LabelsView) -> Seq<char>
    decreases l.len(),
{
    if l.len() == 0 {
        seq![]
    } else if l.len() == 1 {
        label_line(l[0])
    } else {
        label_lines(l.drop_last()) + "\n"@ + label_line(l.last())
    }
}

/// The labels of a metric, one `key="value"` per line, or `none`.
pub fn format_metric_labels(metric: &MetricSample) -> (s: String)
    ensures
        s@ == if metric@.1.len() == 0 {
            "none"@
        } else {
            label_lines(metric@.1)
        },
{
    let ghost l = metric@.1;
    if metric.labels.len() == 0 {
        return String::from_str("none");
    }
    let mut s = String::new();
    let mut i: usize = 0;
    while i < metric.labels.len()
        invariant
            0 <= i <= metric.labels.len(),
            l == metric@.1,
            l.len() == metric.labels.len(),
            s@ == label_lines(l.take(i as int)),
        decreases metric.labels.len() - i,
    {
        let ghost before = s@;
        assert(l[i as int] == (metric.labels@[i as int].0@, metric.labels@[i as int].1@));
        if i > 0 {
            s.append("\n");
        }
        s.append(metric.labels[i].0.as_str());
        s.append("=\"");
        s.append(metric.labels[i].1.as_str());
        s.append("\"");
        let ghost t = l.take(i + 1);
        assert(t.drop_last() =~= l.take(i as int));
        assert(t.last() == l[i as int]);
        if i == 0 {
            assert(s@ =~= label_line(l[0]));
        } else {
            assert(s@ =~= before + "\n"@ + label_line(l[i as int]));
        }
        i += 1;
    }
    assert(l.take(l.len() as int) =~= l);
    s
}

/// The marker in front of a list row: `> ` on the row under the cursor.
pub open spec fn row_marker(on_cursor: bool) -> Seq<char> {
    if on_cursor {
        "> "@
    } else {
        "  "@
    }
}

/// The rows of a list window: the rows `start` to `start + visible` (as far
/// as the list goes), each behind its marker.
pub fn list_rows(texts: &Vec<String>, start: usize, visible: usize, selected: usize) -> (r: Vec<String>)
    ensures
        r.len() == if start >= texts.len() {
            0
        } else if visible < texts.len() - start {
            visible as int
        } else {
            texts.len() - start
        },
        forall|i: int|
            0 <= i < r.len() ==> #[trigger] r@[i]@ == row_marker(start + i == selected) + texts@[start
                + i]@,
{
    let mut r: Vec<String> = Vec::new();
    if start >= texts.len() {
        return r;
    }
    let n = if visible < texts.len() - start {
        visible
    } else {
        texts.len() - start
    };
    let mut i: usize = 0;
    while i < n
        invariant
            0 <= i <= n,
            start < texts.len(),
            n <= texts.len() - start,
            r.len() == i,
            forall|j: int|
                0 <= j < i ==> #[trigger] r@[j]@ == row_marker(start + j == selected) + texts@[start
                    + j]@,
        decreases n - i,
    {
        let mut row = if start + i == selected {
            String::from_str("> ")
        } else {
            String::from_str("  ")
        };
        row.append(texts[start + i].as_str());
        r.push(row);
        i += 1;
    }
    r
}

/// The first value shown of a history of `len` values in a table of
/// `visible_rows` rows: the newest values fill the table.
pub fn history_rows_start(len: usize, visible_rows: usize) -> (r: usize)
    ensures
        r == if visible_rows == 0 {
            if len > 1 { len - 1 } else { 0 }
        } else if len > visible_rows {
            len - visible_rows
        } else {
            0
        },
{
    let rows = if visible_rows == 0 {
        1
    } else {
        visible_rows
    };
    if len > rows {
        len - rows
    } else {
        0
    }
}

/// How a value of a history of `len` values at `index` is labelled: `now`
/// for the newest, `-n` for the one `n` loads before it.
pub fn history_point_label(len: usize, index: usize) -> (s: String)
    requires
        index < len,
    ensures
        s@ == if index + 1 == len {
            "now"@
        } else {
            "-"@ + decimal((len - (index + 1)) as nat)
        },
{
    let age = len - (index + 1);
    if age == 0 {
        String::from_str("now")
    } else {
        let mut s = String::from_str("-");
        let n = usize_text(age);
        s.append(n.as_str());
        s
    }
}

} // verus!
