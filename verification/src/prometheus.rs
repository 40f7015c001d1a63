//! The Prometheus text exposition format: one sample per line, `name{labels} value`.
//! Sample values are validated against the floating-point grammar and kept as
//! their text.

use vstd::prelude::*;
use crate::text::{is_ws, is_whitespace, chars_of, push_char, push_decimal, decimal, trim, trim_bounds, string_from_range};
use crate::numbers::is_float_literal;

verus! {

/// One sample: a metric name, its labels in the order written, and its value
/// as the text it was given in.
#[derive(Clone, Debug)]
pub struct MetricSample {
    pub name: String,
    pub labels: Vec<(String, String)>,
    pub value: String,
}

/// Labels as pairs of texts.
pub type LabelsView = Seq<(Seq<char>, Seq<char>)>;

/// A sample as texts: name, labels, value.
pub type SampleView = (Seq<char>, LabelsView, Seq<char>);

impl View for MetricSample {
    type V = SampleView;

    open spec fn view(&self) -> SampleView {
        (self.name@, self.labels.deep_view(), self.value@)
    }
}

/// The index of the first `c` in `s`, or `s.len()` when there is none.
pub open spec fn index_of(s: Seq<char>, c: char) -> int
    decreases s.len(),
{
    if s.len() == 0 {
        0
    } else if s[0] == c {
        0
    } else {
        1 + index_of(s.drop_first(), c)
    }
}

/// `index_of` is the first position that holds `c`.
pub proof fn lemma_index_of(s: Seq<char>, c: char, r: int)
    requires
        0 <= r <= s.len(),
        forall|k: int| 0 <= k < r ==> #[trigger] s[k] != c,
        r < s.len() ==> s[r] == c,
    ensures
        index_of(s, c) == r,
    decreases s.len(),
{
    if s.len() > 0 && s[0] != c {
        assert forall|k: int| 0 <= k < r - 1 implies #[trigger] s.drop_first()[k] != c by {
            assert(s.drop_first()[k] == s[k + 1]);
        }
        lemma_index_of(s.drop_first(), c, r - 1);
    }
}

/// `index_of` is a position in the text, or its length.
pub proof fn lemma_index_of_bounds(s: Seq<char>, c: char)
    ensures
        0 <= index_of(s, c) <= s.len(),
    decreases s.len(),
{
    if s.len() > 0 && s[0] != c {
        lemma_index_of_bounds(s.drop_first(), c);
    }
}

/// A label separator: a comma or whitespace.
pub open spec fn is_delim(c: char) -> bool {
    c == ',' || is_ws(c)
}

/// `s` without its leading separators.
pub open spec fn skip_delims(s: Seq<char>) -> Seq<char>
    decreases s.len(),
{
    if s.len() > 0 && is_delim(s[0]) {
        skip_delims(s.drop_first())
    } else {
        s
    }
}

/// `skip_delims` drops exactly the leading run of separators.
pub proof fn lemma_skip_delims(s: Seq<char>, j: int)
    requires
        0 <= j <= s.len(),
        forall|k: int| 0 <= k < j ==> is_delim(#[trigger] s[k]),
        j < s.len() ==> !is_delim(s[j]),
    ensures
        skip_delims(s) == s.skip(j),
    decreases s.len(),
{
    if j > 0 {
        assert forall|k: int| 0 <= k < j - 1 implies is_delim(#[trigger] s.drop_first()[k]) by {
            assert(s.drop_first()[k] == s[k + 1]);
        }
        lemma_skip_delims(s.drop_first(), j - 1);
        assert(s.drop_first().skip(j - 1) =~= s.skip(j));
    } else {
        assert(s.skip(0) =~= s);
    }
}

/// `skip_delims` never lengthens its input.
pub proof fn lemma_skip_delims_len(s: Seq<char>)
    ensures
        skip_delims(s).len() <= s.len(),
    decreases s.len(),
{
    if s.len() > 0 && is_delim(s[0]) {
        lemma_skip_delims_len(s.drop_first());
    }
}

/// What an escaped character stands for inside a quoted label value.
pub open spec fn unescape(c: char) -> char {
    if c == 'n' {
        '\n'
    } else {
        c
    }
}

/// Reads a quoted label value whose opening quote has been consumed: the value,
/// and the text after the closing quote (empty when the quote never closes).
/// `None` when the text ends inside an escape.
pub open spec fn scan_value(s: Seq<char>) -> Option<(Seq<char>, Seq<char>)>
    decreases s.len(),
{
    if s.len() == 0 {
        Some((seq![], s))
    } else if s[0] == '\\' {
        if s.len() < 2 {
            None
        } else {
            match scan_value(s.skip(2)) {
                Some((v, r)) => Some((seq![unescape(s[1])] + v, r)),
                None => None,
            }
        }
    } else if s[0] == '"' {
        Some((seq![], s.drop_first()))
    } else {
        match scan_value(s.drop_first()) {
            Some((v, r)) => Some((seq![s[0]] + v, r)),
            None => None,
        }
    }
}

/// The text after a quoted value is a suffix of the input.
pub proof fn lemma_scan_value_len(s: Seq<char>)
    ensures
        scan_value(s) matches Some((v, r)) ==> r.len() <= s.len(),
    decreases s.len(),
{
    if s.len() > 0 {
        if s[0] == '\\' {
            if s.len() >= 2 {
                lemma_scan_value_len(s.skip(2));
            }
        } else if s[0] != '"' {
            lemma_scan_value_len(s.drop_first());
        }
    }
}

/// The labels written in `s` (the text between the braces), or the first error.
pub open spec fn parse_labels_spec(s: Seq<char>) -> Result<LabelsView, Seq<char>>
    decreases s.len(),
{
    let t = skip_delims(s);
    if t.len() == 0 {
        Ok(seq![])
    } else {
        let e = index_of(t, '=');
        if e >= t.len() {
            Err("invalid label entry"@)
        } else if e + 1 >= t.len() || t[e + 1] != '"' {
            Err("label value must be quoted"@)
        } else {
            match scan_value(t.skip(e + 2)) {
                None => Err("unfinished escape sequence"@),
                Some((v, rest)) => {
                    proof {
                        lemma_skip_delims_len(s);
                        lemma_index_of_bounds(t, '=');
                        lemma_scan_value_len(t.skip(e + 2));
                    }
                    match parse_labels_spec(rest) {
                        Ok(l) => Ok(seq![(trim(t.take(e)), v)] + l),
                        Err(x) => Err(x),
                    }
                }
            }
        }
    }
}

/// `l` in front of the labels of `r`, when `r` holds labels.
pub open spec fn prepend_labels(l: LabelsView, r: Result<LabelsView, Seq<char>>) -> Result<
    LabelsView,
    Seq<char>,
> {
    match r {
        Ok(x) => Ok(l + x),
        Err(e) => Err(e),
    }
}

/// A parse result as texts.
pub open spec fn labels_result_view(r: Result<Vec<(String, String)>, String>) -> Result<
    LabelsView,
    Seq<char>,
> {
    match r {
        Ok(l) => Ok(l.deep_view()),
        Err(e) => Err(e@),
    }
}

/// Moves `cursor` past the separators that start at it.
pub fn skip_delimiters(chars: &Vec<char>, cursor: &mut usize)
    ensures
        *old(cursor) >= chars.len() ==> *final(cursor) == *old(cursor),
        *old(cursor) < chars.len() ==> *old(cursor) <= *final(cursor) <= chars.len() && chars@.skip(
            *final(cursor) as int,
        ) == skip_delims(chars@.skip(*old(cursor) as int)),
{
    let ghost start = *cursor;
    while *cursor < chars.len() && (chars[*cursor] == ',' || is_whitespace(chars[*cursor]))
        invariant
            start <= *cursor,
            start < chars.len() ==> *cursor <= chars.len(),
            start >= chars.len() ==> *cursor == start,
            forall|k: int| start <= k < *cursor ==> is_delim(#[trigger] chars@[k]),
        decreases chars.len() - *cursor,
    {
        *cursor += 1;
    }
    proof {
        if start < chars.len() {
            let s = chars@.skip(start as int);
            let j = *cursor - start;
            assert forall|k: int| 0 <= k < j implies is_delim(#[trigger] s[k]) by {
                assert(s[k] == chars@[start + k]);
            }
            if j < s.len() {
                assert(s[j] == chars@[*cursor as int]);
            }
            lemma_skip_delims(s, j);
            assert(s.skip(j) =~= chars@.skip(*cursor as int));
        }
    }
}

fn find_char(v: &Vec<char>, from: usize, c: char) -> (r: usize)
    requires
        from <= v.len(),
    ensures
        from <= r <= v.len(),
        index_of(v@.skip(from as int), c) == r - from,
{
    let mut i = from;
    while i < v.len() && v[i] != c
        invariant
            from <= i <= v.len(),
            forall|k: int| from <= k < i ==> #[trigger] v@[k] != c,
        decreases v.len() - i,
    {
        i += 1;
    }
    proof {
        let s = v@.skip(from as int);
        assert forall|k: int| 0 <= k < i - from implies #[trigger] s[k] != c by {
            assert(s[k] == v@[from + k]);
        }
        if i < v.len() {
            assert(s[i - from] == v@[i as int]);
        }
        lemma_index_of(s, c, i - from);
    }
    i
}

/// Reads a quoted value starting at `from` (after the opening quote):
/// the value and the index just past the closing quote.
fn scan_value_at(v: &Vec<char>, from: usize) -> (r: Option<(String, usize)>)
    requires
        from <= v.len(),
    ensures
        match r {
            Some((val, next)) => from <= next <= v.len() && scan_value(v@.skip(from as int))
                == Some((val@, v@.skip(next as int))),
            None => scan_value(v@.skip(from as int)) is None,
        },
{
    let mut value = String::new();
    let mut cur = from;
    loop
        invariant
            from <= cur <= v.len(),
            scan_value(v@.skip(from as int)) == match scan_value(v@.skip(cur as int)) {
                Some((w, rest)) => Some((value@ + w, rest)),
                None => None,
            },
        decreases v.len() - cur,
    {
        let ghost s = v@.skip(cur as int);
        if cur >= v.len() {
            assert(value@ + seq![] =~= value@);
            return Some((value, cur));
        }
        let c = v[cur];
        assert(s[0] == c);
        if c == '\\' {
            if cur + 1 >= v.len() {
                return None;
            }
            let e = v[cur + 1];
            let u = if e == 'n' {
                '\n'
            } else {
                e
            };
            assert(s[1] == e);
            assert(s.skip(2) =~= v@.skip(cur + 2));
            proof {
                match scan_value(v@.skip(cur + 2)) {
                    Some((w, rest)) => {
                        assert(value@.push(u) + w =~= value@ + (seq![u] + w));
                    },
                    None => {},
                }
            }
            push_char(&mut value, u);
            cur += 2;
        } else if c == '"' {
            assert(s.drop_first() =~= v@.skip(cur + 1));
            assert(value@ + seq![] =~= value@);
            return Some((value, cur + 1));
        } else {
            assert(s.drop_first() =~= v@.skip(cur + 1));
            proof {
                match scan_value(v@.skip(cur + 1)) {
                    Some((w, rest)) => {
                        assert(value@.push(c) + w =~= value@ + (seq![c] + w));
                    },
                    None => {},
                }
            }
            push_char(&mut value, c);
            cur += 1;
        }
    }
}

proof fn lemma_prepend_assoc(a: LabelsView, b: LabelsView, r: Result<LabelsView, Seq<char>>)
    ensures
        prepend_labels(a, prepend_labels(b, r)) == prepend_labels(a + b, r),
{
    match r {
        Ok(x) => {
            assert(a + (b + x) =~= (a + b) + x);
        },
        Err(_) => {},
    }
}

/// Parses the text between the braces of a sample line into labels.
pub fn parse_labels(input: &str) -> (r: Result<Vec<(String, String)>, String>)
    ensures
        labels_result_view(r) == parse_labels_spec(input@),
{
    let chars = chars_of(input);
    let mut labels: Vec<(String, String)> = Vec::new();
    let mut cursor: usize = 0;
    assert(chars@.skip(0) =~= chars@);
    assert(labels.deep_view() =~= Seq::<(Seq<char>, Seq<char>)>::empty());
    assert(seq![] + parse_labels_spec(input@)->Ok_0 =~= parse_labels_spec(input@)->Ok_0);
    loop
        invariant
            chars@ == input@,
            cursor <= chars.len(),
            parse_labels_spec(input@) == prepend_labels(
                labels.deep_view(),
                parse_labels_spec(chars@.skip(cursor as int)),
            ),
        decreases chars.len() - cursor,
    {
        let ghost s = chars@.skip(cursor as int);
        let ghost old_labels = labels.deep_view();
        let mut k = cursor;
        skip_delimiters(&chars, &mut k);
        let ghost t = chars@.skip(k as int);
        proof {
            if cursor >= chars.len() {
                assert(s.len() == 0);
                assert(t =~= s);
            }
            assert(skip_delims(s) == t);
        }
        if k >= chars.len() {
            assert(t.len() == 0);
            assert(old_labels + seq![] =~= old_labels);
            return Ok(labels);
        }
        let e = find_char(&chars, k, '=');
        let ghost ei = e - k;
        if e >= chars.len() {
            return Err(String::from_str("invalid label entry"));
        }
        if e + 1 >= chars.len() || chars[e + 1] != '"' {
            proof {
                if e + 1 < chars.len() {
                    assert(t[ei + 1] == chars@[e + 1]);
                }
            }
            return Err(String::from_str("label value must be quoted"));
        }
        assert(t[ei + 1] == chars@[e + 1]);
        assert(t.skip(ei + 2) =~= chars@.skip(e + 2));
        let (kb, ke) = trim_bounds(&chars, k, e);
        let key = string_from_range(&chars, kb, ke);
        assert(t.take(ei) =~= chars@.subrange(k as int, e as int));
        match scan_value_at(&chars, e + 2) {
            None => {
                return Err(String::from_str("unfinished escape sequence"));
            },
            Some((value, next)) => {
                let ghost pair = (key@, value@);
                labels.push((key, value));
                proof {
                    assert(labels.deep_view() =~= old_labels.push(pair));
                    assert(old_labels.push(pair) =~= old_labels + seq![pair]);
                    lemma_prepend_assoc(
                        old_labels,
                        seq![pair],
                        parse_labels_spec(chars@.skip(next as int)),
                    );
                }
                cursor = next;
            },
        }
    }
}

/// The name and labels of a sample line's head (`name` or `name{labels}`).
pub open spec fn parse_head_spec(h: Seq<char>) -> Result<(Seq<char>, LabelsView), Seq<char>> {
    let j = index_of(h, '{');
    if j < h.len() {
        let rest = h.skip(j + 1);
        if rest.len() > 0 && rest.last() == '}' {
            match parse_labels_spec(rest.drop_last()) {
                Ok(l) => Ok((h.take(j), l)),
                Err(e) => Err(e),
            }
        } else {
            Err("missing closing label brace"@)
        }
    } else {
        Ok((h, seq![]))
    }
}

/// A head parse result as texts.
pub open spec fn head_result_view(r: Result<(String, Vec<(String, String)>), String>) -> Result<
    (Seq<char>, LabelsView),
    Seq<char>,
> {
    match r {
        Ok((n, l)) => Ok((n@, l.deep_view())),
        Err(e) => Err(e@),
    }
}

/// Splits a sample line's head into its name and labels.
pub fn parse_head(head: &str) -> (r: Result<(String, Vec<(String, String)>), String>)
    ensures
        head_result_view(r) == parse_head_spec(head@),
{
    let v = chars_of(head);
    let j = find_char(&v, 0, '{');
    assert(v@.skip(0) =~= v@);
    let n = v.len();
    if j < n {
        let ghost rest = v@.skip(j + 1);
        if n > j + 1 && v[n - 1] == '}' {
            assert(rest.last() == v@[n - 1]);
            assert(rest.drop_last() =~= v@.subrange(j + 1, n - 1));
            let label_str = string_from_range(&v, j + 1, n - 1);
            match parse_labels(label_str.as_str()) {
                Ok(labels) => {
                    let name = string_from_range(&v, 0, j);
                    assert(v@.take(j as int) =~= v@.subrange(0, j as int));
                    let r = Ok((name, labels));
                    assert(head_result_view(r) == parse_head_spec(head@));
                    r
                },
                Err(e) => {
                    let r = Err(e);
                    assert(head_result_view(r) == parse_head_spec(head@));
                    r
                },
            }
        } else {
            proof {
                if rest.len() > 0 {
                    assert(rest.last() == v@[n - 1]);
                }
            }
            Err(String::from_str("missing closing label brace"))
        }
    } else {
        let name = string_from_range(&v, 0, n);
        assert(v@.subrange(0, n as int) =~= head@);
        let labels: Vec<(String, String)> = Vec::new();
        assert(labels.deep_view() =~= Seq::<(Seq<char>, Seq<char>)>::empty());
        Ok((name, labels))
    }
}

/// The index of the last whitespace character of `s`, or -1.
pub open spec fn last_ws(s: Seq<char>) -> int
    decreases s.len(),
{
    if s.len() == 0 {
        -1
    } else if is_ws(s.last()) {
        s.len() - 1
    } else {
        last_ws(s.drop_last())
    }
}

proof fn lemma_last_ws(s: Seq<char>, r: int)
    requires
        -1 <= r < s.len(),
        forall|k: int| r < k < s.len() ==> !is_ws(#[trigger] s[k]),
        r >= 0 ==> is_ws(s[r]),
    ensures
        last_ws(s) == r,
    decreases s.len(),
{
    if s.len() > 0 && r < s.len() - 1 {
        assert(!is_ws(s[s.len() - 1]));
        assert forall|k: int| r < k < s.drop_last().len() implies !is_ws(#[trigger] s.drop_last()[k]) by {
            assert(s.drop_last()[k] == s[k]);
        }
        if r >= 0 {
            assert(s.drop_last()[r] == s[r]);
        }
        lemma_last_ws(s.drop_last(), r);
    }
}

/// One sample line, already trimmed, that is neither empty nor a comment;
/// `n` is its line number, which errors carry.
pub open spec fn parse_line_spec(line: Seq<char>, n: nat) -> Result<SampleView, Seq<char>> {
    let i = last_ws(line);
    if i < 0 {
        Err("missing metric name at line "@ + decimal(n))
    } else {
        let value = line.skip(i + 1);
        let head = trim(line.take(i));
        if !is_float_literal(value) {
            Err("invalid value at line "@ + decimal(n))
        } else {
            match parse_head_spec(head) {
                Ok((name, labels)) => Ok((name, labels, value)),
                Err(e) => Err(e + " at line "@ + decimal(n)),
            }
        }
    }
}

/// A line without the carriage return of a `\r\n` ending.
pub open spec fn strip_cr(l: Seq<char>) -> Seq<char> {
    if l.len() > 0 && l.last() == '\r' {
        l.drop_last()
    } else {
        l
    }
}

/// The lines of a text as `str::lines` gives them: split at `\n`, a `\r`
/// before the `\n` dropped, no empty line after a final line ending.
pub open spec fn split_lines(s: Seq<char>) -> Seq<Seq<char>>
    decreases s.len(),
{
    if s.len() == 0 {
        seq![]
    } else {
        let i = index_of(s, '\n');
        if i < s.len() {
            proof {
                lemma_index_of_bounds(s, '\n');
            }
            seq![strip_cr(s.take(i))] + split_lines(s.skip(i + 1))
        } else {
            seq![s]
        }
    }
}

/// The samples of a run of lines whose first has number `n`, or the first error.
pub open spec fn parse_lines(ls: Seq<Seq<char>>, n: nat) -> Result<Seq<SampleView>, Seq<char>>
    decreases ls.len(),
{
    if ls.len() == 0 {
        Ok(seq![])
    } else {
        let line = trim(ls[0]);
        let rest = parse_lines(ls.drop_first(), n + 1);
        if line.len() == 0 || line[0] == '#' {
            rest
        } else {
            match parse_line_spec(line, n) {
                Err(e) => Err(e),
                Ok(m) => match rest {
                    Ok(r) => Ok(seq![m] + r),
                    Err(e) => Err(e),
                },
            }
        }
    }
}

/// The samples of a whole exposition text, or the first error.
pub open spec fn parse_metrics_spec(input: Seq<char>) -> Result<Seq<SampleView>, Seq<char>> {
    parse_lines(split_lines(input), 1)
}

/// Samples as texts.
pub open spec fn samples_view(v: Seq<MetricSample>) -> Seq<SampleView> {
    v.map_values(|m: MetricSample| m@)
}

/// A parse result as texts.
pub open spec fn samples_result_view(r: Result<Vec<MetricSample>, String>) -> Result<
    Seq<SampleView>,
    Seq<char>,
> {
    match r {
        Ok(v) => Ok(samples_view(v@)),
        Err(e) => Err(e@),
    }
}

/// `l` in front of the samples of `r`, when `r` holds samples.
pub open spec fn prepend_samples(l: Seq<SampleView>, r: Result<Seq<SampleView>, Seq<char>>) -> Result<
    Seq<SampleView>,
    Seq<char>,
> {
    match r {
        Ok(x) => Ok(l + x),
        Err(e) => Err(e),
    }
}

fn line_error(msg: &str, n: usize) -> (e: String)
    ensures
        e@ == msg@ + decimal(n as nat),
{
    let mut e = String::from_str(msg);
    push_decimal(&mut e, n as u64);
    e
}

fn parse_line_at(v: &Vec<char>, a: usize, b: usize, n: usize) -> (r: Result<MetricSample, String>)
    requires
        a < b <= v.len(),
    ensures
        match r {
            Ok(m) => parse_line_spec(v@.subrange(a as int, b as int), n as nat) == Ok::<
                SampleView,
                Seq<char>,
            >(m@),
            Err(e) => parse_line_spec(v@.subrange(a as int, b as int), n as nat) == Err::<
                SampleView,
                Seq<char>,
            >(e@),
        },
{
    let ghost line = v@.subrange(a as int, b as int);
    let mut i = b;
    while i > a && !is_whitespace(v[i - 1])
        invariant
            a <= i <= b <= v.len(),
            forall|k: int| i <= k < b ==> !is_ws(#[trigger] v@[k]),
        decreases i - a,
    {
        i -= 1;
    }
    proof {
        let r = i - a - 1;
        assert forall|k: int| r < k < line.len() implies !is_ws(#[trigger] line[k]) by {
            assert(line[k] == v@[a + k]);
        }
        if i > a {
            assert(line[r] == v@[i - 1]);
        }
        lemma_last_ws(line, r);
    }
    if i == a {
        return Err(line_error("missing metric name at line ", n));
    }
    let w = i - 1;
    assert(line.skip(w - a + 1) =~= v@.subrange(w + 1, b as int));
    assert(line.take(w - a) =~= v@.subrange(a as int, w as int));
    if !crate::numbers::float_literal_in(v, w + 1, b) {
        return Err(line_error("invalid value at line ", n));
    }
    let value = string_from_range(v, w + 1, b);
    let (ha, hb) = trim_bounds(v, a, w);
    let head = string_from_range(v, ha, hb);
    match parse_head(head.as_str()) {
        Ok((name, labels)) => Ok(MetricSample { name, labels, value }),
        Err(e) => {
            let mut e = e;
            e.append(" at line ");
            push_decimal(&mut e, n as u64);
            Err(e)
        },
    }
}

proof fn lemma_prepend_samples_assoc(a: Seq<SampleView>, b: Seq<SampleView>, r: Result<Seq<SampleView>, Seq<char>>)
    ensures
        prepend_samples(a, prepend_samples(b, r)) == prepend_samples(a + b, r),
{
    match r {
        Ok(x) => {
            assert(a + (b + x) =~= (a + b) + x);
        },
        Err(_) => {},
    }
}

/// Parses an exposition text into its samples, or reports the first line
/// that does not parse.
pub fn parse_metrics(input: &str) -> (r: Result<Vec<MetricSample>, String>)
    requires
        input@.len() < usize::MAX,
    ensures
        samples_result_view(r) == parse_metrics_spec(input@),
{
    let v = chars_of(input);
    let mut samples: Vec<MetricSample> = Vec::new();
    let mut pos: usize = 0;
    let mut lineno: usize = 1;
    assert(v@.skip(0) =~= v@);
    assert(samples_view(samples@) =~= Seq::<SampleView>::empty());
    proof {
        match parse_metrics_spec(input@) {
            Ok(x) => {
                assert(seq![] + x =~= x);
            },
            Err(_) => {},
        }
    }
    loop
        invariant
            v@ == input@,
            v.len() < usize::MAX,
            pos <= v.len(),
            1 <= lineno <= pos + 1,
            parse_metrics_spec(input@) == prepend_samples(
                samples_view(samples@),
                parse_lines(split_lines(v@.skip(pos as int)), lineno as nat),
            ),
        decreases v.len() - pos,
    {
        let ghost s = v@.skip(pos as int);
        let ghost before = samples_view(samples@);
        if pos >= v.len() {
            assert(s.len() == 0);
            assert(before + seq![] =~= before);
            return Ok(samples);
        }
        let e = find_char(&v, pos, '\n');
        let ghost ei = e - pos;
        let end = if e < v.len() && e > pos && v[e - 1] == '\r' {
            e - 1
        } else {
            e
        };
        proof {
            lemma_index_of_bounds(s, '\n');
            if e < v.len() {
                assert(s.take(ei) =~= v@.subrange(pos as int, e as int));
                assert(s.skip(ei + 1) =~= v@.skip(e + 1));
                if e > pos {
                    assert(s.take(ei).last() == v@[e - 1]);
                }
                assert(strip_cr(s.take(ei)) =~= v@.subrange(pos as int, end as int));
                assert(split_lines(s) == seq![v@.subrange(pos as int, end as int)] + split_lines(
                    v@.skip(e + 1),
                ));
            } else {
                assert(s =~= v@.subrange(pos as int, end as int));
                assert(split_lines(s) == seq![v@.subrange(pos as int, end as int)]);
            }
        }
        let ghost ls = split_lines(s);
        assert(ls[0] == v@.subrange(pos as int, end as int));
        assert(ls.drop_first() =~= if e < v.len() { split_lines(v@.skip(e + 1)) } else { seq![] });
        let (a, b) = trim_bounds(&v, pos, end);
        let ghost line = v@.subrange(a as int, b as int);
        let ghost rest = parse_lines(ls.drop_first(), (lineno + 1) as nat);
        if a == b || v[a] == '#' {
            proof {
                if a < b {
                    assert(line[0] == v@[a as int]);
                }
            }
        } else {
            assert(line[0] == v@[a as int]);
            match parse_line_at(&v, a, b, lineno) {
                Err(err) => {
                    return Err(err);
                },
                Ok(m) => {
                    let ghost mv = m@;
                    samples.push(m);
                    proof {
                        assert(samples_view(samples@) =~= before + seq![mv]);
                        lemma_prepend_samples_assoc(before, seq![mv], rest);
                    }
                },
            }
        }
        if e >= v.len() {
            assert(ls.drop_first().len() == 0);
            assert(samples_view(samples@) + seq![] =~= samples_view(samples@));
            return Ok(samples);
        }
        pos = e + 1;
        lineno = lineno + 1;
    }
}

} // verus!
