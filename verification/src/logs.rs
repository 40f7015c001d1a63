//! The log screen: the host and log lists, the tail of the chosen host's log
//! with its text filter and scroll position, and what the screen remembers of
//! every host's log it has shown.

use vstd::prelude::*;
use crate::app::{
    App, LogFocus, Request, ScreenMode, StoredStream, app_wf, focus_label, keep_last, loaded_status, log_shown,
    matches_log_filter_with, moved, notice_view, prefixed, selected_target_view, LOG_ENTRY_LIMIT,
};
use crate::wrap::advance_wrapped_index;
use crate::loki::{LogEntry, EntryView, copy_entries, copy_entry, entries_view};
use crate::text::{chars_of, lowercase, needle_text, pop_char, push_char, text_eq, to_lowercase, usize_text};

verus! {

/// A remembered log as its key: the host and the log name.
pub type StreamKey = (Seq<char>, Seq<char>);

/// A remembered log as its entries, the time of its last entry and its scroll
/// position.
pub type StreamView = (Seq<EntryView>, Option<i64>, usize);

/// The key of a remembered log.
pub open spec fn stream_key(s: StoredStream) -> StreamKey {
    (s.host@, s.log_name@)
}

/// What a remembered log holds.
pub open spec fn stream_view(s: StoredStream) -> StreamView {
    (entries_view(s.entries@), s.last_timestamp_ns, s.tail_offset)
}

/// The remembered logs by key; a later record of a key wins.
pub open spec fn streams_map(ss: Seq<StoredStream>) -> Map<StreamKey, StreamView>
    decreases ss.len(),
{
    if ss.len() == 0 {
        Map::empty()
    } else {
        streams_map(ss.drop_last()).insert(stream_key(ss.last()), stream_view(ss.last()))
    }
}

/// The key of the log on screen: the chosen host and log, when both lists
/// have a choice.
pub open spec fn current_stream_key(a: App) -> Option<StreamKey> {
    if a.log_host_selected < a.log_hosts.len() && a.log_name_selected < a.log_names.len() {
        Some((a.log_hosts@[a.log_host_selected as int]@, a.log_names@[a.log_name_selected as int]@))
    } else {
        None
    }
}

/// What the log on screen holds.
pub open spec fn current_stream_view(a: App) -> StreamView {
    (entries_view(a.log_entries@), a.last_log_timestamp_ns, a.log_tail_offset)
}

/// The lowercase text of the log filter.
pub open spec fn log_needle(a: App) -> Seq<char> {
    needle_text(a.log_filter_query@)
}

/// The entries that the log filter keeps, oldest first.
pub open spec fn visible_entries(a: App) -> Seq<EntryView> {
    entries_view(a.log_entries@).filter(log_shown(log_needle(a)))
}

/// The farthest a tail of `es` can be scrolled back under the filter whose
/// lowercase text is `needle`: one less than the entries shown, and no less
/// than zero.
pub open spec fn max_tail_of(es: Seq<EntryView>, needle: Seq<char>) -> nat {
    let n = es.filter(log_shown(needle)).len();
    if n > 0 {
        (n - 1) as nat
    } else {
        0
    }
}

/// The farthest the tail on screen can be scrolled back.
pub open spec fn max_tail(a: App) -> nat {
    max_tail_of(entries_view(a.log_entries@), log_needle(a))
}

/// The remembered logs once the log on screen is remembered with scroll
/// position `offset`.
pub open spec fn remember(a: App, offset: usize) -> Map<StreamKey, StreamView> {
    match current_stream_key(a) {
        Some(k) => streams_map(a.log_streams@).insert(k, (entries_view(a.log_entries@), a.last_log_timestamp_ns, offset)),
        None => streams_map(a.log_streams@),
    }
}

/// The status line of the log screen.
pub open spec fn log_status(a: App) -> Seq<char> {
    let host = if a.log_host_selected < a.log_hosts.len() {
        a.log_hosts@[a.log_host_selected as int]@
    } else {
        "-"@
    };
    let name = if a.log_name_selected < a.log_names.len() {
        a.log_names@[a.log_name_selected as int]@
    } else {
        "-"@
    };
    "streaming logs for "@ + host + " / "@ + name + " ("@ + crate::text::decimal(visible_entries(a).len())
        + " shown)"@
}

/// The effect of asking for the new entries of the log on screen: without
/// Loki or without a chosen host and log, the status says so.
pub open spec fn log_polled(old: App, new: App) -> bool {
    if old.loki is None {
        &&& new.status@ == "loki is not configured"@
        &&& new == (App { status: new.status, ..old })
    } else {
        match current_stream_key(old) {
            None => {
                &&& new.status@ == "no loki host/log labels available"@
                &&& new == (App { status: new.status, ..old })
            },
            Some(k) => {
                &&& new.pending matches Some(Request::PollLogs { host, log_name, since_ns }) && host@ == k.0
                    && log_name@ == k.1 && since_ns == old.last_log_timestamp_ns
                &&& new == (App { pending: new.pending, ..old })
            },
        }
    }
}

/// The effect of switching to the chosen host and log: its remembered log is
/// shown and its new entries are asked for.
pub open spec fn stream_shown(old: App, new: App) -> bool {
    let mid = App { status: old.status, pending: old.pending, ..new };
    &&& restored(old, mid)
    &&& log_polled(mid, new)
}

/// The effect of taking in new entries `es` of the log on screen: the last
/// `LOG_ENTRY_LIMIT` entries stay, a tail scrolled back keeps its place, and
/// the log is remembered.
pub open spec fn appended(old: App, new: App, es: Seq<EntryView>) -> bool {
    let all = keep_last(entries_view(old.log_entries@) + es, LOG_ENTRY_LIMIT as nat);
    let ts = if es.len() > 0 {
        Some(es.last().0)
    } else {
        old.last_log_timestamp_ns
    };
    let added = if old.log_tail_offset == 0 {
        0
    } else {
        es.filter(log_shown(log_needle(old))).len() as int
    };
    let offset = at_most(saturating_sum(old.log_tail_offset as int, added), max_tail_of(all, log_needle(old)) as int);
    &&& entries_view(new.log_entries@) == all
    &&& new.last_log_timestamp_ns == ts
    &&& new.log_tail_offset == offset
    &&& streams_map(new.log_streams@) == match current_stream_key(old) {
        Some(k) => streams_map(old.log_streams@).insert(k, (all, ts, offset as usize)),
        None => streams_map(old.log_streams@),
    }
    &&& new.status@ == log_status(new)
    &&& new == (App {
        log_entries: new.log_entries,
        last_log_timestamp_ns: new.last_log_timestamp_ns,
        log_tail_offset: new.log_tail_offset,
        log_streams: new.log_streams,
        status: new.status,
        ..old
    })
}

/// The effect of scrolling the tail to `offset`: the log is remembered there.
pub open spec fn scrolled(old: App, new: App, offset: usize) -> bool {
    &&& new.log_tail_offset == offset
    &&& streams_map(new.log_streams@) == remember(old, offset)
    &&& new == (App { log_tail_offset: offset, log_streams: new.log_streams, ..old })
}

/// The effect of editing the log filter text to `q`: the scroll position is
/// held to what the new filter shows and the log is remembered.
pub open spec fn log_filter_edited(old: App, new: App, q: Seq<char>) -> bool {
    let offset = at_most(old.log_tail_offset as int, max_tail_of(entries_view(old.log_entries@), needle_text(q)) as int);
    &&& new.log_filter_query@ == q
    &&& new.log_tail_offset == offset
    &&& streams_map(new.log_streams@) == remember(old, offset as usize)
    &&& new == (App {
        log_filter_query: new.log_filter_query,
        log_tail_offset: new.log_tail_offset,
        log_streams: new.log_streams,
        status: new.status,
        ..old
    })
}

/// The pane after `f` in the cycle hosts, logs, tail.
pub open spec fn next_focus(f: LogFocus) -> LogFocus {
    match f {
        LogFocus::Hosts => LogFocus::Logs,
        LogFocus::Logs => LogFocus::Tail,
        LogFocus::Tail => LogFocus::Hosts,
    }
}

/// The pane before `f` in the cycle hosts, logs, tail.
pub open spec fn previous_focus(f: LogFocus) -> LogFocus {
    match f {
        LogFocus::Hosts => LogFocus::Tail,
        LogFocus::Logs => LogFocus::Hosts,
        LogFocus::Tail => LogFocus::Logs,
    }
}

/// The effect of moving the choice of the focused list by `step`: the host
/// or log list moves, wrapping, and its log is shown; the tail pane has no
/// choice to move.
pub open spec fn option_advanced(old: App, new: App, step: int) -> bool {
    match old.log_focus {
        LogFocus::Hosts => if old.log_hosts.len() > 0 {
            stream_shown(
                App { log_host_selected: moved(old.log_host_selected, old.log_hosts.len(), step) as usize, ..old },
                new,
            )
        } else {
            new == old
        },
        LogFocus::Logs => if old.log_names.len() > 0 {
            stream_shown(
                App { log_name_selected: moved(old.log_name_selected, old.log_names.len(), step) as usize, ..old },
                new,
            )
        } else {
            new == old
        },
        LogFocus::Tail => new == old,
    }
}

/// `x` held to at most `hi`.
pub open spec fn at_most(x: int, hi: int) -> int {
    if x < hi {
        x
    } else {
        hi
    }
}

/// A sum held to the range of `usize`.
pub open spec fn saturating_sum(a: int, b: int) -> int {
    if a + b > usize::MAX {
        usize::MAX as int
    } else {
        a + b
    }
}

/// The effect of remembering the log on screen under its key.
pub open spec fn stored(old: App, new: App) -> bool {
    match current_stream_key(old) {
        None => new == old,
        Some(k) => {
            &&& streams_map(new.log_streams@) == streams_map(old.log_streams@).insert(k, current_stream_view(old))
            &&& new == (App { log_streams: new.log_streams, ..old })
        },
    }
}

/// The effect of showing the remembered log of the chosen host and log: its
/// entries, last time and scroll position (held to what the filter shows),
/// or an empty log when nothing is remembered.
pub open spec fn restored(old: App, new: App) -> bool {
    &&& match current_stream_key(old) {
        Some(k) if streams_map(old.log_streams@).contains_key(k) => {
            let v = streams_map(old.log_streams@)[k];
            &&& entries_view(new.log_entries@) == v.0
            &&& new.last_log_timestamp_ns == v.1
            &&& new.log_tail_offset == at_most(v.2 as int, max_tail(new) as int)
        },
        _ => {
            &&& new.log_entries@.len() == 0
            &&& new.last_log_timestamp_ns is None
            &&& new.log_tail_offset == 0
        },
    }
    &&& new == (App {
        log_entries: new.log_entries,
        last_log_timestamp_ns: new.last_log_timestamp_ns,
        log_tail_offset: new.log_tail_offset,
        ..old
    })
}

/// Taking the records of one key out of the remembered logs forgets that key.
pub proof fn lemma_streams_map_without(ss: Seq<StoredStream>, k: StreamKey)
    ensures
        streams_map(ss.filter(|s: StoredStream| stream_key(s) != k)) == streams_map(ss).remove(k),
    decreases ss.len(),
{
    let p = |s: StoredStream| stream_key(s) != k;
    if ss.len() == 0 {
        reveal(Seq::filter);
        assert(streams_map(ss).remove(k) =~= Map::empty());
    } else {
        let init = ss.drop_last();
        lemma_streams_map_without(init, k);
        assert(ss =~= init.push(ss.last()));
        init.lemma_filter_push(ss.last(), p);
        if p(ss.last()) {
            assert(init.filter(p).push(ss.last()).drop_last() =~= init.filter(p));
            assert(streams_map(ss).remove(k) =~= streams_map(init).remove(k).insert(
                stream_key(ss.last()),
                stream_view(ss.last()),
            ));
        } else {
            assert(streams_map(ss).remove(k) =~= streams_map(init).remove(k));
        }
    }
}

/// The characters of a string, lowercased.
fn lowered(s: &String) -> (v: Vec<char>)
    ensures
        v@ == needle_text(s@),
{
    let low = to_lowercase(s.as_str());
    let v = chars_of(low.as_str());
    assert(v@ =~= needle_text(s@));
    v
}

impl App {
    /// The chosen host.
    pub fn selected_log_host(&self) -> (r: Option<&str>)
        ensures
            match r {
                Some(h) => self.log_host_selected < self.log_hosts.len() && h@
                    == self.log_hosts@[self.log_host_selected as int]@,
                None => self.log_host_selected >= self.log_hosts.len(),
            },
    {
        if self.log_host_selected < self.log_hosts.len() {
            Some(self.log_hosts[self.log_host_selected].as_str())
        } else {
            None
        }
    }

    /// The chosen log.
    pub fn selected_log_name(&self) -> (r: Option<&str>)
        ensures
            match r {
                Some(n) => self.log_name_selected < self.log_names.len() && n@
                    == self.log_names@[self.log_name_selected as int]@,
                None => self.log_name_selected >= self.log_names.len(),
            },
    {
        if self.log_name_selected < self.log_names.len() {
            Some(self.log_names[self.log_name_selected].as_str())
        } else {
            None
        }
    }

    /// The entries that the log filter keeps, oldest first.
    pub fn visible_log_entries(&self) -> (r: Vec<LogEntry>)
        ensures
            entries_view(r@) == visible_entries(*self),
    {
        let needle = lowered(&self.log_filter_query);
        let ghost es = entries_view(self.log_entries@);
        let mut out: Vec<LogEntry> = Vec::new();
        let mut i: usize = 0;
        while i < self.log_entries.len()
            invariant
                0 <= i <= self.log_entries.len(),
                es == entries_view(self.log_entries@),
                needle@ == log_needle(*self),
                entries_view(out@) == es.take(i as int).filter(log_shown(needle@)),
            decreases self.log_entries.len() - i,
        {
            let e = &self.log_entries[i];
            proof {
                es.take(i as int).lemma_filter_push(e@, log_shown(needle@));
            }
            assert(es.take(i + 1) =~= es.take(i as int).push(e@));
            if matches_log_filter_with(&needle, e) {
                let ghost before = out@;
                out.push(copy_entry(e));
                assert(entries_view(out@) =~= entries_view(before).push(e@));
            }
            i += 1;
        }
        assert(es.take(es.len() as int) =~= es);
        out
    }

    /// How many entries the log filter keeps.
    fn visible_log_count(&self) -> (n: usize)
        ensures
            n == visible_entries(*self).len(),
    {
        let v = self.visible_log_entries();
        v.len()
    }

    /// The farthest the tail can be scrolled back.
    fn max_log_tail_offset(&self) -> (n: usize)
        ensures
            n == max_tail(*self),
    {
        let n = self.visible_log_count();
        if n > 0 {
            n - 1
        } else {
            0
        }
    }

    /// Holds the scroll position to what the filter shows.
    fn clamp_log_tail_offset(&mut self)
        ensures
            final(self).log_tail_offset == at_most(old(self).log_tail_offset as int, max_tail(*old(self)) as int),
            *final(self) == (App { log_tail_offset: final(self).log_tail_offset, ..*old(self) }),
    {
        let m = self.max_log_tail_offset();
        if self.log_tail_offset > m {
            self.log_tail_offset = m;
        }
    }

    /// Shows an empty log.
    fn clear_current_log_stream(&mut self)
        ensures
            final(self).log_entries@.len() == 0,
            *final(self) == (App {
                log_entries: final(self).log_entries,
                last_log_timestamp_ns: None,
                log_tail_offset: 0,
                ..*old(self)
            }),
    {
        self.last_log_timestamp_ns = None;
        self.log_entries = Vec::new();
        self.log_tail_offset = 0;
    }

    /// The chosen host and log, when both lists have a choice.
    fn current_log_stream_key(&self) -> (k: Option<(String, String)>)
        ensures
            match k {
                Some(k) => current_stream_key(*self) == Some((k.0@, k.1@)),
                None => current_stream_key(*self) is None,
            },
    {
        if self.log_host_selected < self.log_hosts.len() && self.log_name_selected < self.log_names.len() {
            Some((self.log_hosts[self.log_host_selected].clone(), self.log_names[self.log_name_selected].clone()))
        } else {
            None
        }
    }

    /// Shows the remembered log of the chosen host and log, or an empty log.
    fn restore_current_log_stream(&mut self)
        ensures
            restored(*old(self), *final(self)),
    {
        let key = self.current_log_stream_key();
        match key {
            None => {
                self.clear_current_log_stream();
            },
            Some((host, name)) => {
                let ghost k = (host@, name@);
                let ghost ss = self.log_streams@;
                let mut found: Option<usize> = None;
                let mut i: usize = 0;
                while i < self.log_streams.len()
                    invariant
                        0 <= i <= self.log_streams.len(),
                        ss == self.log_streams@,
                        k == (host@, name@),
                        match found {
                            Some(j) => j < i && streams_map(ss.take(i as int)).contains_key(k)
                                && streams_map(ss.take(i as int))[k] == stream_view(ss[j as int]),
                            None => !streams_map(ss.take(i as int)).contains_key(k),
                        },
                    decreases self.log_streams.len() - i,
                {
                    let s = &self.log_streams[i];
                    assert(ss.take(i + 1).drop_last() =~= ss.take(i as int));
                    assert(ss.take(i + 1).last() == ss[i as int]);
                    if text_eq(s.host.as_str(), host.as_str()) && text_eq(s.log_name.as_str(), name.as_str()) {
                        found = Some(i);
                    }
                    i += 1;
                }
                assert(ss.take(ss.len() as int) =~= ss);
                match found {
                    Some(j) => {
                        let entries = copy_entries(&self.log_streams[j].entries);
                        self.last_log_timestamp_ns = self.log_streams[j].last_timestamp_ns;
                        self.log_tail_offset = self.log_streams[j].tail_offset;
                        self.log_entries = entries;
                        self.clamp_log_tail_offset();
                    },
                    None => {
                        self.clear_current_log_stream();
                    },
                }
            },
        }
    }

    /// Remembers the log on screen under the chosen host and log.
    pub fn store_current_log_stream(&mut self)
        ensures
            app_wf(*old(self)) ==> app_wf(*final(self)),
            stored(*old(self), *final(self)),
    {
        let key = self.current_log_stream_key();
        match key {
            None => {},
            Some((host, name)) => {
                let ghost k = (host@, name@);
                let ghost ss = self.log_streams@;
                let ghost p = |s: StoredStream| stream_key(s) != k;
                let mut kept: Vec<StoredStream> = Vec::new();
                let mut i: usize = 0;
                while i < self.log_streams.len()
                    invariant
                        0 <= i <= self.log_streams.len(),
                        ss == self.log_streams@,
                        k == (host@, name@),
                        p == (|s: StoredStream| stream_key(s) != k),
                        streams_map(kept@) == streams_map(ss.take(i as int).filter(p)),
                    decreases self.log_streams.len() - i,
                {
                    let s = &self.log_streams[i];
                    proof {
                        ss.take(i as int).lemma_filter_push(ss[i as int], p);
                    }
                    assert(ss.take(i + 1) =~= ss.take(i as int).push(ss[i as int]));
                    if !(text_eq(s.host.as_str(), host.as_str()) && text_eq(s.log_name.as_str(), name.as_str())) {
                        let copy = StoredStream {
                            host: s.host.clone(),
                            log_name: s.log_name.clone(),
                            entries: copy_entries(&s.entries),
                            last_timestamp_ns: s.last_timestamp_ns,
                            tail_offset: s.tail_offset,
                        };
                        let ghost before = kept@;
                        kept.push(copy);
                        assert(kept@.drop_last() =~= before);
                        assert(ss.take(i as int).filter(p).push(ss[i as int]).drop_last() =~= ss.take(i as int).filter(p));
                    }
                    i += 1;
                }
                assert(ss.take(ss.len() as int) =~= ss);
                proof {
                    lemma_streams_map_without(ss, k);
                }
                let entry = StoredStream {
                    host,
                    log_name: name,
                    entries: copy_entries(&self.log_entries),
                    last_timestamp_ns: self.last_log_timestamp_ns,
                    tail_offset: self.log_tail_offset,
                };
                let ghost before = kept@;
                kept.push(entry);
                assert(kept@.drop_last() =~= before);
                assert(streams_map(kept@) =~= streams_map(ss).insert(k, current_stream_view(*old(self))));
                self.log_streams = kept;
            },
        }
    }
}


impl App {
    /// Sets the status line of the log screen.
    fn update_log_status(&mut self)
        ensures
            final(self).status@ == log_status(*old(self)),
            *final(self) == (App { status: final(self).status, ..*old(self) }),
    {
        let mut status = String::from_str("streaming logs for ");
        match self.selected_log_host() {
            Some(h) => status.append(h),
            None => status.append("-"),
        }
        status.append(" / ");
        match self.selected_log_name() {
            Some(n) => status.append(n),
            None => status.append("-"),
        }
        status.append(" (");
        let count = usize_text(self.visible_log_count());
        status.append(count.as_str());
        status.append(" shown)");
        self.status = status;
    }

    /// Appends `entries` to the log on screen, keeping the last
    /// `LOG_ENTRY_LIMIT`.
    fn extend_capped(&mut self, entries: Vec<LogEntry>)
        ensures
            entries_view(final(self).log_entries@) == keep_last(
                entries_view(old(self).log_entries@) + entries_view(entries@),
                LOG_ENTRY_LIMIT as nat,
            ),
            *final(self) == (App { log_entries: final(self).log_entries, ..*old(self) }),
    {
        let ghost es = entries_view(entries@);
        let ghost before = entries_view(self.log_entries@);
        let mut incoming = entries;
        self.log_entries.append(&mut incoming);
        assert(entries_view(self.log_entries@) =~= before + es);
        if self.log_entries.len() > LOG_ENTRY_LIMIT {
            let drop_len = self.log_entries.len() - LOG_ENTRY_LIMIT;
            let ghost full = self.log_entries@;
            let kept = self.log_entries.split_off(drop_len);
            self.log_entries = kept;
            assert(entries_view(self.log_entries@) =~= entries_view(full).skip(drop_len as int));
        }
    }

    /// Takes in new entries of the log on screen.
    pub fn append_log_entries(&mut self, entries: Vec<LogEntry>)
        ensures
            app_wf(*old(self)) ==> app_wf(*final(self)),
            appended(*old(self), *final(self), entries_view(entries@)),
    {
        let needle = lowered(&self.log_filter_query);
        let appended_visible: usize = if self.log_tail_offset != 0 {
            count_shown(&needle, &entries)
        } else {
            0
        };
        if entries.len() > 0 {
            self.last_log_timestamp_ns = Some(entries[entries.len() - 1].timestamp_ns);
        }
        self.extend_capped(entries);
        if appended_visible > 0 {
            self.log_tail_offset = if self.log_tail_offset > usize::MAX - appended_visible {
                usize::MAX
            } else {
                self.log_tail_offset + appended_visible
            };
        }
        self.clamp_log_tail_offset();
        self.store_current_log_stream();
        self.update_log_status();
    }

    /// Asks for the new entries of the log on screen.
    pub fn refresh_logs(&mut self)
        ensures
            app_wf(*old(self)) ==> app_wf(*final(self)),
            log_polled(*old(self), *final(self)),
    {
        if self.loki.is_none() {
            self.status = String::from_str("loki is not configured");
            return;
        }
        match self.current_log_stream_key() {
            None => {
                self.status = String::from_str("no loki host/log labels available");
            },
            Some((host, log_name)) => {
                self.pending = Some(Request::PollLogs { host, log_name, since_ns: self.last_log_timestamp_ns });
            },
        }
    }

    /// Shows the remembered log of the chosen host and log and asks for its
    /// new entries.
    fn show_current_stream(&mut self)
        ensures
            stream_shown(*old(self), *final(self)),
    {
        self.restore_current_log_stream();
        self.refresh_logs();
    }

    /// Moves the choice of the focused list by `step`.
    fn advance_log_option(&mut self, step: isize)
        ensures
            option_advanced(*old(self), *final(self), step as int),
    {
        match self.log_focus {
            LogFocus::Hosts => {
                let n = self.log_hosts.len();
                if advance_wrapped_index(&mut self.log_host_selected, n, step) {
                    self.show_current_stream();
                }
            },
            LogFocus::Logs => {
                let n = self.log_names.len();
                if advance_wrapped_index(&mut self.log_name_selected, n, step) {
                    self.show_current_stream();
                }
            },
            LogFocus::Tail => {},
        }
    }

    /// Moves the choice of the focused list down, wrapping at the end.
    pub fn next_log_option(&mut self)
        ensures
            app_wf(*old(self)) ==> app_wf(*final(self)),
            option_advanced(*old(self), *final(self), 1),
    {
        self.advance_log_option(1);
    }

    /// Moves the choice of the focused list up, wrapping at the start.
    pub fn previous_log_option(&mut self)
        ensures
            app_wf(*old(self)) ==> app_wf(*final(self)),
            option_advanced(*old(self), *final(self), -1),
    {
        self.advance_log_option(-1);
    }

    /// Moves the focus to the next pane.
    pub fn next_log_focus(&mut self)
        ensures
            app_wf(*old(self)) ==> app_wf(*final(self)),
            final(self).log_focus == next_focus(old(self).log_focus),
            final(self).status@ == "log pane focus: "@ + focus_label(final(self).log_focus),
            *final(self) == (App { log_focus: final(self).log_focus, status: final(self).status, ..*old(self) }),
    {
        self.log_focus = match self.log_focus {
            LogFocus::Hosts => LogFocus::Logs,
            LogFocus::Logs => LogFocus::Tail,
            LogFocus::Tail => LogFocus::Hosts,
        };
        self.status = prefixed("log pane focus: ", self.log_focus.label());
    }

    /// Moves the focus to the previous pane.
    pub fn previous_log_focus(&mut self)
        ensures
            app_wf(*old(self)) ==> app_wf(*final(self)),
            final(self).log_focus == previous_focus(old(self).log_focus),
            final(self).status@ == "log pane focus: "@ + focus_label(final(self).log_focus),
            *final(self) == (App { log_focus: final(self).log_focus, status: final(self).status, ..*old(self) }),
    {
        self.log_focus = match self.log_focus {
            LogFocus::Hosts => LogFocus::Tail,
            LogFocus::Logs => LogFocus::Hosts,
            LogFocus::Tail => LogFocus::Logs,
        };
        self.status = prefixed("log pane focus: ", self.log_focus.label());
    }

    /// Opens the log filter input.
    pub fn open_log_filter_input(&mut self)
        ensures
            app_wf(*old(self)) ==> app_wf(*final(self)),
            final(self).status@ == "filter logs: "@ + old(self).log_filter_query@,
            *final(self) == (App { log_filter_input_open: true, status: final(self).status, ..*old(self) }),
    {
        self.log_filter_input_open = true;
        self.status = prefixed("filter logs: ", self.log_filter_query.as_str());
    }

    /// Closes the log filter input, keeping the filter.
    pub fn close_log_filter_input(&mut self)
        ensures
            app_wf(*old(self)) ==> app_wf(*final(self)),
            final(self).status@ == log_status(*old(self)),
            *final(self) == (App { log_filter_input_open: false, status: final(self).status, ..*old(self) }),
    {
        self.log_filter_input_open = false;
        self.update_log_status();
    }

    /// Adds a character to the log filter.
    pub fn push_log_filter_char(&mut self, ch: char)
        ensures
            app_wf(*old(self)) ==> app_wf(*final(self)),
            log_filter_edited(*old(self), *final(self), old(self).log_filter_query@.push(ch)),
            final(self).status@ == "filter logs: "@ + final(self).log_filter_query@,
    {
        push_char(&mut self.log_filter_query, ch);
        self.clamp_log_tail_offset();
        self.store_current_log_stream();
        self.status = prefixed("filter logs: ", self.log_filter_query.as_str());
    }

    /// Deletes the last character of the log filter.
    pub fn pop_log_filter_char(&mut self)
        ensures
            app_wf(*old(self)) ==> app_wf(*final(self)),
            log_filter_edited(
                *old(self),
                *final(self),
                if old(self).log_filter_query@.len() > 0 {
                    old(self).log_filter_query@.drop_last()
                } else {
                    old(self).log_filter_query@
                },
            ),
            final(self).status@ == "filter logs: "@ + final(self).log_filter_query@,
    {
        let _ = pop_char(&mut self.log_filter_query);
        self.clamp_log_tail_offset();
        self.store_current_log_stream();
        self.status = prefixed("filter logs: ", self.log_filter_query.as_str());
    }

    /// Clears the log filter.
    pub fn clear_log_filter(&mut self)
        ensures
            app_wf(*old(self)) ==> app_wf(*final(self)),
            log_filter_edited(*old(self), *final(self), seq![]),
            final(self).status@ == "log filter cleared"@,
    {
        self.log_filter_query = String::new();
        self.clamp_log_tail_offset();
        self.store_current_log_stream();
        self.status = String::from_str("log filter cleared");
    }

    /// How far the tail is scrolled back from the newest entry.
    pub fn log_tail_scroll_offset(&self) -> (n: usize)
        ensures
            n == self.log_tail_offset,
    {
        self.log_tail_offset
    }

    /// Scrolls the tail back by `step` entries, no farther than the oldest.
    pub fn scroll_log_tail_up(&mut self, step: usize)
        ensures
            app_wf(*old(self)) ==> app_wf(*final(self)),
            scrolled(
                *old(self),
                *final(self),
                at_most(saturating_sum(old(self).log_tail_offset as int, step as int), max_tail(*old(self)) as int)
                    as usize,
            ),
    {
        self.log_tail_offset = if self.log_tail_offset > usize::MAX - step {
            usize::MAX
        } else {
            self.log_tail_offset + step
        };
        self.clamp_log_tail_offset();
        self.store_current_log_stream();
    }

    /// Scrolls the tail forward by `step` entries, no farther than the newest.
    pub fn scroll_log_tail_down(&mut self, step: usize)
        ensures
            app_wf(*old(self)) ==> app_wf(*final(self)),
            scrolled(
                *old(self),
                *final(self),
                if old(self).log_tail_offset > step {
                    (old(self).log_tail_offset - step) as usize
                } else {
                    0
                },
            ),
    {
        self.log_tail_offset = if self.log_tail_offset > step {
            self.log_tail_offset - step
        } else {
            0
        };
        self.store_current_log_stream();
    }

    /// Scrolls the tail back to the oldest entry shown.
    pub fn scroll_log_tail_to_oldest(&mut self)
        ensures
            app_wf(*old(self)) ==> app_wf(*final(self)),
            scrolled(*old(self), *final(self), max_tail(*old(self)) as usize),
    {
        self.log_tail_offset = self.max_log_tail_offset();
        self.store_current_log_stream();
    }

    /// Scrolls the tail to the newest entry.
    pub fn scroll_log_tail_to_latest(&mut self)
        ensures
            app_wf(*old(self)) ==> app_wf(*final(self)),
            scrolled(*old(self), *final(self), 0),
    {
        self.log_tail_offset = 0;
        self.store_current_log_stream();
    }

    /// Takes in the polled entries of the log on screen, or says why there
    /// are none.
    pub fn complete_poll_logs(&mut self, result: Result<Vec<LogEntry>, String>)
        ensures
            app_wf(*old(self)) ==> app_wf(*final(self)),
            match result {
                Ok(v) => appended(*old(self), *final(self), entries_view(v@)),
                Err(e) => final(self).status@ == "loki log fetch error: "@ + e@ && *final(self) == (App {
                    status: final(self).status,
                    ..*old(self)
                }),
            },
    {
        match result {
            Ok(entries) => self.append_log_entries(entries),
            Err(err) => {
                self.status = prefixed("loki log fetch error: ", err.as_str());
            },
        }
    }
}


/// How many of `entries` the log filter whose lowercase text is `needle` keeps.
fn count_shown(needle: &Vec<char>, entries: &Vec<LogEntry>) -> (n: usize)
    ensures
        n == entries_view(entries@).filter(log_shown(needle@)).len(),
{
    let ghost es = entries_view(entries@);
    let mut n: usize = 0;
    let mut i: usize = 0;
    while i < entries.len()
        invariant
            0 <= i <= entries.len(),
            es == entries_view(entries@),
            n == es.take(i as int).filter(log_shown(needle@)).len(),
            n <= i,
        decreases entries.len() - i,
    {
        proof {
            es.take(i as int).lemma_filter_push(es[i as int], log_shown(needle@));
        }
        assert(es.take(i + 1) =~= es.take(i as int).push(es[i as int]));
        if matches_log_filter_with(needle, &entries[i]) {
            n = n + 1;
        }
        i += 1;
    }
    assert(es.take(es.len() as int) =~= es);
    n
}


/// The effect of a failed label request: the status says `message`, then the
/// remembered log of the chosen host and log is shown and polled.
pub open spec fn labels_failed(old: App, new: App, message: Seq<char>) -> bool {
    exists|said: App|
        #[trigger] stream_shown(said, new) && said == (App { status: said.status, ..old }) && said.status@
            == message
}

/// The effect of taking in the host names `hosts`: they replace the list,
/// the choice is kept where it still points into it, and the log names are
/// asked for.
pub open spec fn hosts_taken(old: App, new: App, hosts: Seq<String>) -> bool {
    &&& new.log_hosts@ == hosts
    &&& new == (App {
        log_hosts: new.log_hosts,
        log_host_selected: kept_choice(old.log_host_selected, hosts.len()),
        pending: Some(Request::FetchLogNames),
        ..old
    })
}

/// The effect of taking in the log names `names`: they replace the list, the
/// choice is kept where it still points into it, and the chosen log is shown
/// and polled.
pub open spec fn names_taken(old: App, new: App, names: Seq<String>) -> bool {
    &&& new.log_names@ == names
    &&& stream_shown(
        App {
            log_names: new.log_names,
            log_name_selected: kept_choice(old.log_name_selected, names.len()),
            ..old
        },
        new,
    )
}

/// `sel` when it points into a list of `len`, else the first entry.
pub open spec fn kept_choice(sel: usize, len: nat) -> usize {
    if sel < len {
        sel
    } else {
        0
    }
}

impl App {
    /// Shows the log screen and asks for the host names; without Loki, the
    /// status says so.
    pub fn open_logs(&mut self)
        ensures
            app_wf(*old(self)) ==> app_wf(*final(self)),
            if old(self).loki is None {
                &&& final(self).status@ == "loki is not configured"@
                &&& *final(self) == (App { status: final(self).status, ..*old(self) })
            } else {
                &&& final(self).status@ == "loading loki labels"@
                &&& *final(self) == (App {
                    filter_input_open: false,
                    log_filter_input_open: false,
                    target_picker_open: false,
                    screen: ScreenMode::Logs,
                    status: final(self).status,
                    pending: Some(Request::FetchLogHosts),
                    ..*old(self)
                })
            },
    {
        if self.loki.is_none() {
            self.status = String::from_str("loki is not configured");
            return;
        }
        self.filter_input_open = false;
        self.log_filter_input_open = false;
        self.target_picker_open = false;
        self.screen = ScreenMode::Logs;
        self.status = String::from_str("loading loki labels");
        self.pending = Some(Request::FetchLogHosts);
    }

    /// Goes back to the metric screen.
    pub fn close_logs(&mut self)
        requires
            app_wf(*old(self)),
        ensures
            app_wf(*final(self)),
            final(self).status@ == loaded_status(
                old(self).metrics.len() as nat,
                selected_target_view(*old(self)),
                notice_view(*old(self)),
            ),
            *final(self) == (App {
                log_filter_input_open: false,
                screen: ScreenMode::Metrics,
                status: final(self).status,
                target_notice: None,
                ..*old(self)
            }),
    {
        self.log_filter_input_open = false;
        self.screen = ScreenMode::Metrics;
        self.update_loaded_status();
    }

    /// Loads the host and log names again, or, without Loki, shows the
    /// remembered log and says that Loki is not configured.
    pub fn reload_logs_screen(&mut self)
        ensures
            app_wf(*old(self)) ==> app_wf(*final(self)),
            if old(self).loki is None {
                stream_shown(*old(self), *final(self))
            } else {
                *final(self) == (App { pending: Some(Request::FetchLogHosts), ..*old(self) })
            },
    {
        if self.loki.is_none() {
            self.show_current_stream();
        } else {
            self.pending = Some(Request::FetchLogHosts);
        }
    }

    /// Takes in the host names and asks for the log names; on an error, says
    /// so and shows the remembered log of the chosen host and log.
    pub fn complete_log_hosts(&mut self, result: Result<Vec<String>, String>)
        ensures
            app_wf(*old(self)) ==> app_wf(*final(self)),
            result matches Ok(hosts) ==> hosts_taken(*old(self), *final(self), hosts@),
            result matches Err(e) ==> labels_failed(*old(self), *final(self), "loki host labels error: "@ + e@),
    {
        match result {
            Ok(hosts) => {
                self.log_hosts = hosts;
                if self.log_host_selected >= self.log_hosts.len() {
                    self.log_host_selected = 0;
                }
                self.pending = Some(Request::FetchLogNames);

            },
            Err(err) => {
                self.status = prefixed("loki host labels error: ", err.as_str());
                let ghost said = *self;
                self.show_current_stream();
                assert(stream_shown(said, *self));
            },
        }
    }

    /// Takes in the log names (or says why there are none), then shows the
    /// remembered log of the chosen host and log and asks for its new entries.
    pub fn complete_log_names(&mut self, result: Result<Vec<String>, String>)
        ensures
            app_wf(*old(self)) ==> app_wf(*final(self)),
            match result {
                Ok(names) => names_taken(*old(self), *final(self), names@),
                Err(e) => labels_failed(*old(self), *final(self), "loki log labels error: "@ + e@),
            },
    {
        match result {
            Ok(names) => {
                self.log_names = names;
                if self.log_name_selected >= self.log_names.len() {
                    self.log_name_selected = 0;
                }
            },
            Err(err) => {
                self.status = prefixed("loki log labels error: ", err.as_str());
            },
        }
        let ghost before = *self;
        self.show_current_stream();
        assert(stream_shown(before, *self));
    }
}

} // verus!
