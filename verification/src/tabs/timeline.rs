//! The event list of the timeline tab.

use vstd::prelude::*;
use crate::insights::{insights_view, severity_label, Insight, InsightView, Severity};
use crate::sort::{insertion_sort, lemma_sort_by_map, sort_by};
use crate::text::{chars_of, push_str, string_of};

verus! {

/// What an event reports.
#[derive(Debug, Clone, Copy, PartialEq, Eq, Structural)]
pub enum EventKind {
    InsightStart,
    InsightClear,
    TopProcChange,
}

/// One line of the event list.
#[derive(Debug)]
pub struct Event {
    pub kind: EventKind,
    /// Seconds before the newest sample.
    pub age_secs: u64,
    pub detail: String,
}

/// `Event` with its text as a character sequence.
pub struct EventView {
    pub kind: EventKind,
    pub age_secs: u64,
    pub detail: Seq<char>,
}

impl View for Event {
    type V = EventView;

    open spec fn view(&self) -> EventView {
        EventView { kind: self.kind, age_secs: self.age_secs, detail: self.detail@ }
    }
}

pub open spec fn events_view(v: Seq<Event>) -> Seq<EventView> {
    v.map_values(|e: Event| e@)
}

/// The text of a change of the busiest process.
pub open spec fn top_change_text(prev: Seq<char>, cur: Seq<char>) -> Seq<char> {
    "top CPU: "@ + prev + " → "@ + cur
}

/// A change-of-busiest-process event for each sample (busiest process
/// name, age) whose busiest process differs from the one before it,
/// both being known.
pub open spec fn top_changes(ticks: Seq<(Option<Seq<char>>, u64)>) -> Seq<EventView>
    decreases ticks.len(),
{
    if ticks.len() < 2 {
        Seq::empty()
    } else {
        let prev = top_changes(ticks.drop_last());
        match (ticks[ticks.len() - 2].0, ticks.last().0) {
            (Some(p), Some(c)) => if p != c {
                prev.push(
                    EventView {
                        kind: EventKind::TopProcChange,
                        age_secs: ticks.last().1,
                        detail: top_change_text(p, c),
                    },
                )
            } else {
                prev
            },
            _ => prev,
        }
    }
}

/// An ongoing-insight event for each card more severe than Info.
pub open spec fn insight_events(cs: Seq<InsightView>) -> Seq<EventView>
    decreases cs.len(),
{
    if cs.len() == 0 {
        Seq::empty()
    } else {
        let prev = insight_events(cs.drop_last());
        let c = cs.last();
        if c.severity != Severity::Info {
            prev.push(
                EventView {
                    kind: EventKind::InsightStart,
                    age_secs: 0,
                    detail: "["@ + severity_label(c.severity) + "] "@ + c.title,
                },
            )
        } else {
            prev
        }
    }
}

/// Newer first.
pub open spec fn age_le(a: EventView, b: EventView) -> bool {
    a.age_secs <= b.age_secs
}

/// What `derive_events` gives: nothing for fewer than two samples;
/// otherwise the process changes and the ongoing insights, newest first
/// (ties in that order).
pub open spec fn session_events(ticks: Seq<(Option<Seq<char>>, u64)>, cs: Seq<InsightView>) -> Seq<
    EventView,
> {
    if ticks.len() < 2 {
        Seq::empty()
    } else {
        sort_by(|a: EventView, b: EventView| age_le(a, b), top_changes(ticks) + insight_events(cs))
    }
}

pub open spec fn ticks_view(v: Seq<(Option<String>, u64)>) -> Seq<(Option<Seq<char>>, u64)> {
    v.map_values(
        |t: (Option<String>, u64)|
            (
                match t.0 {
                    Some(s) => Some(s@),
                    None => None,
                },
                t.1,
            ),
    )
}

fn age_le_exec(a: &Event, b: &Event) -> (r: bool)
    ensures
        r == age_le(a@, b@),
{
    a.age_secs <= b.age_secs
}

/// The event list of a session: for each sample (name of its busiest
/// process, seconds before the newest sample) after the first whose
/// busiest process changed, a change event; for each card more severe
/// than Info, an ongoing event; newest first. Empty for fewer than two
/// samples.
pub fn derive_events(ticks: &Vec<(Option<String>, u64)>, insights: &Vec<Insight>) -> (r: Vec<Event>)
    ensures
        events_view(r@) == session_events(ticks_view(ticks@), insights_view(insights@)),
{
    if ticks.len() < 2 {
        let r: Vec<Event> = Vec::new();
        assert(events_view(r@) =~= Seq::<EventView>::empty());
        return r;
    }
    let ghost tv = ticks_view(ticks@);
    let mut out: Vec<Event> = Vec::new();
    let mut i: usize = 1;
    assert(tv.take(1).len() < 2);
    assert(events_view(out@) =~= top_changes(tv.take(1)));
    while i < ticks.len()
        invariant
            1 <= i <= ticks@.len(),
            tv == ticks_view(ticks@),
            events_view(out@) == top_changes(tv.take(i as int)),
        decreases ticks@.len() - i,
    {
        let ghost t = tv.take(i + 1);
        assert(t.drop_last() =~= tv.take(i as int));
        assert(t[t.len() - 2] == tv[i - 1]);
        assert(t.last() == tv[i as int]);
        match (&ticks[i - 1].0, &ticks[i].0) {
            (Some(p), Some(c)) => {
                let pv = chars_of(p.as_str());
                let cv = chars_of(c.as_str());
                if !crate::text::eq_chars(&pv, &cv) {
                    let mut d: Vec<char> = Vec::new();
                    push_str(&mut d, "top CPU: ");
                    push_str(&mut d, p.as_str());
                    push_str(&mut d, " → ");
                    push_str(&mut d, c.as_str());
                    let e = Event {
                        kind: EventKind::TopProcChange,
                        age_secs: ticks[i].1,
                        detail: string_of(&d),
                    };
                    let ghost old_out = out@;
                    out.push(e);
                    assert(events_view(out@) =~= events_view(old_out).push(e@));
                }
            },
            _ => {},
        }
        i += 1;
    }
    assert(tv.take(ticks@.len() as int) =~= tv);
    let ghost cv = insights_view(insights@);
    let ghost changes = events_view(out@);
    let mut k: usize = 0;
    while k < insights.len()
        invariant
            k <= insights@.len(),
            cv == insights_view(insights@),
            events_view(out@) == changes + insight_events(cv.take(k as int)),
        decreases insights@.len() - k,
    {
        assert(cv.take(k + 1).drop_last() =~= cv.take(k as int));
        assert(cv.take(k + 1).last() == insights@[k as int]@);
        let c = &insights[k];
        if c.severity != Severity::Info {
            let mut d: Vec<char> = Vec::new();
            push_str(&mut d, "[");
            push_str(&mut d, c.severity.label());
            push_str(&mut d, "] ");
            push_str(&mut d, c.title.as_str());
            let e = Event { kind: EventKind::InsightStart, age_secs: 0, detail: string_of(&d) };
            let ghost old_out = out@;
            out.push(e);
            assert(events_view(out@) =~= events_view(old_out).push(e@));
        }
        k += 1;
    }
    assert(cv.take(insights@.len() as int) =~= cv);
    let ghost all = out@;
    let sorted = insertion_sort(out, age_le_exec, Ghost(|a: Event, b: Event| age_le(a@, b@)));
    proof {
        lemma_sort_by_map(
            |a: Event, b: Event| age_le(a@, b@),
            |a: EventView, b: EventView| age_le(a, b),
            |e: Event| e@,
            all,
        );
    }
    sorted
}

} // verus!
