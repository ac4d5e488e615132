use crate::input::events::{translate, translated, RawEvent, TerminalInputEvent};
use crate::input::resources::EventQueue;
use vstd::prelude::*;

verus! {

/// The normalized forms of `raw`, in the order of `raw`: one event for each
/// raw event that has a normalized form, none for the others.
pub open spec fn normalized(raw: Seq<RawEvent>) -> Seq<TerminalInputEvent>
    decreases raw.len(),
{
    if raw.len() == 0 {
        Seq::empty()
    } else {
        match translated(raw.last()) {
            Some(event) => normalized(raw.drop_last()).push(event),
            None => normalized(raw.drop_last()),
        }
    }
}

/// The events of `events` that are no resize, in their order.
pub open spec fn without_resizes(events: Seq<TerminalInputEvent>) -> Seq<TerminalInputEvent>
    decreases events.len(),
{
    if events.len() == 0 {
        Seq::empty()
    } else if events.last().is_resize() {
        without_resizes(events.drop_last())
    } else {
        without_resizes(events.drop_last()).push(events.last())
    }
}

/// `events` with every resize but the latest removed. The other events, and
/// the latest resize among them, keep their order.
pub open spec fn latest_resize_only(events: Seq<TerminalInputEvent>) -> Seq<TerminalInputEvent>
    decreases events.len(),
{
    if events.len() == 0 {
        Seq::empty()
    } else if events.last().is_resize() {
        without_resizes(events.drop_last()).push(events.last())
    } else {
        latest_resize_only(events.drop_last()).push(events.last())
    }
}

/// Number of resizes among `events`.
pub open spec fn resize_count(events: Seq<TerminalInputEvent>) -> nat
    decreases events.len(),
{
    if events.len() == 0 {
        0
    } else if events.last().is_resize() {
        resize_count(events.drop_last()) + 1
    } else {
        resize_count(events.drop_last())
    }
}

/// Position of the latest resize among `events`, or -1 where there is none.
pub open spec fn latest_resize(events: Seq<TerminalInputEvent>) -> int
    decreases events.len(),
{
    if events.len() == 0 {
        -1
    } else if events.last().is_resize() {
        events.len() - 1
    } else {
        latest_resize(events.drop_last())
    }
}

/// What one cycle's poll delivers for the raw events `raw`: their normalized
/// forms in arrival order, with only the latest resize.
pub open spec fn polled(raw: Seq<RawEvent>) -> Seq<TerminalInputEvent> {
    latest_resize_only(normalized(raw))
}

/// The events of `events` that are no resize or stand at position `keep`.
spec fn kept(events: Seq<TerminalInputEvent>, keep: int) -> Seq<TerminalInputEvent>
    decreases events.len(),
{
    if events.len() == 0 {
        Seq::empty()
    } else if !events.last().is_resize() || events.len() - 1 == keep {
        kept(events.drop_last(), keep).push(events.last())
    } else {
        kept(events.drop_last(), keep)
    }
}

proof fn lemma_latest_resize_range(events: Seq<TerminalInputEvent>)
    ensures
        -1 <= latest_resize(events) < events.len(),
        latest_resize(events) >= 0 ==> events[latest_resize(events)].is_resize(),
    decreases events.len(),
{
    if events.len() > 0 && !events.last().is_resize() {
        lemma_latest_resize_range(events.drop_last());
    }
}

proof fn lemma_kept_outside(events: Seq<TerminalInputEvent>, keep: int)
    requires
        keep < 0 || keep >= events.len(),
    ensures
        kept(events, keep) == without_resizes(events),
    decreases events.len(),
{
    if events.len() > 0 {
        lemma_kept_outside(events.drop_last(), keep);
    }
}

proof fn lemma_kept_latest(events: Seq<TerminalInputEvent>)
    ensures
        kept(events, latest_resize(events)) == latest_resize_only(events),
    decreases events.len(),
{
    if events.len() > 0 {
        if events.last().is_resize() {
            lemma_kept_outside(events.drop_last(), events.len() - 1);
        } else {
            lemma_kept_latest(events.drop_last());
            lemma_latest_resize_range(events.drop_last());
        }
    }
}

/// Dropping all resizes but the latest touches no other event: the events
/// that are no resize come out as they went in, in the same order.
pub proof fn lemma_latest_resize_only_keeps_others(events: Seq<TerminalInputEvent>)
    ensures
        without_resizes(latest_resize_only(events)) == without_resizes(events),
    decreases events.len(),
{
    if events.len() > 0 {
        let front = events.drop_last();
        if events.last().is_resize() {
            let out = without_resizes(front).push(events.last());
            assert(out.drop_last() == without_resizes(front));
            lemma_without_resizes_idempotent(front);
        } else {
            let out = latest_resize_only(front).push(events.last());
            assert(out.drop_last() == latest_resize_only(front));
            lemma_latest_resize_only_keeps_others(front);
        }
    }
}

/// Removing the resizes from events without resizes changes nothing.
pub proof fn lemma_without_resizes_idempotent(events: Seq<TerminalInputEvent>)
    ensures
        without_resizes(without_resizes(events)) == without_resizes(events),
        resize_count(without_resizes(events)) == 0,
    decreases events.len(),
{
    if events.len() > 0 {
        let front = events.drop_last();
        lemma_without_resizes_idempotent(front);
        if !events.last().is_resize() {
            let out = without_resizes(front).push(events.last());
            assert(out.drop_last() == without_resizes(front));
        }
    }
}

/// After deduplication at most one resize is left, and it is the latest of
/// those that came in: where any resize came in, the one that is left equals
/// the last of them; where none came in, none is left.
pub proof fn lemma_latest_resize_only_single(events: Seq<TerminalInputEvent>)
    ensures
        resize_count(latest_resize_only(events)) == (if resize_count(events) > 0 {
            1nat
        } else {
            0nat
        }),
        resize_count(events) > 0 <==> latest_resize(events) >= 0,
        latest_resize(events) >= 0 ==> {
            &&& latest_resize(latest_resize_only(events)) >= 0
            &&& latest_resize_only(events)[latest_resize(latest_resize_only(events))]
                == events[latest_resize(events)]
        },
    decreases events.len(),
{
    if events.len() > 0 {
        let front = events.drop_last();
        if events.last().is_resize() {
            let out = without_resizes(front).push(events.last());
            assert(out.drop_last() == without_resizes(front));
            lemma_without_resizes_idempotent(front);
        } else {
            let out = latest_resize_only(front).push(events.last());
            assert(out.drop_last() == latest_resize_only(front));
            lemma_latest_resize_only_single(front);
            lemma_latest_resize_range(front);
            lemma_latest_resize_range(latest_resize_only(front));
        }
    }
}

/// Normalizes every raw event of `raw`, in order.
pub fn translate_all(raw: &Vec<RawEvent>) -> (events: Vec<TerminalInputEvent>)
    ensures
        events@ == normalized(raw@),
{
    let mut events: Vec<TerminalInputEvent> = Vec::new();
    let mut i: usize = 0;
    while i < raw.len()
        invariant
            i <= raw.len(),
            events@ == normalized(raw@.take(i as int)),
        decreases raw.len() - i,
    {
        assert(raw@.take(i + 1).drop_last() == raw@.take(i as int));
        match translate(&raw[i]) {
            Some(event) => events.push(event),
            None => {},
        }
        i = i + 1;
    }
    assert(raw@.take(raw.len() as int) == raw@);
    events
}

/// Position of the latest resize among `events`, if there is one.
pub fn find_latest_resize(events: &Vec<TerminalInputEvent>) -> (position: Option<usize>)
    ensures
        match position {
            Some(index) => index == latest_resize(events@),
            None => latest_resize(events@) == -1,
        },
{
    let mut position: Option<usize> = None;
    let mut i: usize = 0;
    while i < events.len()
        invariant
            i <= events.len(),
            match position {
                Some(index) => index == latest_resize(events@.take(i as int)),
                None => latest_resize(events@.take(i as int)) == -1,
            },
        decreases events.len() - i,
    {
        assert(events@.take(i + 1).drop_last() == events@.take(i as int));
        if events[i].reports_resize() {
            position = Some(i);
        }
        i = i + 1;
    }
    assert(events@.take(events.len() as int) == events@);
    position
}

/// Removes every resize but the latest from `events`, keeping the order of
/// what is left.
pub fn dedupe_resizes(events: &Vec<TerminalInputEvent>) -> (deduped: Vec<TerminalInputEvent>)
    ensures
        deduped@ == latest_resize_only(events@),
{
    let latest = find_latest_resize(events);
    let ghost keep = latest_resize(events@);
    let mut deduped: Vec<TerminalInputEvent> = Vec::new();
    let mut i: usize = 0;
    while i < events.len()
        invariant
            i <= events.len(),
            keep == latest_resize(events@),
            match latest {
                Some(index) => index == keep,
                None => keep == -1,
            },
            deduped@ == kept(events@.take(i as int), keep),
        decreases events.len() - i,
    {
        assert(events@.take(i + 1).drop_last() == events@.take(i as int));
        let event = events[i];
        let is_latest = match latest {
            Some(index) => index == i,
            None => false,
        };
        if !event.reports_resize() || is_latest {
            deduped.push(event);
        }
        i = i + 1;
    }
    proof {
        assert(events@.take(events.len() as int) == events@);
        lemma_kept_latest(events@);
    }
    deduped
}

/// Turns the raw events that were pending at this cycle's poll into the
/// events to deliver: normalized, in arrival order, with only the latest
/// resize. No pending event gives no event.
pub fn poll_and_translate(pending: &Vec<RawEvent>) -> (events: Vec<TerminalInputEvent>)
    ensures
        events@ == polled(pending@),
        pending@.len() == 0 ==> events@.len() == 0,
{
    let translated = translate_all(pending);
    dedupe_resizes(&translated)
}

/// Translates this cycle's pending raw events and publishes the result to
/// the queue, behind what already waits there.
pub fn input_handling(queue: &mut EventQueue, pending: &Vec<RawEvent>)
    ensures
        final(queue)@ == old(queue)@ + polled(pending@),
{
    let events = poll_and_translate(pending);
    queue.publish(events);
}

} // verus!
