//! The events into which the router turns a stream of text.
use vstd::prelude::*;
use crate::header::{Header, HeaderView};
use crate::text::{ticks, NEWLINE};

verus! {

/// Why a stream did not end in plain prose.
#[derive(Clone, Copy, Debug, PartialEq, Eq)]
pub enum Malformation {
    /// The stream ended on one or two backticks that might have begun a fence.
    PartialFence,
    /// The stream ended inside the header line of a code block.
    UnterminatedHeader,
    /// The stream ended inside the body of a code block.
    UnterminatedCode,
}

/// One unit of routed output.
#[derive(Clone, Debug, PartialEq, Eq)]
pub enum Event {
    /// Narrative text, to be spoken.
    ProseChars(String),
    /// A code block has opened; its header line has been read.
    CodeOpen(Header),
    /// Text of the body of the open code block.
    CodeChars(String),
    /// The open code block has closed.
    CodeClose,
    /// The stream ended in the middle of a fence or of a code block.
    Malformed(Malformation),
}

/// The mathematical value of an [`Event`].
pub enum EventView {
    ProseChars(Seq<char>),
    CodeOpen(HeaderView),
    CodeChars(Seq<char>),
    CodeClose,
    Malformed(Malformation),
}

impl View for Event {
    type V = EventView;

    open spec fn view(&self) -> EventView {
        match *self {
            Event::ProseChars(text) => EventView::ProseChars(text@),
            Event::CodeOpen(header) => EventView::CodeOpen(header@),
            Event::CodeChars(text) => EventView::CodeChars(text@),
            Event::CodeClose => EventView::CodeClose,
            Event::Malformed(m) => EventView::Malformed(m),
        }
    }
}

impl DeepView for Event {
    type V = EventView;

    open spec fn deep_view(&self) -> EventView {
        self@
    }
}

impl EventView {
    /// The stretch of the stream that this event accounts for. Fence marks
    /// and the header line are not carried as text, but they are not lost:
    /// an opening stands for three backticks, its header line and the
    /// newline that ends it, a closing for three backticks.
    pub open spec fn source(self) -> Seq<char> {
        match self {
            EventView::ProseChars(text) => text,
            EventView::CodeOpen(header) => ticks(3) + header.line() + seq![NEWLINE],
            EventView::CodeChars(text) => text,
            EventView::CodeClose => ticks(3),
            EventView::Malformed(_) => Seq::empty(),
        }
    }
}

/// `events` with `event` added at the end. Text that continues text of the
/// same kind is joined to it, so that no two neighbours are both prose or
/// both code text.
pub open spec fn emit(events: Seq<EventView>, event: EventView) -> Seq<EventView> {
    if events.len() == 0 {
        events.push(event)
    } else {
        match (events.last(), event) {
            (EventView::ProseChars(a), EventView::ProseChars(b)) => events.drop_last().push(
                EventView::ProseChars(a + b),
            ),
            (EventView::CodeChars(a), EventView::CodeChars(b)) => events.drop_last().push(
                EventView::CodeChars(a + b),
            ),
            _ => events.push(event),
        }
    }
}

/// `events` followed by `more`, joined as [`emit`] joins single events.
pub open spec fn absorb(events: Seq<EventView>, more: Seq<EventView>) -> Seq<EventView>
    decreases more.len(),
{
    if more.len() == 0 {
        events
    } else {
        emit(absorb(events, more.drop_last()), more.last())
    }
}

/// The stretch of the stream that a sequence of events accounts for.
pub open spec fn source_of(events: Seq<EventView>) -> Seq<char>
    decreases events.len(),
{
    if events.len() == 0 {
        Seq::empty()
    } else {
        source_of(events.drop_last()) + events.last().source()
    }
}

/// All prose text of a sequence of events, in order.
pub open spec fn prose_of(events: Seq<EventView>) -> Seq<char>
    decreases events.len(),
{
    if events.len() == 0 {
        Seq::empty()
    } else {
        match events.last() {
            EventView::ProseChars(text) => prose_of(events.drop_last()) + text,
            _ => prose_of(events.drop_last()),
        }
    }
}

/// All code text of a sequence of events, in order.
pub open spec fn code_of(events: Seq<EventView>) -> Seq<char>
    decreases events.len(),
{
    if events.len() == 0 {
        Seq::empty()
    } else {
        match events.last() {
            EventView::CodeChars(text) => code_of(events.drop_last()) + text,
            _ => code_of(events.drop_last()),
        }
    }
}

/// Joining text to its neighbour changes neither the prose nor the code
/// text of the events.
pub proof fn lemma_emit_keeps_text(events: Seq<EventView>, event: EventView)
    ensures
        prose_of(emit(events, event)) == prose_of(events.push(event)),
        code_of(emit(events, event)) == code_of(events.push(event)),
{
    reveal_with_fuel(prose_of, 2);
    reveal_with_fuel(code_of, 2);
    let plain = events.push(event);
    assert(plain.drop_last() =~= events);
    if events.len() > 0 {
        let init = events.drop_last();
        match (events.last(), event) {
            (EventView::ProseChars(a), EventView::ProseChars(b)) => {
                let joined = init.push(EventView::ProseChars(a + b));
                assert(joined.drop_last() =~= init);
                assert(prose_of(init) + (a + b) =~= prose_of(init) + a + b);
            },
            (EventView::CodeChars(a), EventView::CodeChars(b)) => {
                let joined = init.push(EventView::CodeChars(a + b));
                assert(joined.drop_last() =~= init);
                assert(code_of(init) + (a + b) =~= code_of(init) + a + b);
            },
            _ => {},
        }
    }
}

/// Joining text to its neighbour changes no character of the stream that the
/// events account for.
pub proof fn lemma_emit_source(events: Seq<EventView>, event: EventView)
    ensures
        source_of(emit(events, event)) == source_of(events) + event.source(),
{
    if events.len() == 0 {
        assert(events.push(event).drop_last() =~= events);
    } else {
        let init = events.drop_last();
        match (events.last(), event) {
            (EventView::ProseChars(a), EventView::ProseChars(b)) => {
                let joined = init.push(EventView::ProseChars(a + b));
                assert(joined.drop_last() =~= init);
                assert(source_of(joined) =~= source_of(init) + (a + b));
                assert(source_of(init) + (a + b) =~= source_of(init) + a + b);
            },
            (EventView::CodeChars(a), EventView::CodeChars(b)) => {
                let joined = init.push(EventView::CodeChars(a + b));
                assert(joined.drop_last() =~= init);
                assert(source_of(joined) =~= source_of(init) + (a + b));
                assert(source_of(init) + (a + b) =~= source_of(init) + a + b);
            },
            _ => {
                assert(events.push(event).drop_last() =~= events);
            },
        }
    }
}

/// Emitting a text in two parts gives what emitting it whole gives.
pub proof fn lemma_emit_prose_in_parts(events: Seq<EventView>, a: Seq<char>, b: Seq<char>)
    ensures
        emit(emit(events, EventView::ProseChars(a)), EventView::ProseChars(b)) == emit(
            events,
            EventView::ProseChars(a + b),
        ),
{
    let once = emit(events, EventView::ProseChars(a));
    if events.len() > 0 {
        if let EventView::ProseChars(x) = events.last() {
            assert(once.drop_last() =~= events.drop_last());
            assert((x + a) + b =~= x + (a + b));
        } else {
            assert(once.drop_last() =~= events);
        }
    } else {
        assert(once.drop_last() =~= events);
    }
}

/// Emitting a code text in two parts gives what emitting it whole gives.
pub proof fn lemma_emit_code_in_parts(events: Seq<EventView>, a: Seq<char>, b: Seq<char>)
    ensures
        emit(emit(events, EventView::CodeChars(a)), EventView::CodeChars(b)) == emit(
            events,
            EventView::CodeChars(a + b),
        ),
{
    let once = emit(events, EventView::CodeChars(a));
    if events.len() > 0 {
        if let EventView::CodeChars(x) = events.last() {
            assert(once.drop_last() =~= events.drop_last());
            assert((x + a) + b =~= x + (a + b));
        } else {
            assert(once.drop_last() =~= events);
        }
    } else {
        assert(once.drop_last() =~= events);
    }
}

/// Joining two sequences of events and then emitting one more event is the
/// same as emitting it onto the second sequence first.
pub proof fn lemma_absorb_emit(events: Seq<EventView>, more: Seq<EventView>, event: EventView)
    ensures
        absorb(events, emit(more, event)) == emit(absorb(events, more), event),
{
    if more.len() == 0 {
        let one = more.push(event);
        assert(one.drop_last() =~= more);
        assert(one.last() == event);
    } else {
        let init = more.drop_last();
        match (more.last(), event) {
            (EventView::ProseChars(a), EventView::ProseChars(b)) => {
                let joined = init.push(EventView::ProseChars(a + b));
                assert(joined.drop_last() =~= init);
                lemma_emit_prose_in_parts(absorb(events, init), a, b);
            },
            (EventView::CodeChars(a), EventView::CodeChars(b)) => {
                let joined = init.push(EventView::CodeChars(a + b));
                assert(joined.drop_last() =~= init);
                lemma_emit_code_in_parts(absorb(events, init), a, b);
            },
            _ => {
                assert(more.push(event).drop_last() =~= more);
            },
        }
    }
}

/// Joining two sequences of events changes no character of the stream that
/// they account for.
pub proof fn lemma_absorb_source(events: Seq<EventView>, more: Seq<EventView>)
    ensures
        source_of(absorb(events, more)) == source_of(events) + source_of(more),
    decreases more.len(),
{
    if more.len() == 0 {
        assert(source_of(events) + source_of(more) =~= source_of(events));
    } else {
        lemma_absorb_source(events, more.drop_last());
        lemma_emit_source(absorb(events, more.drop_last()), more.last());
        assert((source_of(events) + source_of(more.drop_last())) + more.last().source()
            =~= source_of(events) + (source_of(more.drop_last()) + more.last().source()));
    }
}

/// Appends `event` to `events`, joining text to text of the same kind.
pub fn emit_event(events: &mut Vec<Event>, event: Event)
    ensures
        final(events).deep_view() == emit(old(events).deep_view(), event@),
{
    let ghost before = events.deep_view();
    match event {
        Event::ProseChars(tail) => {
            match events.pop() {
                Some(Event::ProseChars(mut text)) => {
                    crate::text::push_all(&mut text, tail.as_str());
                    events.push(Event::ProseChars(text));
                },
                Some(other) => {
                    events.push(other);
                    events.push(Event::ProseChars(tail));
                },
                None => {
                    events.push(Event::ProseChars(tail));
                },
            }
        },
        Event::CodeChars(tail) => {
            match events.pop() {
                Some(Event::CodeChars(mut text)) => {
                    crate::text::push_all(&mut text, tail.as_str());
                    events.push(Event::CodeChars(text));
                },
                Some(other) => {
                    events.push(other);
                    events.push(Event::CodeChars(tail));
                },
                None => {
                    events.push(Event::CodeChars(tail));
                },
            }
        },
        other => {
            events.push(other);
        },
    }
    assert(events.deep_view() =~= emit(before, event@));
}

/// Appends the events of the next fragment to those of the fragments
/// before it, joining text to text of the same kind across the seam.
pub fn join_events(events: &mut Vec<Event>, more: Vec<Event>)
    ensures
        final(events).deep_view() == absorb(old(events).deep_view(), more.deep_view()),
{
    let ghost all = more.deep_view();
    for event in it: more
        invariant
            it.seq().len() == all.len(),
            forall|i: int| 0 <= i < all.len() ==> (#[trigger] it.seq()[i])@ == all[i],
            events.deep_view() == absorb(old(events).deep_view(), all.take(it.index() as int)),
    {
        let ghost i = it.index() as int;
        assert(all.take(i + 1).drop_last() =~= all.take(i));
        emit_event(events, event);
    }
    assert(all.take(all.len() as int) =~= all);
}

} // verus!
