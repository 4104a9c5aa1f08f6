//! The fence-aware router: from fragments of a stream to events.
//!
//! The router reads one character at a time and keeps back the backticks that
//! may turn out to be a fence. How the stream is cut into fragments therefore
//! has no influence on what it emits, beyond where text events are divided.
use vstd::prelude::*;
use crate::event::{emit, Event, EventView, Malformation};
use crate::header::{header_of, parse_header};
use crate::text::{push_ticks, ticks, BACKTICK, NEWLINE};

verus! {

/// Where the router stands in recognising fences.
#[derive(Clone, Copy, Debug, PartialEq, Eq)]
pub enum FenceState {
    /// In narrative text, with no backtick held back.
    Prose,
    /// In narrative text, holding back this many backticks (one or two) that
    /// may begin an opening fence.
    PendingOpen(u8),
    /// Inside a code block, with no backtick held back.
    InCode,
    /// Inside a code block, holding back this many backticks (one or two)
    /// that may begin the closing fence.
    PendingClose(u8),
}

/// The router: the fence state and, while the header line of a block that
/// has just opened is still being read, that line as far as it has come.
pub struct Router {
    state: FenceState,
    header: Option<String>,
}

/// The mathematical value of a [`Router`].
pub struct RouterView {
    pub state: FenceState,
    pub header: Option<Seq<char>>,
}

impl RouterView {
    /// The router before any input: in prose, holding nothing.
    pub open spec fn start() -> RouterView {
        RouterView { state: FenceState::Prose, header: None }
    }

    /// A block's header line has been read and its body is being read, with
    /// no backtick held back.
    pub open spec fn in_body() -> RouterView {
        RouterView { state: FenceState::InCode, header: None }
    }

    /// A block has opened and `line` is what has been read of its header
    /// line.
    pub open spec fn in_header(line: Seq<char>) -> RouterView {
        RouterView { state: FenceState::InCode, header: Some(line) }
    }

    /// What holds of every router: a pending count is one or two, and a
    /// header line is only ever being read inside a code block, where no
    /// backtick is then held back.
    pub open spec fn wf(self) -> bool {
        match self.state {
            FenceState::Prose => self.header is None,
            FenceState::PendingOpen(n) => 1 <= n <= 2 && self.header is None,
            FenceState::InCode => true,
            FenceState::PendingClose(n) => 1 <= n <= 2 && self.header is None,
        }
    }

    /// The characters that have been read but that no event accounts for
    /// yet: held backticks, or an opening fence with the part of its header
    /// line read so far.
    pub open spec fn held(self) -> Seq<char> {
        match self.state {
            FenceState::Prose => Seq::empty(),
            FenceState::PendingOpen(n) => ticks(n as nat),
            FenceState::InCode => match self.header {
                Some(line) => ticks(3) + line,
                None => Seq::empty(),
            },
            FenceState::PendingClose(n) => ticks(n as nat),
        }
    }
}

/// A router together with the events it has emitted so far.
pub struct Run {
    pub router: RouterView,
    pub events: Seq<EventView>,
}

/// One character of input.
///
/// In prose a backtick is held back; the third in a row opens a code block,
/// whose header line runs up to the next newline. Any other character
/// releases the held backticks as prose, followed by itself. Inside a block
/// the same happens with code text, and the third backtick in a row closes
/// the block.
pub open spec fn step(run: Run, c: char) -> Run {
    let Run { router, events } = run;
    match router.state {
        FenceState::Prose => if c == BACKTICK {
            Run { router: RouterView { state: FenceState::PendingOpen(1), header: None }, events }
        } else {
            Run { router, events: emit(events, EventView::ProseChars(seq![c])) }
        },
        FenceState::PendingOpen(n) => if c == BACKTICK {
            if n < 2 {
                Run {
                    router: RouterView { state: FenceState::PendingOpen((n + 1) as u8), header: None },
                    events,
                }
            } else {
                Run { router: RouterView::in_header(Seq::empty()), events }
            }
        } else {
            Run {
                router: RouterView::start(),
                events: emit(events, EventView::ProseChars(ticks(n as nat).push(c))),
            }
        },
        FenceState::InCode => match router.header {
            Some(line) => if c == NEWLINE {
                Run {
                    router: RouterView::in_body(),
                    events: emit(events, EventView::CodeOpen(header_of(line))),
                }
            } else {
                Run { router: RouterView::in_header(line.push(c)), events }
            },
            None => if c == BACKTICK {
                Run {
                    router: RouterView { state: FenceState::PendingClose(1), header: None },
                    events,
                }
            } else {
                Run { router, events: emit(events, EventView::CodeChars(seq![c])) }
            },
        },
        FenceState::PendingClose(n) => if c == BACKTICK {
            if n < 2 {
                Run {
                    router: RouterView {
                        state: FenceState::PendingClose((n + 1) as u8),
                        header: None,
                    },
                    events,
                }
            } else {
                Run { router: RouterView::start(), events: emit(events, EventView::CodeClose) }
            }
        } else {
            Run {
                router: RouterView::in_body(),
                events: emit(events, EventView::CodeChars(ticks(n as nat).push(c))),
            }
        },
    }
}

/// The characters of `text`, one [`step`] each, in order.
pub open spec fn run_chars(run: Run, text: Seq<char>) -> Run
    decreases text.len(),
{
    if text.len() == 0 {
        run
    } else {
        step(run_chars(run, text.drop_last()), text.last())
    }
}

/// What feeding one fragment does: the router afterwards, and the events of
/// this fragment alone.
pub open spec fn feed_spec(router: RouterView, fragment: Seq<char>) -> Run {
    run_chars(Run { router, events: Seq::empty() }, fragment)
}

/// What the end of the stream releases. Outside plain prose the stream is
/// malformed: that is reported first, and whatever was held back follows as
/// prose, so that no character is lost.
pub open spec fn finish_spec(router: RouterView) -> Seq<EventView> {
    match router.state {
        FenceState::Prose => Seq::empty(),
        FenceState::PendingOpen(_) => seq![
            EventView::Malformed(Malformation::PartialFence),
            EventView::ProseChars(router.held()),
        ],
        FenceState::InCode => match router.header {
            Some(_) => seq![
                EventView::Malformed(Malformation::UnterminatedHeader),
                EventView::ProseChars(router.held()),
            ],
            None => seq![EventView::Malformed(Malformation::UnterminatedCode)],
        },
        FenceState::PendingClose(_) => seq![
            EventView::Malformed(Malformation::UnterminatedCode),
            EventView::ProseChars(router.held()),
        ],
    }
}

/// The value of a router with these parts.
spec fn view_of(state: FenceState, header: Option<String>) -> RouterView {
    RouterView {
        state,
        header: match header {
            Some(line) => Some(line@),
            None => None,
        },
    }
}

impl View for Router {
    type V = RouterView;

    closed spec fn view(&self) -> RouterView {
        view_of(self.state, self.header)
    }
}

/// The run that a router with these parts and these events stands for.
spec fn run_of(state: FenceState, header: Option<String>, events: &Vec<Event>) -> Run {
    Run { router: view_of(state, header), events: events.deep_view() }
}

/// Text of one kind: `n` backticks followed by `c`.
fn released(n: u8, c: char) -> (text: String)
    ensures
        text@ == ticks(n as nat).push(c),
{
    let mut text = String::new();
    push_ticks(&mut text, n);
    text.push(c);
    assert(text@ =~= ticks(n as nat).push(c));
    text
}

/// Takes one character: [`step`] on the parts of a router.
fn advance(state: FenceState, header: Option<String>, events: &mut Vec<Event>, c: char) -> (next: (
    FenceState,
    Option<String>,
))
    requires
        view_of(state, header).wf(),
    ensures
        view_of(next.0, next.1).wf(),
        view_of(next.0, next.1) == step(run_of(state, header, old(events)), c).router,
        final(events).deep_view() == step(run_of(state, header, old(events)), c).events,
{
    match state {
        FenceState::Prose => {
            if c == BACKTICK {
                (FenceState::PendingOpen(1), None)
            } else {
                crate::event::emit_event(events, Event::ProseChars(released(0, c)));
                assert(ticks(0).push(c) =~= seq![c]);
                (FenceState::Prose, None)
            }
        },
        FenceState::PendingOpen(n) => {
            if c == BACKTICK {
                if n < 2 {
                    (FenceState::PendingOpen(n + 1), None)
                } else {
                    (FenceState::InCode, Some(String::new()))
                }
            } else {
                crate::event::emit_event(events, Event::ProseChars(released(n, c)));
                (FenceState::Prose, None)
            }
        },
        FenceState::InCode => {
            match header {
                Some(mut line) => {
                    if c == NEWLINE {
                        let parsed = parse_header(line.as_str());
                        crate::event::emit_event(events, Event::CodeOpen(parsed));
                        (FenceState::InCode, None)
                    } else {
                        line.push(c);
                        (FenceState::InCode, Some(line))
                    }
                },
                None => {
                    if c == BACKTICK {
                        (FenceState::PendingClose(1), None)
                    } else {
                        crate::event::emit_event(events, Event::CodeChars(released(0, c)));
                        assert(ticks(0).push(c) =~= seq![c]);
                        (FenceState::InCode, None)
                    }
                },
            }
        },
        FenceState::PendingClose(n) => {
            if c == BACKTICK {
                if n < 2 {
                    (FenceState::PendingClose(n + 1), None)
                } else {
                    crate::event::emit_event(events, Event::CodeClose);
                    (FenceState::Prose, None)
                }
            } else {
                crate::event::emit_event(events, Event::CodeChars(released(n, c)));
                (FenceState::InCode, None)
            }
        },
    }
}

impl Router {
    #[verifier::type_invariant]
    spec fn inv(self) -> bool {
        view_of(self.state, self.header).wf()
    }

    /// A router at the start of a stream.
    pub fn new() -> (router: Router)
        ensures
            router@ == RouterView::start(),
            router@.wf(),
    {
        Router { state: FenceState::Prose, header: None }
    }

    /// Where the router stands.
    pub fn state(&self) -> (state: FenceState)
        ensures
            state == self@.state,
            self@.wf(),
    {
        proof {
            use_type_invariant(self);
        }
        self.state
    }

    /// Takes the next fragment of the stream and returns the events that it
    /// completes, in order. Neighbouring text of one kind comes as one event.
    pub fn feed(&mut self, fragment: &str) -> (events: Vec<Event>)
        ensures
            final(self)@.wf(),
            final(self)@ == feed_spec(old(self)@, fragment@).router,
            events.deep_view() == feed_spec(old(self)@, fragment@).events,
    {
        proof {
            use_type_invariant(&*self);
        }
        let mut events: Vec<Event> = Vec::new();
        let mut state = self.state;
        let mut header: Option<String> = None;
        std::mem::swap(&mut header, &mut self.header);
        let ghost start = view_of(state, header);
        assert(events.deep_view() =~= Seq::<EventView>::empty());
        for c in it: fragment.chars()
            invariant
                it.seq() == fragment@,
                view_of(state, header).wf(),
                run_of(state, header, &events) == feed_spec(
                    start,
                    fragment@.take(it.index() as int),
                ),
        {
            let ghost i = it.index() as int;
            assert(fragment@.take(i + 1).drop_last() =~= fragment@.take(i));
            let next = advance(state, header, &mut events, c);
            state = next.0;
            header = next.1;
        }
        assert(fragment@.take(fragment@.len() as int) =~= fragment@);
        *self = Router { state, header };
        events
    }

    /// Ends the stream. Whatever the router still holds is released as
    /// prose, after a report that says in what way the stream was cut short;
    /// a stream that ends in plain prose releases nothing. The router is
    /// then ready for the next stream.
    pub fn finish(&mut self) -> (events: Vec<Event>)
        ensures
            events.deep_view() == finish_spec(old(self)@),
            final(self)@ == RouterView::start(),
    {
        proof {
            use_type_invariant(&*self);
        }
        let mut events: Vec<Event> = Vec::new();
        let state = self.state;
        let mut header: Option<String> = None;
        std::mem::swap(&mut header, &mut self.header);
        let ghost router = view_of(state, header);
        match state {
            FenceState::Prose => {},
            FenceState::PendingOpen(n) => {
                let mut text = String::new();
                push_ticks(&mut text, n);
                events.push(Event::Malformed(Malformation::PartialFence));
                events.push(Event::ProseChars(text));
            },
            FenceState::InCode => {
                match header {
                    Some(line) => {
                        let mut text = String::new();
                        push_ticks(&mut text, 3);
                        crate::text::push_all(&mut text, line.as_str());
                        events.push(Event::Malformed(Malformation::UnterminatedHeader));
                        events.push(Event::ProseChars(text));
                    },
                    None => {
                        events.push(Event::Malformed(Malformation::UnterminatedCode));
                    },
                }
            },
            FenceState::PendingClose(n) => {
                let mut text = String::new();
                push_ticks(&mut text, n);
                events.push(Event::Malformed(Malformation::UnterminatedCode));
                events.push(Event::ProseChars(text));
            },
        }
        assert(events.deep_view() =~= finish_spec(router));
        *self = Router { state: FenceState::Prose, header: None };
        events
    }
}

} // verus!
