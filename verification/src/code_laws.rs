//! What holds of the snippet queue, alone and behind the router.
use vstd::prelude::*;
use crate::code_assistant::{
    choice_of, ActionView, Choice, CodeAssistantView, ReplyView, SnippetView,
};
use crate::event::{absorb, code_of, emit, lemma_emit_keeps_text, EventView};
use crate::header::header_of;
use crate::router::{feed_spec, run_chars, step, FenceState, RouterView, Run};
use crate::router_laws::{
    block, block_events, feed_each, lemma_fenced_block, lemma_fragments_do_not_matter,
    lemma_run_chars_wf,
};
use crate::text::{concat, fence_free, ticks, trailing_ticks, BACKTICK, NEWLINE};

verus! {

/// The assistant after all of `events`, in order.
pub open spec fn accept_all(assistant: CodeAssistantView, events: Seq<EventView>) -> CodeAssistantView
    decreases events.len(),
{
    if events.len() == 0 {
        assistant
    } else {
        accept_all(assistant, events.drop_last()).accept(events.last())
    }
}

/// The assistant after `n` decisions that were each answered with
/// [`ReplyView::Next`].
pub open spec fn after_next(assistant: CodeAssistantView, n: nat) -> CodeAssistantView
    decreases n,
{
    if n == 0 {
        assistant
    } else {
        after_next(assistant, (n - 1) as nat).drain(ReplyView::Next).0
    }
}

/// Every snippet of `queue` names a file.
pub open spec fn all_named(queue: Seq<SnippetView>) -> bool {
    forall|i: int| 0 <= i < queue.len() ==> (#[trigger] queue[i]).header.filename is Some
}

/// Whether text comes as one event or joined from two makes no difference
/// to the assistant.
pub proof fn lemma_accept_emit(
    assistant: CodeAssistantView,
    events: Seq<EventView>,
    event: EventView,
)
    ensures
        accept_all(assistant, emit(events, event)) == accept_all(assistant, events).accept(event),
{
    if events.len() == 0 {
        assert(events.push(event).drop_last() =~= events);
    } else {
        let init = events.drop_last();
        let so_far = accept_all(assistant, init);
        match (events.last(), event) {
            (EventView::ProseChars(a), EventView::ProseChars(b)) => {
                let joined = init.push(EventView::ProseChars(a + b));
                assert(joined.drop_last() =~= init);
            },
            (EventView::CodeChars(a), EventView::CodeChars(b)) => {
                let joined = init.push(EventView::CodeChars(a + b));
                assert(joined.drop_last() =~= init);
                match so_far.current {
                    Some(snippet) => {
                        assert(snippet.body + (a + b) =~= snippet.body + a + b);
                    },
                    None => {},
                }
            },
            _ => {
                assert(events.push(event).drop_last() =~= events);
            },
        }
    }
}

/// Taking the events of two fragments one list after the other gives what
/// taking them joined gives.
pub proof fn lemma_accept_absorb(
    assistant: CodeAssistantView,
    events: Seq<EventView>,
    more: Seq<EventView>,
)
    ensures
        accept_all(assistant, absorb(events, more)) == accept_all(
            accept_all(assistant, events),
            more,
        ),
    decreases more.len(),
{
    if more.len() > 0 {
        lemma_accept_absorb(assistant, events, more.drop_last());
        lemma_accept_emit(assistant, absorb(events, more.drop_last()), more.last());
    }
}

/// The events of a fenced block, taken with no block open, queue exactly
/// one snippet: the header of the block's first line and its body,
/// character for character.
pub proof fn lemma_block_events_queue_one_snippet(
    assistant: CodeAssistantView,
    line: Seq<char>,
    body: Seq<char>,
)
    requires
        assistant.current is None,
    ensures
        accept_all(assistant, block_events(line, body)) == assistant.enqueue(
            (SnippetView { header: header_of(line), body }),
        ),
{
    reveal_with_fuel(accept_all, 4);
    let events = block_events(line, body);
    let open = EventView::CodeOpen(header_of(line));
    if body.len() == 0 {
        assert(events =~= seq![open, EventView::CodeClose]);
        assert(events.drop_last() =~= seq![open]);
        assert(events.drop_last().drop_last() =~= Seq::<EventView>::empty());
        assert(body =~= Seq::<char>::empty());
    } else {
        assert(events =~= seq![open, EventView::CodeChars(body), EventView::CodeClose]);
        assert(events.drop_last() =~= seq![open, EventView::CodeChars(body)]);
        assert(events.drop_last().drop_last() =~= seq![open]);
        assert(events.drop_last().drop_last().drop_last() =~= Seq::<EventView>::empty());
        assert(Seq::<char>::empty() + body =~= body);
    }
}

/// From the stream to the queue: however a fenced block is cut into
/// fragments, routing it and handing every event to an empty assistant
/// queues exactly one snippet, with the header of the block's first line and
/// with the body unchanged, and leaves the router in prose.
pub proof fn lemma_block_in_any_fragments(
    fragments: Seq<Seq<char>>,
    line: Seq<char>,
    body: Seq<char>,
)
    requires
        concat(fragments) == block(line, body),
        !line.contains(NEWLINE),
        fence_free(body),
        trailing_ticks(body) == 0,
    ensures
        feed_each(RouterView::start(), fragments).router == RouterView::start(),
        feed_each(RouterView::start(), fragments).events == block_events(line, body),
        accept_all(CodeAssistantView::empty(), feed_each(RouterView::start(), fragments).events)
            == CodeAssistantView::empty().enqueue((SnippetView { header: header_of(line), body })),
{
    lemma_fragments_do_not_matter(RouterView::start(), fragments);
    lemma_fenced_block(line, body);
    lemma_block_events_queue_one_snippet(CodeAssistantView::empty(), line, body);
}

/// Snippets that name a file leave the queue oldest first, and each is
/// written to the file it names with its body unchanged; after the last one
/// draining has finished. Two equal snippets give two equal writes.
pub proof fn lemma_named_snippets_are_written_in_order(assistant: CodeAssistantView, n: nat)
    requires
        assistant.pending is Nothing,
        all_named(assistant.queue),
        n <= assistant.queue.len(),
    ensures
        after_next(assistant, n).queue == assistant.queue.skip(n as int),
        after_next(assistant, n).current == assistant.current,
        after_next(assistant, n).pending is Nothing,
        n < assistant.queue.len() ==> after_next(assistant, n).drain(ReplyView::Next).1 == (
            ActionView::Write {
                filename: assistant.queue[n as int].header.filename->0,
                contents: assistant.queue[n as int].body
            }
        ),
        n == assistant.queue.len() ==> after_next(assistant, n).drain(ReplyView::Next).1
            == ActionView::Finished,
    decreases n,
{
    if n == 0 {
        assert(assistant.queue.skip(0) =~= assistant.queue);
    } else {
        let m = (n - 1) as nat;
        lemma_named_snippets_are_written_in_order(assistant, m);
        let before = after_next(assistant, m);
        assert(before.queue.first() == assistant.queue[m as int]);
        assert(before.queue.drop_first() =~= assistant.queue.skip(n as int));
    }
    let now = after_next(assistant, n);
    if n < assistant.queue.len() {
        assert(now.queue.first() == assistant.queue[n as int]);
    }
}

/// A snippet that names no file and that the operator sends to the shell is
/// handed out as a command, body unchanged. When the command fails, draining
/// halts with its exit code, and every snippet that was queued behind it is
/// still queued.
pub proof fn lemma_failed_command_halts(
    assistant: CodeAssistantView,
    answer: Seq<char>,
    code: i32,
)
    requires
        assistant.pending is Nothing,
        assistant.queue.len() > 0,
        assistant.queue.first().header.filename is None,
        choice_of(answer) == Choice::Shell,
        code != 0,
    ensures
        ({
            let asked = assistant.drain(ReplyView::Next);
            let run = asked.0.drain(ReplyView::Answer(answer));
            let halted = run.0.drain(ReplyView::Exit(code));
            &&& asked.1 == ActionView::AskChoice
            &&& run.1 == (ActionView::Execute { command: assistant.queue.first().body })
            &&& halted.1 == (ActionView::Halt { exit_code: code })
            &&& halted.0.queue == assistant.queue.drop_first()
            &&& halted.0.current == assistant.current
            &&& halted.0.pending is Nothing
        }),
{
}

/// An answer that is neither `file` nor `shell` settles nothing: the same
/// question is put again, and the assistant is as it was.
pub proof fn lemma_other_answers_ask_again(assistant: CodeAssistantView, answer: Seq<char>)
    requires
        assistant.pending is Choice,
        choice_of(answer) == Choice::Drop,
    ensures
        assistant.drain(ReplyView::Answer(answer)) == (assistant, ActionView::AskChoice),
{
}

/// With a question open and the console closed, draining fails at once
/// instead of asking for ever.
pub proof fn lemma_closed_console_fails(assistant: CodeAssistantView)
    requires
        assistant.pending is Choice || assistant.pending is Filename,
    ensures
        assistant.drain(ReplyView::ConsoleClosed).1 is Fail,
        assistant.drain(ReplyView::ConsoleClosed).0 == assistant,
{
}

/// The router is reading the body of a code block.
pub open spec fn in_block_body(router: RouterView) -> bool {
    match router.state {
        FenceState::InCode => router.header is None,
        FenceState::PendingClose(_) => true,
        _ => false,
    }
}

/// The bodies of the snippets of `queue`, end to end.
pub open spec fn bodies(queue: Seq<SnippetView>) -> Seq<char>
    decreases queue.len(),
{
    if queue.len() == 0 {
        Seq::empty()
    } else {
        bodies(queue.drop_last()) + queue.last().body
    }
}

/// All code that the assistant holds: the bodies of the queued snippets,
/// followed by the body of the snippet being gathered.
pub open spec fn gathered(assistant: CodeAssistantView) -> Seq<char> {
    match assistant.current {
        Some(snippet) => bodies(assistant.queue) + snippet.body,
        None => bodies(assistant.queue),
    }
}

/// The assistant is in step with the router: it gathers a snippet exactly
/// while the router reads the body of a block, and it holds every character
/// of code text that the router has emitted.
pub open spec fn in_step(run: Run, assistant: CodeAssistantView) -> bool {
    let now = accept_all(assistant, run.events);
    &&& now.current is Some <==> in_block_body(run.router)
    &&& gathered(now) == gathered(assistant) + code_of(run.events)
}

/// One character keeps the assistant in step with the router.
proof fn lemma_step_keeps_in_step(run: Run, assistant: CodeAssistantView, c: char)
    requires
        run.router.wf(),
        in_step(run, assistant),
    ensures
        in_step(step(run, c), assistant),
{
    let before = accept_all(assistant, run.events);
    let next = step(run, c);
    let first = gathered(assistant);
    let code = code_of(run.events);
    reveal_with_fuel(code_of, 2);
    if next.events != run.events {
        let event: EventView = match run.router.state {
            FenceState::Prose => EventView::ProseChars(seq![c]),
            FenceState::PendingOpen(n) => EventView::ProseChars(ticks(n as nat).push(c)),
            FenceState::InCode => match run.router.header {
                Some(line) => EventView::CodeOpen(header_of(line)),
                None => EventView::CodeChars(seq![c]),
            },
            FenceState::PendingClose(n) => if c == BACKTICK {
                EventView::CodeClose
            } else {
                EventView::CodeChars(ticks(n as nat).push(c))
            },
        };
        assert(next.events == emit(run.events, event));
        lemma_accept_emit(assistant, run.events, event);
        lemma_emit_keeps_text(run.events, event);
        let plain = run.events.push(event);
        assert(plain.drop_last() =~= run.events);
        let after = before.accept(event);
        match event {
            EventView::CodeChars(text) => {
                assert(gathered(after) =~= gathered(before) + text);
                assert(first + code + text =~= first + (code + text));
            },
            EventView::CodeOpen(header) => {
                assert(after.queue == before.queue);
                assert(bodies(before.queue) + Seq::<char>::empty() =~= bodies(before.queue));
            },
            EventView::CodeClose => {
                assert(after.queue.drop_last() =~= before.queue);
            },
            _ => {},
        }
    }
}

/// Whatever text comes, the assistant stays in step with the router.
pub proof fn lemma_assistant_stays_in_step(run: Run, assistant: CodeAssistantView, text: Seq<char>)
    requires
        run.router.wf(),
        in_step(run, assistant),
    ensures
        in_step(run_chars(run, text), assistant),
    decreases text.len(),
{
    if text.len() > 0 {
        lemma_assistant_stays_in_step(run, assistant, text.drop_last());
        lemma_run_chars_wf(run, text.drop_last());
        lemma_step_keeps_in_step(run_chars(run, text.drop_last()), assistant, text.last());
    }
}

/// No code is lost between the stream and the queue. When every event of a
/// stream is handed to an empty assistant, the bodies of its snippets, end
/// to end, are exactly the code text that the router emitted, and a snippet
/// is being gathered exactly if the stream has ended inside the body of a
/// block.
pub proof fn lemma_all_code_is_gathered(stream: Seq<char>)
    ensures
        ({
            let run = feed_spec(RouterView::start(), stream);
            let assistant = accept_all(CodeAssistantView::empty(), run.events);
            &&& gathered(assistant) == code_of(run.events)
            &&& assistant.current is Some <==> in_block_body(run.router)
        }),
{
    let first = Run { router: RouterView::start(), events: Seq::empty() };
    let empty = CodeAssistantView::empty();
    assert(gathered(empty) + code_of(first.events) =~= gathered(empty));
    lemma_assistant_stays_in_step(first, empty, stream);
    let run = feed_spec(RouterView::start(), stream);
    assert(gathered(empty) + code_of(run.events) =~= code_of(run.events));
}

} // verus!
