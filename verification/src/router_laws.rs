//! What holds of the router on every stream.
use vstd::prelude::*;
use crate::event::{absorb, lemma_absorb_emit, lemma_emit_source, source_of, EventView};
use crate::header::{header_of, lemma_header_line_round_trip};
use crate::router::{feed_spec, finish_spec, run_chars, step, FenceState, RouterView, Run};
use crate::text::{
    concat, fence_free, lemma_fence_free_prefix, lemma_fence_free_trailing, lemma_trailing_ticks,
    ticks, trailing_ticks, without_trailing_ticks, BACKTICK, NEWLINE,
};

verus! {

/// Feeding the fragments of `fragments` one after the other, and joining the
/// events of each to those before it.
pub open spec fn feed_each(router: RouterView, fragments: Seq<Seq<char>>) -> Run
    decreases fragments.len(),
{
    if fragments.len() == 0 {
        Run { router, events: Seq::empty() }
    } else {
        let before = feed_each(router, fragments.drop_last());
        let now = feed_spec(before.router, fragments.last());
        Run { router: now.router, events: absorb(before.events, now.events) }
    }
}

/// The router at rest in one of the two regions: in prose, or in the body of
/// a code block.
pub open spec fn at_rest(in_code: bool) -> RouterView {
    if in_code {
        RouterView::in_body()
    } else {
        RouterView::start()
    }
}

/// The router in one of the two regions, holding back `k` backticks.
pub open spec fn holding(in_code: bool, k: nat) -> RouterView {
    if k == 0 {
        at_rest(in_code)
    } else if in_code {
        RouterView { state: FenceState::PendingClose(k as u8), header: None }
    } else {
        RouterView { state: FenceState::PendingOpen(k as u8), header: None }
    }
}

/// `text` as the events of one region: one text event, or none for no text.
pub open spec fn text_events(in_code: bool, text: Seq<char>) -> Seq<EventView> {
    if text.len() == 0 {
        Seq::empty()
    } else if in_code {
        seq![EventView::CodeChars(text)]
    } else {
        seq![EventView::ProseChars(text)]
    }
}

/// A well-formed router stays well-formed, whatever character comes.
pub proof fn lemma_step_wf(run: Run, c: char)
    requires
        run.router.wf(),
    ensures
        step(run, c).router.wf(),
{
}

/// A well-formed router stays well-formed, whatever text comes.
pub proof fn lemma_run_chars_wf(run: Run, text: Seq<char>)
    requires
        run.router.wf(),
    ensures
        run_chars(run, text).router.wf(),
    decreases text.len(),
{
    if text.len() > 0 {
        lemma_run_chars_wf(run, text.drop_last());
    }
}

/// Where a text is cut in two makes no difference to what it does.
pub proof fn lemma_run_chars_concat(run: Run, a: Seq<char>, b: Seq<char>)
    ensures
        run_chars(run, a + b) == run_chars(run_chars(run, a), b),
    decreases b.len(),
{
    if b.len() == 0 {
        assert(a + b =~= a);
    } else {
        lemma_run_chars_concat(run, a, b.drop_last());
        assert((a + b).drop_last() =~= a + b.drop_last());
        assert((a + b).last() == b.last());
    }
}

/// The events that came before have no influence on the router, and the new
/// events are joined to them.
pub proof fn lemma_run_chars_absorb(run: Run, text: Seq<char>)
    ensures
        run_chars(run, text).router == feed_spec(run.router, text).router,
        run_chars(run, text).events == absorb(run.events, feed_spec(run.router, text).events),
    decreases text.len(),
{
    if text.len() > 0 {
        let init = text.drop_last();
        let c = text.last();
        lemma_run_chars_absorb(run, init);
        let alone = feed_spec(run.router, init);
        let joined = run_chars(run, init);
        assert(joined.router == alone.router);
        assert(joined.events == absorb(run.events, alone.events));
        lemma_step_absorb(alone.router, run.events, alone.events, c);
    }
}

/// One step emits at most one event, the same one whatever came before.
proof fn lemma_step_absorb(
    router: RouterView,
    events: Seq<EventView>,
    more: Seq<EventView>,
    c: char,
)
    ensures
        step(Run { router, events: absorb(events, more) }, c).router == step(
            Run { router, events: more },
            c,
        ).router,
        step(Run { router, events: absorb(events, more) }, c).events == absorb(
            events,
            step(Run { router, events: more }, c).events,
        ),
{
    let n = match router.state {
        FenceState::PendingOpen(n) => n,
        FenceState::PendingClose(n) => n,
        _ => 0u8,
    };
    lemma_absorb_emit(events, more, EventView::ProseChars(seq![c]));
    lemma_absorb_emit(events, more, EventView::CodeChars(seq![c]));
    lemma_absorb_emit(events, more, EventView::ProseChars(ticks(n as nat).push(c)));
    lemma_absorb_emit(events, more, EventView::CodeChars(ticks(n as nat).push(c)));
    lemma_absorb_emit(events, more, EventView::CodeClose);
    if let Some(line) = router.header {
        lemma_absorb_emit(events, more, EventView::CodeOpen(header_of(line)));
    }
}

/// However a stream is cut into fragments, the router ends where it ends on
/// the whole stream, and the events of the fragments, joined in order, are
/// the events of the whole stream.
pub proof fn lemma_fragments_do_not_matter(router: RouterView, fragments: Seq<Seq<char>>)
    ensures
        feed_each(router, fragments) == feed_spec(router, concat(fragments)),
    decreases fragments.len(),
{
    if fragments.len() == 0 {
    } else {
        let init = fragments.drop_last();
        let last = fragments.last();
        lemma_fragments_do_not_matter(router, init);
        assert(fragments =~= init.push(last));
        init.lemma_flatten_push(last);
        assert(concat(fragments) == concat(init) + last);
        let first = Run { router, events: Seq::empty() };
        lemma_run_chars_concat(first, concat(init), last);
        lemma_run_chars_absorb(feed_each(router, init), last);
    }
}

/// Two streams with the same text give the same events, however each is cut.
pub proof fn lemma_same_text_same_events(
    router: RouterView,
    one: Seq<Seq<char>>,
    other: Seq<Seq<char>>,
)
    requires
        concat(one) == concat(other),
    ensures
        feed_each(router, one) == feed_each(router, other),
{
    lemma_fragments_do_not_matter(router, one);
    lemma_fragments_do_not_matter(router, other);
}

/// One step loses no character: what the events account for, followed by
/// what the router holds back, grows by exactly the character read.
pub proof fn lemma_step_lossless(run: Run, c: char)
    requires
        run.router.wf(),
    ensures
        source_of(step(run, c).events) + step(run, c).router.held() == source_of(run.events)
            + run.router.held() + seq![c],
{
    let next = step(run, c);
    let done = source_of(run.events);
    match run.router.state {
        FenceState::Prose => {
            if c == BACKTICK {
                assert(ticks(1) =~= seq![c]);
                assert(done + ticks(1) =~= done + Seq::<char>::empty() + seq![c]);
            } else {
                lemma_emit_source(run.events, EventView::ProseChars(seq![c]));
                assert(done + seq![c] + Seq::<char>::empty() =~= done + Seq::<char>::empty()
                    + seq![c]);
            }
        },
        FenceState::PendingOpen(n) => {
            if c == BACKTICK {
                assert(ticks(n as nat) + seq![c] =~= ticks((n + 1) as nat));
                if n < 2 {
                    assert(done + ticks((n + 1) as nat) =~= done + ticks(n as nat) + seq![c]);
                } else {
                    assert(ticks(3) + Seq::<char>::empty() =~= ticks(3));
                    assert(done + ticks(3) =~= done + ticks(n as nat) + seq![c]);
                }
            } else {
                lemma_emit_source(run.events, EventView::ProseChars(ticks(n as nat).push(c)));
                assert(done + ticks(n as nat).push(c) + Seq::<char>::empty() =~= done + ticks(
                    n as nat,
                ) + seq![c]);
            }
        },
        FenceState::InCode => {
            match run.router.header {
                Some(line) => {
                    if c == NEWLINE {
                        let open = EventView::CodeOpen(header_of(line));
                        lemma_emit_source(run.events, open);
                        lemma_header_line_round_trip(line);
                        assert(open.source() == ticks(3) + line + seq![NEWLINE]);
                        assert(done + open.source() + Seq::<char>::empty() =~= done + (ticks(3)
                            + line) + seq![c]);
                    } else {
                        assert(done + (ticks(3) + line.push(c)) =~= done + (ticks(3) + line)
                            + seq![c]);
                    }
                },
                None => {
                    if c == BACKTICK {
                        assert(ticks(1) =~= seq![c]);
                        assert(done + ticks(1) =~= done + Seq::<char>::empty() + seq![c]);
                    } else {
                        lemma_emit_source(run.events, EventView::CodeChars(seq![c]));
                        assert(done + seq![c] + Seq::<char>::empty() =~= done + Seq::<
                            char,
                        >::empty() + seq![c]);
                    }
                },
            }
        },
        FenceState::PendingClose(n) => {
            if c == BACKTICK {
                assert(ticks(n as nat) + seq![c] =~= ticks((n + 1) as nat));
                if n < 2 {
                    assert(done + ticks((n + 1) as nat) =~= done + ticks(n as nat) + seq![c]);
                } else {
                    lemma_emit_source(run.events, EventView::CodeClose);
                    assert(done + ticks(3) + Seq::<char>::empty() =~= done + ticks(n as nat)
                        + seq![c]);
                }
            } else {
                lemma_emit_source(run.events, EventView::CodeChars(ticks(n as nat).push(c)));
                assert(done + ticks(n as nat).push(c) + Seq::<char>::empty() =~= done + ticks(
                    n as nat,
                ) + seq![c]);
            }
        },
    }
}

/// No text is lost: what the events account for, followed by what the
/// router holds back, grows by exactly the text read.
pub proof fn lemma_run_chars_lossless(run: Run, text: Seq<char>)
    requires
        run.router.wf(),
    ensures
        source_of(run_chars(run, text).events) + run_chars(run, text).router.held() == source_of(
            run.events,
        ) + run.router.held() + text,
    decreases text.len(),
{
    let before = source_of(run.events) + run.router.held();
    if text.len() == 0 {
        assert(before + text =~= before);
    } else {
        let init = text.drop_last();
        lemma_run_chars_lossless(run, init);
        lemma_run_chars_wf(run, init);
        lemma_step_lossless(run_chars(run, init), text.last());
        assert(before + init + seq![text.last()] =~= before + text);
    }
}

/// What the end of the stream releases accounts for exactly what the router
/// held back.
pub proof fn lemma_finish_releases_held(router: RouterView)
    requires
        router.wf(),
    ensures
        source_of(finish_spec(router)) == router.held(),
{
    reveal_with_fuel(source_of, 3);
    let released = finish_spec(router);
    if released.len() == 2 {
        assert(released.drop_last().drop_last() =~= Seq::<EventView>::empty());
        assert(source_of(released) =~= router.held());
    } else if released.len() == 1 {
        assert(released.drop_last() =~= Seq::<EventView>::empty());
        assert(source_of(released) =~= router.held());
    }
}

/// A whole stream, fed from the start and then finished, is accounted for
/// character by character: the transcript is never lossy.
pub proof fn lemma_stream_is_accounted_for(stream: Seq<char>)
    ensures
        source_of(feed_spec(RouterView::start(), stream).events) + source_of(
            finish_spec(feed_spec(RouterView::start(), stream).router),
        ) == stream,
{
    let first = Run { router: RouterView::start(), events: Seq::empty() };
    lemma_run_chars_lossless(first, stream);
    lemma_run_chars_wf(first, stream);
    lemma_finish_releases_held(feed_spec(RouterView::start(), stream).router);
    assert(source_of(first.events) + first.router.held() + stream =~= stream);
}

/// Text without a fence never leaves its region. In prose it comes out as
/// prose and opens no block; in the body of a block it comes out as code
/// and does not close the block, whatever single or double backticks it
/// holds. Only the backticks at its very end are held back.
pub proof fn lemma_fence_free_text_stays(in_code: bool, text: Seq<char>)
    requires
        fence_free(text),
    ensures
        trailing_ticks(text) <= 2,
        feed_spec(at_rest(in_code), text).router == holding(in_code, trailing_ticks(text)),
        feed_spec(at_rest(in_code), text).events == text_events(
            in_code,
            without_trailing_ticks(text),
        ),
    decreases text.len(),
{
    lemma_fence_free_trailing(text);
    lemma_trailing_ticks(text);
    if text.len() == 0 {
        assert(without_trailing_ticks(text) =~= Seq::<char>::empty());
    } else {
        let init = text.drop_last();
        let c = text.last();
        assert(init =~= text.take(text.len() - 1));
        lemma_fence_free_prefix(text, text.len() - 1);
        lemma_fence_free_text_stays(in_code, init);
        lemma_trailing_ticks(init);
        let k = trailing_ticks(init);
        let body = without_trailing_ticks(init);
        let before = feed_spec(at_rest(in_code), init);
        if c == BACKTICK {
            assert(without_trailing_ticks(text) =~= body);
        } else {
            assert(without_trailing_ticks(text) =~= text);
            assert(text =~= init.push(c));
            assert(text =~= body + ticks(k).push(c));
            assert(ticks(0).push(c) =~= seq![c]);
            if body.len() == 0 {
                assert(text =~= ticks(k).push(c));
            } else {
                assert(before.events.drop_last() =~= Seq::<EventView>::empty());
            }
        }
    }
}

/// Until its newline comes, a header line is gathered and nothing is
/// emitted, whatever the line holds.
pub proof fn lemma_header_line_is_gathered(line: Seq<char>, more: Seq<char>)
    requires
        !more.contains(NEWLINE),
    ensures
        feed_spec(RouterView::in_header(line), more).router == RouterView::in_header(line + more),
        feed_spec(RouterView::in_header(line), more).events == Seq::<EventView>::empty(),
    decreases more.len(),
{
    if more.len() == 0 {
        assert(line + more =~= line);
    } else {
        let init = more.drop_last();
        if init.contains(NEWLINE) {
            let i = choose|i: int| 0 <= i < init.len() && init[i] == NEWLINE;
            assert(more[i] == NEWLINE);
        }
        lemma_header_line_is_gathered(line, init);
        assert(more[more.len() - 1] != NEWLINE);
        assert((line + init).push(more.last()) =~= line + more);
    }
}

/// Three characters are three steps.
proof fn lemma_run_three(run: Run, a: char, b: char, c: char)
    ensures
        run_chars(run, seq![a, b, c]) == step(step(step(run, a), b), c),
{
    reveal_with_fuel(run_chars, 4);
    let s3 = seq![a, b, c];
    assert(s3.drop_last() =~= seq![a, b]);
    assert(s3.drop_last().drop_last() =~= seq![a]);
    assert(s3.drop_last().drop_last().drop_last() =~= Seq::<char>::empty());
}

/// In the body of a block a run of backticks closes the block at its third
/// backtick, without waiting for the end of the run. A fourth and a fifth
/// backtick are held back in prose, where they may begin the next fence.
pub proof fn lemma_run_of_ticks_closes_at_three(extra: nat)
    requires
        extra <= 2,
    ensures
        feed_spec(RouterView::in_body(), ticks(3 + extra)).router == holding(false, extra),
        feed_spec(RouterView::in_body(), ticks(3 + extra)).events == seq![EventView::CodeClose],
{
    let first = Run { router: RouterView::in_body(), events: Seq::empty() };
    let fence = ticks(3);
    let rest = ticks(extra);
    assert(fence =~= seq![BACKTICK, BACKTICK, BACKTICK]);
    assert(ticks(3 + extra) =~= fence + rest);
    lemma_run_three(first, BACKTICK, BACKTICK, BACKTICK);
    lemma_run_chars_concat(first, fence, rest);
    let closed = run_chars(first, fence);
    assert(closed.router == RouterView::start());
    assert(closed.events =~= seq![EventView::CodeClose]);
    lemma_run_chars_absorb(closed, rest);
    assert forall|i: int| !#[trigger] crate::text::fence_at(rest, i) by {}
    lemma_fence_free_text_stays(false, rest);
    reveal_with_fuel(trailing_ticks, 3);
    if extra >= 1 {
        assert(rest.drop_last() =~= ticks((extra - 1) as nat));
        if extra == 2 {
            assert(rest.drop_last().drop_last() =~= ticks(0));
        }
    }
    assert(trailing_ticks(rest) == extra);
    assert(without_trailing_ticks(rest) =~= Seq::<char>::empty());
}

/// A fenced code block as it stands in a stream: the opening fence, the
/// header line, a newline, the body, the closing fence.
pub open spec fn block(line: Seq<char>, body: Seq<char>) -> Seq<char> {
    ticks(3) + line + seq![NEWLINE] + body + ticks(3)
}

/// The events of a fenced code block: its opening with the parsed header,
/// its body as one piece of code text (none for an empty body), its closing.
pub open spec fn block_events(line: Seq<char>, body: Seq<char>) -> Seq<EventView> {
    seq![EventView::CodeOpen(header_of(line))] + text_events(true, body) + seq![
        EventView::CodeClose,
    ]
}

/// A fenced code block in prose comes out as exactly one opening with the
/// header of its first line, its body unchanged, and one closing; no
/// character of the fences or of the header line comes out as prose, and
/// the router is back in prose. The body may hold backticks, as long as no
/// three stand in a row and none stands at its very end.
pub proof fn lemma_fenced_block(line: Seq<char>, body: Seq<char>)
    requires
        !line.contains(NEWLINE),
        fence_free(body),
        trailing_ticks(body) == 0,
    ensures
        feed_spec(RouterView::start(), block(line, body)).router == RouterView::start(),
        feed_spec(RouterView::start(), block(line, body)).events == block_events(line, body),
{
    let none = Seq::<EventView>::empty();
    let first = Run { router: RouterView::start(), events: none };
    let fence = ticks(3);
    assert(fence =~= seq![BACKTICK, BACKTICK, BACKTICK]);
    // the opening fence
    lemma_run_three(first, BACKTICK, BACKTICK, BACKTICK);
    let opened = run_chars(first, fence);
    assert(opened.router == RouterView::in_header(Seq::empty()));
    assert(opened.events == none);
    // the header line
    lemma_run_chars_concat(first, fence, line);
    lemma_header_line_is_gathered(Seq::empty(), line);
    assert(Seq::<char>::empty() + line =~= line);
    let headed = run_chars(first, fence + line);
    assert(headed.router == RouterView::in_header(line));
    assert(headed.events == none);
    // the newline
    lemma_run_chars_concat(first, fence + line, seq![NEWLINE]);
    assert(seq![NEWLINE].drop_last() =~= Seq::<char>::empty());
    reveal_with_fuel(run_chars, 2);
    let begun = run_chars(first, fence + line + seq![NEWLINE]);
    assert(begun == step(headed, NEWLINE));
    let open = seq![EventView::CodeOpen(header_of(line))];
    assert(begun.events =~= open);
    assert(begun.router == RouterView::in_body());
    // the body
    lemma_run_chars_concat(first, fence + line + seq![NEWLINE], body);
    lemma_run_chars_absorb(begun, body);
    lemma_fence_free_text_stays(true, body);
    lemma_trailing_ticks(body);
    assert(without_trailing_ticks(body) =~= body);
    let filled = run_chars(first, fence + line + seq![NEWLINE] + body);
    assert(filled.router == RouterView::in_body());
    assert(filled.events == absorb(open, text_events(true, body)));
    if body.len() == 0 {
        assert(filled.events =~= open + text_events(true, body));
    } else {
        assert(text_events(true, body).drop_last() =~= none);
        assert(absorb(open, none) == open);
        assert(filled.events =~= open + text_events(true, body));
    }
    // the closing fence
    lemma_run_chars_concat(first, fence + line + seq![NEWLINE] + body, fence);
    lemma_run_three(filled, BACKTICK, BACKTICK, BACKTICK);
    let closed = run_chars(first, block(line, body));
    assert(closed.router == RouterView::start());
    assert(closed.events =~= block_events(line, body));
}

} // verus!
