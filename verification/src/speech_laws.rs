//! What holds of the sentence buffer over a whole stream.
use vstd::prelude::*;
use crate::event::{prose_of, EventView};
use crate::text::concat;
use crate::tts_assistant::{is_boundary, TtsAssistantView};

verus! {

/// The text of a job, or no text where there is no job.
pub open spec fn spoken(job: Option<Seq<char>>) -> Seq<char> {
    match job {
        Some(text) => text,
        None => Seq::empty(),
    }
}

/// One job at a time: while the engine is busy no job is handed out,
/// whatever the token, and no sentence that waits is given up.
pub proof fn lemma_busy_engine_gets_no_job(assistant: TtsAssistantView, token: Seq<char>)
    ensures
        assistant.process_token(token, true).1 is None,
        assistant.sentences.is_prefix_of(assistant.process_token(token, true).0.sentences),
{
    let next = assistant.process_token(token, true).0;
    if is_boundary(token) {
        assert(next.sentences.take(assistant.sentences.len() as int) =~= assistant.sentences);
    } else {
        assert(next.sentences.take(assistant.sentences.len() as int) =~= assistant.sentences);
    }
}

/// Sentences that are sealed while the engine is busy wait, and leave
/// together: when the next sentence is sealed with the engine free, one job
/// carries everything that waited, followed by that sentence, in order.
pub proof fn lemma_busy_sentences_leave_together(
    assistant: TtsAssistantView,
    first: Seq<char>,
    second: Seq<char>,
    third: Seq<char>,
)
    requires
        is_boundary(first),
        is_boundary(second),
        is_boundary(third),
    ensures
        ({
            let one = assistant.process_token(first, true);
            let two = one.0.process_token(second, true);
            let three = two.0.process_token(third, false);
            &&& one.1 is None
            &&& two.1 is None
            &&& two.0.sentences == assistant.sentences.push(assistant.buffer + first).push(second)
            &&& three.1 == Some(concat(assistant.sentences) + assistant.buffer + first + second + third)
            &&& three.0 == TtsAssistantView::empty()
        }),
{
    let one = assistant.process_token(first, true);
    let two = one.0.process_token(second, true);
    let three = two.0.process_token(third, false);
    let s1 = assistant.buffer + first;
    assert(Seq::<char>::empty() + second =~= second);
    assert(Seq::<char>::empty() + third =~= third);
    assistant.sentences.lemma_flatten_push(s1);
    assistant.sentences.push(s1).lemma_flatten_push(second);
    assistant.sentences.push(s1).push(second).lemma_flatten_push(third);
    assert(concat(assistant.sentences) + s1 + second + third =~= concat(assistant.sentences)
        + assistant.buffer + first + second + third);
}

/// A token loses no prose and changes no order: the job that leaves, then
/// the sentences that wait, then the sentence being gathered, are what
/// waited and was gathered before, followed by the token.
pub proof fn lemma_token_keeps_all_prose(assistant: TtsAssistantView, token: Seq<char>, busy: bool)
    ensures
        ({
            let next = assistant.process_token(token, busy);
            spoken(next.1) + concat(next.0.sentences) + next.0.buffer == concat(assistant.sentences)
                + assistant.buffer + token
        }),
{
    let next = assistant.process_token(token, busy);
    let before = concat(assistant.sentences);
    let text = assistant.buffer + token;
    assistant.sentences.lemma_flatten_push(text);
    assert(concat(Seq::<Seq<char>>::empty()) =~= Seq::<char>::empty());
    assert(before + text =~= before + assistant.buffer + token);
    if is_boundary(token) {
        if busy {
            assert(Seq::<char>::empty() + (before + text) + Seq::<char>::empty() =~= before + text);
        } else {
            assert((before + text) + Seq::<char>::empty() + Seq::<char>::empty() =~= before + text);
        }
    } else {
        assert(Seq::<char>::empty() + before + text =~= before + text);
    }
}

/// The end of the stream loses no prose: the jobs that leave are, end to
/// end, the sentences that waited followed by what was left of a sentence.
pub proof fn lemma_flush_keeps_all_prose(assistant: TtsAssistantView)
    ensures
        concat(assistant.flush()) == concat(assistant.sentences) + assistant.buffer,
{
    if assistant.buffer.len() > 0 {
        assistant.sentences.lemma_flatten_push(assistant.buffer);
    } else {
        assert(concat(assistant.sentences) + assistant.buffer =~= concat(assistant.sentences));
    }
}

/// A token that neither begins nor ends with a boundary mark seals nothing,
/// whatever marks stand inside it.
pub proof fn lemma_inner_marks_seal_nothing(assistant: TtsAssistantView, token: Seq<char>, busy: bool)
    requires
        !is_boundary(token),
    ensures
        assistant.process_token(token, busy).1 is None,
        assistant.process_token(token, busy).0.sentences == assistant.sentences,
        assistant.process_token(token, busy).0.buffer == assistant.buffer + token,
{
}

/// An assistant together with all that it has handed out to be spoken.
pub struct Hearing {
    pub assistant: TtsAssistantView,
    pub said: Seq<char>,
}

/// One event of the router: prose goes to the assistant as one token, and
/// the job that leaves, if one does, is spoken. Other events are not for it.
pub open spec fn hear(hearing: Hearing, event: EventView, busy: bool) -> Hearing {
    match event {
        EventView::ProseChars(text) => {
            let next = hearing.assistant.process_token(text, busy);
            Hearing { assistant: next.0, said: hearing.said + spoken(next.1) }
        },
        _ => hearing,
    }
}

/// All of `events`, in order; `busy(i)` says whether the engine is busy
/// when event `i` arrives.
pub open spec fn hear_all(
    assistant: TtsAssistantView,
    events: Seq<EventView>,
    busy: spec_fn(int) -> bool,
) -> Hearing
    decreases events.len(),
{
    if events.len() == 0 {
        Hearing { assistant, said: Seq::empty() }
    } else {
        hear(hear_all(assistant, events.drop_last(), busy), events.last(), busy(events.len() - 1))
    }
}

/// No prose is lost on the way to the speech engine, and none changes
/// place, whenever the engine is busy or free: what has been spoken, then
/// what waits, then what is being gathered, is what the assistant held at
/// first followed by all prose of the events. After the final flush all of
/// it has been handed out.
pub proof fn lemma_all_prose_is_kept(
    assistant: TtsAssistantView,
    events: Seq<EventView>,
    busy: spec_fn(int) -> bool,
)
    ensures
        ({
            let end = hear_all(assistant, events, busy);
            &&& end.said + concat(end.assistant.sentences) + end.assistant.buffer == concat(
                assistant.sentences,
            ) + assistant.buffer + prose_of(events)
            &&& end.said + concat(end.assistant.flush()) == concat(assistant.sentences)
                + assistant.buffer + prose_of(events)
        }),
    decreases events.len(),
{
    let first = concat(assistant.sentences) + assistant.buffer;
    let end = hear_all(assistant, events, busy);
    if events.len() == 0 {
        assert(Seq::<char>::empty() + concat(assistant.sentences) + assistant.buffer =~= first
            + prose_of(events));
    } else {
        let init = events.drop_last();
        lemma_all_prose_is_kept(assistant, init, busy);
        let before = hear_all(assistant, init, busy);
        match events.last() {
            EventView::ProseChars(text) => {
                let b = busy(events.len() - 1);
                lemma_token_keeps_all_prose(before.assistant, text, b);
                let next = before.assistant.process_token(text, b);
                assert(end.said + concat(end.assistant.sentences) + end.assistant.buffer
                    =~= before.said + (spoken(next.1) + concat(next.0.sentences) + next.0.buffer));
                assert(before.said + (concat(before.assistant.sentences) + before.assistant.buffer
                    + text) =~= (before.said + concat(before.assistant.sentences)
                    + before.assistant.buffer) + text);
                assert(first + prose_of(init) + text =~= first + (prose_of(init) + text));
            },
            _ => {},
        }
    }
    lemma_flush_keeps_all_prose(end.assistant);
    assert(end.said + (concat(end.assistant.sentences) + end.assistant.buffer) =~= end.said
        + concat(end.assistant.sentences) + end.assistant.buffer);
}

} // verus!
