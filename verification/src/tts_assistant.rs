//! The sentence buffer for a speech engine that is asked whether it is busy.
//!
//! Prose is gathered until a token marks the end of a sentence. Sealed
//! sentences wait while the engine is busy; as soon as a sentence is sealed
//! while it is free, all that wait are handed out together as one job.
use std::collections::VecDeque;
use vstd::prelude::*;
use crate::text::{concat, join_all, string_from_chars};

verus! {

/// `c` is one of the marks that end a sentence: `.`, `:`, newline, `!`, `?`.
pub open spec fn boundary_char(c: char) -> bool {
    c == '.' || c == ':' || c == '\n' || c == '!' || c == '?'
}

/// A token ends a sentence if it begins or ends with a boundary mark. A mark
/// inside the token does not count.
pub open spec fn is_boundary(token: Seq<char>) -> bool {
    token.len() > 0 && (boundary_char(token.first()) || boundary_char(token.last()))
}

/// Tests a character for being a boundary mark.
pub fn is_boundary_char(c: char) -> (b: bool)
    ensures
        b == boundary_char(c),
{
    c == '.' || c == ':' || c == '\n' || c == '!' || c == '?'
}

/// Gathers prose into sentences and batches them for playback.
pub struct TtsAssistant {
    sentence_buffer: VecDeque<String>,
    /// The prose of the sentence that is being gathered.
    pub char_buffer: Vec<char>,
}

/// The mathematical value of a [`TtsAssistant`].
pub struct TtsAssistantView {
    /// The sealed sentences that wait for playback, oldest first.
    pub sentences: Seq<Seq<char>>,
    /// The prose of the sentence that is being gathered.
    pub buffer: Seq<char>,
}

impl TtsAssistantView {
    /// An assistant that holds nothing.
    pub open spec fn empty() -> TtsAssistantView {
        TtsAssistantView { sentences: Seq::empty(), buffer: Seq::empty() }
    }

    /// One token of prose. It is added to the sentence being gathered. If
    /// it ends a sentence, the gathered text is sealed and queued; and if
    /// the engine is free, all queued sentences leave as one job.
    pub open spec fn process_token(self, token: Seq<char>, busy: bool) -> (
        TtsAssistantView,
        Option<Seq<char>>,
    ) {
        let text = self.buffer + token;
        if is_boundary(token) {
            let sealed = self.sentences.push(text);
            if busy {
                (TtsAssistantView { sentences: sealed, buffer: Seq::empty() }, None)
            } else {
                (TtsAssistantView::empty(), Some(concat(sealed)))
            }
        } else {
            (TtsAssistantView { sentences: self.sentences, buffer: text }, None)
        }
    }

    /// The end of the stream: what is left of a sentence is sealed as it
    /// stands, and every queued sentence leaves, each a job of its own, in
    /// order.
    pub open spec fn flush(self) -> Seq<Seq<char>> {
        if self.buffer.len() > 0 {
            self.sentences.push(self.buffer)
        } else {
            self.sentences
        }
    }
}

impl View for TtsAssistant {
    type V = TtsAssistantView;

    closed spec fn view(&self) -> TtsAssistantView {
        TtsAssistantView { sentences: self.sentence_buffer.deep_view(), buffer: self.char_buffer@ }
    }
}

impl Default for TtsAssistant {
    fn default() -> (assistant: TtsAssistant)
        ensures
            assistant@ == TtsAssistantView::empty(),
    {
        let assistant = TtsAssistant { sentence_buffer: VecDeque::new(), char_buffer: Vec::new() };
        assert(assistant.sentence_buffer.deep_view() =~= Seq::<Seq<char>>::empty());
        assistant
    }
}

impl TtsAssistant {
    /// Takes one token of prose. `busy` says whether the speech engine is
    /// still playing. Returns the job to submit now, if there is one.
    pub fn process_token(&mut self, token: &str, busy: bool) -> (job: Option<String>)
        ensures
            final(self)@ == old(self)@.process_token(token@, busy).0,
            job.deep_view() == old(self)@.process_token(token@, busy).1,
    {
        let ghost before = self.char_buffer@;
        let mut first: Option<char> = None;
        let mut last: Option<char> = None;
        for c in it: token.chars()
            invariant
                it.seq() == token@,
                self.sentence_buffer == old(self).sentence_buffer,
                self.char_buffer@ == before + token@.take(it.index() as int),
                it.index() == 0 ==> first is None && last is None,
                it.index() > 0 ==> first == Some(token@[0]) && last == Some(
                    token@[it.index() - 1],
                ),
        {
            if first.is_none() {
                first = Some(c);
            }
            last = Some(c);
            self.char_buffer.push(c);
            assert(self.char_buffer@ =~= before + token@.take(it.index() + 1));
        }
        assert(token@.take(token@.len() as int) =~= token@);
        let boundary = match (first, last) {
            (Some(f), Some(l)) => is_boundary_char(f) || is_boundary_char(l),
            _ => false,
        };
        if boundary {
            let sentence = string_from_chars(self.char_buffer.as_slice());
            self.char_buffer.clear();
            let ghost waiting = self.sentence_buffer.deep_view();
            self.sentence_buffer.push_back(sentence);
            assert(self.sentence_buffer.deep_view() =~= waiting.push(sentence@));
            if busy {
                None
            } else {
                let job = join_all(&mut self.sentence_buffer);
                assert(self.sentence_buffer.deep_view() =~= Seq::<Seq<char>>::empty());
                Some(job)
            }
        } else {
            None
        }
    }

    /// Ends the stream. What is left of a sentence is sealed as it stands.
    /// Returns every sentence that waited, in order: each is a job of its
    /// own, to be played when the one before it has finished.
    pub fn flush(&mut self) -> (jobs: Vec<String>)
        ensures
            jobs.deep_view() == old(self)@.flush(),
            final(self)@ == TtsAssistantView::empty(),
    {
        if self.char_buffer.len() > 0 {
            let sentence = string_from_chars(self.char_buffer.as_slice());
            self.char_buffer.clear();
            let ghost waiting = self.sentence_buffer.deep_view();
            self.sentence_buffer.push_back(sentence);
            assert(self.sentence_buffer.deep_view() =~= waiting.push(sentence@));
        }
        let ghost all = self.sentence_buffer.deep_view();
        let mut jobs: Vec<String> = Vec::new();
        assert(jobs.deep_view() + self.sentence_buffer.deep_view() =~= all);
        loop
            invariant
                self.char_buffer@.len() == 0,
                jobs.deep_view() + self.sentence_buffer.deep_view() == all,
            ensures
                self.char_buffer@.len() == 0,
                jobs.deep_view() == all,
                self.sentence_buffer@.len() == 0,
            decreases self.sentence_buffer@.len(),
        {
            let ghost waiting = self.sentence_buffer.deep_view();
            let ghost done = jobs.deep_view();
            match self.sentence_buffer.pop_front() {
                Some(next) => {
                    jobs.push(next);
                    assert(self.sentence_buffer.deep_view() =~= waiting.drop_first());
                    assert(jobs.deep_view() =~= done.push(waiting.first()));
                    assert(done.push(waiting.first()) + waiting.drop_first() =~= done + waiting);
                },
                None => {
                    assert(done + waiting =~= done);
                    break;
                },
            }
        }
        assert(self.sentence_buffer.deep_view() =~= Seq::<Seq<char>>::empty());
        assert(self.char_buffer@ =~= Seq::<char>::empty());
        jobs
    }

    /// The last character of the sentence that is being gathered.
    pub fn last_char_in_buffer(&self) -> (last: Option<char>)
        ensures
            last == if self@.buffer.len() == 0 {
                None
            } else {
                Some(self@.buffer.last())
            },
    {
        let n = self.char_buffer.len();
        if n == 0 {
            None
        } else {
            Some(self.char_buffer[n - 1])
        }
    }
}

} // verus!
