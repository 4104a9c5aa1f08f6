//! The sentence buffer for a speech engine that plays one job to its end.
//!
//! Sentences are sealed by the caller and wait in order. All that wait
//! leave together, joined into one job.
use std::collections::VecDeque;
use vstd::prelude::*;
use crate::text::{concat, join_all, string_from_chars};

verus! {

/// Queues sealed sentences and hands them out as one job.
pub struct TtsAssistant2 {
    sentence_buffer: VecDeque<String>,
}

impl View for TtsAssistant2 {
    type V = Seq<Seq<char>>;

    /// The sentences that wait, oldest first.
    closed spec fn view(&self) -> Seq<Seq<char>> {
        self.sentence_buffer.deep_view()
    }
}

impl Default for TtsAssistant2 {
    fn default() -> (assistant: TtsAssistant2)
        ensures
            assistant@ == Seq::<Seq<char>>::empty(),
    {
        let assistant = TtsAssistant2 { sentence_buffer: VecDeque::new() };
        assert(assistant.sentence_buffer.deep_view() =~= Seq::<Seq<char>>::empty());
        assistant
    }
}

impl TtsAssistant2 {
    /// Queues the sentence made of `chars` behind those that wait.
    pub fn push(&mut self, chars: &[char])
        ensures
            final(self)@ == old(self)@.push(chars@),
    {
        let ghost waiting = self.sentence_buffer.deep_view();
        let sentence = string_from_chars(chars);
        self.sentence_buffer.push_back(sentence);
        assert(self.sentence_buffer.deep_view() =~= waiting.push(chars@));
    }

    /// Empties the queue and returns the job to submit: all sentences that
    /// waited, joined in order. With nothing waiting the job is empty.
    pub fn flush(&mut self) -> (job: String)
        ensures
            job@ == concat(old(self)@),
            final(self)@ == Seq::<Seq<char>>::empty(),
    {
        let job = join_all(&mut self.sentence_buffer);
        assert(self.sentence_buffer.deep_view() =~= Seq::<Seq<char>>::empty());
        job
    }
}

} // verus!
