//! Character sequences: the vocabulary shared by the rest of the crate.
use std::collections::VecDeque;
use vstd::prelude::*;

verus! {

/// The fence character.
pub const BACKTICK: char = '`';

/// The character that ends a header line.
pub const NEWLINE: char = '\n';

/// `n` backticks in a row.
pub open spec fn ticks(n: nat) -> Seq<char> {
    Seq::new(n, |i: int| BACKTICK)
}

/// All sequences of `parts` joined end to end, in order.
pub open spec fn concat(parts: Seq<Seq<char>>) -> Seq<char> {
    parts.flatten()
}

/// Three backticks in a row begin at index `i` of `s`.
pub open spec fn fence_at(s: Seq<char>, i: int) -> bool {
    &&& 0 <= i
    &&& i + 3 <= s.len()
    &&& s[i] == BACKTICK
    &&& s[i + 1] == BACKTICK
    &&& s[i + 2] == BACKTICK
}

/// Nowhere in `s` do three backticks stand in a row.
pub open spec fn fence_free(s: Seq<char>) -> bool {
    forall|i: int| !#[trigger] fence_at(s, i)
}

/// The number of backticks at the very end of `s`.
pub open spec fn trailing_ticks(s: Seq<char>) -> nat
    decreases s.len(),
{
    if s.len() == 0 || s.last() != BACKTICK {
        0
    } else {
        trailing_ticks(s.drop_last()) + 1
    }
}

/// `s` without the backticks at its very end.
pub open spec fn without_trailing_ticks(s: Seq<char>) -> Seq<char> {
    s.take(s.len() - trailing_ticks(s))
}

/// A text is what stands before its trailing backticks, followed by them;
/// what stands before them does not end in a backtick.
pub proof fn lemma_trailing_ticks(s: Seq<char>)
    ensures
        trailing_ticks(s) <= s.len(),
        s == without_trailing_ticks(s) + ticks(trailing_ticks(s)),
        trailing_ticks(without_trailing_ticks(s)) == 0,
        forall|i: int| s.len() - trailing_ticks(s) <= i < s.len() ==> s[i] == BACKTICK,
    decreases s.len(),
{
    if s.len() == 0 || s.last() != BACKTICK {
        assert(s.take(s.len() as int) =~= s);
        assert(s =~= s + ticks(0));
    } else {
        let init = s.drop_last();
        lemma_trailing_ticks(init);
        let k = trailing_ticks(init);
        let body = without_trailing_ticks(init);
        assert(without_trailing_ticks(s) =~= body);
        assert(s =~= init.push(BACKTICK));
        assert(init == body + ticks(k));
        assert((body + ticks(k)).push(BACKTICK) =~= body + ticks(k + 1));
    }
}

/// A text without a fence ends in at most two backticks.
pub proof fn lemma_fence_free_trailing(s: Seq<char>)
    requires
        fence_free(s),
    ensures
        trailing_ticks(s) <= 2,
{
    lemma_trailing_ticks(s);
    if trailing_ticks(s) >= 3 {
        assert(fence_at(s, s.len() - 3));
    }
}

/// Every prefix of a text without a fence is without a fence.
pub proof fn lemma_fence_free_prefix(s: Seq<char>, n: int)
    requires
        fence_free(s),
        0 <= n <= s.len(),
    ensures
        fence_free(s.take(n)),
{
    assert forall|i: int| !#[trigger] fence_at(s.take(n), i) by {
        if fence_at(s.take(n), i) {
            assert(fence_at(s, i));
        }
    }
}

/// `std::string::String::push` appends one character to the end of the
/// string and changes nothing else.
pub assume_specification[ String::push ](s: &mut String, c: char)
    ensures
        final(s)@ == old(s)@.push(c),
;

/// Appends `n` backticks to `s`.
pub(crate) fn push_ticks(s: &mut String, n: u8)
    ensures
        final(s)@ == old(s)@ + ticks(n as nat),
{
    let mut i: u8 = 0;
    while i < n
        invariant
            i <= n,
            s@ == old(s)@ + ticks(i as nat),
        decreases n - i,
    {
        s.push(BACKTICK);
        i += 1;
        assert(s@ =~= old(s)@ + ticks(i as nat));
    }
}

/// Appends the characters of `tail` to `s`.
pub(crate) fn push_all(s: &mut String, tail: &str)
    ensures
        final(s)@ == old(s)@ + tail@,
{
    let ghost before = s@;
    for c in it: tail.chars()
        invariant
            it.seq() == tail@,
            s@ == before + tail@.take(it.index() as int),
    {
        s.push(c);
        assert(s@ =~= before + tail@.take(it.index() + 1));
    }
    assert(tail@.take(tail@.len() as int) =~= tail@);
}

/// The string made of the characters of `chars`, in order.
pub(crate) fn string_from_chars(chars: &[char]) -> (s: String)
    ensures
        s@ == chars@,
{
    let mut s = String::new();
    let mut i: usize = 0;
    while i < chars.len()
        invariant
            i <= chars@.len(),
            s@ == chars@.take(i as int),
        decreases chars@.len() - i,
    {
        s.push(chars[i]);
        i += 1;
        assert(s@ =~= chars@.take(i as int));
    }
    assert(chars@.take(chars@.len() as int) =~= chars@);
    s
}

/// Empties `queue` and returns all its strings joined end to end, oldest
/// first.
pub(crate) fn join_all(queue: &mut VecDeque<String>) -> (joined: String)
    ensures
        joined@ == concat(old(queue).deep_view()),
        final(queue)@.len() == 0,
{
    let mut joined = String::new();
    assert(Seq::<char>::empty() + concat(queue.deep_view()) =~= concat(queue.deep_view()));
    loop
        invariant
            joined@ + concat(queue.deep_view()) == concat(old(queue).deep_view()),
        ensures
            joined@ == concat(old(queue).deep_view()),
            queue@.len() == 0,
        decreases queue@.len(),
    {
        let ghost waiting = queue.deep_view();
        match queue.pop_front() {
            Some(next) => {
                let ghost before = joined@;
                push_all(&mut joined, next.as_str());
                assert(queue.deep_view() =~= waiting.drop_first());
                assert(waiting.first() == next@);
                assert(before + next@ + concat(waiting.drop_first()) =~= before + concat(waiting));
            },
            None => {
                assert(concat(waiting) =~= Seq::<char>::empty());
                assert(joined@ + concat(waiting) =~= joined@);
                break;
            },
        }
    }
    joined
}

} // verus!
