//! The snippet queue and its dispatcher.
//!
//! Code text is gathered into snippets, which wait in a queue in the order in
//! which they were found. The queue is drained one decision at a time: the
//! assistant says what is to be done next, the caller does it and reports
//! back. The assistant itself touches no file, no shell and no console.
use std::collections::VecDeque;
use vstd::prelude::*;
use crate::event::{Event, EventView};
use crate::header::{header_of, parse_header, Header, HeaderView};
use crate::text::{fence_at, push_all, BACKTICK, NEWLINE};

verus! {

/// A code block taken out of a stream: its header and its body.
#[derive(Clone, Debug, PartialEq, Eq)]
pub struct Snippet {
    pub header: Header,
    pub body: String,
}

/// The mathematical value of a [`Snippet`].
pub struct SnippetView {
    pub header: HeaderView,
    pub body: Seq<char>,
}

impl View for Snippet {
    type V = SnippetView;

    open spec fn view(&self) -> SnippetView {
        SnippetView { header: self.header@, body: self.body@ }
    }
}

impl DeepView for Snippet {
    type V = SnippetView;

    open spec fn deep_view(&self) -> SnippetView {
        self@
    }
}

/// `raw` without the opening fences at its start.
pub open spec fn without_opening_fences(raw: Seq<char>) -> Seq<char>
    decreases raw.len(),
{
    if fence_at(raw, 0) {
        without_opening_fences(raw.skip(3))
    } else {
        raw
    }
}

/// The snippet that the text of a block stands for. Fences at the start are
/// dropped; the first line is the header line; all that follows the first
/// newline is the body, character for character.
pub open spec fn snippet_of(raw: Seq<char>) -> SnippetView {
    let text = without_opening_fences(raw);
    match text.index_of_first(NEWLINE) {
        Some(i) => SnippetView { header: header_of(text.take(i)), body: text.skip(i + 1) },
        None => SnippetView { header: header_of(text), body: Seq::empty() },
    }
}

/// Reads the text of a block into a snippet.
pub fn parse_snippet(raw: &[char]) -> (snippet: Snippet)
    ensures
        snippet@ == snippet_of(raw@),
{
    let n = raw.len();
    let mut start: usize = 0;
    assert(raw@.skip(0) =~= raw@);
    while n - start >= 3 && raw[start] == BACKTICK && raw[start + 1] == BACKTICK && raw[start + 2]
        == BACKTICK
        invariant
            n == raw@.len(),
            start <= n,
            without_opening_fences(raw@) == without_opening_fences(raw@.skip(start as int)),
        decreases n - start,
    {
        assert(fence_at(raw@.skip(start as int), 0));
        assert(raw@.skip(start as int).skip(3) =~= raw@.skip(start + 3));
        start += 3;
    }
    let ghost text = raw@.skip(start as int);
    assert(!fence_at(text, 0));
    assert(without_opening_fences(raw@) == text);
    let mut line = String::new();
    let mut i: usize = start;
    while i < n && raw[i] != NEWLINE
        invariant
            n == raw@.len(),
            start <= i <= n,
            text == raw@.skip(start as int),
            line@ == text.take(i - start),
            forall|j: int| 0 <= j < i - start ==> text[j] != NEWLINE,
        decreases n - i,
    {
        line.push(raw[i]);
        i += 1;
        assert(line@ =~= text.take(i - start));
    }
    let mut body = String::new();
    proof {
        text.index_of_first_ensures(NEWLINE);
        if i < n {
            assert(text[i - start] == NEWLINE);
            assert(text.contains(NEWLINE));
            assert(text.index_of_first(NEWLINE) == Some(i - start));
        } else {
            assert(!text.contains(NEWLINE));
            assert(text.take(i - start) =~= text);
        }
    }
    if i < n {
        let mut j: usize = i + 1;
        while j < n
            invariant
                n == raw@.len(),
                start <= i < j <= n,
                text == raw@.skip(start as int),
                body@ == text.subrange(i - start + 1, j - start),
            decreases n - j,
        {
            body.push(raw[j]);
            j += 1;
            assert(body@ =~= text.subrange(i - start + 1, j - start));
        }
        assert(body@ =~= text.skip(i - start + 1));
    }
    Snippet { header: parse_header(line.as_str()), body }
}

/// What the operator wants done with a snippet that names no file.
#[derive(Clone, Copy, Debug, PartialEq, Eq)]
pub enum Choice {
    /// Write it to a file; the name is asked for next.
    File,
    /// Run it as a shell command.
    Shell,
    /// Any other answer: it settles nothing, and the question is put again.
    Drop,
}

/// The answer that asks for a file.
pub open spec fn file_word() -> Seq<char> {
    seq!['f', 'i', 'l', 'e']
}

/// The answer that asks for the shell.
pub open spec fn shell_word() -> Seq<char> {
    seq!['s', 'h', 'e', 'l', 'l']
}

/// The choice that an answer of the operator stands for.
pub open spec fn choice_of(answer: Seq<char>) -> Choice {
    if answer == file_word() {
        Choice::File
    } else if answer == shell_word() {
        Choice::Shell
    } else {
        Choice::Drop
    }
}

/// Reads an answer of the operator: `file`, `shell`, or anything else.
pub fn decide(answer: &str) -> (choice: Choice)
    ensures
        choice == choice_of(answer@),
{
    let given = answer.to_owned();
    let file = "file".to_owned();
    let shell = "shell".to_owned();
    proof {
        reveal_strlit("file");
        reveal_strlit("shell");
        assert("file"@ =~= file_word());
        assert("shell"@ =~= shell_word());
    }
    if given == file {
        Choice::File
    } else if given == shell {
        Choice::Shell
    } else {
        Choice::Drop
    }
}

/// What the caller reports back before the next decision.
#[derive(Clone, Debug, PartialEq, Eq)]
pub enum Reply {
    /// Nothing was asked: begin, or go on after a file was written.
    Next,
    /// The line that the operator gave in answer to a question.
    Answer(String),
    /// The exit code of the shell command that was run.
    Exit(i32),
    /// The console gave no line: it is closed.
    ConsoleClosed,
}

/// The mathematical value of a [`Reply`].
pub enum ReplyView {
    Next,
    Answer(Seq<char>),
    Exit(i32),
    ConsoleClosed,
}

impl View for Reply {
    type V = ReplyView;

    open spec fn view(&self) -> ReplyView {
        match *self {
            Reply::Next => ReplyView::Next,
            Reply::Answer(line) => ReplyView::Answer(line@),
            Reply::Exit(code) => ReplyView::Exit(code),
            Reply::ConsoleClosed => ReplyView::ConsoleClosed,
        }
    }
}

/// Why draining cannot go on.
#[derive(Clone, Copy, Debug, PartialEq, Eq)]
pub enum DrainError {
    /// A question is open and the console is closed: nobody can answer it.
    ConsoleClosed,
    /// The reply does not answer what was asked.
    UnexpectedReply,
}

/// What the caller is to do next.
#[derive(Clone, Debug, PartialEq, Eq)]
pub enum Action {
    /// The queue is empty: nothing is left to do.
    Finished,
    /// Write `contents` to the file `filename` in the working directory,
    /// replacing what is there, then go on.
    Write { filename: String, contents: String },
    /// Ask the operator: file, shell or drop?
    AskChoice,
    /// Ask the operator for a file name.
    AskFilename,
    /// Run `command` in a shell, wait for it and report its exit code.
    Execute { command: String },
    /// The command failed with `exit_code`: stop here. What is still queued
    /// stays queued.
    Halt { exit_code: i32 },
    /// Draining cannot go on; the assistant is as it was before the reply.
    Fail(DrainError),
}

/// The mathematical value of an [`Action`].
pub enum ActionView {
    Finished,
    Write { filename: Seq<char>, contents: Seq<char> },
    AskChoice,
    AskFilename,
    Execute { command: Seq<char> },
    Halt { exit_code: i32 },
    Fail(DrainError),
}

impl View for Action {
    type V = ActionView;

    open spec fn view(&self) -> ActionView {
        match *self {
            Action::Finished => ActionView::Finished,
            Action::Write { filename, contents } => ActionView::Write {
                filename: filename@,
                contents: contents@,
            },
            Action::AskChoice => ActionView::AskChoice,
            Action::AskFilename => ActionView::AskFilename,
            Action::Execute { command } => ActionView::Execute { command: command@ },
            Action::Halt { exit_code } => ActionView::Halt { exit_code },
            Action::Fail(error) => ActionView::Fail(error),
        }
    }
}

/// What the assistant is waiting for.
enum Pending {
    Nothing,
    Choice(Snippet),
    Filename(Snippet),
    Exit,
}

/// The mathematical value of what the assistant is waiting for.
pub enum PendingView {
    /// No question is open.
    Nothing,
    /// The operator's choice for this snippet, which names no file.
    Choice(SnippetView),
    /// The name of the file that this snippet goes to.
    Filename(SnippetView),
    /// The exit code of the command that was handed out.
    Exit,
}

impl View for Pending {
    type V = PendingView;

    closed spec fn view(&self) -> PendingView {
        match *self {
            Pending::Nothing => PendingView::Nothing,
            Pending::Choice(snippet) => PendingView::Choice(snippet@),
            Pending::Filename(snippet) => PendingView::Filename(snippet@),
            Pending::Exit => PendingView::Exit,
        }
    }
}

/// Gathers code into snippets and decides what is done with each.
pub struct CodeAssistant {
    current: Option<Snippet>,
    snippets_buffer: VecDeque<Snippet>,
    pending: Pending,
}

/// The mathematical value of a [`CodeAssistant`].
pub struct CodeAssistantView {
    /// The snippet that is being gathered, if a block is open.
    pub current: Option<SnippetView>,
    /// The sealed snippets that wait, oldest first.
    pub queue: Seq<SnippetView>,
    /// What the assistant is waiting for.
    pub pending: PendingView,
}

impl CodeAssistantView {
    /// An assistant with nothing gathered, nothing queued and nothing asked.
    pub open spec fn empty() -> CodeAssistantView {
        CodeAssistantView { current: None, queue: Seq::empty(), pending: PendingView::Nothing }
    }

    /// This assistant with `snippet` queued last.
    pub open spec fn enqueue(self, snippet: SnippetView) -> CodeAssistantView {
        CodeAssistantView {
            current: self.current,
            queue: self.queue.push(snippet),
            pending: self.pending,
        }
    }

    /// This assistant, waiting for `pending`.
    pub open spec fn waiting_for(self, pending: PendingView) -> CodeAssistantView {
        CodeAssistantView { current: self.current, queue: self.queue, pending }
    }

    /// The snippet being gathered is sealed and queued; a block that is not
    /// open is not sealed.
    pub open spec fn seal(self) -> CodeAssistantView {
        match self.current {
            Some(snippet) => CodeAssistantView {
                current: None,
                queue: self.queue.push(snippet),
                pending: self.pending,
            },
            None => self,
        }
    }

    /// A block opens: a snippet with this header and no body is begun. A
    /// snippet that was still being gathered is sealed first.
    pub open spec fn open(self, header: HeaderView) -> CodeAssistantView {
        CodeAssistantView {
            current: Some(SnippetView { header, body: Seq::empty() }),
            queue: self.seal().queue,
            pending: self.pending,
        }
    }

    /// Code text arrives: it is added to the body of the snippet being
    /// gathered. Without an open block there is nothing to add it to.
    pub open spec fn extend(self, text: Seq<char>) -> CodeAssistantView {
        match self.current {
            Some(snippet) => CodeAssistantView {
                current: Some(SnippetView { header: snippet.header, body: snippet.body + text }),
                queue: self.queue,
                pending: self.pending,
            },
            None => self,
        }
    }

    /// One event of the router. The events of a code block build its
    /// snippet; prose and reports are not for this assistant.
    pub open spec fn accept(self, event: EventView) -> CodeAssistantView {
        match event {
            EventView::CodeOpen(header) => self.open(header),
            EventView::CodeChars(text) => self.extend(text),
            EventView::CodeClose => self.seal(),
            EventView::ProseChars(_) => self,
            EventView::Malformed(_) => self,
        }
    }

    /// The oldest snippet leaves the queue. One that names a file is to be
    /// written there, body unchanged; for one that names none the operator
    /// is asked. An empty queue means that draining has finished.
    pub open spec fn take_next(self) -> (CodeAssistantView, ActionView) {
        if self.queue.len() == 0 {
            (self.waiting_for(PendingView::Nothing), ActionView::Finished)
        } else {
            let snippet = self.queue.first();
            let rest = CodeAssistantView {
                current: self.current,
                queue: self.queue.drop_first(),
                pending: PendingView::Nothing,
            };
            match snippet.header.filename {
                Some(filename) => (rest, ActionView::Write { filename, contents: snippet.body }),
                None => (rest.waiting_for(PendingView::Choice(snippet)), ActionView::AskChoice),
            }
        }
    }

    /// One decision of draining the queue.
    ///
    /// * With no question open, `Next` takes the oldest snippet.
    /// * When the choice is asked for: `file` asks for the name, `shell`
    ///   hands the body out as a command, any other answer puts the question
    ///   again.
    /// * When the file name is asked for, the answer is the name, and the
    ///   body is to be written there.
    /// * When a command is running: exit code zero goes on with the next
    ///   snippet, any other stops and leaves the queue as it is.
    ///
    /// A closed console while a question is open, and any reply that does
    /// not answer what was asked, fail and change nothing.
    pub open spec fn drain(self, reply: ReplyView) -> (CodeAssistantView, ActionView) {
        match (self.pending, reply) {
            (PendingView::Nothing, ReplyView::Next) => self.take_next(),
            (PendingView::Choice(snippet), ReplyView::Answer(answer)) => match choice_of(answer) {
                Choice::File => (
                    self.waiting_for(PendingView::Filename(snippet)),
                    ActionView::AskFilename,
                ),
                Choice::Shell => (
                    self.waiting_for(PendingView::Exit),
                    ActionView::Execute { command: snippet.body },
                ),
                Choice::Drop => (self, ActionView::AskChoice),
            },
            (PendingView::Filename(snippet), ReplyView::Answer(filename)) => (
                self.waiting_for(PendingView::Nothing),
                ActionView::Write { filename, contents: snippet.body },
            ),
            (PendingView::Exit, ReplyView::Exit(code)) => if code == 0 {
                self.take_next()
            } else {
                (self.waiting_for(PendingView::Nothing), ActionView::Halt { exit_code: code })
            },
            (PendingView::Choice(_), ReplyView::ConsoleClosed) => (
                self,
                ActionView::Fail(DrainError::ConsoleClosed),
            ),
            (PendingView::Filename(_), ReplyView::ConsoleClosed) => (
                self,
                ActionView::Fail(DrainError::ConsoleClosed),
            ),
            _ => (self, ActionView::Fail(DrainError::UnexpectedReply)),
        }
    }
}

impl View for CodeAssistant {
    type V = CodeAssistantView;

    closed spec fn view(&self) -> CodeAssistantView {
        CodeAssistantView {
            current: match self.current {
                Some(snippet) => Some(snippet@),
                None => None,
            },
            queue: self.snippets_buffer.deep_view(),
            pending: self.pending@,
        }
    }
}

impl CodeAssistant {
    /// An assistant with nothing gathered, nothing queued and nothing asked.
    pub fn new() -> (assistant: CodeAssistant)
        ensures
            assistant@ == CodeAssistantView::empty(),
    {
        let assistant = CodeAssistant {
            current: None,
            snippets_buffer: VecDeque::new(),
            pending: Pending::Nothing,
        };
        assert(assistant.snippets_buffer.deep_view() =~= Seq::<SnippetView>::empty());
        assistant
    }

    /// Queues `snippet` last.
    fn enqueue(&mut self, snippet: Snippet)
        ensures
            final(self)@ == old(self)@.enqueue(snippet@),
    {
        let ghost before = self.snippets_buffer.deep_view();
        self.snippets_buffer.push_back(snippet);
        assert(self.snippets_buffer.deep_view() =~= before.push(snippet@));
    }

    /// Queues a whole block, given as its text: the header line, a newline,
    /// the body. Fences before the header line are dropped.
    pub fn push(&mut self, chars: &[char])
        ensures
            final(self)@ == old(self)@.enqueue(snippet_of(chars@)),
    {
        self.enqueue(parse_snippet(chars));
    }

    /// A code block has opened with this header.
    pub fn on_code_open(&mut self, header: Header)
        ensures
            final(self)@ == old(self)@.open(header@),
    {
        self.on_code_close();
        self.current = Some(Snippet { header, body: String::new() });
    }

    /// Text of the body of the open block has arrived.
    pub fn on_code_chars(&mut self, text: &str)
        ensures
            final(self)@ == old(self)@.extend(text@),
    {
        let mut current: Option<Snippet> = None;
        std::mem::swap(&mut current, &mut self.current);
        match current {
            Some(snippet) => {
                let Snippet { header, mut body } = snippet;
                push_all(&mut body, text);
                self.current = Some(Snippet { header, body });
            },
            None => {},
        }
    }

    /// The open block has closed: its snippet is sealed and queued.
    pub fn on_code_close(&mut self)
        ensures
            final(self)@ == old(self)@.seal(),
    {
        let mut current: Option<Snippet> = None;
        std::mem::swap(&mut current, &mut self.current);
        match current {
            Some(snippet) => {
                self.enqueue(snippet);
            },
            None => {},
        }
    }

    /// Takes one event of the router: the events of a code block go to
    /// [`Self::on_code_open`], [`Self::on_code_chars`] and
    /// [`Self::on_code_close`]; any other event changes nothing.
    pub fn accept(&mut self, event: Event)
        ensures
            final(self)@ == old(self)@.accept(event@),
    {
        match event {
            Event::CodeOpen(header) => self.on_code_open(header),
            Event::CodeChars(text) => self.on_code_chars(text.as_str()),
            Event::CodeClose => self.on_code_close(),
            Event::ProseChars(_) => {},
            Event::Malformed(_) => {},
        }
    }

    /// The stream has ended: a snippet that is still being gathered is
    /// sealed and queued as it stands, so that no code is lost.
    pub fn flush(&mut self)
        ensures
            final(self)@ == old(self)@.seal(),
    {
        self.on_code_close();
    }

    /// The number of sealed snippets that wait in the queue.
    pub fn queued(&self) -> (n: usize)
        ensures
            n == self@.queue.len(),
    {
        self.snippets_buffer.len()
    }

    /// Takes the oldest snippet from the queue.
    fn take_next(&mut self) -> (action: Action)
        requires
            old(self)@.pending is Nothing,
        ensures
            final(self)@ == old(self)@.take_next().0,
            action@ == old(self)@.take_next().1,
    {
        let ghost before = self.snippets_buffer.deep_view();
        match self.snippets_buffer.pop_front() {
            None => Action::Finished,
            Some(snippet) => {
                assert(self.snippets_buffer.deep_view() =~= before.drop_first());
                let Snippet { header, body } = snippet;
                let Header { language, filename } = header;
                match filename {
                    Some(filename) => Action::Write { filename, contents: body },
                    None => {
                        self.pending = Pending::Choice(
                            Snippet { header: Header { language, filename: None }, body },
                        );
                        Action::AskChoice
                    },
                }
            },
        }
    }

    /// Drains the queue by one decision: takes what the caller reports of
    /// the last action, and says what is to be done next. Begin with
    /// [`Reply::Next`], carry out each action, and stop at
    /// [`Action::Finished`], [`Action::Halt`] or [`Action::Fail`].
    ///
    /// When to drain is the caller's choice: once the stream has ended and
    /// [`Self::flush`] has been called, or each time a block has closed.
    pub fn drain(&mut self, reply: Reply) -> (action: Action)
        ensures
            final(self)@ == old(self)@.drain(reply@).0,
            action@ == old(self)@.drain(reply@).1,
    {
        let mut pending = Pending::Nothing;
        std::mem::swap(&mut pending, &mut self.pending);
        match pending {
            Pending::Nothing => match reply {
                Reply::Next => self.take_next(),
                _ => Action::Fail(DrainError::UnexpectedReply),
            },
            Pending::Choice(snippet) => match reply {
                Reply::Answer(answer) => match decide(answer.as_str()) {
                    Choice::File => {
                        self.pending = Pending::Filename(snippet);
                        Action::AskFilename
                    },
                    Choice::Shell => {
                        self.pending = Pending::Exit;
                        Action::Execute { command: snippet.body }
                    },
                    Choice::Drop => {
                        self.pending = Pending::Choice(snippet);
                        Action::AskChoice
                    },
                },
                Reply::ConsoleClosed => {
                    self.pending = Pending::Choice(snippet);
                    Action::Fail(DrainError::ConsoleClosed)
                },
                _ => {
                    self.pending = Pending::Choice(snippet);
                    Action::Fail(DrainError::UnexpectedReply)
                },
            },
            Pending::Filename(snippet) => match reply {
                Reply::Answer(filename) => Action::Write { filename, contents: snippet.body },
                Reply::ConsoleClosed => {
                    self.pending = Pending::Filename(snippet);
                    Action::Fail(DrainError::ConsoleClosed)
                },
                _ => {
                    self.pending = Pending::Filename(snippet);
                    Action::Fail(DrainError::UnexpectedReply)
                },
            },
            Pending::Exit => match reply {
                Reply::Exit(code) => {
                    if code == 0 {
                        self.take_next()
                    } else {
                        Action::Halt { exit_code: code }
                    }
                },
                _ => {
                    self.pending = Pending::Exit;
                    Action::Fail(DrainError::UnexpectedReply)
                },
            },
        }
    }
}

} // verus!
