//! Core of a voice-and-code pair-programming assistant.
//!
//! A reply streams in as small text fragments whose boundaries have nothing to
//! do with the structure of the text. This crate splits such a stream into
//! narrative prose and fenced code blocks, and decides what is done with each:
//!
//! * [`router`] recognises triple-backtick fences, however the fragments cut
//!   them, and turns the stream into [`event::Event`]s;
//! * [`tts_assistant`] and [`tts_assistant2`] gather prose into sentences and
//!   batch them for a speech engine that plays one job at a time;
//! * [`code_assistant`] gathers code into snippets and decides, one step at a
//!   time, whether a snippet is written to a file or run in a shell.
//!
//! Nothing here performs I/O. Every decision is a function from a state and
//! an input to a new state and an action for the caller to carry out.
//!
//! What holds of these parts on every stream is proved in [`router_laws`],
//! [`code_laws`] and [`speech_laws`]: that the cut of the fragments does not
//! matter, that no character of the stream is lost, that text without a
//! fence never leaves its region, and that a fenced block ends up as one
//! snippet with its body unchanged.
pub mod text;
pub mod header;
pub mod event;
pub mod router;
pub mod router_laws;
pub mod code_assistant;
pub mod code_laws;
pub mod tts_assistant;
pub mod tts_assistant2;
pub mod speech_laws;
