use pair_assistant::tts_assistant::{is_boundary_char, TtsAssistant};
use pair_assistant::tts_assistant2::TtsAssistant2;

fn chars(text: &str) -> Vec<char> {
    text.chars().collect()
}

#[test]
fn three_tokens_make_one_sentence() {
    let mut tts = TtsAssistant::default();
    assert_eq!(tts.process_token("Hello", false), None);
    assert_eq!(tts.process_token(" world", false), None);
    assert_eq!(tts.process_token(".", false), Some("Hello world.".to_string()));
    assert!(tts.flush().is_empty());
}

#[test]
fn unfinished_sentence_is_flushed_at_the_end() {
    let mut tts = TtsAssistant::default();
    assert_eq!(tts.process_token("Hello", false), None);
    assert_eq!(tts.process_token(" world", false), None);
    assert_eq!(tts.flush(), vec!["Hello world".to_string()]);
    assert!(tts.flush().is_empty());
    assert!(tts.char_buffer.is_empty());
}

#[test]
fn sentences_sealed_while_busy_leave_as_one_job() {
    let mut tts = TtsAssistant::default();
    assert_eq!(tts.process_token("One.", true), None);
    assert_eq!(tts.process_token(" Two", true), None);
    assert_eq!(tts.process_token("!", true), None);
    assert_eq!(tts.process_token(" Three?", false), Some("One. Two! Three?".to_string()));
    assert!(tts.flush().is_empty());
}

#[test]
fn sentences_still_waiting_at_the_end_leave_one_by_one() {
    let mut tts = TtsAssistant::default();
    assert_eq!(tts.process_token("One.", true), None);
    assert_eq!(tts.process_token(" Two.", true), None);
    assert_eq!(tts.process_token(" rest", true), None);
    assert_eq!(
        tts.flush(),
        vec!["One.".to_string(), " Two.".to_string(), " rest".to_string()]
    );
}

#[test]
fn mark_inside_a_token_seals_nothing() {
    let mut tts = TtsAssistant::default();
    assert_eq!(tts.process_token("a.b", false), None);
    assert_eq!(tts.process_token("x:y!z", false), None);
    assert_eq!(tts.char_buffer, chars("a.bx:y!z"));
}

#[test]
fn mark_at_the_start_of_a_token_seals_with_the_token() {
    let mut tts = TtsAssistant::default();
    assert_eq!(tts.process_token("Hi", false), None);
    assert_eq!(tts.process_token("\nthere", false), Some("Hi\nthere".to_string()));
    assert!(tts.char_buffer.is_empty());
}

#[test]
fn each_mark_seals() {
    for mark in [".", ":", "\n", "!", "?"] {
        let mut tts = TtsAssistant::default();
        tts.process_token("So", false);
        assert_eq!(tts.process_token(mark, false), Some(format!("So{}", mark)));
    }
    for other in [",", ";", " ", "-", "`"] {
        let mut tts = TtsAssistant::default();
        assert_eq!(tts.process_token(other, false), None);
    }
}

#[test]
fn boundary_marks() {
    for c in ['.', ':', '\n', '!', '?'] {
        assert!(is_boundary_char(c));
    }
    for c in [',', ';', ' ', 'a', '`', '\r', '。'] {
        assert!(!is_boundary_char(c));
    }
}

#[test]
fn empty_token_changes_nothing() {
    let mut tts = TtsAssistant::default();
    tts.process_token("ab", false);
    assert_eq!(tts.process_token("", false), None);
    assert_eq!(tts.char_buffer, chars("ab"));
}

#[test]
fn last_char_in_buffer_follows_the_tokens() {
    let mut tts = TtsAssistant::default();
    assert_eq!(tts.last_char_in_buffer(), None);
    tts.process_token("ab", false);
    assert_eq!(tts.last_char_in_buffer(), Some('b'));
    tts.process_token("c`", false);
    assert_eq!(tts.last_char_in_buffer(), Some('`'));
    tts.process_token(".", false);
    assert_eq!(tts.last_char_in_buffer(), None);
}

#[test]
fn job_after_busy_time_keeps_order() {
    let mut tts = TtsAssistant::default();
    tts.process_token("a.", true);
    tts.process_token("b.", true);
    assert_eq!(tts.process_token("c.", false), Some("a.b.c.".to_string()));
    assert_eq!(tts.process_token("d.", false), Some("d.".to_string()));
}

#[test]
fn pushed_sentences_leave_as_one_job() {
    let mut tts = TtsAssistant2::default();
    tts.push(&chars("Hello world."));
    tts.push(&chars(" Again."));
    assert_eq!(tts.flush(), "Hello world. Again.");
    assert_eq!(tts.flush(), "");
}

#[test]
fn flush_of_nothing_is_an_empty_job() {
    let mut tts = TtsAssistant2::default();
    assert_eq!(tts.flush(), "");
    tts.push(&[]);
    assert_eq!(tts.flush(), "");
}

#[test]
fn pushed_sentence_is_kept_character_for_character() {
    let mut tts = TtsAssistant2::default();
    tts.push(&chars("naïve → ok\n"));
    assert_eq!(tts.flush(), "naïve → ok\n");
}
