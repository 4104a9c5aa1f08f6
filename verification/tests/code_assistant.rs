use pair_assistant::code_assistant::{
    decide, parse_snippet, Action, Choice, CodeAssistant, DrainError, Reply, Snippet,
};
use pair_assistant::event::Event;
use pair_assistant::header::Header;
use pair_assistant::router::Router;

fn chars(text: &str) -> Vec<char> {
    text.chars().collect()
}

fn header(language: &str, filename: Option<&str>) -> Header {
    Header { language: language.to_string(), filename: filename.map(|f| f.to_string()) }
}

fn write(filename: &str, contents: &str) -> Action {
    Action::Write { filename: filename.to_string(), contents: contents.to_string() }
}

fn answer(line: &str) -> Reply {
    Reply::Answer(line.to_string())
}

#[test]
fn snippet_with_filename_is_written_with_its_exact_body() {
    let mut code = CodeAssistant::new();
    code.on_code_open(header("rust", Some("a.rs")));
    code.on_code_chars("fn f(){}\n");
    code.on_code_close();
    assert_eq!(code.drain(Reply::Next), write("a.rs", "fn f(){}\n"));
    assert_eq!(code.drain(Reply::Next), Action::Finished);
}

#[test]
fn same_snippet_twice_gives_the_same_write_twice() {
    let mut code = CodeAssistant::new();
    for _ in 0..2 {
        code.on_code_open(header("rust", Some("a.rs")));
        code.on_code_chars("  let x = `1`;\r\n\n");
        code.on_code_close();
    }
    let first = code.drain(Reply::Next);
    let second = code.drain(Reply::Next);
    assert_eq!(first, write("a.rs", "  let x = `1`;\r\n\n"));
    assert_eq!(first, second);
    assert_eq!(code.drain(Reply::Next), Action::Finished);
}

#[test]
fn failed_shell_command_halts_and_leaves_the_rest_queued() {
    let mut code = CodeAssistant::new();
    code.on_code_open(header("sh", None));
    code.on_code_chars("exit 1");
    code.on_code_close();
    code.on_code_open(header("rust", Some("later.rs")));
    code.on_code_chars("fn later() {}");
    code.on_code_close();
    assert_eq!(code.queued(), 2);
    assert_eq!(code.drain(Reply::Next), Action::AskChoice);
    assert_eq!(code.drain(answer("shell")), Action::Execute { command: "exit 1".to_string() });
    assert_eq!(code.drain(Reply::Exit(1)), Action::Halt { exit_code: 1 });
    assert_eq!(code.queued(), 1);
    // the snippet that was left is the one that followed
    assert_eq!(code.drain(Reply::Next), write("later.rs", "fn later() {}"));
}

#[test]
fn negative_exit_code_halts_too() {
    let mut code = CodeAssistant::new();
    code.push(&chars("sh\nkill -9 $$"));
    code.drain(Reply::Next);
    code.drain(answer("shell"));
    assert_eq!(code.drain(Reply::Exit(-1)), Action::Halt { exit_code: -1 });
}

#[test]
fn successful_shell_command_goes_on_with_the_next_snippet() {
    let mut code = CodeAssistant::new();
    code.push(&chars("sh\ntrue"));
    code.push(&chars("rust-b.rs\nfn b() {}"));
    assert_eq!(code.drain(Reply::Next), Action::AskChoice);
    assert_eq!(code.drain(answer("shell")), Action::Execute { command: "true".to_string() });
    assert_eq!(code.drain(Reply::Exit(0)), write("b.rs", "fn b() {}"));
    assert_eq!(code.drain(Reply::Next), Action::Finished);
}

#[test]
fn successful_last_command_finishes() {
    let mut code = CodeAssistant::new();
    code.push(&chars("sh\ntrue"));
    code.drain(Reply::Next);
    code.drain(answer("shell"));
    assert_eq!(code.drain(Reply::Exit(0)), Action::Finished);
}

#[test]
fn drop_and_other_answers_put_the_question_again() {
    let mut code = CodeAssistant::new();
    code.push(&chars("sh\nls"));
    assert_eq!(code.drain(Reply::Next), Action::AskChoice);
    assert_eq!(code.drain(answer("drop")), Action::AskChoice);
    assert_eq!(code.drain(answer("")), Action::AskChoice);
    assert_eq!(code.drain(answer("Shell")), Action::AskChoice);
    assert_eq!(code.drain(answer("shell")), Action::Execute { command: "ls".to_string() });
}

#[test]
fn file_choice_asks_for_the_name_and_writes_there() {
    let mut code = CodeAssistant::new();
    code.push(&chars("toml\n[package]\n"));
    assert_eq!(code.drain(Reply::Next), Action::AskChoice);
    assert_eq!(code.drain(answer("file")), Action::AskFilename);
    assert_eq!(code.drain(answer("Cargo.toml")), write("Cargo.toml", "[package]\n"));
    assert_eq!(code.drain(Reply::Next), Action::Finished);
}

#[test]
fn closed_console_fails_and_keeps_the_question_open() {
    let mut code = CodeAssistant::new();
    code.push(&chars("sh\nls"));
    assert_eq!(code.drain(Reply::Next), Action::AskChoice);
    assert_eq!(code.drain(Reply::ConsoleClosed), Action::Fail(DrainError::ConsoleClosed));
    assert_eq!(code.drain(answer("file")), Action::AskFilename);
    assert_eq!(code.drain(Reply::ConsoleClosed), Action::Fail(DrainError::ConsoleClosed));
    assert_eq!(code.drain(answer("x.sh")), write("x.sh", "ls"));
}

#[test]
fn reply_that_answers_nothing_asked_is_refused() {
    let mut code = CodeAssistant::new();
    assert_eq!(code.drain(Reply::Exit(0)), Action::Fail(DrainError::UnexpectedReply));
    assert_eq!(code.drain(answer("file")), Action::Fail(DrainError::UnexpectedReply));
    assert_eq!(code.drain(Reply::ConsoleClosed), Action::Fail(DrainError::UnexpectedReply));
    code.push(&chars("sh\nls"));
    assert_eq!(code.drain(Reply::Next), Action::AskChoice);
    assert_eq!(code.drain(Reply::Next), Action::Fail(DrainError::UnexpectedReply));
    assert_eq!(code.drain(Reply::Exit(0)), Action::Fail(DrainError::UnexpectedReply));
    assert_eq!(code.drain(answer("shell")), Action::Execute { command: "ls".to_string() });
    assert_eq!(code.drain(Reply::Next), Action::Fail(DrainError::UnexpectedReply));
    assert_eq!(code.drain(answer("x")), Action::Fail(DrainError::UnexpectedReply));
    assert_eq!(code.drain(Reply::ConsoleClosed), Action::Fail(DrainError::UnexpectedReply));
    assert_eq!(code.drain(Reply::Exit(0)), Action::Finished);
}

#[test]
fn snippets_leave_in_the_order_they_came() {
    let mut code = CodeAssistant::new();
    code.push(&chars("rust-1.rs\none"));
    code.push(&chars("rust-2.rs\ntwo"));
    code.push(&chars("rust-3.rs\nthree"));
    assert_eq!(code.queued(), 3);
    assert_eq!(code.drain(Reply::Next), write("1.rs", "one"));
    assert_eq!(code.drain(Reply::Next), write("2.rs", "two"));
    assert_eq!(code.drain(Reply::Next), write("3.rs", "three"));
    assert_eq!(code.drain(Reply::Next), Action::Finished);
    assert_eq!(code.queued(), 0);
}

#[test]
fn empty_queue_is_finished_at_once() {
    let mut code = CodeAssistant::new();
    assert_eq!(code.queued(), 0);
    assert_eq!(code.drain(Reply::Next), Action::Finished);
    assert_eq!(code.drain(Reply::Next), Action::Finished);
}

#[test]
fn flush_seals_the_open_snippet() {
    let mut code = CodeAssistant::new();
    code.on_code_open(header("rust", Some("a.rs")));
    code.on_code_chars("fn f(");
    assert_eq!(code.queued(), 0);
    code.flush();
    assert_eq!(code.queued(), 1);
    code.flush();
    assert_eq!(code.queued(), 1);
    assert_eq!(code.drain(Reply::Next), write("a.rs", "fn f("));
}

#[test]
fn code_text_is_gathered_across_calls() {
    let mut code = CodeAssistant::new();
    code.on_code_open(header("rust", Some("a.rs")));
    code.on_code_chars("fn ");
    code.on_code_chars("");
    code.on_code_chars("f(){}");
    code.on_code_chars("\n");
    code.on_code_close();
    assert_eq!(code.drain(Reply::Next), write("a.rs", "fn f(){}\n"));
}

#[test]
fn code_events_without_an_open_block_change_nothing() {
    let mut code = CodeAssistant::new();
    code.on_code_chars("stray");
    code.on_code_close();
    code.flush();
    assert_eq!(code.queued(), 0);
}

#[test]
fn opening_twice_seals_the_first_snippet() {
    let mut code = CodeAssistant::new();
    code.on_code_open(header("rust", Some("a.rs")));
    code.on_code_chars("a");
    code.on_code_open(header("rust", Some("b.rs")));
    code.on_code_chars("b");
    code.on_code_close();
    assert_eq!(code.drain(Reply::Next), write("a.rs", "a"));
    assert_eq!(code.drain(Reply::Next), write("b.rs", "b"));
}

#[test]
fn pushed_block_text_is_read_as_header_line_and_body() {
    assert_eq!(
        parse_snippet(&chars("```rust-a.rs\nfn f(){}\n")),
        Snippet { header: header("rust", Some("a.rs")), body: "fn f(){}\n".to_string() }
    );
    assert_eq!(
        parse_snippet(&chars("rust-a.rs\nfn f(){}\n")),
        Snippet { header: header("rust", Some("a.rs")), body: "fn f(){}\n".to_string() }
    );
    assert_eq!(
        parse_snippet(&chars("``````sh\na\nb")),
        Snippet { header: header("sh", None), body: "a\nb".to_string() }
    );
    assert_eq!(
        parse_snippet(&chars("````sh\nls")),
        Snippet { header: header("`sh", None), body: "ls".to_string() }
    );
    assert_eq!(
        parse_snippet(&chars("``sh\nls")),
        Snippet { header: header("``sh", None), body: "ls".to_string() }
    );
    assert_eq!(
        parse_snippet(&chars("sh")),
        Snippet { header: header("sh", None), body: String::new() }
    );
    assert_eq!(parse_snippet(&[]), Snippet { header: header("", None), body: String::new() });
    assert_eq!(
        parse_snippet(&chars("```\n\n")),
        Snippet { header: header("", None), body: "\n".to_string() }
    );
}

#[test]
fn pushed_block_is_queued() {
    let mut code = CodeAssistant::new();
    code.push(&chars("```rust-a.rs\nfn f(){}\n"));
    assert_eq!(code.queued(), 1);
    assert_eq!(code.drain(Reply::Next), write("a.rs", "fn f(){}\n"));
}

#[test]
fn answers_are_read_exactly() {
    assert_eq!(decide("file"), Choice::File);
    assert_eq!(decide("shell"), Choice::Shell);
    assert_eq!(decide("drop"), Choice::Drop);
    assert_eq!(decide(""), Choice::Drop);
    assert_eq!(decide("File"), Choice::Drop);
    assert_eq!(decide(" file"), Choice::Drop);
    assert_eq!(decide("files"), Choice::Drop);
    assert_eq!(decide("shel"), Choice::Drop);
}

#[test]
fn routed_block_becomes_one_snippet_however_it_is_cut() {
    let text: Vec<char> = "```rust-a.rs\nfn f(){}\n```".chars().collect();
    for i in 0..=text.len() {
        for j in i..=text.len() {
            let mut router = Router::new();
            let mut code = CodeAssistant::new();
            for part in [&text[..i], &text[i..j], &text[j..]] {
                let fragment: String = part.iter().collect();
                for event in router.feed(&fragment) {
                    code.accept(event);
                }
            }
            for event in router.finish() {
                code.accept(event);
            }
            code.flush();
            assert_eq!(code.queued(), 1);
            assert_eq!(code.drain(Reply::Next), write("a.rs", "fn f(){}\n"));
            assert_eq!(code.drain(Reply::Next), Action::Finished);
        }
    }
}

#[test]
fn prose_and_reports_are_not_for_the_code_assistant() {
    let mut code = CodeAssistant::new();
    code.accept(Event::ProseChars("hello".to_string()));
    let mut router = Router::new();
    router.feed("```sh\nls");
    for event in router.finish() {
        code.accept(event);
    }
    assert_eq!(code.queued(), 0);
}

#[test]
fn unterminated_block_is_kept_by_flush() {
    let mut router = Router::new();
    let mut code = CodeAssistant::new();
    for event in router.feed("```sh-run.sh\necho hi") {
        code.accept(event);
    }
    for event in router.finish() {
        code.accept(event);
    }
    code.flush();
    assert_eq!(code.drain(Reply::Next), write("run.sh", "echo hi"));
}
