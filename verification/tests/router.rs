use pair_assistant::event::{emit_event, join_events, Event, Malformation};
use pair_assistant::header::{parse_header, Header};
use pair_assistant::router::{FenceState, Router};

const BLOCK: &str = "```rust-a.rs\nfn f(){}\n```";

fn prose(text: &str) -> Event {
    Event::ProseChars(text.to_string())
}

fn code(text: &str) -> Event {
    Event::CodeChars(text.to_string())
}

fn open(language: &str, filename: Option<&str>) -> Event {
    Event::CodeOpen(Header {
        language: language.to_string(),
        filename: filename.map(|f| f.to_string()),
    })
}

/// Feeds `text` cut at the given character positions.
fn feed_cut(text: &str, cuts: &[usize]) -> (Vec<Event>, FenceState) {
    let chars: Vec<char> = text.chars().collect();
    let mut router = Router::new();
    let mut all = Vec::new();
    let mut from = 0;
    for &cut in cuts.iter().chain(std::iter::once(&chars.len())) {
        let fragment: String = chars[from..cut].iter().collect();
        join_events(&mut all, router.feed(&fragment));
        from = cut;
    }
    (all, router.state())
}

fn block_events() -> Vec<Event> {
    vec![open("rust", Some("a.rs")), code("fn f(){}\n"), Event::CodeClose]
}

#[test]
fn whole_block_in_one_fragment() {
    let mut router = Router::new();
    assert_eq!(router.feed(BLOCK), block_events());
    assert_eq!(router.state(), FenceState::Prose);
    assert!(router.finish().is_empty());
}

#[test]
fn block_one_character_per_fragment() {
    let cuts: Vec<usize> = (1..BLOCK.chars().count()).collect();
    assert_eq!(feed_cut(BLOCK, &cuts), (block_events(), FenceState::Prose));
}

#[test]
fn block_cut_in_two_anywhere() {
    let n = BLOCK.chars().count();
    for i in 0..=n {
        assert_eq!(feed_cut(BLOCK, &[i]), (block_events(), FenceState::Prose), "cut at {}", i);
    }
}

#[test]
fn block_cut_in_three_anywhere() {
    let n = BLOCK.chars().count();
    for i in 0..=n {
        for j in i..=n {
            assert_eq!(
                feed_cut(BLOCK, &[i, j]),
                (block_events(), FenceState::Prose),
                "cuts at {} and {}",
                i,
                j
            );
        }
    }
}

#[test]
fn block_cut_in_four_anywhere() {
    let n = BLOCK.chars().count();
    for i in 1..n {
        for j in i..n {
            for k in j..n {
                assert_eq!(feed_cut(BLOCK, &[i, j, k]), (block_events(), FenceState::Prose));
            }
        }
    }
}

#[test]
fn block_cut_at_random() {
    let n = BLOCK.chars().count();
    let mut seed: u64 = 0x2545_f491_4f6c_dd1d;
    for _ in 0..20_000 {
        seed ^= seed << 13;
        seed ^= seed >> 7;
        seed ^= seed << 17;
        let cuts: Vec<usize> = (1..n).filter(|i| seed & (1 << i) != 0).collect();
        assert_eq!(feed_cut(BLOCK, &cuts), (block_events(), FenceState::Prose), "seed {}", seed);
    }
}

#[test]
fn short_block_cut_in_every_way() {
    let text = "```a-b\nc`d\n```";
    let expected = vec![open("a", Some("b")), code("c`d\n"), Event::CodeClose];
    let n = text.chars().count();
    for mask in 0u32..(1 << (n - 1)) {
        let cuts: Vec<usize> = (1..n).filter(|i| mask & (1 << (i - 1)) != 0).collect();
        assert_eq!(feed_cut(text, &cuts), (expected.clone(), FenceState::Prose), "mask {}", mask);
    }
}

#[test]
fn block_emits_no_prose() {
    let (events, _) = feed_cut(BLOCK, &[1, 2, 14, 23, 24]);
    assert!(events.iter().all(|e| !matches!(e, Event::ProseChars(_))));
    assert_eq!(events.iter().filter(|e| matches!(e, Event::CodeOpen(_))).count(), 1);
    assert_eq!(events.iter().filter(|e| matches!(e, Event::CodeClose)).count(), 1);
}

#[test]
fn fence_split_one_then_two_backticks() {
    let mut router = Router::new();
    assert!(router.feed("`").is_empty());
    assert_eq!(router.state(), FenceState::PendingOpen(1));
    assert_eq!(router.feed("``sh\n"), vec![open("sh", None)]);
    assert_eq!(router.state(), FenceState::InCode);
    assert_eq!(router.feed("ls"), vec![code("ls")]);
    assert!(router.feed("``").is_empty());
    assert_eq!(router.state(), FenceState::PendingClose(2));
    assert_eq!(router.feed("`"), vec![Event::CodeClose]);
    assert_eq!(router.state(), FenceState::Prose);
}

#[test]
fn prose_around_a_block() {
    let mut router = Router::new();
    let events = router.feed("Here it is:\n```sh\nls\n```\nDone.");
    assert_eq!(
        events,
        vec![prose("Here it is:\n"), open("sh", None), code("ls\n"), Event::CodeClose, prose("\nDone.")]
    );
}

#[test]
fn single_backtick_in_code_is_code() {
    let mut router = Router::new();
    let events = router.feed("```sh\necho `date`\n```");
    assert_eq!(events, vec![open("sh", None), code("echo `date`\n"), Event::CodeClose]);
}

#[test]
fn double_backtick_in_code_is_code() {
    let mut router = Router::new();
    let events = router.feed("```md\na ``b`` c\n```");
    assert_eq!(events, vec![open("md", None), code("a ``b`` c\n"), Event::CodeClose]);
}

#[test]
fn held_backticks_in_code_are_released_by_the_next_fragment() {
    let mut router = Router::new();
    router.feed("```sh\n");
    assert_eq!(router.feed("a`"), vec![code("a")]);
    assert_eq!(router.state(), FenceState::PendingClose(1));
    assert_eq!(router.feed("b"), vec![code("`b")]);
    assert_eq!(router.state(), FenceState::InCode);
    assert!(router.feed("``").is_empty());
    assert_eq!(router.feed("c"), vec![code("``c")]);
}

#[test]
fn six_backticks_in_a_body_do_not_count_up() {
    // six single backticks, never three in a row: the block stays open
    let mut router = Router::new();
    let events = router.feed("```sh\n`a`b`c`d`e`f\n");
    assert_eq!(events, vec![open("sh", None), code("`a`b`c`d`e`f\n")]);
    assert_eq!(router.state(), FenceState::InCode);
}

#[test]
fn stray_backticks_in_prose_are_prose() {
    let mut router = Router::new();
    assert_eq!(router.feed("use `x` and ``y`` here"), vec![prose("use `x` and ``y`` here")]);
    assert_eq!(router.state(), FenceState::Prose);
}

#[test]
fn held_backticks_in_prose_are_released_by_the_next_fragment() {
    let mut router = Router::new();
    assert_eq!(router.feed("a`"), vec![prose("a")]);
    assert_eq!(router.feed("b"), vec![prose("`b")]);
    assert!(router.feed("``").is_empty());
    assert_eq!(router.state(), FenceState::PendingOpen(2));
    assert_eq!(router.feed("c"), vec![prose("``c")]);
}

#[test]
fn three_backticks_in_mid_line_close_the_block() {
    let mut router = Router::new();
    let events = router.feed("```sh\na```b");
    assert_eq!(events, vec![open("sh", None), code("a"), Event::CodeClose, prose("b")]);
}

#[test]
fn fourth_backtick_after_a_close_is_held_as_prose() {
    let mut router = Router::new();
    let events = router.feed("```sh\nx\n````");
    assert_eq!(events, vec![open("sh", None), code("x\n"), Event::CodeClose]);
    assert_eq!(router.state(), FenceState::PendingOpen(1));
    assert_eq!(
        router.finish(),
        vec![Event::Malformed(Malformation::PartialFence), prose("`")]
    );
}

#[test]
fn six_backticks_in_a_row_open_and_take_the_rest_as_header() {
    let mut router = Router::new();
    assert!(router.feed("``````").is_empty());
    assert_eq!(router.state(), FenceState::InCode);
    assert_eq!(
        router.finish(),
        vec![Event::Malformed(Malformation::UnterminatedHeader), prose("``````")]
    );
}

#[test]
fn empty_header_and_empty_body() {
    let mut router = Router::new();
    assert_eq!(router.feed("```\n```"), vec![open("", None), Event::CodeClose]);
}

#[test]
fn empty_fragment_changes_nothing() {
    let mut router = Router::new();
    assert!(router.feed("").is_empty());
    assert_eq!(router.state(), FenceState::Prose);
    router.feed("``");
    assert!(router.feed("").is_empty());
    assert_eq!(router.state(), FenceState::PendingOpen(2));
}

#[test]
fn finish_in_prose_releases_nothing() {
    let mut router = Router::new();
    router.feed("All good.");
    assert!(router.finish().is_empty());
}

#[test]
fn finish_on_held_backticks_releases_them_as_prose() {
    let mut router = Router::new();
    assert_eq!(router.feed("see `"), vec![prose("see ")]);
    assert_eq!(
        router.finish(),
        vec![Event::Malformed(Malformation::PartialFence), prose("`")]
    );
    assert_eq!(router.state(), FenceState::Prose);
}

#[test]
fn finish_in_header_releases_fence_and_line_as_prose() {
    let mut router = Router::new();
    assert!(router.feed("```rust-a").is_empty());
    assert_eq!(
        router.finish(),
        vec![Event::Malformed(Malformation::UnterminatedHeader), prose("```rust-a")]
    );
    assert_eq!(router.state(), FenceState::Prose);
}

#[test]
fn finish_in_body_reports_unterminated_code() {
    let mut router = Router::new();
    router.feed("```sh\nls");
    assert_eq!(router.finish(), vec![Event::Malformed(Malformation::UnterminatedCode)]);
    assert_eq!(router.state(), FenceState::Prose);
}

#[test]
fn finish_on_backticks_held_in_code_releases_them() {
    let mut router = Router::new();
    router.feed("```sh\nls``");
    assert_eq!(
        router.finish(),
        vec![Event::Malformed(Malformation::UnterminatedCode), prose("``")]
    );
}

#[test]
fn router_starts_afresh_after_finish() {
    let mut router = Router::new();
    router.feed("```sh\nls");
    router.finish();
    assert_eq!(router.feed(BLOCK), block_events());
}

fn source(events: &[Event]) -> String {
    let mut text = String::new();
    for event in events {
        match event {
            Event::ProseChars(t) | Event::CodeChars(t) => text.push_str(t),
            Event::CodeOpen(h) => {
                text.push_str("```");
                text.push_str(&h.language);
                if let Some(f) = &h.filename {
                    text.push('-');
                    text.push_str(f);
                }
                text.push('\n');
            }
            Event::CodeClose => text.push_str("```"),
            Event::Malformed(_) => {}
        }
    }
    text
}

#[test]
fn every_character_is_accounted_for() {
    let streams = [
        "plain",
        "a`b``c```d-e-f\ng`h``i```j`",
        "```x",
        "``",
        "```a-b-c\nbody``",
        "text ```py-x.py\nprint(1)\n``` more ```\n```` tail",
        "",
    ];
    for stream in streams {
        let n = stream.chars().count();
        for cut in 0..=n {
            let chars: Vec<char> = stream.chars().collect();
            let head: String = chars[..cut].iter().collect();
            let tail: String = chars[cut..].iter().collect();
            let mut router = Router::new();
            let mut events = router.feed(&head);
            events.extend(router.feed(&tail));
            events.extend(router.finish());
            assert_eq!(source(&events), stream);
        }
    }
}

#[test]
fn header_with_language_and_filename() {
    assert_eq!(
        parse_header("rust-a.rs"),
        Header { language: "rust".to_string(), filename: Some("a.rs".to_string()) }
    );
}

#[test]
fn header_with_language_only() {
    assert_eq!(parse_header("bash"), Header { language: "bash".to_string(), filename: None });
}

#[test]
fn header_is_cut_at_the_first_dash_only() {
    assert_eq!(
        parse_header("rust-my-file.rs"),
        Header { language: "rust".to_string(), filename: Some("my-file.rs".to_string()) }
    );
}

#[test]
fn header_edge_cases() {
    assert_eq!(parse_header(""), Header { language: String::new(), filename: None });
    assert_eq!(
        parse_header("-x"),
        Header { language: String::new(), filename: Some("x".to_string()) }
    );
    assert_eq!(
        parse_header("py-"),
        Header { language: "py".to_string(), filename: Some(String::new()) }
    );
    assert_eq!(
        parse_header("c++ -ü.rs "),
        Header { language: "c++ ".to_string(), filename: Some("ü.rs ".to_string()) }
    );
}

#[test]
fn text_beyond_ascii_passes_through() {
    let mut router = Router::new();
    let events = router.feed("héllo ```py-ü.py\nprint('→')\n``` ✓");
    assert_eq!(
        events,
        vec![
            prose("héllo "),
            open("py", Some("ü.py")),
            code("print('→')\n"),
            Event::CodeClose,
            prose(" ✓"),
        ]
    );
}

#[test]
fn events_are_joined_across_fragments() {
    let mut all = vec![prose("a")];
    join_events(&mut all, vec![prose("b"), open("sh", None), code("x")]);
    assert_eq!(all, vec![prose("ab"), open("sh", None), code("x")]);
    join_events(&mut all, vec![code("y"), code("z"), Event::CodeClose, prose("p")]);
    assert_eq!(
        all,
        vec![prose("ab"), open("sh", None), code("xyz"), Event::CodeClose, prose("p")]
    );
    join_events(&mut all, Vec::new());
    assert_eq!(all.len(), 5);
    let mut none = Vec::new();
    join_events(&mut none, vec![code("c")]);
    assert_eq!(none, vec![code("c")]);
}

#[test]
fn text_of_different_kinds_is_not_joined() {
    let mut all = vec![prose("a")];
    emit_event(&mut all, code("b"));
    emit_event(&mut all, prose("c"));
    emit_event(&mut all, prose("d"));
    emit_event(&mut all, Event::CodeClose);
    emit_event(&mut all, Event::CodeClose);
    assert_eq!(all, vec![prose("a"), code("b"), prose("cd"), Event::CodeClose, Event::CodeClose]);
}
