use tethera_server::terminal::delta::{Advance, OutputDelta};
use tethera_server::terminal::emulator::Size;
use tethera_server::terminal::herdr::{HerdrSource, PaneView};
use tethera_server::terminal::keys::{Key, KeyEncoder, Mods, TerminalInput};
use tethera_server::terminal::link::{Downlink, Uplink};
use tethera_server::terminal::pending::PendingQuestion;
use tethera_server::terminal::picker::{Picker, PickerError, ScreenChrome};
use tethera_server::terminal::prompt::PromptDetector;
use tethera_server::terminal::relay::{greeting, parse_hello, Half, Hello};
use tethera_server::terminal::shim::{ResizeOwner, ResizeStep};
use tethera_server::terminal::shim_screen::ShimScreen;
use tethera_server::terminal::source::PaneSource;
use tethera_server::transcript::question::{Answer, Ask, Question, QuestionOption};

fn chrome() -> ScreenChrome {
    ScreenChrome {
        review_marker: "Review your answers".to_string(),
        submit: '1',
        preview_hint: "Notes:".to_string(),
        cursor: '❯',
        rule: '─',
    }
}

fn option(label: &str) -> QuestionOption {
    QuestionOption { label: label.to_string(), description: None }
}

fn ask(prompt: &str, labels: &[&str]) -> Ask {
    Ask {
        header: None,
        prompt: prompt.to_string(),
        options: labels.iter().map(|l| option(l)).collect(),
        multi_select: false,
        allows_free_text: false,
    }
}

#[test]
fn downlink_frames_and_reads_back() {
    let message = Downlink::Resize { cols: 80, rows: 24 };
    let bytes = message.encode();
    assert_eq!(bytes, vec![1, 0, 0, 0, 4, 0, 80, 0, 24]);
    let header: [u8; 5] = [bytes[0], bytes[1], bytes[2], bytes[3], bytes[4]];
    assert_eq!(Downlink::payload_length(header), Some(4));
    assert_eq!(Downlink::decode(bytes[0], &bytes[5..]), Some(message));
    assert_eq!(Downlink::decode(7, &[]), None);
}

#[test]
fn uplink_output_carries_its_bytes() {
    let message = Uplink::Output(vec![0x68, 0x69]);
    let bytes = message.encode();
    assert_eq!(bytes, vec![0, 0, 0, 0, 2, 0x68, 0x69]);
    assert_eq!(Uplink::decode(0, &bytes[5..]), Some(message));
}

#[test]
fn delta_first_read_is_all_new() {
    let mut delta = OutputDelta::new();
    assert_eq!(delta.advance("a\nb"), Advance::Appended("a\nb".to_string()));
}

#[test]
fn delta_growing_read_appends_the_rest() {
    let mut delta = OutputDelta::new();
    let _ = delta.advance("a\nb");
    assert_eq!(delta.advance("a\nb\nc"), Advance::Appended("\nc".to_string()));
}

#[test]
fn keys_encode_text_and_keys() {
    assert_eq!(KeyEncoder::text("hi", false), b"hi".to_vec());
    assert_eq!(KeyEncoder::key(Key::Enter, Mods::none(), false), vec![0x0d]);
    assert_eq!(KeyEncoder::key(Key::Up, Mods::none(), true), b"\x1bOA".to_vec());
    assert_eq!(KeyEncoder::key(Key::Up, Mods::none(), false), b"\x1b[A".to_vec());
    let input = TerminalInput::Key { key: Key::Escape, mods: Mods::none() };
    assert_eq!(KeyEncoder::encode(&input, false, false), vec![0x1b]);
}

#[test]
fn picker_moves_to_a_row_and_takes_it() {
    let picker = Picker::new(chrome());
    let asks = vec![ask("Allow?", &["Yes", "No"])];
    let steps = picker.steps(&asks, &[Answer::Choice(1)], None).expect("an answer");
    assert_eq!(
        steps,
        vec![
            TerminalInput::Key { key: Key::Down, mods: Mods::none() },
            TerminalInput::Key { key: Key::Enter, mods: Mods::none() },
        ]
    );
}

#[test]
fn picker_refuses_a_set_answered_in_part() {
    let picker = Picker::new(chrome());
    let asks = vec![ask("Allow?", &["Yes", "No"])];
    assert!(matches!(picker.steps(&asks, &[], None), Err(PickerError::Parts { asks: 1, answers: 0 })));
}

#[test]
fn detector_reads_a_permission_prompt() {
    let detector = PromptDetector::new(chrome());
    let screen = "Do you want to allow this?\n❯ 1. Yes\n  2. No\n";
    let found = detector.detect(screen).expect("a question");
    assert_eq!(found.prompt, "Do you want to allow this?");
    assert_eq!(found.options, vec![option("Yes"), option("No")]);
    assert!(!found.allows_free_text);
    assert!(!found.multi_select);
}

#[test]
fn detector_lifts_the_free_text_row_under_a_rule() {
    let detector = PromptDetector::new(chrome());
    let screen = "Which one?\n❯ 1. Alpha\n  2. Beta\n  3. Type something\n──────\n  4. Chat about this\n";
    let found = detector.detect(screen).expect("a question");
    assert_eq!(found.options, vec![option("Alpha"), option("Beta")]);
    assert!(found.allows_free_text);
}

#[test]
fn detector_takes_a_wrapped_description() {
    let detector = PromptDetector::new(chrome());
    let screen = "Pick?\n❯ 1. Alpha\n     the first\n  2. Beta\n\n  footer\n";
    let found = detector.detect(screen).expect("a question");
    assert_eq!(found.options[0].description, Some("the first".to_string()));
    assert_eq!(found.options[1].description, None);
}

#[test]
fn detector_declines_a_list_with_the_composer_below() {
    let detector = PromptDetector::new(chrome());
    let screen = "Steps:\n1. Alpha\n2. Beta\n❯ \n";
    assert!(detector.detect(screen).is_none());
}

#[test]
fn detector_declines_a_list_that_skips_a_number() {
    let detector = PromptDetector::new(chrome());
    assert!(detector.detect("Pick?\n1. Alpha\n3. Gamma\n").is_none());
    assert!(detector.detect("no list here").is_none());
}

#[test]
fn shim_drops_window_operations_only() {
    let mut shim = ShimScreen::new(Size { cols: 80, rows: 24 });
    let out = shim.forward(b"a\x1b[8;30;58tb\x1b[1mc");
    assert_eq!(out, b"ab\x1b[1mc".to_vec());
}

#[test]
fn shim_holds_a_sequence_split_across_reads() {
    let mut shim = ShimScreen::new(Size { cols: 80, rows: 24 });
    assert_eq!(shim.forward(b"x\x1b[8;3"), b"x".to_vec());
    assert_eq!(shim.forward(b"0;58ty"), b"y".to_vec());
    assert_eq!(shim.forward(b"\x1b]0;title\x07"), b"\x1b]0;title\x07".to_vec());
}

#[test]
fn herdr_text_becomes_crlf_bytes() {
    assert_eq!(HerdrSource::as_stream("a\nb\r\nc"), b"a\r\nb\r\nc".to_vec());
}

#[test]
fn herdr_feeds_only_what_a_read_added() {
    let mut delta = OutputDelta::new();
    assert_eq!(HerdrSource::bytes_for(&mut delta, "one"), Some(b"one".to_vec()));
    assert_eq!(HerdrSource::bytes_for(&mut delta, "one"), None);
    assert_eq!(HerdrSource::bytes_for(&mut delta, "one\ntwo"), Some(b"\r\ntwo".to_vec()));
}

#[test]
fn herdr_shape_follows_the_view() {
    let pane = Size { cols: 120, rows: 40 };
    let phone = Size { cols: 40, rows: 20 };
    assert_eq!(HerdrSource::shape(pane, PaneView::Lines, phone), phone);
    assert_eq!(HerdrSource::shape(pane, PaneView::Screen, phone), pane);
}

#[test]
fn pending_question_ticks_per_ask() {
    let question = Question { id: "q".to_string(), fingerprint: "f".to_string(), asks: vec![ask("A?", &["x", "y"])] };
    let pending = PendingQuestion::new(question.clone(), Some(vec![vec![true, false]]));
    assert_eq!(pending.ticks_for(0), Some(&[true, false][..]));
    assert_eq!(pending.ticks_for(1), None);
    assert_eq!(PendingQuestion::new(question, None).ticks_for(0), None);
}

#[test]
fn only_a_streamed_pane_is_answered_here() {
    assert!(PaneSource::Streamed.answers_queries());
    assert!(!PaneSource::Relayed.answers_queries());
}

#[test]
fn greeting_names_pane_size_and_half() {
    assert_eq!(greeting("w85:p3", 120, 40, Half::Down), "w85:p3 120 40 down\n");
    assert_eq!(greeting("p", 0, 7, Half::Up), "p 0 7 up\n");
}

#[test]
fn greeting_reads_back_as_what_it_announced() {
    let line = greeting("w85:p3", 65535, 1, Half::Down);
    assert_eq!(
        parse_hello(&line),
        Some(Hello { pane: "w85:p3".to_string(), cols: 65535, rows: 1, half: Half::Down })
    );
}

#[test]
fn hello_defaults_a_missing_or_unreadable_size() {
    assert_eq!(
        parse_hello("  pane\n"),
        Some(Hello { pane: "pane".to_string(), cols: 80, rows: 24, half: Half::Up })
    );
    assert_eq!(
        parse_hello("pane wide +7 sideways"),
        Some(Hello { pane: "pane".to_string(), cols: 80, rows: 7, half: Half::Up })
    );
    assert_eq!(
        parse_hello("pane 70000 -1 down extra"),
        Some(Hello { pane: "pane".to_string(), cols: 80, rows: 24, half: Half::Down })
    );
}

#[test]
fn hello_without_a_pane_is_refused() {
    assert_eq!(parse_hello(""), None);
    assert_eq!(parse_hello(" \t\n"), None);
}

#[test]
fn a_claim_holds_the_pty_and_its_release_restores_the_desk() {
    let mut owner = ResizeOwner::new((100, 40));
    assert_eq!(owner.tick(false, (100, 40)), ResizeStep::Wait);
    assert_eq!(owner.tick(true, (58, 30)), ResizeStep::Wait);
    assert_eq!(owner.tick(true, (58, 30)), ResizeStep::Wait);
    let step = owner.tick(false, (58, 30));
    assert_eq!(step, ResizeStep::Restore { cols: 100, rows: 40 });
    owner.took(step);
    assert_eq!(owner.tick(false, (100, 40)), ResizeStep::Wait);
}

#[test]
fn the_pty_follows_the_desk_when_nothing_is_claimed() {
    let mut owner = ResizeOwner::new((80, 24));
    let step = owner.tick(false, (120, 50));
    assert_eq!(step, ResizeStep::Follow { cols: 120, rows: 50 });
    // A refused resize is tried again on the next tick.
    assert_eq!(owner.tick(false, (120, 50)), step);
    owner.took(step);
    assert_eq!(owner.tick(false, (120, 50)), ResizeStep::Wait);
    assert_eq!((owner.desk, owner.applied), ((120, 50), (120, 50)));
}

#[test]
fn an_empty_or_missing_size_is_eighty_by_twenty_four() {
    assert_eq!(ResizeOwner::sane_size(Some((0, 30))), (80, 24));
    assert_eq!(ResizeOwner::sane_size(None), (80, 24));
    assert_eq!(ResizeOwner::sane_size(Some((132, 43))), (132, 43));
}
