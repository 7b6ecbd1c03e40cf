use tethera_server::transcript::assets::AssetNaming;
use tethera_server::transcript::attachment::Attachment;
use tethera_server::transcript::body::MessageBody;
use tethera_server::transcript::command::{CommandTags, SlashCommand};
use tethera_server::transcript::content::ContentBlock;
use tethera_server::transcript::grouping::TurnGrouping;
use tethera_server::transcript::index::TranscriptIndex;
use tethera_server::transcript::mapper::TurnMapper;
use tethera_server::transcript::span::RecordSpan;
use tethera_server::transcript::json::Json;
use tethera_server::transcript::message::Message;
use tethera_server::transcript::origin::AttachmentOrigin;
use tethera_server::transcript::question::{Ask, Question, QuestionOption};
use tethera_server::transcript::reader::TranscriptReader;
use tethera_server::transcript::budget::PageBudget;
use tethera_server::transcript::record::{Record, Role, Timestamp};
use tethera_server::transcript::sent::SentFiles;
use tethera_server::transcript::stats::{ModelWindow, StatsRule};
use tethera_server::transcript::status::{AgentStatus, StatusRule};
use tethera_server::transcript::summary::{SessionCatalog, SessionSummary};
use tethera_server::transcript::tables::{MarkdownTables, Segment};
use tethera_server::transcript::tools::ToolTables;
use tethera_server::transcript::results::ToolOutcome;
use tethera_server::transcript::turn::{Part, ToolStatus, Turn};
use tethera_server::transcript::usage::Usage;

fn tool(name: &str, status: ToolStatus) -> Part {
    Part::ToolUse {
        name: name.to_string(),
        input: String::new(),
        result: None,
        status,
        fallback_text: name.to_string(),
    }
}

fn record(kind: &str) -> Record {
    Record { kind: kind.to_string(), ..Record::default() }
}

fn with_blocks(kind: &str, blocks: Vec<ContentBlock>) -> Record {
    Record {
        kind: kind.to_string(),
        message: Some(Message { content: MessageBody::Blocks(blocks), ..Message::default() }),
        ..Record::default()
    }
}

fn text_block(text: &str) -> ContentBlock {
    ContentBlock::Text { text: text.to_string() }
}

fn tool_use(id: &str) -> ContentBlock {
    ContentBlock::ToolUse { id: id.to_string(), name: "Bash".to_string(), input: Json::Null }
}

fn tags() -> CommandTags {
    CommandTags {
        record_kind: "system".to_string(),
        record_subtype: "local_command".to_string(),
        name: "command-name".to_string(),
        args: "command-args".to_string(),
        stdout: "local-command-stdout".to_string(),
    }
}

fn question(prompt: &str) -> Question {
    Question {
        id: "q1".to_string(),
        fingerprint: "f1".to_string(),
        asks: vec![Ask {
            header: None,
            prompt: prompt.to_string(),
            options: vec![QuestionOption { label: "Yes".to_string(), description: None }],
            multi_select: false,
            allows_free_text: false,
        }],
    }
}

fn windows() -> Vec<ModelWindow> {
    vec![
        ModelWindow { prefix: "acme-large-5".to_string(), window: 1_000_000 },
        ModelWindow { prefix: "acme-large".to_string(), window: 200_000 },
    ]
}

fn turn(parts: Vec<Part>) -> Turn {
    Turn { role: Role::Agent, at: None, parts }
}

#[test]
fn record_kinds_and_roles() {
    assert!(record("assistant").is_assistant());
    assert!(record("user").is_user());
    assert_eq!(record("assistant").role(None), Some(Role::Agent));
    assert_eq!(record("user").role(None), Some(Role::Operator));
    assert_eq!(record("progress").role(None), None);
    assert!(!record("progress").is_turn_candidate(None));
}

#[test]
fn record_local_command_needs_the_harness_table() {
    let mut r = record("system");
    r.subtype = Some("local_command".to_string());
    assert!(r.is_local_command(Some(&tags())));
    assert!(!r.is_local_command(None));
    assert_eq!(r.role(Some(&tags())), Some(Role::Operator));
}

#[test]
fn record_queued_prompt_is_a_person_only_with_a_human_origin() {
    let mut r = record("attachment");
    r.attachment = Some(Attachment {
        kind: "queued_command".to_string(),
        prompt: MessageBody::Text("hold on".to_string()),
        origin: Some(AttachmentOrigin { kind: Some("human".to_string()) }),
    });
    assert!(r.is_queued_prompt());
    assert_eq!(r.queued_text(), Some("hold on".to_string()));
    r.attachment.as_mut().unwrap().origin = None;
    assert!(!r.is_queued_prompt());
    assert_eq!(r.queued_text(), None);
}

#[test]
fn record_interrupt_by_field_or_by_sentence() {
    let mut r = record("user");
    r.interrupted_message_id = Some("m".to_string());
    assert!(r.interrupted());
    let said = with_blocks("user", vec![text_block("  [Request interrupted by user] ")]);
    assert!(said.interrupted());
    assert!(!with_blocks("user", vec![text_block("go on")]).interrupted());
}

#[test]
fn record_text_takes_either_shape() {
    let mut plain = record("user");
    plain.message = Some(Message { content: MessageBody::Text("hi".to_string()), ..Message::default() });
    assert_eq!(plain.text_of_record(), Some("hi"));
    let blocks = with_blocks("assistant", vec![tool_use("t1"), text_block("done")]);
    assert_eq!(blocks.text_of_record(), Some("done"));
    assert_eq!(record("user").text_of_record(), None);
}

#[test]
fn record_tool_results_and_their_ids() {
    let r = with_blocks(
        "user",
        vec![
            ContentBlock::ToolResult { tool_use_id: "a".to_string(), content: Json::Null, is_error: false },
            text_block("x"),
            ContentBlock::ToolResult { tool_use_id: "b".to_string(), content: Json::Null, is_error: true },
        ],
    );
    assert!(r.carries_tool_results());
    assert_eq!(r.answered_tool_ids(), vec!["a".to_string(), "b".to_string()]);
    assert!(!record("user").carries_tool_results());
}

#[test]
fn record_timestamp_reads_rfc3339() {
    let mut r = record("user");
    r.timestamp = Some("1970-01-01T00:00:01.500Z".to_string());
    assert_eq!(r.at(), Some(Timestamp(1500)));
    r.timestamp = Some("yesterday".to_string());
    assert_eq!(r.at(), None);
}

#[test]
fn grouping_joins_adjacent_blocks_of_one_request() {
    let mut a = record("assistant");
    let mut b = record("assistant");
    a.request_id = Some("r1".to_string());
    b.request_id = Some("r1".to_string());
    assert!(TurnGrouping::joins(&a, &b));
    b.request_id = Some("r2".to_string());
    assert!(!TurnGrouping::joins(&a, &b));
    a.request_id = Some(String::new());
    b.request_id = Some(String::new());
    assert!(!TurnGrouping::joins(&a, &b));
    assert!(!TurnGrouping::joins(&record("user"), &record("assistant")));
}

#[test]
fn slash_command_keeps_its_arguments() {
    let text = "<command-name>/goal</command-name>\n<command-message>goal</command-message>\n<command-args>ship it</command-args>";
    assert_eq!(SlashCommand::spoken(&tags(), text), Some("/goal ship it".to_string()));
    assert_eq!(SlashCommand::spoken(&tags(), "<command-name>/clear</command-name>"), Some("/clear".to_string()));
    assert!(SlashCommand::is_command(&tags(), text));
    assert!(!SlashCommand::is_command(&tags(), "plain words"));
}

#[test]
fn slash_command_output_is_none_when_empty() {
    let t = tags();
    assert_eq!(SlashCommand::output(&t, "<local-command-stdout> done </local-command-stdout>"), Some("done".to_string()));
    assert_eq!(SlashCommand::output(&t, "<local-command-stdout>  </local-command-stdout>"), None);
    assert_eq!(CommandTags::between(&['a'], "x"), None);
}

#[test]
fn content_kind_names_each_block() {
    assert_eq!(text_block("x").kind(), "text");
    assert_eq!(tool_use("t").kind(), "tool_use");
    assert_eq!(ContentBlock::Other.kind(), "other");
}

#[test]
fn result_text_reads_both_shapes() {
    assert_eq!(ContentBlock::result_text(&Json::String("ok".to_string())), Some("ok".to_string()));
    let list = Json::Array(vec![
        Json::Object(vec![("type".to_string(), Json::String("text".to_string())), ("text".to_string(), Json::String("one".to_string()))]),
        Json::Object(vec![("type".to_string(), Json::String("image".to_string()))]),
        Json::Object(vec![("text".to_string(), Json::String("two".to_string()))]),
    ]);
    assert_eq!(ContentBlock::result_text(&list), Some("one\ntwo".to_string()));
    assert_eq!(ContentBlock::result_text(&Json::Array(vec![])), None);
    assert_eq!(ContentBlock::result_text(&Json::Bool(true)), None);
}

#[test]
fn body_joins_its_text_blocks() {
    let body = MessageBody::Blocks(vec![text_block("a"), tool_use("t"), text_block("b")]);
    assert_eq!(body.joined(), Some("a\nb".to_string()));
    assert_eq!(MessageBody::Blocks(vec![tool_use("t")]).joined(), None);
    assert_eq!(MessageBody::Unreadable(Json::Null).joined(), None);
    assert_eq!(MessageBody::default().blocks().len(), 0);
}

#[test]
fn json_get_finds_a_field() {
    let value = Json::Object(vec![("a".to_string(), Json::Number("1".to_string()))]);
    assert!(matches!(value.get("a"), Some(Json::Number(n)) if n == "1"));
    assert!(value.get("b").is_none());
    assert_eq!(Json::String("s".to_string()).as_str(), Some("s"));
}

#[test]
fn stats_count_the_turn_since_the_person_spoke() {
    let mut spoke = record("user");
    spoke.timestamp = Some("1970-01-01T00:00:02Z".to_string());
    let mut answer = with_blocks("assistant", vec![tool_use("a"), tool_use("b")]);
    answer.message.as_mut().unwrap().usage = Some(Usage { input_tokens: 10, output_tokens: 5, cache_written: 1, cache_read: 2 });
    answer.message.as_mut().unwrap().model = Some("acme-large-4-20250101".to_string());
    let records = vec![with_blocks("assistant", vec![tool_use("old")]), spoke, answer];
    let stats = StatsRule::of(&records, Some("Bash".to_string()), &windows()).expect("a turn");
    assert_eq!(stats.turn_started_at, Timestamp(2000));
    assert_eq!(stats.tools, 2);
    assert_eq!((stats.tokens_in, stats.tokens_out), (10, 5));
    assert_eq!(stats.context_used, 13);
    assert_eq!(stats.context_window, Some(200_000));
    assert_eq!(stats.cost_micros, None);
    assert_eq!(stats.activity, Some("Bash".to_string()));
    assert!(StatsRule::of(&[record("assistant")], None, &windows()).is_none());
}

#[test]
fn stats_window_only_for_a_checked_model() {
    assert_eq!(StatsRule::window_of("acme-large-5-x", &windows()), Some(1_000_000));
    assert_eq!(StatsRule::window_of("acme-large-4", &windows()), Some(200_000));
    assert_eq!(StatsRule::window_of("other", &windows()), None);
}

#[test]
fn status_is_done_without_a_pane() {
    let recent = vec![turn(vec![Part::Question { question: question("Go?"), answered: None, fallback_text: String::new() }])];
    assert_eq!(StatusRule::decide(false, &recent, true), AgentStatus::Done);
    assert_eq!(StatusRule::decide(true, &recent, true), AgentStatus::Blocked);
}

#[test]
fn status_separates_working_from_stalled() {
    let running = vec![turn(vec![tool("Bash", ToolStatus::Running)])];
    assert_eq!(StatusRule::decide(true, &running, true), AgentStatus::Working);
    assert_eq!(StatusRule::decide(true, &running, false), AgentStatus::Stalled);
    let done = vec![turn(vec![tool("Bash", ToolStatus::Succeeded)])];
    assert_eq!(StatusRule::decide(true, &done, false), AgentStatus::Idle);
}

#[test]
fn status_looks_only_at_the_newest_turn_for_a_question() {
    let recent = vec![
        turn(vec![Part::Question { question: question("Old?"), answered: None, fallback_text: String::new() }]),
        turn(vec![Part::Text { text: "moved on".to_string() }]),
    ];
    assert!(StatusRule::pending_question(&recent).is_none());
    assert_eq!(StatusRule::decide(true, &recent, false), AgentStatus::Idle);
}

#[test]
fn status_preview_prefers_the_pending_prompt() {
    let recent = vec![
        turn(vec![Part::Text { text: "\n  first words \nmore".to_string() }]),
        turn(vec![Part::Question { question: question("Proceed?"), answered: None, fallback_text: String::new() }]),
    ];
    assert_eq!(StatusRule::preview(&recent), Some("Proceed?".to_string()));
    let talk = vec![turn(vec![Part::Text { text: "\n  first words \nmore".to_string() }])];
    assert_eq!(StatusRule::preview(&talk), Some("first words".to_string()));
    assert_eq!(StatusRule::one_line("   \n"), "");
}

#[test]
fn tables_lift_a_table_out_of_prose() {
    let segments = MarkdownTables::split("intro\n| a | b |\n| --- | --- |\n| 1 | `x` |\nend");
    assert_eq!(segments.len(), 3);
    assert!(matches!(&segments[0], Segment::Prose(p) if p == "intro"));
    match &segments[1] {
        Segment::Table { columns, rows, source } => {
            assert_eq!(columns, &vec!["a".to_string(), "b".to_string()]);
            assert_eq!(rows, &vec![vec!["1".to_string(), "x".to_string()]]);
            assert_eq!(source, "| a | b |\n| --- | --- |\n| 1 | `x` |");
        },
        _ => panic!("expected a table"),
    }
    assert!(matches!(&segments[2], Segment::Prose(p) if p == "end"));
}

#[test]
fn assets_name_files_by_digest_and_extension() {
    assert_eq!(AssetNaming::id_for("abc").id, "ba7816bf8f01");
    assert_eq!(AssetNaming::mime_for("shot.PNG"), Some("image/png".to_string()));
    assert_eq!(AssetNaming::mime_for("README"), None);
}

#[test]
fn a_cursor_reads_back_as_its_offset() {
    assert_eq!(TranscriptReader::cursor_of(42), "o42");
    assert_eq!(TranscriptReader::cursor_of(0), "o0");
    assert_eq!(TranscriptReader::offset_of(&TranscriptReader::cursor_of(u64::MAX)), Some(u64::MAX));
    assert_eq!(TranscriptReader::offset_of("o42"), Some(42));
    assert_eq!(TranscriptReader::offset_of("o+7"), Some(7));
}

#[test]
fn a_cursor_this_reader_did_not_mint_names_nothing() {
    assert_eq!(TranscriptReader::offset_of("42"), None);
    assert_eq!(TranscriptReader::offset_of("o"), None);
    assert_eq!(TranscriptReader::offset_of("o4x"), None);
    assert_eq!(TranscriptReader::offset_of("o18446744073709551616"), None);
}

#[test]
fn an_attachment_line_this_machine_wrote_becomes_a_file() {
    let text = "look at this\nAttached: /data/uploads/0123456789ab-shot.png\n";
    let (spoken, files) = SentFiles::split(text, "/data/uploads");
    assert_eq!(spoken, "look at this");
    assert_eq!(files, vec!["/data/uploads/0123456789ab-shot.png".to_string()]);
}

#[test]
fn an_attachment_line_outside_the_store_stays_words() {
    let text = "Attached: /home/me/notes.txt";
    let (spoken, files) = SentFiles::split(text, "/data/uploads");
    assert_eq!(spoken, text);
    assert!(files.is_empty());
}

#[test]
fn a_stored_file_sits_under_the_upload_directory() {
    assert!(SentFiles::is_stored_in("/data/uploads/a.png", "/data/uploads"));
    assert!(SentFiles::is_stored_in("C:\\Data\\Uploads\\a.png", "c:/data/uploads/"));
    assert!(!SentFiles::is_stored_in("/data/uploads", "/data/uploads"));
    assert!(!SentFiles::is_stored_in("/data/uploadsX/a.png", "/data/uploads"));
    assert!(!SentFiles::is_stored_in("/data/uploads/a.png", ""));
}

#[test]
fn a_stored_name_loses_only_the_store_prefix() {
    assert_eq!(SentFiles::readable_name("/data/uploads/0123456789ab-shot.png"), "shot.png");
    assert_eq!(SentFiles::readable_name("/data/uploads/report-final.pdf"), "report-final.pdf");
    assert_eq!(SentFiles::readable_name("/data/uploads/0123456789ax-shot.png"), "0123456789ax-shot.png");
}

#[test]
fn a_short_text_is_kept_whole() {
    assert_eq!(PageBudget::clipped("short"), "short");
    let exact = "a".repeat(512);
    assert_eq!(PageBudget::clipped(&exact), exact);
}

#[test]
fn a_long_text_is_cut_at_a_character_boundary() {
    let accents = "é".repeat(300);
    let clipped = PageBudget::clipped(&accents);
    assert_eq!(clipped, format!("{}…", "é".repeat(256)));
    let mixed = format!("{}é", "a".repeat(511));
    assert_eq!(PageBudget::clipped(&mixed), format!("{}…", "a".repeat(511)));
}

fn stamped(at: &str) -> Record {
    Record { timestamp: Some(at.to_string()), ..Record::default() }
}

#[test]
fn a_summary_reads_head_and_tail() {
    let head = vec![
        Record { ai_title: Some("first".to_string()), ..stamped("2024-01-01T00:00:00Z") },
        Record { cwd: Some("/work".to_string()), ..Record::default() },
    ];
    let tail = vec![
        Record { custom_title: Some("named".to_string()), ..stamped("2024-01-01T00:00:10Z") },
        Record { ai_title: Some("later".to_string()), ..Record::default() },
    ];
    let summary = SessionCatalog::summary_of("abc".to_string(), "/s/abc.jsonl".to_string(), &head, &tail);
    assert_eq!(
        summary,
        SessionSummary {
            session_id: "abc".to_string(),
            path: "/s/abc.jsonl".to_string(),
            cwd: Some("/work".to_string()),
            started_at: Some(Timestamp(1_704_067_200_000)),
            last_active: Some(Timestamp(1_704_067_210_000)),
            title: Some("named".to_string()),
            preview: None,
        }
    );
}

#[test]
fn a_summary_falls_back_to_the_head_and_the_harness_title() {
    let head = vec![stamped("2024-01-01T00:00:00Z"), Record { ai_title: Some("early".to_string()), ..Record::default() }];
    let tail = vec![Record { ai_title: Some("later".to_string()), cwd: Some("/t".to_string()), ..Record::default() }];
    let summary = SessionCatalog::summary_of("s".to_string(), "p".to_string(), &head, &tail);
    assert_eq!(summary.cwd.as_deref(), Some("/t"));
    assert_eq!(summary.last_active, Some(Timestamp(1_704_067_200_000)));
    assert_eq!(summary.title.as_deref(), Some("later"));
    let none = SessionCatalog::summary_of("s".to_string(), "p".to_string(), &vec![], &vec![]);
    assert_eq!((none.cwd, none.started_at, none.last_active, none.title), (None, None, None, None));
}

#[test]
fn a_session_is_named_for_its_file() {
    assert_eq!(SessionCatalog::session_of("/home/me/projects/abc-123.jsonl").as_deref(), Some("abc-123"));
    assert_eq!(SessionCatalog::session_of("/a/.bashrc").as_deref(), Some(".bashrc"));
    assert_eq!(SessionCatalog::session_of("a.b.c").as_deref(), Some("a.b"));
    assert_eq!(SessionCatalog::session_of("/"), None);
}

#[test]
fn splitting_prose_loses_no_line() {
    let text = "intro\n| a | b |\n| --- | --- |\n| 1 | 2 |\nafter | pipe\nend";
    let joined: Vec<String> = MarkdownTables::split(text)
        .into_iter()
        .map(|segment| match segment {
            Segment::Prose(p) => p,
            Segment::Table { source, .. } => source,
        })
        .collect();
    assert_eq!(joined.join("\n"), text);
}

#[test]
fn stats_report_no_turn_while_only_the_person_has_spoken() {
    let mut spoke = record("user");
    spoke.timestamp = Some("2025-01-01T00:00:00Z".to_string());
    assert!(StatsRule::of(&[spoke], None, &windows()).is_none());
}

#[test]
fn a_plain_path_keeps_the_long_prefix_where_it_is_needed() {
    assert_eq!(AssetNaming::plain(r"\\?\C:\work\a.txt"), r"C:\work\a.txt");
    assert_eq!(AssetNaming::plain(r"\\?\UNC\srv\share\f.txt"), r"\\?\UNC\srv\share\f.txt");
    assert_eq!(AssetNaming::plain(r"\\?\Volume{1}\f"), r"\\?\Volume{1}\f");
    let long = format!(r"\\?\C:\{}", "a".repeat(300));
    assert_eq!(AssetNaming::plain(&long), long);
    assert_eq!(AssetNaming::plain("/home/a"), "/home/a");
}

#[test]
fn a_page_is_the_newest_turns_before_its_cursor() {
    let offsets = [0u64, 100, 250, 400];
    assert_eq!(TranscriptReader::position_before(&offsets, 250), 2);
    assert_eq!(TranscriptReader::position_before(&offsets, 251), 3);
    assert_eq!(TranscriptReader::position_before(&offsets, 9999), 4);
    assert_eq!(TranscriptReader::page_bounds(&offsets, None, 2), Some((2, 4)));
    assert_eq!(TranscriptReader::page_bounds(&offsets, None, 10), Some((0, 4)));
    assert_eq!(TranscriptReader::page_bounds(&offsets, Some("o250"), 1), Some((1, 2)));
    assert_eq!(TranscriptReader::page_bounds(&offsets, Some("stale"), 1), None);
    assert_eq!(TranscriptReader::next_before(&offsets, 2), Some("o250".to_string()));
    assert_eq!(TranscriptReader::next_before(&offsets, 0), None);
}

#[test]
fn a_page_fills_within_its_budget_and_always_carries_one_turn() {
    assert_eq!(TranscriptReader::budget_take(&[Some(40), None, Some(50), Some(30)], 100), (3, vec![0, 2], 90));
    assert_eq!(TranscriptReader::budget_take(&[Some(500), Some(1)], 100), (1, vec![0], 500));
    assert_eq!(TranscriptReader::budget_take(&[None, None], 100), (2, vec![], 0));
    assert_eq!(TranscriptReader::budget_take(&[], 100), (0, vec![], 0));
}

#[test]
fn sessions_are_listed_newest_first_and_ties_keep_their_order() {
    let found = vec![
        (10, "a".to_string()),
        (30, "b".to_string()),
        (10, "c".to_string()),
        (20, "d".to_string()),
        (30, "e".to_string()),
    ];
    assert_eq!(SessionCatalog::newest_first(&found), vec!["b", "e", "d", "a", "c"]);
    assert_eq!(SessionCatalog::newest_first(&vec![]), Vec::<String>::new());
    let many: Vec<(i64, String)> = (0..250).map(|i| (i as i64, format!("s{i}"))).collect();
    let listed = SessionCatalog::newest_first(&many);
    assert_eq!(listed.len(), 200);
    assert_eq!(listed[0], "s249");
    assert_eq!(listed[199], "s50");
}

fn caveat(text: &str) -> bool {
    text.starts_with("<local-command-caveat>")
}

#[test]
fn only_records_that_show_as_something_yield_a_turn() {
    assert!(TurnMapper::yields_turn(&with_blocks("assistant", vec![text_block("hello")]), None, &caveat));
    assert!(!TurnMapper::yields_turn(&with_blocks("assistant", vec![text_block("  \n")]), None, &caveat));
    assert!(TurnMapper::yields_turn(&with_blocks("assistant", vec![tool_use("t1")]), None, &caveat));
    let mut spoken = record("user");
    spoken.message = Some(Message { content: MessageBody::Text("hi".to_string()), ..Message::default() });
    assert!(TurnMapper::yields_turn(&spoken, None, &caveat));
    let mut noise = record("user");
    noise.message = Some(Message { content: MessageBody::Text("<local-command-caveat>x".to_string()), ..Message::default() });
    assert!(!TurnMapper::yields_turn(&noise, None, &caveat));
    let mut injected = record("user");
    injected.message = Some(Message { content: MessageBody::Text("hi".to_string()), ..Message::default() });
    injected.prompt_source = Some("system".to_string());
    assert!(!TurnMapper::yields_turn(&injected, None, &caveat));
    let mut side = with_blocks("assistant", vec![text_block("hello")]);
    side.is_sidechain = true;
    assert!(!TurnMapper::yields_turn(&side, None, &caveat));
    assert!(!TurnMapper::yields_turn(&record("system"), None, &caveat));
}

#[test]
fn an_index_groups_one_response_and_files_its_results() {
    let mut index = TranscriptIndex::open("/s/a.jsonl".to_string());
    assert_eq!(index.begin_refresh(0), None);
    assert_eq!(index.begin_refresh(300), Some(0));
    let mut first = with_blocks("assistant", vec![text_block("one")]);
    first.request_id = Some("r1".to_string());
    let mut second = with_blocks("assistant", vec![tool_use("t1")]);
    second.request_id = Some("r1".to_string());
    let answer = with_blocks(
        "user",
        vec![ContentBlock::ToolResult { tool_use_id: "t1".to_string(), content: Json::Null, is_error: false }],
    );
    index.consume(Some(first), RecordSpan { offset: 0, len: 100 }, true);
    index.consume(Some(second), RecordSpan { offset: 100, len: 100 }, true);
    index.consume(None, RecordSpan { offset: 200, len: 10 }, false);
    index.consume(Some(answer), RecordSpan { offset: 210, len: 90 }, false);
    index.finish_refresh(300);
    assert_eq!(index.turn_count(), 1);
    assert_eq!(index.turns()[0].records.len(), 2);
    assert_eq!(index.skipped(), 1);
    assert_eq!(index.indexed_len(), 300);
    assert_eq!(index.result_span("t1"), Some(RecordSpan { offset: 210, len: 90 }));
    assert_eq!(index.result_span("t2"), None);
    assert_eq!(index.position_before(0), 0);
    assert_eq!(index.position_before(1), 1);
    assert!(index.holds_offset(0));
    assert!(!index.holds_offset(100));
    assert_eq!(index.first_after(0), None);
    assert_eq!(index.newest_offset(), Some(0));
    assert_eq!(index.begin_refresh(300), None);
    assert_eq!(index.begin_refresh(50), Some(0));
    assert_eq!(index.turn_count(), 0);
    assert_eq!(index.path(), "/s/a.jsonl");
}

fn spelled(path: &str) -> String {
    format!("/canonical{path}")
}

#[test]
fn a_person_s_words_and_the_files_they_sent_become_text_and_cards() {
    let mut said = record("user");
    said.message = Some(Message {
        content: MessageBody::Text("look at this\nAttached: /data/uploads/0123456789ab-shot.png\n".to_string()),
        ..Message::default()
    });
    let mut parts = Vec::new();
    TurnMapper::operator_parts(None, Some("/data/uploads"), &said, &caveat, &spelled, &mut parts);
    assert_eq!(parts.len(), 2);
    assert_eq!(parts[0], Part::Text { text: "look at this".to_string() });
    match &parts[1] {
        Part::File { asset, name, mime, size, fallback_text } => {
            assert_eq!(asset, &AssetNaming::id_for("/canonical/data/uploads/0123456789ab-shot.png"));
            assert_eq!(name, "shot.png");
            assert_eq!(mime.as_deref(), Some("image/png"));
            assert_eq!(*size, None);
            assert_eq!(fallback_text, "shot.png");
        }
        other => panic!("not a card: {other:?}"),
    }

    let mut plain = Vec::new();
    TurnMapper::operator_parts(None, None, &said, &caveat, &spelled, &mut plain);
    assert_eq!(plain.len(), 1);
}

#[test]
fn noise_and_interruptions_in_a_person_s_record() {
    let mut noise = record("user");
    noise.message = Some(Message { content: MessageBody::Text("<local-command-caveat>x".to_string()), ..Message::default() });
    let mut parts = Vec::new();
    TurnMapper::operator_parts(None, None, &noise, &caveat, &spelled, &mut parts);
    assert!(parts.is_empty());

    let mut stopped = with_blocks("user", vec![text_block("<local-command-caveat>y"), text_block("go on")]);
    stopped.interrupted_message_id = Some("m1".to_string());
    TurnMapper::operator_parts(None, None, &stopped, &caveat, &spelled, &mut parts);
    assert_eq!(parts.len(), 2);
    assert!(matches!(&parts[0], Part::Status { label, .. } if label == "Interrupted"));
    assert_eq!(parts[1], Part::Text { text: "go on".to_string() });
}

#[test]
fn a_card_for_a_file_of_known_size_says_its_size() {
    let card = TurnMapper::file_part("/home/me/a-b.txt", None, Some(12), Some("/data/uploads"), "/home/me/a-b.txt");
    match card {
        Part::File { name, fallback_text, size, .. } => {
            assert_eq!(name, "a-b.txt");
            assert_eq!(fallback_text, "a-b.txt (12 bytes)");
            assert_eq!(size, Some(12));
        }
        other => panic!("not a card: {other:?}"),
    }
}

fn said(text: &str) -> Turn {
    turn(vec![Part::Text { text: text.to_string() }])
}

#[test]
fn a_page_carries_the_newest_turns_that_fit_oldest_first() {
    let offsets = [0u64, 100, 250, 400];
    let window = vec![Some((said("one"), 40)), None, Some((said("three"), 50))];
    let (page, oversized) = TranscriptReader::page_of(&offsets, None, 3, window, 100).expect("a page");
    assert_eq!(page.items, vec![said("one"), said("three")]);
    assert!(page.has_earlier);
    assert_eq!(page.next_before, Some("o100".to_string()));
    assert!(!oversized);

    let window = vec![Some((said("one"), 40)), None, Some((said("three"), 50))];
    let (page, _) = TranscriptReader::page_of(&offsets, None, 3, window, 60).expect("a page");
    assert_eq!(page.items, vec![said("three")]);
    assert_eq!(page.next_before, Some("o250".to_string()));

    let (page, oversized) =
        TranscriptReader::page_of(&offsets, Some("o9999"), 1, vec![Some((said("big"), 500))], 100).expect("a page");
    assert_eq!(page.items, vec![said("big")]);
    assert!(oversized);
    assert_eq!(page.next_before, Some("o400".to_string()));

    assert!(TranscriptReader::page_of(&offsets, Some("stale"), 3, vec![], 100).is_none());
}

#[test]
fn a_page_of_no_turns_says_there_are_earlier_ones() {
    let offsets = [0u64, 100];
    let (page, oversized) = TranscriptReader::page_of(&offsets, None, 0, vec![], 100).expect("a page");
    assert!(page.items.is_empty());
    assert!(page.has_earlier);
    assert_eq!(page.next_before, None);
    assert!(!oversized);
    let (first, _) = TranscriptReader::page_of(&[], None, 5, vec![], 100).expect("a page");
    assert!(first.items.is_empty());
    assert!(!first.has_earlier);
}

#[test]
fn a_turn_too_large_drops_its_largest_parts_for_a_notice() {
    assert_eq!(PageBudget::largest(&[3, 7, 7, 2]), 2);
    assert_eq!(PageBudget::largest(&[5]), 0);
    assert_eq!(PageBudget::room(5000), 2952);
    assert_eq!(PageBudget::room(100), 0);

    let mut big = turn(vec![Part::Text { text: "a".to_string() }, Part::Text { text: "b".to_string() }]);
    let mut dropped = Vec::new();
    assert!(PageBudget::shrink_step(&mut big, &mut dropped, 100, &[10, 60], 50));
    assert_eq!(big.parts, vec![Part::Text { text: "a".to_string() }]);
    assert_eq!(dropped, vec![Part::Text { text: "b".to_string() }]);
    assert!(!PageBudget::shrink_step(&mut big, &mut dropped, 40, &[10], 50));
    PageBudget::finish_shrink(&mut big, &dropped);
    assert_eq!(big.parts.len(), 2);
    assert_eq!(
        big.parts[1],
        Part::Status {
            label: "a part too large to send over this link".to_string(),
            detail: Some("text; open the pane at the machine to read them".to_string()),
            fallback_text: "b".to_string(),
        }
    );

    let notice = PageBudget::notice(&[
        Part::Text { text: "a".to_string() },
        Part::Unknown { kind: "image".to_string(), fallback_text: "b".to_string() },
    ]);
    assert_eq!(
        notice,
        Part::Status {
            label: "parts too large to send over this link".to_string(),
            detail: Some("text, unknown; open the pane at the machine to read them".to_string()),
            fallback_text: "a\nb".to_string(),
        }
    );
    let mut untouched = said("x");
    PageBudget::finish_shrink(&mut untouched, &[]);
    assert_eq!(untouched, said("x"));
}

fn tables() -> ToolTables {
    ToolTables {
        question: vec!["AskUserQuestion".to_string()],
        file_push: vec!["SendFile".to_string()],
        diff: vec!["Edit".to_string()],
        todo: vec!["TodoWrite".to_string()],
    }
}

fn describe(id: &str, _input: &Json) -> (String, String, String) {
    (format!("q-{id}"), "fp".to_string(), "{}".to_string())
}

#[test]
fn a_tool_call_shows_as_its_rendering_or_else_a_row() {
    let row = TurnMapper::tool_parts(&tables(), "q".to_string(), "f".to_string(), "Bash", &Json::Null, "null".to_string(), None, None, &spelled);
    assert_eq!(row.len(), 1);
    assert!(matches!(&row[0], Part::ToolUse { name, input, status: ToolStatus::Running, .. } if name == "Bash" && input == "null"));

    let files = Json::Object(vec![("files".to_string(), Json::Array(vec![Json::String("/tmp/a.txt".to_string())]))]);
    let cards = TurnMapper::tool_parts(&tables(), "q".to_string(), "f".to_string(), "SendFile", &files, "{}".to_string(), None, None, &spelled);
    assert_eq!(cards.len(), 1);
    assert!(matches!(&cards[0], Part::File { name, .. } if name == "a.txt"));

    let declined = TurnMapper::tool_parts(&tables(), "q".to_string(), "f".to_string(), "TodoWrite", &Json::Null, "null".to_string(), None, None, &spelled);
    assert!(matches!(&declined[0], Part::ToolUse { name, .. } if name == "TodoWrite"));
}

#[test]
fn a_model_response_is_one_turn_of_its_blocks_in_order() {
    let mut first = with_blocks("assistant", vec![text_block("hi"), ContentBlock::Thinking { thinking: "hm".to_string() }]);
    first.uuid = Some("u1".to_string());
    first.timestamp = Some("1970-01-01T00:00:01Z".to_string());
    let second = with_blocks("assistant", vec![tool_use("t1")]);
    let outcomes = vec![(
        "t1".to_string(),
        ToolOutcome { text: Some("done".to_string()), is_error: false, detail: None, at: None },
    )];
    let turn = TurnMapper::turn(&[first, second], None, None, &tables(), &outcomes, &caveat, &spelled, &describe)
        .expect("a turn");
    assert_eq!(turn.role, Role::Agent);
    assert_eq!(turn.at, Some(Timestamp(1000)));
    assert_eq!(turn.parts.len(), 2);
    assert_eq!(turn.parts[0], Part::Text { text: "hi".to_string() });
    assert!(matches!(&turn.parts[1], Part::ToolUse { result: Some(r), status: ToolStatus::Succeeded, .. } if r == "done"));

    let nameless = with_blocks("assistant", vec![text_block("hi")]);
    assert!(TurnMapper::turn(&[nameless], None, None, &tables(), &outcomes, &caveat, &spelled, &describe).is_none());

    let mut compacted = record("user");
    compacted.uuid = Some("u2".to_string());
    compacted.is_compact_summary = true;
    let seam = TurnMapper::turn(&[compacted], None, None, &tables(), &outcomes, &caveat, &spelled, &describe).expect("a marker");
    assert_eq!(seam.role, Role::Agent);
    assert_eq!(seam.at, Some(Timestamp(0)));
    assert!(matches!(&seam.parts[0], Part::Status { label, .. } if label == "Context compacted"));

    let mut blank = with_blocks("assistant", vec![text_block("   ")]);
    blank.uuid = Some("u3".to_string());
    assert!(TurnMapper::turn(&[blank], None, None, &tables(), &outcomes, &caveat, &spelled, &describe).is_none());
}
