use tethera_server::transcript::command::CommandTags;
use tethera_server::transcript::json::Json;
use tethera_server::transcript::mapper::TurnMapper;
use tethera_server::transcript::question::{Answer, Question, QuestionOption};
use tethera_server::transcript::record::Timestamp;
use tethera_server::transcript::results::ToolOutcome;
use tethera_server::transcript::turn::{Part, TodoStatus, ToolStatus};

fn s(text: &str) -> Json {
    Json::String(text.to_string())
}

fn n(text: &str) -> Json {
    Json::Number(text.to_string())
}

fn obj(fields: Vec<(&str, Json)>) -> Json {
    Json::Object(fields.into_iter().map(|(k, v)| (k.to_string(), v)).collect())
}

fn option(label: &str, description: Option<&str>) -> QuestionOption {
    QuestionOption { label: label.to_string(), description: description.map(str::to_string) }
}

fn picker_input() -> Json {
    obj(vec![(
        "questions",
        Json::Array(vec![
            obj(vec![
                ("question", s("Which colour?")),
                ("header", s("Colour")),
                (
                    "options",
                    Json::Array(vec![
                        obj(vec![("label", s("Red")), ("description", s("warm"))]),
                        obj(vec![("label", s("Blue"))]),
                        obj(vec![("description", s("no label"))]),
                    ]),
                ),
                ("multiSelect", Json::Bool(false)),
            ]),
            obj(vec![("header", s("no prompt"))]),
            obj(vec![
                ("question", s("Which sizes?")),
                ("options", Json::Array(vec![obj(vec![("label", s("S"))]), obj(vec![("label", s("M"))])])),
                ("multiSelect", Json::Bool(true)),
            ]),
        ]),
    )])
}

#[test]
fn options_keep_only_labelled_entries_in_order() {
    let raw = obj(vec![(
        "options",
        Json::Array(vec![
            obj(vec![("label", s("Red")), ("description", s("warm"))]),
            obj(vec![("description", s("no label"))]),
            obj(vec![("label", s("Blue"))]),
        ]),
    )]);
    let options = TurnMapper::options_of(&raw);
    assert_eq!(options, vec![option("Red", Some("warm")), option("Blue", None)]);
}

#[test]
fn options_of_a_question_without_a_list_are_none() {
    assert!(TurnMapper::options_of(&obj(vec![("options", s("Red"))])).is_empty());
    assert!(TurnMapper::options_of(&Json::Null).is_empty());
}

#[test]
fn asks_skip_entries_without_a_prompt() {
    let asks = TurnMapper::asks_of(&picker_input());
    assert_eq!(asks.len(), 2);
    assert_eq!(asks[0].prompt, "Which colour?");
    assert_eq!(asks[0].header.as_deref(), Some("Colour"));
    assert!(!asks[0].multi_select);
    assert!(asks[0].allows_free_text);
    assert_eq!(asks[0].options, vec![option("Red", Some("warm")), option("Blue", None)]);
    assert_eq!(asks[1].prompt, "Which sizes?");
    assert!(asks[1].multi_select);
    assert_eq!(asks[1].header, None);
}

#[test]
fn a_label_among_the_options_is_a_choice() {
    let options = vec![option("Red", None), option("Blue", None)];
    assert_eq!(TurnMapper::answer_of(&s("Blue"), &options), Some(Answer::Choice(1)));
}

#[test]
fn a_label_no_longer_offered_is_free_text() {
    let options = vec![option("Red", None)];
    assert_eq!(
        TurnMapper::answer_of(&s("Green"), &options),
        Some(Answer::Text("Green".to_string()))
    );
}

#[test]
fn several_labels_all_offered_are_several_choices() {
    let options = vec![option("S", None), option("M", None), option("L", None)];
    let chosen = Json::Array(vec![s("L"), Json::Null, s("S")]);
    assert_eq!(TurnMapper::answer_of(&chosen, &options), Some(Answer::Multi(vec![2, 0])));
}

#[test]
fn several_labels_not_all_offered_are_joined_text() {
    let options = vec![option("S", None)];
    let chosen = Json::Array(vec![s("S"), s("XL")]);
    assert_eq!(
        TurnMapper::answer_of(&chosen, &options),
        Some(Answer::Text("S, XL".to_string()))
    );
}

#[test]
fn no_label_at_all_is_no_answer() {
    let options = vec![option("S", None)];
    assert_eq!(TurnMapper::answer_of(&Json::Array(vec![Json::Null]), &options), None);
    assert_eq!(TurnMapper::answer_of(&Json::Bool(true), &options), None);
}

#[test]
fn answers_line_up_with_their_questions() {
    let asks = TurnMapper::asks_of(&picker_input());
    let recorded = obj(vec![("Which sizes?", Json::Array(vec![s("M")]))]);
    let answers = TurnMapper::answers_for(&asks, Some(&recorded));
    assert_eq!(answers, vec![None, Some(Answer::Multi(vec![1]))]);
    assert_eq!(TurnMapper::answers_for(&asks, None), vec![None, None]);
}

#[test]
fn question_fallback_lists_prompts_and_options() {
    let asks = TurnMapper::asks_of(&picker_input());
    let question = Question { id: "q".to_string(), fingerprint: "f".to_string(), asks };
    assert_eq!(
        TurnMapper::question_fallback(&question),
        "Which colour?\n- Red - warm\n- Blue\n\nWhich sizes?\n- S\n- M"
    );
}

#[test]
fn a_picker_call_is_one_question_part() {
    let detail = obj(vec![("answers", obj(vec![("Which colour?", s("Red"))]))]);
    let parts = TurnMapper::question_parts(
        "id-1".to_string(),
        "print".to_string(),
        &picker_input(),
        Some(&detail),
        Some(Timestamp(42)),
    );
    assert_eq!(parts.len(), 1);
    match &parts[0] {
        Part::Question { question, answered, fallback_text } => {
            assert_eq!(question.id, "id-1");
            assert_eq!(question.fingerprint, "print");
            assert_eq!(question.asks.len(), 2);
            let record = answered.as_ref().expect("answered");
            assert_eq!(record.answers, vec![Some(Answer::Choice(0)), None]);
            assert_eq!(record.at, Timestamp(42));
            assert!(fallback_text.starts_with("Which colour?"));
        },
        other => panic!("not a question: {:?}", other),
    }
}

#[test]
fn an_unanswered_picker_call_has_no_answer_record() {
    let parts = TurnMapper::question_parts(
        "id".to_string(),
        "f".to_string(),
        &picker_input(),
        None,
        None,
    );
    match &parts[0] {
        Part::Question { answered, .. } => assert!(answered.is_none()),
        other => panic!("not a question: {:?}", other),
    }
}

#[test]
fn an_answer_without_a_time_is_dated_zero() {
    let detail = obj(vec![("answers", obj(vec![("Which sizes?", s("S"))]))]);
    let parts = TurnMapper::question_parts("id".to_string(), "f".to_string(), &picker_input(), Some(&detail), None);
    match &parts[0] {
        Part::Question { answered: Some(record), .. } => assert_eq!(record.at, Timestamp(0)),
        other => panic!("not an answered question: {:?}", other),
    }
}

#[test]
fn a_picker_call_without_questions_is_no_part() {
    let input = obj(vec![("questions", Json::Array(vec![obj(vec![("header", s("x"))])]))]);
    assert!(TurnMapper::question_parts("id".to_string(), "f".to_string(), &input, None, None).is_empty());
}

fn edit_detail() -> Json {
    obj(vec![
        ("filePath", s("/src/lib.rs")),
        (
            "structuredPatch",
            Json::Array(vec![obj(vec![
                ("oldStart", n("3")),
                ("oldLines", n("2")),
                ("newStart", n("3")),
                ("newLines", n("12")),
                ("lines", Json::Array(vec![s(" keep"), s("-gone"), s("+new"), s("+more")])),
            ])]),
        ),
    ])
}

#[test]
fn an_edit_is_a_unified_diff_with_counts() {
    let input = obj(vec![("file_path", s("/elsewhere.rs"))]);
    let parts = TurnMapper::diff_parts(&input, Some(&edit_detail()));
    assert_eq!(parts.len(), 1);
    match &parts[0] {
        Part::Diff { path, unified, added, removed, fallback_text } => {
            assert_eq!(path, "/src/lib.rs");
            assert_eq!(
                unified,
                "--- /src/lib.rs\n+++ /src/lib.rs\n@@ -3,2 +3,12 @@\n keep\n-gone\n+new\n+more\n"
            );
            assert_eq!(*added, Some(2));
            assert_eq!(*removed, Some(1));
            assert_eq!(fallback_text, unified);
        },
        other => panic!("not a diff: {:?}", other),
    }
}

#[test]
fn an_edit_names_the_call_path_when_the_outcome_does_not() {
    let detail = obj(vec![(
        "structuredPatch",
        Json::Array(vec![obj(vec![("lines", Json::Array(vec![s("+x")]))])]),
    )]);
    let input = obj(vec![("file_path", s("a.txt"))]);
    match &TurnMapper::diff_parts(&input, Some(&detail))[0] {
        Part::Diff { path, unified, .. } => {
            assert_eq!(path, "a.txt");
            assert_eq!(unified, "--- a.txt\n+++ a.txt\n@@ -0,0 +0,0 @@\n+x\n");
        },
        other => panic!("not a diff: {:?}", other),
    }
}

#[test]
fn a_created_file_is_no_diff() {
    let input = obj(vec![("file_path", s("a.txt"))]);
    let empty = obj(vec![("structuredPatch", Json::Array(vec![]))]);
    assert!(TurnMapper::diff_parts(&input, Some(&empty)).is_empty());
    assert!(TurnMapper::diff_parts(&input, None).is_empty());
}

#[test]
fn a_plan_is_a_checklist() {
    let input = obj(vec![(
        "todos",
        Json::Array(vec![
            obj(vec![("content", s("read")), ("status", s("completed"))]),
            obj(vec![("content", s("write")), ("status", s("in_progress"))]),
            obj(vec![("status", s("done"))]),
            obj(vec![("content", s("ship")), ("status", s("later"))]),
            obj(vec![("content", s("rest")), ("status", s("done"))]),
        ]),
    )]);
    match TurnMapper::todo_part(&input) {
        Some(Part::Todo { items, fallback_text }) => {
            let statuses: Vec<TodoStatus> = items.iter().map(|i| i.status).collect();
            assert_eq!(
                statuses,
                vec![TodoStatus::Done, TodoStatus::InProgress, TodoStatus::Pending, TodoStatus::Done]
            );
            assert_eq!(items[2].text, "ship");
            assert_eq!(fallback_text, "[x] read\n[~] write\n[ ] ship\n[x] rest");
        },
        other => panic!("not a plan: {:?}", other),
    }
}

#[test]
fn an_empty_plan_is_no_part() {
    assert!(TurnMapper::todo_part(&obj(vec![("todos", Json::Array(vec![]))])).is_none());
    assert!(TurnMapper::todo_part(&obj(vec![("todos", s("x"))])).is_none());
    assert!(TurnMapper::todo_part(&Json::Null).is_none());
}

fn tags() -> CommandTags {
    CommandTags {
        record_kind: "system".to_string(),
        record_subtype: "local_command".to_string(),
        name: "command-name".to_string(),
        args: "command-args".to_string(),
        stdout: "local-command-stdout".to_string(),
    }
}

#[test]
fn a_status_part_reads_its_label() {
    assert_eq!(
        TurnMapper::status_part("Interrupted"),
        Part::Status { label: "Interrupted".to_string(), detail: None, fallback_text: "Interrupted".to_string() }
    );
}

#[test]
fn an_image_is_named_by_its_media_type() {
    let source = obj(vec![("media_type", s("image/png")), ("data", s("AAAA"))]);
    assert_eq!(
        TurnMapper::image_part(&source),
        Part::Unknown { kind: "image".to_string(), fallback_text: "[image/png]".to_string() }
    );
    assert_eq!(
        TurnMapper::image_part(&Json::Null),
        Part::Unknown { kind: "image".to_string(), fallback_text: "[image]".to_string() }
    );
}

#[test]
fn a_command_is_the_line_then_what_it_printed() {
    let mut parts = vec![Part::Text { text: "before".to_string() }];
    let text = "<command-name>/context</command-name><local-command-stdout>page</local-command-stdout>";
    TurnMapper::command_parts(&tags(), text, &mut parts);
    assert_eq!(parts.len(), 3);
    assert_eq!(parts[1], Part::Text { text: "/context".to_string() });
    assert_eq!(parts[2], TurnMapper::command_output("/context", "page".to_string()));
    match &parts[2] {
        Part::ToolUse { name, input, result, status, fallback_text } => {
            assert_eq!(name, "/context");
            assert_eq!(input, "");
            assert_eq!(result.as_deref(), Some("page"));
            assert_eq!(*status, ToolStatus::Succeeded);
            assert_eq!(fallback_text, "page");
        },
        other => panic!("not a tool row: {:?}", other),
    }
}

#[test]
fn output_without_a_command_has_a_generic_name() {
    let mut parts = Vec::new();
    TurnMapper::command_parts(&tags(), "<local-command-stdout>done</local-command-stdout>", &mut parts);
    assert_eq!(parts, vec![TurnMapper::command_output("command output", "done".to_string())]);
    let mut none = Vec::new();
    TurnMapper::command_parts(&tags(), "just words", &mut none);
    assert!(none.is_empty());
}

#[test]
fn prose_with_a_table_is_text_then_a_table() {
    let mut parts = Vec::new();
    TurnMapper::prose_parts("intro\n| a | b |\n| --- | --- |\n| 1 | 2 |\n  \n", &mut parts);
    assert_eq!(parts.len(), 2);
    assert_eq!(parts[0], Part::Text { text: "intro".to_string() });
    match &parts[1] {
        Part::Table { columns, rows, fallback_text } => {
            assert_eq!(columns, &vec!["a".to_string(), "b".to_string()]);
            assert_eq!(rows, &vec![vec!["1".to_string(), "2".to_string()]]);
            assert_eq!(fallback_text, "| a | b |\n| --- | --- |\n| 1 | 2 |");
        },
        other => panic!("not a table: {:?}", other),
    }
}

#[test]
fn a_tool_row_is_running_until_it_is_answered() {
    let running = TurnMapper::tool_use_part("Bash", "{\"command\":\"ls\"}".to_string(), None);
    assert_eq!(
        running,
        Part::ToolUse {
            name: "Bash".to_string(),
            input: "{\"command\":\"ls\"}".to_string(),
            result: None,
            status: ToolStatus::Running,
            fallback_text: "Bash\n{\"command\":\"ls\"}".to_string(),
        }
    );
    let failed = ToolOutcome { text: Some("no such file".to_string()), is_error: true, detail: None, at: None };
    match TurnMapper::tool_use_part("Bash", "{}".to_string(), Some(&failed)) {
        Part::ToolUse { status, result, fallback_text, .. } => {
            assert_eq!(status, ToolStatus::Failed);
            assert_eq!(result.as_deref(), Some("no such file"));
            assert_eq!(fallback_text, "Bash\n{}\nno such file");
        },
        other => panic!("not a tool row: {:?}", other),
    }
    let done = ToolOutcome { text: None, is_error: false, detail: None, at: None };
    match TurnMapper::tool_use_part("Read", "{}".to_string(), Some(&done)) {
        Part::ToolUse { status, fallback_text, .. } => {
            assert_eq!(status, ToolStatus::Succeeded);
            assert_eq!(fallback_text, "Read\n{}");
        },
        other => panic!("not a tool row: {:?}", other),
    }
}

#[test]
fn an_outcome_field_reads_its_structured_result() {
    let outcome = ToolOutcome { text: None, is_error: false, detail: Some(obj(vec![("filePath", s("/a"))])), at: None };
    assert!(matches!(outcome.field("filePath"), Some(Json::String(p)) if p == "/a"));
    assert!(outcome.field("other").is_none());
}
