//! What is remembered of what the user has said.

use me::compact;
use me::event::AgentKind;
use me::event::AgentTurnState;
use me::event::CompactKind;
use me::event::CompactState;
use me::event::EventDataBase;
use me::event::EventError;
use me::event::ToolResultState;
use me::turn_history::latest_snapshot;
use me::turn_history::snapshot;
use me::turn_history::turn_entry;

#[test]
fn snapshot_keeps_only_real_user_messages() {
    let mut edb = EventDataBase::new();
    edb.append_agent_kind_def(AgentKind::Interactive, "main-agent", None, None)
        .unwrap();
    let first = edb.append_user_prompt("first request").unwrap();
    edb.append_agent_turn(first, first, AgentTurnState::Started, "")
        .unwrap();
    edb.append_assist_response(first, "model output", true)
        .unwrap();
    let api = edb.append_api_requesting(first).unwrap();
    let call = edb
        .append_tool_call(api, first, "call-1", "File.Read", r#"{"path":"a.txt"}"#)
        .unwrap();
    edb.append_tool_result(
        call,
        ToolResultState::Succeeded,
        None,
        r#"{"content":"large tool result"}"#,
    )
    .unwrap();
    edb.append_follow_up_prompt(first, "real follow-up")
        .unwrap();
    edb.append_agent_turn(first, first, AgentTurnState::Completed, "")
        .unwrap();
    let boundary = edb
        .append_tool_call(api, first, "compact-1", compact::TOOL_NAME, "{}")
        .unwrap();

    let history = snapshot(edb.events(), boundary).unwrap();
    assert!(history.contains("first request"));
    assert!(history.contains("real follow-up"));
    assert!(!history.contains("model output"));
    assert!(!history.contains("File.Read"));
    assert!(!history.contains("large tool result"));
    assert!(!history.contains("completed"));
    assert!(!history.contains("FinalAnswer"));
}

#[test]
fn snapshot_ignores_internal_agent_prompts() {
    let mut edb = EventDataBase::new();
    edb.append_agent_kind_def(AgentKind::Interactive, "manager-agent", None, None)
        .unwrap();
    let user = edb.append_user_prompt("real user").unwrap();
    edb.append_manager_prompt("internal manager instruction")
        .unwrap();
    edb.append_parent_agent_prompt("internal parent instruction")
        .unwrap();
    let boundary = edb
        .append_tool_call(1, user, "compact", compact::TOOL_NAME, "{}")
        .unwrap();

    let history = snapshot(edb.events(), boundary).unwrap();
    assert!(history.contains("real user"));
    assert!(!history.contains("internal manager instruction"));
    assert!(!history.contains("internal parent instruction"));
}

#[test]
fn next_snapshot_accumulates_previous_user_messages() {
    let mut edb = EventDataBase::new();
    edb.append_agent_kind_def(AgentKind::Interactive, "main-agent", None, None)
        .unwrap();
    let first = edb.append_user_prompt("first request").unwrap();
    let api = edb.append_api_requesting(first).unwrap();
    let first_boundary = edb
        .append_tool_call(api, first, "compact-1", compact::TOOL_NAME, "{}")
        .unwrap();
    let first_history = snapshot(edb.events(), first_boundary).unwrap();

    let second = edb.append_user_prompt("second request").unwrap();
    let second_boundary = edb
        .append_tool_call(api, second, "compact-2", compact::TOOL_NAME, "{}")
        .unwrap();
    assert_eq!(
        snapshot(edb.events(), first_boundary).unwrap(),
        first_history
    );
    let second_history = snapshot(edb.events(), second_boundary).unwrap();
    assert!(second_history.contains("first request"));
    assert!(second_history.contains("second request"));
}

#[test]
fn latest_snapshot_tracks_only_the_effective_completed_compact() {
    let mut edb = EventDataBase::new();
    edb.append_agent_kind_def(AgentKind::Interactive, "main-agent", None, None)
        .unwrap();
    let prompt = edb.append_user_prompt("remember this").unwrap();
    let api = edb.append_api_requesting(prompt).unwrap();
    let call = edb
        .append_tool_call(api, prompt, "compact", compact::TOOL_NAME, "{}")
        .unwrap();
    edb.append_tool_result(call, ToolResultState::Succeeded, None, "ok")
        .unwrap();
    let compact = edb
        .append_compact_started(call, prompt, CompactKind::WorkerSingleTurn)
        .unwrap();
    edb.append_compact_terminal(compact, CompactState::Completed, "summary", "")
        .unwrap();

    let history = latest_snapshot(edb.events()).unwrap().unwrap();
    assert!(history.contains("remember this"));

    edb.append_context_cleared().unwrap();
    assert_eq!(latest_snapshot(edb.events()).unwrap(), None);
}

#[test]
fn context_clear_starts_a_new_history_lineage() {
    let mut edb = EventDataBase::new();
    edb.append_agent_kind_def(AgentKind::Interactive, "main-agent", None, None)
        .unwrap();
    edb.append_user_prompt("old request").unwrap();
    edb.append_context_cleared().unwrap();
    let current = edb.append_user_prompt("current request").unwrap();
    let boundary = edb
        .append_tool_call(1, current, "compact", compact::TOOL_NAME, "{}")
        .unwrap();
    let history = snapshot(edb.events(), boundary).unwrap();
    assert!(!history.contains("old request"));
    assert!(history.contains("current request"));
}

#[test]
fn a_history_is_written_line_by_line() {
    let mut edb = EventDataBase::new();
    let first = edb.append_user_prompt("say \"hi\"\n").unwrap();
    edb.append_follow_up_prompt(first, "and\tbye").unwrap();
    edb.append_user_prompt("plain").unwrap();
    let boundary = edb.append_tool_call(1, first, "c", compact::TOOL_NAME, "{}").unwrap();
    let history = snapshot(edb.events(), boundary).unwrap();
    let lines = history.lines().skip(1).collect::<Vec<_>>();
    assert_eq!(
        lines,
        vec![
            "",
            "turn-00000001",
            "  User: \"say \\\"hi\\\"\\n\"",
            "  FollowUp: \"and\\tbye\"",
            "",
            "turn-00000003",
            "  User: \"plain\"",
        ]
    );
    assert_eq!(
        turn_entry(123_456_789, "\"x\"", &vec![]),
        "\nturn-123456789\n  User: \"x\"\n"
    );
}

#[test]
fn a_history_needs_its_boundary() {
    let mut edb = EventDataBase::new();
    edb.append_user_prompt("only").unwrap();
    assert_eq!(snapshot(edb.events(), 7).unwrap_err(), EventError::Unknown(7));
    assert_eq!(latest_snapshot(edb.events()).unwrap(), None);
    assert_eq!(
        edb.append_compact_terminal(1, CompactState::Completed, "", "").unwrap_err(),
        EventError::Unknown(1)
    );
}

#[test]
fn an_empty_history_is_its_preamble() {
    let mut edb = EventDataBase::new();
    edb.append_follow_up_prompt(1, "nothing to follow").unwrap();
    let boundary = edb.append_context_cleared().unwrap();
    let history = snapshot(edb.events(), boundary).unwrap();
    assert!(history.ends_with("tool activity are omitted."));
}

#[test]
fn a_history_is_frozen_and_holds_nothing_but_the_user() {
    let mut edb = EventDataBase::new();
    edb.append_user_prompt("one").unwrap();
    let boundary = edb.append_api_requesting(1).unwrap();
    let before = snapshot(edb.events(), boundary).unwrap();
    edb.append_user_prompt("two").unwrap();
    edb.append_context_cleared().unwrap();
    assert_eq!(snapshot(edb.events(), boundary).unwrap(), before);

    let mut other = EventDataBase::new();
    other.append_user_prompt("one").unwrap();
    other.append_assist_response(1, "answer", true).unwrap();
    let later = other.append_api_requesting(1).unwrap();
    assert_eq!(snapshot(other.events(), later).unwrap(), before);
}

#[test]
fn prompts_are_quoted_exactly() {
    let mut edb = EventDataBase::new();
    let prompt = edb.append_user_prompt("a \"b\"\n\u{1}\\ \u{7f}é\t\u{8}\u{c}\r").unwrap();
    edb.append_follow_up_prompt(prompt, "trailing \n").unwrap();
    let boundary = edb
        .append_tool_call(1, prompt, "compact", compact::TOOL_NAME, "{}")
        .unwrap();
    let history = snapshot(edb.events(), boundary).unwrap();
    assert!(history.ends_with(
        "\nturn-00000001\n  User: \"a \\\"b\\\"\\n\\u0001\\\\ \u{7f}é\\t\\b\\f\\r\"\n  FollowUp: \"trailing \\n\""
    ));
}
