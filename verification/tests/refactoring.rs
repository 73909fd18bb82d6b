//! Sessions and terminals.
use lsp_mcp::json::Json;
use lsp_mcp::sessions::{applied, SessionManager};
use lsp_mcp::terminals::{CommandRun, Spawned, TerminalManager};
use lsp_mcp::workspace::FileAction;

fn json(text: &str) -> Json {
    Json::parse(text.as_bytes()).unwrap()
}

fn is_uuid(id: &str) -> bool {
    id.len() == 36 && uuid::Uuid::parse_str(id).unwrap().get_version_num() == 4
}

#[test]
fn an_approved_proposal_is_carried_out() {
    let mut manager = SessionManager::new();
    let session = manager.start_session("rename things".to_string());
    assert!(is_uuid(&session));
    let change = manager.propose_change(&session, json("{\"changes\":{}}")).unwrap();
    let command = manager.propose_command(&session, json("{\"command\":\"c\"}")).unwrap();
    let ignored = manager.propose_change(&session, json("{\"changes\":null}")).unwrap();
    assert!(is_uuid(&change) && is_uuid(&command) && is_uuid(&ignored));
    assert!(manager.approve_proposal(&session, &command));
    assert!(manager.approve_proposal(&session, &change));
    assert!(!manager.approve_proposal(&session, "nobody"));
    let (proposals, plans) = manager.apply_approved(&session).unwrap();
    assert_eq!(plans.len(), 2);
    assert!(plans[0].as_ref().unwrap().as_ref().unwrap().actions.is_empty());
    assert!(plans[1].is_none());
    let ids: Vec<&str> = proposals.iter().map(|proposal| proposal.id.as_str()).collect();
    assert_eq!(ids, vec![change.as_str(), command.as_str()]);
    let (edits, commands) = applied(&proposals, &vec![true, true]);
    assert_eq!(edits.len(), 1);
    assert_eq!(edits[0].render(), "{\"changes\":{}}");
    assert_eq!(commands[0].render(), "{\"command\":\"c\"}");
}

#[test]
fn a_change_that_could_not_be_made_is_left_out() {
    let mut manager = SessionManager::new();
    let session = manager.start_session("x".to_string());
    for text in ["[1]", "[2]"] {
        let id = manager.propose_change(&session, json(text)).unwrap();
        assert!(manager.approve_proposal(&session, &id));
    }
    let id = manager.propose_command(&session, json("[3]")).unwrap();
    assert!(manager.approve_proposal(&session, &id));
    let (proposals, plans) = manager.apply_approved(&session).unwrap();
    assert!(plans[0].as_ref().unwrap().is_err());
    let (edits, commands) = applied(&proposals, &vec![false, true, false]);
    assert_eq!(Json::array(edits).render(), "[[2]]");
    assert_eq!(Json::array(commands).render(), "[[3]]");
}

#[test]
fn an_approved_change_is_planned() {
    let mut manager = SessionManager::new();
    let session = manager.start_session("x".to_string());
    let text = "{\"documentChanges\":[{\"kind\":\"create\",\"uri\":\"file:///tmp/new.rs\"}]}";
    let id = manager.propose_change(&session, json(text)).unwrap();
    assert!(manager.approve_proposal(&session, &id));
    let (_, plans) = manager.apply_approved(&session).unwrap();
    let plan = plans[0].as_ref().unwrap().as_ref().unwrap();
    assert_eq!(plan.actions.len(), 1);
    match &plan.actions[0] {
        FileAction::Create { path, .. } => assert_eq!(path, "/tmp/new.rs"),
        other => panic!("{:?}", other),
    }
}

#[test]
fn a_session_is_gone_when_it_was_applied() {
    let mut manager = SessionManager::new();
    let session = manager.start_session("x".to_string());
    let other = manager.start_session("y".to_string());
    assert!(manager.apply_approved(&session).unwrap().0.is_empty());
    assert!(manager.apply_approved(&session).is_none());
    assert!(manager.propose_change(&session, Json::Null).is_none());
    assert!(manager.propose_command(&session, Json::Null).is_none());
    assert!(!manager.approve_proposal(&session, "x"));
    assert!(manager.propose_change(&other, Json::Null).is_some());
}

#[test]
fn an_unapproved_proposal_is_left_out() {
    let mut manager = SessionManager::new();
    let session = manager.start_session("x".to_string());
    manager.propose_change(&session, json("[1]")).unwrap();
    assert!(manager.apply_approved(&session).unwrap().0.is_empty());
}

#[test]
fn a_command_is_run_until_its_marker_comes() {
    let mut run = CommandRun::new("ls", "7");
    assert_eq!(run.input(), "ls; echo ---MARKER-7---; echo ---MARKER-7--- >&2\n");
    assert!(run.wants_stdout() && run.wants_stderr());
    run.read_stdout(b" a\nb\n---MARK");
    assert!(run.wants_stdout());
    run.read_stdout(b"ER-7---\n");
    assert!(!run.wants_stdout());
    assert!(run.result().is_none());
    run.read_stderr(b"---MARKER-7---\n");
    assert!(!run.wants_stderr());
    assert_eq!(run.result(), Some(("a\nb".to_string(), "".to_string())));
}

#[test]
fn an_output_that_ends_is_complete() {
    let mut run = CommandRun::new("exit", "7");
    run.read_stdout(b"out");
    run.read_stdout(b"");
    run.read_stderr(b"");
    assert_eq!(run.result(), Some(("out".to_string(), "".to_string())));
}

#[test]
fn output_need_not_be_text() {
    let mut run = CommandRun::new("x", "7");
    run.read_stdout(b"\xff---MARKER-7---\n");
    assert!(run.wants_stdout());
    run.read_stdout(b"");
    run.read_stderr("ü---MARKER-7---\n".as_bytes());
    assert_eq!(run.result(), Some(("\u{fffd}".to_string(), "ü".to_string())));
    assert_eq!(CommandRun::timed_out(), "Command timed out");
}

#[test]
fn terminals_come_and_go() {
    let mut manager = TerminalManager::new();
    let id = manager.create_terminal(Spawned::Ready).unwrap();
    assert!(is_uuid(&id));
    let run = manager.run_command(&id, "pwd").unwrap();
    assert!(run.input().starts_with("pwd; echo ---MARKER-"));
    assert!(run.input().ends_with("--- >&2\n"));
    assert_ne!(run.input(), manager.run_command(&id, "pwd").unwrap().input());
    assert!(manager.close_terminal(&id));
    assert!(!manager.close_terminal(&id));
    assert_eq!(manager.run_command(&id, "pwd").unwrap_err(), "Terminal not found");
}

#[test]
fn terminals_may_not_start() {
    let mut manager = TerminalManager::new();
    for (spawned, message) in [
        (Spawned::Failed("no bash".to_string()), "Failed to spawn bash: no bash"),
        (Spawned::NoStdin, "No stdin"),
        (Spawned::NoStdout, "No stdout"),
        (Spawned::NoStderr, "No stderr"),
    ] {
        assert_eq!(manager.create_terminal(spawned).unwrap_err(), message);
    }
}
