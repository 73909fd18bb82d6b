//! Requests to the language server and its answers.
use lsp_mcp::json::Json;
use lsp_mcp::lsp::{Header, HeaderStep, Incoming, LspClient};
use lsp_mcp::models::{Position, Range};
use lsp_mcp::protocol::LspRequest;
use lsp_mcp::stream::{read_message, ReadFailure, ReadStep};

fn json(text: &str) -> Json {
    Json::parse(text.as_bytes()).unwrap()
}

fn uri() -> lsp_types::Uri {
    "file:///tmp/a.rs".parse().unwrap()
}

fn document() -> lsp_types::TextDocumentIdentifier {
    lsp_types::TextDocumentIdentifier { uri: uri() }
}

fn place() -> lsp_types::TextDocumentPositionParams {
    lsp_types::TextDocumentPositionParams {
        text_document: document(),
        position: lsp_types::Position { line: 3, character: 7 },
    }
}

fn same<R: lsp_types::request::Request>(request: LspRequest, params: R::Params) {
    assert_eq!(request.method, R::METHOD);
    let expected = serde_json::to_value(params).unwrap();
    assert_eq!(request.params.to_value(), expected);
}

#[test]
fn requests_are_those_of_the_protocol() {
    let at = Position { line: 3, character: 7 };
    same::<lsp_types::request::GotoDefinition>(
        LspRequest::definition("file:///tmp/a.rs", at),
        lsp_types::GotoDefinitionParams {
            text_document_position_params: place(),
            work_done_progress_params: Default::default(),
            partial_result_params: Default::default(),
        },
    );
    same::<lsp_types::request::References>(
        LspRequest::references("file:///tmp/a.rs", at),
        lsp_types::ReferenceParams {
            text_document_position: place(),
            work_done_progress_params: Default::default(),
            partial_result_params: Default::default(),
            context: lsp_types::ReferenceContext { include_declaration: true },
        },
    );
    same::<lsp_types::request::HoverRequest>(
        LspRequest::hover("file:///tmp/a.rs", at),
        lsp_types::HoverParams {
            text_document_position_params: place(),
            work_done_progress_params: Default::default(),
        },
    );
    same::<lsp_types::request::Completion>(
        LspRequest::completion("file:///tmp/a.rs", at),
        lsp_types::CompletionParams {
            text_document_position: place(),
            work_done_progress_params: Default::default(),
            partial_result_params: Default::default(),
            context: None,
        },
    );
    same::<lsp_types::request::Rename>(
        LspRequest::rename("file:///tmp/a.rs", at, "greet"),
        lsp_types::RenameParams {
            text_document_position: place(),
            new_name: "greet".to_string(),
            work_done_progress_params: Default::default(),
        },
    );
    same::<lsp_types::request::DocumentSymbolRequest>(
        LspRequest::document_symbol("file:///tmp/a.rs"),
        lsp_types::DocumentSymbolParams {
            text_document: document(),
            work_done_progress_params: Default::default(),
            partial_result_params: Default::default(),
        },
    );
    same::<lsp_types::request::WorkspaceSymbolRequest>(
        LspRequest::workspace_symbol("hello"),
        lsp_types::WorkspaceSymbolParams {
            query: "hello".to_string(),
            work_done_progress_params: Default::default(),
            partial_result_params: Default::default(),
        },
    );
    same::<lsp_types::request::ExecuteCommand>(
        LspRequest::execute_command("run", vec![Json::integer(1), Json::Null]),
        lsp_types::ExecuteCommandParams {
            command: "run".to_string(),
            arguments: vec![serde_json::Value::from(1), serde_json::Value::Null],
            work_done_progress_params: Default::default(),
        },
    );
}

#[test]
fn the_request_for_actions_is_that_of_the_protocol() {
    let diagnostic = lsp_types::Diagnostic { message: "m".to_string(), ..Default::default() };
    let range = Range {
        start: Position { line: 1, character: 2 },
        end: Position { line: 3, character: 4 },
    };
    same::<lsp_types::request::CodeActionRequest>(
        LspRequest::code_action(
            "file:///tmp/a.rs",
            range,
            Json::from_value(&serde_json::to_value(&diagnostic).unwrap()),
        ),
        lsp_types::CodeActionParams {
            text_document: document(),
            range: lsp_types::Range {
                start: lsp_types::Position { line: 1, character: 2 },
                end: lsp_types::Position { line: 3, character: 4 },
            },
            context: lsp_types::CodeActionContext {
                diagnostics: vec![diagnostic],
                only: None,
                trigger_kind: None,
            },
            work_done_progress_params: Default::default(),
            partial_result_params: Default::default(),
        },
    );
}

#[test]
#[allow(deprecated)]
fn the_first_and_last_messages_are_those_of_the_protocol() {
    let folder = lsp_types::WorkspaceFolder { uri: uri(), name: "workspace".to_string() };
    let mut params = lsp_types::InitializeParams {
        process_id: Some(42),
        workspace_folders: Some(vec![folder]),
        ..Default::default()
    };
    same::<lsp_types::request::Initialize>(
        LspRequest::initialize(42, Some("file:///tmp/a.rs")),
        params.clone(),
    );
    params.workspace_folders = None;
    same::<lsp_types::request::Initialize>(LspRequest::initialize(42, None), params);
    same::<lsp_types::request::Shutdown>(LspRequest::shutdown(), ());
    assert_eq!(LspRequest::initialized().method, "initialized");
    assert_eq!(LspRequest::initialized().params.render(), "{}");
    assert_eq!(LspRequest::exit().method, "exit");
    assert_eq!(LspRequest::exit().params.render(), "null");
    let open = LspRequest::did_open("file:///tmp/a.rs", "fn main() {}");
    let expected = lsp_types::DidOpenTextDocumentParams {
        text_document: lsp_types::TextDocumentItem {
            uri: uri(),
            language_id: "rust".to_string(),
            version: 0,
            text: "fn main() {}".to_string(),
        },
    };
    assert_eq!(open.method, "textDocument/didOpen");
    assert_eq!(open.params.to_value(), serde_json::to_value(expected).unwrap());
}

#[test]
fn a_client_starts_with_its_introduction() {
    let (_, id, sent) = LspClient::start(7, None);
    assert_eq!(id, 1);
    assert_eq!(
        sent,
        "Content-Length: 104\r\n\r\n{\"id\":1,\"jsonrpc\":\"2.0\",\"method\":\"initialize\",\
         \"params\":{\"capabilities\":{},\"processId\":7,\"rootUri\":null}}"
    );
}

#[test]
fn the_length_of_a_message_counts_bytes() {
    let client = LspClient::new();
    let request = LspRequest { method: "é".to_string(), params: Json::Null };
    let sent = client.send_notification(&request);
    let body = "{\"jsonrpc\":\"2.0\",\"method\":\"é\",\"params\":null}";
    assert_eq!(sent, format!("Content-Length: {}\r\n\r\n{}", body.len(), body));
    assert_eq!(body.len(), body.chars().count() + 1);
}

#[test]
fn answers_reach_the_requests_they_are_for() {
    let mut client = LspClient::new();
    let (first, _) = client.send_request(&LspRequest::workspace_symbol("a"));
    let (second, sent) = client.send_request(&LspRequest::workspace_symbol("b"));
    assert_eq!((first, second), (1, 2));
    assert!(sent.ends_with(
        "{\"id\":2,\"jsonrpc\":\"2.0\",\"method\":\"workspace/symbol\",\"params\":{\"query\":\"b\"}}"
    ));
    match client.receive(json("{\"id\":2,\"result\":[1]}")) {
        Incoming::Reply { id, result } => {
            assert_eq!(id, 2);
            assert_eq!(result.unwrap().render(), "[1]");
        }
        other => panic!("{:?}", other),
    }
    assert!(matches!(client.receive(json("{\"id\":2,\"result\":[1]}")), Incoming::Ignored));
    match client.receive(json("{\"id\":1,\"error\":{\"code\":-1,\"message\":\"no\"},\"result\":1}")) {
        Incoming::Reply { id, result } => {
            assert_eq!(id, 1);
            assert_eq!(result.unwrap_err(), "LSP error: {\"code\":-1,\"message\":\"no\"}");
        }
        other => panic!("{:?}", other),
    }
}

#[test]
fn an_answer_without_a_result_is_null() {
    let mut client = LspClient::new();
    let (id, _) = client.send_request(&LspRequest::shutdown());
    assert_eq!(id, 1);
    match client.receive(json("{\"id\":1}")) {
        Incoming::Reply { result, .. } => assert_eq!(result.unwrap().render(), "null"),
        other => panic!("{:?}", other),
    }
}

#[test]
fn other_ids_answer_nothing() {
    let mut client = LspClient::new();
    client.send_request(&LspRequest::shutdown());
    for text in ["{\"id\":\"1\"}", "{\"id\":1.0}", "{\"id\":3}", "{\"id\":-1}", "{\"id\":null}", "{\"id\":[1]}"] {
        assert!(matches!(client.receive(json(text)), Incoming::Ignored), "{}", text);
    }
    match client.receive(json("{\"method\":\"m\",\"params\":{}}")) {
        Incoming::Notification(message) => {
            assert_eq!(message.render(), "{\"method\":\"m\",\"params\":{}}")
        }
        other => panic!("{:?}", other),
    }
    assert!(matches!(client.receive(json("{\"id\":1}")), Incoming::Reply { id: 1, .. }));
}

#[test]
fn a_file_is_opened_once() {
    let mut client = LspClient::new();
    let sent = client.ensure_file_open("file:///a.rs", "x").unwrap();
    assert!(sent.contains("textDocument/didOpen"));
    assert!(client.ensure_file_open("file:///a.rs", "x").is_none());
    assert!(client.ensure_file_open("file:///b.rs", "x").is_some());
    let (id, request, exit) = client.shutdown();
    assert_eq!(id, 1);
    assert!(request.ends_with("{\"id\":1,\"jsonrpc\":\"2.0\",\"method\":\"shutdown\",\"params\":null}"));
    assert!(exit.ends_with("{\"jsonrpc\":\"2.0\",\"method\":\"exit\",\"params\":null}"));
}

#[test]
fn headers_are_read_line_by_line() {
    let mut header = Header::new();
    assert_eq!(header.read_line("Content-Type: x\r\n"), HeaderStep::More);
    assert_eq!(header.read_line("Content-Length: 5\r\n"), HeaderStep::More);
    assert_eq!(header.read_line("Content-Length:  +17 \r\n"), HeaderStep::More);
    assert_eq!(header.read_line("\r\n"), HeaderStep::Body(17));
}

#[test]
fn headers_can_be_wrong() {
    assert_eq!(Header::new().read_line(""), HeaderStep::End);
    assert_eq!(Header::new().read_line("\r\n"), HeaderStep::NoLength);
    assert_eq!(Header::new().read_line("Content-Length: many\r\n"), HeaderStep::BadLength);
    let mut zero = Header::new();
    assert_eq!(zero.read_line("Content-Length: 0\r\n"), HeaderStep::More);
    assert_eq!(zero.read_line("\n"), HeaderStep::More);
    assert_eq!(zero.read_line("\r\n"), HeaderStep::NoLength);
}

#[test]
fn the_header_of_a_message_tells_its_length() {
    let sent = LspClient::new().send_notification(&LspRequest::workspace_symbol("née"));
    let (head, body) = sent.split_at(sent.find('{').unwrap());
    let mut header = Header::new();
    let mut last = HeaderStep::More;
    for line in head.split_inclusive('\n') {
        assert_eq!(last, HeaderStep::More);
        last = header.read_line(line);
    }
    assert_eq!(last, HeaderStep::Body(body.len()));
}

#[test]
fn a_client_is_ready_after_a_good_answer() {
    let (mut client, id, _) = LspClient::start(1, None);
    let answer = "{\"id\":1,\"result\":{\"capabilities\":{}}}";
    match client.receive(json(answer)) {
        Incoming::Reply { id: answered, result } => {
            assert_eq!(answered, id);
            let ready = LspClient::initialized(result).unwrap();
            assert_eq!(ready.method, "initialized");
            assert_eq!(ready.params.render(), "{}");
        }
        other => panic!("{:?}", other),
    }
}

#[test]
fn a_client_does_not_start_on_an_error() {
    let (mut client, _, _) = LspClient::start(1, None);
    let answer = "{\"id\":1,\"error\":{\"code\":-1}}";
    match client.receive(json(answer)) {
        Incoming::Reply { result, .. } => {
            assert_eq!(LspClient::initialized(result).unwrap_err(), "LSP error: {\"code\":-1}");
        }
        other => panic!("{:?}", other),
    }
    let message = LspClient::initialized(Ok(Json::Null)).unwrap_err();
    assert!(message.contains("invalid type"));
    assert!(LspClient::initialized(Ok(json("{\"capabilities\":5}"))).is_err());
}

fn messages() -> (Vec<String>, Vec<u8>) {
    let mut client = LspClient::new();
    let mut texts = vec![];
    let mut bytes = vec![];
    let first = LspRequest::execute_command("grüßen", vec![json("[1.5,-2,{\"a\":null}]")]);
    for sent in [
        client.send_request(&first).1,
        client.send_notification(&LspRequest::initialized()),
        client.send_request(&LspRequest::shutdown()).1,
    ] {
        texts.push(sent.split_once("\r\n\r\n").unwrap().1.to_string());
        bytes.extend_from_slice(sent.as_bytes());
    }
    (texts, bytes)
}

#[test]
fn messages_are_read_back_in_order() {
    let (texts, mut bytes) = messages();
    for text in texts {
        match read_message(&bytes, true) {
            ReadStep::Message { message, used } => {
                assert_eq!(message.render(), text);
                bytes.drain(..used);
            }
            other => panic!("{:?}", other),
        }
    }
    assert!(matches!(read_message(&bytes, true), ReadStep::End));
    assert!(matches!(read_message(&bytes, false), ReadStep::Incomplete));
}

#[test]
fn a_message_is_read_when_all_of_it_has_come() {
    let (texts, bytes) = messages();
    let header = bytes.windows(4).position(|part| part == b"\r\n\r\n").unwrap() + 4;
    let whole = header + texts[0].len();
    for end in 0..whole {
        assert!(matches!(read_message(&bytes[..end], false), ReadStep::Incomplete));
    }
    assert!(matches!(read_message(&bytes[..whole], false), ReadStep::Message { .. }));
    assert!(matches!(read_message(&bytes[..header], true), ReadStep::Failed(ReadFailure::CutShort)));
    assert!(matches!(read_message(&bytes[..header - 2], true), ReadStep::End));
    assert!(matches!(read_message(&bytes[..header - 5], true), ReadStep::End));
}

#[test]
fn messages_can_be_wrong() {
    let failure = |bytes: &[u8]| match read_message(bytes, false) {
        ReadStep::Failed(failure) => failure,
        other => panic!("{:?}", other),
    };
    assert_eq!(failure(b"\xff\r\n"), ReadFailure::NotText);
    assert_eq!(failure(b"Content-Length: x\r\n"), ReadFailure::BadLength);
    assert_eq!(failure(b"Other: 1\r\n\r\n"), ReadFailure::NoLength);
    assert_eq!(failure(b"Content-Length: 0\r\n\r\n"), ReadFailure::NoLength);
    assert_eq!(failure(b"Content-Length: 2\r\n\r\n{]"), ReadFailure::NotJson);
    match read_message(b"Content-Type: t\r\nContent-Length: 2\r\n\r\n{}rest", false) {
        ReadStep::Message { message, used } => {
            assert_eq!(message.render(), "{}");
            assert_eq!(used, 40);
        }
        other => panic!("{:?}", other),
    }
}
