//! Diagnostics and the notices that bring them.
use lsp_mcp::diagnostics::{can_enrich, range_from};
use lsp_mcp::handler::MyHandler;
use lsp_mcp::json::Json;
use lsp_mcp::models::{Position, Range};
use lsp_mcp::notices::DiagnosticsNotice;
use lsp_mcp::symbols::{DocumentSymbol, DocumentSymbolResponse, SourceLocation, SymbolInformation};

fn json(text: &str) -> Json {
    Json::parse(text.as_bytes()).unwrap()
}

fn range(start: (u32, u32), end: (u32, u32)) -> Range {
    Range {
        start: Position { line: start.0, character: start.1 },
        end: Position { line: end.0, character: end.1 },
    }
}

fn text_at(value: &Json, name: &str) -> String {
    value.get(name).unwrap().as_text().unwrap().to_string()
}

fn main_lines() -> Vec<String> {
    ["fn main() {", "    let x = 1;", "}"].iter().map(|line| line.to_string()).collect()
}

#[test]
fn test_diagnostic_enrichment() {
    let lines = main_lines();
    let doc_symbols = vec![("main".to_string(), range((0, 0), (2, 1)))];
    let path = "src/main.rs";

    let mut diagnostics = vec![json(
        "{
            \"range\": {
                \"start\": {\"line\": 1, \"character\": 8},
                \"end\": {\"line\": 1, \"character\": 9}
            },
            \"message\": \"unused variable: `x`\"
        }",
    )];

    MyHandler::enrich_diagnostics(&mut diagnostics, &lines, &doc_symbols, path);

    let enriched = &diagnostics[0];
    assert_eq!(text_at(enriched, "line_content"), "    let x = 1;");
    assert_eq!(text_at(enriched, "symbol_name"), "main");
    assert_eq!(text_at(enriched, "symbol_name_source"), "semantic");

    // The text of the line has to do where no symbol covers the range.
    let mut diagnostics_textual = vec![json(
        "{
            \"range\": {
                \"start\": {\"line\": 1, \"character\": 8},
                \"end\": {\"line\": 1, \"character\": 9}
            },
            \"message\": \"some error\"
        }",
    )];
    MyHandler::enrich_diagnostics(&mut diagnostics_textual, &lines, &vec![], path);
    assert_eq!(text_at(&diagnostics_textual[0], "symbol_name"), "x");
    assert_eq!(text_at(&diagnostics_textual[0], "symbol_name_source"), "textual");
    assert_eq!(text_at(&diagnostics_textual[0], "path"), "src/main.rs");
    assert_eq!(text_at(&diagnostics_textual[0], "message"), "some error");
}

#[test]
fn enriching_again_changes_nothing() {
    let text = "{\"range\":{\"start\":{\"line\":1,\"character\":8},\"end\":{\"line\":1,\"character\":9}}}";
    let mut diagnostics = vec![json(text)];
    MyHandler::enrich_diagnostics(&mut diagnostics, &main_lines(), &vec![], "a.rs");
    let once = diagnostics[0].render();
    MyHandler::enrich_diagnostics(&mut diagnostics, &main_lines(), &vec![], "a.rs");
    assert_eq!(diagnostics[0].render(), once);
}

#[test]
fn a_diagnostic_without_a_place_gets_its_path() {
    let mut diagnostics = vec![
        json("{\"message\":\"m\"}"),
        Json::Null,
        json("{\"range\":{\"start\":{\"line\":9,\"character\":0}}}"),
        json("{\"range\":{\"start\":{\"line\":1,\"character\":8},\"end\":{\"line\":1,\"character\":99}}}"),
    ];
    MyHandler::enrich_diagnostics(&mut diagnostics, &main_lines(), &vec![], "a.rs");
    assert_eq!(diagnostics[0].render(), "{\"message\":\"m\",\"path\":\"a.rs\"}");
    assert_eq!(diagnostics[1].render(), "{\"path\":\"a.rs\"}");
    assert!(diagnostics[2].get("line_content").is_none());
    assert_eq!(text_at(&diagnostics[3], "line_content"), "    let x = 1;");
    assert!(diagnostics[3].get("symbol_name").is_none());
}

#[test]
fn the_first_symbol_that_covers_the_range_counts() {
    let lines = main_lines();
    let symbols = vec![
        ("elsewhere".to_string(), range((2, 0), (2, 1))),
        ("too_late".to_string(), range((1, 9), (2, 1))),
        ("outer".to_string(), range((0, 0), (2, 1))),
        ("inner".to_string(), range((1, 4), (1, 14))),
    ];
    let mut diagnostics = vec![json(
        "{\"range\":{\"start\":{\"line\":1,\"character\":8},\"end\":{\"line\":1,\"character\":9}}}",
    )];
    MyHandler::enrich_diagnostics(&mut diagnostics, &lines, &symbols, "a.rs");
    assert_eq!(text_at(&diagnostics[0], "symbol_name"), "outer");
}

#[test]
fn some_diagnostics_cannot_be_enriched() {
    let lines = vec!["añb".to_string()];
    let split = json("{\"range\":{\"start\":{\"line\":0,\"character\":2},\"end\":{\"line\":0,\"character\":4}}}");
    assert!(!can_enrich(&split, &lines, &vec![]));
    let covered = vec![("f".to_string(), range((0, 0), (0, 9)))];
    assert!(can_enrich(&split, &lines, &covered));
    assert!(!can_enrich(&Json::text("x"), &lines, &vec![]));
    assert!(can_enrich(&Json::Null, &lines, &vec![]));
}

#[test]
fn ranges_are_read_like_the_protocol_types_are() {
    for text in [
        "{\"start\":{\"line\":1,\"character\":2},\"end\":{\"line\":3,\"character\":4},\"other\":0}",
        "[[1,2],[3,4]]",
        "[[1,2],{\"line\":3,\"character\":4}]",
        "[[1,2],[3,4],[5,6]]",
        "[[1,2]]",
        "{\"start\":{\"line\":1,\"character\":2}}",
        "{\"start\":{\"line\":-1,\"character\":2},\"end\":{\"line\":3,\"character\":4}}",
        "{\"start\":{\"line\":4294967296,\"character\":2},\"end\":{\"line\":3,\"character\":4}}",
        "{\"start\":{\"line\":1.0,\"character\":2},\"end\":{\"line\":3,\"character\":4}}",
        "{\"start\":{\"line\":4294967295,\"character\":0},\"end\":{\"line\":0,\"character\":0}}",
        "null",
        "\"x\"",
    ] {
        let value: serde_json::Value = serde_json::from_str(text).unwrap();
        let expected: lsp_types::Range = serde_json::from_value(value).unwrap_or_default();
        let read = range_from(&json(text));
        assert_eq!(read.start.line, expected.start.line, "{}", text);
        assert_eq!(read.start.character, expected.start.character, "{}", text);
        assert_eq!(read.end.line, expected.end.line, "{}", text);
        assert_eq!(read.end.character, expected.end.character, "{}", text);
    }
}

fn notice_text() -> &'static str {
    "{\"method\":\"textDocument/publishDiagnostics\",\"params\":{\"uri\":\"file:///tmp/main.rs\",
      \"diagnostics\":[{\"message\":\"m\",
        \"range\":{\"start\":{\"line\":1,\"character\":8},\"end\":{\"line\":1,\"character\":9}}}]}}"
}

#[test]
fn published_diagnostics_are_enriched_and_passed_on() {
    let mut notice = DiagnosticsNotice::read(&json(notice_text())).unwrap();
    let (uri, path) = notice.file().unwrap();
    assert_eq!(uri, "file:///tmp/main.rs");
    assert_eq!(path, "/tmp/main.rs");
    let nested = DocumentSymbolResponse::Nested(vec![DocumentSymbol {
        name: "impl".to_string(),
        kind: 5,
        range: range((7, 0), (9, 0)),
        selection_range: range((7, 0), (7, 4)),
        children: Some(vec![DocumentSymbol {
            name: "main".to_string(),
            kind: 12,
            range: range((0, 0), (2, 1)),
            selection_range: range((0, 3), (0, 7)),
            children: None,
        }]),
    }]);
    assert!(notice.enrich("fn main() {\n    let x = 1;\n}\n", &Some(nested), &path));

    let mut handler = MyHandler::new(true);
    assert!(notice.forward(&handler).is_none());
    handler.editor_subscribe_to_diagnostics();
    let (method, params) = notice.forward(&handler).unwrap();
    assert_eq!(method, "notifications/diagnostics");
    let list = match params.get("diagnostics").unwrap() {
        Json::Array(list) => list,
        _ => panic!("no list"),
    };
    assert_eq!(text_at(&list[0], "symbol_name"), "main");
    assert_eq!(text_at(&list[0], "path"), "/tmp/main.rs");
    assert_eq!(text_at(&params, "uri"), "file:///tmp/main.rs");
}

#[test]
fn flat_symbols_name_diagnostics_too() {
    let mut notice = DiagnosticsNotice::read(&json(notice_text())).unwrap();
    let flat = DocumentSymbolResponse::Flat(vec![SymbolInformation {
        name: "main".to_string(),
        kind: 12,
        location: SourceLocation {
            uri: "file:///tmp/main.rs".to_string(),
            range: range((0, 0), (2, 1)),
        },
        container_name: None,
    }]);
    assert!(notice.enrich("fn main() {\n    let x = 1;\n}\n", &Some(flat), "p"));
    let mut handler = MyHandler::new(false);
    handler.editor_subscribe_to_diagnostics();
    let (_, params) = notice.forward(&handler).unwrap();
    assert!(params.render().contains("\"symbol_name\":\"main\""));
}

#[test]
fn a_notice_that_cannot_be_enriched_stays() {
    let mut notice = DiagnosticsNotice::read(&json(
        "{\"method\":\"textDocument/publishDiagnostics\",\"params\":{\"uri\":\"file:///a\",\"diagnostics\":[7]}}",
    ))
    .unwrap();
    assert!(!notice.enrich("x", &None, "p"));
    let mut handler = MyHandler::new(false);
    handler.editor_subscribe_to_diagnostics();
    assert_eq!(notice.forward(&handler).unwrap().1.render(), "{\"diagnostics\":[7],\"uri\":\"file:///a\"}");
}

#[test]
fn other_messages_are_no_notices() {
    assert!(DiagnosticsNotice::read(&json("{\"method\":\"window/logMessage\",\"params\":{}}")).is_none());
    assert!(DiagnosticsNotice::read(&json("{\"method\":\"textDocument/publishDiagnostics\"}")).is_none());
    assert!(DiagnosticsNotice::read(&json("{\"params\":{}}")).is_none());
    let odd = DiagnosticsNotice::read(&json(
        "{\"method\":\"textDocument/publishDiagnostics\",\"params\":[1]}",
    ))
    .unwrap();
    assert!(odd.file().is_none());
    let mut handler = MyHandler::new(false);
    handler.editor_subscribe_to_diagnostics();
    assert_eq!(odd.forward(&handler).unwrap().1.render(), "{}");
    let remote = DiagnosticsNotice::read(&json(
        "{\"method\":\"textDocument/publishDiagnostics\",\"params\":{\"uri\":\"https://x/\",\"diagnostics\":[]}}",
    ))
    .unwrap();
    assert!(remote.file().is_none());
}

#[test]
fn the_symbols_of_the_document_are_asked_for() {
    let request = DiagnosticsNotice::symbols_request(&MyHandler::new(true), "file:///a.rs");
    let request = request.unwrap().unwrap();
    assert_eq!(request.method, "textDocument/documentSymbol");
    assert_eq!(request.params.render(), "{\"textDocument\":{\"uri\":\"file:///a.rs\"}}");
    assert!(DiagnosticsNotice::symbols_request(&MyHandler::new(false), "x y").unwrap().is_none());
    assert!(DiagnosticsNotice::symbols_request(&MyHandler::new(true), "file:///a b").is_err());
}
