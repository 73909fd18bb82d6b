//! The tools: what they ask, and what they make of the answers.
use lsp_mcp::args::{
    ApplyActionArgs, FindSymbolArgs, GetActionsArgs, GetCompletionsArgs, InteractiveRenameArgs,
    PathLineCharArgs, ShowSubSymbolArgs,
};
use lsp_mcp::changes::{edit_to_make, EditError};
use lsp_mcp::errors::ToolError;
use lsp_mcp::handler::MyHandler;
use lsp_mcp::json::Json;
use lsp_mcp::manual::{tool_arguments, ManualCommand};
use lsp_mcp::models::{CodeAction, EnrichedDiagnostic, Position, Range};
use lsp_mcp::symbols::{DocumentSymbol, DocumentSymbolResponse, SourceLocation};
use lsp_mcp::tools::{
    hover_info, ActionStep, CompletionEntry, CompletionResponse, DefinitionResponse, Documentation,
    LocationLink, RenameStep,
};
use lsp_mcp::uri::{directory_uri, file_uri, is_uri, normal_uri, path_of_uri, MAX_URI_BYTES};
use lsp_mcp::workspace::FileAction;

fn json(text: &str) -> Json {
    Json::parse(text.as_bytes()).unwrap()
}

fn range(line: u32, character: u32) -> Range {
    Range {
        start: Position { line, character },
        end: Position { line, character: character + 1 },
    }
}

fn location(uri: &str, line: u32) -> SourceLocation {
    SourceLocation { uri: uri.to_string(), range: range(line, 4) }
}

fn internal<T: std::fmt::Debug>(result: Result<T, ToolError>) -> String {
    match result {
        Err(ToolError::Internal(message)) => message,
        other => panic!("{:?}", other),
    }
}

fn place_args(path: &str) -> PathLineCharArgs {
    PathLineCharArgs { path: path.to_string(), line: 6, character: 20 }
}

fn action(edit: Option<&str>, command: Option<&str>) -> ApplyActionArgs {
    ApplyActionArgs {
        action_object: CodeAction {
            title: "Fix".to_string(),
            kind: None,
            command: command.map(json),
            edit: edit.map(json),
        },
    }
}

#[test]
fn test_ai_doctrines_in_initialize() {
    let handler = MyHandler::new(false);

    let server_info = handler.get_info();

    let instructions = server_info.instructions;
    assert!(instructions.contains("DOCTRINE 1 (PLAN)"));
    assert!(instructions.contains("DOCTRINE 2 (VERIFY)"));
    assert!(instructions.contains("DOCTRINE 3 (EXECUTE)"));
    assert!(instructions.contains("DOCTRINE 4 (DEBUG)"));
    assert_eq!(server_info.name, "lsp-mcp");
    assert_eq!(server_info.version, "1.16");
    assert_eq!(server_info.title, "LSP MCP Server");
}

#[test]
fn test_mcp_prompts_dynamic_guidance() {
    let handler = MyHandler::new(true);

    let text = handler.dynamic_guidance(&json("{\"query\":\"Why is my test failing?\"}"));
    assert!(text.contains("To debug a failing test"));
    assert!(!text.contains("use code_find_symbol"));

    let text = handler.dynamic_guidance(&json("{\"query\":\"Variable not found error\"}"));
    assert!(text.contains("use code_find_symbol"));
    assert!(!text.contains("To debug a failing test"));
}

#[test]
fn guidance_may_be_twofold_or_empty() {
    let handler = MyHandler::new(true);
    let both = handler.dynamic_guidance(&json("{\"query\":\"failing: undefined\"}"));
    assert_eq!(both.lines().count(), 2);
    assert!(both.starts_with("[System Note: To debug a failing test"));
    for none in ["{\"query\":\"hello\"}", "{\"query\":5}", "{}", "null"] {
        assert_eq!(handler.dynamic_guidance(&json(none)), "");
    }
}

#[test]
fn subscribing_covers_everything() {
    let mut handler = MyHandler::new(true);
    assert!(!handler.subscribed_to_diagnostics);
    let text = handler.editor_subscribe_to_diagnostics();
    assert!(text.contains("Subscribed"));
    assert_eq!(
        text,
        "{\"range\":{\"end\":{\"character\":4294967295,\"line\":4294967295},\
         \"start\":{\"character\":0,\"line\":0}},\"scope\":\"workspace\",\"status\":\"Subscribed\"}"
    );
    assert!(handler.subscribed_to_diagnostics);
    let said = json(&text);
    assert_eq!(said.get("status").unwrap().as_text(), Some("Subscribed"));
    assert_eq!(said.get("scope").unwrap().as_text(), Some("workspace"));
    assert_eq!(handler.editor_subscribe_to_diagnostics(), text);
    assert!(handler.subscribed_to_diagnostics);
    assert!(handler.lsp_available);
    let (method, said) = MyHandler::ui_show_workspace_diagnostics();
    assert_eq!(method, "ui/showDiagnostics");
    assert!(said.contains("opened"));
}

#[test]
fn paths_become_absolute() {
    assert_eq!(MyHandler::to_absolute_path("/a/b.rs", "/c"), "/a/b.rs");
    assert_eq!(MyHandler::to_absolute_path("b.rs", "/c"), "/c/b.rs");
    assert_eq!(MyHandler::to_absolute_path("b.rs", ""), "b.rs");
}

#[test]
fn paths_and_uris() {
    assert_eq!(file_uri("/tmp/a b.rs").unwrap(), "file:///tmp/a%20b.rs");
    assert_eq!(path_of_uri("file:///tmp/a%20b.rs").unwrap(), "/tmp/a b.rs");
    assert_eq!(directory_uri("/tmp").unwrap().unwrap(), "file:///tmp/");
    assert!(file_uri("relative.rs").is_none());
    assert!(directory_uri("relative").unwrap().is_none());
    assert_eq!(directory_uri("/tmp/[x]").unwrap_err(), "file:///tmp/[x]/");
    assert!(file_uri("/tmp/[x]").is_none());
    assert!(path_of_uri("https://example.org/").is_none());
    assert!(path_of_uri("no url").is_none());
    assert_eq!(normal_uri("FILE:///tmp/../a.rs").unwrap(), "file:///a.rs");
    assert!(normal_uri("no url").is_none());
}

#[test]
fn definitions_and_references_are_asked_for() {
    let handler = MyHandler::new(true);
    let call = handler.editor_get_definition(&place_args("src/main.rs"), "/work").unwrap();
    assert_eq!(call.path, "/work/src/main.rs");
    assert_eq!(call.uri, "file:///work/src/main.rs");
    assert_eq!(call.request.method, "textDocument/definition");
    assert_eq!(
        call.request.params.render(),
        "{\"position\":{\"character\":20,\"line\":6},\
         \"textDocument\":{\"uri\":\"file:///work/src/main.rs\"}}"
    );
    let call = handler.editor_get_references(&place_args("/a.rs"), "/work").unwrap();
    assert_eq!(call.request.method, "textDocument/references");
    assert!(call.request.params.render().contains("\"includeDeclaration\":true"));
    match handler.editor_get_definition(&place_args("a.rs"), "nowhere") {
        Err(ToolError::NotAFile(path)) => assert_eq!(path, "nowhere/a.rs"),
        other => panic!("{:?}", other),
    }
}

#[test]
fn without_a_server_nothing_is_asked() {
    let handler = MyHandler::new(false);
    assert_eq!(internal(handler.editor_get_definition(&place_args("/a"), "/")), "LSP not available");
    assert_eq!(internal(handler.editor_get_references(&place_args("/a"), "/")), "LSP not available");
    let completions = GetCompletionsArgs { path: "/a".to_string(), line: 0, character: 0 };
    assert_eq!(internal(handler.code_get_completions(&completions, "/")), "LSP not available");
    assert_eq!(internal(handler.code_apply_action(&action(None, None))), "LSP not available");
}

#[test]
fn definitions_are_told() {
    let scalar = DefinitionResponse::Scalar(location("file:///tmp/main.rs", 5));
    let places = MyHandler::editor_get_definition_reply(Ok(Some(scalar))).unwrap();
    assert_eq!(places.len(), 1);
    assert!(places[0].path.contains("main.rs"));
    assert_eq!((places[0].line, places[0].character), (5, 4));
    let array = DefinitionResponse::Array(vec![location("file:///a", 1), location("file:///b", 2)]);
    let places = MyHandler::editor_get_definition_reply(Ok(Some(array))).unwrap();
    assert_eq!(places[1].path, "/b");
    let link = DefinitionResponse::Link(vec![LocationLink {
        target_uri: "file:///c".to_string(),
        target_range: range(9, 8),
    }]);
    let places = MyHandler::editor_get_definition_reply(Ok(Some(link))).unwrap();
    assert_eq!((places[0].path.as_str(), places[0].line, places[0].character), ("/c", 9, 8));
    assert!(MyHandler::editor_get_definition_reply(Ok(None)).unwrap().is_empty());
    assert_eq!(internal(MyHandler::editor_get_definition_reply(Err("no".to_string()))), "no");
}

#[test]
fn references_are_told() {
    let locations = vec![location("file:///a", 1), location("file:///a", 7)];
    let places = MyHandler::editor_get_references_reply(Ok(Some(locations))).unwrap();
    assert_eq!(places.len(), 2);
    assert_eq!(places[1].line, 7);
    assert!(MyHandler::editor_get_references_reply(Ok(None)).unwrap().is_empty());
    assert_eq!(internal(MyHandler::editor_get_references_reply(Err("no".to_string()))), "no");
    let outside = vec![location("file:///a", 1), location("https://b/", 7), location("no url", 7)];
    match MyHandler::editor_get_references_reply(Ok(Some(outside))) {
        Err(ToolError::NotAFile(uri)) => assert_eq!(uri, "https://b/"),
        other => panic!("{:?}", other),
    }
}

#[test]
fn sub_symbols_are_asked_for_and_shown() {
    let args = ShowSubSymbolArgs {
        symbol: "main.rs".to_string(),
        symbol_path: "/tmp/main.rs".to_string(),
        level: 1,
    };
    let call = MyHandler::new(true).code_show_sub_symbol(&args, "/").unwrap();
    assert_eq!(call.request.method, "textDocument/documentSymbol");
    let response = DocumentSymbolResponse::Nested(vec![]);
    assert!(MyHandler::code_show_sub_symbol_reply(&args, Ok(Some(response)), "").unwrap().is_empty());
    assert!(MyHandler::code_show_sub_symbol_reply(&args, Ok(None), "").unwrap().is_empty());
    let place = range(0, 0);
    let function = |name: &str| DocumentSymbol {
        name: name.to_string(),
        kind: 12,
        range: place,
        selection_range: place,
        children: None,
    };
    let response = DocumentSymbolResponse::Nested(vec![function("hello"), function("main")]);
    let members = MyHandler::code_show_sub_symbol_reply(&args, Ok(Some(response)), "fn hello() {").unwrap();
    assert_eq!(members.len(), 2);
    assert_eq!(members[0].name, "main.rs::hello");
    assert_eq!(members[0].signature, "fn hello()");
    assert_eq!(members[1].name, "main.rs::main");
    assert_eq!(
        internal(MyHandler::code_show_sub_symbol_reply(&args, Err("file not found".to_string()), "")),
        "file not found"
    );
}

#[test]
fn completions_are_asked_for_and_told() {
    let args = GetCompletionsArgs { path: "/a.rs".to_string(), line: 9, character: 11 };
    let call = MyHandler::new(true).code_get_completions(&args, "/").unwrap();
    assert_eq!(call.request.method, "textDocument/completion");
    let entry = |documentation| CompletionEntry {
        label: "useful_func".to_string(),
        kind: Some(3),
        detail: Some("fn()".to_string()),
        documentation,
        sort_text: None,
        filter_text: Some("f".to_string()),
        insert_text: Some("i".to_string()),
    };
    let list = CompletionResponse::List(vec![
        entry(Some(Documentation::Text("plain".to_string()))),
        entry(Some(Documentation::Markup("*marked*".to_string()))),
    ]);
    let items = MyHandler::code_get_completions_reply(Ok(Some(list))).unwrap();
    assert!(items.iter().any(|item| item.label.contains("useful_func")));
    assert_eq!(items[0].kind, Some(format!("{:?}", lsp_types::CompletionItemKind::FUNCTION)));
    assert_eq!(items[0].documentation, Some("plain".to_string()));
    assert_eq!(items[1].documentation, Some("*marked*".to_string()));
    assert_eq!(items[1].filter_text, Some("f".to_string()));
    assert_eq!(items[1].sort_text, None);
    let array = CompletionResponse::Array(vec![entry(None)]);
    assert_eq!(MyHandler::code_get_completions_reply(Ok(Some(array))).unwrap()[0].documentation, None);
    assert!(MyHandler::code_get_completions_reply(Ok(None)).unwrap().is_empty());
    assert_eq!(internal(MyHandler::code_get_completions_reply(Err("no".to_string()))), "no");
}

fn rename_args(location_hint: Option<Position>) -> InteractiveRenameArgs {
    InteractiveRenameArgs {
        path: "/a.rs".to_string(),
        symbol_to_find: FindSymbolArgs {
            symbol_name: "hello".to_string(),
            file: None,
            location_hint,
            context_hint: None,
            hover_detail: "signature".to_string(),
            feeling_lucky: true,
        },
        new_name: "greet".to_string(),
    }
}

#[test]
fn renames_are_asked_for() {
    let handler = MyHandler::new(true);
    let hint = Some(Position { line: 1, character: 3 });
    let call = handler.refactor_interactive_rename(&rename_args(hint), "/").unwrap();
    assert_eq!(
        call.request.params.render(),
        "{\"newName\":\"greet\",\"position\":{\"character\":3,\"line\":1},\
         \"textDocument\":{\"uri\":\"file:///a.rs\"}}"
    );
    let call = handler.refactor_interactive_rename(&rename_args(None), "/").unwrap();
    assert!(call.request.params.render().contains("{\"character\":0,\"line\":0}"));
}

#[test]
fn renames_are_answered() {
    let edit = json("{\"changes\":{\"file:///a.rs\":[]}}");
    match MyHandler::refactor_interactive_rename_reply(Ok(edit)) {
        Ok(RenameStep::Edit(plan)) => assert_eq!(plan.actions.len(), 1),
        other => panic!("{:?}", other),
    }
    match MyHandler::refactor_interactive_rename_reply(Ok(Json::Null)) {
        Ok(RenameStep::Done(text)) => assert_eq!(text, "LSP returned no edits for rename"),
        other => panic!("{:?}", other),
    }
    assert_eq!(internal(MyHandler::refactor_interactive_rename_reply(Err("no".to_string()))), "no");
    let wrong = internal(MyHandler::refactor_interactive_rename_reply(Ok(json("5"))));
    assert!(wrong.contains("invalid type"));
    assert_eq!(
        MyHandler::refactor_interactive_rename_applied(Ok(())).unwrap(),
        "{\"message\":\"Rename successful.\",\"status\":\"Applied\"}"
    );
    assert_eq!(
        internal(MyHandler::refactor_interactive_rename_applied(Err("disk".to_string()))),
        "disk"
    );
}

#[test]
fn actions_for_a_diagnostic_are_asked_for() {
    let handler = MyHandler::new(true);
    let args = |diagnostic: &str| GetActionsArgs {
        diagnostic_object: EnrichedDiagnostic {
            diagnostic: json(diagnostic),
            symbol_name: None,
            line_content: None,
            path: "/main.rs".to_string(),
        },
    };
    let diagnostic = "{\"range\":{\"start\":{\"line\":0,\"character\":0},\"end\":{\"line\":0,\"character\":1}},
        \"message\":\"dummy diagnostic\",\"severity\":1,\"unknown\":true}";
    let call = handler.code_get_actions_for_diagnostic(&args(diagnostic), "/").unwrap();
    assert_eq!(call.request.method, "textDocument/codeAction");
    assert_eq!(
        call.request.params.render(),
        "{\"context\":{\"diagnostics\":[{\"message\":\"dummy diagnostic\",\
         \"range\":{\"end\":{\"character\":1,\"line\":0},\"start\":{\"character\":0,\"line\":0}},\
         \"severity\":1}]},\"range\":{\"end\":{\"character\":1,\"line\":0},\
         \"start\":{\"character\":0,\"line\":0}},\"textDocument\":{\"uri\":\"file:///main.rs\"}}"
    );
    assert!(matches!(
        handler.code_get_actions_for_diagnostic(&args("{\"message\":\"no range\"}"), "/"),
        Err(ToolError::NotADiagnostic)
    ));
}

#[test]
fn actions_for_a_diagnostic_are_told() {
    let reply = json("[{\"title\":\"Fix\",\"command\":\"fix\",\"unknown\":1}]");
    let text = MyHandler::code_get_actions_for_diagnostic_reply(Ok(reply)).unwrap();
    assert_eq!(text, "[{\"title\":\"Fix\",\"command\":\"fix\"}]");
    assert_eq!(MyHandler::code_get_actions_for_diagnostic_reply(Ok(Json::Null)).unwrap(), "null");
    let edit = "[{\"title\":\"Fix\",\"edit\":{\"changes\":{\"file:///a.rs\":[],\"file:///b.rs\":[]}}}]";
    let text = MyHandler::code_get_actions_for_diagnostic_reply(Ok(json(edit))).unwrap();
    assert_eq!(json(&text).to_value(), json(edit).to_value());
    assert_eq!(
        internal(MyHandler::code_get_actions_for_diagnostic_reply(Err("no".to_string()))),
        "no"
    );
    let wrong = internal(MyHandler::code_get_actions_for_diagnostic_reply(Ok(json("5"))));
    assert!(wrong.contains("invalid type"));
}

#[test]
fn an_action_has_an_edit_or_a_command() {
    let handler = MyHandler::new(true);
    match handler.code_apply_action(&action(Some("{\"changes\":{}}"), Some("{}"))).unwrap() {
        ActionStep::Edit(plan) => assert!(plan.actions.is_empty() && plan.error.is_none()),
        other => panic!("{:?}", other),
    }
    let edit = "{\"changes\":{\"file:///tmp/main.rs\":[{\"range\":{\"start\":{\"line\":0,\"character\":0},
        \"end\":{\"line\":0,\"character\":0}},\"newText\":\"// Comment\\n\"}]}}";
    match handler.code_apply_action(&action(Some(edit), None)).unwrap() {
        ActionStep::Edit(plan) => match &plan.actions[0] {
            FileAction::Edit { uri, path, edits } => {
                assert_eq!(uri, "file:///tmp/main.rs");
                assert_eq!(path, "/tmp/main.rs");
                assert_eq!(edits[0].new_text, "// Comment\n");
                let text = handler.apply_text_edits("fn main() {}", edits).unwrap();
                assert_eq!(text, "// Comment\nfn main() {}");
            }
            other => panic!("{:?}", other),
        },
        other => panic!("{:?}", other),
    }
    match handler.code_apply_action(&action(Some("[1]"), None)) {
        Err(ToolError::NotAnEdit(message)) => assert!(!message.is_empty()),
        other => panic!("{:?}", other),
    }
    let command = "{\"title\":\"Run\",\"command\":\"rust-analyzer.runTest\",\"arguments\":[1,{}]}";
    match handler.code_apply_action(&action(None, Some(command))).unwrap() {
        ActionStep::Execute(request) => {
            assert_eq!(request.method, "workspace/executeCommand");
            assert_eq!(
                request.params.render(),
                "{\"arguments\":[1,{}],\"command\":\"rust-analyzer.runTest\"}"
            );
        }
        other => panic!("{:?}", other),
    }
    match handler.code_apply_action(&action(None, Some("{\"title\":\"t\",\"command\":\"c\"}"))).unwrap() {
        ActionStep::Execute(request) => {
            assert_eq!(request.params.render(), "{\"arguments\":[],\"command\":\"c\"}")
        }
        other => panic!("{:?}", other),
    }
    match handler.code_apply_action(&action(None, None)).unwrap() {
        ActionStep::Done(text) => assert_eq!(text, "Action 'Fix' has no edit or command to apply."),
        other => panic!("{:?}", other),
    }
    assert!(matches!(
        handler.code_apply_action(&action(None, Some("{\"title\":1}"))),
        Err(ToolError::NotACommand)
    ));
}

#[test]
fn what_came_of_an_action_is_told() {
    let text = MyHandler::code_apply_action_edited("Add comment", Ok(())).unwrap();
    assert_eq!(text, "Applied edit for action 'Add comment'.");
    assert_eq!(internal(MyHandler::code_apply_action_edited("x", Err("e".to_string()))), "e");
    let text = MyHandler::code_apply_action_executed("Run", Ok(Json::Null)).unwrap();
    assert_eq!(text, "Executed command for action 'Run': None");
    let text = MyHandler::code_apply_action_executed("Run", Ok(json("{\"a\":1}"))).unwrap();
    let value: Option<serde_json::Value> = serde_json::from_str("{\"a\":1}").unwrap();
    assert_eq!(text, format!("Executed command for action 'Run': {:?}", value));
    assert_eq!(internal(MyHandler::code_apply_action_executed("x", Err("e".to_string()))), "e");
}

const RAW: &str = "$serde_json::private::RawValue";

/// A member that the parser takes for JSON in a text, where it comes first.
fn raw_first() -> Json {
    Json::Object(vec![(RAW.to_string(), Json::Null)])
}

#[test]
fn a_result_that_cannot_be_shown_is_an_error() {
    let result = Json::Object(vec![
        ("zz".to_string(), json("1")),
        (RAW.to_string(), Json::Null),
    ]);
    let message = internal(MyHandler::code_apply_action_executed("Run", Ok(result)));
    assert!(message.contains("raw value"));
}

#[test]
fn values_are_read_back_but_for_raw_members() {
    for text in ["[1.5,-2,18446744073709551615,\"\u{fc}\",{\"a\":{}}]", "{\"$serde_json\":null}"] {
        let value = json(text);
        assert_eq!(json(&value.render()).to_value(), value.to_value());
    }
    assert!(Json::parse(raw_first().render().as_bytes()).is_none());
    let number = Json::Object(vec![(RAW.to_string(), Json::text("1"))]);
    assert_eq!(json(&number.render()).as_u64(), Some(1));
}

#[test]
fn values_are_read_back_down_to_a_depth() {
    let nested = |levels: usize| (0..levels).fold(Json::Null, |inner, _| Json::array(vec![inner]));
    assert!(Json::parse(nested(127).render().as_bytes()).is_some());
    assert!(Json::parse(nested(128).render().as_bytes()).is_none());
}

#[test]
fn texts_have_a_length() {
    let value = json("{\"ab\":[1,\"cd\u{fc}\"],\"e\":null}");
    assert!(value.texts_within(4));
    assert!(!value.texts_within(3));
    assert!(!json("{\"abcde\":1}").texts_within(4));
    assert!(json("[1,true,null]").texts_within(0));
    let shadowed = Json::Object(vec![
        ("a".to_string(), Json::text("long")),
        ("a".to_string(), Json::text("x")),
    ]);
    assert!(shadowed.texts_within(1));
}

fn too_long() -> Json {
    Json::Text(String::from_utf8(vec![0; MAX_URI_BYTES + 1]).unwrap())
}

#[test]
fn a_text_can_be_too_long_for_a_uri() {
    let wrong = MyHandler::code_get_actions_for_diagnostic_reply(Ok(too_long()));
    assert!(matches!(wrong, Err(ToolError::TooLong)));
    let wrong = MyHandler::refactor_interactive_rename_reply(Ok(too_long()));
    assert!(matches!(wrong, Err(ToolError::TooLong)));
    assert!(matches!(edit_to_make(&too_long()), Err(EditError::TooLong)));
    match too_long() {
        Json::Text(text) => assert!(!is_uri(&text)),
        other => panic!("{:?}", other),
    }
    assert!(is_uri("file:///tmp/a.rs"));
    assert!(!is_uri("no uri"));
}

#[test]
fn hovers_are_shown() {
    let hover = "{\"contents\":{\"kind\":\"markdown\",\"value\":\"fn hello()\"}}";
    let expected: lsp_types::Hover = serde_json::from_str(hover).unwrap();
    assert_eq!(hover_info(&Ok(json(hover))), Some(format!("{:?}", expected.contents)));
    assert_eq!(hover_info(&Ok(Json::Null)), None);
    assert_eq!(hover_info(&Ok(json("5"))), None);
    assert_eq!(hover_info(&Err("no".to_string())), None);
}

#[test]
fn typed_lines_are_understood() {
    assert!(matches!(ManualCommand::read("  exit\n"), ManualCommand::Quit));
    assert!(matches!(ManualCommand::read("quit"), ManualCommand::Quit));
    assert!(matches!(ManualCommand::read("help"), ManualCommand::Help));
    assert!(matches!(ManualCommand::read("something"), ManualCommand::Usage));
    assert!(matches!(ManualCommand::read(""), ManualCommand::Usage));
    match ManualCommand::read("read {\"path\": \"a b\"}") {
        ManualCommand::Call { name, arguments } => {
            assert_eq!(name, "read");
            assert_eq!(arguments.unwrap().render(), "{\"path\":\"a b\"}");
        }
        other => panic!("{:?}", other),
    }
    match ManualCommand::read("read [1]") {
        ManualCommand::Call { arguments, .. } => assert!(arguments.is_none()),
        other => panic!("{:?}", other),
    }
    assert!(tool_arguments("{").is_none());
    assert_eq!(tool_arguments("{}").unwrap().render(), "{}");
}
