//! Symbols: how they are listed, shown and found.
use lsp_mcp::args::{default_hover_detail, default_one, default_true, FindSymbolArgs};
use lsp_mcp::errors::ToolError;
use lsp_mcp::find::{FindAnswer, FindStep, FindSymbol};
use lsp_mcp::handler::MyHandler;
use lsp_mcp::models::{Location, Position, Range, SymbolMember};
use lsp_mcp::protocol::LspRequest;
use lsp_mcp::symbols::{
    flatten, sub_symbols, DocumentSymbol, DocumentSymbolResponse, SourceLocation, SymbolInformation,
    SymbolPlace, WorkspaceSymbol, WorkspaceSymbolResponse,
};

fn range(line: u32, character: u32) -> Range {
    Range {
        start: Position { line, character },
        end: Position { line, character: character + 1 },
    }
}

fn symbol(name: &str, line: u32, children: Option<Vec<DocumentSymbol>>) -> DocumentSymbol {
    DocumentSymbol {
        name: name.to_string(),
        kind: 12,
        range: range(line, 0),
        selection_range: range(line, 3),
        children,
    }
}

fn tree() -> Vec<DocumentSymbol> {
    vec![
        symbol(
            "outer",
            0,
            Some(vec![symbol("inner", 1, Some(vec![symbol("innermost", 2, None)])), symbol("other", 3, None)]),
        ),
        symbol("last", 4, Some(vec![])),
    ]
}

fn information(name: &str, uri: &str, line: u32, character: u32) -> SymbolInformation {
    SymbolInformation {
        name: name.to_string(),
        kind: 12,
        location: SourceLocation { uri: uri.to_string(), range: range(line, character) },
        container_name: None,
    }
}

fn args(symbol_name: &str) -> FindSymbolArgs {
    FindSymbolArgs {
        symbol_name: symbol_name.to_string(),
        file: None,
        location_hint: None,
        context_hint: None,
        hover_detail: "none".to_string(),
        feeling_lucky: false,
    }
}

fn asked(step: FindStep) -> LspRequest {
    match step {
        FindStep::Ask(request) => request,
        other => panic!("{:?}", other),
    }
}

fn found(step: FindStep) -> Vec<Location> {
    match step {
        FindStep::Found(locations) => locations,
        other => panic!("{:?}", other),
    }
}

fn names_of(members: &[SymbolMember]) -> Vec<String> {
    members.iter().map(|member| member.name.clone()).collect()
}

#[test]
fn signatures_are_cleaned() {
    assert_eq!(MyHandler::clean_signature("    pub fn f() -> u8 {  "), "pub fn f() -> u8");
    assert_eq!(MyHandler::clean_signature("type A = B;"), "type A = B");
    assert_eq!(MyHandler::clean_signature("x ;{{"), "x");
    assert_eq!(MyHandler::clean_signature("x {;"), "x {");
}

#[test]
fn symbols_are_listed_before_those_inside_them() {
    let mut target = vec![("before".to_string(), range(9, 9))];
    flatten(&tree(), &mut target);
    let names: Vec<&str> = target.iter().map(|entry| entry.0.as_str()).collect();
    assert_eq!(names, vec!["before", "outer", "inner", "innermost", "other", "last"]);
    assert_eq!(target[3].1.start.line, 2);
}

#[test]
fn matching_symbols_are_collected_at_any_depth() {
    let mut results = vec![];
    assert!(MyHandler::collect_nested_matching_symbols(&tree(), "inner", "file:///tmp/a.rs", &mut results));
    let names: Vec<&str> = results.iter().map(|found| found.name.as_str()).collect();
    assert_eq!(names, vec!["inner", "innermost"]);
    match &results[1].place {
        SymbolPlace::Located(location) => {
            assert_eq!(location.uri, "file:///tmp/a.rs");
            assert_eq!(location.range.start.line, 2);
        }
        other => panic!("{:?}", other),
    }
}

#[test]
fn places_are_told_by_the_normal_form_of_a_uri() {
    let mut results = vec![];
    assert!(MyHandler::collect_nested_matching_symbols(&tree(), "last", "FILE:///tmp/./a.rs", &mut results));
    match &results[0].place {
        SymbolPlace::Located(location) => assert_eq!(location.uri, "file:///tmp/a.rs"),
        other => panic!("{:?}", other),
    }
    let mut none = vec![];
    assert!(!MyHandler::collect_nested_matching_symbols(&tree(), "last", "no url", &mut none));
    assert!(none.is_empty());
    assert!(MyHandler::collect_nested_matching_symbols(&tree(), "absent", "no url", &mut none));
}

#[test]
fn members_are_shown_down_to_a_level() {
    let content = "fn outer() {\n  fn inner() {\n    const INNERMOST: u8 = 0;\n";
    let response = DocumentSymbolResponse::Nested(tree());
    for (level, names) in [
        (0, vec!["a.rs::outer", "a.rs::last"]),
        (1, vec!["a.rs::outer", "a.rs::last"]),
        (2, vec!["a.rs::outer", "a.rs::inner", "a.rs::other", "a.rs::last"]),
        (3, vec!["a.rs::outer", "a.rs::inner", "a.rs::innermost", "a.rs::other", "a.rs::last"]),
        (9, vec!["a.rs::outer", "a.rs::inner", "a.rs::innermost", "a.rs::other", "a.rs::last"]),
    ] {
        assert_eq!(names_of(&sub_symbols("a.rs", "/tmp/a.rs", level, &response, content)), names);
    }
    let members = sub_symbols("a.rs", "/tmp/a.rs", 3, &response, content);
    assert_eq!(members[1].signature, "fn inner()");
    assert_eq!(members[2].signature, "const INNERMOST: u8 = 0");
    assert_eq!(members[3].signature, "");
    assert_eq!((members[1].line, members[1].character), (1, 3));
    assert_eq!(members[0].kind, "Function");
}

#[test]
fn what_lies_within_a_symbol_is_shown() {
    let response = DocumentSymbolResponse::Nested(vec![
        symbol("Foo", 0, Some(vec![symbol("m", 1, Some(vec![symbol("x", 2, None)]))])),
        symbol("bar", 3, Some(vec![symbol("y", 4, None)])),
    ]);
    let shown = |name: &str, level: u32| names_of(&sub_symbols(name, "/tmp/a.rs", level, &response, ""));
    assert_eq!(shown("Foo", 1), vec!["Foo::m"]);
    assert_eq!(shown("Foo", 2), vec!["Foo::m", "Foo::x"]);
    assert_eq!(shown("m", 1), vec!["m::x"]);
    assert!(shown("x", 2).is_empty());
    assert!(shown("Fo", 2).is_empty());
    assert_eq!(shown("a.rs", 1), vec!["a.rs::Foo", "a.rs::bar"]);
    assert_eq!(shown("tmp/a.rs", 1), vec!["tmp/a.rs::Foo", "tmp/a.rs::bar"]);
    assert!(shown(".rs", 1).is_empty());
    let childless = DocumentSymbolResponse::Nested(vec![
        symbol("Foo", 0, Some(vec![symbol("m", 1, None)])),
        symbol("bar", 3, None),
    ]);
    assert_eq!(names_of(&sub_symbols("Foo", "/tmp/a.rs", 2, &childless, "")), vec!["Foo::m"]);
}

#[test]
fn symbols_of_one_name_are_shown_together() {
    let response = DocumentSymbolResponse::Nested(vec![
        symbol("S", 0, Some(vec![symbol("field", 1, None)])),
        symbol("module", 2, Some(vec![symbol("S", 3, Some(vec![symbol("method", 4, None)]))])),
    ]);
    let shown = names_of(&sub_symbols("S", "/tmp/a.rs", 1, &response, ""));
    assert_eq!(shown, vec!["S::field", "S::method"]);
}

#[test]
fn listed_symbols_lie_within_their_containers() {
    let mut within = information("m", "file:///tmp/a.rs", 1, 0);
    within.container_name = Some("Foo".to_string());
    let response = DocumentSymbolResponse::Flat(vec![
        information("Foo", "file:///tmp/a.rs", 0, 0),
        within,
        information("bar", "file:///tmp/a.rs", 2, 0),
    ]);
    let shown = |name: &str| names_of(&sub_symbols(name, "/tmp/a.rs", 1, &response, ""));
    assert_eq!(shown("Foo"), vec!["Foo::m"]);
    assert!(shown("bar").is_empty());
    assert!(shown("absent").is_empty());
    assert_eq!(shown("a.rs"), vec!["a.rs::Foo", "a.rs::m", "a.rs::bar"]);
}

#[test]
fn kinds_have_the_names_of_the_protocol() {
    for (kind, name) in [
        (5, format!("{:?}", lsp_types::SymbolKind::CLASS)),
        (22, format!("{:?}", lsp_types::SymbolKind::ENUM_MEMBER)),
        (99, "SymbolKind(99)".to_string()),
    ] {
        let mut one = information("x", "file:///a.rs", 0, 0);
        one.kind = kind;
        let response = DocumentSymbolResponse::Flat(vec![one]);
        let members = sub_symbols("m.rs", "m.rs", 1, &response, "fn x();");
        assert_eq!(members[0].kind, name);
        assert_eq!(members[0].name, "m.rs::x");
        assert_eq!(members[0].signature, "fn x()");
    }
}

#[test]
fn defaults() {
    assert_eq!(default_hover_detail(), "signature");
    assert!(default_true());
    assert_eq!(default_one(), 1);
}

#[test]
fn the_workspace_is_searched_without_a_file() {
    let mut wanted = args("hello");
    wanted.context_hint = Some("main".to_string());
    let (mut search, step) = MyHandler::new(true).code_find_symbol(wanted).unwrap();
    let request = asked(step);
    assert_eq!(request.method, "workspace/symbol");
    assert_eq!(request.params.render(), "{\"query\":\"hello main\"}");
    let answer = WorkspaceSymbolResponse::Nested(vec![
        WorkspaceSymbol {
            name: "hello".to_string(),
            kind: 12,
            place: SymbolPlace::Document("file:///tmp/skipped.rs".to_string()),
        },
        WorkspaceSymbol {
            name: "hello".to_string(),
            kind: 12,
            place: SymbolPlace::Located(SourceLocation {
                uri: "file:///tmp/main.rs".to_string(),
                range: range(1, 3),
            }),
        },
    ]);
    let locations = found(search.answer(FindAnswer::Workspace(Some(answer))));
    assert_eq!(locations.len(), 1);
    assert_eq!(locations[0].path, "/tmp/main.rs");
    assert_eq!((locations[0].line, locations[0].character), (1, 3));
    assert!(locations[0].hover_info.is_none());
}

#[test]
fn nothing_is_found_where_nothing_is_answered() {
    let (mut search, step) = FindSymbol::begin(args("non_existent_symbol_12345"));
    assert_eq!(asked(step).params.render(), "{\"query\":\"non_existent_symbol_12345\"}");
    assert!(found(search.answer(FindAnswer::Workspace(None))).is_empty());
}

#[test]
fn the_lucky_are_told_of_one_symbol() {
    for (lucky, count) in [(true, 1), (false, 2)] {
        let mut wanted = args("hello");
        wanted.feeling_lucky = lucky;
        let (mut search, _) = FindSymbol::begin(wanted);
        let answer = WorkspaceSymbolResponse::Flat(vec![
            information("hello", "file:///tmp/main.rs", 1, 0),
            information("hello", "file:///tmp/utils.rs", 0, 0),
        ]);
        let locations = found(search.answer(FindAnswer::Workspace(Some(answer))));
        assert_eq!(locations.len(), count);
        assert!(locations[0].path.contains("main.rs"));
    }
}

#[test]
fn a_file_hint_leads_to_the_document() {
    let mut wanted = args("inner");
    wanted.file = Some("main".to_string());
    wanted.hover_detail = "signature".to_string();
    let (mut search, step) = FindSymbol::begin(wanted);
    assert_eq!(asked(step).params.render(), "{\"query\":\"main\"}");
    let files = WorkspaceSymbolResponse::Flat(vec![
        information("main", "file:///tmp/main.rs", 0, 0),
        information("main2", "file:///tmp/main.rs", 5, 0),
        information("maintain", "file:///tmp/other.rs", 0, 0),
    ]);
    let request = asked(search.answer(FindAnswer::Workspace(Some(files))));
    assert_eq!(request.method, "textDocument/documentSymbol");
    assert_eq!(request.params.render(), "{\"textDocument\":{\"uri\":\"file:///tmp/main.rs\"}}");
    let request = asked(search.answer(FindAnswer::Document(Some(DocumentSymbolResponse::Nested(tree())))));
    assert_eq!(request.method, "textDocument/hover");
    assert_eq!(
        request.params.render(),
        "{\"position\":{\"character\":0,\"line\":1},\"textDocument\":{\"uri\":\"file:///tmp/main.rs\"}}"
    );
    let request = asked(search.answer(FindAnswer::Hover(Some("info".to_string()))));
    assert_eq!(request.method, "textDocument/hover");
    let locations = found(search.answer(FindAnswer::Hover(None)));
    assert_eq!(locations.len(), 2);
    assert_eq!(locations[0].hover_info, Some("info".to_string()));
    assert_eq!(locations[1].hover_info, None);
}

#[test]
fn a_file_hint_may_be_ambiguous() {
    let mut wanted = args("x");
    wanted.file = Some("main".to_string());
    let (mut search, _) = FindSymbol::begin(wanted);
    let files = WorkspaceSymbolResponse::Flat(vec![
        information("a", "file:///tmp/main.rs", 0, 0),
        information("b", "file:///tmp/src/main.rs", 0, 0),
    ]);
    let uris: Vec<lsp_types::Uri> =
        vec!["file:///tmp/main.rs".parse().unwrap(), "file:///tmp/src/main.rs".parse().unwrap()];
    match search.answer(FindAnswer::Workspace(Some(files))) {
        FindStep::Failed(ToolError::Internal(message)) => {
            assert_eq!(message, format!("Ambiguous file name 'main'. Matches: {:?}", uris));
        }
        other => panic!("{:?}", other),
    }
}

#[test]
fn a_file_hint_that_leads_nowhere_is_forgotten() {
    let mut wanted = args("x");
    wanted.file = Some("main".to_string());
    let (mut search, _) = FindSymbol::begin(wanted);
    let answer = WorkspaceSymbolResponse::Nested(vec![]);
    let request = asked(search.answer(FindAnswer::Workspace(Some(answer))));
    assert_eq!(request.params.render(), "{\"query\":\"x\"}");
}

#[test]
fn the_nearest_symbols_come_first() {
    let mut wanted = args("f");
    wanted.file = Some("a.rs".to_string());
    wanted.location_hint = Some(Position { line: 10, character: 500 });
    let (mut search, _) = FindSymbol::begin(wanted);
    let files = WorkspaceSymbolResponse::Flat(vec![information("f", "file:///a.rs", 0, 0)]);
    search.answer(FindAnswer::Workspace(Some(files)));
    let symbols = DocumentSymbolResponse::Flat(vec![
        information("f_far", "file:///a.rs", 0, 0),
        information("f_same_a", "file:///a.rs", 9, 500),
        information("f_same_b", "file:///a.rs", 11, 500),
        information("other", "file:///a.rs", 10, 500),
        information("f_near", "file:///a.rs", 10, 0),
    ]);
    let locations = found(search.answer(FindAnswer::Document(Some(symbols))));
    let lines: Vec<u32> = locations.iter().map(|location| location.line).collect();
    assert_eq!(lines, vec![10, 9, 11, 0]);
}

#[test]
fn the_lucky_are_told_of_the_nearest_symbol() {
    let mut wanted = args("f");
    wanted.file = Some("a.rs".to_string());
    wanted.location_hint = Some(Position { line: 10, character: 0 });
    wanted.feeling_lucky = true;
    let (mut search, _) = FindSymbol::begin(wanted);
    let files = WorkspaceSymbolResponse::Flat(vec![information("f", "file:///a.rs", 0, 0)]);
    search.answer(FindAnswer::Workspace(Some(files)));
    let symbols = DocumentSymbolResponse::Flat(vec![
        information("f_far", "file:///a.rs", 0, 0),
        information("f_near", "file:///a.rs", 11, 0),
    ]);
    let locations = found(search.answer(FindAnswer::Document(Some(symbols))));
    assert_eq!(locations.len(), 1);
    assert_eq!(locations[0].line, 11);
}

#[test]
fn some_distances_are_too_far() {
    for (count, too_far) in [(1, false), (2, true)] {
        let mut wanted = args("f");
        wanted.file = Some("a.rs".to_string());
        wanted.location_hint = Some(Position { line: 0, character: 0 });
        let (mut search, _) = FindSymbol::begin(wanted);
        let files = WorkspaceSymbolResponse::Flat(vec![information("f", "file:///a.rs", 0, 0)]);
        search.answer(FindAnswer::Workspace(Some(files)));
        let far = (0..count).map(|_| information("f", "file:///a.rs", 2_147_484, 0)).collect();
        let step = search.answer(FindAnswer::Document(Some(DocumentSymbolResponse::Flat(far))));
        assert_eq!(matches!(step, FindStep::Failed(ToolError::TooFar)), too_far);
    }
}

#[test]
fn places_outside_files_cannot_be_told() {
    for (uri, detail) in [("https://example.org/", "none"), ("no url", "signature")] {
        let mut wanted = args("f");
        wanted.hover_detail = detail.to_string();
        let (mut search, _) = FindSymbol::begin(wanted);
        let answer = WorkspaceSymbolResponse::Flat(vec![information("f", uri, 0, 0)]);
        match search.answer(FindAnswer::Workspace(Some(answer))) {
            FindStep::Failed(ToolError::NotAFile(text)) => assert_eq!(text, uri),
            other => panic!("{:?}", other),
        }
    }
}

#[test]
fn without_a_server_nothing_is_found() {
    match MyHandler::new(false).code_find_symbol(args("x")) {
        Err(ToolError::Internal(message)) => assert_eq!(message, "LSP not available"),
        other => panic!("{:?}", other),
    }
}

fn search(feeling_lucky: bool, hover_detail: &str) -> Vec<Location> {
    let mut given = args("x");
    given.feeling_lucky = feeling_lucky;
    given.hover_detail = hover_detail.to_string();
    let (mut search, mut step) = FindSymbol::begin(given);
    let mut hovers = vec!["first", "second"].into_iter();
    loop {
        match step {
            FindStep::Ask(request) => {
                let answer = match request.method.as_str() {
                    "textDocument/hover" => FindAnswer::Hover(hovers.next().map(|text| text.to_string())),
                    _ => FindAnswer::Workspace(Some(WorkspaceSymbolResponse::Flat(vec![
                        information("x1", "file:///tmp/a.rs", 1, 2),
                        information("x2", "file:///tmp/b.rs", 3, 4),
                    ]))),
                };
                step = search.answer(answer);
            }
            other => return found(other),
        }
    }
}

#[test]
fn the_lucky_list_is_the_head_of_the_whole() {
    for detail in ["none", "signature"] {
        let whole = search(false, detail);
        let lucky = search(true, detail);
        assert_eq!((whole.len(), lucky.len()), (2, 1));
        assert_eq!(lucky[0].path, whole[0].path);
        assert_eq!(lucky[0].line, whole[0].line);
        assert_eq!(lucky[0].hover_info, whole[0].hover_info);
        assert_eq!((whole[0].line, whole[0].character), (1, 2));
        assert_eq!((whole[1].path.as_str(), whole[1].line), ("/tmp/b.rs", 3));
    }
    assert_eq!(search(false, "signature")[1].hover_info, Some("second".to_string()));
}
