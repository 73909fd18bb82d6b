//! Text edits and changes to the workspace.
use lsp_mcp::changes::{edit_to_make, read_edit, EditError};
use lsp_mcp::edits::{apply_text_edit, edit_text, edit_text_within, fits, order_edits, TextEdit};
use lsp_mcp::handler::MyHandler;
use lsp_mcp::json::Json;
use lsp_mcp::models::{Position, Range};
use lsp_mcp::sessions::SessionManager;
use lsp_mcp::workspace::{
    deletion, Deletion, DocumentChangeOperation, DocumentChanges, DocumentEdit, EditPlan, FileAction,
    PlanRun, PlanStep, ResourceOp, TextDocumentEdit, WorkspaceEdit,
};

fn edit(start: (u32, u32), end: (u32, u32), new_text: &str) -> TextEdit {
    TextEdit {
        range: Range {
            start: Position { line: start.0, character: start.1 },
            end: Position { line: end.0, character: end.1 },
        },
        new_text: new_text.to_string(),
    }
}

fn edited(content: &str, edits: Vec<TextEdit>) -> Option<String> {
    edit_text(content, &edits)
}

fn shown(plan: &EditPlan) -> Vec<String> {
    plan.actions
        .iter()
        .map(|action| match action {
            FileAction::Edit { path, edits, .. } => format!("edit {} {}", path, edits.len()),
            FileAction::Create { path, .. } => format!("create {}", path),
            FileAction::Rename { from, to, .. } => format!("rename {} {}", from, to),
            FileAction::Delete { path, .. } => format!("delete {}", path),
        })
        .collect()
}

#[test]
fn a_comment_is_put_at_the_start() {
    let content = "mod utils;\nfn hello() {\n}\n";
    let text = edited(content, vec![edit((0, 0), (0, 0), "// Leading comment\n")]).unwrap();
    assert_eq!(text, "// Leading comment\nmod utils;\nfn hello() {\n}");
    assert!(text.starts_with("// Leading comment"));
}

#[test]
fn an_edit_in_one_line() {
    assert_eq!(edited("fn hello() {}", vec![edit((0, 3), (0, 8), "greet")]).unwrap(), "fn greet() {}");
    assert_eq!(edited("añb", vec![edit((0, 1), (0, 3), "n")]).unwrap(), "anb");
}

#[test]
fn an_edit_across_lines() {
    let content = "one\ntwo\nthree\nfour";
    assert_eq!(edited(content, vec![edit((0, 1), (2, 2), "X")]).unwrap(), "oXree\nfour");
    assert_eq!(edited(content, vec![edit((0, 1), (2, 2), "X\nY")]).unwrap(), "oX\nYree\nfour");
    assert_eq!(edited(content, vec![edit((0, 1), (2, 2), "X\n")]).unwrap(), "oX\nree\nfour");
    assert_eq!(edited(content, vec![edit((0, 1), (2, 2), "")]).unwrap(), "oree\nfour");
    assert_eq!(edited(content, vec![edit((1, 0), (2, 0), "")]).unwrap(), "one\nthree\nfour");
}

#[test]
fn an_edit_that_ends_on_the_line_before() {
    assert_eq!(edited("a\nb", vec![edit((1, 1), (0, 0), "")]).unwrap(), "a\nba\nb");
    assert!(edited("a\nb\nc", vec![edit((2, 0), (0, 0), "")]).is_none());
}

#[test]
fn edits_are_made_from_the_last() {
    let content = "hello();\nhello();";
    let edits = vec![edit((0, 0), (0, 5), "greet"), edit((1, 0), (1, 5), "greet")];
    assert_eq!(edited(content, edits).unwrap(), "greet();\ngreet();");
    let one_line = vec![edit((0, 0), (0, 1), "xx"), edit((0, 2), (0, 3), "yy")];
    assert_eq!(edited("abc", one_line).unwrap(), "xxbyy");
    let same_start = order_edits(&vec![
        edit((0, 0), (0, 0), "first"),
        edit((3, 1), (3, 1), "far"),
        edit((0, 0), (0, 0), "second"),
    ]);
    let texts: Vec<&str> = same_start.iter().map(|edit| edit.new_text.as_str()).collect();
    assert_eq!(texts, vec!["far", "first", "second"]);
}

#[test]
fn the_order_of_edits_with_different_starts_does_not_matter() {
    let there = vec![edit((0, 0), (0, 1), "x"), edit((1, 0), (1, 1), "y")];
    let back = vec![edit((1, 0), (1, 1), "y"), edit((0, 0), (0, 1), "x")];
    assert_eq!(edited("ab\ncd", there), edited("ab\ncd", back));
}

#[test]
fn an_edit_beyond_the_text_changes_nothing() {
    assert_eq!(edited("a\nb", vec![edit((7, 0), (7, 3), "x")]).unwrap(), "a\nb");
    assert_eq!(edited("a\nb", vec![edit((0, 0), (9, 0), "x")]).unwrap(), "a\nb");
    assert_eq!(edit_text_within("a\nb", &vec![edit((7, 0), (7, 3), "x")]).unwrap(), "a\nb");
    assert!(edit_text_within("a\nb", &vec![edit((0, 0), (9, 0), "x")]).is_none());
    let manager = SessionManager::new();
    assert!(manager.apply_text_edits("a\nb", &vec![edit((0, 0), (9, 0), "x")]).is_none());
    let handler = MyHandler::new(true);
    assert_eq!(handler.apply_text_edits("a\nb", &vec![edit((0, 0), (9, 0), "x")]).unwrap(), "a\nb");
}

#[test]
fn an_edit_inside_a_character_cannot_be_made() {
    let lines = vec!["añb".to_string()];
    assert!(!fits(&lines, &edit((0, 2), (0, 3), "")));
    assert!(!fits(&lines, &edit((0, 0), (0, 9), "")));
    assert!(fits(&lines, &edit((0, 1), (0, 3), "")));
    assert!(edited("añb", vec![edit((0, 2), (0, 3), "")]).is_none());
}

#[test]
fn one_edit_in_lines() {
    let mut lines = vec!["ab".to_string(), "cd".to_string()];
    apply_text_edit(&mut lines, &edit((0, 1), (1, 1), "-"));
    assert_eq!(lines, vec!["a-d".to_string()]);
    SessionManager::new().apply_text_edit(&mut lines, &edit((0, 0), (0, 1), "b"));
    assert_eq!(lines, vec!["b-d".to_string()]);
    MyHandler::new(false).apply_text_edit(&mut lines, &edit((5, 0), (6, 0), "b"));
    assert_eq!(lines, vec!["b-d".to_string()]);
}

#[test]
fn no_edits_drop_the_last_line_feed() {
    assert_eq!(edited("a\nb\n", vec![]).unwrap(), "a\nb");
    assert_eq!(edited("a\nb", vec![]).unwrap(), "a\nb");
    assert_eq!(edited("a\r\nb\r\n", vec![]).unwrap(), "a\nb");
}

#[test]
fn edits_apart_replace_their_ranges() {
    let content = "one two\nthree four\nfive six\n";
    let edits = vec![
        edit((0, 4), (0, 7), "2"),
        edit((1, 6), (2, 4), "4\n5"),
        edit((0, 0), (0, 0), "<"),
        edit((2, 8), (2, 8), ">\n"),
    ];
    assert_eq!(edited(content, edits).unwrap(), "<one 2\nthree 4\n5 six>\n");
}

#[test]
fn an_empty_edit_changes_nothing() {
    assert_eq!(edited("abc\nd", vec![edit((0, 2), (0, 2), "")]).unwrap(), "abc\nd");
}

#[test]
fn changes_by_file_come_before_changes_to_documents() {
    let change = WorkspaceEdit {
        changes: Some(vec![
            ("file:///tmp/b.rs".to_string(), vec![edit((0, 0), (0, 0), "x")]),
            ("file:///tmp/a%20b.rs".to_string(), vec![]),
        ]),
        document_changes: Some(DocumentChanges::Edits(vec![TextDocumentEdit {
            uri: "file:///tmp/c.rs".to_string(),
            edits: vec![
                DocumentEdit::Plain(edit((0, 0), (0, 0), "x")),
                DocumentEdit::Annotated {
                    text_edit: edit((1, 0), (1, 0), "y"),
                    annotation_id: "note".to_string(),
                },
            ],
        }])),
    };
    let plan = MyHandler::new(true).apply_workspace_edit(&change);
    assert_eq!(shown(&plan), vec!["edit /tmp/b.rs 1", "edit /tmp/a b.rs 0", "edit /tmp/c.rs 2"]);
    assert!(plan.error.is_none());
    match &plan.actions[2] {
        FileAction::Edit { edits, .. } => {
            assert_eq!(edits[0].new_text, "x");
            assert_eq!(edits[1].new_text, "y");
            assert_eq!(edits[1].range.start.line, 1);
        }
        _ => panic!("no edit"),
    }
}

#[test]
fn files_are_created_renamed_and_deleted() {
    let change = WorkspaceEdit {
        changes: None,
        document_changes: Some(DocumentChanges::Operations(vec![
            DocumentChangeOperation::Op(ResourceOp::Create { uri: "file:///tmp/new.rs".to_string() }),
            DocumentChangeOperation::Op(ResourceOp::Rename {
                old_uri: "file:///tmp/new.rs".to_string(),
                new_uri: "file:///tmp/newer.rs".to_string(),
            }),
            DocumentChangeOperation::Op(ResourceOp::Rename {
                old_uri: "file:///tmp/newer.rs".to_string(),
                new_uri: "https://example.org/".to_string(),
            }),
            DocumentChangeOperation::Edit(TextDocumentEdit {
                uri: "file:///tmp/newer.rs".to_string(),
                edits: vec![],
            }),
            DocumentChangeOperation::Op(ResourceOp::Delete { uri: "untitled:x".to_string() }),
            DocumentChangeOperation::Op(ResourceOp::Delete { uri: "file:///tmp/old".to_string() }),
        ])),
    };
    let plan = SessionManager::new().apply_workspace_edit(&change);
    assert_eq!(
        shown(&plan),
        vec![
            "create /tmp/new.rs",
            "rename /tmp/new.rs /tmp/newer.rs",
            "edit /tmp/newer.rs 0",
            "delete /tmp/old",
        ]
    );
    assert!(plan.error.is_none());
}

#[test]
fn a_uri_that_is_no_url_ends_the_plan() {
    let change = WorkspaceEdit {
        changes: Some(vec![
            ("file:///tmp/a.rs".to_string(), vec![]),
            ("relative/path".to_string(), vec![]),
            ("file:///tmp/b.rs".to_string(), vec![]),
        ]),
        document_changes: Some(DocumentChanges::Edits(vec![])),
    };
    let plan = EditPlan::of(&change);
    assert_eq!(shown(&plan), vec!["edit /tmp/a.rs 0"]);
    assert_eq!(plan.error.unwrap(), "relative URL without a base");
    let renaming = WorkspaceEdit {
        changes: None,
        document_changes: Some(DocumentChanges::Operations(vec![DocumentChangeOperation::Op(
            ResourceOp::Rename {
                old_uri: "file:///tmp/a.rs".to_string(),
                new_uri: "http://".to_string(),
            },
        )])),
    };
    assert_eq!(EditPlan::of(&renaming).error.unwrap(), "empty host");
}

#[test]
fn a_path_is_deleted_as_what_it_is() {
    assert_eq!(deletion(true, false), Deletion::File);
    assert_eq!(deletion(false, true), Deletion::Directory);
    assert_eq!(deletion(false, false), Deletion::Nothing);
}

fn json(text: &str) -> Json {
    Json::parse(text.as_bytes()).unwrap()
}

fn three_files() -> EditPlan {
    EditPlan::of(&WorkspaceEdit {
        changes: Some(vec![
            ("file:///tmp/a.rs".to_string(), vec![]),
            ("file:///tmp/b.rs".to_string(), vec![]),
            ("file:///tmp/c.rs".to_string(), vec![]),
        ]),
        document_changes: None,
    })
}

fn carried_out(plan: EditPlan, failing: &str) -> (Vec<String>, Result<(), String>) {
    let mut tried = vec![];
    let (mut run, mut step) = PlanRun::begin(plan);
    loop {
        match step {
            PlanStep::Do(FileAction::Edit { path, .. }) => {
                let outcome = if path == failing { Err("disk full".to_string()) } else { Ok(()) };
                tried.push(path);
                step = run.next(outcome);
            }
            PlanStep::Do(other) => panic!("{:?}", other),
            PlanStep::Done(result) => return (tried, result),
        }
    }
}

#[test]
fn a_failure_ends_the_plan() {
    let (tried, result) = carried_out(three_files(), "/tmp/b.rs");
    assert_eq!(tried, vec!["/tmp/a.rs", "/tmp/b.rs"]);
    assert_eq!(result, Err("disk full".to_string()));
}

#[test]
fn a_plan_is_carried_out_in_order() {
    let (tried, result) = carried_out(three_files(), "");
    assert_eq!(tried, vec!["/tmp/a.rs", "/tmp/b.rs", "/tmp/c.rs"]);
    assert_eq!(result, Ok(()));
    let mut plan = three_files();
    plan.error = Some("no URL".to_string());
    let (tried, result) = carried_out(plan, "");
    assert_eq!(tried.len(), 3);
    assert_eq!(result, Err("no URL".to_string()));
}

#[test]
fn an_action_says_which_file_it_is() {
    let plan = EditPlan::of(&WorkspaceEdit {
        changes: Some(vec![("file:///tmp/%FF".to_string(), vec![])]),
        document_changes: None,
    });
    match &plan.actions[0] {
        FileAction::Edit { uri, path, .. } => {
            assert_eq!(uri, "file:///tmp/%FF");
            assert_eq!(path, "/tmp/\u{fffd}");
        }
        other => panic!("{:?}", other),
    }
}

#[test]
fn a_change_is_read_from_its_text() {
    let text = "{\"changes\":{\"file:///tmp/b.rs\":[{\"range\":{\"start\":{\"line\":1,\"character\":2},
        \"end\":{\"line\":3,\"character\":4}},\"newText\":\"new\"}]},\"documentChanges\":[
        {\"kind\":\"create\",\"uri\":\"file:///tmp/new.rs\"},
        {\"kind\":\"rename\",\"oldUri\":\"file:///tmp/a.rs\",\"newUri\":\"file:///tmp/c.rs\"},
        {\"kind\":\"delete\",\"uri\":\"file:///tmp/old.rs\"},
        {\"textDocument\":{\"uri\":\"file:///tmp/d.rs\",\"version\":null},\"edits\":[
          {\"range\":{\"start\":{\"line\":0,\"character\":0},\"end\":{\"line\":0,\"character\":0}},
           \"newText\":\"x\",\"annotationId\":\"a\"}]}]}";
    let plan = edit_to_make(&json(text)).unwrap();
    assert_eq!(
        shown(&plan),
        vec![
            "edit /tmp/b.rs 1",
            "create /tmp/new.rs",
            "rename /tmp/a.rs /tmp/c.rs",
            "delete /tmp/old.rs",
            "edit /tmp/d.rs 1",
        ]
    );
    match &plan.actions[0] {
        FileAction::Edit { edits, .. } => {
            assert_eq!(edits[0].new_text, "new");
            assert_eq!((edits[0].range.start.line, edits[0].range.start.character), (1, 2));
            assert_eq!((edits[0].range.end.line, edits[0].range.end.character), (3, 4));
        }
        other => panic!("{:?}", other),
    }
    let read = read_edit(&json(text)).unwrap();
    assert_eq!(shown(&EditPlan::of(&read)), shown(&plan));
}

#[test]
fn files_of_a_change_come_once_each() {
    let text = "{\"changes\":{\"file:///tmp/a.rs\":[],\"file:///tmp/b.rs\":[],\"file:///tmp/a.rs\":[]}}";
    let mut files = shown(&edit_to_make(&json(text)).unwrap());
    files.sort();
    assert_eq!(files, vec!["edit /tmp/a.rs 0", "edit /tmp/b.rs 0"]);
    assert!(edit_to_make(&json("{}")).unwrap().actions.is_empty());
    assert!(edit_to_make(&json("{\"changes\":null,\"unknown\":1}")).unwrap().actions.is_empty());
}

#[test]
fn a_change_can_be_none() {
    match edit_to_make(&json("5")) {
        Err(EditError::NotAnEdit(message)) => assert!(message.contains("invalid type")),
        other => panic!("{:?}", other),
    }
    assert!(edit_to_make(&json("{\"changes\":{\"file:///a\":[1]}}")).is_err());
    assert!(edit_to_make(&json("{\"changes\":{\"not a uri\":[]}}")).is_err());
    assert!(read_edit(&json("{\"changes\":5}")).is_none());
    assert!(read_edit(&json("{\"documentChanges\":[{\"kind\":\"create\"}]}")).is_none());
    assert!(read_edit(&json("{\"documentChanges\":{}}")).is_none());
    let far = "{\"changes\":{\"file:///a\":[{\"range\":{\"start\":{\"line\":4294967296,\"character\":0},
        \"end\":{\"line\":0,\"character\":0}},\"newText\":\"\"}]}}";
    assert!(read_edit(&json(far)).is_none());
    assert!(edit_to_make(&json(far)).is_err());
}
