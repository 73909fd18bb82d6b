//! The requests that the language server is sent.
use crate::changes;
use crate::diagnostics;
use crate::json;
use crate::json::{Json, JsonView, NumberView};
use crate::models::{Position, Range};
use vstd::prelude::*;

verus! {

/// A request, or a notification, to the language server.
#[derive(Debug)]
pub struct LspRequest {
    pub method: String,
    pub params: Json,
}

#[verifier::ext_equal]
pub struct LspRequestView {
    pub method: Seq<char>,
    pub params: JsonView,
}

impl View for LspRequest {
    type V = LspRequestView;

    open spec fn view(&self) -> LspRequestView {
        LspRequestView { method: self.method@, params: self.params@ }
    }
}

impl DeepView for LspRequest {
    type V = LspRequestView;

    open spec fn deep_view(&self) -> LspRequestView {
        self@
    }
}

/// An integer in JSON.
pub open spec fn integer_value(n: int) -> JsonView {
    JsonView::Number(NumberView::Integer(n))
}

/// A position in JSON.
pub open spec fn position_value(position: Position) -> JsonView {
    JsonView::Object(
        map![
            "line"@ => integer_value(position.line as int),
            "character"@ => integer_value(position.character as int),
        ],
    )
}

/// A range in JSON.
pub open spec fn range_value(range: Range) -> JsonView {
    JsonView::Object(
        map![
            "start"@ => position_value(range.start),
            "end"@ => position_value(range.end),
        ],
    )
}

/// A range in JSON has the names of the protocol alone, and lies two levels deep.
pub(crate) proof fn lemma_range_is_plain(range: Range)
    ensures
        json::plain_names(range_value(range)),
        json::nested_within(range_value(range), 2),
{
    reveal_with_fuel(json::nested_within, 3);
    reveal_with_fuel(json::plain_names, 3);
    reveal_strlit("line");
    reveal_strlit("character");
    reveal_strlit("start");
    reveal_strlit("end");
    json::lemma_plain_name("line"@);
    json::lemma_plain_name("character"@);
    json::lemma_plain_name("start"@);
    json::lemma_plain_name("end"@);
    assert(json::plain_names(position_value(range.start)));
    assert(json::plain_names(position_value(range.end)));
}

/// The parameters that name a document.
pub open spec fn document_value(uri: Seq<char>) -> JsonView {
    JsonView::Object(
        map!["textDocument"@ => JsonView::Object(map!["uri"@ => JsonView::Text(uri)])],
    )
}

/// The parameters that name a place in a document.
pub open spec fn place_value(uri: Seq<char>, position: Position) -> JsonView {
    JsonView::Object(document_value(uri)->Object_0.insert("position"@, position_value(position)))
}

/// The request for the definition of what stands at a place.
pub open spec fn definition_request(uri: Seq<char>, position: Position) -> LspRequestView {
    LspRequestView { method: "textDocument/definition"@, params: place_value(uri, position) }
}

/// The request for the references to what stands at a place, its declaration among them.
pub open spec fn references_request(uri: Seq<char>, position: Position) -> LspRequestView {
    LspRequestView {
        method: "textDocument/references"@,
        params: JsonView::Object(
            place_value(uri, position)->Object_0.insert(
                "context"@,
                JsonView::Object(map!["includeDeclaration"@ => JsonView::Bool(true)]),
            ),
        ),
    }
}

/// The request for what is known of what stands at a place.
pub open spec fn hover_request(uri: Seq<char>, position: Position) -> LspRequestView {
    LspRequestView { method: "textDocument/hover"@, params: place_value(uri, position) }
}

/// The request for what could be written at a place.
pub open spec fn completion_request(uri: Seq<char>, position: Position) -> LspRequestView {
    LspRequestView { method: "textDocument/completion"@, params: place_value(uri, position) }
}

/// The request to give what stands at a place another name.
pub open spec fn rename_request(
    uri: Seq<char>,
    position: Position,
    new_name: Seq<char>,
) -> LspRequestView {
    LspRequestView {
        method: "textDocument/rename"@,
        params: JsonView::Object(
            place_value(uri, position)->Object_0.insert("newName"@, JsonView::Text(new_name)),
        ),
    }
}

/// The request for the symbols of a document.
pub open spec fn document_symbol_request(uri: Seq<char>) -> LspRequestView {
    LspRequestView { method: "textDocument/documentSymbol"@, params: document_value(uri) }
}

/// The request for the symbols of the workspace.
pub open spec fn workspace_symbol_request(query: Seq<char>) -> LspRequestView {
    LspRequestView {
        method: "workspace/symbol"@,
        params: JsonView::Object(map!["query"@ => JsonView::Text(query)]),
    }
}

/// The request for the actions that a diagnostic suggests.
pub open spec fn code_action_request(
    uri: Seq<char>,
    range: Range,
    diagnostic: JsonView,
) -> LspRequestView {
    LspRequestView {
        method: "textDocument/codeAction"@,
        params: JsonView::Object(
            document_value(uri)->Object_0.insert("range"@, range_value(range)).insert(
                "context"@,
                JsonView::Object(map!["diagnostics"@ => JsonView::Array(seq![diagnostic])]),
            ),
        ),
    }
}

/// The request to carry out a command.
pub open spec fn execute_command_request(
    command: Seq<char>,
    arguments: Seq<JsonView>,
) -> LspRequestView {
    LspRequestView {
        method: "workspace/executeCommand"@,
        params: JsonView::Object(
            map![
                "command"@ => JsonView::Text(command),
                "arguments"@ => JsonView::Array(arguments),
            ],
        ),
    }
}

/// The first request: who asks, and which folder it is about.
pub open spec fn initialize_request(
    process_id: u32,
    root_uri: Option<Seq<char>>,
) -> LspRequestView {
    let params = map![
        "processId"@ => integer_value(process_id as int),
        "rootUri"@ => JsonView::Null,
        "capabilities"@ => JsonView::Object(Map::empty()),
    ];
    LspRequestView {
        method: "initialize"@,
        params: JsonView::Object(
            match root_uri {
                Some(uri) => params.insert(
                    "workspaceFolders"@,
                    JsonView::Array(
                        seq![
                            JsonView::Object(
                                map![
                                    "uri"@ => JsonView::Text(uri),
                                    "name"@ => JsonView::Text("workspace"@),
                                ],
                            ),
                        ],
                    ),
                ),
                None => params,
            },
        ),
    }
}

/// The notification that the client is ready.
pub open spec fn initialized_notification() -> LspRequestView {
    LspRequestView { method: "initialized"@, params: JsonView::Object(Map::empty()) }
}

/// The notification that a document is open, and what is in it.
pub open spec fn did_open_notification(uri: Seq<char>, content: Seq<char>) -> LspRequestView {
    LspRequestView {
        method: "textDocument/didOpen"@,
        params: JsonView::Object(
            map![
                "textDocument"@ => JsonView::Object(
                    map![
                        "uri"@ => JsonView::Text(uri),
                        "languageId"@ => JsonView::Text("rust"@),
                        "version"@ => integer_value(0),
                        "text"@ => JsonView::Text(content),
                    ],
                ),
            ],
        ),
    }
}

/// The last request: the server is to stop its work.
pub open spec fn shutdown_request() -> LspRequestView {
    LspRequestView { method: "shutdown"@, params: JsonView::Null }
}

/// The last notification: the server is to leave.
pub open spec fn exit_notification() -> LspRequestView {
    LspRequestView { method: "exit"@, params: JsonView::Null }
}

fn position_json(position: Position) -> (json: Json)
    ensures
        json@ == position_value(position),
{
    let mut json = Json::object();
    json.set("line", Json::integer(position.line as u64));
    json.set("character", Json::integer(position.character as u64));
    json
}

pub(crate) fn range_json(range: Range) -> (json: Json)
    ensures
        json@ == range_value(range),
{
    let mut json = Json::object();
    json.set("start", position_json(range.start));
    json.set("end", position_json(range.end));
    json
}

fn document_json(uri: &str) -> (json: Json)
    ensures
        json@ == document_value(uri@),
{
    let mut document = Json::object();
    document.set("uri", Json::text(uri));
    let mut json = Json::object();
    json.set("textDocument", document);
    json
}

fn place_json(uri: &str, position: Position) -> (json: Json)
    ensures
        json@ == place_value(uri@, position),
{
    let mut json = document_json(uri);
    json.set("position", position_json(position));
    json
}

impl LspRequest {
    /// A request of that method.
    fn of(method: &str, params: Json) -> (request: LspRequest)
        ensures
            request@ == (LspRequestView { method: method@, params: params@ }),
    {
        LspRequest { method: method.to_owned(), params }
    }

    /// Asks for the definition of what stands at a place.
    pub fn definition(uri: &str, position: Position) -> (request: LspRequest)
        ensures
            request@ == definition_request(uri@, position),
    {
        LspRequest::of("textDocument/definition", place_json(uri, position))
    }

    /// Asks for the references to what stands at a place.
    pub fn references(uri: &str, position: Position) -> (request: LspRequest)
        ensures
            request@ == references_request(uri@, position),
    {
        let mut context = Json::object();
        context.set("includeDeclaration", Json::Bool(true));
        let mut params = place_json(uri, position);
        params.set("context", context);
        LspRequest::of("textDocument/references", params)
    }

    /// Asks what is known of what stands at a place.
    pub fn hover(uri: &str, position: Position) -> (request: LspRequest)
        ensures
            request@ == hover_request(uri@, position),
    {
        LspRequest::of("textDocument/hover", place_json(uri, position))
    }

    /// Asks what could be written at a place.
    pub fn completion(uri: &str, position: Position) -> (request: LspRequest)
        ensures
            request@ == completion_request(uri@, position),
    {
        LspRequest::of("textDocument/completion", place_json(uri, position))
    }

    /// Asks to give what stands at a place another name.
    pub fn rename(uri: &str, position: Position, new_name: &str) -> (request: LspRequest)
        ensures
            request@ == rename_request(uri@, position, new_name@),
    {
        let mut params = place_json(uri, position);
        params.set("newName", Json::text(new_name));
        LspRequest::of("textDocument/rename", params)
    }

    /// Asks for the symbols of a document.
    pub fn document_symbol(uri: &str) -> (request: LspRequest)
        ensures
            request@ == document_symbol_request(uri@),
    {
        LspRequest::of("textDocument/documentSymbol", document_json(uri))
    }

    /// Asks for the symbols of the workspace.
    pub fn workspace_symbol(query: &str) -> (request: LspRequest)
        ensures
            request@ == workspace_symbol_request(query@),
    {
        let mut params = Json::object();
        params.set("query", Json::text(query));
        LspRequest::of("workspace/symbol", params)
    }

    /// Asks for the actions that a diagnostic suggests.
    pub fn code_action(uri: &str, range: Range, diagnostic: Json) -> (request: LspRequest)
        ensures
            request@ == code_action_request(uri@, range, diagnostic@),
    {
        let mut diagnostics: Vec<Json> = Vec::new();
        diagnostics.push(diagnostic);
        assert(diagnostics.deep_view() =~= seq![diagnostic@]);
        let mut context = Json::object();
        context.set("diagnostics", Json::array(diagnostics));
        let mut params = document_json(uri);
        params.set("range", range_json(range));
        params.set("context", context);
        LspRequest::of("textDocument/codeAction", params)
    }

    /// Asks to carry out a command.
    pub fn execute_command(command: &str, arguments: Vec<Json>) -> (request: LspRequest)
        ensures
            request@ == execute_command_request(command@, arguments.deep_view()),
    {
        let mut params = Json::object();
        params.set("command", Json::text(command));
        params.set("arguments", Json::array(arguments));
        LspRequest::of("workspace/executeCommand", params)
    }

    /// Introduces the client to the server.
    pub fn initialize(process_id: u32, root_uri: Option<&str>) -> (request: LspRequest)
        ensures
            request@ == initialize_request(
                process_id,
                match root_uri {
                    Some(uri) => Some(uri@),
                    None => None,
                },
            ),
    {
        let mut params = Json::object();
        params.set("processId", Json::integer(process_id as u64));
        params.set("rootUri", Json::Null);
        params.set("capabilities", Json::object());
        if let Some(uri) = root_uri {
            let mut folder = Json::object();
            folder.set("uri", Json::text(uri));
            folder.set("name", Json::text("workspace"));
            let ghost folder_view = folder@;
            let mut folders: Vec<Json> = Vec::new();
            folders.push(folder);
            assert(folders.deep_view() =~= seq![folder_view]);
            params.set("workspaceFolders", Json::array(folders));
        }
        LspRequest::of("initialize", params)
    }

    /// Says that the client is ready.
    pub fn initialized() -> (request: LspRequest)
        ensures
            request@ == initialized_notification(),
    {
        LspRequest::of("initialized", Json::object())
    }

    /// Says that a document is open, and what is in it.
    pub fn did_open(uri: &str, content: &str) -> (request: LspRequest)
        ensures
            request@ == did_open_notification(uri@, content@),
    {
        let mut document = Json::object();
        document.set("uri", Json::text(uri));
        document.set("languageId", Json::text("rust"));
        document.set("version", Json::integer(0));
        document.set("text", Json::text(content));
        let mut params = Json::object();
        params.set("textDocument", document);
        LspRequest::of("textDocument/didOpen", params)
    }

    /// Asks the server to stop its work.
    pub fn shutdown() -> (request: LspRequest)
        ensures
            request@ == shutdown_request(),
    {
        LspRequest::of("shutdown", Json::Null)
    }

    /// Tells the server to leave.
    pub fn exit() -> (request: LspRequest)
        ensures
            request@ == exit_notification(),
    {
        LspRequest::of("exit", Json::Null)
    }
}

/// Whether parameters name a document.
pub open spec fn names_document(params: JsonView, uri: Seq<char>) -> bool {
    json::json_member(params, "textDocument"@) matches Some(document) && changes::gives_text(
        document,
        "uri"@,
        uri,
    )
}

/// Whether parameters name a document and a position in it.
pub open spec fn names_place(params: JsonView, uri: Seq<char>, line: u32, character: u32) -> bool {
    names_document(params, uri) && (json::json_member(params, "position"@) matches Some(position)
        && changes::gives_number(position, "line"@, line) && changes::gives_number(
        position,
        "character"@,
        character,
    ))
}

/// The members of an object.
pub open spec fn member_names(value: JsonView) -> Set<Seq<char>> {
    match value {
        JsonView::Object(members) => members.dom(),
        _ => Set::empty(),
    }
}

/// A position is written with its line as the line and its character as the character, and nothing more.
pub proof fn a_position_is_written_as_it_is(position: Position)
    ensures
        changes::spells_position(position_value(position), position),
        member_names(position_value(position)) == set!["line"@, "character"@],
{
    reveal_strlit("line");
    reveal_strlit("character");
    assert("line"@.len() != "character"@.len());
    assert(member_names(position_value(position)) =~= set!["line"@, "character"@]);
}

/// A range is written with its start as the start and its end as the end, and nothing more. Two ranges
/// are written alike only where they are the same.
pub proof fn a_range_is_written_as_it_is(range: Range, other: Range)
    ensures
        diagnostics::spells_range(range_value(range), range),
        member_names(range_value(range)) == set!["start"@, "end"@],
        range_value(range) == range_value(other) ==> range == other,
{
    reveal_strlit("start");
    reveal_strlit("end");
    assert("start"@.len() != "end"@.len());
    a_position_is_written_as_it_is(range.start);
    a_position_is_written_as_it_is(range.end);
    a_position_is_written_as_it_is(other.start);
    a_position_is_written_as_it_is(other.end);
    assert(member_names(range_value(range)) =~= set!["start"@, "end"@]);
    assert(diagnostics::spells_range(range_value(other), other));
}

proof fn lemma_names_differ()
    ensures
        "textDocument"@ != "position"@,
        "textDocument"@ != "context"@,
        "textDocument"@ != "newName"@,
        "textDocument"@ != "range"@,
        "position"@ != "context"@,
        "position"@ != "newName"@,
        "range"@ != "context"@,
        "command"@ != "arguments"@,
        "uri"@ != "name"@,
        "uri"@ != "languageId"@,
        "uri"@ != "version"@,
        "uri"@ != "text"@,
        "languageId"@ != "version"@,
        "languageId"@ != "text"@,
        "version"@ != "text"@,
{
    reveal_strlit("textDocument");
    reveal_strlit("position");
    reveal_strlit("context");
    reveal_strlit("newName");
    reveal_strlit("range");
    reveal_strlit("command");
    reveal_strlit("arguments");
    reveal_strlit("uri");
    reveal_strlit("name");
    reveal_strlit("languageId");
    reveal_strlit("version");
    reveal_strlit("text");
    assert("textDocument"@.len() == 12);
    assert("context"@.len() == 7);
    assert("newName"@.len() == 7);
    assert("range"@.len() == 5);
    assert("command"@.len() == 7);
    assert("arguments"@.len() == 9);
    assert("uri"@.len() == 3);
    assert("name"@.len() == 4);
    assert("version"@.len() == 7);
    assert("text"@.len() == 4);
    assert("newName"@[0] == 'n');
    assert("context"@[0] == 'c');
    assert("position"@[0] == 'p');
    assert("languageId"@[0] == 'l');
    assert("text"@[0] == 't');
    assert("name"@[0] == 'n');
}

/// What is asked about a place names the document and the position, and nothing more; a rename also the
/// new name, and the references are asked for with the declaration.
pub proof fn a_place_is_asked_about_by_its_name(
    uri: Seq<char>,
    position: Position,
    new_name: Seq<char>,
)
    ensures
        definition_request(uri, position).method == "textDocument/definition"@,
        names_place(
            definition_request(uri, position).params,
            uri,
            position.line,
            position.character,
        ),
        member_names(definition_request(uri, position).params) == set![
            "textDocument"@,
            "position"@,
        ],
        hover_request(uri, position).method == "textDocument/hover"@,
        names_place(hover_request(uri, position).params, uri, position.line, position.character),
        member_names(hover_request(uri, position).params) == set!["textDocument"@, "position"@],
        completion_request(uri, position).method == "textDocument/completion"@,
        names_place(
            completion_request(uri, position).params,
            uri,
            position.line,
            position.character,
        ),
        member_names(completion_request(uri, position).params) == set![
            "textDocument"@,
            "position"@,
        ],
        references_request(uri, position).method == "textDocument/references"@,
        names_place(
            references_request(uri, position).params,
            uri,
            position.line,
            position.character,
        ),
        json::json_member(references_request(uri, position).params, "context"@) matches Some(
            context,
        ) && json::json_member(context, "includeDeclaration"@) == Some(JsonView::Bool(true)),
        rename_request(uri, position, new_name).method == "textDocument/rename"@,
        names_place(
            rename_request(uri, position, new_name).params,
            uri,
            position.line,
            position.character,
        ),
        changes::gives_text(
            rename_request(uri, position, new_name).params,
            "newName"@,
            new_name,
        ),
{
    lemma_names_differ();
    a_position_is_written_as_it_is(position);
    assert(member_names(place_value(uri, position)) =~= set!["textDocument"@, "position"@]);
}

/// What is asked about a document names it; the actions for a diagnostic are asked for with its range and
/// with it alone.
pub proof fn a_document_is_asked_about_by_its_name(
    uri: Seq<char>,
    range: Range,
    diagnostic: JsonView,
)
    ensures
        document_symbol_request(uri).method == "textDocument/documentSymbol"@,
        names_document(document_symbol_request(uri).params, uri),
        member_names(document_symbol_request(uri).params) == set!["textDocument"@],
        code_action_request(uri, range, diagnostic).method == "textDocument/codeAction"@,
        names_document(code_action_request(uri, range, diagnostic).params, uri),
        json::json_member(code_action_request(uri, range, diagnostic).params, "range"@) matches Some(
            written,
        ) && diagnostics::spells_range(written, range),
        json::json_member(code_action_request(uri, range, diagnostic).params, "context"@) matches Some(
            context,
        ) && (json::json_member(context, "diagnostics"@) matches Some(JsonView::Array(listed))
            && listed.len() == 1 && listed[0] == diagnostic),
{
    lemma_names_differ();
    a_range_is_written_as_it_is(range, range);
    assert(member_names(document_symbol_request(uri).params) =~= set!["textDocument"@]);
}

/// The workspace is searched for the query, and a command is called by its name, with its arguments in
/// their order.
pub proof fn the_workspace_is_asked_for_what_is_given(
    query: Seq<char>,
    command: Seq<char>,
    arguments: Seq<JsonView>,
)
    ensures
        workspace_symbol_request(query).method == "workspace/symbol"@,
        changes::gives_text(workspace_symbol_request(query).params, "query"@, query),
        execute_command_request(command, arguments).method == "workspace/executeCommand"@,
        changes::gives_text(
            execute_command_request(command, arguments).params,
            "command"@,
            command,
        ),
        json::json_member(execute_command_request(command, arguments).params, "arguments"@)
            == Some(JsonView::Array(arguments)),
{
    lemma_names_differ();
}

/// An open document is told of with its URI and all of its text.
pub proof fn a_document_is_opened_with_its_text(uri: Seq<char>, content: Seq<char>)
    ensures
        did_open_notification(uri, content).method == "textDocument/didOpen"@,
        names_document(did_open_notification(uri, content).params, uri),
        json::json_member(did_open_notification(uri, content).params, "textDocument"@) matches Some(
            document,
        ) && changes::gives_text(document, "text"@, content) && changes::gives_text(
            document,
            "languageId"@,
            "rust"@,
        ) && changes::gives_number(document, "version"@, 0),
{
    lemma_names_differ();
}

/// The first request names the process, and the folder where there is one; the root is left to the
/// folder.
pub proof fn the_first_request_names_the_folder(process_id: u32, uri: Seq<char>)
    ensures
        initialize_request(process_id, None).method == "initialize"@,
        initialize_request(process_id, Some(uri)).method == "initialize"@,
        changes::gives_number(
            initialize_request(process_id, None).params,
            "processId"@,
            process_id,
        ),
        changes::gives_number(
            initialize_request(process_id, Some(uri)).params,
            "processId"@,
            process_id,
        ),
        json::json_member(initialize_request(process_id, Some(uri)).params, "rootUri"@) == Some(
            JsonView::Null,
        ),
        json::json_member(initialize_request(process_id, Some(uri)).params, "capabilities"@)
            == Some(JsonView::Object(Map::empty())),
        json::json_member(initialize_request(process_id, None).params, "capabilities"@) == Some(
            JsonView::Object(Map::empty()),
        ),
        json::json_member(initialize_request(process_id, None).params, "rootUri"@) == Some(
            JsonView::Null,
        ),
        json::json_member(initialize_request(process_id, None).params, "workspaceFolders"@) is None,
        json::json_member(initialize_request(process_id, Some(uri)).params, "workspaceFolders"@)
            matches Some(JsonView::Array(folders)) && folders.len() == 1 && changes::gives_text(
            folders[0],
            "uri"@,
            uri,
        ) && changes::gives_text(folders[0], "name"@, "workspace"@),
{
    lemma_names_differ();
    reveal_strlit("processId");
    reveal_strlit("rootUri");
    reveal_strlit("capabilities");
    reveal_strlit("workspaceFolders");
    assert("processId"@.len() == 9);
    assert("rootUri"@.len() == 7);
    assert("capabilities"@.len() == 12);
    assert("workspaceFolders"@.len() == 16);
}

/// The server is told that the client is ready, to stop, and to leave, each by its own method.
pub proof fn the_server_is_told_to_begin_and_to_end()
    ensures
        initialized_notification().method == "initialized"@,
        shutdown_request().method == "shutdown"@,
        exit_notification().method == "exit"@,
        shutdown_request().params == JsonView::Null,
        exit_notification().params == JsonView::Null,
        initialized_notification().params == JsonView::Object(Map::empty()),
{
}

/// A request is seen as it is: its method and its parameters.
pub proof fn a_request_is_seen_as_it_is(request: LspRequest)
    ensures
        request@.method == request.method@,
        request@.params == request.params@,
        request.deep_view() == request@,
{
}

} // verus!
