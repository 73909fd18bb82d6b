//! The tools that ask the language server: what they ask, and what they make of the answers.
use crate::args::{
    ApplyActionArgs, FindSymbolArgs, GetActionsArgs, GetCompletionsArgs, InteractiveRenameArgs,
    PathLineCharArgs, ShowSubSymbolArgs,
};
use crate::changes;
use crate::changes::{edit_to_make, EditError, EditErrorView};
use crate::diagnostics;
use crate::diagnostics::range_from;
use crate::errors;
use crate::errors::{ToolError, ToolErrorView};
use crate::find;
use crate::find::{FindStep, FindSymbol};
use crate::handler::MyHandler;
use crate::json;
use crate::json::{Json, JsonView};
use crate::models::{
    CompletionItem, CompletionItemView, Location, LocationView, Position, Range, SymbolMember,
};
use crate::protocol;
use crate::protocol::{LspRequest, LspRequestView};
use crate::symbols;
use crate::symbols::{
    sub_symbols, DocumentSymbolResponse, SourceLocation, SourceLocationView,
};
use crate::uri;
use crate::uri::{file_uri, path_of_uri, MAX_URI_BYTES};
use crate::workspace::{EditPlan, EditPlanView};
use vstd::prelude::*;
use vstd::utf8::encode_utf8;

verus! {

/// A request about a file: the file is to be open, and the server is to be asked.
#[derive(Debug)]
pub struct ToolCall {
    pub path: String,
    pub uri: String,
    pub request: LspRequest,
}

#[verifier::ext_equal]
pub struct ToolCallView {
    pub path: Seq<char>,
    pub uri: Seq<char>,
    pub request: LspRequestView,
}

impl DeepView for ToolCall {
    type V = ToolCallView;

    open spec fn deep_view(&self) -> ToolCallView {
        ToolCallView { path: self.path@, uri: self.uri@, request: self.request@ }
    }
}

/// The absolute path of a file and its URI, where there is a server to ask about it.
pub open spec fn asked_file(
    available: bool,
    path: Seq<char>,
    current_dir: Seq<char>,
) -> Result<(Seq<char>, Seq<char>), ToolErrorView> {
    if !available {
        Err(errors::not_available())
    } else {
        let full = uri::absolute(path, current_dir);
        match uri::as_uri(uri::path_url(full)) {
            Some(uri) => Ok((full, uri)),
            None => Err(ToolErrorView::NotAFile(full)),
        }
    }
}

/// Whether a call is about the file of that name, seen from the current directory, and names it by its
/// URI.
pub open spec fn is_about(call: ToolCall, path: Seq<char>, current_dir: Seq<char>) -> bool {
    call.path@ == (if uri::absolute_path(path) {
        path
    } else {
        uri::joined_path(current_dir, path)
    }) && uri::path_url(call.path@) == Some(call.uri@)
}

/// A request about a file, if the file can be asked about.
pub open spec fn call_about(
    asked: Result<(Seq<char>, Seq<char>), ToolErrorView>,
    request: spec_fn(Seq<char>) -> LspRequestView,
) -> Result<ToolCallView, ToolErrorView> {
    match asked {
        Ok((path, uri)) => Ok(ToolCallView { path, uri, request: request(uri) }),
        Err(error) => Err(error),
    }
}

/// Where a symbol is that leads to another place.
#[derive(Debug)]
pub struct LocationLink {
    pub target_uri: String,
    pub target_range: Range,
}

/// Where something is defined.
#[derive(Debug)]
pub enum DefinitionResponse {
    Scalar(SourceLocation),
    Array(Vec<SourceLocation>),
    Link(Vec<LocationLink>),
}

impl DeepView for LocationLink {
    type V = SourceLocationView;

    open spec fn deep_view(&self) -> SourceLocationView {
        SourceLocationView { uri: self.target_uri@, range: self.target_range }
    }
}

impl DeepView for DefinitionResponse {
    type V = Seq<SourceLocationView>;

    open spec fn deep_view(&self) -> Seq<SourceLocationView> {
        match *self {
            DefinitionResponse::Scalar(location) => seq![location.deep_view()],
            DefinitionResponse::Array(locations) => locations.deep_view(),
            DefinitionResponse::Link(links) => links.deep_view(),
        }
    }
}

/// The places in files that places in documents stand for. An error with the first URI that stands
/// for no file, if there is one.
pub open spec fn file_places(
    locations: Seq<SourceLocationView>,
) -> Result<Seq<LocationView>, ToolErrorView>
    decreases locations.len(),
{
    if locations.len() == 0 {
        Ok(Seq::empty())
    } else {
        match file_places(locations.drop_last()) {
            Ok(places) => match uri::url_path(locations.last().uri) {
                Some(path) => Ok(places.push(find::place_in_file(locations.last(), path, None))),
                None => Err(ToolErrorView::NotAFile(locations.last().uri)),
            },
            Err(error) => Err(error),
        }
    }
}

/// The places that the server answered with.
pub open spec fn told_places(
    reply: Result<Option<Seq<SourceLocationView>>, Seq<char>>,
) -> Result<Seq<LocationView>, ToolErrorView> {
    match reply {
        Ok(Some(locations)) => file_places(locations),
        Ok(None) => Ok(Seq::empty()),
        Err(message) => Err(ToolErrorView::Internal(message)),
    }
}

/// Whether a place is that position of the file of a URI, and nothing more is said of it.
pub open spec fn is_at(place: Location, uri: Seq<char>, position: Position) -> bool {
    uri::url_path(uri) == Some(place.path@) && place.line == position.line && place.character
        == position.character && place.hover_info is None
}

/// Adds the place in a file that a place in a document stands for.
fn add_place(places: &mut Vec<Location>, uri: &str, start: Position) -> (added: Result<
    (),
    ToolError,
>)
    ensures
        match uri::url_path(uri@) {
            Some(path) => added is Ok && final(places).deep_view() == old(places).deep_view().push(
                LocationView {
                    path,
                    line: start.line,
                    character: start.character,
                    hover_info: None,
                },
            ) && final(places)@.len() == old(places)@.len() + 1 && is_at(
                final(places)@.last(),
                uri@,
                start,
            ) && final(places)@.drop_last() == old(places)@,
            None => added matches Err(error) && error.deep_view() == ToolErrorView::NotAFile(uri@),
        },
{
    let ghost before = places.deep_view();
    match path_of_uri(uri) {
        Some(path) => {
            let place = Location {
                path,
                line: start.line,
                character: start.character,
                hover_info: None,
            };
            let ghost view = place.deep_view();
            places.push(place);
            assert(places@.drop_last() =~= old(places)@);
            assert(places.deep_view() =~= before.push(view));
            Ok(())
        },
        None => Err(ToolError::NotAFile(uri.to_owned())),
    }
}

fn place_all(locations: &Vec<SourceLocation>) -> (places: Result<Vec<Location>, ToolError>)
    ensures
        errors::outcome(places) == file_places(locations.deep_view()),
        places matches Ok(places) ==> places@.len() == locations@.len() && forall|i: int|
            0 <= i < places@.len() ==> is_at(
                #[trigger] places@[i],
                locations@[i].uri@,
                locations@[i].range.start,
            ),
{
    let ghost views = locations.deep_view();
    let mut places: Vec<Location> = Vec::new();
    let mut i: usize = 0;
    assert(places.deep_view() =~= Seq::empty());
    while i < locations.len()
        invariant
            i <= locations@.len(),
            views == locations.deep_view(),
            file_places(views.take(i as int)) == Ok::<Seq<LocationView>, ToolErrorView>(
                places.deep_view(),
            ),
            places@.len() == i,
            forall|k: int|
                0 <= k < i ==> is_at(
                    #[trigger] places@[k],
                    locations@[k].uri@,
                    locations@[k].range.start,
                ),
        decreases locations@.len() - i,
    {
        assert(views.take(i + 1).drop_last() =~= views.take(i as int));
        assert(views.take(i + 1).last() == locations@[i as int].deep_view());
        let ghost earlier = places@;
        match add_place(&mut places, locations[i].uri.as_str(), locations[i].range.start) {
            Ok(_) => {
                assert forall|k: int| 0 <= k < i implies is_at(
                    #[trigger] places@[k],
                    locations@[k].uri@,
                    locations@[k].range.start,
                ) by {
                    assert(places@[k] == places@.drop_last()[k]);
                    assert(is_at(earlier[k], locations@[k].uri@, locations@[k].range.start));
                }
            },
            Err(error) => {
                proof {
                    lemma_error_stays(views, i + 1);
                }
                return Err(error);
            },
        }
        i += 1;
    }
    assert(views.take(i as int) =~= views);
    Ok(places)
}

proof fn lemma_error_stays(locations: Seq<SourceLocationView>, n: int)
    requires
        0 <= n <= locations.len(),
        file_places(locations.take(n)) is Err,
    ensures
        file_places(locations) == file_places(locations.take(n)),
    decreases locations.len() - n,
{
    if n < locations.len() {
        assert(locations.take(n + 1).drop_last() =~= locations.take(n));
        lemma_error_stays(locations, n + 1);
    } else {
        assert(locations.take(n) =~= locations);
    }
}

impl MyHandler {
    /// Asks about a file, where there is a server to ask.
    fn ask_about(&self, path: &str, current_dir: &str) -> (asked: Result<(String, String), ToolError>)
        ensures
            errors::outcome(asked) == asked_file(self.lsp_available, path@, current_dir@),
    {
        if !self.lsp_available {
            return Err(ToolError::unavailable());
        }
        let full = MyHandler::to_absolute_path(path, current_dir);
        match file_uri(full.as_str()) {
            Some(uri) => Ok((full, uri)),
            None => Err(ToolError::NotAFile(full)),
        }
    }

    /// Asks where something is defined.
    pub fn editor_get_definition(&self, args: &PathLineCharArgs, current_dir: &str) -> (call: Result<
        ToolCall,
        ToolError,
    >)
        ensures
            errors::outcome(call) == call_about(
                asked_file(self.lsp_available, args.path@, current_dir@),
                |uri: Seq<char>|
                    protocol::definition_request(
                        uri,
                        Position { line: args.line, character: args.character },
                    ),
            ),
            call matches Ok(call) ==> is_about(call, args.path@, current_dir@)
                && call.request.method@ == "textDocument/definition"@ && protocol::names_place(
                call.request.params@,
                call.uri@,
                args.line,
                args.character,
            ),
    {
        match self.ask_about(args.path.as_str(), current_dir) {
            Ok((path, uri)) => {
                let position = Position { line: args.line, character: args.character };
                let request = LspRequest::definition(uri.as_str(), position);
                proof {
                    protocol::a_place_is_asked_about_by_its_name(uri@, position, Seq::empty());
                }
                Ok(ToolCall { path, uri, request })
            },
            Err(error) => Err(error),
        }
    }

    /// Tells where something is defined.
    pub fn editor_get_definition_reply(
        reply: Result<Option<DefinitionResponse>, String>,
    ) -> (places: Result<Vec<Location>, ToolError>)
        ensures
            errors::outcome(places) == told_places(errors::reply_view(reply)),
            places matches Ok(places) ==> match reply {
                Ok(Some(DefinitionResponse::Scalar(location))) => places@.len() == 1 && is_at(
                    places@[0],
                    location.uri@,
                    location.range.start,
                ),
                Ok(Some(DefinitionResponse::Array(locations))) => places@.len() == locations@.len()
                    && forall|i: int|
                    0 <= i < places@.len() ==> is_at(
                        #[trigger] places@[i],
                        locations@[i].uri@,
                        locations@[i].range.start,
                    ),
                Ok(Some(DefinitionResponse::Link(links))) => places@.len() == links@.len()
                    && forall|i: int|
                    0 <= i < places@.len() ==> is_at(
                        #[trigger] places@[i],
                        links@[i].target_uri@,
                        links@[i].target_range.start,
                    ),
                Ok(None) => places@.len() == 0,
                Err(_) => false,
            },
    {
        match reply {
            Ok(Some(DefinitionResponse::Scalar(location))) => {
                let ghost view = location.deep_view();
                let mut locations: Vec<SourceLocation> = Vec::new();
                locations.push(location);
                assert(locations.deep_view() =~= seq![view]);
                place_all(&locations)
            },
            Ok(Some(DefinitionResponse::Array(locations))) => place_all(&locations),
            Ok(Some(DefinitionResponse::Link(links))) => {
                let ghost views = links.deep_view();
                let mut locations: Vec<SourceLocation> = Vec::new();
                let mut i: usize = 0;
                while i < links.len()
                    invariant
                        i <= links@.len(),
                        locations@.len() == i,
                        forall|k: int|
                            0 <= k < i ==> (#[trigger] locations@[k]).deep_view()
                                == links@[k].deep_view() && locations@[k].uri@
                                == links@[k].target_uri@ && locations@[k].range
                                == links@[k].target_range,
                    decreases links@.len() - i,
                {
                    locations.push(
                        SourceLocation {
                            uri: links[i].target_uri.clone(),
                            range: links[i].target_range,
                        },
                    );
                    i += 1;
                }
                assert(locations.deep_view() =~= views);
                place_all(&locations)
            },
            Ok(None) => {
                let places: Vec<Location> = Vec::new();
                assert(places.deep_view() =~= Seq::empty());
                Ok(places)
            },
            Err(message) => Err(ToolError::Internal(message)),
        }
    }

    /// Asks where something is referred to.
    pub fn editor_get_references(&self, args: &PathLineCharArgs, current_dir: &str) -> (call: Result<
        ToolCall,
        ToolError,
    >)
        ensures
            errors::outcome(call) == call_about(
                asked_file(self.lsp_available, args.path@, current_dir@),
                |uri: Seq<char>|
                    protocol::references_request(
                        uri,
                        Position { line: args.line, character: args.character },
                    ),
            ),
            call matches Ok(call) ==> is_about(call, args.path@, current_dir@)
                && call.request.method@ == "textDocument/references"@ && protocol::names_place(
                call.request.params@,
                call.uri@,
                args.line,
                args.character,
            ),
    {
        match self.ask_about(args.path.as_str(), current_dir) {
            Ok((path, uri)) => {
                let position = Position { line: args.line, character: args.character };
                let request = LspRequest::references(uri.as_str(), position);
                proof {
                    protocol::a_place_is_asked_about_by_its_name(uri@, position, Seq::empty());
                }
                Ok(ToolCall { path, uri, request })
            },
            Err(error) => Err(error),
        }
    }

    /// Tells where something is referred to.
    pub fn editor_get_references_reply(reply: Result<Option<Vec<SourceLocation>>, String>) -> (places:
        Result<Vec<Location>, ToolError>)
        ensures
            errors::outcome(places) == told_places(errors::reply_view(reply)),
            places matches Ok(places) ==> match reply {
                Ok(Some(locations)) => places@.len() == locations@.len() && forall|i: int|
                    0 <= i < places@.len() ==> is_at(
                        #[trigger] places@[i],
                        locations@[i].uri@,
                        locations@[i].range.start,
                    ),
                Ok(None) => places@.len() == 0,
                Err(_) => false,
            },
    {
        match reply {
            Ok(Some(locations)) => place_all(&locations),
            Ok(None) => {
                let places: Vec<Location> = Vec::new();
                assert(places.deep_view() =~= Seq::empty());
                Ok(places)
            },
            Err(message) => Err(ToolError::Internal(message)),
        }
    }

    /// Begins to find a symbol.
    pub fn code_find_symbol(&self, args: FindSymbolArgs) -> (begun: Result<
        (FindSymbol, FindStep),
        ToolError,
    >)
        ensures
            match begun {
                Ok((search, step)) => self.lsp_available && search.wf() && search@.args == args@ && (
                    search@.stage,
                    step.deep_view(),
                ) == find::search_begins(args@),
                Err(error) => !self.lsp_available && error.deep_view() == errors::not_available(),
            },
    {
        if self.lsp_available {
            Ok(FindSymbol::begin(args))
        } else {
            Err(ToolError::unavailable())
        }
    }

    /// Asks for the symbols in a file.
    pub fn code_show_sub_symbol(&self, args: &ShowSubSymbolArgs, current_dir: &str) -> (call: Result<
        ToolCall,
        ToolError,
    >)
        ensures
            errors::outcome(call) == call_about(
                asked_file(self.lsp_available, args.symbol_path@, current_dir@),
                |uri: Seq<char>| protocol::document_symbol_request(uri),
            ),
            call matches Ok(call) ==> is_about(call, args.symbol_path@, current_dir@)
                && call.request.method@ == "textDocument/documentSymbol"@
                && protocol::names_document(call.request.params@, call.uri@),
    {
        match self.ask_about(args.symbol_path.as_str(), current_dir) {
            Ok((path, uri)) => {
                let request = LspRequest::document_symbol(uri.as_str());
                proof {
                    protocol::a_document_is_asked_about_by_its_name(
                        uri@,
                        Range::origin_view(),
                        JsonView::Null,
                    );
                }
                Ok(ToolCall { path, uri, request })
            },
            Err(error) => Err(error),
        }
    }

    /// Shows the methods or attributes within a symbol of a file that has that content.
    pub fn code_show_sub_symbol_reply(
        args: &ShowSubSymbolArgs,
        reply: Result<Option<DocumentSymbolResponse>, String>,
        content: &str,
    ) -> (members: Result<Vec<SymbolMember>, ToolError>)
        ensures
            errors::outcome(members) == (match errors::reply_view(reply) {
                Ok(Some(response)) => Ok(
                    symbols::sub_symbol_members(
                        args.symbol@,
                        args.symbol_path@,
                        args.level,
                        response,
                        content@,
                    ),
                ),
                Ok(None) => Ok(Seq::empty()),
                Err(message) => Err(ToolErrorView::Internal(message)),
            }),
    {
        match reply {
            Ok(Some(response)) => Ok(
                sub_symbols(
                    args.symbol.as_str(),
                    args.symbol_path.as_str(),
                    args.level,
                    &response,
                    content,
                ),
            ),
            Ok(None) => {
                let members: Vec<SymbolMember> = Vec::new();
                assert(members.deep_view() =~= Seq::empty());
                Ok(members)
            },
            Err(message) => Err(ToolError::Internal(message)),
        }
    }
}

/// What is written of a completion: plain text, or marked up.
#[derive(Debug)]
pub enum Documentation {
    Text(String),
    Markup(String),
}

/// A completion, as the server suggests it.
#[derive(Debug)]
pub struct CompletionEntry {
    pub label: String,
    pub kind: Option<i32>,
    pub detail: Option<String>,
    pub documentation: Option<Documentation>,
    pub sort_text: Option<String>,
    pub filter_text: Option<String>,
    pub insert_text: Option<String>,
}

/// What could be written at a place: a plain list, or one that says more about itself.
#[derive(Debug)]
pub enum CompletionResponse {
    Array(Vec<CompletionEntry>),
    List(Vec<CompletionEntry>),
}

/// The name that `lsp_types::CompletionItemKind` gives a kind of completion.
pub uninterp spec fn completion_kind_text(kind: i32) -> Seq<char>;

/// `<lsp_types::CompletionItemKind as Debug>::fmt`: the name depends on the number of the kind alone.
/// Every number is one of a kind.
#[verifier::external_body]
fn completion_kind_name(kind: i32) -> (name: String)
    ensures
        name@ == completion_kind_text(kind),
{
    let kind: lsp_types::CompletionItemKind = serde_json::from_value(kind.into()).unwrap();
    format!("{:?}", kind)
}

impl DeepView for CompletionEntry {
    type V = CompletionItemView;

    open spec fn deep_view(&self) -> CompletionItemView {
        CompletionItemView {
            label: self.label@,
            kind: match self.kind {
                Some(kind) => Some(completion_kind_text(kind)),
                None => None,
            },
            detail: self.detail.deep_view(),
            documentation: match self.documentation {
                Some(Documentation::Text(text)) => Some(text@),
                Some(Documentation::Markup(text)) => Some(text@),
                None => None,
            },
            sort_text: self.sort_text.deep_view(),
            filter_text: self.filter_text.deep_view(),
            insert_text: self.insert_text.deep_view(),
        }
    }
}

impl DeepView for CompletionResponse {
    type V = Seq<CompletionItemView>;

    open spec fn deep_view(&self) -> Seq<CompletionItemView> {
        match *self {
            CompletionResponse::Array(entries) => entries.deep_view(),
            CompletionResponse::List(entries) => entries.deep_view(),
        }
    }
}

/// Whether an item says what a suggestion says: the same texts in the same places, the name of its kind,
/// and what is written of it, marked up or not.
pub open spec fn is_completed(item: CompletionItem, entry: CompletionEntry) -> bool {
    &&& item.label@ == entry.label@
    &&& match (item.kind, entry.kind) {
        (Some(name), Some(kind)) => name@ == completion_kind_text(kind),
        (None, None) => true,
        _ => false,
    }
    &&& item.detail.deep_view() == entry.detail.deep_view()
    &&& match (item.documentation, entry.documentation) {
        (Some(text), Some(Documentation::Text(written))) => text@ == written@,
        (Some(text), Some(Documentation::Markup(written))) => text@ == written@,
        (None, None) => true,
        _ => false,
    }
    &&& item.sort_text.deep_view() == entry.sort_text.deep_view()
    &&& item.filter_text.deep_view() == entry.filter_text.deep_view()
    &&& item.insert_text.deep_view() == entry.insert_text.deep_view()
}

/// Whether the items say what the suggestions say, one for one.
pub open spec fn all_completed(items: Seq<CompletionItem>, entries: Seq<CompletionEntry>) -> bool {
    items.len() == entries.len() && forall|i: int|
        0 <= i < items.len() ==> is_completed(#[trigger] items[i], entries[i])
}

fn complete(entry: CompletionEntry) -> (item: CompletionItem)
    ensures
        item.deep_view() == entry.deep_view(),
        is_completed(item, entry),
{
    let kind = match entry.kind {
        Some(kind) => Some(completion_kind_name(kind)),
        None => None,
    };
    let documentation = match entry.documentation {
        Some(Documentation::Text(text)) => Some(text),
        Some(Documentation::Markup(text)) => Some(text),
        None => None,
    };
    CompletionItem {
        label: entry.label,
        kind,
        detail: entry.detail,
        documentation,
        sort_text: entry.sort_text,
        filter_text: entry.filter_text,
        insert_text: entry.insert_text,
    }
}

fn complete_all(entries: Vec<CompletionEntry>) -> (items: Vec<CompletionItem>)
    ensures
        items.deep_view() == entries.deep_view(),
        all_completed(items@, entries@),
{
    let ghost views = entries.deep_view();
    let ghost given = entries@;
    let mut rest = entries;
    let mut items: Vec<CompletionItem> = Vec::new();
    assert(views =~= items.deep_view() + rest.deep_view());
    while rest.len() > 0
        invariant
            views == items.deep_view() + rest.deep_view(),
            items@.len() + rest@.len() == given.len(),
            rest@ == given.skip(items@.len() as int),
            forall|k: int|
                0 <= k < items@.len() ==> is_completed(#[trigger] items@[k], given[k]),
        decreases rest@.len(),
    {
        assert(rest@[0] == given[items@.len() as int]);
        let ghost before = items.deep_view();
        let ghost left = rest.deep_view();
        let entry = rest.remove(0);
        let ghost view = entry.deep_view();
        assert(left =~= seq![view] + rest.deep_view());
        items.push(complete(entry));
        assert(rest@ =~= given.skip(items@.len() as int));
        assert(items.deep_view() =~= before.push(view));
        assert(views =~= items.deep_view() + rest.deep_view());
    }
    assert(views =~= items.deep_view());
    items
}

/// The place of what is to be renamed: where the hint says, else at the start of the file.
pub open spec fn rename_position(hint: Option<Position>) -> Position {
    match hint {
        Some(position) => position,
        None => Position { line: 0, character: 0 },
    }
}

/// What comes of a request to rename: changes to make, or something to say.
#[derive(Debug)]
pub enum RenameStep {
    Edit(EditPlan),
    Done(String),
}

#[verifier::ext_equal]
pub enum RenameStepView {
    Edit(EditPlanView),
    Done(Seq<char>),
}

impl DeepView for RenameStep {
    type V = RenameStepView;

    open spec fn deep_view(&self) -> RenameStepView {
        match *self {
            RenameStep::Edit(plan) => RenameStepView::Edit(plan.deep_view()),
            RenameStep::Done(text) => RenameStepView::Done(text@),
        }
    }
}

/// Whether that is what there is to do for a rename, by the answer of the server.
pub open spec fn is_rename_step(
    step: Result<RenameStepView, ToolErrorView>,
    reply: Result<JsonView, Seq<char>>,
) -> bool {
    match reply {
        Ok(JsonView::Null) => step == Ok::<RenameStepView, ToolErrorView>(
            RenameStepView::Done("LSP returned no edits for rename"@),
        ),
        Ok(edit) => match changes::edit_made(edit) {
            Ok(kept) => step matches Ok(RenameStepView::Edit(plan)) && changes::is_planned(
                plan,
                kept,
            ),
            Err(EditErrorView::NotAnEdit(message)) => step == Err::<RenameStepView, ToolErrorView>(
                ToolErrorView::Internal(message),
            ),
            Err(EditErrorView::TooLong) => step == Err::<RenameStepView, ToolErrorView>(
                ToolErrorView::TooLong,
            ),
        },
        Err(message) => step == Err::<RenameStepView, ToolErrorView>(
            ToolErrorView::Internal(message),
        ),
    }
}

/// What is said of a rename that was made.
pub open spec fn rename_applied() -> JsonView {
    JsonView::Object(
        map![
            "status"@ => JsonView::Text("Applied"@),
            "message"@ => JsonView::Text("Rename successful."@),
        ],
    )
}

impl MyHandler {
    /// Asks what could be written at a place.
    pub fn code_get_completions(&self, args: &GetCompletionsArgs, current_dir: &str) -> (call: Result<
        ToolCall,
        ToolError,
    >)
        ensures
            errors::outcome(call) == call_about(
                asked_file(self.lsp_available, args.path@, current_dir@),
                |uri: Seq<char>|
                    protocol::completion_request(
                        uri,
                        Position { line: args.line, character: args.character },
                    ),
            ),
            call matches Ok(call) ==> is_about(call, args.path@, current_dir@)
                && call.request.method@ == "textDocument/completion"@ && protocol::names_place(
                call.request.params@,
                call.uri@,
                args.line,
                args.character,
            ),
    {
        match self.ask_about(args.path.as_str(), current_dir) {
            Ok((path, uri)) => {
                let position = Position { line: args.line, character: args.character };
                let request = LspRequest::completion(uri.as_str(), position);
                proof {
                    protocol::a_place_is_asked_about_by_its_name(uri@, position, Seq::empty());
                }
                Ok(ToolCall { path, uri, request })
            },
            Err(error) => Err(error),
        }
    }

    /// Tells what could be written at a place.
    pub fn code_get_completions_reply(reply: Result<Option<CompletionResponse>, String>) -> (items:
        Result<Vec<CompletionItem>, ToolError>)
        ensures
            errors::outcome(items) == (match errors::reply_view(reply) {
                Ok(Some(items)) => Ok(items),
                Ok(None) => Ok(Seq::empty()),
                Err(message) => Err(ToolErrorView::Internal(message)),
            }),
            items matches Ok(items) ==> match reply {
                Ok(Some(CompletionResponse::Array(entries))) => all_completed(items@, entries@),
                Ok(Some(CompletionResponse::List(entries))) => all_completed(items@, entries@),
                Ok(None) => items@.len() == 0,
                Err(_) => false,
            },
    {
        match reply {
            Ok(Some(CompletionResponse::Array(entries))) => Ok(complete_all(entries)),
            Ok(Some(CompletionResponse::List(entries))) => Ok(complete_all(entries)),
            Ok(None) => {
                let items: Vec<CompletionItem> = Vec::new();
                assert(items.deep_view() =~= Seq::empty());
                Ok(items)
            },
            Err(message) => Err(ToolError::Internal(message)),
        }
    }

    /// Asks to rename something.
    pub fn refactor_interactive_rename(
        &self,
        args: &InteractiveRenameArgs,
        current_dir: &str,
    ) -> (call: Result<ToolCall, ToolError>)
        ensures
            errors::outcome(call) == call_about(
                asked_file(self.lsp_available, args.path@, current_dir@),
                |uri: Seq<char>|
                    protocol::rename_request(
                        uri,
                        rename_position(args.symbol_to_find.location_hint),
                        args.new_name@,
                    ),
            ),
            call matches Ok(call) ==> is_about(call, args.path@, current_dir@)
                && call.request.method@ == "textDocument/rename"@ && changes::gives_text(
                call.request.params@,
                "newName"@,
                args.new_name@,
            ) && match args.symbol_to_find.location_hint {
                Some(place) => protocol::names_place(
                    call.request.params@,
                    call.uri@,
                    place.line,
                    place.character,
                ),
                None => protocol::names_place(call.request.params@, call.uri@, 0, 0),
            },
    {
        match self.ask_about(args.path.as_str(), current_dir) {
            Ok((path, uri)) => {
                let position = match args.symbol_to_find.location_hint {
                    Some(position) => position,
                    None => Position { line: 0, character: 0 },
                };
                let request = LspRequest::rename(uri.as_str(), position, args.new_name.as_str());
                proof {
                    protocol::a_place_is_asked_about_by_its_name(uri@, position, args.new_name@);
                }
                Ok(ToolCall { path, uri, request })
            },
            Err(error) => Err(error),
        }
    }

    /// Says what there is to change for a rename.
    pub fn refactor_interactive_rename_reply(reply: Result<Json, String>) -> (step: Result<
        RenameStep,
        ToolError,
    >)
        ensures
            is_rename_step(errors::outcome(step), errors::reply_view(reply)),
    {
        match reply {
            Ok(Json::Null) => Ok(RenameStep::Done("LSP returned no edits for rename".to_owned())),
            Ok(edit) => match edit_to_make(&edit) {
                Ok(plan) => Ok(RenameStep::Edit(plan)),
                Err(EditError::NotAnEdit(message)) => Err(ToolError::Internal(message)),
                Err(EditError::TooLong) => Err(ToolError::TooLong),
            },
            Err(message) => Err(ToolError::Internal(message)),
        }
    }

    /// Says what came of the changes for a rename.
    pub fn refactor_interactive_rename_applied(applied: Result<(), String>) -> (text: Result<
        String,
        ToolError,
    >)
        ensures
            errors::outcome(text) == (match applied {
                Ok(_) => Ok(json::rendered_json(rename_applied())),
                Err(message) => Err(ToolErrorView::Internal(message@)),
            }),
            text matches Ok(text) ==> json::parsed_json(encode_utf8(text@)) == Some(
                rename_applied(),
            ),
    {
        proof {
            reveal_with_fuel(json::nested_within, 3);
            reveal_with_fuel(json::plain_names, 3);
            reveal_strlit("status");
            reveal_strlit("message");
            json::lemma_plain_name("status"@);
            json::lemma_plain_name("message"@);
        }
        match applied {
            Ok(_) => {
                let mut status = Json::object();
                status.set("status", Json::text("Applied"));
                status.set("message", Json::text("Rename successful."));
                Ok(status.render())
            },
            Err(message) => Err(ToolError::Internal(message)),
        }
    }
}

/// What `lsp_types::Diagnostic` keeps of a diagnostic, where the value is one.
pub uninterp spec fn kept_diagnostic(diagnostic: JsonView) -> Option<JsonView>;

/// The actions that the server suggests, as `lsp_types::CodeActionResponse` keeps them; or why the
/// value is no list of actions.
pub uninterp spec fn kept_actions(actions: JsonView) -> Result<JsonView, Seq<char>>;

/// The name of a command and its arguments, as `lsp_types::Command` keeps them, where the value is a
/// command.
pub uninterp spec fn kept_command(
    command: JsonView,
) -> Option<(Seq<char>, Option<Seq<JsonView>>)>;

/// What a developer is shown of the result of a command; or why it cannot be shown.
pub uninterp spec fn shown_result(result: JsonView) -> Result<Seq<char>, Seq<char>>;

/// What a developer is shown of what the server knows of a symbol, where it knows anything.
pub uninterp spec fn shown_hover(hover: JsonView) -> Option<Seq<char>>;

/// `serde_json::from_value` and `serde_json::to_value` for `lsp_types::Diagnostic`: whether the value
/// is a diagnostic, and what is kept of it, depends on the value alone. A text that is too long for a
/// URI is not for it: the parser of URIs panics.
#[verifier::external_body]
fn keep_diagnostic(diagnostic: &serde_json::Value) -> (kept: Option<serde_json::Value>)
    requires
        json::texts_within(json::value_contents(*diagnostic), uri::uri_bytes()),
    ensures
        match kept {
            Some(kept) => kept_diagnostic(json::value_contents(*diagnostic)) == Some(
                json::value_contents(kept),
            ),
            None => kept_diagnostic(json::value_contents(*diagnostic)) is None,
        },
{
    let diagnostic: lsp_types::Diagnostic = serde_json::from_value(diagnostic.clone()).ok()?;
    serde_json::to_value(diagnostic).ok()
}

/// `serde_json::from_value` and `serde_json::to_string` for `lsp_types::CodeActionResponse`: whether
/// the value is a list of actions, and what is kept of it, depends on the value alone. The text
/// spells what is kept: `serde_json::from_slice` reads it back, unless it is nested more deeply than
/// the parser goes or has a member that the parser takes for JSON in a text. In which order the text
/// lists the members of an object is left open: chance has a part in it. A text that is too long for
/// a URI is not for it: the parser of URIs panics.
#[verifier::external_body]
fn write_actions(actions: &serde_json::Value) -> (text: Result<String, String>)
    requires
        json::texts_within(json::value_contents(*actions), uri::uri_bytes()),
    ensures
        match text {
            Ok(text) => kept_actions(json::value_contents(*actions)) matches Ok(kept) && (
            json::is_readable(kept) ==> json::parsed_json(encode_utf8(text@)) == Some(kept)),
            Err(message) => kept_actions(json::value_contents(*actions)) == Err::<
                JsonView,
                Seq<char>,
            >(message@),
        },
{
    serde_json::from_value::<Option<lsp_types::CodeActionResponse>>(actions.clone())
        .and_then(|actions| serde_json::to_string(&actions))
        .map_err(|error| error.to_string())
}

/// `serde_json::from_value` for `lsp_types::Command`: whether the value is a command, and what is kept
/// of it, depends on the value alone.
#[verifier::external_body]
fn keep_command(command: serde_json::Value) -> (kept: Option<(String, Option<Vec<serde_json::Value>>)>)
    ensures
        match kept {
            Some((name, Some(arguments))) => kept_command(json::value_contents(command)) == Some(
                (name@, Some(arguments@.map_values(|v: serde_json::Value| json::value_contents(v)))),
            ),
            Some((name, None)) => kept_command(json::value_contents(command)) == Some(
                (name@, None::<Seq<JsonView>>),
            ),
            None => kept_command(json::value_contents(command)) is None,
        },
{
    let command: lsp_types::Command = serde_json::from_value(command).ok()?;
    Some((command.command, command.arguments))
}

/// `serde_json::from_value` for `Option<serde_json::Value>`, and its `Debug::fmt`: the text, or the
/// message of the error, depends on the value alone. Null counts as no value.
#[verifier::external_body]
fn show_result(result: serde_json::Value) -> (text: Result<String, String>)
    ensures
        match text {
            Ok(text) => shown_result(json::value_contents(result)) == Ok::<Seq<char>, Seq<char>>(
                text@,
            ),
            Err(message) => shown_result(json::value_contents(result)) == Err::<
                Seq<char>,
                Seq<char>,
            >(message@),
        },
{
    serde_json::from_value::<Option<serde_json::Value>>(result)
        .map(|result| format!("{:?}", result))
        .map_err(|error| error.to_string())
}

/// `serde_json::from_value` for `lsp_types::Hover`, and `<lsp_types::HoverContents as Debug>::fmt`: the
/// text depends on the value alone, and so does whether there is one.
#[verifier::external_body]
fn show_hover(hover: serde_json::Value) -> (text: Option<String>)
    ensures
        text.deep_view() == shown_hover(json::value_contents(hover)),
{
    let hover: Option<lsp_types::Hover> = serde_json::from_value(hover).ok()?;
    hover.map(|hover| format!("{:?}", hover.contents))
}

/// What is known of a symbol, by the answer of the server; nothing where it did not answer.
pub fn hover_info(reply: &Result<Json, String>) -> (info: Option<String>)
    ensures
        info.deep_view() == (match *reply {
            Ok(hover) => shown_hover(hover@),
            Err(_) => None,
        }),
{
    match reply {
        Ok(hover) => show_hover(hover.to_value()),
        Err(_) => None,
    }
}

/// The range of a diagnostic; the origin where it has none.
pub open spec fn diagnostic_range(diagnostic: JsonView) -> Range {
    match json::json_member(diagnostic, "range"@) {
        Some(range) => diagnostics::range_or_origin(range),
        None => Range::origin_view(),
    }
}

/// The request for the actions that a diagnostic of a file suggests.
pub open spec fn actions_call(
    asked: Result<(Seq<char>, Seq<char>), ToolErrorView>,
    diagnostic: JsonView,
) -> Result<ToolCallView, ToolErrorView> {
    match asked {
        Ok((path, uri)) => if !json::texts_within(diagnostic, uri::uri_bytes()) {
            Err(ToolErrorView::TooLong)
        } else {
            match kept_diagnostic(diagnostic) {
                Some(kept) => Ok(
                    ToolCallView {
                        path,
                        uri,
                        request: protocol::code_action_request(
                            uri,
                            diagnostic_range(diagnostic),
                            kept,
                        ),
                    },
                ),
                None => Err(ToolErrorView::NotADiagnostic),
            }
        },
        Err(error) => Err(error),
    }
}

/// The actions that are told of, by the answer of the server; or why none are.
pub open spec fn actions_told(reply: Result<JsonView, Seq<char>>) -> Result<
    JsonView,
    ToolErrorView,
> {
    match reply {
        Ok(actions) => if !json::texts_within(actions, uri::uri_bytes()) {
            Err(ToolErrorView::TooLong)
        } else {
            match kept_actions(actions) {
                Ok(kept) => Ok(kept),
                Err(message) => Err(ToolErrorView::Internal(message)),
            }
        },
        Err(message) => Err(ToolErrorView::Internal(message)),
    }
}

/// What there is to do for an action: a change to the workspace, something to ask of the server, or
/// something to say.
#[derive(Debug)]
pub enum ActionStep {
    Edit(EditPlan),
    Execute(LspRequest),
    Done(String),
}

#[verifier::ext_equal]
pub enum ActionStepView {
    Edit(EditPlanView),
    Execute(LspRequestView),
    Done(Seq<char>),
}

impl DeepView for ActionStep {
    type V = ActionStepView;

    open spec fn deep_view(&self) -> ActionStepView {
        match *self {
            ActionStep::Edit(plan) => ActionStepView::Edit(plan.deep_view()),
            ActionStep::Execute(request) => ActionStepView::Execute(request@),
            ActionStep::Done(text) => ActionStepView::Done(text@),
        }
    }
}

/// What there is to do for a command.
pub open spec fn command_step(command: JsonView) -> Result<ActionStepView, ToolErrorView> {
    match kept_command(command) {
        Some((name, arguments)) => Ok(
            ActionStepView::Execute(
                protocol::execute_command_request(
                    name,
                    match arguments {
                        Some(arguments) => arguments,
                        None => Seq::empty(),
                    },
                ),
            ),
        ),
        None => Err(ToolErrorView::NotACommand),
    }
}

/// Whether that is what there is to do for an action: its edit where it has one, else its command
/// where it has one.
pub open spec fn is_action_step(
    step: Result<ActionStepView, ToolErrorView>,
    available: bool,
    title: Seq<char>,
    edit: Option<JsonView>,
    command: Option<JsonView>,
) -> bool {
    if !available {
        step == Err::<ActionStepView, ToolErrorView>(errors::not_available())
    } else {
        match (edit, command) {
            (Some(edit), _) => match changes::edit_made(edit) {
                Ok(kept) => step matches Ok(ActionStepView::Edit(plan)) && changes::is_planned(
                    plan,
                    kept,
                ),
                Err(EditErrorView::NotAnEdit(message)) => step == Err::<
                    ActionStepView,
                    ToolErrorView,
                >(ToolErrorView::NotAnEdit(message)),
                Err(EditErrorView::TooLong) => step == Err::<ActionStepView, ToolErrorView>(
                    ToolErrorView::TooLong,
                ),
            },
            (None, Some(command)) => step == command_step(command),
            (None, None) => step == Ok::<ActionStepView, ToolErrorView>(
                ActionStepView::Done(
                    "Action '"@ + title + "' has no edit or command to apply."@,
                ),
            ),
        }
    }
}

fn all_from_values(values: &Vec<serde_json::Value>) -> (all: Vec<Json>)
    ensures
        all.deep_view() == values@.map_values(|v: serde_json::Value| json::value_contents(v)),
{
    let mut all: Vec<Json> = Vec::new();
    let mut i: usize = 0;
    while i < values.len()
        invariant
            i <= values@.len(),
            all@.len() == i,
            forall|k: int|
                0 <= k < i ==> (#[trigger] all@[k])@ == json::value_contents(values@[k]),
        decreases values@.len() - i,
    {
        all.push(Json::from_value(&values[i]));
        i += 1;
    }
    assert(all.deep_view() =~= values@.map_values(
        |v: serde_json::Value| json::value_contents(v),
    ));
    all
}

impl MyHandler {
    /// Asks for the actions that a diagnostic suggests.
    pub fn code_get_actions_for_diagnostic(
        &self,
        args: &GetActionsArgs,
        current_dir: &str,
    ) -> (call: Result<ToolCall, ToolError>)
        ensures
            errors::outcome(call) == actions_call(
                asked_file(self.lsp_available, args.diagnostic_object.path@, current_dir@),
                args.diagnostic_object.diagnostic@,
            ),
            call matches Ok(call) ==> is_about(call, args.diagnostic_object.path@, current_dir@)
                && call.request.method@ == "textDocument/codeAction"@ && protocol::names_document(
                call.request.params@,
                call.uri@,
            ),
    {
        match self.ask_about(args.diagnostic_object.path.as_str(), current_dir) {
            Ok((path, uri)) => {
                let diagnostic = &args.diagnostic_object.diagnostic;
                if !diagnostic.texts_within(MAX_URI_BYTES) {
                    return Err(ToolError::TooLong);
                }
                let range = match diagnostic.get("range") {
                    Some(range) => range_from(range),
                    None => Range::origin(),
                };
                match keep_diagnostic(&diagnostic.to_value()) {
                    Some(kept) => {
                        let request = LspRequest::code_action(
                            uri.as_str(),
                            range,
                            Json::from_value(&kept),
                        );
                        proof {
                            protocol::a_document_is_asked_about_by_its_name(
                                uri@,
                                range,
                                json::value_contents(kept),
                            );
                        }
                        Ok(ToolCall { path, uri, request })
                    },
                    None => Err(ToolError::NotADiagnostic),
                }
            },
            Err(error) => Err(error),
        }
    }

    /// Tells which actions a diagnostic suggests.
    pub fn code_get_actions_for_diagnostic_reply(reply: Result<Json, String>) -> (text: Result<
        String,
        ToolError,
    >)
        ensures
            match text {
                Ok(text) => actions_told(errors::reply_view(reply)) matches Ok(kept) && (
                json::is_readable(kept) ==> json::parsed_json(encode_utf8(text@)) == Some(kept)),
                Err(error) => actions_told(errors::reply_view(reply)) == Err::<
                    JsonView,
                    ToolErrorView,
                >(error.deep_view()),
            },
    {
        match reply {
            Ok(actions) => {
                if !actions.texts_within(MAX_URI_BYTES) {
                    return Err(ToolError::TooLong);
                }
                match write_actions(&actions.to_value()) {
                    Ok(text) => Ok(text),
                    Err(message) => Err(ToolError::Internal(message)),
                }
            },
            Err(message) => Err(ToolError::Internal(message)),
        }
    }

    /// Says what there is to do for an action.
    pub fn code_apply_action(&self, args: &ApplyActionArgs) -> (step: Result<ActionStep, ToolError>)
        ensures
            is_action_step(
                errors::outcome(step),
                self.lsp_available,
                args.action_object.title@,
                args.action_object.edit.deep_view(),
                args.action_object.command.deep_view(),
            ),
    {
        if !self.lsp_available {
            return Err(ToolError::unavailable());
        }
        let action = &args.action_object;
        if let Some(edit) = &action.edit {
            return match edit_to_make(edit) {
                Ok(plan) => Ok(ActionStep::Edit(plan)),
                Err(EditError::NotAnEdit(message)) => Err(ToolError::NotAnEdit(message)),
                Err(EditError::TooLong) => Err(ToolError::TooLong),
            };
        }
        if let Some(command) = &action.command {
            return match keep_command(command.to_value()) {
                Some((name, arguments)) => {
                    let arguments: Vec<Json> = match arguments {
                        Some(arguments) => all_from_values(&arguments),
                        None => Vec::new(),
                    };
                    assert(arguments.deep_view() =~= match (kept_command(command@)->0).1 {
                        Some(arguments) => arguments,
                        None => Seq::empty(),
                    });
                    Ok(ActionStep::Execute(LspRequest::execute_command(name.as_str(), arguments)))
                },
                None => Err(ToolError::NotACommand),
            };
        }
        let mut text = "Action '".to_owned();
        text.append(action.title.as_str());
        text.append("' has no edit or command to apply.");
        Ok(ActionStep::Done(text))
    }

    /// Says what came of the edit of an action.
    pub fn code_apply_action_edited(title: &str, applied: Result<(), String>) -> (text: Result<
        String,
        ToolError,
    >)
        ensures
            errors::outcome(text) == (match applied {
                Ok(_) => Ok("Applied edit for action '"@ + title@ + "'."@),
                Err(message) => Err(ToolErrorView::Internal(message@)),
            }),
    {
        match applied {
            Ok(_) => {
                let mut text = "Applied edit for action '".to_owned();
                text.append(title);
                text.append("'.");
                Ok(text)
            },
            Err(message) => Err(ToolError::Internal(message)),
        }
    }

    /// Says what came of the command of an action.
    pub fn code_apply_action_executed(title: &str, reply: Result<Json, String>) -> (text: Result<
        String,
        ToolError,
    >)
        ensures
            errors::outcome(text) == (match reply {
                Ok(result) => match shown_result(result@) {
                    Ok(shown) => Ok(
                        "Executed command for action '"@ + title@ + "': "@ + shown,
                    ),
                    Err(message) => Err(ToolErrorView::Internal(message)),
                },
                Err(message) => Err(ToolErrorView::Internal(message@)),
            }),
    {
        match reply {
            Ok(result) => match show_result(result.to_value()) {
                Ok(shown) => {
                    let mut text = "Executed command for action '".to_owned();
                    text.append(title);
                    text.append("': ");
                    text.append(shown.as_str());
                    Ok(text)
                },
                Err(message) => Err(ToolError::Internal(message)),
            },
            Err(message) => Err(ToolError::Internal(message)),
        }
    }
}

/// The places that are told are as many as the locations that were answered, and each is where its
/// location starts, in the file of its URI. Where one of the URIs stands for no file, the first of those
/// is the error, and nothing is told.
pub proof fn places_are_told_where_locations_start(locations: Seq<SourceLocationView>)
    ensures
        match told_places(Ok(Some(locations))) {
            Ok(places) => places.len() == locations.len() && forall|i: int|
                0 <= i < places.len() ==> (#[trigger] places[i]).line == locations[i].range.start.line
                    && places[i].character == locations[i].range.start.character && uri::url_path(
                    locations[i].uri,
                ) == Some(places[i].path) && places[i].hover_info is None,
            Err(error) => exists|i: int|
                0 <= i < locations.len() && uri::url_path((#[trigger] locations[i]).uri) is None
                    && error == ToolErrorView::NotAFile(locations[i].uri) && forall|j: int|
                    0 <= j < i ==> uri::url_path((#[trigger] locations[j]).uri) is Some,
        },
        told_places(Ok(None)) == Ok::<Seq<LocationView>, ToolErrorView>(Seq::empty()),
    decreases locations.len(),
{
    if locations.len() > 0 {
        let front = locations.drop_last();
        let last = locations.last();
        assert(locations[locations.len() - 1] == last);
        places_are_told_where_locations_start(front);
        match file_places(front) {
            Ok(before) => {
                assert forall|i: int| 0 <= i < front.len() implies uri::url_path(
                    (#[trigger] locations[i]).uri,
                ) is Some by {
                    assert(front[i] == locations[i]);
                    assert(uri::url_path(front[i].uri) == Some(before[i].path));
                }
                if uri::url_path(last.uri) is Some {
                    let places = file_places(locations)->Ok_0;
                    assert forall|i: int| 0 <= i < places.len() implies (
                    #[trigger] places[i]).line == locations[i].range.start.line
                        && places[i].character == locations[i].range.start.character
                        && uri::url_path(locations[i].uri) == Some(places[i].path)
                        && places[i].hover_info is None by {
                        if i < before.len() {
                            assert(places[i] == before[i]);
                            assert(front[i] == locations[i]);
                        }
                    }
                }
            },
            Err(error) => {
                let i = choose|i: int|
                    0 <= i < front.len() && uri::url_path((#[trigger] front[i]).uri) is None
                        && error == ToolErrorView::NotAFile(front[i].uri) && forall|j: int|
                        0 <= j < i ==> uri::url_path((#[trigger] front[j]).uri) is Some;
                assert(locations[i] == front[i]);
                assert forall|j: int| 0 <= j < i implies uri::url_path(
                    (#[trigger] locations[j]).uri,
                ) is Some by {
                    assert(front[j] == locations[j]);
                }
            },
        }
    }
}

/// A tool asks about the file as it is named where its path is absolute, else about the path from the
/// current directory; by the URI of that path, where there is one. It asks nothing without a server.
pub proof fn a_tool_asks_about_the_named_file(path: Seq<char>, current_dir: Seq<char>)
    ensures
        asked_file(false, path, current_dir) == Err::<(Seq<char>, Seq<char>), ToolErrorView>(
            ToolErrorView::Internal("LSP not available"@),
        ),
        ({
            let full = if uri::absolute_path(path) {
                path
            } else {
                uri::joined_path(current_dir, path)
            };
            match uri::path_url(full) {
                Some(url) => if uri::uri_syntax(url) && encode_utf8(url).len() <= 0x7fff_ffff {
                    asked_file(true, path, current_dir) is Ok
                } else {
                    asked_file(true, path, current_dir) == Err::<
                        (Seq<char>, Seq<char>),
                        ToolErrorView,
                    >(ToolErrorView::NotAFile(full))
                },
                None => asked_file(true, path, current_dir) == Err::<
                    (Seq<char>, Seq<char>),
                    ToolErrorView,
                >(ToolErrorView::NotAFile(full)),
            }
        }),
        asked_file(true, path, current_dir) matches Ok((full, uri)) ==> full == (
        if uri::absolute_path(path) {
            path
        } else {
            uri::joined_path(current_dir, path)
        }) && uri::path_url(full) == Some(uri),
{
}

/// A rename takes the place that the hint gives, and else the start of the file.
pub proof fn a_rename_is_asked_at_the_hint(hint: Position)
    ensures
        rename_position(Some(hint)).line == hint.line,
        rename_position(Some(hint)).character == hint.character,
        rename_position(None).line == 0,
        rename_position(None).character == 0,
{
}

/// What the server answers to a rename is carried out as it is written: where the answer is a change whose
/// files all exist as files, there is a plan without an error, with one action for each file that has
/// edits, which makes just the listed ones, and one for each change to a document.
pub proof fn a_rename_is_carried_out_as_answered(
    step: Result<RenameStepView, ToolErrorView>,
    answer: JsonView,
    kept: JsonView,
)
    requires
        is_rename_step(step, Ok(answer)),
        !(answer is Null),
        json::texts_within(answer, uri::uri_bytes()),
        changes::kept_edit(answer) == Ok::<JsonView, Seq<char>>(kept),
        forall|uri: Seq<char>| #[trigger]
            changes::listed_files(kept).dom().contains(uri) ==> uri::parsed_url(uri) is Ok
                && uri::url_path(uri) is Some,
        changes::listed_steps(kept).len() == 0,
    ensures
        step matches Ok(RenameStepView::Edit(plan)) && plan.error is None && (forall|k: int|
            0 <= k < plan.actions.len() ==> changes::edits_a_file_of(
                #[trigger] plan.actions[k],
                changes::listed_files(kept),
            )) && (forall|uri: Seq<char>| #[trigger]
            changes::listed_files(kept).dom().contains(uri) ==> exists|k: int|
                0 <= k < plan.actions.len() && (#[trigger] plan.actions[k])->Edit_uri == uri),
{
    changes::a_change_is_planned_as_it_is_written((step->Ok_0)->Edit_0, kept);
}

/// What there is to do for an action: the change that it has, as that is written; else the command that it
/// has, with the name and the arguments that are kept of it; else nothing. Nothing without a server.
pub proof fn an_action_is_carried_out_as_it_is_written(
    step: Result<ActionStepView, ToolErrorView>,
    title: Seq<char>,
    edit: JsonView,
    command: JsonView,
    other: Option<JsonView>,
)
    ensures
        is_action_step(step, false, title, Some(edit), other) ==> step is Err,
        is_action_step(step, true, title, Some(edit), other) && json::texts_within(
            edit,
            uri::uri_bytes(),
        ) && changes::kept_edit(edit) is Ok ==> (step matches Ok(ActionStepView::Edit(plan))
            && changes::is_planned(plan, changes::kept_edit(edit)->Ok_0)),
        is_action_step(step, true, title, None, Some(command)) ==> match kept_command(command) {
            Some((name, arguments)) => step matches Ok(ActionStepView::Execute(request))
                && request.method == "workspace/executeCommand"@ && changes::gives_text(
                request.params,
                "command"@,
                name,
            ) && json::json_member(request.params, "arguments"@) == Some(
                JsonView::Array(
                    match arguments {
                        Some(arguments) => arguments,
                        None => Seq::empty(),
                    },
                ),
            ),
            None => step is Err,
        },
        is_action_step(step, true, title, None, None) ==> step is Ok && !(step->Ok_0 is Edit) && !(
        step->Ok_0 is Execute),
{
    reveal_strlit("command");
    reveal_strlit("arguments");
    assert("command"@[0] != "arguments"@[0]);
}

/// The actions for a diagnostic are asked for in its file, over the range that it spells, and with the
/// diagnostic itself.
pub proof fn actions_are_asked_for_the_range_of_a_diagnostic(
    path: Seq<char>,
    uri: Seq<char>,
    diagnostic: JsonView,
    range: Range,
    kept: JsonView,
)
    requires
        diagnostic matches JsonView::Object(members) && members.dom().contains("range"@)
            && diagnostics::spells_range(members["range"@], range),
        json::texts_within(diagnostic, uri::uri_bytes()),
        kept_diagnostic(diagnostic) == Some(kept),
    ensures
        actions_call(Ok((path, uri)), diagnostic) matches Ok(call) && call.path == path && call.uri
            == uri && call.request == protocol::code_action_request(uri, range, kept),
{
}

/// What an action without an edit and without a command comes to is said with its title, and a rename that
/// changes nothing is said to.
pub proof fn nothing_to_do_is_said(
    title: Seq<char>,
    action: Result<ActionStepView, ToolErrorView>,
    rename: Result<RenameStepView, ToolErrorView>,
    message: Seq<char>,
)
    ensures
        is_action_step(action, true, title, None, None) ==> (action matches Ok(
            ActionStepView::Done(said),
        ) && said == "Action '"@ + title + "' has no edit or command to apply."@),
        is_rename_step(rename, Ok(JsonView::Null)) ==> (rename matches Ok(
            RenameStepView::Done(said),
        ) && said == "LSP returned no edits for rename"@),
        is_rename_step(rename, Err(message)) ==> (rename matches Err(
            ToolErrorView::Internal(said),
        ) && said == message),
        told_places(Err(message)) == Err::<Seq<LocationView>, ToolErrorView>(
            ToolErrorView::Internal(message),
        ),
        actions_told(Err(message)) == Err::<JsonView, ToolErrorView>(
            ToolErrorView::Internal(message),
        ),
{
}

/// A diagnostic without a range is asked about at the start of its file.
pub proof fn a_diagnostic_without_a_range_is_at_the_start(diagnostic: JsonView)
    requires
        json::json_member(diagnostic, "range"@) is None,
    ensures
        diagnostic_range(diagnostic).start.line == 0,
        diagnostic_range(diagnostic).start.character == 0,
        diagnostic_range(diagnostic).end.line == 0,
        diagnostic_range(diagnostic).end.character == 0,
{
}

/// What is said of a rename that was made says so.
pub proof fn a_rename_that_was_made_is_said_to_be()
    ensures
        changes::gives_text(rename_applied(), "status"@, "Applied"@),
        changes::gives_text(rename_applied(), "message"@, "Rename successful."@),
{
    reveal_strlit("status");
    reveal_strlit("message");
    assert("status"@.len() != "message"@.len());
}

/// Calls and steps are seen as they are.
pub proof fn calls_and_steps_are_seen_as_they_are(
    call: ToolCall,
    plan: EditPlan,
    request: LspRequest,
    text: String,
)
    ensures
        call.deep_view().path == call.path@,
        call.deep_view().uri == call.uri@,
        call.deep_view().request == call.request@,
        RenameStep::Edit(plan).deep_view() == RenameStepView::Edit(plan.deep_view()),
        RenameStep::Done(text).deep_view() == RenameStepView::Done(text@),
        ActionStep::Edit(plan).deep_view() == ActionStepView::Edit(plan.deep_view()),
        ActionStep::Execute(request).deep_view() == ActionStepView::Execute(request@),
        ActionStep::Done(text).deep_view() == ActionStepView::Done(text@),
{
}

/// A call about a file carries its path and its URI, and asks about that URI; where the file cannot be
/// asked about, nothing is asked.
pub proof fn a_call_is_about_what_is_asked(
    path: Seq<char>,
    uri: Seq<char>,
    error: ToolErrorView,
    request: spec_fn(Seq<char>) -> LspRequestView,
)
    ensures
        call_about(Ok((path, uri)), request) matches Ok(call) && call.path == path && call.uri == uri
            && call.request == request(uri),
        call_about(Err(error), request) == Err::<ToolCallView, ToolErrorView>(error),
        actions_call(Err(error), JsonView::Null) == Err::<ToolCallView, ToolErrorView>(error),
{
}

/// The actions that are told of are those that are kept of the answer; where it is no list of actions, why
/// is told, and where a text in it is too long for a URI, that.
pub proof fn the_actions_kept_are_told(actions: JsonView, diagnostic: JsonView)
    ensures
        !json::texts_within(actions, 0x7fff_ffff) ==> actions_told(Ok(actions)) == Err::<
            JsonView,
            ToolErrorView,
        >(ToolErrorView::TooLong),
        json::texts_within(actions, 0x7fff_ffff) ==> match kept_actions(actions) {
            Ok(kept) => actions_told(Ok(actions)) == Ok::<JsonView, ToolErrorView>(kept),
            Err(why) => actions_told(Ok(actions)) == Err::<JsonView, ToolErrorView>(
                ToolErrorView::Internal(why),
            ),
        },
        !json::texts_within(diagnostic, 0x7fff_ffff) ==> actions_call(
            Ok((Seq::empty(), Seq::empty())),
            diagnostic,
        ) == Err::<ToolCallView, ToolErrorView>(ToolErrorView::TooLong),
        json::texts_within(diagnostic, 0x7fff_ffff) && kept_diagnostic(diagnostic) is None
            ==> actions_call(Ok((Seq::empty(), Seq::empty())), diagnostic) == Err::<
            ToolCallView,
            ToolErrorView,
        >(ToolErrorView::NotADiagnostic),
{
}

/// A suggestion is seen as it is, field by field.
pub proof fn a_suggestion_is_seen_as_it_is(entry: CompletionEntry, link: LocationLink)
    ensures
        entry.deep_view().label == entry.label@,
        entry.deep_view().kind is Some <==> entry.kind is Some,
        entry.kind matches Some(kind) ==> entry.deep_view().kind == Some(
            completion_kind_text(kind),
        ),
        entry.deep_view().detail == entry.detail.deep_view(),
        entry.deep_view().documentation is Some <==> entry.documentation is Some,
        entry.documentation matches Some(Documentation::Text(text)) ==> entry.deep_view().documentation
            == Some(text@),
        entry.documentation matches Some(Documentation::Markup(text)) ==> entry.deep_view().documentation
            == Some(text@),
        entry.deep_view().sort_text == entry.sort_text.deep_view(),
        entry.deep_view().filter_text == entry.filter_text.deep_view(),
        entry.deep_view().insert_text == entry.insert_text.deep_view(),
        link.deep_view().uri == link.target_uri@,
        link.deep_view().range == link.target_range,
{
}

} // verus!
