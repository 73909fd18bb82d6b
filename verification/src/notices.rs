//! Diagnostics that the language server publishes, on their way to the client.
use crate::changes;
use crate::diagnostics;
use crate::diagnostics::can_enrich;
use crate::errors;
use crate::errors::{ToolError, ToolErrorView};
use crate::handler::MyHandler;
use crate::json;
use crate::json::{Json, JsonView};
use crate::models::Range;
use crate::protocol;
use crate::protocol::LspRequest;
use crate::symbols;
use crate::symbols::{
    flatten, DocumentSymbolResponse, DocumentSymbolResponseView, SymbolInformationView,
};
use crate::text;
use crate::text::{lines, same_text};
use crate::uri;
use crate::uri::{is_uri, path_of_uri};
use vstd::prelude::*;

verus! {

/// The parameters of a message, where it publishes diagnostics and has parameters.
pub open spec fn published(message: JsonView) -> Option<JsonView> {
    match json::json_member(message, "method"@) {
        Some(method) => if json::json_text(method) == Some("textDocument/publishDiagnostics"@) {
            json::json_member(message, "params"@)
        } else {
            None
        },
        None => None,
    }
}

/// The document that the parameters are about, and its path, where they name one, list diagnostics,
/// and the document is a file.
pub open spec fn published_file(params: JsonView) -> Option<(Seq<char>, Seq<char>)> {
    match (
        json::json_member(params, "uri"@),
        json::json_member(params, "diagnostics"@),
    ) {
        (Some(JsonView::Text(uri)), Some(JsonView::Array(_))) => match uri::url_path(uri) {
            Some(path) => Some((uri, path)),
            None => None,
        },
        _ => None,
    }
}

/// The diagnostics in the parameters.
pub open spec fn published_list(params: JsonView) -> Seq<JsonView> {
    match json::json_member(params, "diagnostics"@) {
        Some(JsonView::Array(diagnostics)) => diagnostics,
        _ => Seq::empty(),
    }
}

/// The names and ranges of the symbols of a document, as far as the server told them.
pub open spec fn known_ranges(
    response: Option<DocumentSymbolResponseView>,
) -> Seq<(Seq<char>, Range)> {
    match response {
        Some(DocumentSymbolResponseView::Flat(symbols)) => symbols.map_values(
            |symbol: SymbolInformationView| (symbol.name, symbol.location.range),
        ),
        Some(DocumentSymbolResponseView::Nested(symbols)) => symbols::symbol_ranges(symbols),
        None => Seq::empty(),
    }
}

/// Whether all the diagnostics in the parameters can be enriched.
pub open spec fn all_enrichable(
    params: JsonView,
    content: Seq<char>,
    response: Option<DocumentSymbolResponseView>,
) -> bool {
    forall|i: int|
        0 <= i < published_list(params).len() ==> diagnostics::enrichable(
            #[trigger] published_list(params)[i],
            text::lines_of(content),
            known_ranges(response),
        )
}

/// The parameters with all their diagnostics enriched.
pub open spec fn enriched_params(
    params: JsonView,
    content: Seq<char>,
    response: Option<DocumentSymbolResponseView>,
    path: Seq<char>,
) -> JsonView {
    json::json_with_member(
        params,
        "diagnostics"@,
        JsonView::Array(
            published_list(params).map_values(
                |diagnostic: JsonView|
                    diagnostics::enriched(
                        diagnostic,
                        text::lines_of(content),
                        known_ranges(response),
                        path,
                    ),
            ),
        ),
    )
}

fn ranges_of(response: &Option<DocumentSymbolResponse>) -> (ranges: Vec<(String, Range)>)
    ensures
        ranges.deep_view() == known_ranges(response.deep_view()),
{
    let mut ranges: Vec<(String, Range)> = Vec::new();
    assert(ranges.deep_view() =~= Seq::empty());
    match response {
        Some(DocumentSymbolResponse::Flat(symbols)) => {
            let mut i: usize = 0;
            while i < symbols.len()
                invariant
                    i <= symbols@.len(),
                    ranges@.len() == i,
                    forall|k: int|
                        0 <= k < i ==> (#[trigger] ranges@[k]).deep_view() == (
                            symbols@[k].name@,
                            symbols@[k].location.range,
                        ),
                decreases symbols@.len() - i,
            {
                ranges.push((symbols[i].name.clone(), symbols[i].location.range));
                i += 1;
            }
            assert(ranges.deep_view() =~= known_ranges(response.deep_view()));
        },
        Some(DocumentSymbolResponse::Nested(symbols)) => {
            flatten(symbols, &mut ranges);
            assert(ranges.deep_view() =~= known_ranges(response.deep_view()));
        },
        None => {},
    }
    ranges
}

/// What a client is told of published parameters.
pub open spec fn told_to_client(subscribed: bool, params: JsonView) -> Option<
    (Seq<char>, JsonView),
> {
    if subscribed {
        Some(
            (
                "notifications/diagnostics"@,
                if params is Object {
                    params
                } else {
                    JsonView::Object(Map::empty())
                },
            ),
        )
    } else {
        None
    }
}

/// Diagnostics that the server publishes.
#[derive(Debug)]
pub struct DiagnosticsNotice {
    params: Json,
}

impl View for DiagnosticsNotice {
    type V = JsonView;

    closed spec fn view(&self) -> JsonView {
        self.params@
    }
}

impl DiagnosticsNotice {
    /// Takes a message of the server. `None` where it publishes no diagnostics.
    pub fn read(message: &Json) -> (notice: Option<DiagnosticsNotice>)
        ensures
            match notice {
                Some(notice) => published(message@) == Some(notice@),
                None => published(message@) is None,
            },
    {
        let method = match message.get("method") {
            Some(method) => method,
            None => {
                return None;
            },
        };
        let named = match method.as_text() {
            Some(name) => same_text(name, "textDocument/publishDiagnostics"),
            None => false,
        };
        if !named {
            return None;
        }
        match message.get("params") {
            Some(params) => Some(DiagnosticsNotice { params: params.copy() }),
            None => None,
        }
    }

    /// The document that the diagnostics are about, and its path. `None` where there is nothing to
    /// enrich.
    pub fn file(&self) -> (file: Option<(String, String)>)
        ensures
            file.deep_view() == published_file(self@),
    {
        let uri = match self.params.get("uri") {
            Some(Json::Text(uri)) => uri.as_str(),
            _ => {
                return None;
            },
        };
        match self.params.get("diagnostics") {
            Some(Json::Array(_)) => {},
            _ => {
                return None;
            },
        }
        match path_of_uri(uri) {
            Some(path) => Some((uri.to_owned(), path)),
            None => None,
        }
    }

    /// What to ask the server about the document; nothing where there is no server.
    pub fn symbols_request(handler: &MyHandler, uri: &str) -> (request: Result<
        Option<LspRequest>,
        ToolError,
    >)
        ensures
            errors::outcome(request) == (if !handler.lsp_available {
                Ok(None)
            } else if uri::is_uri_text(uri@) {
                Ok(Some(protocol::document_symbol_request(uri@)))
            } else {
                Err(ToolErrorView::NotAFile(uri@))
            }),
    {
        if !handler.lsp_available {
            return Ok(None);
        }
        if is_uri(uri) {
            Ok(Some(LspRequest::document_symbol(uri)))
        } else {
            Err(ToolError::NotAFile(uri.to_owned()))
        }
    }

    /// Adds to each of the diagnostics what is known of its place in a file with that content. `false`,
    /// and nothing added, where one of them cannot be enriched.
    pub fn enrich(
        &mut self,
        content: &str,
        response: &Option<DocumentSymbolResponse>,
        path: &str,
    ) -> (enriched: bool)
        requires
            json::json_member(old(self)@, "diagnostics"@) matches Some(list) && list is Array,
        ensures
            enriched == all_enrichable(old(self)@, content@, response.deep_view()),
            final(self)@ == (if enriched {
                enriched_params(old(self)@, content@, response.deep_view(), path@)
            } else {
                old(self)@
            }),
    {
        let ghost params = self@;
        let mut list = copied_list(&self.params);
        let lines = lines(content);
        let ranges = ranges_of(response);
        let ghost listed = list.deep_view();
        let mut i: usize = 0;
        while i < list.len()
            invariant
                i <= list@.len(),
                listed == list.deep_view(),
                listed == published_list(params),
                params == self@,
                lines.deep_view() == text::lines_of(content@),
                ranges.deep_view() == known_ranges(response.deep_view()),
                forall|k: int|
                    0 <= k < i ==> diagnostics::enrichable(
                        #[trigger] listed[k],
                        text::lines_of(content@),
                        known_ranges(response.deep_view()),
                    ),
            decreases list@.len() - i,
        {
            assert(listed[i as int] == list@[i as int]@);
            if !can_enrich(&list[i], &lines, &ranges) {
                return false;
            }
            i += 1;
        }
        assert forall|k: int| 0 <= k < list@.len() implies diagnostics::enrichable(
            #[trigger] list@[k]@,
            lines.deep_view(),
            ranges.deep_view(),
        ) by {
            assert(listed[k] == list@[k]@);
        }
        MyHandler::enrich_diagnostics(&mut list, &lines, &ranges, path);
        assert(list.deep_view() =~= listed.map_values(
            |diagnostic: JsonView|
                diagnostics::enriched(
                    diagnostic,
                    text::lines_of(content@),
                    known_ranges(response.deep_view()),
                    path@,
                ),
        ));
        self.params.set("diagnostics", Json::array(list));
        true
    }

    /// What the client is told, where it wants to hear of diagnostics.
    pub fn forward(&self, handler: &MyHandler) -> (told: Option<(String, Json)>)
        ensures
            match told {
                Some((method, params)) => handler.subscribed_to_diagnostics && method@
                    == "notifications/diagnostics"@ && params@ == (if self@ is Object {
                    self@
                } else {
                    JsonView::Object(Map::empty())
                }),
                None => !handler.subscribed_to_diagnostics,
            },
            match told {
                Some((method, params)) => told_to_client(handler.subscribed_to_diagnostics, self@)
                    == Some((method@, params@)),
                None => told_to_client(handler.subscribed_to_diagnostics, self@) is None,
            },
    {
        if !handler.subscribed_to_diagnostics {
            return None;
        }
        let params = match &self.params {
            Json::Object(_) => self.params.copy(),
            _ => Json::object(),
        };
        Some(("notifications/diagnostics".to_owned(), params))
    }
}

/// The diagnostics in the parameters.
fn copied_list(params: &Json) -> (list: Vec<Json>)
    ensures
        list.deep_view() == published_list(params@),
{
    let mut list: Vec<Json> = Vec::new();
    assert(list.deep_view() =~= Seq::empty());
    match params.get("diagnostics") {
        Some(Json::Array(items)) => {
            proof {
                json::lemma_items_view(items@);
            }
            let mut i: usize = 0;
            while i < items.len()
                invariant
                    i <= items@.len(),
                    list@.len() == i,
                    forall|k: int| 0 <= k < i ==> (#[trigger] list@[k])@ == items@[k]@,
                decreases items@.len() - i,
            {
                list.push(items[i].copy());
                i += 1;
            }
            assert(list.deep_view() =~= json::items_view(items@));
        },
        _ => {},
    }
    list
}

/// A message publishes diagnostics where its method is the one for that, and what it publishes are its
/// parameters.
pub proof fn a_message_publishes_by_its_method(message: JsonView, params: JsonView)
    ensures
        published(message) == Some(params) <==> changes::gives_text(
            message,
            "method"@,
            "textDocument/publishDiagnostics"@,
        ) && json::json_member(message, "params"@) == Some(params),
{
}

/// The document that diagnostics are about is the one that the parameters name, where they list
/// diagnostics, and its path is the one that the name stands for.
pub proof fn diagnostics_are_about_the_named_document(
    params: JsonView,
    uri: Seq<char>,
    path: Seq<char>,
)
    ensures
        published_file(params) == Some((uri, path)) <==> {
            &&& changes::gives_text(params, "uri"@, uri)
            &&& json::json_member(params, "diagnostics"@) matches Some(JsonView::Array(_))
            &&& uri::url_path(uri) == Some(path)
        },
{
}

/// The symbols of a plain list are known by their names and whole ranges, one for one.
pub proof fn listed_symbols_are_known_by_their_ranges(symbols: Seq<SymbolInformationView>)
    ensures
        ({
            let ranges = known_ranges(Some(DocumentSymbolResponseView::Flat(symbols)));
            &&& ranges.len() == symbols.len()
            &&& forall|i: int|
                0 <= i < symbols.len() ==> (#[trigger] ranges[i]).0 == symbols[i].name
                    && ranges[i].1.start == symbols[i].location.range.start && ranges[i].1.end
                    == symbols[i].location.range.end
        }),
        known_ranges(None).len() == 0,
{
}

/// Enriched parameters list as many diagnostics as before, each told its own place; the other members of
/// the parameters, and of each diagnostic but what it is told, stay as they are. They can be enriched where
/// each diagnostic can be.
pub proof fn each_diagnostic_is_told_its_own_place(
    params: JsonView,
    list: Seq<JsonView>,
    content: Seq<char>,
    response: Option<DocumentSymbolResponseView>,
    path: Seq<char>,
    i: int,
    range: Range,
)
    requires
        json::json_member(params, "diagnostics"@) == Some(JsonView::Array(list)),
        forall|k: int|
            0 <= k < list.len() ==> diagnostics::enrichable(
                #[trigger] list[k],
                text::lines_of(content),
                known_ranges(response),
            ),
        0 <= i < list.len(),
        list[i] matches JsonView::Object(members) && members.dom().contains("range"@)
            && diagnostics::spells_range(members["range"@], range),
    ensures
        all_enrichable(params, content, response),
        json::json_member(enriched_params(params, content, response, path), "diagnostics"@) matches Some(
            JsonView::Array(told),
        ) && told.len() == list.len() && ({
            let ranges = known_ranges(response);
            &&& changes::gives_text(told[i], "path"@, path)
            &&& range.start.line < text::lines_of(content).len() ==> changes::gives_text(
                told[i],
                "line_content"@,
                text::lines_of(content)[range.start.line as int],
            )
            &&& range.start.line < text::lines_of(content).len() ==> forall|at: int| #[trigger]
                diagnostics::is_first_around(ranges, at, range) ==> changes::gives_text(
                    told[i],
                    "symbol_name"@,
                    ranges[at].0,
                )
            &&& json::json_member(told[i], "range"@) == json::json_member(list[i], "range"@)
            &&& json::json_member(told[i], "message"@) == json::json_member(list[i], "message"@)
        }),
        json::json_member(enriched_params(params, content, response, path), "uri"@)
            == json::json_member(params, "uri"@),
{
    let diagnostic = list[i];
    let lines = text::lines_of(content);
    let ranges = known_ranges(response);
    assert(published_list(params) == list);
    assert(diagnostics::enrichable(list[i], lines, ranges));
    diagnostics::a_diagnostic_is_told_its_place(diagnostic, lines, ranges, path, range);
    reveal_strlit("diagnostics");
    reveal_strlit("uri");
    assert("diagnostics"@.len() != "uri"@.len());
    reveal_strlit("line_content");
    reveal_strlit("symbol_name");
    reveal_strlit("symbol_name_source");
    reveal_strlit("path");
    reveal_strlit("range");
    reveal_strlit("message");
    assert("range"@.len() == 5 && "message"@.len() == 7 && "path"@.len() == 4);
    assert("line_content"@.len() == 12 && "symbol_name"@.len() == 11
        && "symbol_name_source"@.len() == 18);
    diagnostics::enriching_keeps_the_rest(diagnostic, lines, ranges, path, "range"@);
    diagnostics::enriching_keeps_the_rest(diagnostic, lines, ranges, path, "message"@);
    let told = enriched_params(params, content, response, path);
    assert(json::json_member(told, "diagnostics"@) matches Some(JsonView::Array(told)) && told[i]
        == diagnostics::enriched(diagnostic, lines, ranges, path));
    assert forall|at: int| range.start.line < lines.len() && #[trigger]
        diagnostics::is_first_around(ranges, at, range) implies changes::gives_text(
        diagnostics::enriched(diagnostic, lines, ranges, path),
        "symbol_name"@,
        ranges[at].0,
    ) by {
        assert(diagnostics::lies_in(range, ranges[at].1));
    }
}

/// Parameters with a diagnostic that cannot be enriched cannot be enriched.
pub proof fn one_bad_diagnostic_spoils_the_list(
    params: JsonView,
    list: Seq<JsonView>,
    content: Seq<char>,
    response: Option<DocumentSymbolResponseView>,
    i: int,
)
    requires
        json::json_member(params, "diagnostics"@) == Some(JsonView::Array(list)),
        0 <= i < list.len(),
        !diagnostics::enrichable(list[i], text::lines_of(content), known_ranges(response)),
    ensures
        !all_enrichable(params, content, response),
{
    assert(published_list(params) == list);
}

/// Only a client that wants to hear of diagnostics is told of them, and it is told the parameters as they
/// are; an empty object stands for parameters that are none.
pub proof fn only_subscribers_are_told(params: JsonView)
    ensures
        told_to_client(false, params) is None,
        told_to_client(true, params) matches Some((method, told)) && method
            == "notifications/diagnostics"@ && (params is Object ==> told == params) && (!(
        params is Object) ==> told == JsonView::Object(Map::empty())),
{
}

} // verus!
