//! How a symbol is found: which requests are made, and what is made of their answers.
use crate::args::{FindSymbolArgs, FindSymbolArgsView};
use crate::changes;
use crate::errors::{ToolError, ToolErrorView};
use crate::handler::MyHandler;
use crate::models::{Location, LocationView, Position};
use crate::protocol;
use crate::protocol::{LspRequest, LspRequestView};
use crate::symbols;
use crate::symbols::{
    DocumentSymbolResponse, DocumentSymbolResponseView, DocumentSymbolView, SourceLocation,
    SourceLocationView, SymbolInformation, SymbolInformationView, SymbolPlace, SymbolPlaceView,
    WorkspaceSymbol, WorkspaceSymbolResponse, WorkspaceSymbolResponseView, WorkspaceSymbolView,
};
use crate::text;
use crate::text::{contains, same_text};
use crate::uri;
use crate::uri::{parse_url, path_of_uri, MAX_URI_BYTES};
use vstd::prelude::*;
use vstd::utf8::encode_utf8;

verus! {

/// The documents of the symbols that have the hint in their URIs, in order, each once.
pub open spec fn candidate_files(
    hint: Seq<char>,
    symbols: Seq<SymbolInformationView>,
) -> Seq<Seq<char>>
    decreases symbols.len(),
{
    if symbols.len() == 0 {
        Seq::empty()
    } else {
        let before = candidate_files(hint, symbols.drop_last());
        let uri = symbols.last().location.uri;
        if text::contains_text(uri, hint) && !before.contains(uri) {
            before.push(uri)
        } else {
            before
        }
    }
}

/// The documents that the hint may mean, if the server answers with a plain list of symbols.
pub open spec fn hinted_files(
    hint: Seq<char>,
    answer: Option<WorkspaceSymbolResponseView>,
) -> Seq<Seq<char>> {
    match answer {
        Some(WorkspaceSymbolResponseView::Flat(symbols)) => candidate_files(hint, symbols),
        _ => Seq::empty(),
    }
}

/// An integer of 32 bits without sign, taken for one with sign.
pub open spec fn signed(n: u32) -> int {
    if n < 0x8000_0000 {
        n as int
    } else {
        n - 0x1_0000_0000
    }
}

/// How far one number is from another.
pub open spec fn gap(a: u32, b: u32) -> int {
    if signed(a) < signed(b) {
        signed(b) - signed(a)
    } else {
        signed(a) - signed(b)
    }
}

/// How far a position is from another: a line counts a thousand characters. The distance must fit in
/// an integer of 32 bits with sign, and so must its parts.
pub open spec fn distance(a: Position, b: Position) -> Option<int> {
    let lines = gap(a.line, b.line);
    let characters = gap(a.character, b.character);
    if lines * 1000 + characters <= i32::MAX {
        Some(lines * 1000 + characters)
    } else {
        None
    }
}

/// How far a symbol is from a position. A symbol that is just in a document is as far as can be.
pub open spec fn symbol_distance(symbol: WorkspaceSymbolView, hint: Position) -> Option<int> {
    match symbol.place {
        SymbolPlaceView::Located(location) => distance(location.range.start, hint),
        SymbolPlaceView::Document(_) => Some(i32::MAX as int),
    }
}

/// Whether the distances of all the symbols are known.
pub open spec fn all_near(symbols: Seq<WorkspaceSymbolView>, hint: Position) -> bool {
    forall|i: int|
        0 <= i < symbols.len() ==> symbol_distance(#[trigger] symbols[i], hint) is Some
}

/// The symbols with one more, behind those that are not farther.
pub open spec fn with_symbol(
    symbols: Seq<WorkspaceSymbolView>,
    symbol: WorkspaceSymbolView,
    hint: Position,
) -> Seq<WorkspaceSymbolView>
    decreases symbols.len(),
{
    if symbols.len() > 0 && symbol_distance(symbols.last(), hint)->0 > symbol_distance(
        symbol,
        hint,
    )->0 {
        with_symbol(symbols.drop_last(), symbol, hint).push(symbols.last())
    } else {
        symbols.push(symbol)
    }
}

/// The symbols from the nearest to the farthest. Those at the same distance keep their order.
pub open spec fn nearest_first(
    symbols: Seq<WorkspaceSymbolView>,
    hint: Position,
) -> Seq<WorkspaceSymbolView>
    decreases symbols.len(),
{
    if symbols.len() == 0 {
        Seq::empty()
    } else {
        with_symbol(nearest_first(symbols.drop_last(), hint), symbols.last(), hint)
    }
}

/// Whether a URI is among those.
fn is_among(uris: &Vec<String>, uri: &str) -> (found: bool)
    ensures
        found == uris.deep_view().contains(uri@),
{
    let mut i: usize = 0;
    while i < uris.len()
        invariant
            i <= uris@.len(),
            forall|j: int| 0 <= j < i ==> #[trigger] uris@[j]@ != uri@,
        decreases uris@.len() - i,
    {
        if same_text(uris[i].as_str(), uri) {
            assert(uris.deep_view()[i as int] == uri@);
            return true;
        }
        i += 1;
    }
    false
}

fn list_candidates(hint: &str, symbols: &Vec<SymbolInformation>) -> (uris: Vec<String>)
    ensures
        uris.deep_view() == candidate_files(hint@, symbols.deep_view()),
{
    let ghost views = symbols.deep_view();
    let mut uris: Vec<String> = Vec::new();
    let mut i: usize = 0;
    assert(uris.deep_view() =~= Seq::empty());
    while i < symbols.len()
        invariant
            i <= symbols@.len(),
            views == symbols.deep_view(),
            uris.deep_view() == candidate_files(hint@, views.take(i as int)),
        decreases symbols@.len() - i,
    {
        let ghost before = uris.deep_view();
        let uri = symbols[i].location.uri.as_str();
        assert(views.take(i + 1).drop_last() =~= views.take(i as int));
        assert(views.take(i + 1).last().location.uri == uri@);
        if contains(uri, hint) && !is_among(&uris, uri) {
            uris.push(uri.to_owned());
            assert(uris.deep_view() =~= before.push(uri@));
        }
        i += 1;
    }
    assert(views.take(i as int) =~= views);
    uris
}

fn signed_value(n: u32) -> (value: i64)
    ensures
        value == signed(n),
{
    if n < 0x8000_0000 {
        n as i64
    } else {
        n as i64 - 0x1_0000_0000
    }
}

fn gap_between(a: u32, b: u32) -> (value: i64)
    ensures
        value == gap(a, b),
        0 <= value <= u32::MAX,
{
    let a = signed_value(a);
    let b = signed_value(b);
    if a < b {
        b - a
    } else {
        a - b
    }
}

fn distance_of(symbol: &WorkspaceSymbol, hint: Position) -> (value: Option<i64>)
    ensures
        match value {
            Some(value) => symbol_distance(symbol.deep_view(), hint) == Some(value as int),
            None => symbol_distance(symbol.deep_view(), hint) is None,
        },
{
    match &symbol.place {
        SymbolPlace::Located(location) => {
            let lines = gap_between(location.range.start.line, hint.line);
            let characters = gap_between(location.range.start.character, hint.character);
            let value: i64 = lines * 1000 + characters;
            if value <= i32::MAX as i64 {
                Some(value)
            } else {
                None
            }
        },
        SymbolPlace::Document(_) => Some(i32::MAX as i64),
    }
}

fn insert_symbol(symbols: &mut Vec<WorkspaceSymbol>, symbol: WorkspaceSymbol, hint: Position)
    requires
        all_near(old(symbols).deep_view(), hint),
        symbol_distance(symbol.deep_view(), hint) is Some,
    ensures
        final(symbols).deep_view() == with_symbol(
            old(symbols).deep_view(),
            symbol.deep_view(),
            hint,
        ),
{
    let ghost before = symbols.deep_view();
    let ghost added = symbol.deep_view();
    let own = distance_of(&symbol, hint).unwrap();
    let mut at: usize = symbols.len();
    assert(before.take(at as int) =~= before);
    assert(before.skip(at as int) =~= Seq::empty());
    assert(with_symbol(before, added, hint) =~= with_symbol(before.take(at as int), added, hint)
        + before.skip(at as int));
    while at > 0
        invariant_except_break
            at <= symbols@.len(),
            before == symbols.deep_view(),
            all_near(before, hint),
            symbol_distance(added, hint) == Some(own as int),
            with_symbol(before, added, hint) == with_symbol(before.take(at as int), added, hint)
                + before.skip(at as int),
        ensures
            at <= symbols@.len(),
            with_symbol(before, added, hint) == before.take(at as int).push(added) + before.skip(
                at as int,
            ),
        decreases at,
    {
        assert(symbols@[at - 1].deep_view() == before[at - 1]);
        let other = distance_of(&symbols[at - 1], hint).unwrap();
        if other <= own {
            break;
        }
        proof {
            let front = before.take(at as int);
            assert(front.last() == before[at - 1]);
            assert(front.drop_last() =~= before.take(at - 1));
            assert(with_symbol(before.take(at - 1), added, hint).push(before[at - 1])
                + before.skip(at as int) =~= with_symbol(before.take(at - 1), added, hint)
                + before.skip(at - 1));
        }
        at -= 1;
    }
    symbols.insert(at, symbol);
    assert(symbols.deep_view() =~= before.take(at as int).push(added) + before.skip(at as int));
}

/// The symbols in the order that the hint asks for. `None` where there is something to order, and a
/// distance is not known.
fn sort_nearest(found: Vec<WorkspaceSymbol>, hint: Position) -> (sorted: Option<
    Vec<WorkspaceSymbol>,
>)
    ensures
        match sorted {
            Some(sorted) => (found@.len() < 2 || all_near(found.deep_view(), hint))
                && sorted.deep_view() == nearest_first(found.deep_view(), hint),
            None => found@.len() >= 2 && !all_near(found.deep_view(), hint),
        },
{
    let ghost views = found.deep_view();
    if found.len() < 2 {
        proof {
            if views.len() == 1 {
                assert(views.drop_last() =~= Seq::empty());
                assert(nearest_first(views.drop_last(), hint) =~= Seq::empty());
                assert(nearest_first(views, hint) =~= views);
            } else {
                assert(nearest_first(views, hint) =~= views);
            }
        }
        return Some(found);
    }
    let mut rest = found;
    let mut sorted: Vec<WorkspaceSymbol> = Vec::new();
    let ghost mut done: int = 0;
    assert(rest.deep_view() =~= views.skip(0));
    assert(sorted.deep_view() =~= nearest_first(views.take(0), hint));
    while rest.len() > 0
        invariant
            0 <= done <= views.len(),
            views.len() >= 2,
            views == found.deep_view(),
            rest.deep_view() == views.skip(done),
            sorted.deep_view() == nearest_first(views.take(done), hint),
            all_near(sorted.deep_view(), hint),
            all_near(views.take(done), hint),
        decreases rest@.len(),
    {
        let ghost left = rest.deep_view();
        assert(left.len() > 0);
        let symbol = rest.remove(0);
        assert(symbol.deep_view() == left[0]);
        assert(left[0] == views[done]);
        assert(rest.deep_view() =~= left.drop_first());
        assert(left.drop_first() =~= views.skip(done + 1));
        if distance_of(&symbol, hint).is_none() {
            assert(!all_near(views, hint));
            return None;
        }
        let ghost before = sorted.deep_view();
        insert_symbol(&mut sorted, symbol, hint);
        proof {
            lemma_with_symbol_near(before, symbol.deep_view(), hint);
            assert(views.take(done + 1).drop_last() =~= views.take(done));
            assert(views.take(done + 1).last() == symbol.deep_view());
            assert forall|i: int| 0 <= i < views.take(done + 1).len() implies symbol_distance(
                #[trigger] views.take(done + 1)[i],
                hint,
            ) is Some by {
                if i < done {
                    assert(views.take(done)[i] == views.take(done + 1)[i]);
                }
            }
            done = done + 1;
        }
    }
    assert(views.take(done) =~= views) by {
        assert(rest.deep_view().len() == 0);
    }
    Some(sorted)
}

proof fn lemma_with_symbol_near(
    symbols: Seq<WorkspaceSymbolView>,
    symbol: WorkspaceSymbolView,
    hint: Position,
)
    requires
        all_near(symbols, hint),
        symbol_distance(symbol, hint) is Some,
    ensures
        all_near(with_symbol(symbols, symbol, hint), hint),
    decreases symbols.len(),
{
    if symbols.len() > 0 && symbol_distance(symbols.last(), hint)->0 > symbol_distance(
        symbol,
        hint,
    )->0 {
        lemma_with_symbol_near(symbols.drop_last(), symbol, hint);
    }
}

/// A symbol and where it is, as a symbol of the workspace.
pub open spec fn listed_symbol(symbol: SymbolInformationView) -> WorkspaceSymbolView {
    WorkspaceSymbolView {
        name: symbol.name,
        kind: symbol.kind,
        place: SymbolPlaceView::Located(symbol.location),
    }
}

/// The symbols of a document with that text in their names. `None` where there are some, their
/// places are to be told by the URI of the document, and that has no normal form.
pub open spec fn found_in_document(
    symbol_name: Seq<char>,
    uri: Seq<char>,
    answer: Option<DocumentSymbolResponseView>,
) -> Option<Seq<WorkspaceSymbolView>> {
    match answer {
        Some(DocumentSymbolResponseView::Flat(symbols)) => Some(
            symbols.filter(
                |symbol: SymbolInformationView| text::contains_text(symbol.name, symbol_name),
            ).map_values(|symbol: SymbolInformationView| listed_symbol(symbol)),
        ),
        Some(DocumentSymbolResponseView::Nested(symbols)) => match uri::as_uri(
            uri::parsed_url(uri).ok(),
        ) {
            Some(normal) => Some(symbols::matching_symbols(symbols, symbol_name, normal)),
            None => if symbols::some_named(symbols, symbol_name) {
                None
            } else {
                Some(Seq::empty())
            },
        },
        None => Some(Seq::empty()),
    }
}

/// The symbols of the workspace that the server answers with.
pub open spec fn found_in_workspace(
    answer: Option<WorkspaceSymbolResponseView>,
) -> Seq<WorkspaceSymbolView> {
    match answer {
        Some(WorkspaceSymbolResponseView::Flat(symbols)) => symbols.map_values(
            |symbol: SymbolInformationView| listed_symbol(symbol),
        ),
        Some(WorkspaceSymbolResponseView::Nested(symbols)) => symbols,
        None => Seq::empty(),
    }
}

fn list_symbol(symbol: &SymbolInformation) -> (listed: WorkspaceSymbol)
    ensures
        listed.deep_view() == listed_symbol(symbol.deep_view()),
{
    WorkspaceSymbol {
        name: symbol.name.clone(),
        kind: symbol.kind,
        place: SymbolPlace::Located(
            SourceLocation {
                uri: symbol.location.uri.clone(),
                range: symbol.location.range,
            },
        ),
    }
}

fn search_document(symbol_name: &str, uri: &str, answer: &Option<DocumentSymbolResponse>) -> (found:
    Option<Vec<WorkspaceSymbol>>)
    ensures
        found.deep_view() == found_in_document(symbol_name@, uri@, answer.deep_view()),
{
    let mut found: Vec<WorkspaceSymbol> = Vec::new();
    assert(found.deep_view() =~= Seq::empty());
    match answer {
        Some(DocumentSymbolResponse::Flat(symbols)) => {
            let ghost views = symbols.deep_view();
            let ghost named = |symbol: SymbolInformationView|
                text::contains_text(symbol.name, symbol_name@);
            let ghost list = |symbol: SymbolInformationView| listed_symbol(symbol);
            proof {
                reveal(Seq::filter);
            }
            let mut i: usize = 0;
            assert(found.deep_view() =~= views.take(0).filter(named).map_values(list));
            while i < symbols.len()
                invariant
                    i <= symbols@.len(),
                    views == symbols.deep_view(),
                    named == (|symbol: SymbolInformationView|
                        text::contains_text(symbol.name, symbol_name@)),
                    list == (|symbol: SymbolInformationView| listed_symbol(symbol)),
                    found.deep_view() == views.take(i as int).filter(named).map_values(list),
                decreases symbols@.len() - i,
            {
                let ghost before = found.deep_view();
                let ghost kept = views.take(i as int).filter(named);
                let ghost own = symbols@[i as int].deep_view();
                proof {
                    reveal(Seq::filter);
                    assert(views.take(i + 1).drop_last() =~= views.take(i as int));
                    assert(views.take(i + 1).last() == own);
                }
                if contains(symbols[i].name.as_str(), symbol_name) {
                    found.push(list_symbol(&symbols[i]));
                    assert(found.deep_view() =~= before.push(listed_symbol(own)));
                    assert(named(own));
                    assert(kept.push(own).map_values(list) =~= kept.map_values(list).push(
                        listed_symbol(own),
                    ));
                } else {
                    assert(!named(own));
                }
                i += 1;
            }
            assert(views.take(i as int) =~= views);
        },
        Some(DocumentSymbolResponse::Nested(symbols)) => {
            if !MyHandler::collect_nested_matching_symbols(symbols, symbol_name, uri, &mut found) {
                return None;
            }
            assert(found.deep_view() =~= found_in_document(
                symbol_name@,
                uri@,
                answer.deep_view(),
            )->0);
        },
        None => {},
    }
    Some(found)
}

fn search_workspace(answer: Option<WorkspaceSymbolResponse>) -> (found: Vec<WorkspaceSymbol>)
    ensures
        found.deep_view() == found_in_workspace(answer.deep_view()),
{
    match answer {
        Some(WorkspaceSymbolResponse::Flat(symbols)) => {
            let mut found: Vec<WorkspaceSymbol> = Vec::new();
            let mut i: usize = 0;
            while i < symbols.len()
                invariant
                    i <= symbols@.len(),
                    found@.len() == i,
                    forall|k: int|
                        0 <= k < i ==> (#[trigger] found@[k]).deep_view() == listed_symbol(
                            symbols@[k].deep_view(),
                        ),
                decreases symbols@.len() - i,
            {
                found.push(list_symbol(&symbols[i]));
                i += 1;
            }
            assert(found.deep_view() =~= found_in_workspace(answer.deep_view()));
            found
        },
        Some(WorkspaceSymbolResponse::Nested(symbols)) => symbols,
        None => {
            let found: Vec<WorkspaceSymbol> = Vec::new();
            assert(found.deep_view() =~= Seq::empty());
            found
        },
    }
}

/// What the server answered, as far as it did.
#[derive(Debug)]
pub enum FindAnswer {
    Workspace(Option<WorkspaceSymbolResponse>),
    Document(Option<DocumentSymbolResponse>),
    Hover(Option<String>),
}

#[verifier::ext_equal]
pub enum FindAnswerView {
    Workspace(Option<WorkspaceSymbolResponseView>),
    Document(Option<DocumentSymbolResponseView>),
    Hover(Option<Seq<char>>),
}

impl DeepView for FindAnswer {
    type V = FindAnswerView;

    open spec fn deep_view(&self) -> FindAnswerView {
        match *self {
            FindAnswer::Workspace(answer) => FindAnswerView::Workspace(answer.deep_view()),
            FindAnswer::Document(answer) => FindAnswerView::Document(answer.deep_view()),
            FindAnswer::Hover(answer) => FindAnswerView::Hover(answer.deep_view()),
        }
    }
}

/// What comes next: something to ask the server, the places that were found, or why there are none.
#[derive(Debug)]
pub enum FindStep {
    Ask(LspRequest),
    Found(Vec<Location>),
    Failed(ToolError),
}

#[verifier::ext_equal]
pub enum FindStepView {
    Ask(LspRequestView),
    Found(Seq<LocationView>),
    Failed(ToolErrorView),
}

impl DeepView for FindStep {
    type V = FindStepView;

    open spec fn deep_view(&self) -> FindStepView {
        match *self {
            FindStep::Ask(request) => FindStepView::Ask(request@),
            FindStep::Found(locations) => FindStepView::Found(locations.deep_view()),
            FindStep::Failed(error) => FindStepView::Failed(error.deep_view()),
        }
    }
}

/// How far a search has come.
#[derive(Debug)]
enum Stage {
    /// The server was asked which document the hint means.
    File,
    /// The server was asked for the symbols of a document.
    Document(String),
    /// The server was asked for symbols of the workspace.
    Workspace,
    /// The server was asked about the first of the places that are left.
    Hover { left: Vec<SourceLocation>, results: Vec<Location> },
    /// There is nothing more to ask.
    Over,
}

#[verifier::ext_equal]
pub enum StageView {
    File,
    Document(Seq<char>),
    Workspace,
    Hover { left: Seq<SourceLocationView>, results: Seq<LocationView> },
    Over,
}

impl DeepView for Stage {
    type V = StageView;

    closed spec fn deep_view(&self) -> StageView {
        match *self {
            Stage::File => StageView::File,
            Stage::Document(uri) => StageView::Document(uri@),
            Stage::Workspace => StageView::Workspace,
            Stage::Hover { left, results } => StageView::Hover {
                left: left.deep_view(),
                results: results.deep_view(),
            },
            Stage::Over => StageView::Over,
        }
    }
}

/// A search for a symbol.
#[derive(Debug)]
pub struct FindSymbol {
    args: FindSymbolArgs,
    stage: Stage,
}

#[verifier::ext_equal]
pub struct FindSymbolView {
    pub args: FindSymbolArgsView,
    pub stage: StageView,
}

impl View for FindSymbol {
    type V = FindSymbolView;

    closed spec fn view(&self) -> FindSymbolView {
        FindSymbolView { args: self.args@, stage: self.stage.deep_view() }
    }
}

/// What `lsp_types::Uri` shows of URIs to a developer.
pub uninterp spec fn listed_uris(uris: Seq<Seq<char>>) -> Seq<char>;

/// Whether no URI of the list is too long for one.
pub open spec fn none_too_long(uris: Seq<Seq<char>>) -> bool {
    forall|i: int|
        0 <= i < uris.len() ==> encode_utf8(#[trigger] uris[i]).len() <= uri::uri_bytes()
}

/// `<Vec<lsp_types::Uri> as Debug>::fmt`: the text depends on the texts of the URIs alone, and so does
/// the error where one of them is none. A text that is too long for a URI is not for it: the parser
/// panics.
#[verifier::external_body]
fn list_uris(uris: &Vec<String>) -> (text: String)
    requires
        none_too_long(uris.deep_view()),
    ensures
        text@ == listed_uris(uris.deep_view()),
{
    let parsed: Result<Vec<lsp_types::Uri>, _> = uris.iter().map(|uri| uri.parse()).collect();
    match parsed {
        Ok(uris) => format!("{:?}", uris),
        Err(error) => error.to_string(),
    }
}

/// What is said where a hint means several documents.
pub open spec fn ambiguous_file(hint: Seq<char>, uris: Seq<Seq<char>>) -> ToolErrorView {
    if none_too_long(uris) {
        ToolErrorView::Internal(
            "Ambiguous file name '"@ + hint + "'. Matches: "@ + listed_uris(uris),
        )
    } else {
        ToolErrorView::TooLong
    }
}

/// Says that a hint means several documents.
fn ambiguous(hint: &str, uris: &Vec<String>) -> (error: ToolError)
    ensures
        error.deep_view() == ambiguous_file(hint@, uris.deep_view()),
{
    let mut i: usize = 0;
    while i < uris.len()
        invariant
            i <= uris@.len(),
            forall|k: int|
                0 <= k < i ==> encode_utf8(#[trigger] uris.deep_view()[k]).len()
                    <= uri::uri_bytes(),
        decreases uris@.len() - i,
    {
        if uris[i].as_str().as_bytes().len() > MAX_URI_BYTES {
            assert(encode_utf8(uris.deep_view()[i as int]).len() > uri::uri_bytes());
            return ToolError::TooLong;
        }
        i += 1;
    }
    let mut message = "Ambiguous file name '".to_owned();
    message.append(hint);
    message.append("'. Matches: ");
    message.append(list_uris(uris).as_str());
    ToolError::Internal(message)
}

/// What the workspace is searched for.
pub open spec fn workspace_query(args: FindSymbolArgsView) -> Seq<char> {
    match args.context_hint {
        Some(context) => args.symbol_name + " "@ + context,
        None => args.symbol_name,
    }
}

/// The symbols of a document in the order that the hint asks for, if there is one. `None` where there
/// is something to order, and a distance is not known.
pub open spec fn ordered(
    found: Seq<WorkspaceSymbolView>,
    hint: Option<Position>,
) -> Option<Seq<WorkspaceSymbolView>> {
    match hint {
        Some(hint) => if found.len() < 2 || all_near(found, hint) {
            Some(nearest_first(found, hint))
        } else {
            None
        },
        None => Some(found),
    }
}

/// The symbols to tell of: the first alone where that is enough.
pub open spec fn chosen(
    found: Seq<WorkspaceSymbolView>,
    feeling_lucky: bool,
) -> Seq<WorkspaceSymbolView> {
    if feeling_lucky && found.len() > 0 {
        found.take(1)
    } else {
        found
    }
}

/// The parts of documents that the symbols are in. Symbols that are just in a document are left out.
pub open spec fn places(symbols: Seq<WorkspaceSymbolView>) -> Seq<SourceLocationView>
    decreases symbols.len(),
{
    if symbols.len() == 0 {
        Seq::empty()
    } else {
        match symbols.last().place {
            SymbolPlaceView::Located(location) => places(symbols.drop_last()).push(location),
            SymbolPlaceView::Document(_) => places(symbols.drop_last()),
        }
    }
}

/// What is told of a place in a file.
pub open spec fn place_in_file(
    location: SourceLocationView,
    path: Seq<char>,
    hover_info: Option<Seq<char>>,
) -> LocationView {
    LocationView {
        path,
        line: location.range.start.line,
        character: location.range.start.character,
        hover_info,
    }
}

/// Goes on with the places that are left: asks about the first of them, unless nothing is to be asked
/// about places.
pub open spec fn next_place(
    args: FindSymbolArgsView,
    left: Seq<SourceLocationView>,
    results: Seq<LocationView>,
) -> (StageView, FindStepView)
    decreases left.len(),
{
    if left.len() == 0 {
        (StageView::Over, FindStepView::Found(results))
    } else {
        let first = left.first();
        if uri::parsed_url(first.uri) is Err {
            (StageView::Over, FindStepView::Failed(ToolErrorView::NotAFile(first.uri)))
        } else if args.hover_detail != "none"@ {
            (
                StageView::Hover { left, results },
                FindStepView::Ask(protocol::hover_request(first.uri, first.range.start)),
            )
        } else {
            match uri::url_path(first.uri) {
                Some(path) => next_place(
                    args,
                    left.drop_first(),
                    results.push(place_in_file(first, path, None)),
                ),
                None => (
                    StageView::Over,
                    FindStepView::Failed(ToolErrorView::NotAFile(first.uri)),
                ),
            }
        }
    }
}

/// Tells of the symbols that were found.
pub open spec fn tell(
    args: FindSymbolArgsView,
    found: Seq<WorkspaceSymbolView>,
) -> (StageView, FindStepView) {
    next_place(args, places(chosen(found, args.feeling_lucky)), Seq::empty())
}

/// Searches the workspace.
pub open spec fn search_all(args: FindSymbolArgsView) -> (StageView, FindStepView) {
    (
        StageView::Workspace,
        FindStepView::Ask(protocol::workspace_symbol_request(workspace_query(args))),
    )
}

/// How a search begins: with the document where there is a hint of one, else with the workspace.
pub open spec fn search_begins(args: FindSymbolArgsView) -> (StageView, FindStepView) {
    match args.file {
        Some(hint) => (
            StageView::File,
            FindStepView::Ask(protocol::workspace_symbol_request(hint)),
        ),
        None => search_all(args),
    }
}

/// How a search goes on after an answer.
pub open spec fn search_goes_on(
    args: FindSymbolArgsView,
    stage: StageView,
    answer: FindAnswerView,
) -> (StageView, FindStepView) {
    match stage {
        StageView::File => {
            let hint = args.file->0;
            let files = hinted_files(
                hint,
                match answer {
                    FindAnswerView::Workspace(answer) => answer,
                    _ => None,
                },
            );
            if files.len() > 1 {
                (StageView::Over, FindStepView::Failed(ambiguous_file(hint, files)))
            } else if files.len() == 1 {
                (
                    StageView::Document(files[0]),
                    FindStepView::Ask(protocol::document_symbol_request(files[0])),
                )
            } else {
                search_all(args)
            }
        },
        StageView::Document(uri) => match found_in_document(
            args.symbol_name,
            uri,
            match answer {
                FindAnswerView::Document(answer) => answer,
                _ => None,
            },
        ) {
            Some(found) => match ordered(found, args.location_hint) {
                Some(found) => tell(args, found),
                None => (StageView::Over, FindStepView::Failed(ToolErrorView::TooFar)),
            },
            None => (StageView::Over, FindStepView::Failed(ToolErrorView::NotAFile(uri))),
        },
        StageView::Workspace => tell(
            args,
            found_in_workspace(
                match answer {
                    FindAnswerView::Workspace(answer) => answer,
                    _ => None,
                },
            ),
        ),
        StageView::Hover { left, results } => match uri::url_path(left.first().uri) {
            Some(path) => next_place(
                args,
                left.drop_first(),
                results.push(
                    place_in_file(
                        left.first(),
                        path,
                        match answer {
                            FindAnswerView::Hover(hover) => hover,
                            _ => None,
                        },
                    ),
                ),
            ),
            None => (
                StageView::Over,
                FindStepView::Failed(ToolErrorView::NotAFile(left.first().uri)),
            ),
        },
        StageView::Over => (StageView::Over, FindStepView::Found(Seq::empty())),
    }
}

/// Whether a search for that can come to the stage.
pub open spec fn reachable(args: FindSymbolArgsView, stage: StageView) -> bool {
    match stage {
        StageView::File => args.file is Some,
        StageView::Hover { left, results: _ } => left.len() > 0,
        _ => true,
    }
}

/// How much there is to do at most from a stage on: first by what was asked, then by the places that
/// are left.
pub open spec fn left_to_do(stage: StageView) -> (int, int) {
    match stage {
        StageView::File => (3, 0),
        StageView::Document(_) => (2, 0),
        StageView::Workspace => (2, 0),
        StageView::Hover { left, results: _ } => (1, left.len() as int),
        StageView::Over => (0, 0),
    }
}

/// Whether there is less to do.
pub open spec fn is_less(a: (int, int), b: (int, int)) -> bool {
    a.0 < b.0 || (a.0 == b.0 && 0 <= a.1 < b.1)
}

proof fn lemma_next_place_reachable(
    args: FindSymbolArgsView,
    left: Seq<SourceLocationView>,
    results: Seq<LocationView>,
)
    ensures
        reachable(args, next_place(args, left, results).0),
        is_less(left_to_do(next_place(args, left, results).0), (1, left.len() as int + 1)),
    decreases left.len(),
{
    if left.len() > 0 {
        match uri::url_path(left.first().uri) {
            Some(path) => lemma_next_place_reachable(
                args,
                left.drop_first(),
                results.push(place_in_file(left.first(), path, None)),
            ),
            None => {},
        }
    }
}

/// A search comes to an end: with every answer there is less to do, and every stage that it comes to
/// is one that it can go on from.
pub proof fn search_comes_to_an_end(
    args: FindSymbolArgsView,
    stage: StageView,
    answer: FindAnswerView,
)
    requires
        reachable(args, stage),
        stage !is Over,
    ensures
        reachable(args, search_begins(args).0),
        reachable(args, search_goes_on(args, stage, answer).0),
        is_less(left_to_do(search_goes_on(args, stage, answer).0), left_to_do(stage)),
{
    match stage {
        StageView::Document(uri) => match found_in_document(
            args.symbol_name,
            uri,
            match answer {
                FindAnswerView::Document(answer) => answer,
                _ => None,
            },
        ) {
            Some(found) => match ordered(found, args.location_hint) {
                Some(found) => lemma_next_place_reachable(
                    args,
                    places(chosen(found, args.feeling_lucky)),
                    Seq::empty(),
                ),
                None => {},
            },
            None => {},
        },
        StageView::Workspace => lemma_next_place_reachable(
            args,
            places(
                chosen(
                    found_in_workspace(
                        match answer {
                            FindAnswerView::Workspace(answer) => answer,
                            _ => None,
                        },
                    ),
                    args.feeling_lucky,
                ),
            ),
            Seq::empty(),
        ),
        StageView::Hover { left, results } => match uri::url_path(left.first().uri) {
            Some(path) => lemma_next_place_reachable(
                args,
                left.drop_first(),
                results.push(
                    place_in_file(
                        left.first(),
                        path,
                        match answer {
                            FindAnswerView::Hover(hover) => hover,
                            _ => None,
                        },
                    ),
                ),
            ),
            None => {},
        },
        _ => {},
    }
}

fn locate(location: &SourceLocation, path: String, hover_info: Option<String>) -> (told: Location)
    ensures
        told.deep_view() == place_in_file(
            location.deep_view(),
            path@,
            hover_info.deep_view(),
        ),
{
    Location {
        path,
        line: location.range.start.line,
        character: location.range.start.character,
        hover_info,
    }
}

fn places_of(symbols: Vec<WorkspaceSymbol>) -> (located: Vec<SourceLocation>)
    ensures
        located.deep_view() == places(symbols.deep_view()),
{
    let ghost views = symbols.deep_view();
    let mut located: Vec<SourceLocation> = Vec::new();
    let mut i: usize = 0;
    assert(located.deep_view() =~= Seq::empty());
    while i < symbols.len()
        invariant
            i <= symbols@.len(),
            views == symbols.deep_view(),
            located.deep_view() == places(views.take(i as int)),
        decreases symbols@.len() - i,
    {
        let ghost before = located.deep_view();
        assert(views.take(i + 1).drop_last() =~= views.take(i as int));
        assert(views.take(i + 1).last() == symbols@[i as int].deep_view());
        if let SymbolPlace::Located(location) = &symbols[i].place {
            located.push(SourceLocation { uri: location.uri.clone(), range: location.range });
            assert(located.deep_view() =~= before.push(location.deep_view()));
        }
        i += 1;
    }
    assert(views.take(i as int) =~= views);
    located
}

/// Goes on with the places that are left.
fn go_on(args: &FindSymbolArgs, places: Vec<SourceLocation>, told: Vec<Location>) -> (next: (
    Stage,
    FindStep,
))
    ensures
        (next.0.deep_view(), next.1.deep_view()) == next_place(
            args@,
            places.deep_view(),
            told.deep_view(),
        ),
{
    let asks = !same_text(args.hover_detail.as_str(), "none");
    let ghost goal = next_place(args@, places.deep_view(), told.deep_view());
    let mut left = places;
    let mut results = told;
    while left.len() > 0
        invariant
            asks == (args.hover_detail@ != "none"@),
            goal == next_place(args@, places.deep_view(), told.deep_view()),
            goal == next_place(args@, left.deep_view(), results.deep_view()),
        decreases left@.len(),
    {
        let ghost views = left.deep_view();
        let ghost before = results.deep_view();
        assert(views.first() == left@[0].deep_view());
        if parse_url(left[0].uri.as_str()).is_err() {
            let uri = left[0].uri.clone();
            return (Stage::Over, FindStep::Failed(ToolError::NotAFile(uri)));
        }
        if asks {
            let request = LspRequest::hover(left[0].uri.as_str(), left[0].range.start);
            return (Stage::Hover { left, results }, FindStep::Ask(request));
        }
        let first = left.remove(0);
        assert(left.deep_view() =~= views.drop_first());
        match path_of_uri(first.uri.as_str()) {
            Some(path) => {
                results.push(locate(&first, path, None));
                assert(results.deep_view() =~= before.push(
                    place_in_file(views.first(), path@, None),
                ));
            },
            None => {
                return (Stage::Over, FindStep::Failed(ToolError::NotAFile(first.uri)));
            },
        }
    }
    (Stage::Over, FindStep::Found(results))
}

/// Tells of the symbols that were found.
fn tell_of(args: &FindSymbolArgs, found: Vec<WorkspaceSymbol>) -> (next: (Stage, FindStep))
    ensures
        (next.0.deep_view(), next.1.deep_view()) == tell(args@, found.deep_view()),
{
    let ghost views = found.deep_view();
    let mut symbols = found;
    if args.feeling_lucky && symbols.len() > 0 {
        symbols.truncate(1);
        assert(symbols.deep_view() =~= views.take(1));
    }
    let results: Vec<Location> = Vec::new();
    assert(results.deep_view() =~= Seq::empty());
    go_on(args, places_of(symbols), results)
}

/// Searches the workspace.
fn ask_workspace(args: &FindSymbolArgs) -> (next: (Stage, FindStep))
    ensures
        (next.0.deep_view(), next.1.deep_view()) == search_all(args@),
{
    let mut query = args.symbol_name.clone();
    if let Some(context) = &args.context_hint {
        query.append(" ");
        query.append(context.as_str());
    }
    (Stage::Workspace, FindStep::Ask(LspRequest::workspace_symbol(query.as_str())))
}

impl FindSymbol {
    /// Whether the stage is one that the search can come to.
    pub open spec fn wf(&self) -> bool {
        reachable(self@.args, self@.stage)
    }

    /// Begins a search.
    pub fn begin(args: FindSymbolArgs) -> (begun: (FindSymbol, FindStep))
        ensures
            begun.0.wf(),
            begun.0@.args == args@,
            (begun.0@.stage, begun.1.deep_view()) == search_begins(args@),
    {
        let (stage, step) = match &args.file {
            Some(hint) => (
                Stage::File,
                FindStep::Ask(LspRequest::workspace_symbol(hint.as_str())),
            ),
            None => ask_workspace(&args),
        };
        (FindSymbol { args, stage }, step)
    }

    /// Goes on with an answer.
    pub fn answer(&mut self, answer: FindAnswer) -> (step: FindStep)
        requires
            old(self).wf(),
            old(self)@.stage !is Over,
        ensures
            final(self).wf(),
            final(self)@.args == old(self)@.args,
            (final(self)@.stage, step.deep_view()) == search_goes_on(
                old(self)@.args,
                old(self)@.stage,
                answer.deep_view(),
            ),
    {
        proof {
            search_comes_to_an_end(self@.args, self@.stage, answer.deep_view());
        }
        let mut stage = Stage::Over;
        std::mem::swap(&mut stage, &mut self.stage);
        let (next, step) = match stage {
            Stage::File => self.answer_file(answer),
            Stage::Document(uri) => self.answer_document(uri, answer),
            Stage::Workspace => {
                let symbols = match answer {
                    FindAnswer::Workspace(symbols) => symbols,
                    _ => None,
                };
                tell_of(&self.args, search_workspace(symbols))
            },
            Stage::Hover { left, results } => self.answer_hover(left, results, answer),
            Stage::Over => (Stage::Over, FindStep::Found(Vec::new())),
        };
        self.stage = next;
        step
    }

    fn answer_file(&self, answer: FindAnswer) -> (next: (Stage, FindStep))
        requires
            self.args.file is Some,
        ensures
            (next.0.deep_view(), next.1.deep_view()) == search_goes_on(
                self@.args,
                StageView::File,
                answer.deep_view(),
            ),
    {
        let hint = match &self.args.file {
            Some(hint) => hint.as_str(),
            None => "",
        };
        let mut files = match answer {
            FindAnswer::Workspace(Some(WorkspaceSymbolResponse::Flat(symbols))) => list_candidates(
                hint,
                &symbols,
            ),
            _ => Vec::new(),
        };
        let ghost uris = files.deep_view();
        assert(uris =~= hinted_files(
            hint@,
            match answer.deep_view() {
                FindAnswerView::Workspace(answer) => answer,
                _ => None,
            },
        ));
        if files.len() > 1 {
            (Stage::Over, FindStep::Failed(ambiguous(hint, &files)))
        } else if files.len() == 1 {
            let uri = files.remove(0);
            assert(uri@ == uris[0]);
            let request = LspRequest::document_symbol(uri.as_str());
            (Stage::Document(uri), FindStep::Ask(request))
        } else {
            ask_workspace(&self.args)
        }
    }

    fn answer_document(&self, uri: String, answer: FindAnswer) -> (next: (Stage, FindStep))
        ensures
            (next.0.deep_view(), next.1.deep_view()) == search_goes_on(
                self@.args,
                StageView::Document(uri@),
                answer.deep_view(),
            ),
    {
        let symbols = match answer {
            FindAnswer::Document(symbols) => symbols,
            _ => None,
        };
        match search_document(self.args.symbol_name.as_str(), uri.as_str(), &symbols) {
            Some(found) => {
                let sorted = match self.args.location_hint {
                    Some(hint) => sort_nearest(found, hint),
                    None => Some(found),
                };
                match sorted {
                    Some(found) => tell_of(&self.args, found),
                    None => (Stage::Over, FindStep::Failed(ToolError::TooFar)),
                }
            },
            None => (Stage::Over, FindStep::Failed(ToolError::NotAFile(uri))),
        }
    }

    fn answer_hover(
        &self,
        left: Vec<SourceLocation>,
        results: Vec<Location>,
        answer: FindAnswer,
    ) -> (next: (Stage, FindStep))
        requires
            left@.len() > 0,
        ensures
            (next.0.deep_view(), next.1.deep_view()) == search_goes_on(
                self@.args,
                StageView::Hover { left: left.deep_view(), results: results.deep_view() },
                answer.deep_view(),
            ),
    {
        let ghost views = left.deep_view();
        let ghost before = results.deep_view();
        let hover = match answer {
            FindAnswer::Hover(hover) => hover,
            _ => None,
        };
        let mut left = left;
        let mut results = results;
        assert(views.first() == left@[0].deep_view());
        let first = left.remove(0);
        assert(left.deep_view() =~= views.drop_first());
        match path_of_uri(first.uri.as_str()) {
            Some(path) => {
                let ghost told = place_in_file(views.first(), path@, hover.deep_view());
                results.push(locate(&first, path, hover));
                assert(results.deep_view() =~= before.push(told));
                go_on(&self.args, left, results)
            },
            None => (Stage::Over, FindStep::Failed(ToolError::NotAFile(first.uri))),
        }
    }
}

/// Whether no symbol is farther than one that comes behind it.
pub open spec fn ascends(symbols: Seq<WorkspaceSymbolView>, hint: Position) -> bool {
    forall|i: int, j: int|
        0 <= i < j < symbols.len() ==> symbol_distance(#[trigger] symbols[i], hint)->0
            <= symbol_distance(#[trigger] symbols[j], hint)->0
}

/// The symbols at that distance.
pub open spec fn at_distance(
    symbols: Seq<WorkspaceSymbolView>,
    hint: Position,
    distance: int,
) -> Seq<WorkspaceSymbolView> {
    symbols.filter(|symbol: WorkspaceSymbolView| symbol_distance(symbol, hint)->0 == distance)
}

proof fn lemma_at_distance_push(
    symbols: Seq<WorkspaceSymbolView>,
    symbol: WorkspaceSymbolView,
    hint: Position,
    distance: int,
)
    ensures
        at_distance(symbols.push(symbol), hint, distance) == (if symbol_distance(symbol, hint)->0
            == distance {
            at_distance(symbols, hint, distance).push(symbol)
        } else {
            at_distance(symbols, hint, distance)
        }),
{
    reveal(Seq::filter);
    assert(symbols.push(symbol).drop_last() =~= symbols);
}

proof fn lemma_with_symbol(
    symbols: Seq<WorkspaceSymbolView>,
    symbol: WorkspaceSymbolView,
    hint: Position,
)
    requires
        ascends(symbols, hint),
    ensures
        with_symbol(symbols, symbol, hint).len() == symbols.len() + 1,
        ascends(with_symbol(symbols, symbol, hint), hint),
        with_symbol(symbols, symbol, hint).to_multiset() == symbols.to_multiset().insert(symbol),
        forall|i: int|
            0 <= i <= symbols.len() ==> #[trigger] with_symbol(symbols, symbol, hint)[i] == symbol
                || symbols.contains(with_symbol(symbols, symbol, hint)[i]),
        forall|distance: int| #[trigger]
            at_distance(with_symbol(symbols, symbol, hint), hint, distance) == at_distance(
                symbols.push(symbol),
                hint,
                distance,
            ),
    decreases symbols.len(),
{
    broadcast use vstd::seq_lib::group_to_multiset_ensures;

    let whole = with_symbol(symbols, symbol, hint);
    if symbols.len() > 0 && symbol_distance(symbols.last(), hint)->0 > symbol_distance(
        symbol,
        hint,
    )->0 {
        let last = symbols.last();
        let rest = symbols.drop_last();
        let inner = with_symbol(rest, symbol, hint);
        lemma_with_symbol(rest, symbol, hint);
        assert(symbols =~= rest.push(last));
        assert forall|i: int| 0 <= i <= symbols.len() implies #[trigger] whole[i] == symbol
            || symbols.contains(whole[i]) by {
            if i < inner.len() {
                assert(whole[i] == inner[i]);
                if inner[i] != symbol {
                    let k = choose|k: int| 0 <= k < rest.len() && rest[k] == inner[i];
                    assert(symbols[k] == inner[i]);
                }
            } else {
                assert(symbols[symbols.len() - 1] == last);
            }
        }
        assert forall|i: int, j: int| 0 <= i < j < whole.len() implies symbol_distance(
            #[trigger] whole[i],
            hint,
        )->0 <= symbol_distance(#[trigger] whole[j], hint)->0 by {
            assert(whole[i] == inner[i]);
            if j == inner.len() {
                if inner[i] != symbol {
                    let k = choose|k: int| 0 <= k < rest.len() && rest[k] == inner[i];
                    assert(symbols[k] == inner[i]);
                    assert(symbols[symbols.len() - 1] == last);
                }
            } else {
                assert(whole[j] == inner[j]);
            }
        }
        assert forall|distance: int| #[trigger]
            at_distance(whole, hint, distance) == at_distance(
                symbols.push(symbol),
                hint,
                distance,
            ) by {
            lemma_at_distance_push(inner, last, hint, distance);
            lemma_at_distance_push(rest, last, hint, distance);
            lemma_at_distance_push(symbols, symbol, hint, distance);
            lemma_at_distance_push(rest, symbol, hint, distance);
        }
        assert(rest.push(last).to_multiset() =~= rest.to_multiset().insert(last));
        assert(whole.to_multiset() =~= symbols.to_multiset().insert(symbol));
    } else {
        assert forall|i: int, j: int| 0 <= i < j < whole.len() implies symbol_distance(
            #[trigger] whole[i],
            hint,
        )->0 <= symbol_distance(#[trigger] whole[j], hint)->0 by {
            assert(whole[i] == symbols[i]);
            if j == symbols.len() {
                if i < symbols.len() - 1 {
                    assert(symbol_distance(symbols[i], hint)->0 <= symbol_distance(
                        symbols[symbols.len() - 1],
                        hint,
                    )->0);
                }
            } else {
                assert(whole[j] == symbols[j]);
            }
        }
        assert forall|i: int| 0 <= i <= symbols.len() implies #[trigger] whole[i] == symbol
            || symbols.contains(whole[i]) by {
            if i < symbols.len() {
                assert(whole[i] == symbols[i]);
            }
        }
    }
}

/// With a hint the same symbols come, the nearest first, and those at the same distance as the server
/// lists them.
pub proof fn nearest_come_first(symbols: Seq<WorkspaceSymbolView>, hint: Position)
    ensures
        nearest_first(symbols, hint).len() == symbols.len(),
        nearest_first(symbols, hint).to_multiset() == symbols.to_multiset(),
        ascends(nearest_first(symbols, hint), hint),
        forall|distance: int| #[trigger]
            at_distance(nearest_first(symbols, hint), hint, distance) == at_distance(
                symbols,
                hint,
                distance,
            ),
    decreases symbols.len(),
{
    broadcast use vstd::seq_lib::group_to_multiset_ensures;

    if symbols.len() > 0 {
        let rest = symbols.drop_last();
        let last = symbols.last();
        let sorted = nearest_first(rest, hint);
        nearest_come_first(rest, hint);
        lemma_with_symbol(sorted, last, hint);
        assert(symbols =~= rest.push(last));
        assert(rest.push(last).to_multiset() =~= rest.to_multiset().insert(last));
        assert forall|distance: int| #[trigger]
            at_distance(nearest_first(symbols, hint), hint, distance) == at_distance(
                symbols,
                hint,
                distance,
            ) by {
            lemma_at_distance_push(sorted, last, hint, distance);
            lemma_at_distance_push(rest, last, hint, distance);
        }
    }
}

/// Who feels lucky and gives a hint is told of a symbol that none is nearer than.
pub proof fn the_lucky_are_told_of_the_nearest(
    found: Seq<WorkspaceSymbolView>,
    hint: Position,
    i: int,
)
    requires
        0 <= i < found.len(),
    ensures
        chosen(nearest_first(found, hint), true).len() == 1,
        found.contains(chosen(nearest_first(found, hint), true)[0]),
        symbol_distance(chosen(nearest_first(found, hint), true)[0], hint)->0 <= symbol_distance(
            found[i],
            hint,
        )->0,
{
    broadcast use vstd::seq_lib::group_to_multiset_ensures;

    let sorted = nearest_first(found, hint);
    nearest_come_first(found, hint);
    assert(found.contains(found[i]));
    assert(found.to_multiset().contains(found[i]));
    assert(sorted.contains(found[i]));
    let j = sorted.index_of(found[i]);
    assert(sorted[j] == found[i]);
    assert(sorted.to_multiset().contains(sorted[0])) by {
        assert(sorted.contains(sorted[0]));
    }
    assert(chosen(sorted, true)[0] == sorted[0]);
}

/// The documents that a hint may mean have the hint in their URIs, and come once each.
pub proof fn candidates_match_once(hint: Seq<char>, symbols: Seq<SymbolInformationView>)
    ensures
        candidate_files(hint, symbols).no_duplicates(),
        forall|i: int|
            0 <= i < candidate_files(hint, symbols).len() ==> text::contains_text(
                #[trigger] candidate_files(hint, symbols)[i],
                hint,
            ),
        forall|i: int|
            0 <= i < symbols.len() && text::contains_text(
                (#[trigger] symbols[i]).location.uri,
                hint,
            ) ==> candidate_files(hint, symbols).contains(symbols[i].location.uri),
    decreases symbols.len(),
{
    if symbols.len() > 0 {
        let rest = symbols.drop_last();
        let before = candidate_files(hint, rest);
        let all = candidate_files(hint, symbols);
        let uri = symbols.last().location.uri;
        candidates_match_once(hint, rest);
        assert forall|i: int|
            0 <= i < symbols.len() && text::contains_text(
                (#[trigger] symbols[i]).location.uri,
                hint,
            ) implies all.contains(symbols[i].location.uri) by {
            if i < rest.len() {
                assert(rest[i] == symbols[i]);
                let k = before.index_of(symbols[i].location.uri);
                assert(all[k] == symbols[i].location.uri);
            } else if !before.contains(uri) {
                assert(all[before.len() as int] == uri);
            }
        }
    }
}

proof fn lemma_places_at_most(symbols: Seq<WorkspaceSymbolView>)
    ensures
        places(symbols).len() <= symbols.len(),
    decreases symbols.len(),
{
    if symbols.len() > 0 {
        lemma_places_at_most(symbols.drop_last());
    }
}

/// Who feels lucky is told of one symbol at most.
pub proof fn the_lucky_are_told_of_one(found: Seq<WorkspaceSymbolView>)
    ensures
        places(chosen(found, true)).len() <= 1,
{
    lemma_places_at_most(chosen(found, true));
}

/// Where nothing is to be told of the symbols but their places, the server is not asked about them.
pub proof fn without_detail_nothing_is_asked(
    args: FindSymbolArgsView,
    left: Seq<SourceLocationView>,
    results: Seq<LocationView>,
)
    requires
        args.hover_detail == "none"@,
    ensures
        next_place(args, left, results).0 is Over,
        next_place(args, left, results).1 !is Ask,
    decreases left.len(),
{
    if left.len() > 0 {
        match uri::url_path(left.first().uri) {
            Some(path) => without_detail_nothing_is_asked(
                args,
                left.drop_first(),
                results.push(place_in_file(left.first(), path, None)),
            ),
            None => {},
        }
    }
}

/// What a search comes to from there on, where the server answers like that: the step that asks no
/// more, or that no answer is left for.
pub open spec fn search_ends(
    args: FindSymbolArgsView,
    at: (StageView, FindStepView),
    answers: Seq<FindAnswerView>,
) -> FindStepView
    decreases answers.len(),
{
    if at.1 is Ask && answers.len() > 0 {
        search_ends(args, search_goes_on(args, at.0, answers.first()), answers.drop_first())
    } else {
        at.1
    }
}

/// The symbols that a search tells of, by the answers from a stage on.
pub open spec fn symbols_found(
    args: FindSymbolArgsView,
    stage: StageView,
    answers: Seq<FindAnswerView>,
) -> Option<Seq<WorkspaceSymbolView>>
    decreases answers.len(),
{
    if answers.len() == 0 {
        None
    } else {
        match stage {
            StageView::File => symbols_found(
                args,
                search_goes_on(args, stage, answers.first()).0,
                answers.drop_first(),
            ),
            StageView::Document(uri) => match found_in_document(
                args.symbol_name,
                uri,
                match answers.first() {
                    FindAnswerView::Document(answer) => answer,
                    _ => None,
                },
            ) {
                Some(found) => ordered(found, args.location_hint),
                None => None,
            },
            StageView::Workspace => Some(
                found_in_workspace(
                    match answers.first() {
                        FindAnswerView::Workspace(answer) => answer,
                        _ => None,
                    },
                ),
            ),
            _ => None,
        }
    }
}

/// Whether a place is told as it is.
pub open spec fn is_told(told: LocationView, place: SourceLocationView) -> bool {
    uri::url_path(place.uri) == Some(told.path) && told.line == place.range.start.line
        && told.character == place.range.start.character
}

/// The answer about a place, where the server is asked about it.
spec fn told_hover(args: FindSymbolArgsView, answers: Seq<FindAnswerView>) -> Option<Seq<char>> {
    if args.hover_detail != "none"@ {
        match answers.first() {
            FindAnswerView::Hover(hover) => hover,
            _ => None,
        }
    } else {
        None
    }
}

/// The answers that are left behind that about a place.
spec fn answers_left(args: FindSymbolArgsView, answers: Seq<FindAnswerView>) -> Seq<
    FindAnswerView,
> {
    if args.hover_detail != "none"@ {
        answers.drop_first()
    } else {
        answers
    }
}

/// Whether something can be told of a place.
spec fn can_tell(
    args: FindSymbolArgsView,
    place: SourceLocationView,
    answers: Seq<FindAnswerView>,
) -> bool {
    &&& uri::parsed_url(place.uri) is Ok
    &&& uri::url_path(place.uri) is Some
    &&& args.hover_detail != "none"@ ==> answers.len() > 0
}

proof fn lemma_one_place(
    args: FindSymbolArgsView,
    left: Seq<SourceLocationView>,
    results: Seq<LocationView>,
    answers: Seq<FindAnswerView>,
)
    requires
        left.len() > 0,
    ensures
        search_ends(args, next_place(args, left, results), answers) is Found ==> can_tell(
            args,
            left.first(),
            answers,
        ),
        can_tell(args, left.first(), answers) ==> search_ends(
            args,
            next_place(args, left, results),
            answers,
        ) == search_ends(
            args,
            next_place(
                args,
                left.drop_first(),
                results.push(
                    place_in_file(
                        left.first(),
                        uri::url_path(left.first().uri)->0,
                        told_hover(args, answers),
                    ),
                ),
            ),
            answers_left(args, answers),
        ),
{
    reveal_with_fuel(search_ends, 3);
    let at = next_place(args, left, results);
    let first = left.first();
    if uri::parsed_url(first.uri) is Ok && args.hover_detail != "none"@ && answers.len() > 0 {
        assert(at.0 == StageView::Hover { left, results });
        assert(search_ends(args, at, answers) == search_ends(
            args,
            search_goes_on(args, at.0, answers.first()),
            answers.drop_first(),
        ));
    }
}

/// What is told of the places that are left: each of them, in order, behind what was told before.
proof fn lemma_places_are_told(
    args: FindSymbolArgsView,
    left: Seq<SourceLocationView>,
    results: Seq<LocationView>,
    answers: Seq<FindAnswerView>,
)
    requires
        search_ends(args, next_place(args, left, results), answers) is Found,
    ensures
        ({
            let told = search_ends(args, next_place(args, left, results), answers)->Found_0;
            &&& told.len() == results.len() + left.len()
            &&& told.take(results.len() as int) == results
            &&& forall|i: int|
                0 <= i < left.len() ==> is_told(told[results.len() + i], #[trigger] left[i])
        }),
    decreases left.len(),
{
    let told = search_ends(args, next_place(args, left, results), answers)->Found_0;
    if left.len() == 0 {
        assert(told.take(results.len() as int) =~= results);
    } else {
        let first = left.first();
        let entry = place_in_file(
            first,
            uri::url_path(first.uri)->0,
            told_hover(args, answers),
        );
        lemma_one_place(args, left, results, answers);
        lemma_places_are_told(
            args,
            left.drop_first(),
            results.push(entry),
            answers_left(args, answers),
        );
        assert(told[results.len() as int] == told.take(results.len() as int + 1)[results.len() as int]);
        assert(told.take(results.len() as int) =~= told.take(results.len() as int + 1).take(
            results.len() as int,
        ));
        assert(results.push(entry).take(results.len() as int) =~= results);
        assert forall|i: int| 0 <= i < left.len() implies is_told(
            told[results.len() + i],
            #[trigger] left[i],
        ) by {
            if i > 0 {
                assert(left.drop_first()[i - 1] == left[i]);
            }
        }
    }
}

proof fn lemma_lucky_place(
    full: FindSymbolArgsView,
    lucky: FindSymbolArgsView,
    left: Seq<SourceLocationView>,
    answers: Seq<FindAnswerView>,
)
    requires
        left.len() > 0,
        lucky.hover_detail == full.hover_detail,
        search_ends(full, next_place(full, left, Seq::empty()), answers) is Found,
    ensures
        search_ends(lucky, next_place(lucky, left.take(1), Seq::empty()), answers)
            == FindStepView::Found(
            (search_ends(full, next_place(full, left, Seq::empty()), answers)->Found_0).take(1),
        ),
{
    let told = search_ends(full, next_place(full, left, Seq::empty()), answers)->Found_0;
    let first = left.first();
    let entry = place_in_file(first, uri::url_path(first.uri)->0, told_hover(full, answers));
    let one = Seq::<LocationView>::empty().push(entry);
    let rest = answers_left(full, answers);
    lemma_one_place(full, left, Seq::empty(), answers);
    lemma_places_are_told(full, left.drop_first(), one, rest);
    assert(told.take(1) == one);
    assert(left.take(1).first() == first);
    assert(left.take(1).drop_first() =~= Seq::empty());
    lemma_one_place(lucky, left.take(1), Seq::empty(), answers);
    assert(next_place(lucky, Seq::empty(), one) == (StageView::Over, FindStepView::Found(one)));
}

proof fn lemma_places_first(symbols: Seq<WorkspaceSymbolView>)
    requires
        symbols.len() > 0,
        symbols[0].place is Located,
    ensures
        places(symbols).len() > 0,
        places(symbols).take(1) == places(symbols.take(1)),
    decreases symbols.len(),
{
    if symbols.len() == 1 {
        assert(symbols.take(1) =~= symbols);
        assert(places(symbols.drop_last()) =~= Seq::empty());
        assert(places(symbols).take(1) =~= places(symbols));
    } else {
        lemma_places_first(symbols.drop_last());
        assert(symbols.drop_last().take(1) =~= symbols.take(1));
        assert(places(symbols).take(1) =~= places(symbols.drop_last()).take(1));
    }
}

/// Where every symbol has a place in a document, each has one entry among the places, in order.
pub proof fn no_located_symbol_is_left_out(symbols: Seq<WorkspaceSymbolView>)
    requires
        forall|i: int| 0 <= i < symbols.len() ==> (#[trigger] symbols[i]).place is Located,
    ensures
        places(symbols).len() == symbols.len(),
        forall|i: int|
            0 <= i < symbols.len() ==> (#[trigger] symbols[i]).place == SymbolPlaceView::Located(
                places(symbols)[i],
            ),
    decreases symbols.len(),
{
    if symbols.len() > 0 {
        assert forall|i: int| 0 <= i < symbols.drop_last().len() implies (
        #[trigger] symbols.drop_last()[i]).place is Located by {
            assert(symbols[i].place is Located);
        }
        no_located_symbol_is_left_out(symbols.drop_last());
        assert(symbols[symbols.len() - 1].place is Located);
        assert forall|i: int| 0 <= i < symbols.len() implies (#[trigger] symbols[i]).place
            == SymbolPlaceView::Located(places(symbols)[i]) by {
            if i < symbols.len() - 1 {
                assert(symbols.drop_last()[i] == symbols[i]);
            }
        }
    }
}

/// A symbol that has a place in a document is told of: the list has as many entries as there are such
/// symbols, and tells of them in order.
pub proof fn every_located_symbol_is_told(
    args: FindSymbolArgsView,
    stage: StageView,
    request: LspRequestView,
    answers: Seq<FindAnswerView>,
)
    requires
        stage is File || stage is Document || stage is Workspace,
        reachable(args, stage),
        !args.feeling_lucky,
        search_ends(args, (stage, FindStepView::Ask(request)), answers) is Found,
    ensures
        ({
            let told = search_ends(args, (stage, FindStepView::Ask(request)), answers)->Found_0;
            &&& symbols_found(args, stage, answers) matches Some(found)
            &&& told.len() == places(found).len()
            &&& forall|i: int|
                0 <= i < told.len() ==> is_told(#[trigger] told[i], places(found)[i])
        }),
    decreases answers.len(),
{
    let next = search_goes_on(args, stage, answers.first());
    let rest = answers.drop_first();
    match stage {
        StageView::File => {
            every_located_symbol_is_told(args, next.0, next.1->Ask_0, rest);
        },
        _ => {
            let found = symbols_found(args, stage, answers)->0;
            let told = search_ends(args, next, rest)->Found_0;
            assert(next == next_place(args, places(found), Seq::empty()));
            lemma_places_are_told(args, places(found), Seq::empty(), rest);
            assert forall|i: int| 0 <= i < told.len() implies is_told(
                #[trigger] told[i],
                places(found)[i],
            ) by {
                assert(is_told(told[0 + i], places(found)[i]));
            }
        },
    }
}

/// Who feels lucky is told, by the same answers, of the first of the places that the whole list tells
/// of; of none where it tells of none. A first symbol that is just in a document is the exception.
pub proof fn the_lucky_list_is_the_head_of_the_whole(
    full: FindSymbolArgsView,
    lucky: FindSymbolArgsView,
    stage: StageView,
    request: LspRequestView,
    answers: Seq<FindAnswerView>,
)
    requires
        stage is File || stage is Document || stage is Workspace,
        reachable(full, stage),
        !full.feeling_lucky,
        lucky == (FindSymbolArgsView { feeling_lucky: true, ..full }),
        search_ends(full, (stage, FindStepView::Ask(request)), answers) is Found,
        symbols_found(full, stage, answers) matches Some(found) ==> found.len() > 0
            ==> found[0].place is Located,
    ensures
        ({
            let told = search_ends(full, (stage, FindStepView::Ask(request)), answers)->Found_0;
            search_ends(lucky, (stage, FindStepView::Ask(request)), answers) == FindStepView::Found(
                if told.len() > 0 {
                    told.take(1)
                } else {
                    told
                },
            )
        }),
    decreases answers.len(),
{
    let next = search_goes_on(full, stage, answers.first());
    let rest = answers.drop_first();
    match stage {
        StageView::File => {
            assert(search_goes_on(lucky, stage, answers.first()) == next);
            assert(search_ends(full, next, rest) is Found);
            assert(next.1 is Ask);
            the_lucky_list_is_the_head_of_the_whole(full, lucky, next.0, next.1->Ask_0, rest);
        },
        _ => {
            let found = symbols_found(full, stage, answers)->0;
            assert(next == next_place(full, places(found), Seq::empty()));
            assert(search_goes_on(lucky, stage, answers.first()) == next_place(
                lucky,
                places(chosen(found, true)),
                Seq::empty(),
            ));
            if found.len() > 0 {
                lemma_places_first(found);
                lemma_lucky_place(full, lucky, places(found), rest);
                lemma_places_are_told(full, places(found), Seq::empty(), rest);
            } else {
                assert(places(found) =~= Seq::empty());
            }
        },
    }
}

/// How many characters and thousands of lines lie between two positions.
pub open spec fn steps_between(a: Position, b: Position) -> int {
    1000 * (if a.line < b.line {
        b.line - a.line
    } else {
        a.line - b.line
    }) + (if a.character < b.character {
        b.character - a.character
    } else {
        a.character - b.character
    })
}

/// Whether a symbol starts so near to a position that the distance can be told.
pub open spec fn starts_near(symbol: WorkspaceSymbolView, hint: Position) -> bool {
    symbol.place matches SymbolPlaceView::Located(location) && location.range.start.line
        < 0x8000_0000 && location.range.start.character < 0x8000_0000 && steps_between(
        location.range.start,
        hint,
    ) <= i32::MAX
}

/// Where a symbol starts.
pub open spec fn start_of(symbol: WorkspaceSymbolView) -> Position {
    symbol.place->Located_0.range.start
}

/// The distance of a symbol is that from its start to the position, a thousand for each line and one for
/// each character.
pub proof fn a_symbol_is_as_far_as_its_start(symbol: WorkspaceSymbolView, hint: Position)
    requires
        hint.line < 0x8000_0000,
        hint.character < 0x8000_0000,
        symbol.place is Located,
        start_of(symbol).line < 0x8000_0000,
        start_of(symbol).character < 0x8000_0000,
    ensures
        starts_near(symbol, hint) ==> symbol_distance(symbol, hint) == Some(
            steps_between(start_of(symbol), hint),
        ),
        !starts_near(symbol, hint) ==> symbol_distance(symbol, hint) is None,
{
}

/// The symbols of a document come in the order of the distances from their starts to the hint, and one
/// that starts at the hint comes before any that starts elsewhere. None is lost, and none is added.
pub proof fn symbols_come_by_the_distance_of_their_starts(
    found: Seq<WorkspaceSymbolView>,
    hint: Position,
)
    requires
        hint.line < 0x8000_0000,
        hint.character < 0x8000_0000,
        forall|i: int| 0 <= i < found.len() ==> starts_near(#[trigger] found[i], hint),
    ensures
        ({
            let told = ordered(found, Some(hint));
            &&& told matches Some(symbols)
            &&& symbols.len() == found.len()
            &&& symbols.to_multiset() == found.to_multiset()
            &&& forall|i: int, j: int|
                0 <= i < j < symbols.len() ==> steps_between(
                    start_of(#[trigger] symbols[i]),
                    hint,
                ) <= steps_between(start_of(#[trigger] symbols[j]), hint)
            &&& forall|i: int, j: int|
                0 <= i < symbols.len() && 0 <= j < symbols.len() && start_of(#[trigger] symbols[i])
                    == hint && start_of(#[trigger] symbols[j]) != hint ==> i < j
        }),
        ordered(found, None) == Some(found),
{
    broadcast use vstd::seq_lib::group_to_multiset_ensures;

    let symbols = nearest_first(found, hint);
    assert forall|i: int| 0 <= i < found.len() implies symbol_distance(
        #[trigger] found[i],
        hint,
    ) is Some by {
        assert(starts_near(found[i], hint));
        a_symbol_is_as_far_as_its_start(found[i], hint);
    }
    nearest_come_first(found, hint);
    assert forall|i: int| 0 <= i < symbols.len() implies starts_near(#[trigger] symbols[i], hint)
        && symbol_distance(symbols[i], hint) == Some(
        steps_between(start_of(symbols[i]), hint),
    ) by {
        assert(symbols.contains(symbols[i]));
        assert(symbols.to_multiset().contains(symbols[i]));
        assert(found.contains(symbols[i]));
        let k = found.index_of(symbols[i]);
        assert(starts_near(found[k], hint));
        a_symbol_is_as_far_as_its_start(symbols[i], hint);
    }
    assert forall|i: int, j: int|
        0 <= i < symbols.len() && 0 <= j < symbols.len() && start_of(#[trigger] symbols[i]) == hint
            && start_of(#[trigger] symbols[j]) != hint implies i < j by {
        let far = start_of(symbols[j]);
        assert(steps_between(far, hint) > 0) by {
            assert(far.line != hint.line || far.character != hint.character);
        }
        assert(steps_between(start_of(symbols[i]), hint) == 0);
        if j < i {
            assert(symbol_distance(symbols[j], hint)->0 <= symbol_distance(symbols[i], hint)->0);
        }
    }
}

/// The symbols of the workspace are taken one for one from the answer, in order: a symbol of a plain list
/// with the place where it is, any other as it is.
pub proof fn workspace_symbols_are_taken_one_for_one(
    flat: Seq<SymbolInformationView>,
    nested: Seq<WorkspaceSymbolView>,
)
    ensures
        found_in_workspace(Some(WorkspaceSymbolResponseView::Nested(nested))) == nested,
        found_in_workspace(None).len() == 0,
        ({
            let found = found_in_workspace(Some(WorkspaceSymbolResponseView::Flat(flat)));
            &&& found.len() == flat.len()
            &&& forall|i: int|
                0 <= i < flat.len() ==> (#[trigger] found[i]).name == flat[i].name && found[i].kind
                    == flat[i].kind && found[i].place == SymbolPlaceView::Located(flat[i].location)
        }),
{
}

/// Of a plain list of the symbols of a document those are found that have the text in their names, in
/// order, each with the place where it is.
pub proof fn listed_symbols_are_found_by_their_names(
    symbol_name: Seq<char>,
    uri: Seq<char>,
    symbols: Seq<SymbolInformationView>,
    one: SymbolInformationView,
)
    ensures
        found_in_document(symbol_name, uri, None) == Some(Seq::<WorkspaceSymbolView>::empty()),
        found_in_document(
            symbol_name,
            uri,
            Some(DocumentSymbolResponseView::Flat(symbols.push(one))),
        ) == Some(
            found_in_document(
                symbol_name,
                uri,
                Some(DocumentSymbolResponseView::Flat(symbols)),
            )->0 + (if text::contains_text(one.name, symbol_name) {
                seq![
                    WorkspaceSymbolView {
                        name: one.name,
                        kind: one.kind,
                        place: SymbolPlaceView::Located(one.location),
                    },
                ]
            } else {
                Seq::empty()
            }),
        ),
        found_in_document(
            symbol_name,
            uri,
            Some(DocumentSymbolResponseView::Flat(Seq::empty())),
        ) == Some(Seq::<WorkspaceSymbolView>::empty()),
{
    reveal(Seq::filter);
    let all = symbols.push(one);
    assert(all.drop_last() =~= symbols);
    let before = found_in_document(
        symbol_name,
        uri,
        Some(DocumentSymbolResponseView::Flat(symbols)),
    )->0;
    let after = found_in_document(
        symbol_name,
        uri,
        Some(DocumentSymbolResponseView::Flat(all)),
    )->0;
    if text::contains_text(one.name, symbol_name) {
        assert(after =~= before.push(listed_symbol(one)));
    } else {
        assert(after =~= before);
    }
    assert(found_in_document(
        symbol_name,
        uri,
        Some(DocumentSymbolResponseView::Flat(Seq::empty())),
    )->0 =~= Seq::empty());
}

/// What is said of a place besides where it is: nothing where nothing is asked, else what the server
/// answered about it, place by place.
pub proof fn a_place_is_told_with_its_own_answer(
    args: FindSymbolArgsView,
    left: Seq<SourceLocationView>,
    results: Seq<LocationView>,
    answers: Seq<FindAnswerView>,
    i: int,
)
    requires
        search_ends(args, next_place(args, left, results), answers) is Found,
        0 <= i < left.len(),
    ensures
        ({
            let told = search_ends(args, next_place(args, left, results), answers)->Found_0;
            &&& results.len() + i < told.len()
            &&& args.hover_detail == "none"@ ==> told[results.len() + i].hover_info is None
            &&& args.hover_detail != "none"@ ==> i < answers.len() && (answers[i] matches
                FindAnswerView::Hover(hover) ==> told[results.len() + i].hover_info == hover)
        }),
    decreases left.len(),
{
    let told = search_ends(args, next_place(args, left, results), answers)->Found_0;
    let first = left.first();
    let entry = place_in_file(first, uri::url_path(first.uri)->0, told_hover(args, answers));
    lemma_places_are_told(args, left, results, answers);
    lemma_one_place(args, left, results, answers);
    let rest = answers_left(args, answers);
    if i == 0 {
        lemma_places_are_told(args, left.drop_first(), results.push(entry), rest);
        assert(told[results.len() as int] == told.take(results.len() as int + 1)[results.len() as int]);
        assert(answers.len() > 0 ==> answers.first() == answers[0]);
    } else {
        a_place_is_told_with_its_own_answer(
            args,
            left.drop_first(),
            results.push(entry),
            rest,
            i - 1,
        );
        if args.hover_detail != "none"@ {
            assert(rest[i - 1] == answers[i]);
        }
    }
}

/// The server is asked about the place where a symbol starts, in the document that it is in.
pub proof fn a_symbol_is_asked_about_where_it_starts(
    args: FindSymbolArgsView,
    left: Seq<SourceLocationView>,
    results: Seq<LocationView>,
)
    requires
        left.len() > 0,
        uri::parsed_url(left.first().uri) is Ok,
        args.hover_detail != "none"@,
    ensures
        next_place(args, left, results).1 == FindStepView::Ask(
            LspRequestView {
                method: "textDocument/hover"@,
                params: protocol::place_value(left.first().uri, left.first().range.start),
            },
        ),
{
}

/// A search asks for the file first, where there is a hint of one, and else for the symbol in the whole
/// workspace, with the context behind its name where there is one.
pub proof fn a_search_asks_for_what_it_is_given(args: FindSymbolArgsView)
    ensures
        ({
            let asked = search_begins(args).1->Ask_0;
            let all = search_all(args).1->Ask_0;
            &&& search_begins(args).1 is Ask
            &&& asked.method == "workspace/symbol"@
            &&& args.file matches Some(file) ==> changes::gives_text(asked.params, "query"@, file)
            &&& args.file is None ==> search_begins(args) == search_all(args)
            &&& search_all(args).1 is Ask
            &&& all.method == "workspace/symbol"@
            &&& args.context_hint is None ==> changes::gives_text(
                all.params,
                "query"@,
                args.symbol_name,
            )
            &&& args.context_hint matches Some(context) ==> changes::gives_text(
                all.params,
                "query"@,
                args.symbol_name + " "@ + context,
            )
        }),
{
}

/// A hint of a file leads on by the documents that have it in their URIs: to an error where there are
/// several, to the symbols of the document where there is one, and to the workspace where there is none.
pub proof fn a_file_hint_leads_to_its_document(
    args: FindSymbolArgsView,
    symbols: Seq<SymbolInformationView>,
)
    requires
        args.file is Some,
    ensures
        ({
            let hint = args.file->0;
            let answer = FindAnswerView::Workspace(Some(WorkspaceSymbolResponseView::Flat(symbols)));
            let next = search_goes_on(args, StageView::File, answer);
            &&& (forall|i: int|
                0 <= i < symbols.len() ==> !text::contains_text(
                    (#[trigger] symbols[i]).location.uri,
                    hint,
                )) ==> next == search_all(args) && next.0 is Workspace
            &&& forall|i: int, j: int|
                0 <= i < symbols.len() && 0 <= j < symbols.len() && text::contains_text(
                    (#[trigger] symbols[i]).location.uri,
                    hint,
                ) && text::contains_text((#[trigger] symbols[j]).location.uri, hint)
                    && symbols[i].location.uri != symbols[j].location.uri ==> next.1 is Failed
            &&& forall|i: int|
                0 <= i < symbols.len() && text::contains_text(
                    (#[trigger] symbols[i]).location.uri,
                    hint,
                ) && !(next.1 is Failed) ==> next.0 == StageView::Document(symbols[i].location.uri)
                    && (next.1 matches FindStepView::Ask(asked) && asked.method
                    == "textDocument/documentSymbol"@ && asked.params == protocol::document_value(
                    symbols[i].location.uri,
                ))
        }),
{
    let hint = args.file->0;
    let files = candidate_files(hint, symbols);
    candidates_match_once(hint, symbols);
    if forall|i: int|
        0 <= i < symbols.len() ==> !text::contains_text(
            (#[trigger] symbols[i]).location.uri,
            hint,
        ) {
        lemma_no_candidates(hint, symbols);
    }
    assert forall|i: int, j: int|
        0 <= i < symbols.len() && 0 <= j < symbols.len() && text::contains_text(
            (#[trigger] symbols[i]).location.uri,
            hint,
        ) && text::contains_text((#[trigger] symbols[j]).location.uri, hint)
            && symbols[i].location.uri != symbols[j].location.uri implies files.len() > 1 by {
        assert(files.contains(symbols[i].location.uri) && files.contains(symbols[j].location.uri));
        let p = files.index_of(symbols[i].location.uri);
        let q = files.index_of(symbols[j].location.uri);
        assert(files[p] != files[q]);
    }
    assert forall|i: int|
        0 <= i < symbols.len() && text::contains_text(
            (#[trigger] symbols[i]).location.uri,
            hint,
        ) implies files.contains(symbols[i].location.uri) by {}
    assert(files.len() == 1 ==> forall|uri: Seq<char>| files.contains(uri) ==> uri == files[0]);
}

proof fn lemma_no_candidates(hint: Seq<char>, symbols: Seq<SymbolInformationView>)
    requires
        forall|i: int|
            0 <= i < symbols.len() ==> !text::contains_text(
                (#[trigger] symbols[i]).location.uri,
                hint,
            ),
    ensures
        candidate_files(hint, symbols).len() == 0,
    decreases symbols.len(),
{
    if symbols.len() > 0 {
        assert(symbols[symbols.len() - 1] == symbols.last());
        assert forall|i: int| 0 <= i < symbols.drop_last().len() implies !text::contains_text(
            (#[trigger] symbols.drop_last()[i]).location.uri,
            hint,
        ) by {
            assert(symbols[i] == symbols.drop_last()[i]);
        }
        lemma_no_candidates(hint, symbols.drop_last());
    }
}

/// Where a place that is told is.
pub open spec fn told_at(told: LocationView) -> Position {
    Position { line: told.line, character: told.character }
}

proof fn lemma_told_at_starts(told: Seq<LocationView>, symbols: Seq<WorkspaceSymbolView>)
    requires
        forall|i: int| 0 <= i < symbols.len() ==> (#[trigger] symbols[i]).place is Located,
        told.len() == places(symbols).len(),
        forall|i: int|
            0 <= i < told.len() ==> is_told(#[trigger] told[i], places(symbols)[i]),
    ensures
        told.len() == symbols.len(),
        forall|i: int|
            0 <= i < told.len() ==> told_at(#[trigger] told[i]) == start_of(symbols[i])
                && uri::url_path(symbols[i].place->Located_0.uri) == Some(told[i].path),
{
    no_located_symbol_is_left_out(symbols);
    assert forall|i: int| 0 <= i < told.len() implies told_at(#[trigger] told[i]) == start_of(
        symbols[i],
    ) && uri::url_path(symbols[i].place->Located_0.uri) == Some(told[i].path) by {
        assert(is_told(told[i], places(symbols)[i]));
        assert(symbols[i].place == SymbolPlaceView::Located(places(symbols)[i]));
    }
}

/// The symbols of a document are told from the one that starts nearest to the hint to the one that starts
/// farthest from it, as many as were found, and a place where a symbol starts is told for each.
pub proof fn a_document_is_told_nearest_first(
    args: FindSymbolArgsView,
    uri: Seq<char>,
    request: LspRequestView,
    answer: Option<DocumentSymbolResponseView>,
    answers: Seq<FindAnswerView>,
    hint: Position,
)
    requires
        !args.feeling_lucky,
        args.location_hint == Some(hint),
        hint.line < 0x8000_0000,
        hint.character < 0x8000_0000,
        found_in_document(args.symbol_name, uri, answer) is Some,
        forall|i: int|
            0 <= i < (found_in_document(args.symbol_name, uri, answer)->0).len() ==> starts_near(
                #[trigger] (found_in_document(args.symbol_name, uri, answer)->0)[i],
                hint,
            ),
        search_ends(
            args,
            (StageView::Document(uri), FindStepView::Ask(request)),
            seq![FindAnswerView::Document(answer)] + answers,
        ) is Found,
    ensures
        ({
            let found = found_in_document(args.symbol_name, uri, answer)->0;
            let told = search_ends(
                args,
                (StageView::Document(uri), FindStepView::Ask(request)),
                seq![FindAnswerView::Document(answer)] + answers,
            )->Found_0;
            &&& told.len() == found.len()
            &&& forall|i: int, j: int|
                0 <= i < j < told.len() ==> steps_between(told_at(#[trigger] told[i]), hint)
                    <= steps_between(told_at(#[trigger] told[j]), hint)
            &&& forall|k: int|
                0 <= k < found.len() ==> exists|i: int|
                    0 <= i < told.len() && told_at(#[trigger] told[i]) == start_of(
                        #[trigger] found[k],
                    )
        }),
{
    broadcast use vstd::seq_lib::group_to_multiset_ensures;

    let all = seq![FindAnswerView::Document(answer)] + answers;
    let stage = StageView::Document(uri);
    let found = found_in_document(args.symbol_name, uri, answer)->0;
    let told = search_ends(args, (stage, FindStepView::Ask(request)), all)->Found_0;
    assert(all.first() == FindAnswerView::Document(answer));
    every_located_symbol_is_told(args, stage, request, all);
    symbols_come_by_the_distance_of_their_starts(found, hint);
    let symbols = ordered(found, Some(hint))->0;
    assert(symbols_found(args, stage, all) == Some(symbols));
    assert forall|i: int| 0 <= i < symbols.len() implies (#[trigger] symbols[i]).place is Located by {
        assert(symbols.contains(symbols[i]));
        assert(symbols.to_multiset().contains(symbols[i]));
        assert(found.contains(symbols[i]));
        let k = found.index_of(symbols[i]);
        assert(starts_near(found[k], hint));
    }
    lemma_told_at_starts(told, symbols);
    assert forall|k: int| 0 <= k < found.len() implies exists|i: int|
        0 <= i < told.len() && told_at(#[trigger] told[i]) == start_of(#[trigger] found[k]) by {
        assert(found.contains(found[k]));
        assert(found.to_multiset().contains(found[k]));
        assert(symbols.contains(found[k]));
        let i = symbols.index_of(found[k]);
        assert(told_at(told[i]) == start_of(found[k]));
    }
}

/// The symbols of the workspace are told in the order of the answer, one place for each: the file that it
/// is in, and where it starts.
pub proof fn workspace_symbols_are_told_in_order(
    args: FindSymbolArgsView,
    request: LspRequestView,
    symbols: Seq<SymbolInformationView>,
    answers: Seq<FindAnswerView>,
)
    requires
        !args.feeling_lucky,
        search_ends(
            args,
            (StageView::Workspace, FindStepView::Ask(request)),
            seq![
                FindAnswerView::Workspace(Some(WorkspaceSymbolResponseView::Flat(symbols))),
            ] + answers,
        ) is Found,
    ensures
        ({
            let told = search_ends(
                args,
                (StageView::Workspace, FindStepView::Ask(request)),
                seq![
                    FindAnswerView::Workspace(Some(WorkspaceSymbolResponseView::Flat(symbols))),
                ] + answers,
            )->Found_0;
            &&& told.len() == symbols.len()
            &&& forall|i: int|
                0 <= i < told.len() ==> (#[trigger] told[i]).line
                    == symbols[i].location.range.start.line && told[i].character
                    == symbols[i].location.range.start.character && uri::url_path(
                    symbols[i].location.uri,
                ) == Some(told[i].path)
        }),
{
    let answer = FindAnswerView::Workspace(Some(WorkspaceSymbolResponseView::Flat(symbols)));
    let all = seq![answer] + answers;
    let told = search_ends(
        args,
        (StageView::Workspace, FindStepView::Ask(request)),
        all,
    )->Found_0;
    assert(all.first() == answer);
    every_located_symbol_is_told(args, StageView::Workspace, request, all);
    let found = found_in_workspace(Some(WorkspaceSymbolResponseView::Flat(symbols)));
    workspace_symbols_are_taken_one_for_one(symbols, Seq::empty());
    assert forall|i: int| 0 <= i < found.len() implies (#[trigger] found[i]).place is Located by {
        assert(found[i].place == SymbolPlaceView::Located(symbols[i].location));
    }
    lemma_told_at_starts(told, found);
    assert forall|i: int| 0 <= i < told.len() implies (#[trigger] told[i]).line
        == symbols[i].location.range.start.line && told[i].character
        == symbols[i].location.range.start.character && uri::url_path(symbols[i].location.uri)
        == Some(told[i].path) by {
        assert(told_at(told[i]) == start_of(found[i]));
        assert(found[i].place == SymbolPlaceView::Located(symbols[i].location));
    }
}

/// What is asked and told is seen as it is.
pub proof fn answers_are_seen_as_they_are(answer: FindAnswer, step: FindStep, args: FindSymbolArgs)
    ensures
        answer matches FindAnswer::Hover(hover) ==> answer.deep_view() == FindAnswerView::Hover(
            hover.deep_view(),
        ),
        answer matches FindAnswer::Document(document) ==> answer.deep_view()
            == FindAnswerView::Document(document.deep_view()),
        answer matches FindAnswer::Workspace(workspace) ==> answer.deep_view()
            == FindAnswerView::Workspace(workspace.deep_view()),
        step matches FindStep::Found(locations) ==> step.deep_view() == FindStepView::Found(
            locations.deep_view(),
        ),
        args@.symbol_name == args.symbol_name@,
        args@.location_hint == args.location_hint,
        args@.hover_detail == args.hover_detail@,
        args@.feeling_lucky == args.feeling_lucky,
        args.file matches Some(file) ==> args@.file == Some(file@),
        args.file is None ==> args@.file is None,
        args.context_hint matches Some(context) ==> args@.context_hint == Some(context@),
        args.context_hint is None ==> args@.context_hint is None,
{
}

/// Lines and characters are told apart as integers of 32 bits with sign: each stands for the one that is
/// the same but for a multiple of the full range. The gap between two is the same from either side.
pub proof fn numbers_are_told_apart_with_sign(a: u32, b: u32)
    ensures
        i32::MIN <= signed(a) <= i32::MAX,
        signed(a) == a || signed(a) == a - 0x1_0000_0000,
        gap(a, b) >= 0,
        gap(a, b) == gap(b, a),
        gap(a, b) == signed(a) - signed(b) || gap(a, b) == signed(b) - signed(a),
        gap(a, b) == 0 <==> a == b,
{
}

/// A symbol that is just in a document is no nearer than any symbol with a place; the distance between two
/// positions is the same from either side.
pub proof fn a_symbol_without_a_place_is_farthest(
    name: Seq<char>,
    kind: i32,
    uri: Seq<char>,
    location: SourceLocationView,
    hint: Position,
)
    ensures
        symbol_distance(
            WorkspaceSymbolView { name, kind, place: SymbolPlaceView::Document(uri) },
            hint,
        ) matches Some(far) && (symbol_distance(
            WorkspaceSymbolView { name, kind, place: SymbolPlaceView::Located(location) },
            hint,
        ) matches Some(near) ==> near <= far),
        distance(location.range.start, hint) == distance(hint, location.range.start),
        distance(location.range.start, hint) == Some(0int) <==> location.range.start == hint,
{
}

/// The order that a hint asks for is that of the distances, where there is something to order and they are
/// known. One symbol alone, or symbols without a hint, stay as they are; two or more of which one is too
/// far to tell cannot be ordered.
pub proof fn what_need_not_be_ordered_stays(found: Seq<WorkspaceSymbolView>, hint: Position)
    ensures
        ordered(found, None) == Some(found),
        found.len() < 2 ==> ordered(found, Some(hint)) == Some(found),
        found.len() >= 2 ==> (ordered(found, Some(hint)) is None <==> exists|i: int|
            0 <= i < found.len() && symbol_distance(#[trigger] found[i], hint) is None),
        ordered(found, Some(hint)) matches Some(told) ==> told.len() == found.len(),
{
    lemma_as_many(found, hint);
    if found.len() == 0 {
        assert(found =~= Seq::empty());
    } else if found.len() == 1 {
        assert(found.drop_last() =~= Seq::empty());
        assert(nearest_first(Seq::empty(), hint) =~= Seq::empty());
        assert(Seq::<WorkspaceSymbolView>::empty().push(found.last()) =~= found);
    }
}

proof fn lemma_as_many_with(
    symbols: Seq<WorkspaceSymbolView>,
    symbol: WorkspaceSymbolView,
    hint: Position,
)
    ensures
        with_symbol(symbols, symbol, hint).len() == symbols.len() + 1,
    decreases symbols.len(),
{
    if symbols.len() > 0 {
        lemma_as_many_with(symbols.drop_last(), symbol, hint);
    }
}

proof fn lemma_as_many(symbols: Seq<WorkspaceSymbolView>, hint: Position)
    ensures
        nearest_first(symbols, hint).len() == symbols.len(),
    decreases symbols.len(),
{
    if symbols.len() > 0 {
        lemma_as_many(symbols.drop_last(), hint);
        lemma_as_many_with(nearest_first(symbols.drop_last(), hint), symbols.last(), hint);
    }
}

/// Symbols that lie one inside another are found under the normal form of the URI of their document. Where
/// that has none, they are not found, and it is an error to look for them if there are any.
pub proof fn nested_symbols_are_found_under_the_normal_form(
    symbol_name: Seq<char>,
    uri: Seq<char>,
    symbols: Seq<DocumentSymbolView>,
)
    ensures
        ({
            let found = found_in_document(
                symbol_name,
                uri,
                Some(DocumentSymbolResponseView::Nested(symbols)),
            );
            let some = exists|i: int|
                0 <= i < symbols::all_symbols(symbols).len() && text::contains_text(
                    (#[trigger] symbols::all_symbols(symbols)[i]).name,
                    symbol_name,
                );
            &&& found matches Some(found) ==> forall|i: int|
                0 <= i < found.len() ==> ((#[trigger] found[i]).place matches SymbolPlaceView::Located(
                    location,
                ) && uri::parsed_url(uri) == Ok::<Seq<char>, Seq<char>>(location.uri)
                    && uri::is_uri_text(location.uri) && text::contains_text(
                    found[i].name,
                    symbol_name,
                ))
            &&& found is None <==> some && !(uri::parsed_url(uri) matches Ok(normal)
                && uri::is_uri_text(normal))
        }),
        found_in_document(symbol_name, uri, None) == Some(Seq::<WorkspaceSymbolView>::empty()),
{
    let found = found_in_document(
        symbol_name,
        uri,
        Some(DocumentSymbolResponseView::Nested(symbols)),
    );
    let named = |symbol: DocumentSymbolView| symbols::is_named(symbol, symbol_name);
    let all = symbols::all_symbols(symbols);
    if let Some(list) = found {
        assert forall|i: int| 0 <= i < list.len() implies ((#[trigger] list[i]).place matches SymbolPlaceView::Located(
            location,
        ) && uri::parsed_url(uri) == Ok::<Seq<char>, Seq<char>>(location.uri)
            && uri::is_uri_text(location.uri) && text::contains_text(list[i].name, symbol_name)) by {
            all.lemma_filter_pred(named, i);
        }
    }
    if exists|i: int|
        0 <= i < all.len() && text::contains_text((#[trigger] all[i]).name, symbol_name) {
        let i = choose|i: int|
            0 <= i < all.len() && text::contains_text((#[trigger] all[i]).name, symbol_name);
        assert(symbols::is_named(all[i], symbol_name));
    }
}

/// A hint that means several documents is said to, with the hint and with all of them.
pub proof fn an_ambiguous_hint_is_told_with_its_documents(hint: Seq<char>, uris: Seq<Seq<char>>)
    ensures
        (forall|i: int| 0 <= i < uris.len() ==> encode_utf8(#[trigger] uris[i]).len() <= 0x7fff_ffff)
            ==> ambiguous_file(hint, uris) == ToolErrorView::Internal(
            "Ambiguous file name '"@ + hint + "'. Matches: "@ + listed_uris(uris),
        ),
        (exists|i: int| 0 <= i < uris.len() && encode_utf8(#[trigger] uris[i]).len() > 0x7fff_ffff)
            ==> ambiguous_file(hint, uris) == ToolErrorView::TooLong,
{
}

/// The documents that a hint may mean come from a plain list of symbols alone.
pub proof fn a_hint_is_matched_in_a_plain_list(
    hint: Seq<char>,
    symbols: Seq<SymbolInformationView>,
    nested: Seq<WorkspaceSymbolView>,
)
    ensures
        hinted_files(hint, Some(WorkspaceSymbolResponseView::Flat(symbols))) == candidate_files(
            hint,
            symbols,
        ),
        hinted_files(hint, Some(WorkspaceSymbolResponseView::Nested(nested))).len() == 0,
        hinted_files(hint, None).len() == 0,
{
}

} // verus!
