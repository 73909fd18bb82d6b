//! The symbols of documents, as the language server lists them.
use crate::handler::MyHandler;
use crate::models::{Position, Range, SymbolMember, SymbolMemberView};
use crate::text;
use crate::text::{contains, is_file_name, lines, same_text, trim, trim_end_char};
use crate::uri;
use crate::uri::normal_uri;
use vstd::prelude::*;

verus! {

/// A part of a document.
#[derive(Debug)]
pub struct SourceLocation {
    pub uri: String,
    pub range: Range,
}

/// A symbol, where it is, and the name of the symbol that holds it.
#[derive(Debug)]
pub struct SymbolInformation {
    pub name: String,
    pub kind: i32,
    pub location: SourceLocation,
    pub container_name: Option<String>,
}

/// A symbol of a document, with the symbols in it.
#[derive(Debug)]
pub struct DocumentSymbol {
    pub name: String,
    pub kind: i32,
    pub range: Range,
    pub selection_range: Range,
    pub children: Option<Vec<DocumentSymbol>>,
}

/// Where a symbol is: a part of a document, or just the document.
#[derive(Debug)]
pub enum SymbolPlace {
    Located(SourceLocation),
    Document(String),
}

/// A symbol of the workspace.
#[derive(Debug)]
pub struct WorkspaceSymbol {
    pub name: String,
    pub kind: i32,
    pub place: SymbolPlace,
}

/// The symbols of a document: one after another, or one inside another.
#[derive(Debug)]
pub enum DocumentSymbolResponse {
    Flat(Vec<SymbolInformation>),
    Nested(Vec<DocumentSymbol>),
}

/// The symbols of a workspace that answer a query.
#[derive(Debug)]
pub enum WorkspaceSymbolResponse {
    Flat(Vec<SymbolInformation>),
    Nested(Vec<WorkspaceSymbol>),
}

#[verifier::ext_equal]
pub struct SourceLocationView {
    pub uri: Seq<char>,
    pub range: Range,
}

#[verifier::ext_equal]
pub struct SymbolInformationView {
    pub name: Seq<char>,
    pub kind: i32,
    pub location: SourceLocationView,
    pub container_name: Option<Seq<char>>,
}

#[verifier::ext_equal]
pub struct DocumentSymbolView {
    pub name: Seq<char>,
    pub kind: i32,
    pub range: Range,
    pub selection_range: Range,
    pub children: Option<Seq<DocumentSymbolView>>,
}

#[verifier::ext_equal]
pub enum SymbolPlaceView {
    Located(SourceLocationView),
    Document(Seq<char>),
}

#[verifier::ext_equal]
pub struct WorkspaceSymbolView {
    pub name: Seq<char>,
    pub kind: i32,
    pub place: SymbolPlaceView,
}

#[verifier::ext_equal]
pub enum DocumentSymbolResponseView {
    Flat(Seq<SymbolInformationView>),
    Nested(Seq<DocumentSymbolView>),
}

#[verifier::ext_equal]
pub enum WorkspaceSymbolResponseView {
    Flat(Seq<SymbolInformationView>),
    Nested(Seq<WorkspaceSymbolView>),
}

impl DeepView for SourceLocation {
    type V = SourceLocationView;

    open spec fn deep_view(&self) -> SourceLocationView {
        SourceLocationView { uri: self.uri@, range: self.range }
    }
}

impl DeepView for SymbolInformation {
    type V = SymbolInformationView;

    open spec fn deep_view(&self) -> SymbolInformationView {
        SymbolInformationView {
            name: self.name@,
            kind: self.kind,
            location: self.location.deep_view(),
            container_name: self.container_name.deep_view(),
        }
    }
}

pub open spec fn symbol_view(symbol: DocumentSymbol) -> DocumentSymbolView
    decreases symbol,
{
    DocumentSymbolView {
        name: symbol.name@,
        kind: symbol.kind,
        range: symbol.range,
        selection_range: symbol.selection_range,
        children: match symbol.children {
            Some(children) => Some(symbols_view(children@)),
            None => None,
        },
    }
}

pub open spec fn symbols_view(symbols: Seq<DocumentSymbol>) -> Seq<DocumentSymbolView>
    decreases symbols,
{
    if symbols.len() == 0 {
        Seq::empty()
    } else {
        symbols_view(symbols.drop_last()).push(symbol_view(symbols.last()))
    }
}

impl DeepView for DocumentSymbol {
    type V = DocumentSymbolView;

    open spec fn deep_view(&self) -> DocumentSymbolView {
        symbol_view(*self)
    }
}

impl DeepView for SymbolPlace {
    type V = SymbolPlaceView;

    open spec fn deep_view(&self) -> SymbolPlaceView {
        match *self {
            SymbolPlace::Located(location) => SymbolPlaceView::Located(location.deep_view()),
            SymbolPlace::Document(uri) => SymbolPlaceView::Document(uri@),
        }
    }
}

impl DeepView for WorkspaceSymbol {
    type V = WorkspaceSymbolView;

    open spec fn deep_view(&self) -> WorkspaceSymbolView {
        WorkspaceSymbolView { name: self.name@, kind: self.kind, place: self.place.deep_view() }
    }
}

impl DeepView for DocumentSymbolResponse {
    type V = DocumentSymbolResponseView;

    open spec fn deep_view(&self) -> DocumentSymbolResponseView {
        match *self {
            DocumentSymbolResponse::Flat(symbols) => DocumentSymbolResponseView::Flat(
                symbols.deep_view(),
            ),
            DocumentSymbolResponse::Nested(symbols) => DocumentSymbolResponseView::Nested(
                symbols.deep_view(),
            ),
        }
    }
}

impl DeepView for WorkspaceSymbolResponse {
    type V = WorkspaceSymbolResponseView;

    open spec fn deep_view(&self) -> WorkspaceSymbolResponseView {
        match *self {
            WorkspaceSymbolResponse::Flat(symbols) => WorkspaceSymbolResponseView::Flat(
                symbols.deep_view(),
            ),
            WorkspaceSymbolResponse::Nested(symbols) => WorkspaceSymbolResponseView::Nested(
                symbols.deep_view(),
            ),
        }
    }
}

proof fn lemma_symbols_view(symbols: Seq<DocumentSymbol>)
    ensures
        symbols_view(symbols).len() == symbols.len(),
        forall|i: int|
            0 <= i < symbols.len() ==> #[trigger] symbols_view(symbols)[i] == symbol_view(
                symbols[i],
            ),
    decreases symbols.len(),
{
    if symbols.len() > 0 {
        lemma_symbols_view(symbols.drop_last());
    }
}

/// The symbols and those inside them, each before the symbols inside it.
pub open spec fn all_symbols(symbols: Seq<DocumentSymbolView>) -> Seq<DocumentSymbolView>
    decreases symbols,
{
    if symbols.len() == 0 {
        Seq::empty()
    } else {
        all_symbols(symbols.drop_last()) + seq![symbols.last()] + (match symbols.last().children {
            Some(children) => all_symbols(children),
            None => Seq::empty(),
        })
    }
}

/// The symbols of a document, one after another, each with its range.
pub open spec fn symbol_ranges(symbols: Seq<DocumentSymbolView>) -> Seq<(Seq<char>, Range)> {
    all_symbols(symbols).map_values(|symbol: DocumentSymbolView| (symbol.name, symbol.range))
}

/// Lists the symbols and those inside them after what is there already.
pub fn flatten(symbols: &Vec<DocumentSymbol>, target: &mut Vec<(String, Range)>)
    ensures
        final(target).deep_view() == old(target).deep_view() + symbol_ranges(symbols.deep_view()),
    decreases symbols,
{
    let ghost views = symbols.deep_view();
    let ghost before = target.deep_view();
    assert(symbol_ranges(views.take(0)) =~= Seq::empty());
    assert(target.deep_view() =~= before + symbol_ranges(views.take(0)));
    let mut i: usize = 0;
    while i < symbols.len()
        invariant
            i <= symbols@.len(),
            views == symbols.deep_view(),
            target.deep_view() == before + symbol_ranges(views.take(i as int)),
        decreases symbols@.len() - i,
    {
        let symbol = &symbols[i];
        let ghost earlier = target.deep_view();
        target.push((symbol.name.clone(), symbol.range));
        assert(target.deep_view() =~= earlier.push((symbol.name@, symbol.range)));
        assert(views.take(i + 1).drop_last() =~= views.take(i as int));
        assert(views.take(i + 1).last() == symbol_view(*symbol));
        match &symbol.children {
            Some(children) => {
                assert(decreases_to!(*symbols => symbols@));
                assert(decreases_to!(symbols@ => symbols@[i as int]));
                assert(decreases_to!(symbols@[i as int] => symbols@[i as int].children));
                flatten(children, target);
                proof {
                    lemma_symbols_view(children@);
                    assert(children.deep_view() =~= symbols_view(children@));
                    assert(symbol_ranges(views.take(i + 1)) =~= symbol_ranges(views.take(i as int))
                        + seq![(symbol.name@, symbol.range)] + symbol_ranges(children.deep_view()));
                }
            },
            None => {
                assert(symbol_ranges(views.take(i + 1)) =~= symbol_ranges(views.take(i as int))
                    + seq![(symbol.name@, symbol.range)]);
            },
        }
        assert(target.deep_view() =~= before + symbol_ranges(views.take(i + 1)));
        i += 1;
    }
    assert(views.take(i as int) =~= views);
}

/// Whether a symbol has a name with that text in it.
pub open spec fn is_named(symbol: DocumentSymbolView, name_filter: Seq<char>) -> bool {
    text::contains_text(symbol.name, name_filter)
}

/// A symbol of a document, as a symbol of the workspace.
pub open spec fn found_symbol(symbol: DocumentSymbolView, uri: Seq<char>) -> WorkspaceSymbolView {
    WorkspaceSymbolView {
        name: symbol.name,
        kind: symbol.kind,
        place: SymbolPlaceView::Located(SourceLocationView { uri, range: symbol.range }),
    }
}

/// The symbols with that text in their names, at any depth, in the order of the document.
pub open spec fn matching_symbols(
    symbols: Seq<DocumentSymbolView>,
    name_filter: Seq<char>,
    uri: Seq<char>,
) -> Seq<WorkspaceSymbolView> {
    all_symbols(symbols).filter(
        |symbol: DocumentSymbolView| is_named(symbol, name_filter),
    ).map_values(|symbol: DocumentSymbolView| found_symbol(symbol, uri))
}

/// Whether a symbol, or one inside it, has a name with that text in it.
pub open spec fn some_named(symbols: Seq<DocumentSymbolView>, name_filter: Seq<char>) -> bool {
    exists|i: int|
        0 <= i < all_symbols(symbols).len() && is_named(
            #[trigger] all_symbols(symbols)[i],
            name_filter,
        )
}

proof fn lemma_matching_next(
    symbols: Seq<DocumentSymbolView>,
    name_filter: Seq<char>,
    uri: Seq<char>,
)
    requires
        symbols.len() > 0,
    ensures
        matching_symbols(symbols, name_filter, uri) == matching_symbols(
            symbols.drop_last(),
            name_filter,
            uri,
        ) + (if is_named(symbols.last(), name_filter) {
            seq![found_symbol(symbols.last(), uri)]
        } else {
            Seq::empty()
        }) + (match symbols.last().children {
            Some(children) => matching_symbols(children, name_filter, uri),
            None => Seq::empty(),
        }),
{
    let named = |symbol: DocumentSymbolView| is_named(symbol, name_filter);
    let found = |symbol: DocumentSymbolView| found_symbol(symbol, uri);
    let last = symbols.last();
    let before = all_symbols(symbols.drop_last());
    let inside = match last.children {
        Some(children) => all_symbols(children),
        None => Seq::empty(),
    };
    Seq::filter_distributes_over_add(before + seq![last], inside, named);
    Seq::filter_distributes_over_add(before, seq![last], named);
    reveal(Seq::filter);
    assert(seq![last].drop_last() =~= Seq::empty());
    let own = if named(last) {
        seq![last]
    } else {
        Seq::empty()
    };
    assert(seq![last].filter(named) =~= own) by {
        assert(Seq::<DocumentSymbolView>::empty().filter(named) =~= Seq::empty());
    }
    assert(all_symbols(symbols) == before + seq![last] + inside);
    assert(Seq::<DocumentSymbolView>::empty().filter(named) =~= Seq::empty());
    assert((before.filter(named) + own + inside.filter(named)).map_values(found)
        =~= before.filter(named).map_values(found) + own.map_values(found) + inside.filter(
        named,
    ).map_values(found));
    assert(own.map_values(found) =~= if named(last) {
        seq![found_symbol(last, uri)]
    } else {
        Seq::empty()
    });
}

/// Lists the symbols with that text in their names after what is there already.
fn collect_matching(
    symbols: &Vec<DocumentSymbol>,
    name_filter: &str,
    uri: &str,
    results: &mut Vec<WorkspaceSymbol>,
)
    ensures
        final(results).deep_view() == old(results).deep_view() + matching_symbols(
            symbols.deep_view(),
            name_filter@,
            uri@,
        ),
    decreases symbols,
{
    let ghost views = symbols.deep_view();
    let ghost before = results.deep_view();
    proof {
        reveal(Seq::filter);
        assert(matching_symbols(views.take(0), name_filter@, uri@) =~= Seq::empty());
        assert(results.deep_view() =~= before + matching_symbols(
            views.take(0),
            name_filter@,
            uri@,
        ));
    }
    let mut i: usize = 0;
    while i < symbols.len()
        invariant
            i <= symbols@.len(),
            views == symbols.deep_view(),
            results.deep_view() == before + matching_symbols(
                views.take(i as int),
                name_filter@,
                uri@,
            ),
        decreases symbols@.len() - i,
    {
        let symbol = &symbols[i];
        let ghost earlier = results.deep_view();
        proof {
            lemma_matching_next(views.take(i + 1), name_filter@, uri@);
            assert(views.take(i + 1).drop_last() =~= views.take(i as int));
            assert(views.take(i + 1).last() == symbol_view(*symbol));
        }
        if contains(symbol.name.as_str(), name_filter) {
            results.push(
                WorkspaceSymbol {
                    name: symbol.name.clone(),
                    kind: symbol.kind,
                    place: SymbolPlace::Located(
                        SourceLocation { uri: uri.to_owned(), range: symbol.range },
                    ),
                },
            );
            assert(results.deep_view() =~= earlier.push(
                found_symbol(symbol_view(*symbol), uri@),
            ));
        }
        match &symbol.children {
            Some(children) => {
                assert(decreases_to!(*symbols => symbols@));
                assert(decreases_to!(symbols@ => symbols@[i as int]));
                assert(decreases_to!(symbols@[i as int] => symbols@[i as int].children));
                collect_matching(children, name_filter, uri, results);
                proof {
                    lemma_symbols_view(children@);
                    assert(children.deep_view() =~= symbols_view(children@));
                }
            },
            None => {},
        }
        assert(results.deep_view() =~= before + matching_symbols(
            views.take(i + 1),
            name_filter@,
            uri@,
        ));
        i += 1;
    }
    assert(views.take(i as int) =~= views);
}

/// A signature: the line without what opens or ends it.
pub open spec fn signature_of(line: Seq<char>) -> Seq<char> {
    text::trimmed(
        text::trim_end_char_of(text::trim_end_char_of(text::trimmed(line), '{'), ';'),
    )
}

impl MyHandler {
    /// The signature in a line.
    pub fn clean_signature(line: &str) -> (signature: String)
        ensures
            signature@ == signature_of(line@),
    {
        let whole = trim(line);
        let unopened = trim_end_char(whole.as_str(), '{');
        let unended = trim_end_char(unopened.as_str(), ';');
        trim(unended.as_str())
    }

    /// Lists the symbols with that text in their names after what is there already, each at its
    /// place in the document. `false`, and nothing listed, where there is one to list and the URI of
    /// the document has no normal form.
    pub fn collect_nested_matching_symbols(
        symbols: &Vec<DocumentSymbol>,
        name_filter: &str,
        uri: &str,
        results: &mut Vec<WorkspaceSymbol>,
    ) -> (collected: bool)
        ensures
            match uri::as_uri(uri::parsed_url(uri@).ok()) {
                Some(normal) => collected && final(results).deep_view()
                    == old(results).deep_view() + matching_symbols(
                    symbols.deep_view(),
                    name_filter@,
                    normal,
                ),
                None => collected == !some_named(symbols.deep_view(), name_filter@)
                    && final(results).deep_view() == old(results).deep_view(),
            },
    {
        match normal_uri(uri) {
            Some(normal) => {
                collect_matching(symbols, name_filter, normal.as_str(), results);
                true
            },
            None => {
                let mut unplaced: Vec<WorkspaceSymbol> = Vec::new();
                collect_matching(symbols, name_filter, uri, &mut unplaced);
                proof {
                    let all = all_symbols(symbols.deep_view());
                    let named = |symbol: DocumentSymbolView| is_named(symbol, name_filter@);
                    broadcast use vstd::seq_lib::group_filter_ensures;

                    assert(unplaced.deep_view() =~= matching_symbols(
                        symbols.deep_view(),
                        name_filter@,
                        uri@,
                    ));
                    assert(unplaced@.len() == all.filter(named).len());
                    if some_named(symbols.deep_view(), name_filter@) {
                        let i = choose|i: int|
                            0 <= i < all.len() && is_named(#[trigger] all[i], name_filter@);
                        assert(named(all[i]));
                        assert(all.filter(named).contains(all[i]));
                    }
                    if all.filter(named).len() > 0 {
                        lemma_filtered_comes_from(all, named);
                    }
                }
                unplaced.len() == 0
            },
        }
    }
}

proof fn lemma_filtered_comes_from(
    all: Seq<DocumentSymbolView>,
    pred: spec_fn(DocumentSymbolView) -> bool,
)
    requires
        all.filter(pred).len() > 0,
    ensures
        exists|i: int| 0 <= i < all.len() && pred(#[trigger] all[i]),
    decreases all.len(),
{
    reveal(Seq::filter);
    if pred(all.last()) {
        assert(pred(all[all.len() - 1]));
    } else {
        lemma_filtered_comes_from(all.drop_last(), pred);
        let i = choose|i: int|
            0 <= i < all.drop_last().len() && pred(#[trigger] all.drop_last()[i]);
        assert(pred(all[i]));
    }
}

/// The name that `lsp_types::SymbolKind` gives a kind of symbol.
pub uninterp spec fn symbol_kind_text(kind: i32) -> Seq<char>;

/// `<lsp_types::SymbolKind as Debug>::fmt`: the name depends on the number of the kind alone. Every
/// number is one of a kind.
#[verifier::external_body]
fn symbol_kind_name(kind: i32) -> (name: String)
    ensures
        name@ == symbol_kind_text(kind),
{
    let kind: lsp_types::SymbolKind = serde_json::from_value(kind.into()).unwrap();
    format!("{:?}", kind)
}

/// The signature of what a line declares; empty where there is no such line.
pub open spec fn signature_at(lines: Seq<Seq<char>>, line: u32) -> Seq<char> {
    if line < lines.len() {
        signature_of(lines[line as int])
    } else {
        Seq::empty()
    }
}

/// What is shown of a symbol of that name and kind whose name stands there.
pub open spec fn member_at(
    name: Seq<char>,
    kind: i32,
    position: Position,
    lines: Seq<Seq<char>>,
) -> SymbolMemberView {
    SymbolMemberView {
        name,
        signature: signature_at(lines, position.line),
        line: position.line,
        character: position.character,
        kind: symbol_kind_text(kind),
    }
}

/// What is shown of a symbol.
pub open spec fn member_of(
    symbol: DocumentSymbolView,
    lines: Seq<Seq<char>>,
) -> SymbolMemberView {
    member_at(symbol.name, symbol.kind, symbol.selection_range.start, lines)
}

/// The symbols and those inside them down to that many levels, each before the symbols inside it.
/// The first level is always there.
pub open spec fn symbols_within(
    symbols: Seq<DocumentSymbolView>,
    levels: int,
) -> Seq<DocumentSymbolView>
    decreases symbols,
{
    if symbols.len() == 0 {
        Seq::empty()
    } else {
        symbols_within(symbols.drop_last(), levels) + seq![symbols.last()] + (match symbols.last(
        ).children {
            Some(children) => if levels > 1 {
                symbols_within(children, levels - 1)
            } else {
                Seq::empty()
            },
            None => Seq::empty(),
        })
    }
}

/// What is shown of the symbols down to that many levels.
pub open spec fn members_within(
    symbols: Seq<DocumentSymbolView>,
    levels: int,
    lines: Seq<Seq<char>>,
) -> Seq<SymbolMemberView> {
    symbols_within(symbols, levels).map_values(
        |symbol: DocumentSymbolView| member_of(symbol, lines),
    )
}

/// Shows a symbol of that name and kind whose name stands there.
fn show_member(name: String, kind: i32, position: Position, lines: &Vec<String>) -> (member:
    SymbolMember)
    ensures
        member.deep_view() == member_at(name@, kind, position, lines.deep_view()),
{
    let at = position.line as usize;
    let signature = if at < lines.len() {
        MyHandler::clean_signature(lines[at].as_str())
    } else {
        String::new()
    };
    SymbolMember {
        name,
        signature,
        line: position.line,
        character: position.character,
        kind: symbol_kind_name(kind),
    }
}

impl MyHandler {
    /// Shows the symbols down to the last level after what is there already.
    pub fn collect_nested_symbol_members(
        symbols: &Vec<DocumentSymbol>,
        current_level: u32,
        max_level: u32,
        results: &mut Vec<SymbolMember>,
        lines: &Vec<String>,
    )
        requires
            symbols@.len() > 0 ==> current_level < u32::MAX,
        ensures
            final(results).deep_view() == old(results).deep_view() + members_within(
                symbols.deep_view(),
                max_level - current_level,
                lines.deep_view(),
            ),
        decreases symbols,
    {
        let ghost views = symbols.deep_view();
        let ghost levels = max_level - current_level;
        let ghost before = results.deep_view();
        assert(results.deep_view() =~= before + members_within(
            views.take(0),
            levels,
            lines.deep_view(),
        ));
        let mut i: usize = 0;
        while i < symbols.len()
            invariant
                i <= symbols@.len(),
                symbols@.len() > 0 ==> current_level < u32::MAX,
                views == symbols.deep_view(),
                levels == max_level - current_level,
                results.deep_view() == before + members_within(
                    views.take(i as int),
                    levels,
                    lines.deep_view(),
                ),
            decreases symbols@.len() - i,
        {
            let symbol = &symbols[i];
            let ghost earlier = results.deep_view();
            results.push(
                show_member(
                    symbol.name.clone(),
                    symbol.kind,
                    symbol.selection_range.start,
                    lines,
                ),
            );
            let ghost own = member_of(symbol_view(*symbol), lines.deep_view());
            assert(results.deep_view() =~= earlier.push(own));
            assert(views.take(i + 1).drop_last() =~= views.take(i as int));
            assert(views.take(i + 1).last() == symbol_view(*symbol));
            let ghost inside = match symbol_view(*symbol).children {
                Some(children) => if levels > 1 {
                    members_within(children, levels - 1, lines.deep_view())
                } else {
                    Seq::empty()
                },
                None => Seq::empty(),
            };
            assert(members_within(views.take(i + 1), levels, lines.deep_view()) =~= members_within(
                views.take(i as int),
                levels,
                lines.deep_view(),
            ) + seq![own] + inside);
            if current_level + 1 < max_level {
                if let Some(children) = &symbol.children {
                    assert(decreases_to!(*symbols => symbols@));
                    assert(decreases_to!(symbols@ => symbols@[i as int]));
                    assert(decreases_to!(symbols@[i as int] => symbols@[i as int].children));
                    MyHandler::collect_nested_symbol_members(
                        children,
                        current_level + 1,
                        max_level,
                        results,
                        lines,
                    );
                    proof {
                        lemma_symbols_view(children@);
                        assert(children.deep_view() =~= symbols_view(children@));
                    }
                }
            }
            assert(results.deep_view() =~= before + members_within(
                views.take(i + 1),
                levels,
                lines.deep_view(),
            ));
            i += 1;
        }
        assert(views.take(i as int) =~= views);
    }
}

/// A member under the name of the symbol that it belongs to.
pub open spec fn qualified(symbol: Seq<char>, member: SymbolMemberView) -> SymbolMemberView {
    SymbolMemberView { name: symbol + "::"@ + member.name, ..member }
}

/// What lies directly within the outermost symbols of that name.
pub open spec fn inside(symbols: Seq<DocumentSymbolView>, name: Seq<char>) -> Seq<
    DocumentSymbolView,
>
    decreases symbols,
{
    if symbols.len() == 0 {
        Seq::empty()
    } else {
        inside(symbols.drop_last(), name) + (match symbols.last().children {
            Some(children) => if symbols.last().name == name {
                children
            } else {
                inside(children, name)
            },
            None => Seq::empty(),
        })
    }
}

/// Whether a symbol, or one inside it, has that name.
pub open spec fn holds_name(symbols: Seq<DocumentSymbolView>, name: Seq<char>) -> bool {
    exists|i: int|
        0 <= i < all_symbols(symbols).len() && (#[trigger] all_symbols(symbols)[i]).name == name
}

/// Whether a symbol of the list has that name, or lies within one that has it.
pub open spec fn lists_name(symbols: Seq<SymbolInformationView>, name: Seq<char>) -> bool {
    exists|i: int|
        0 <= i < symbols.len() && ((#[trigger] symbols[i]).name == name || symbols[i].container_name
            == Some(name))
}

/// The symbols of the list that lie within one of that name.
pub open spec fn listed_inside(symbols: Seq<SymbolInformationView>, name: Seq<char>) -> Seq<
    SymbolInformationView,
> {
    symbols.filter(|symbol: SymbolInformationView| symbol.container_name == Some(name))
}

/// What lies within a symbol, where there is one of that name; the whole file, where the name is that
/// of the file.
pub open spec fn nested_members(
    symbol: Seq<char>,
    path: Seq<char>,
    symbols: Seq<DocumentSymbolView>,
) -> Seq<DocumentSymbolView> {
    if holds_name(symbols, symbol) {
        inside(symbols, symbol)
    } else if text::is_last_part(path, symbol, text::path_separators()) {
        symbols
    } else {
        Seq::empty()
    }
}

/// What lies within a symbol, where there is one of that name; the whole file, where the name is that
/// of the file.
pub open spec fn listed_members(
    symbol: Seq<char>,
    path: Seq<char>,
    symbols: Seq<SymbolInformationView>,
) -> Seq<SymbolInformationView> {
    if lists_name(symbols, symbol) {
        listed_inside(symbols, symbol)
    } else if text::is_last_part(path, symbol, text::path_separators()) {
        symbols
    } else {
        Seq::empty()
    }
}

/// What is shown of a symbol of a list, under the name of the symbol that it belongs to.
pub open spec fn listed_member(
    symbol: Seq<char>,
    listed: SymbolInformationView,
    lines: Seq<Seq<char>>,
) -> SymbolMemberView {
    qualified(symbol, member_at(listed.name, listed.kind, listed.location.range.start, lines))
}

/// What is shown of the symbols of a list, under the name of the symbol that they belong to.
pub open spec fn listed_shown(
    symbol: Seq<char>,
    symbols: Seq<SymbolInformationView>,
    lines: Seq<Seq<char>>,
) -> Seq<SymbolMemberView> {
    symbols.map_values(|listed: SymbolInformationView| listed_member(symbol, listed, lines))
}

/// What is shown of the methods and attributes within a symbol of the file at that path: those down
/// to that level, where the symbols lie one inside another.
pub open spec fn sub_symbol_members(
    symbol: Seq<char>,
    path: Seq<char>,
    level: u32,
    response: DocumentSymbolResponseView,
    content: Seq<char>,
) -> Seq<SymbolMemberView> {
    let lines = text::lines_of(content);
    match response {
        DocumentSymbolResponseView::Flat(symbols) => listed_shown(
            symbol,
            listed_members(symbol, path, symbols),
            lines,
        ),
        DocumentSymbolResponseView::Nested(symbols) => members_within(
            nested_members(symbol, path, symbols),
            level as int,
            lines,
        ).map_values(|member: SymbolMemberView| qualified(symbol, member)),
    }
}

/// Puts the member under the name of the symbol that it belongs to.
fn qualify(symbol: &str, member: &mut SymbolMember)
    ensures
        final(member).deep_view() == qualified(symbol@, old(member).deep_view()),
{
    let mut name = symbol.to_owned();
    name.append("::");
    name.append(member.name.as_str());
    member.name = name;
}

proof fn lemma_within_sum(a: Seq<DocumentSymbolView>, b: Seq<DocumentSymbolView>, levels: int)
    ensures
        symbols_within(a + b, levels) == symbols_within(a, levels) + symbols_within(b, levels),
    decreases b.len(),
{
    if b.len() == 0 {
        assert(a + b =~= a);
        assert(symbols_within(a, levels) + symbols_within(b, levels) =~= symbols_within(a, levels));
    } else {
        lemma_within_sum(a, b.drop_last(), levels);
        assert((a + b).drop_last() =~= a + b.drop_last());
        assert((a + b).last() == b.last());
        assert(symbols_within(a + b, levels) =~= symbols_within(a, levels) + symbols_within(
            b,
            levels,
        ));
    }
}

proof fn lemma_members_sum(
    a: Seq<DocumentSymbolView>,
    b: Seq<DocumentSymbolView>,
    levels: int,
    lines: Seq<Seq<char>>,
)
    ensures
        members_within(a + b, levels, lines) == members_within(a, levels, lines) + members_within(
            b,
            levels,
            lines,
        ),
{
    lemma_within_sum(a, b, levels);
    assert(members_within(a + b, levels, lines) =~= members_within(a, levels, lines)
        + members_within(b, levels, lines));
}

proof fn lemma_holds_next(symbols: Seq<DocumentSymbolView>, name: Seq<char>)
    requires
        symbols.len() > 0,
    ensures
        holds_name(symbols, name) == (holds_name(symbols.drop_last(), name) || symbols.last().name
            == name || (symbols.last().children is Some && holds_name(
            symbols.last().children->0,
            name,
        ))),
{
    let all = all_symbols(symbols);
    let before = all_symbols(symbols.drop_last());
    let within = match symbols.last().children {
        Some(children) => all_symbols(children),
        None => Seq::empty(),
    };
    assert(all == before + seq![symbols.last()] + within);
    if holds_name(symbols, name) {
        let i = choose|i: int| 0 <= i < all.len() && (#[trigger] all[i]).name == name;
        if i < before.len() {
            assert(before[i].name == name);
        } else if i > before.len() {
            assert(within[i - before.len() - 1].name == name);
        }
    }
    if holds_name(symbols.drop_last(), name) {
        let i = choose|i: int| 0 <= i < before.len() && (#[trigger] before[i]).name == name;
        assert(all[i].name == name);
    }
    if symbols.last().name == name {
        assert(all[before.len() as int].name == name);
    }
    if symbols.last().children is Some && holds_name(symbols.last().children->0, name) {
        let i = choose|i: int| 0 <= i < within.len() && (#[trigger] within[i]).name == name;
        assert(all[before.len() + 1 + i].name == name);
    }
}

/// Shows what lies within the outermost symbols of that name after what is there already, and tells
/// whether there is such a symbol.
fn collect_inside(
    symbols: &Vec<DocumentSymbol>,
    name: &str,
    level: u32,
    results: &mut Vec<SymbolMember>,
    lines: &Vec<String>,
) -> (held: bool)
    ensures
        held == holds_name(symbols.deep_view(), name@),
        final(results).deep_view() == old(results).deep_view() + members_within(
            inside(symbols.deep_view(), name@),
            level as int,
            lines.deep_view(),
        ),
    decreases symbols,
{
    let ghost views = symbols.deep_view();
    let ghost before = results.deep_view();
    let ghost levels = level as int;
    assert(results.deep_view() =~= before + members_within(
        inside(views.take(0), name@),
        levels,
        lines.deep_view(),
    ));
    let mut held = false;
    let mut i: usize = 0;
    while i < symbols.len()
        invariant
            i <= symbols@.len(),
            views == symbols.deep_view(),
            levels == level,
            held == holds_name(views.take(i as int), name@),
            results.deep_view() == before + members_within(
                inside(views.take(i as int), name@),
                levels,
                lines.deep_view(),
            ),
        decreases symbols@.len() - i,
    {
        let symbol = &symbols[i];
        let ghost earlier = results.deep_view();
        let named = same_text(symbol.name.as_str(), name);
        assert(views.take(i + 1).drop_last() =~= views.take(i as int));
        assert(views.take(i + 1).last() == symbol_view(*symbol));
        proof {
            lemma_holds_next(views.take(i + 1), name@);
        }
        match &symbol.children {
            Some(children) => {
                proof {
                    lemma_symbols_view(children@);
                    assert(children.deep_view() =~= symbols_view(children@));
                    lemma_members_sum(
                        inside(views.take(i as int), name@),
                        if named {
                            children.deep_view()
                        } else {
                            inside(children.deep_view(), name@)
                        },
                        levels,
                        lines.deep_view(),
                    );
                }
                if named {
                    MyHandler::collect_nested_symbol_members(children, 0, level, results, lines);
                } else {
                    assert(decreases_to!(*symbols => symbols@));
                    assert(decreases_to!(symbols@ => symbols@[i as int]));
                    assert(decreases_to!(symbols@[i as int] => symbols@[i as int].children));
                    if collect_inside(children, name, level, results, lines) {
                        held = true;
                    }
                }
            },
            None => {
                assert(inside(views.take(i + 1), name@) =~= inside(views.take(i as int), name@));
            },
        }
        if named {
            held = true;
        }
        assert(results.deep_view() =~= before + members_within(
            inside(views.take(i + 1), name@),
            levels,
            lines.deep_view(),
        ));
        i += 1;
    }
    assert(views.take(i as int) =~= views);
    held
}

/// Whether the symbol lies within one of that name.
fn lies_within(listed: &SymbolInformation, symbol: &str) -> (within: bool)
    ensures
        within == (listed.container_name.deep_view() == Some(symbol@)),
{
    match &listed.container_name {
        Some(container) => same_text(container.as_str(), symbol),
        None => false,
    }
}

/// Whether a symbol of the list has that name, or lies within one that has it.
fn is_listed(symbols: &Vec<SymbolInformation>, symbol: &str) -> (listed: bool)
    ensures
        listed == lists_name(symbols.deep_view(), symbol@),
{
    let mut i: usize = 0;
    while i < symbols.len()
        invariant
            i <= symbols@.len(),
            forall|k: int|
                0 <= k < i ==> (#[trigger] symbols.deep_view()[k]).name != symbol@
                    && symbols.deep_view()[k].container_name != Some(symbol@),
        decreases symbols@.len() - i,
    {
        if same_text(symbols[i].name.as_str(), symbol) || lies_within(&symbols[i], symbol) {
            assert(symbols.deep_view()[i as int].name == symbol@ || symbols.deep_view()[i as int].container_name
                == Some(symbol@));
            return true;
        }
        i += 1;
    }
    false
}

/// Shows the symbols of a list: all of them, or those that lie within the symbol.
fn show_listed(
    symbols: &Vec<SymbolInformation>,
    all: bool,
    symbol: &str,
    lines: &Vec<String>,
) -> (members: Vec<SymbolMember>)
    ensures
        members.deep_view() == listed_shown(
            symbol@,
            if all {
                symbols.deep_view()
            } else {
                listed_inside(symbols.deep_view(), symbol@)
            },
            lines.deep_view(),
        ),
{
    let ghost views = symbols.deep_view();
    let ghost shown = lines.deep_view();
    let mut members: Vec<SymbolMember> = Vec::new();
    proof {
        reveal(Seq::filter);
        assert(listed_inside(views.take(0), symbol@) =~= Seq::empty());
        assert(listed_shown(symbol@, Seq::empty(), shown) =~= Seq::empty());
        assert(views.take(0) =~= Seq::empty());
        assert(members.deep_view() =~= Seq::empty());
    }
    let mut i: usize = 0;
    while i < symbols.len()
        invariant
            i <= symbols@.len(),
            views == symbols.deep_view(),
            shown == lines.deep_view(),
            members.deep_view() == listed_shown(
                symbol@,
                if all {
                    views.take(i as int)
                } else {
                    listed_inside(views.take(i as int), symbol@)
                },
                shown,
            ),
        decreases symbols@.len() - i,
    {
        let ghost earlier = members.deep_view();
        let ghost next = views[i as int];
        proof {
            reveal(Seq::filter);
            assert(views.take(i + 1).drop_last() =~= views.take(i as int));
            assert(views.take(i + 1) =~= views.take(i as int).push(next));
            assert(next == symbols@[i as int].deep_view());
        }
        if all || lies_within(&symbols[i], symbol) {
            let mut member = show_member(
                symbols[i].name.clone(),
                symbols[i].kind,
                symbols[i].location.range.start,
                lines,
            );
            qualify(symbol, &mut member);
            members.push(member);
            assert(members.deep_view() =~= earlier.push(listed_member(symbol@, next, shown)));
            assert(!all ==> listed_inside(views.take(i + 1), symbol@) == listed_inside(
                views.take(i as int),
                symbol@,
            ).push(next));
            assert(members.deep_view() =~= listed_shown(
                symbol@,
                if all {
                    views.take(i + 1)
                } else {
                    listed_inside(views.take(i + 1), symbol@)
                },
                shown,
            ));
        }
        i += 1;
    }
    assert(views.take(i as int) =~= views);
    members
}

/// Shows the methods and attributes within a symbol of the file at that path, which has that content.
pub fn sub_symbols(
    symbol: &str,
    path: &str,
    level: u32,
    response: &DocumentSymbolResponse,
    content: &str,
) -> (members: Vec<SymbolMember>)
    ensures
        members.deep_view() == sub_symbol_members(
            symbol@,
            path@,
            level,
            response.deep_view(),
            content@,
        ),
{
    let lines = lines(content);
    match response {
        DocumentSymbolResponse::Flat(symbols) => {
            if is_listed(symbols, symbol) {
                show_listed(symbols, false, symbol, &lines)
            } else if is_file_name(path, symbol) {
                show_listed(symbols, true, symbol, &lines)
            } else {
                let members: Vec<SymbolMember> = Vec::new();
                assert(members.deep_view() =~= sub_symbol_members(
                    symbol@,
                    path@,
                    level,
                    response.deep_view(),
                    content@,
                ));
                members
            }
        },
        DocumentSymbolResponse::Nested(symbols) => {
            let mut members: Vec<SymbolMember> = Vec::new();
            let held = collect_inside(symbols, symbol, level, &mut members, &lines);
            if !held {
                members = Vec::new();
                if is_file_name(path, symbol) {
                    MyHandler::collect_nested_symbol_members(
                        symbols,
                        0,
                        level,
                        &mut members,
                        &lines,
                    );
                }
            }
            let ghost shown = members_within(
                nested_members(symbol@, path@, symbols.deep_view()),
                level as int,
                lines.deep_view(),
            );
            assert(members.deep_view() =~= shown);
            assert(forall|k: int|
                0 <= k < members@.len() ==> (#[trigger] members@[k]).deep_view()
                    == members.deep_view()[k]);
            let mut i: usize = 0;
            while i < members.len()
                invariant
                    i <= members@.len(),
                    members@.len() == shown.len(),
                    forall|k: int|
                        0 <= k < i ==> (#[trigger] members@[k]).deep_view() == qualified(
                            symbol@,
                            shown[k],
                        ),
                    forall|k: int|
                        i <= k < shown.len() ==> (#[trigger] members@[k]).deep_view() == shown[k],
                decreases members@.len() - i,
            {
                qualify(symbol, &mut members[i]);
                i += 1;
            }
            assert(members.deep_view() =~= sub_symbol_members(
                symbol@,
                path@,
                level,
                response.deep_view(),
                content@,
            ));
            members
        },
    }
}

/// What is shown within a name lies directly within a symbol of that name.
pub proof fn what_is_inside_has_that_parent(
    symbols: Seq<DocumentSymbolView>,
    name: Seq<char>,
    at: int,
)
    requires
        0 <= at < inside(symbols, name).len(),
    ensures
        exists|i: int, k: int|
            0 <= i < all_symbols(symbols).len() && all_symbols(symbols)[i].name == name
                && all_symbols(symbols)[i].children is Some && 0 <= k < all_symbols(
                symbols,
            )[i].children->0.len() && inside(symbols, name)[at] == #[trigger] all_symbols(
                symbols,
            )[i].children->0[k],
    decreases symbols,
{
    let all = all_symbols(symbols);
    let before = symbols.drop_last();
    let last = symbols.last();
    if at < inside(before, name).len() {
        what_is_inside_has_that_parent(before, name, at);
        let (i, k) = choose|i: int, k: int|
            0 <= i < all_symbols(before).len() && all_symbols(before)[i].name == name
                && all_symbols(before)[i].children is Some && 0 <= k < all_symbols(
                before,
            )[i].children->0.len() && inside(before, name)[at] == #[trigger] all_symbols(
                before,
            )[i].children->0[k];
        assert(all[i] == all_symbols(before)[i]);
        assert(inside(symbols, name)[at] == all[i].children->0[k]);
    } else {
        let children = last.children->0;
        let at_last = at - inside(before, name).len();
        if last.name == name {
            let i = all_symbols(before).len() as int;
            assert(all[i] == last);
            assert(inside(symbols, name)[at] == all[i].children->0[at_last]);
        } else {
            what_is_inside_has_that_parent(children, name, at_last);
            let (i, k) = choose|i: int, k: int|
                0 <= i < all_symbols(children).len() && all_symbols(children)[i].name == name
                    && all_symbols(children)[i].children is Some && 0 <= k < all_symbols(
                    children,
                )[i].children->0.len() && inside(children, name)[at_last]
                    == #[trigger] all_symbols(children)[i].children->0[k];
            let j = all_symbols(before).len() + 1 + i;
            assert(all[j] == all_symbols(children)[i]);
            assert(inside(symbols, name)[at] == all[j].children->0[k]);
        }
    }
}

/// One level shows the symbols themselves, and none inside them.
pub proof fn one_level_shows_the_first(symbols: Seq<DocumentSymbolView>, levels: int)
    requires
        levels <= 1,
    ensures
        symbols_within(symbols, levels) == symbols,
    decreases symbols.len(),
{
    if symbols.len() > 0 {
        one_level_shows_the_first(symbols.drop_last(), levels);
        assert(symbols_within(symbols, levels) =~= symbols);
    } else {
        assert(symbols_within(symbols, levels) =~= symbols);
    }
}

/// How many levels deep the symbols lie one inside another.
pub open spec fn depth(symbols: Seq<DocumentSymbolView>) -> int
    decreases symbols,
{
    if symbols.len() == 0 {
        0
    } else {
        let before = depth(symbols.drop_last());
        let last = match symbols.last().children {
            Some(children) => 1 + depth(children),
            None => 1,
        };
        if before < last {
            last
        } else {
            before
        }
    }
}

/// With as many levels as there are, all symbols are shown.
pub proof fn enough_levels_show_all(symbols: Seq<DocumentSymbolView>, levels: int)
    requires
        depth(symbols) <= levels,
    ensures
        symbols_within(symbols, levels) == all_symbols(symbols),
    decreases symbols,
{
    if symbols.len() > 0 {
        enough_levels_show_all(symbols.drop_last(), levels);
        if let Some(children) = symbols.last().children {
            lemma_depth_positive(children);
            enough_levels_show_all(children, levels - 1);
            if levels <= 1 {
                assert(children.len() == 0);
                assert(all_symbols(children) =~= Seq::empty());
            }
        }
    }
}

proof fn lemma_depth_positive(symbols: Seq<DocumentSymbolView>)
    ensures
        depth(symbols) >= 0,
        depth(symbols) == 0 ==> symbols.len() == 0,
    decreases symbols,
{
    if symbols.len() > 0 {
        lemma_depth_positive(symbols.drop_last());
        if let Some(children) = symbols.last().children {
            lemma_depth_positive(children);
        }
    }
}

/// A signature is what a line declares: the white space around it, the braces that open a body and the
/// semicolons that end it go, and nothing else does.
pub proof fn a_signature_is_what_is_declared(
    before: Seq<char>,
    declared: Seq<char>,
    gap: Seq<char>,
    ended: Seq<char>,
    opened: Seq<char>,
    behind: Seq<char>,
)
    requires
        text::all_white(before),
        text::all_white(gap),
        text::all_white(behind),
        text::is_trim(declared),
        declared.last() != ';',
        declared.last() != '{',
        forall|i: int| 0 <= i < ended.len() ==> #[trigger] ended[i] == ';',
        forall|i: int| 0 <= i < opened.len() ==> #[trigger] opened[i] == '{',
    ensures
        signature_of(before + declared + gap + ended + opened + behind) == declared,
{
    let core = declared + gap;
    text::white_space_within_ascii(';');
    text::white_space_within_ascii('{');
    if gap.len() > 0 {
        assert(core.last() == gap[gap.len() - 1]);
        assert(text::is_white(core.last()));
    } else {
        assert(core =~= declared);
    }
    assert(core.last() != ';' && core.last() != '{');
    assert(core.first() == declared.first());
    let whole = before + declared + gap + ended + opened + behind;
    let none = Seq::<char>::empty();
    text::trimming_takes_white_space_away(none, declared, gap);
    assert(none + declared + gap =~= core);
    if ended.len() == 0 && opened.len() == 0 {
        let rest = gap + behind;
        assert(whole =~= before + declared + rest);
        assert(text::all_white(rest));
        text::trimming_takes_white_space_away(before, declared, rest);
        text::a_character_is_taken_off_the_end(declared, '{', none);
        text::a_character_is_taken_off_the_end(declared, ';', none);
        assert(declared + none =~= declared);
        text::trimming_takes_white_space_away(none, declared, none);
        assert(none + declared + none =~= declared);
    } else {
        let shown = core + ended + opened;
        assert(whole =~= before + shown + behind);
        if opened.len() > 0 {
            assert(shown.last() == opened[opened.len() - 1]);
        } else {
            assert(shown.last() == ended[ended.len() - 1]);
        }
        assert(shown.first() == declared.first());
        text::trimming_takes_white_space_away(before, shown, behind);
        if ended.len() > 0 {
            assert((core + ended).last() == ended[ended.len() - 1]);
        } else {
            assert(core + ended =~= core);
        }
        text::a_character_is_taken_off_the_end(core + ended, '{', opened);
        text::a_character_is_taken_off_the_end(core, ';', ended);
    }
}

/// The symbols of two lists are those of the one and then those of the other; those of one symbol are the
/// symbol itself and then all that are inside it.
pub proof fn all_symbols_are_those_of_each(
    a: Seq<DocumentSymbolView>,
    b: Seq<DocumentSymbolView>,
    symbol: DocumentSymbolView,
)
    ensures
        all_symbols(a + b) == all_symbols(a) + all_symbols(b),
        symbol.children matches Some(children) ==> all_symbols(seq![symbol]) == seq![symbol]
            + all_symbols(children),
        symbol.children is None ==> all_symbols(seq![symbol]) == seq![symbol],
    decreases b.len(),
{
    assert(seq![symbol].drop_last() =~= Seq::empty());
    assert(all_symbols(Seq::<DocumentSymbolView>::empty()) =~= Seq::empty());
    match symbol.children {
        Some(children) => {
            assert(all_symbols(seq![symbol]) =~= seq![symbol] + all_symbols(children));
        },
        None => {
            assert(all_symbols(seq![symbol]) =~= seq![symbol]);
        },
    }
    if b.len() == 0 {
        assert(a + b =~= a);
        assert(all_symbols(a) + all_symbols(b) =~= all_symbols(a));
    } else {
        assert((a + b).drop_last() =~= a + b.drop_last());
        all_symbols_are_those_of_each(a, b.drop_last(), symbol);
        assert(all_symbols(a + b) =~= all_symbols(a) + all_symbols(b));
    }
}

/// The symbols of a document are listed with their names and their whole ranges.
pub proof fn symbols_are_listed_with_their_ranges(symbols: Seq<DocumentSymbolView>, i: int)
    requires
        0 <= i < all_symbols(symbols).len(),
    ensures
        symbol_ranges(symbols).len() == all_symbols(symbols).len(),
        symbol_ranges(symbols)[i].0 == all_symbols(symbols)[i].name,
        symbol_ranges(symbols)[i].1.start == all_symbols(symbols)[i].range.start,
        symbol_ranges(symbols)[i].1.end == all_symbols(symbols)[i].range.end,
{
}

/// Whether a symbol of the workspace stands for a symbol of a document: it has its name and kind, and is
/// where the whole of that symbol is.
pub open spec fn stands_for(
    found: WorkspaceSymbolView,
    symbol: DocumentSymbolView,
    uri: Seq<char>,
) -> bool {
    &&& found.name == symbol.name
    &&& found.kind == symbol.kind
    &&& found.place matches SymbolPlaceView::Located(location) && location.uri == uri
        && location.range.start == symbol.range.start && location.range.end == symbol.range.end
}

/// Whether a symbol of the workspace stands for one of those, which has the text in its name.
pub open spec fn comes_from(
    found: WorkspaceSymbolView,
    all: Seq<DocumentSymbolView>,
    name_filter: Seq<char>,
    uri: Seq<char>,
) -> bool {
    exists|k: int|
        0 <= k < all.len() && stands_for(found, #[trigger] all[k], uri) && text::contains_text(
            all[k].name,
            name_filter,
        )
}

/// Every symbol that is found stands for one of the document that has the text in its name, and every
/// symbol of the document that has it, at any depth, is found.
pub proof fn symbols_are_found_by_their_names(
    symbols: Seq<DocumentSymbolView>,
    name_filter: Seq<char>,
    uri: Seq<char>,
)
    ensures
        forall|i: int|
            0 <= i < matching_symbols(symbols, name_filter, uri).len() ==> comes_from(
                #[trigger] matching_symbols(symbols, name_filter, uri)[i],
                all_symbols(symbols),
                name_filter,
                uri,
            ),
        forall|k: int|
            0 <= k < all_symbols(symbols).len() && text::contains_text(
                (#[trigger] all_symbols(symbols)[k]).name,
                name_filter,
            ) ==> exists|i: int|
                0 <= i < matching_symbols(symbols, name_filter, uri).len() && stands_for(
                    #[trigger] matching_symbols(symbols, name_filter, uri)[i],
                    all_symbols(symbols)[k],
                    uri,
                ),
{
    let all = all_symbols(symbols);
    let named = |symbol: DocumentSymbolView| is_named(symbol, name_filter);
    let kept = all.filter(named);
    let found = matching_symbols(symbols, name_filter, uri);
    broadcast use vstd::seq_lib::group_filter_ensures;

    assert forall|i: int| 0 <= i < found.len() implies comes_from(
        #[trigger] found[i],
        all,
        name_filter,
        uri,
    ) by {
        assert(kept.contains(kept[i]));
        assert(named(kept[i]));
        lemma_kept_comes_from(all, named, i);
        let k = choose|k: int| 0 <= k < all.len() && #[trigger] all[k] == kept[i];
        assert(stands_for(found[i], all[k], uri));
    }
    assert forall|k: int|
        0 <= k < all.len() && text::contains_text(
            (#[trigger] all[k]).name,
            name_filter,
        ) implies exists|i: int|
        0 <= i < found.len() && stands_for(#[trigger] found[i], all[k], uri) by {
        assert(named(all[k]));
        assert(kept.contains(all[k]));
        let i = kept.index_of(all[k]);
        assert(stands_for(found[i], all[k], uri));
    }
}

proof fn lemma_kept_comes_from(
    all: Seq<DocumentSymbolView>,
    pred: spec_fn(DocumentSymbolView) -> bool,
    i: int,
)
    requires
        0 <= i < all.filter(pred).len(),
    ensures
        exists|k: int| 0 <= k < all.len() && #[trigger] all[k] == all.filter(pred)[i],
    decreases all.len(),
{
    reveal(Seq::filter);
    if all.len() > 0 {
        let front = all.drop_last();
        if i < front.filter(pred).len() {
            lemma_kept_comes_from(front, pred, i);
            let k = choose|k: int| 0 <= k < front.len() && #[trigger] front[k] == front.filter(pred)[i];
            assert(all[k] == all.filter(pred)[i]);
        } else {
            assert(all[all.len() - 1] == all.filter(pred)[i]);
        }
    }
}

/// Whether that is what is shown of a symbol whose name stands there: it belongs to the symbol asked for,
/// is where the name is, and its signature is what the line there declares.
pub open spec fn is_shown(
    shown: SymbolMemberView,
    owner: Seq<char>,
    name: Seq<char>,
    kind: i32,
    at: Position,
    lines: Seq<Seq<char>>,
) -> bool {
    &&& shown.name == owner + "::"@ + name
    &&& shown.kind == symbol_kind_text(kind)
    &&& shown.line == at.line
    &&& shown.character == at.character
    &&& at.line < lines.len() ==> shown.signature == text::trimmed(
        text::trim_end_char_of(
            text::trim_end_char_of(text::trimmed(lines[at.line as int]), '{'),
            ';',
        ),
    )
    &&& at.line >= lines.len() ==> shown.signature.len() == 0
}

/// Symbols that lie one inside another are shown one for one, each at the start of its name: what lies
/// within the symbol asked for, down to the level.
pub proof fn nested_symbols_are_shown_where_their_names_are(
    owner: Seq<char>,
    path: Seq<char>,
    level: u32,
    symbols: Seq<DocumentSymbolView>,
    content: Seq<char>,
)
    ensures
        ({
            let shown = sub_symbol_members(
                owner,
                path,
                level,
                DocumentSymbolResponseView::Nested(symbols),
                content,
            );
            let within = symbols_within(nested_members(owner, path, symbols), level as int);
            &&& shown.len() == within.len()
            &&& forall|i: int|
                0 <= i < shown.len() ==> is_shown(
                    #[trigger] shown[i],
                    owner,
                    within[i].name,
                    within[i].kind,
                    within[i].selection_range.start,
                    text::lines_of(content),
                )
        }),
{
}

/// Symbols of a list are shown one for one, each at the start of its range: those whose container is the
/// symbol asked for, in order.
pub proof fn listed_symbols_are_shown_where_they_start(
    owner: Seq<char>,
    path: Seq<char>,
    level: u32,
    symbols: Seq<SymbolInformationView>,
    content: Seq<char>,
)
    ensures
        ({
            let shown = sub_symbol_members(
                owner,
                path,
                level,
                DocumentSymbolResponseView::Flat(symbols),
                content,
            );
            let within = listed_members(owner, path, symbols);
            &&& shown.len() == within.len()
            &&& forall|i: int|
                0 <= i < shown.len() ==> is_shown(
                    #[trigger] shown[i],
                    owner,
                    within[i].name,
                    within[i].kind,
                    within[i].location.range.start,
                    text::lines_of(content),
                )
        }),
{
}

/// A level shows the symbols of a list one after another; of a symbol it shows the symbol itself, and
/// what it shows of those inside with one level less, as long as there is one left.
pub proof fn a_level_shows_what_is_inside(
    a: Seq<DocumentSymbolView>,
    b: Seq<DocumentSymbolView>,
    symbol: DocumentSymbolView,
    levels: int,
)
    ensures
        symbols_within(a + b, levels) == symbols_within(a, levels) + symbols_within(b, levels),
        symbol.children matches Some(children) ==> levels >= 2 ==> symbols_within(
            seq![symbol],
            levels,
        ) == seq![symbol] + symbols_within(children, levels - 1),
        levels < 2 || symbol.children is None ==> symbols_within(seq![symbol], levels) == seq![
            symbol,
        ],
{
    lemma_within_sum(a, b, levels);
    assert(seq![symbol].drop_last() =~= Seq::empty());
    assert(symbols_within(Seq::<DocumentSymbolView>::empty(), levels) =~= Seq::empty());
    if levels >= 2 && symbol.children is Some {
        assert(symbols_within(seq![symbol], levels) =~= seq![symbol] + symbols_within(
            symbol.children->0,
            levels - 1,
        ));
    } else {
        assert(symbols_within(seq![symbol], levels) =~= seq![symbol]);
    }
}

/// What lies within a name in two lists lies within it in the one or in the other. Within a symbol of that
/// name lie all its children, in order; within any other symbol, what lies within the name in those.
pub proof fn the_children_of_the_named_lie_within_it(
    a: Seq<DocumentSymbolView>,
    b: Seq<DocumentSymbolView>,
    symbol: DocumentSymbolView,
    name: Seq<char>,
)
    ensures
        inside(a + b, name) == inside(a, name) + inside(b, name),
        symbol.children matches Some(children) ==> symbol.name == name ==> inside(
            seq![symbol],
            name,
        ) == children,
        symbol.children matches Some(children) ==> symbol.name != name ==> inside(
            seq![symbol],
            name,
        ) == inside(children, name),
        symbol.children is None ==> inside(seq![symbol], name).len() == 0,
    decreases b.len(),
{
    assert(seq![symbol].drop_last() =~= Seq::empty());
    assert(inside(Seq::<DocumentSymbolView>::empty(), name) =~= Seq::empty());
    if let Some(children) = symbol.children {
        assert(inside(seq![symbol], name) =~= if symbol.name == name {
            children
        } else {
            inside(children, name)
        });
    }
    if b.len() == 0 {
        assert(a + b =~= a);
        assert(inside(a, name) + inside(b, name) =~= inside(a, name));
    } else {
        assert((a + b).drop_last() =~= a + b.drop_last());
        the_children_of_the_named_lie_within_it(a, b.drop_last(), symbol, name);
        assert(inside(a + b, name) =~= inside(a, name) + inside(b, name));
    }
}

/// What is shown for a name: what lies within a symbol of that name where the document has one, at any
/// depth; the whole document where it has none and the name is that of the file; else nothing.
pub proof fn a_name_shows_a_symbol_or_the_file(
    name: Seq<char>,
    path: Seq<char>,
    symbols: Seq<DocumentSymbolView>,
    listed: Seq<SymbolInformationView>,
    at: int,
)
    ensures
        0 <= at < all_symbols(symbols).len() && all_symbols(symbols)[at].name == name
            ==> nested_members(name, path, symbols) == inside(symbols, name),
        (forall|i: int|
            0 <= i < all_symbols(symbols).len() ==> (#[trigger] all_symbols(symbols)[i]).name
                != name) ==> nested_members(name, path, symbols) == (if text::is_last_part(
            path,
            name,
            text::path_separators(),
        ) {
            symbols
        } else {
            Seq::empty()
        }),
        0 <= at < listed.len() && (listed[at].name == name || listed[at].container_name == Some(
            name,
        )) ==> listed_members(name, path, listed) == listed.filter(
            |symbol: SymbolInformationView| symbol.container_name == Some(name),
        ),
        (forall|i: int|
            0 <= i < listed.len() ==> (#[trigger] listed[i]).name != name
                && listed[i].container_name != Some(name)) ==> listed_members(name, path, listed)
            == (if text::is_last_part(path, name, text::path_separators()) {
            listed
        } else {
            Seq::empty()
        }),
{
    if 0 <= at < all_symbols(symbols).len() && all_symbols(symbols)[at].name == name {
        assert(holds_name(symbols, name));
    }
    if 0 <= at < listed.len() && (listed[at].name == name || listed[at].container_name == Some(
        name,
    )) {
        assert(lists_name(listed, name));
    }
}

/// Symbols are seen as they are: their names, kinds, places, containers and children.
pub proof fn symbols_are_seen_as_they_are(
    location: SourceLocation,
    information: SymbolInformation,
    symbol: DocumentSymbol,
    found: WorkspaceSymbol,
)
    ensures
        location.deep_view().uri == location.uri@,
        location.deep_view().range == location.range,
        information.deep_view().name == information.name@,
        information.deep_view().kind == information.kind,
        information.deep_view().location.uri == information.location.uri@,
        information.deep_view().location.range == information.location.range,
        information.container_name matches Some(name) ==> information.deep_view().container_name
            == Some(name@),
        information.container_name is None ==> information.deep_view().container_name is None,
        symbol.deep_view().name == symbol.name@,
        symbol.deep_view().kind == symbol.kind,
        symbol.deep_view().range == symbol.range,
        symbol.deep_view().selection_range == symbol.selection_range,
        symbol.children is None ==> symbol.deep_view().children is None,
        symbol.children matches Some(children) ==> symbol.deep_view().children matches Some(views)
            && views.len() == children@.len() && forall|i: int|
            0 <= i < views.len() ==> #[trigger] views[i] == children@[i].deep_view(),
        found.deep_view().name == found.name@,
        found.deep_view().kind == found.kind,
        found.place matches SymbolPlace::Located(place) ==> found.deep_view().place
            == SymbolPlaceView::Located(
            SourceLocationView { uri: place.uri@, range: place.range },
        ),
        found.place matches SymbolPlace::Document(uri) ==> found.deep_view().place
            == SymbolPlaceView::Document(uri@),
{
    if let Some(children) = symbol.children {
        lemma_symbols_view(children@);
    }
}

} // verus!
