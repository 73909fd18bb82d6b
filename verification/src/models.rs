//! The values that tools take and give back.
use crate::json::Json;
use vstd::prelude::*;

verus! {

/// A place in a text: a line and an offset in it, both counted from zero.
#[derive(Clone, Copy, Debug, PartialEq, Eq, Structural)]
pub struct Position {
    pub line: u32,
    pub character: u32,
}

/// The part of a text from one position up to another.
#[derive(Clone, Copy, Debug, PartialEq, Eq, Structural)]
pub struct Range {
    pub start: Position,
    pub end: Position,
}

impl Range {
    /// The empty range at the start of a text.
    pub open spec fn origin_view() -> Range {
        Range {
            start: Position { line: 0, character: 0 },
            end: Position { line: 0, character: 0 },
        }
    }

    /// The empty range at the start of a text.
    pub fn origin() -> (range: Range)
        ensures
            range == Range::origin_view(),
    {
        Range {
            start: Position { line: 0, character: 0 },
            end: Position { line: 0, character: 0 },
        }
    }
}

/// A diagnostic with what is known of its place.
#[derive(Debug)]
pub struct EnrichedDiagnostic {
    pub diagnostic: Json,
    pub symbol_name: Option<String>,
    pub line_content: Option<String>,
    pub path: String,
}

/// A place in a file.
#[derive(Debug)]
pub struct Location {
    pub path: String,
    pub line: u32,
    pub character: u32,
    pub hover_info: Option<String>,
}

/// A change that the language server offers.
#[derive(Debug)]
pub struct CodeAction {
    pub title: String,
    pub kind: Option<String>,
    pub command: Option<Json>,
    pub edit: Option<Json>,
}

/// A member of a symbol.
#[derive(Debug)]
pub struct SymbolMember {
    pub name: String,
    pub signature: String,
    pub line: u32,
    pub character: u32,
    pub kind: String,
}

/// A completion that the language server suggests.
#[derive(Debug)]
pub struct CompletionItem {
    pub label: String,
    pub kind: Option<String>,
    pub detail: Option<String>,
    pub documentation: Option<String>,
    pub sort_text: Option<String>,
    pub filter_text: Option<String>,
    pub insert_text: Option<String>,
}

/// A refactoring under discussion.
#[derive(Debug)]
pub struct RefactorSession {
    pub id: String,
    pub description: String,
    pub proposals: Vec<RefactorProposal>,
}

/// One step of a refactoring: a change to the workspace or a command.
#[derive(Debug)]
pub struct RefactorProposal {
    pub id: String,
    pub change: Option<Json>,
    pub command: Option<Json>,
    pub approved: bool,
}

impl DeepView for Position {
    type V = Position;

    open spec fn deep_view(&self) -> Position {
        *self
    }
}

impl DeepView for Range {
    type V = Range;

    open spec fn deep_view(&self) -> Range {
        *self
    }
}

impl DeepView for Json {
    type V = crate::json::JsonView;

    open spec fn deep_view(&self) -> crate::json::JsonView {
        self@
    }
}

#[verifier::ext_equal]
pub struct LocationView {
    pub path: Seq<char>,
    pub line: u32,
    pub character: u32,
    pub hover_info: Option<Seq<char>>,
}

impl DeepView for Location {
    type V = LocationView;

    open spec fn deep_view(&self) -> LocationView {
        LocationView {
            path: self.path@,
            line: self.line,
            character: self.character,
            hover_info: self.hover_info.deep_view(),
        }
    }
}

#[verifier::ext_equal]
pub struct SymbolMemberView {
    pub name: Seq<char>,
    pub signature: Seq<char>,
    pub line: u32,
    pub character: u32,
    pub kind: Seq<char>,
}

impl DeepView for SymbolMember {
    type V = SymbolMemberView;

    open spec fn deep_view(&self) -> SymbolMemberView {
        SymbolMemberView {
            name: self.name@,
            signature: self.signature@,
            line: self.line,
            character: self.character,
            kind: self.kind@,
        }
    }
}

#[verifier::ext_equal]
pub struct CompletionItemView {
    pub label: Seq<char>,
    pub kind: Option<Seq<char>>,
    pub detail: Option<Seq<char>>,
    pub documentation: Option<Seq<char>>,
    pub sort_text: Option<Seq<char>>,
    pub filter_text: Option<Seq<char>>,
    pub insert_text: Option<Seq<char>>,
}

impl DeepView for CompletionItem {
    type V = CompletionItemView;

    open spec fn deep_view(&self) -> CompletionItemView {
        CompletionItemView {
            label: self.label@,
            kind: self.kind.deep_view(),
            detail: self.detail.deep_view(),
            documentation: self.documentation.deep_view(),
            sort_text: self.sort_text.deep_view(),
            filter_text: self.filter_text.deep_view(),
            insert_text: self.insert_text.deep_view(),
        }
    }
}

#[verifier::ext_equal]
pub struct RefactorProposalView {
    pub id: Seq<char>,
    pub change: Option<crate::json::JsonView>,
    pub command: Option<crate::json::JsonView>,
    pub approved: bool,
}

impl DeepView for RefactorProposal {
    type V = RefactorProposalView;

    open spec fn deep_view(&self) -> RefactorProposalView {
        RefactorProposalView {
            id: self.id@,
            change: self.change.deep_view(),
            command: self.command.deep_view(),
            approved: self.approved,
        }
    }
}

#[verifier::ext_equal]
pub struct RefactorSessionView {
    pub id: Seq<char>,
    pub description: Seq<char>,
    pub proposals: Seq<RefactorProposalView>,
}

impl DeepView for RefactorSession {
    type V = RefactorSessionView;

    open spec fn deep_view(&self) -> RefactorSessionView {
        RefactorSessionView {
            id: self.id@,
            description: self.description@,
            proposals: self.proposals.deep_view(),
        }
    }
}

/// What tools give back is seen as it is, field by field.
pub proof fn what_is_given_back_is_seen_as_it_is(
    place: Location,
    member: SymbolMember,
    item: CompletionItem,
)
    ensures
        place.deep_view().path == place.path@,
        place.deep_view().line == place.line,
        place.deep_view().character == place.character,
        place.deep_view().hover_info == place.hover_info.deep_view(),
        member.deep_view().name == member.name@,
        member.deep_view().signature == member.signature@,
        member.deep_view().line == member.line,
        member.deep_view().character == member.character,
        member.deep_view().kind == member.kind@,
        item.deep_view().label == item.label@,
        item.deep_view().kind == item.kind.deep_view(),
        item.deep_view().detail == item.detail.deep_view(),
        item.deep_view().documentation == item.documentation.deep_view(),
        item.deep_view().sort_text == item.sort_text.deep_view(),
        item.deep_view().filter_text == item.filter_text.deep_view(),
        item.deep_view().insert_text == item.insert_text.deep_view(),
        Range::origin_view().start.line == 0,
        Range::origin_view().start.character == 0,
        Range::origin_view().end == Range::origin_view().start,
{
}

} // verus!
