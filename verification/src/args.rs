//! What the tools are called with.
use crate::models::{CodeAction, EnrichedDiagnostic, Position};
use vstd::prelude::*;

verus! {

/// What symbol to find.
#[derive(Debug)]
pub struct FindSymbolArgs {
    pub symbol_name: String,
    pub file: Option<String>,
    pub location_hint: Option<Position>,
    pub context_hint: Option<String>,
    pub hover_detail: String,
    pub feeling_lucky: bool,
}

/// A place in a file.
#[derive(Debug)]
pub struct PathLineCharArgs {
    pub path: String,
    pub line: u32,
    pub character: u32,
}

/// A symbol to look into, and how many levels deep.
#[derive(Debug)]
pub struct ShowSubSymbolArgs {
    pub symbol: String,
    pub symbol_path: String,
    pub level: u32,
}

/// The diagnostic to find actions for.
#[derive(Debug)]
pub struct GetActionsArgs {
    pub diagnostic_object: EnrichedDiagnostic,
}

/// The action to carry out.
#[derive(Debug)]
pub struct ApplyActionArgs {
    pub action_object: CodeAction,
}

/// What to rename, and to what.
#[derive(Debug)]
pub struct InteractiveRenameArgs {
    pub path: String,
    pub symbol_to_find: FindSymbolArgs,
    pub new_name: String,
}

/// The file to read.
#[derive(Debug)]
pub struct ReadFileArgs {
    pub path: String,
}

/// The place to complete at.
#[derive(Debug)]
pub struct GetCompletionsArgs {
    pub path: String,
    pub line: u32,
    pub character: u32,
}

#[verifier::ext_equal]
pub struct FindSymbolArgsView {
    pub symbol_name: Seq<char>,
    pub file: Option<Seq<char>>,
    pub location_hint: Option<Position>,
    pub context_hint: Option<Seq<char>>,
    pub hover_detail: Seq<char>,
    pub feeling_lucky: bool,
}

impl View for FindSymbolArgs {
    type V = FindSymbolArgsView;

    open spec fn view(&self) -> FindSymbolArgsView {
        FindSymbolArgsView {
            symbol_name: self.symbol_name@,
            file: self.file.deep_view(),
            location_hint: self.location_hint,
            context_hint: self.context_hint.deep_view(),
            hover_detail: self.hover_detail@,
            feeling_lucky: self.feeling_lucky,
        }
    }
}

/// How much is told of a symbol, unless something else is asked for.
pub fn default_hover_detail() -> (detail: String)
    ensures
        detail@ == "signature"@,
{
    "signature".to_owned()
}

/// What holds unless something else is asked for.
pub fn default_true() -> (value: bool)
    ensures
        value,
{
    true
}

/// How many levels are shown, unless something else is asked for.
pub fn default_one() -> (levels: u32)
    ensures
        levels == 1,
{
    1
}

/// What a symbol is found by is seen as it is, field by field.
pub proof fn what_is_asked_for_is_seen_as_it_is(args: FindSymbolArgs)
    ensures
        args@.symbol_name == args.symbol_name@,
        args@.file == args.file.deep_view(),
        args@.location_hint == args.location_hint,
        args@.context_hint == args.context_hint.deep_view(),
        args@.hover_detail == args.hover_detail@,
        args@.feeling_lucky == args.feeling_lucky,
{
}

} // verus!
