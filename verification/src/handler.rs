//! The tools that the server offers.
use crate::changes;
use crate::diagnostics;
use crate::json;
use crate::json::{Json, JsonView};
use crate::models::{Position, Range};
use crate::protocol;
use crate::protocol::range_json;
use vstd::prelude::*;
use vstd::utf8::encode_utf8;

verus! {

/// What the tools know: whether there is a language server, and whether the client wants to hear of
/// diagnostics.
#[derive(Debug)]
pub struct MyHandler {
    pub lsp_available: bool,
    pub subscribed_to_diagnostics: bool,
}

/// What is said to a client that subscribes: everything in the workspace is covered.
pub open spec fn subscription() -> JsonView {
    JsonView::Object(
        map![
            "status"@ => JsonView::Text("Subscribed"@),
            "range"@ => protocol::range_value(
                Range {
                    start: Position { line: 0, character: 0 },
                    end: Position { line: u32::MAX, character: u32::MAX },
                },
            ),
            "scope"@ => JsonView::Text("workspace"@),
        ],
    )
}

impl MyHandler {
    /// A handler that has not been asked anything yet.
    pub fn new(lsp_available: bool) -> (handler: MyHandler)
        ensures
            handler.lsp_available == lsp_available,
            !handler.subscribed_to_diagnostics,
    {
        MyHandler { lsp_available, subscribed_to_diagnostics: false }
    }

    /// From now on the client hears of diagnostics.
    pub fn editor_subscribe_to_diagnostics(&mut self) -> (text: String)
        ensures
            final(self).subscribed_to_diagnostics,
            final(self).lsp_available == old(self).lsp_available,
            text@ == json::rendered_json(subscription()),
            json::parsed_json(encode_utf8(text@)) == Some(subscription()),
    {
        proof {
            reveal_with_fuel(json::nested_within, 4);
            reveal_with_fuel(json::plain_names, 2);
            reveal_strlit("status");
            reveal_strlit("range");
            reveal_strlit("scope");
            json::lemma_plain_name("status"@);
            json::lemma_plain_name("range"@);
            json::lemma_plain_name("scope"@);
            protocol::lemma_range_is_plain(
                Range {
                    start: Position { line: 0, character: 0 },
                    end: Position { line: u32::MAX, character: u32::MAX },
                },
            );
            assert(json::plain_names(subscription()));
        }
        self.subscribed_to_diagnostics = true;
        let everything = Range {
            start: Position { line: 0, character: 0 },
            end: Position { line: u32::MAX, character: u32::MAX },
        };
        let mut said = Json::object();
        said.set("status", Json::text("Subscribed"));
        said.set("range", range_json(everything));
        said.set("scope", Json::text("workspace"));
        said.render()
    }

    /// What the client is told to do to show the diagnostics, and what is said of it.
    pub fn ui_show_workspace_diagnostics() -> (told: (String, String))
        ensures
            told.0@ == "ui/showDiagnostics"@,
            told.1@ == "Workspace diagnostics UI opened"@,
    {
        ("ui/showDiagnostics".to_owned(), "Workspace diagnostics UI opened".to_owned())
    }
}

/// A client that subscribes is told so, and that the whole workspace is covered: from the first position
/// to the last that there can be.
pub proof fn everything_is_subscribed_to()
    ensures
        changes::gives_text(subscription(), "status"@, "Subscribed"@),
        changes::gives_text(subscription(), "scope"@, "workspace"@),
        json::json_member(subscription(), "range"@) matches Some(range)
            && diagnostics::spells_range(
            range,
            Range {
                start: Position { line: 0, character: 0 },
                end: Position { line: 0xffff_ffff, character: 0xffff_ffff },
            },
        ),
{
    reveal_strlit("status");
    reveal_strlit("range");
    reveal_strlit("scope");
    assert("status"@.len() == 6 && "range"@.len() == 5 && "scope"@.len() == 5);
    assert("range"@[0] != "scope"@[0]);
    let everything = Range {
        start: Position { line: 0, character: 0 },
        end: Position { line: u32::MAX, character: u32::MAX },
    };
    protocol::a_range_is_written_as_it_is(everything, everything);
}

} // verus!
