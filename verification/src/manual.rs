//! Tool calls that a user types.
use crate::json;
use crate::json::{Json, JsonView};
use crate::text;
use crate::text::{same_text, split_once, trim};
use vstd::prelude::*;
use vstd::utf8::encode_utf8;

verus! {

/// What a user wants.
#[derive(Debug)]
pub enum ManualCommand {
    /// To leave.
    Quit,
    /// To see which tools there are.
    Help,
    /// To call a tool. The arguments are missing where what was typed is no JSON object.
    Call { name: String, arguments: Option<Json> },
    /// Something that cannot be understood.
    Usage,
}

#[verifier::ext_equal]
pub enum ManualCommandView {
    Quit,
    Help,
    Call { name: Seq<char>, arguments: Option<JsonView> },
    Usage,
}

impl View for ManualCommand {
    type V = ManualCommandView;

    open spec fn view(&self) -> ManualCommandView {
        match *self {
            ManualCommand::Quit => ManualCommandView::Quit,
            ManualCommand::Help => ManualCommandView::Help,
            ManualCommand::Call { name, arguments } => ManualCommandView::Call {
                name: name@,
                arguments: arguments.deep_view(),
            },
            ManualCommand::Usage => ManualCommandView::Usage,
        }
    }
}

/// The arguments that a text spells: a JSON object, or none.
pub open spec fn typed_arguments(typed: Seq<char>) -> Option<JsonView> {
    match json::parsed_json(encode_utf8(typed)) {
        Some(value) => if value is Object {
            Some(value)
        } else {
            None
        },
        None => None,
    }
}

/// What a user wants with a line: the name of a tool comes first, and its arguments behind the first
/// space.
pub open spec fn typed_command(line: Seq<char>) -> ManualCommandView {
    let typed = text::trimmed(line);
    let space = text::index_of(typed, ' ');
    if typed == "exit"@ || typed == "quit"@ {
        ManualCommandView::Quit
    } else if typed == "help"@ {
        ManualCommandView::Help
    } else if space < typed.len() {
        ManualCommandView::Call {
            name: typed.take(space),
            arguments: typed_arguments(typed.skip(space + 1)),
        }
    } else {
        ManualCommandView::Usage
    }
}

/// Reads the arguments of a tool. `None` where the text is no JSON object.
pub fn tool_arguments(typed: &str) -> (arguments: Option<Json>)
    ensures
        arguments.deep_view() == typed_arguments(typed@),
{
    match Json::parse(typed.as_bytes()) {
        Some(Json::Object(members)) => Some(Json::Object(members)),
        _ => None,
    }
}

impl ManualCommand {
    /// Reads a line.
    pub fn read(line: &str) -> (command: ManualCommand)
        ensures
            command@ == typed_command(line@),
    {
        let typed = trim(line);
        if same_text(typed.as_str(), "exit") || same_text(typed.as_str(), "quit") {
            return ManualCommand::Quit;
        }
        if same_text(typed.as_str(), "help") {
            return ManualCommand::Help;
        }
        match split_once(typed.as_str(), ' ') {
            Some((name, arguments)) => ManualCommand::Call {
                name,
                arguments: tool_arguments(arguments.as_str()),
            },
            None => ManualCommand::Usage,
        }
    }
}

/// A line with a name, a space and more behind it calls the tool of that name with what stands behind the
/// space, whatever white space stands round the line.
pub proof fn a_name_and_a_space_call_a_tool(
    line: Seq<char>,
    name: Seq<char>,
    arguments: Seq<char>,
)
    requires
        text::trimmed(line) == name + seq![' '] + arguments,
        forall|i: int| 0 <= i < name.len() ==> #[trigger] name[i] != ' ',
    ensures
        typed_command(line) == (ManualCommandView::Call {
            name,
            arguments: typed_arguments(arguments),
        }),
{
    let typed = text::trimmed(line);
    reveal_strlit("exit");
    reveal_strlit("quit");
    reveal_strlit("help");
    assert(typed[name.len() as int] == ' ');
    assert forall|i: int| 0 <= i < name.len() implies #[trigger] typed[i] != ' ' by {
        assert(typed[i] == name[i]);
    }
    lemma_index_of(typed, name.len() as int);
    assert(typed.take(name.len() as int) =~= name);
    assert(typed.skip((name.len() + 1) as int) =~= arguments);
}

/// A line without a space is one of the words that are known, or cannot be understood.
pub proof fn a_line_without_a_space_is_a_word(line: Seq<char>)
    requires
        forall|i: int| 0 <= i < text::trimmed(line).len() ==> #[trigger] text::trimmed(line)[i] != ' ',
    ensures
        typed_command(line) == (if text::trimmed(line) == "exit"@ || text::trimmed(line)
            == "quit"@ {
            ManualCommandView::Quit
        } else if text::trimmed(line) == "help"@ {
            ManualCommandView::Help
        } else {
            ManualCommandView::Usage
        }),
{
    let typed = text::trimmed(line);
    lemma_index_of(typed, typed.len() as int);
}

proof fn lemma_index_of(typed: Seq<char>, at: int)
    requires
        0 <= at <= typed.len(),
        at < typed.len() ==> typed[at] == ' ',
        forall|i: int| 0 <= i < at ==> #[trigger] typed[i] != ' ',
    ensures
        text::index_of(typed, ' ') == at,
    decreases typed.len(),
{
    if at > 0 {
        let rest = typed.drop_first();
        assert forall|i: int| 0 <= i < at - 1 implies #[trigger] rest[i] != ' ' by {
            assert(rest[i] == typed[i + 1]);
        }
        lemma_index_of(rest, at - 1);
        assert(typed[0] != ' ');
    }
}

/// Only an object is taken for arguments, and it is taken as it is.
pub proof fn only_an_object_is_taken_for_arguments(typed: Seq<char>, value: JsonView)
    ensures
        typed_arguments(typed) == Some(value) <==> value is Object && json::parsed_json(
            encode_utf8(typed),
        ) == Some(value),
{
}

} // verus!
