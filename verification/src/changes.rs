//! Changes to the workspace, as they are written in JSON.
use crate::edits::{TextEdit, TextEditView};
use crate::json;
use crate::json::{Json, JsonView, NumberView};
use crate::models::{Position, Range};
use crate::text::same_text;
use crate::uri;
use crate::uri::MAX_URI_BYTES;
use crate::workspace;
use crate::workspace::{
    DocumentChangeOperation, DocumentChanges, DocumentEdit, EditPlan, EditPlanView, FileActionView,
    ResourceOp, Step, TextDocumentEdit, WorkspaceEdit, WorkspaceEditView,
};
use vstd::prelude::*;

verus! {

/// The number of that name, where there is one and it fits in 32 bits.
pub open spec fn number_in(value: JsonView, name: Seq<char>) -> Option<u32> {
    match json::json_member(value, name) {
        Some(number) => match json::json_u64(number) {
            Some(n) => if n <= u32::MAX {
                Some(n as u32)
            } else {
                None
            },
            None => None,
        },
        None => None,
    }
}

/// The text of that name, where there is one.
pub open spec fn text_in(value: JsonView, name: Seq<char>) -> Option<Seq<char>> {
    match json::json_member(value, name) {
        Some(text) => json::json_text(text),
        None => None,
    }
}

/// The position of that name: a line and a character.
pub open spec fn position_in(value: JsonView, name: Seq<char>) -> Option<Position> {
    match json::json_member(value, name) {
        Some(position) => match (number_in(position, "line"@), number_in(position, "character"@)) {
            (Some(line), Some(character)) => Some(Position { line, character }),
            _ => None,
        },
        None => None,
    }
}

/// The range of a value: from its start to its end.
pub open spec fn range_in(value: JsonView) -> Option<Range> {
    match json::json_member(value, "range"@) {
        Some(range) => match (position_in(range, "start"@), position_in(range, "end"@)) {
            (Some(start), Some(end)) => Some(Range { start, end }),
            _ => None,
        },
        None => None,
    }
}

/// An edit: its range and the new text. An annotation makes no difference to it.
pub open spec fn text_edit_in(value: JsonView) -> Option<TextEditView> {
    match (range_in(value), text_in(value, "newText"@)) {
        (Some(range), Some(new_text)) => Some(TextEditView { range, new_text }),
        _ => None,
    }
}

/// The edits, in order, where each item is one.
pub open spec fn text_edits_in(items: Seq<JsonView>) -> Option<Seq<TextEditView>>
    decreases items.len(),
{
    if items.len() == 0 {
        Some(Seq::empty())
    } else {
        match (text_edits_in(items.drop_last()), text_edit_in(items.last())) {
            (Some(edits), Some(edit)) => Some(edits.push(edit)),
            _ => None,
        }
    }
}

/// The edits that a value lists.
pub open spec fn edits_in(value: JsonView) -> Option<Seq<TextEditView>> {
    match value {
        JsonView::Array(items) => text_edits_in(items),
        _ => None,
    }
}

/// The edits of a document.
pub open spec fn document_edit_in(value: JsonView) -> Option<Step> {
    match (json::json_member(value, "textDocument"@), json::json_member(value, "edits"@)) {
        (Some(document), Some(edits)) => match (text_in(document, "uri"@), edits_in(edits)) {
            (Some(uri), Some(edits)) => Some(Step::Edit { uri, edits }),
            _ => None,
        },
        _ => None,
    }
}

/// A step of a change: an operation on a file where its kind says so, else the edits of a document.
pub open spec fn step_in(value: JsonView) -> Option<Step> {
    match text_in(value, "kind"@) {
        Some(kind) => if kind == "create"@ {
            match text_in(value, "uri"@) {
                Some(uri) => Some(Step::Create { uri }),
                None => None,
            }
        } else if kind == "rename"@ {
            match (text_in(value, "oldUri"@), text_in(value, "newUri"@)) {
                (Some(old_uri), Some(new_uri)) => Some(Step::Rename { old_uri, new_uri }),
                _ => None,
            }
        } else if kind == "delete"@ {
            match text_in(value, "uri"@) {
                Some(uri) => Some(Step::Delete { uri }),
                None => None,
            }
        } else {
            document_edit_in(value)
        },
        None => document_edit_in(value),
    }
}

/// The steps, in order, where each item is one.
pub open spec fn steps_in(items: Seq<JsonView>) -> Option<Seq<Step>>
    decreases items.len(),
{
    if items.len() == 0 {
        Some(Seq::empty())
    } else {
        match (steps_in(items.drop_last()), step_in(items.last())) {
            (Some(steps), Some(step)) => Some(steps.push(step)),
            _ => None,
        }
    }
}

/// The edits of each file, by its URI.
pub open spec fn file_edits_in(members: Map<Seq<char>, JsonView>) -> Option<
    Map<Seq<char>, Seq<TextEditView>>,
> {
    if forall|uri: Seq<char>|
        members.dom().contains(uri) ==> (#[trigger] edits_in(members[uri])) is Some {
        Some(members.map_values(|edits: JsonView| edits_in(edits)->0))
    } else {
        None
    }
}

/// The edits by file, where the value has any.
pub open spec fn changes_in(value: JsonView) -> Option<
    Option<Map<Seq<char>, Seq<TextEditView>>>,
> {
    match json::json_member(value, "changes"@) {
        None => Some(None),
        Some(JsonView::Object(members)) => match file_edits_in(members) {
            Some(edits) => Some(Some(edits)),
            None => None,
        },
        Some(_) => None,
    }
}

/// The changes to documents, where the value has any.
pub open spec fn document_changes_in(value: JsonView) -> Option<Option<Seq<Step>>> {
    match json::json_member(value, "documentChanges"@) {
        None => Some(None),
        Some(JsonView::Array(items)) => match steps_in(items) {
            Some(steps) => Some(Some(steps)),
            None => None,
        },
        Some(_) => None,
    }
}

/// Whether a value has the form of a change to the workspace.
pub open spec fn is_edit(value: JsonView) -> bool {
    changes_in(value) is Some && document_changes_in(value) is Some
}

/// The entries by file, of which none is told twice.
pub open spec fn each_once(entries: Seq<(Seq<char>, Seq<TextEditView>)>) -> bool {
    forall|j: int, k: int|
        0 <= j < k < entries.len() ==> (#[trigger] entries[j]).0 != (#[trigger] entries[k]).0
}

/// The entries as a map from files to edits.
pub open spec fn by_file(entries: Seq<(Seq<char>, Seq<TextEditView>)>) -> Map<
    Seq<char>,
    Seq<TextEditView>,
>
    decreases entries.len(),
{
    if entries.len() == 0 {
        Map::empty()
    } else {
        by_file(entries.drop_last()).insert(entries.last().0, entries.last().1)
    }
}

/// Whether a change is what the value says: the changes to documents in their order, and the edits by
/// file in any order, each file once.
pub open spec fn is_written(made: WorkspaceEditView, value: JsonView) -> bool {
    &&& changes_in(value) == Some(
        match made.changes {
            Some(entries) => Some(by_file(entries)),
            None => None,
        },
    )
    &&& made.changes matches Some(entries) ==> each_once(entries)
    &&& document_changes_in(value) == Some(made.document_changes)
}

proof fn lemma_by_file(entries: Seq<(Seq<char>, Seq<TextEditView>)>)
    requires
        each_once(entries),
    ensures
        forall|k: int|
            0 <= k < entries.len() ==> by_file(entries).dom().contains((#[trigger] entries[k]).0)
                && by_file(entries)[entries[k].0] == entries[k].1,
        forall|uri: Seq<char>|
            by_file(entries).dom().contains(uri) ==> exists|k: int|
                0 <= k < entries.len() && (#[trigger] entries[k]).0 == uri,
    decreases entries.len(),
{
    if entries.len() > 0 {
        let before = entries.drop_last();
        assert forall|j: int, k: int| 0 <= j < k < before.len() implies (#[trigger] before[j]).0 != (
        #[trigger] before[k]).0 by {
            assert(entries[j].0 != entries[k].0);
        }
        lemma_by_file(before);
        assert forall|k: int| 0 <= k < entries.len() implies by_file(entries).dom().contains(
            (#[trigger] entries[k]).0,
        ) && by_file(entries)[entries[k].0] == entries[k].1 by {
            if k < entries.len() - 1 {
                assert(before[k] == entries[k]);
                assert(entries[k].0 != entries[entries.len() - 1].0);
            }
        }
        assert forall|uri: Seq<char>| by_file(entries).dom().contains(uri) implies exists|k: int|
            0 <= k < entries.len() && (#[trigger] entries[k]).0 == uri by {
            if uri == entries.last().0 {
                assert(entries[entries.len() - 1].0 == uri);
            } else {
                assert(by_file(before).dom().contains(uri));
                let k = choose|k: int| 0 <= k < before.len() && (#[trigger] before[k]).0 == uri;
                assert(entries[k].0 == uri);
            }
        }
    }
}

fn read_number(value: &Json, name: &str) -> (number: Option<u32>)
    ensures
        number == number_in(value@, name@),
{
    match value.get(name) {
        Some(number) => match number.as_u64() {
            Some(n) => if n <= u32::MAX as u64 {
                Some(n as u32)
            } else {
                None
            },
            None => None,
        },
        None => None,
    }
}

fn read_text(value: &Json, name: &str) -> (text: Option<String>)
    ensures
        text.deep_view() == text_in(value@, name@),
{
    match value.get(name) {
        Some(text) => match text.as_text() {
            Some(text) => Some(text.to_owned()),
            None => None,
        },
        None => None,
    }
}

fn read_position(value: &Json, name: &str) -> (position: Option<Position>)
    ensures
        position == position_in(value@, name@),
{
    match value.get(name) {
        Some(position) => match (
            read_number(position, "line"),
            read_number(position, "character"),
        ) {
            (Some(line), Some(character)) => Some(Position { line, character }),
            _ => None,
        },
        None => None,
    }
}

fn read_text_edit(value: &Json) -> (edit: Option<TextEdit>)
    ensures
        edit.deep_view() == text_edit_in(value@),
{
    let range = match value.get("range") {
        Some(range) => match (read_position(range, "start"), read_position(range, "end")) {
            (Some(start), Some(end)) => Range { start, end },
            _ => {
                return None;
            },
        },
        None => {
            return None;
        },
    };
    match read_text(value, "newText") {
        Some(new_text) => Some(TextEdit { range, new_text }),
        None => None,
    }
}

proof fn lemma_edits_front(items: Seq<JsonView>, k: int)
    requires
        0 <= k <= items.len(),
        text_edits_in(items.take(k)) is None,
    ensures
        text_edits_in(items) is None,
    decreases items.len() - k,
{
    if k < items.len() {
        assert(items.take(k + 1).drop_last() =~= items.take(k));
        lemma_edits_front(items, k + 1);
    } else {
        assert(items.take(k) =~= items);
    }
}

fn read_edits(value: &Json) -> (edits: Option<Vec<TextEdit>>)
    ensures
        edits.deep_view() == edits_in(value@),
{
    let items = match value.items() {
        Some(items) => items,
        None => {
            return None;
        },
    };
    let ghost views = items.deep_view();
    let mut edits: Vec<TextEdit> = Vec::new();
    assert(edits.deep_view() =~= Seq::empty());
    let mut i: usize = 0;
    while i < items.len()
        invariant
            i <= items@.len(),
            views == items.deep_view(),
            value@ == JsonView::Array(views),
            text_edits_in(views.take(i as int)) == Some(edits.deep_view()),
        decreases items@.len() - i,
    {
        assert(views.take(i + 1).drop_last() =~= views.take(i as int));
        assert(views.take(i + 1).last() == items@[i as int]@);
        let ghost before = edits.deep_view();
        match read_text_edit(&items[i]) {
            Some(edit) => {
                edits.push(edit);
                assert(edits.deep_view() =~= before.push(edit.deep_view()));
            },
            None => {
                proof {
                    lemma_edits_front(views, i + 1);
                }
                return None;
            },
        }
        i += 1;
    }
    assert(views.take(i as int) =~= views);
    Some(edits)
}

fn read_document_edit(value: &Json) -> (edit: Option<TextDocumentEdit>)
    ensures
        edit.deep_view() == document_edit_in(value@),
{
    let uri = match value.get("textDocument") {
        Some(document) => match read_text(document, "uri") {
            Some(uri) => uri,
            None => {
                return None;
            },
        },
        None => {
            return None;
        },
    };
    let read = match value.get("edits") {
        Some(edits) => match read_edits(edits) {
            Some(edits) => edits,
            None => {
                return None;
            },
        },
        None => {
            return None;
        },
    };
    let ghost views = read.deep_view();
    let mut rest = read;
    let mut edits: Vec<DocumentEdit> = Vec::new();
    assert(edits.deep_view() + rest.deep_view() =~= views);
    while rest.len() > 0
        invariant
            edits.deep_view() + rest.deep_view() == views,
        decreases rest@.len(),
    {
        let ghost before = edits.deep_view();
        let ghost left = rest.deep_view();
        let edit = rest.remove(0);
        edits.push(DocumentEdit::Plain(edit));
        proof {
            assert(left =~= seq![edit.deep_view()] + rest.deep_view());
            assert(edits.deep_view() =~= before.push(edit.deep_view()));
            assert(edits.deep_view() + rest.deep_view() =~= before + left);
        }
    }
    assert(edits.deep_view() =~= views);
    Some(TextDocumentEdit { uri, edits })
}

fn read_step(value: &Json) -> (step: Option<DocumentChangeOperation>)
    ensures
        step.deep_view() == step_in(value@),
{
    if let Some(kind) = read_text(value, "kind") {
        if same_text(kind.as_str(), "create") {
            return match read_text(value, "uri") {
                Some(uri) => Some(DocumentChangeOperation::Op(ResourceOp::Create { uri })),
                None => None,
            };
        }
        if same_text(kind.as_str(), "rename") {
            return match (read_text(value, "oldUri"), read_text(value, "newUri")) {
                (Some(old_uri), Some(new_uri)) => Some(
                    DocumentChangeOperation::Op(ResourceOp::Rename { old_uri, new_uri }),
                ),
                _ => None,
            };
        }
        if same_text(kind.as_str(), "delete") {
            return match read_text(value, "uri") {
                Some(uri) => Some(DocumentChangeOperation::Op(ResourceOp::Delete { uri })),
                None => None,
            };
        }
    }
    match read_document_edit(value) {
        Some(edit) => Some(DocumentChangeOperation::Edit(edit)),
        None => None,
    }
}

proof fn lemma_steps_front(items: Seq<JsonView>, k: int)
    requires
        0 <= k <= items.len(),
        steps_in(items.take(k)) is None,
    ensures
        steps_in(items) is None,
    decreases items.len() - k,
{
    if k < items.len() {
        assert(items.take(k + 1).drop_last() =~= items.take(k));
        lemma_steps_front(items, k + 1);
    } else {
        assert(items.take(k) =~= items);
    }
}

fn read_steps(items: &Vec<Json>) -> (steps: Option<Vec<DocumentChangeOperation>>)
    ensures
        steps.deep_view() == steps_in(items.deep_view()),
{
    let ghost views = items.deep_view();
    let mut steps: Vec<DocumentChangeOperation> = Vec::new();
    assert(steps.deep_view() =~= Seq::empty());
    let mut i: usize = 0;
    while i < items.len()
        invariant
            i <= items@.len(),
            views == items.deep_view(),
            steps_in(views.take(i as int)) == Some(steps.deep_view()),
        decreases items@.len() - i,
    {
        assert(views.take(i + 1).drop_last() =~= views.take(i as int));
        assert(views.take(i + 1).last() == items@[i as int]@);
        let ghost before = steps.deep_view();
        match read_step(&items[i]) {
            Some(step) => {
                steps.push(step);
                assert(steps.deep_view() =~= before.push(step.deep_view()));
            },
            None => {
                proof {
                    lemma_steps_front(views, i + 1);
                }
                return None;
            },
        }
        i += 1;
    }
    assert(views.take(i as int) =~= views);
    Some(steps)
}

fn read_file_edits(value: &Json) -> (entries: Option<Vec<(String, Vec<TextEdit>)>>)
    ensures
        match entries {
            Some(entries) => value@ matches JsonView::Object(members) && file_edits_in(members)
                == Some(by_file(entries.deep_view())) && each_once(entries.deep_view()),
            None => value@ matches JsonView::Object(members) ==> file_edits_in(members) is None,
        },
{
    let members = match value.members() {
        Some(members) => members,
        None => {
            return None;
        },
    };
    let ghost all = value@->Object_0;
    let ghost listed = members.deep_view();
    let mut entries: Vec<(String, Vec<TextEdit>)> = Vec::new();
    let mut i: usize = 0;
    while i < members.len()
        invariant
            i <= members@.len(),
            listed == members.deep_view(),
            value@ == JsonView::Object(all),
            json::lists_members(listed, all),
            entries@.len() == i,
            forall|k: int|
                0 <= k < i ==> (#[trigger] entries.deep_view()[k]).0 == listed[k].0 && edits_in(
                    listed[k].1,
                ) == Some(entries.deep_view()[k].1),
        decreases members@.len() - i,
    {
        let ghost before = entries.deep_view();
        assert(listed[i as int] == (members@[i as int].0@, members@[i as int].1@));
        match read_edits(members[i].1) {
            Some(edits) => {
                entries.push((members[i].0.to_owned(), edits));
                assert(entries.deep_view() =~= before.push(
                    (listed[i as int].0, edits.deep_view()),
                ));
            },
            None => {
                assert(all.dom().contains(listed[i as int].0));
                assert(edits_in(all[listed[i as int].0]) is None);
                return None;
            },
        }
        i += 1;
    }
    proof {
        let told = entries.deep_view();
        assert forall|j: int, k: int| 0 <= j < k < told.len() implies (#[trigger] told[j]).0 != (
        #[trigger] told[k]).0 by {
            assert(listed[j].0 != listed[k].0);
        }
        lemma_by_file(told);
        assert forall|uri: Seq<char>| all.dom().contains(uri) implies (#[trigger] edits_in(
            all[uri],
        )) is Some && by_file(told).dom().contains(uri) && by_file(told)[uri] == edits_in(
            all[uri],
        )->0 by {
            let k = choose|k: int| 0 <= k < listed.len() && (#[trigger] listed[k]).0 == uri;
            assert(told[k].0 == uri);
        }
        assert forall|uri: Seq<char>| by_file(told).dom().contains(uri) implies all.dom().contains(
            uri,
        ) by {
            let k = choose|k: int| 0 <= k < told.len() && (#[trigger] told[k]).0 == uri;
            assert(listed[k].0 == uri);
        }
        assert(file_edits_in(all) == Some(
            all.map_values(|edits: JsonView| edits_in(edits)->0),
        ));
        let read = all.map_values(|edits: JsonView| edits_in(edits)->0);
        assert forall|uri: Seq<char>| #[trigger] read.dom().contains(uri) implies by_file(
            told,
        ).dom().contains(uri) && by_file(told)[uri] == read[uri] by {
            assert(edits_in(all[uri]) is Some);
        }
        assert(by_file(told).dom() =~= read.dom());
        assert(by_file(told) =~= read);
    }
    Some(entries)
}

/// Reads a change to the workspace. `None` where the value has not the form of one.
pub fn read_edit(value: &Json) -> (edit: Option<WorkspaceEdit>)
    ensures
        match edit {
            Some(edit) => is_written(edit.deep_view(), value@),
            None => !is_edit(value@),
        },
{
    let changes = match value.get("changes") {
        None => None,
        Some(members) => match read_file_edits(members) {
            Some(entries) => Some(entries),
            None => {
                return None;
            },
        },
    };
    let document_changes = match value.get("documentChanges") {
        None => None,
        Some(list) => match list.items() {
            Some(items) => match read_steps(items) {
                Some(steps) => Some(DocumentChanges::Operations(steps)),
                None => {
                    return None;
                },
            },
            None => {
                return None;
            },
        },
    };
    Some(WorkspaceEdit { changes, document_changes })
}

/// Whether a plan is that of the change that the value says.
pub open spec fn is_planned(plan: EditPlanView, value: JsonView) -> bool {
    exists|made: WorkspaceEditView| #[trigger] is_written(made, value) && plan
        == workspace::plan_of(workspace::steps_of(made))
}

/// What `lsp_types::WorkspaceEdit` keeps of a change to the workspace; or why the value is none.
pub uninterp spec fn kept_edit(edit: JsonView) -> Result<JsonView, Seq<char>>;

/// Why there is nothing to be done for a change to the workspace.
#[derive(Debug)]
pub enum EditError {
    /// A text in it is too long for a URI.
    TooLong,
    /// The value is no change to the workspace, and why.
    NotAnEdit(String),
}

#[verifier::ext_equal]
pub enum EditErrorView {
    TooLong,
    NotAnEdit(Seq<char>),
}

impl DeepView for EditError {
    type V = EditErrorView;

    open spec fn deep_view(&self) -> EditErrorView {
        match *self {
            EditError::TooLong => EditErrorView::TooLong,
            EditError::NotAnEdit(message) => EditErrorView::NotAnEdit(message@),
        }
    }
}

/// `serde_json::from_value` and `serde_json::to_value` for `lsp_types::WorkspaceEdit`: whether the
/// value is a change to the workspace, and what is kept of it, depends on the value alone. What is
/// kept has the form of a change. A text that is too long for a URI is not for it: the parser of URIs
/// panics.
#[verifier::external_body]
fn keep_edit(edit: &serde_json::Value) -> (kept: Result<serde_json::Value, String>)
    requires
        json::texts_within(json::value_contents(*edit), uri::uri_bytes()),
    ensures
        match kept {
            Ok(kept) => kept_edit(json::value_contents(*edit)) == Ok::<JsonView, Seq<char>>(
                json::value_contents(kept),
            ) && is_edit(json::value_contents(kept)),
            Err(message) => kept_edit(json::value_contents(*edit)) == Err::<JsonView, Seq<char>>(
                message@,
            ),
        },
{
    serde_json::from_value::<lsp_types::WorkspaceEdit>(edit.clone())
        .and_then(|edit| serde_json::to_value(edit))
        .map_err(|error| error.to_string())
}

/// The change to the workspace that is made for a value; or why none is.
pub open spec fn edit_made(edit: JsonView) -> Result<JsonView, EditErrorView> {
    if !json::texts_within(edit, uri::uri_bytes()) {
        Err(EditErrorView::TooLong)
    } else {
        match kept_edit(edit) {
            Ok(kept) => Ok(kept),
            Err(message) => Err(EditErrorView::NotAnEdit(message)),
        }
    }
}

/// What is to be done for a change to the workspace, file by file; or why nothing is.
pub fn edit_to_make(edit: &Json) -> (plan: Result<EditPlan, EditError>)
    ensures
        match plan {
            Ok(plan) => edit_made(edit@) matches Ok(kept) && is_planned(plan.deep_view(), kept),
            Err(error) => edit_made(edit@) == Err::<JsonView, EditErrorView>(error.deep_view()),
        },
{
    if !edit.texts_within(MAX_URI_BYTES) {
        return Err(EditError::TooLong);
    }
    match keep_edit(&edit.to_value()) {
        Ok(kept) => {
            let kept = Json::from_value(&kept);
            match read_edit(&kept) {
                Some(made) => {
                    let plan = EditPlan::of(&made);
                    assert(is_written(made.deep_view(), kept@));
                    Ok(plan)
                },
                None => {
                    assert(false);
                    Err(EditError::TooLong)
                },
            }
        },
        Err(message) => Err(EditError::NotAnEdit(message)),
    }
}

/// Every file that a change edits is planned with its edits, unless an error ends the plan or the URI
/// stands for no file.
pub proof fn every_file_of_a_change_is_planned(plan: EditPlanView, value: JsonView, uri: Seq<char>)
    requires
        is_planned(plan, value),
        plan.error is None,
        changes_in(value) matches Some(Some(files)) && files.dom().contains(uri),
        uri::url_path(uri) is Some,
    ensures
        plan.actions.contains(
            FileActionView::Edit {
                uri,
                path: uri::url_path(uri)->0,
                edits: (changes_in(value)->0)->0[uri],
            },
        ),
{
    let made = choose|made: WorkspaceEditView| #[trigger]
        is_written(made, value) && plan == workspace::plan_of(workspace::steps_of(made));
    let entries = made.changes->0;
    let steps = workspace::steps_of(made);
    lemma_by_file(entries);
    let k = choose|k: int| 0 <= k < entries.len() && (#[trigger] entries[k]).0 == uri;
    assert(steps[k] == Step::Edit { uri, edits: entries[k].1 });
    workspace::every_step_is_planned(steps, k);
}

/// Whether a value has a member of that name that is that number.
pub open spec fn gives_number(value: JsonView, name: Seq<char>, n: u32) -> bool {
    value matches JsonView::Object(members) && members.dom().contains(name) && members[name]
        == JsonView::Number(NumberView::Integer(n as int))
}

/// Whether a value spells a position: its line and its character.
pub open spec fn spells_position(value: JsonView, position: Position) -> bool {
    gives_number(value, "line"@, position.line) && gives_number(
        value,
        "character"@,
        position.character,
    )
}

/// Whether a value spells an edit: where its range starts, where it ends, and the new text.
pub open spec fn spells_edit(value: JsonView, edit: TextEditView) -> bool {
    value matches JsonView::Object(members) && members.dom().contains("range"@)
        && members.dom().contains("newText"@) && members["newText"@] == JsonView::Text(
        edit.new_text,
    ) && (members["range"@] matches JsonView::Object(sides) && sides.dom().contains("start"@)
        && sides.dom().contains("end"@) && spells_position(sides["start"@], edit.range.start)
        && spells_position(sides["end"@], edit.range.end))
}

/// A value that spells an edit is read as that edit, and as no other.
pub proof fn an_edit_is_read_as_it_is_spelled(value: JsonView, edit: TextEditView)
    ensures
        text_edit_in(value) == Some(edit) <==> spells_edit(value, edit),
{
}

/// The edits of a list are as many as its items, and each is the one that its item spells.
pub proof fn a_list_gives_the_edit_of_each_item(items: Seq<JsonView>, edits: Seq<TextEditView>)
    ensures
        edits_in(JsonView::Array(items)) == Some(edits) <==> {
            &&& edits.len() == items.len()
            &&& forall|i: int| 0 <= i < items.len() ==> spells_edit(#[trigger] items[i], edits[i])
        },
    decreases items.len(),
{
    let spelled = edits.len() == items.len() && forall|i: int|
        0 <= i < items.len() ==> spells_edit(#[trigger] items[i], edits[i]);
    if items.len() == 0 {
        if edits.len() == 0 {
            assert(edits =~= Seq::empty());
        }
    } else {
        let front = items.drop_last();
        let last = items.last();
        if text_edits_in(items) == Some(edits) {
            a_list_gives_the_edit_of_each_item(front, edits.drop_last());
            assert(edits.drop_last() =~= text_edits_in(front)->0);
            an_edit_is_read_as_it_is_spelled(last, edits.last());
            assert forall|i: int| 0 <= i < items.len() implies spells_edit(
                #[trigger] items[i],
                edits[i],
            ) by {
                if i < front.len() {
                    assert(front[i] == items[i]);
                    assert(edits.drop_last()[i] == edits[i]);
                }
            }
        }
        if spelled {
            assert forall|i: int| 0 <= i < front.len() implies spells_edit(
                #[trigger] front[i],
                edits.drop_last()[i],
            ) by {
                assert(front[i] == items[i]);
            }
            a_list_gives_the_edit_of_each_item(front, edits.drop_last());
            assert(spells_edit(items[items.len() - 1], edits[items.len() - 1]));
            an_edit_is_read_as_it_is_spelled(last, edits.last());
            assert(edits.drop_last().push(edits.last()) =~= edits);
        }
    }
}

/// Whether a value has a member of that name that is that text.
pub open spec fn gives_text(value: JsonView, name: Seq<char>, text: Seq<char>) -> bool {
    value matches JsonView::Object(members) && members.dom().contains(name) && members[name]
        == JsonView::Text(text)
}

/// Whether a value spells a step: what is to be done, to which files, and for a document all its edits.
pub open spec fn spells_step(value: JsonView, step: Step) -> bool {
    match step {
        Step::Create { uri } => gives_text(value, "kind"@, "create"@) && gives_text(
            value,
            "uri"@,
            uri,
        ),
        Step::Rename { old_uri, new_uri } => gives_text(value, "kind"@, "rename"@) && gives_text(
            value,
            "oldUri"@,
            old_uri,
        ) && gives_text(value, "newUri"@, new_uri),
        Step::Delete { uri } => gives_text(value, "kind"@, "delete"@) && gives_text(
            value,
            "uri"@,
            uri,
        ),
        Step::Edit { uri, edits } => {
            &&& !gives_text(value, "kind"@, "create"@)
            &&& !gives_text(value, "kind"@, "rename"@)
            &&& !gives_text(value, "kind"@, "delete"@)
            &&& value matches JsonView::Object(members) && members.dom().contains("textDocument"@)
                && members.dom().contains("edits"@) && gives_text(
                members["textDocument"@],
                "uri"@,
                uri,
            ) && (members["edits"@] matches JsonView::Array(items) && items.len() == edits.len()
                && forall|i: int|
                0 <= i < items.len() ==> spells_edit(#[trigger] items[i], edits[i]))
        },
    }
}

proof fn lemma_kinds_differ()
    ensures
        "create"@ != "rename"@,
        "create"@ != "delete"@,
        "rename"@ != "delete"@,
{
    reveal_strlit("create");
    reveal_strlit("rename");
    reveal_strlit("delete");
    assert("create"@[0] != "rename"@[0]);
    assert("create"@[0] != "delete"@[0]);
    assert("rename"@[0] != "delete"@[0]);
}

/// A value that spells a step is read as that step, and as no other.
pub proof fn a_step_is_read_as_it_is_spelled(value: JsonView, step: Step)
    ensures
        step_in(value) == Some(step) <==> spells_step(value, step),
{
    lemma_kinds_differ();
    if let Step::Edit { uri, edits } = step {
        if let Some(JsonView::Array(items)) = json::json_member(value, "edits"@) {
            a_list_gives_the_edit_of_each_item(items, edits);
        }
    }
}

/// The changes to documents are as many as the items that list them, and each is the one that its item
/// spells, in order.
pub proof fn a_list_gives_the_step_of_each_item(items: Seq<JsonView>, steps: Seq<Step>)
    ensures
        steps_in(items) == Some(steps) <==> {
            &&& steps.len() == items.len()
            &&& forall|i: int| 0 <= i < items.len() ==> spells_step(#[trigger] items[i], steps[i])
        },
    decreases items.len(),
{
    let spelled = steps.len() == items.len() && forall|i: int|
        0 <= i < items.len() ==> spells_step(#[trigger] items[i], steps[i]);
    if items.len() == 0 {
        if steps.len() == 0 {
            assert(steps =~= Seq::empty());
        }
    } else {
        let front = items.drop_last();
        let last = items.last();
        if steps_in(items) == Some(steps) {
            a_list_gives_the_step_of_each_item(front, steps.drop_last());
            assert(steps.drop_last() =~= steps_in(front)->0);
            a_step_is_read_as_it_is_spelled(last, steps.last());
            assert forall|i: int| 0 <= i < items.len() implies spells_step(
                #[trigger] items[i],
                steps[i],
            ) by {
                if i < front.len() {
                    assert(front[i] == items[i]);
                    assert(steps.drop_last()[i] == steps[i]);
                }
            }
        }
        if spelled {
            assert forall|i: int| 0 <= i < front.len() implies spells_step(
                #[trigger] front[i],
                steps.drop_last()[i],
            ) by {
                assert(front[i] == items[i]);
            }
            a_list_gives_the_step_of_each_item(front, steps.drop_last());
            assert(spells_step(items[items.len() - 1], steps[items.len() - 1]));
            a_step_is_read_as_it_is_spelled(last, steps.last());
            assert(steps.drop_last().push(steps.last()) =~= steps);
        }
    }
}

/// Whether an action is that of a file that a change edits: it makes the edits that the list under the
/// URI of the file spells, all of them and in their order.
pub open spec fn edits_a_file_of(action: FileActionView, files: Map<Seq<char>, JsonView>) -> bool {
    action matches FileActionView::Edit { uri, path, edits } && files.dom().contains(uri)
        && uri::url_path(uri) == Some(path) && (files[uri] matches JsonView::Array(items)
        && items.len() == edits.len() && forall|i: int|
        0 <= i < items.len() ==> spells_edit(#[trigger] items[i], edits[i]))
}

/// The files that a change lists edits for, by URI; none where it lists none.
pub open spec fn listed_files(value: JsonView) -> Map<Seq<char>, JsonView> {
    match value {
        JsonView::Object(members) => if members.dom().contains("changes"@) {
            members["changes"@]->Object_0
        } else {
            Map::empty()
        },
        _ => Map::empty(),
    }
}

/// The items that list the changes to documents; none where there are none.
pub open spec fn listed_steps(value: JsonView) -> Seq<JsonView> {
    match value {
        JsonView::Object(members) => if members.dom().contains("documentChanges"@) {
            members["documentChanges"@]->Array_0
        } else {
            Seq::empty()
        },
        _ => Seq::empty(),
    }
}

/// Whether an action does what an item of the changes to documents says.
pub open spec fn does_what_is_said(action: FileActionView, item: JsonView) -> bool {
    exists|step: Step| #[trigger] workspace::does(action, step) && spells_step(item, step)
}

/// A change whose URIs all stand for files is planned as it is written. First comes one action for each
/// file that it lists edits for, which makes just the edits that are listed; then one for each change to
/// a document, in order, which does what the item says; and nothing else.
pub proof fn a_change_is_planned_as_it_is_written(plan: EditPlanView, value: JsonView)
    requires
        is_planned(plan, value),
        forall|uri: Seq<char>| #[trigger]
            listed_files(value).dom().contains(uri) ==> uri::parsed_url(uri) is Ok && uri::url_path(
                uri,
            ) is Some,
        forall|i: int, step: Step|
            0 <= i < listed_steps(value).len() && #[trigger] spells_step(
                listed_steps(value)[i],
                step,
            ) ==> workspace::names_urls(step) && workspace::names_files(step),
    ensures
        plan.error is None,
        ({
            let documents = listed_steps(value).len() as int;
            let files = plan.actions.len() - documents;
            &&& 0 <= files
            &&& forall|k: int|
                0 <= k < files ==> edits_a_file_of(#[trigger] plan.actions[k], listed_files(value))
            &&& forall|j: int, k: int|
                0 <= j < k < files ==> (#[trigger] plan.actions[j])->Edit_uri != (
                #[trigger] plan.actions[k])->Edit_uri
            &&& forall|uri: Seq<char>| #[trigger]
                listed_files(value).dom().contains(uri) ==> exists|k: int|
                    0 <= k < files && (#[trigger] plan.actions[k])->Edit_uri == uri
            &&& forall|i: int|
                0 <= i < documents ==> does_what_is_said(
                    plan.actions[files + i],
                    #[trigger] listed_steps(value)[i],
                )
        }),
{
    let made = choose|made: WorkspaceEditView| #[trigger]
        is_written(made, value) && plan == workspace::plan_of(workspace::steps_of(made));
    let steps = workspace::steps_of(made);
    let files = listed_files(value);
    let items = listed_steps(value);
    let entries = match made.changes {
        Some(entries) => entries,
        None => Seq::empty(),
    };
    let documents = match made.document_changes {
        Some(steps) => steps,
        None => Seq::empty(),
    };
    lemma_by_file(entries);
    assert(json::json_member(value, "documentChanges"@) is Some ==> steps_in(items) == Some(
        documents,
    ));
    a_list_gives_the_step_of_each_item(items, documents);
    assert(documents.len() == items.len());
    assert(by_file(entries).dom() =~= files.dom());
    assert forall|k: int| 0 <= k < entries.len() implies files.dom().contains(
        (#[trigger] entries[k]).0,
    ) && edits_in(files[entries[k].0]) == Some(entries[k].1) by {
        assert(by_file(entries).dom().contains(entries[k].0));
        assert(edits_in(files[entries[k].0]) is Some);
    }
    assert(steps.len() == entries.len() + documents.len());
    assert forall|i: int| 0 <= i < steps.len() implies workspace::names_urls(#[trigger] steps[i])
        && workspace::names_files(steps[i]) by {
        if i < entries.len() {
            assert(steps[i] == Step::Edit { uri: entries[i].0, edits: entries[i].1 });
            assert(files.dom().contains(entries[i].0));
        } else {
            assert(steps[i] == documents[i - entries.len()]);
            assert(spells_step(items[i - entries.len()], documents[i - entries.len()]));
        }
    }
    workspace::steps_are_planned_one_for_one(steps);
    assert forall|k: int| 0 <= k < entries.len() implies edits_a_file_of(
        #[trigger] plan.actions[k],
        files,
    ) && plan.actions[k]->Edit_uri == entries[k].0 by {
        assert(workspace::does(plan.actions[k], steps[k]));
        assert(steps[k] == Step::Edit { uri: entries[k].0, edits: entries[k].1 });
        a_list_gives_the_edit_of_each_item(files[entries[k].0]->Array_0, entries[k].1);
    }
    assert forall|uri: Seq<char>| #[trigger] files.dom().contains(uri) implies exists|k: int|
        0 <= k < entries.len() && (#[trigger] plan.actions[k])->Edit_uri == uri by {
        assert(by_file(entries).dom().contains(uri));
        let k = choose|k: int| 0 <= k < entries.len() && (#[trigger] entries[k]).0 == uri;
        assert(plan.actions[k]->Edit_uri == uri);
    }
    assert forall|j: int, k: int| 0 <= j < k < entries.len() implies (
    #[trigger] plan.actions[j])->Edit_uri != (#[trigger] plan.actions[k])->Edit_uri by {
        assert(entries[j].0 != entries[k].0);
    }
    assert(plan.actions.len() - items.len() == entries.len());
    assert forall|i: int| 0 <= i < items.len() implies does_what_is_said(
        plan.actions[plan.actions.len() - items.len() + i],
        #[trigger] items[i],
    ) by {
        assert(steps[entries.len() + i] == documents[i]);
        assert(workspace::does(plan.actions[entries.len() + i], documents[i]));
    }
}

/// A change with a text that is too long for a URI is refused for that; another one is refused where it is
/// none, and why is told; else what is kept of it is made.
pub proof fn a_change_is_made_or_refused_with_a_reason(edit: JsonView)
    ensures
        !json::texts_within(edit, 0x7fff_ffff) ==> edit_made(edit) == Err::<
            JsonView,
            EditErrorView,
        >(EditErrorView::TooLong),
        json::texts_within(edit, 0x7fff_ffff) ==> match kept_edit(edit) {
            Ok(kept) => edit_made(edit) == Ok::<JsonView, EditErrorView>(kept),
            Err(why) => edit_made(edit) == Err::<JsonView, EditErrorView>(
                EditErrorView::NotAnEdit(why),
            ),
        },
{
}

/// Why nothing is done is seen as it is.
pub proof fn a_refusal_is_seen_as_it_is(why: String)
    ensures
        EditError::TooLong.deep_view() == EditErrorView::TooLong,
        EditError::NotAnEdit(why).deep_view() == EditErrorView::NotAnEdit(why@),
{
}

} // verus!
