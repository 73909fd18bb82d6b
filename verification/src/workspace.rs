//! Changes to the workspace, and what they come to file by file.
use crate::edits;
use crate::edits::{copy_edit, copy_edits, edit_text, TextEdit, TextEditView};
use crate::handler::MyHandler;
use crate::uri::{parse_url, path_of_uri};
use crate::uri;
use vstd::prelude::*;

verus! {

/// An edit of a document, which an annotation may describe.
#[derive(Debug)]
pub enum DocumentEdit {
    Plain(TextEdit),
    Annotated { text_edit: TextEdit, annotation_id: String },
}

/// The edits of one document.
#[derive(Debug)]
pub struct TextDocumentEdit {
    pub uri: String,
    pub edits: Vec<DocumentEdit>,
}

/// An operation on a file as a whole.
#[derive(Debug)]
pub enum ResourceOp {
    Create { uri: String },
    Rename { old_uri: String, new_uri: String },
    Delete { uri: String },
}

#[derive(Debug)]
pub enum DocumentChangeOperation {
    Edit(TextDocumentEdit),
    Op(ResourceOp),
}

#[derive(Debug)]
pub enum DocumentChanges {
    Edits(Vec<TextDocumentEdit>),
    Operations(Vec<DocumentChangeOperation>),
}

/// A change to the workspace. The entries of `changes` come in the order in which they are to be
/// made.
#[derive(Debug)]
pub struct WorkspaceEdit {
    pub changes: Option<Vec<(String, Vec<TextEdit>)>>,
    pub document_changes: Option<DocumentChanges>,
}

/// Something to be done to a file. The URI says which file it is; its path is told beside it, with
/// replacement characters where it is not UTF-8.
#[derive(Debug)]
pub enum FileAction {
    Edit { uri: String, path: String, edits: Vec<TextEdit> },
    Create { uri: String, path: String },
    Rename { old_uri: String, from: String, new_uri: String, to: String },
    Delete { uri: String, path: String },
}

/// What is to be done, one action after another, and the error that ends it, if any.
#[derive(Debug)]
pub struct EditPlan {
    pub actions: Vec<FileAction>,
    pub error: Option<String>,
}

/// One step of a change to the workspace, which names files by their URIs.
#[verifier::ext_equal]
pub enum Step {
    Edit { uri: Seq<char>, edits: Seq<TextEditView> },
    Create { uri: Seq<char> },
    Rename { old_uri: Seq<char>, new_uri: Seq<char> },
    Delete { uri: Seq<char> },
}

#[verifier::ext_equal]
pub enum FileActionView {
    Edit { uri: Seq<char>, path: Seq<char>, edits: Seq<TextEditView> },
    Create { uri: Seq<char>, path: Seq<char> },
    Rename { old_uri: Seq<char>, from: Seq<char>, new_uri: Seq<char>, to: Seq<char> },
    Delete { uri: Seq<char>, path: Seq<char> },
}

#[verifier::ext_equal]
pub struct EditPlanView {
    pub actions: Seq<FileActionView>,
    pub error: Option<Seq<char>>,
}

#[verifier::ext_equal]
pub struct WorkspaceEditView {
    pub changes: Option<Seq<(Seq<char>, Seq<TextEditView>)>>,
    pub document_changes: Option<Seq<Step>>,
}

impl DeepView for DocumentEdit {
    type V = TextEditView;

    open spec fn deep_view(&self) -> TextEditView {
        match *self {
            DocumentEdit::Plain(edit) => edit.deep_view(),
            DocumentEdit::Annotated { text_edit, annotation_id: _ } => text_edit.deep_view(),
        }
    }
}

impl DeepView for TextDocumentEdit {
    type V = Step;

    open spec fn deep_view(&self) -> Step {
        Step::Edit { uri: self.uri@, edits: self.edits.deep_view() }
    }
}

impl DeepView for DocumentChangeOperation {
    type V = Step;

    open spec fn deep_view(&self) -> Step {
        match *self {
            DocumentChangeOperation::Edit(edit) => edit.deep_view(),
            DocumentChangeOperation::Op(ResourceOp::Create { uri }) => Step::Create { uri: uri@ },
            DocumentChangeOperation::Op(ResourceOp::Rename { old_uri, new_uri }) => Step::Rename {
                old_uri: old_uri@,
                new_uri: new_uri@,
            },
            DocumentChangeOperation::Op(ResourceOp::Delete { uri }) => Step::Delete { uri: uri@ },
        }
    }
}

impl DeepView for DocumentChanges {
    type V = Seq<Step>;

    open spec fn deep_view(&self) -> Seq<Step> {
        match *self {
            DocumentChanges::Edits(edits) => edits.deep_view(),
            DocumentChanges::Operations(operations) => operations.deep_view(),
        }
    }
}

impl DeepView for WorkspaceEdit {
    type V = WorkspaceEditView;

    open spec fn deep_view(&self) -> WorkspaceEditView {
        WorkspaceEditView {
            changes: self.changes.deep_view(),
            document_changes: self.document_changes.deep_view(),
        }
    }
}

impl DeepView for FileAction {
    type V = FileActionView;

    open spec fn deep_view(&self) -> FileActionView {
        match *self {
            FileAction::Edit { uri, path, edits } => FileActionView::Edit {
                uri: uri@,
                path: path@,
                edits: edits.deep_view(),
            },
            FileAction::Create { uri, path } => FileActionView::Create { uri: uri@, path: path@ },
            FileAction::Rename { old_uri, from, new_uri, to } => FileActionView::Rename {
                old_uri: old_uri@,
                from: from@,
                new_uri: new_uri@,
                to: to@,
            },
            FileAction::Delete { uri, path } => FileActionView::Delete { uri: uri@, path: path@ },
        }
    }
}

impl DeepView for EditPlan {
    type V = EditPlanView;

    open spec fn deep_view(&self) -> EditPlanView {
        EditPlanView { actions: self.actions.deep_view(), error: self.error.deep_view() }
    }
}

/// The steps of a change: the edits by file first, then the changes to documents.
pub open spec fn steps_of(edit: WorkspaceEditView) -> Seq<Step> {
    let by_file = match edit.changes {
        Some(changes) => changes.map_values(
            |entry: (Seq<char>, Seq<TextEditView>)| Step::Edit { uri: entry.0, edits: entry.1 },
        ),
        None => Seq::empty(),
    };
    match edit.document_changes {
        Some(steps) => by_file + steps,
        None => by_file,
    }
}

/// The action of a step: none where the URIs stand for no files, the message of the first URI that
/// is no URL where there is one.
pub open spec fn action_of(step: Step) -> Result<Option<FileActionView>, Seq<char>> {
    match step {
        Step::Edit { uri, edits } => match uri::parsed_url(uri) {
            Err(message) => Err(message),
            Ok(_) => Ok(
                match uri::url_path(uri) {
                    Some(path) => Some(FileActionView::Edit { uri, path, edits }),
                    None => None,
                },
            ),
        },
        Step::Create { uri } => match uri::parsed_url(uri) {
            Err(message) => Err(message),
            Ok(_) => Ok(
                match uri::url_path(uri) {
                    Some(path) => Some(FileActionView::Create { uri, path }),
                    None => None,
                },
            ),
        },
        Step::Rename { old_uri, new_uri } => match (
            uri::parsed_url(old_uri),
            uri::parsed_url(new_uri),
        ) {
            (Err(message), _) => Err(message),
            (Ok(_), Err(message)) => Err(message),
            (Ok(_), Ok(_)) => Ok(
                match (uri::url_path(old_uri), uri::url_path(new_uri)) {
                    (Some(from), Some(to)) => Some(
                        FileActionView::Rename { old_uri, from, new_uri, to },
                    ),
                    _ => None,
                },
            ),
        },
        Step::Delete { uri } => match uri::parsed_url(uri) {
            Err(message) => Err(message),
            Ok(_) => Ok(
                match uri::url_path(uri) {
                    Some(path) => Some(FileActionView::Delete { uri, path }),
                    None => None,
                },
            ),
        },
    }
}

/// The plan with one step more. An error ends the plan.
pub open spec fn plan_with(plan: EditPlanView, step: Step) -> EditPlanView {
    if plan.error is Some {
        plan
    } else {
        match action_of(step) {
            Ok(Some(action)) => EditPlanView { actions: plan.actions.push(action), ..plan },
            Ok(None) => plan,
            Err(message) => EditPlanView { error: Some(message), ..plan },
        }
    }
}

/// The plan of the steps, one after another.
pub open spec fn plan_of(steps: Seq<Step>) -> EditPlanView
    decreases steps.len(),
{
    if steps.len() == 0 {
        EditPlanView { actions: Seq::empty(), error: None }
    } else {
        plan_with(plan_of(steps.drop_last()), steps.last())
    }
}

impl EditPlan {
    /// Takes a URI's path. `Err` where the URI is no URL.
    fn resolve(uri: &str) -> (path: Result<Option<String>, String>)
        ensures
            match path {
                Ok(path) => uri::parsed_url(uri@) is Ok && path.deep_view() == uri::url_path(uri@),
                Err(message) => uri::parsed_url(uri@) == Err::<Seq<char>, Seq<char>>(message@),
            },
    {
        match parse_url(uri) {
            Ok(_) => Ok(path_of_uri(uri)),
            Err(message) => Err(message),
        }
    }

    fn add(&mut self, action: Result<Option<FileAction>, String>, Ghost(step): Ghost<Step>)
        requires
            match action {
                Ok(action) => action_of(step) == Ok::<Option<FileActionView>, Seq<char>>(
                    action.deep_view(),
                ),
                Err(message) => action_of(step) == Err::<Option<FileActionView>, Seq<char>>(
                    message@,
                ),
            },
        ensures
            final(self).deep_view() == plan_with(old(self).deep_view(), step),
    {
        let ghost before = self.deep_view();
        if self.error.is_none() {
            match action {
                Ok(Some(action)) => {
                    self.actions.push(action);
                    assert(self.actions.deep_view() =~= before.actions.push(action.deep_view()));
                },
                Ok(None) => {},
                Err(message) => {
                    self.error = Some(message);
                },
            }
        }
    }

    fn add_edit(&mut self, uri: &str, edits: Vec<TextEdit>)
        ensures
            final(self).deep_view() == plan_with(
                old(self).deep_view(),
                Step::Edit { uri: uri@, edits: edits.deep_view() },
            ),
    {
        let ghost step = Step::Edit { uri: uri@, edits: edits.deep_view() };
        let action = match EditPlan::resolve(uri) {
            Ok(Some(path)) => Ok(Some(FileAction::Edit { uri: uri.to_owned(), path, edits })),
            Ok(None) => Ok(None),
            Err(message) => Err(message),
        };
        self.add(action, Ghost(step));
    }

    fn add_document_edit(&mut self, edit: &TextDocumentEdit)
        ensures
            final(self).deep_view() == plan_with(old(self).deep_view(), edit.deep_view()),
    {
        let mut edits: Vec<TextEdit> = Vec::new();
        let mut i: usize = 0;
        while i < edit.edits.len()
            invariant
                i <= edit.edits@.len(),
                edits@.len() == i,
                forall|k: int|
                    0 <= k < i ==> (#[trigger] edits@[k]).deep_view()
                        == edit.edits@[k].deep_view(),
            decreases edit.edits@.len() - i,
        {
            let text_edit = match &edit.edits[i] {
                DocumentEdit::Plain(text_edit) => copy_edit(text_edit),
                DocumentEdit::Annotated { text_edit, annotation_id: _ } => copy_edit(text_edit),
            };
            edits.push(text_edit);
            i += 1;
        }
        assert(edits.deep_view() =~= edit.edits.deep_view());
        self.add_edit(edit.uri.as_str(), edits);
    }

    fn add_operation(&mut self, operation: &DocumentChangeOperation)
        ensures
            final(self).deep_view() == plan_with(old(self).deep_view(), operation.deep_view()),
    {
        let ghost step = operation.deep_view();
        match operation {
            DocumentChangeOperation::Edit(edit) => self.add_document_edit(edit),
            DocumentChangeOperation::Op(ResourceOp::Create { uri }) => {
                let action = match EditPlan::resolve(uri.as_str()) {
                    Ok(Some(path)) => Ok(Some(FileAction::Create { uri: uri.clone(), path })),
                    Ok(None) => Ok(None),
                    Err(message) => Err(message),
                };
                self.add(action, Ghost(step));
            },
            DocumentChangeOperation::Op(ResourceOp::Rename { old_uri, new_uri }) => {
                let action = match EditPlan::resolve(old_uri.as_str()) {
                    Err(message) => Err(message),
                    Ok(old_path) => match EditPlan::resolve(new_uri.as_str()) {
                        Err(message) => Err(message),
                        Ok(new_path) => match (old_path, new_path) {
                            (Some(from), Some(to)) => Ok(
                                Some(
                                    FileAction::Rename {
                                        old_uri: old_uri.clone(),
                                        from,
                                        new_uri: new_uri.clone(),
                                        to,
                                    },
                                ),
                            ),
                            _ => Ok(None),
                        },
                    },
                };
                self.add(action, Ghost(step));
            },
            DocumentChangeOperation::Op(ResourceOp::Delete { uri }) => {
                let action = match EditPlan::resolve(uri.as_str()) {
                    Ok(Some(path)) => Ok(Some(FileAction::Delete { uri: uri.clone(), path })),
                    Ok(None) => Ok(None),
                    Err(message) => Err(message),
                };
                self.add(action, Ghost(step));
            },
        }
    }

    /// The plan of a change to the workspace.
    pub fn of(edit: &WorkspaceEdit) -> (plan: EditPlan)
        ensures
            plan.deep_view() == plan_of(steps_of(edit.deep_view())),
    {
        let ghost steps = steps_of(edit.deep_view());
        let mut plan = EditPlan { actions: Vec::new(), error: None };
        let ghost mut done: int = 0;
        assert(plan.deep_view() =~= plan_of(steps.take(0)));
        if let Some(changes) = &edit.changes {
            let mut i: usize = 0;
            while i < changes.len()
                invariant
                    i <= changes@.len(),
                    done == i,
                    edit.changes == Some(*changes),
                    steps == steps_of(edit.deep_view()),
                    plan.deep_view() == plan_of(steps.take(done)),
                decreases changes@.len() - i,
            {
                let edits = copy_edits(&changes[i].1);
                proof {
                    assert(steps[i as int] == Step::Edit {
                        uri: changes@[i as int].0@,
                        edits: edits.deep_view(),
                    });
                    assert(steps.take(done + 1).drop_last() =~= steps.take(done));
                    done = done + 1;
                }
                plan.add_edit(changes[i].0.as_str(), edits);
                i += 1;
            }
        }
        if let Some(document_changes) = &edit.document_changes {
            let ghost base = done;
            match document_changes {
                DocumentChanges::Edits(edits) => {
                    let mut i: usize = 0;
                    while i < edits.len()
                        invariant
                            i <= edits@.len(),
                            edit.document_changes == Some(DocumentChanges::Edits(*edits)),
                            steps == steps_of(edit.deep_view()),
                            0 <= base,
                            base + edits@.len() == steps.len(),
                            plan.deep_view() == plan_of(steps.take(base + i)),
                        decreases edits@.len() - i,
                    {
                        assert(steps[base + i] == edits@[i as int].deep_view());
                        assert(steps.take(base + i + 1).drop_last() =~= steps.take(base + i));
                        plan.add_document_edit(&edits[i]);
                        i += 1;
                    }
                },
                DocumentChanges::Operations(operations) => {
                    let mut i: usize = 0;
                    while i < operations.len()
                        invariant
                            i <= operations@.len(),
                            edit.document_changes == Some(DocumentChanges::Operations(*operations)),
                            steps == steps_of(edit.deep_view()),
                            0 <= base,
                            base + operations@.len() == steps.len(),
                            plan.deep_view() == plan_of(steps.take(base + i)),
                        decreases operations@.len() - i,
                    {
                        assert(steps[base + i] == operations@[i as int].deep_view());
                        assert(steps.take(base + i + 1).drop_last() =~= steps.take(base + i));
                        plan.add_operation(&operations[i]);
                        i += 1;
                    }
                },
            }
        }
        assert(steps.take(steps.len() as int) =~= steps);
        plan
    }
}

/// What is to be done next for a plan: an action, or nothing more, since all is done or something
/// failed.
#[derive(Debug)]
pub enum PlanStep {
    Do(FileAction),
    Done(Result<(), String>),
}

#[verifier::ext_equal]
pub enum PlanStepView {
    Do(FileActionView),
    Done(Result<(), Seq<char>>),
}

impl DeepView for PlanStep {
    type V = PlanStepView;

    open spec fn deep_view(&self) -> PlanStepView {
        match *self {
            PlanStep::Do(action) => PlanStepView::Do(action.deep_view()),
            PlanStep::Done(Ok(_)) => PlanStepView::Done(Ok(())),
            PlanStep::Done(Err(message)) => PlanStepView::Done(Err(message@)),
        }
    }
}

/// What came of an action.
pub open spec fn action_outcome(outcome: Result<(), String>) -> Result<(), Seq<char>> {
    match outcome {
        Ok(_) => Ok(()),
        Err(message) => Err(message@),
    }
}

/// The next step of a plan: its first action where there is one left, else the end, with the error
/// of the plan where it has one.
pub open spec fn plan_step(plan: EditPlanView) -> PlanStepView {
    if plan.actions.len() > 0 {
        PlanStepView::Do(plan.actions.first())
    } else {
        PlanStepView::Done(
            match plan.error {
                Some(message) => Err(message),
                None => Ok(()),
            },
        )
    }
}

/// What is left of a plan behind its next step.
pub open spec fn plan_left(plan: EditPlanView) -> EditPlanView {
    if plan.actions.len() > 0 {
        EditPlanView { actions: plan.actions.skip(1), ..plan }
    } else {
        plan
    }
}

/// A plan that is carried out, one action after another. What it holds is still to be done.
#[derive(Debug)]
pub struct PlanRun {
    plan: EditPlan,
}

impl View for PlanRun {
    type V = EditPlanView;

    closed spec fn view(&self) -> EditPlanView {
        self.plan.deep_view()
    }
}

impl PlanRun {
    fn step(&mut self) -> (step: PlanStep)
        ensures
            step.deep_view() == plan_step(old(self)@),
            final(self)@ == plan_left(old(self)@),
    {
        if self.plan.actions.len() > 0 {
            let ghost before = self.plan.actions.deep_view();
            let action = self.plan.actions.remove(0);
            assert(self.plan.actions.deep_view() =~= before.skip(1));
            PlanStep::Do(action)
        } else {
            match &self.plan.error {
                Some(message) => PlanStep::Done(Err(message.clone())),
                None => PlanStep::Done(Ok(())),
            }
        }
    }

    /// Begins to carry out a plan.
    pub fn begin(plan: EditPlan) -> (begun: (PlanRun, PlanStep))
        ensures
            begun.1.deep_view() == plan_step(plan.deep_view()),
            begun.0@ == plan_left(plan.deep_view()),
    {
        let mut run = PlanRun { plan };
        let step = run.step();
        (run, step)
    }

    /// Goes on after an action, by what came of it: with the next step where it succeeded. Where it
    /// failed, the plan ends there, with that error and no further action.
    pub fn next(&mut self, outcome: Result<(), String>) -> (step: PlanStep)
        ensures
            match action_outcome(outcome) {
                Ok(_) => {
                    &&& step.deep_view() == plan_step(old(self)@)
                    &&& final(self)@ == plan_left(old(self)@)
                },
                Err(message) => {
                    &&& step.deep_view() == PlanStepView::Done(Err(message))
                    &&& final(self)@ == old(self)@
                },
            },
    {
        match outcome {
            Ok(_) => self.step(),
            Err(message) => PlanStep::Done(Err(message)),
        }
    }
}

/// How a plan is carried out where its actions come out like that: the actions that are tried, one
/// after another, and what comes of the plan.
pub open spec fn carried_out(
    plan: EditPlanView,
    step: PlanStepView,
    outcomes: Seq<Result<(), Seq<char>>>,
) -> (Seq<FileActionView>, Option<Result<(), Seq<char>>>)
    decreases outcomes.len(),
{
    match step {
        PlanStepView::Done(result) => (Seq::empty(), Some(result)),
        PlanStepView::Do(action) => if outcomes.len() == 0 {
            (seq![action], None)
        } else {
            match outcomes.first() {
                Ok(_) => {
                    let (tried, result) = carried_out(
                        plan_left(plan),
                        plan_step(plan),
                        outcomes.skip(1),
                    );
                    (seq![action] + tried, result)
                },
                Err(message) => (seq![action], Some(Err(message))),
            }
        },
    }
}

/// Where an action fails, the plan ends with its error: the actions before it were carried out, and
/// none behind it is tried.
pub proof fn a_failure_ends_the_plan(
    plan: EditPlanView,
    outcomes: Seq<Result<(), Seq<char>>>,
    at: int,
)
    requires
        0 <= at < plan.actions.len(),
        at < outcomes.len(),
        forall|i: int| 0 <= i < at ==> (#[trigger] outcomes[i]) is Ok,
        outcomes[at] is Err,
    ensures
        carried_out(plan_left(plan), plan_step(plan), outcomes) == (
            plan.actions.take(at + 1),
            Some(outcomes[at]),
        ),
    decreases at,
{
    let left = plan_left(plan);
    if at > 0 {
        assert(outcomes.first() == outcomes[0]);
        assert forall|i: int| 0 <= i < at - 1 implies (#[trigger] outcomes.skip(1)[i]) is Ok by {
            assert(outcomes.skip(1)[i] == outcomes[i + 1]);
        }
        assert(outcomes.skip(1)[at - 1] == outcomes[at]);
        a_failure_ends_the_plan(left, outcomes.skip(1), at - 1);
        assert(plan.actions.take(at + 1) =~= seq![plan.actions[0]] + left.actions.take(at));
    } else {
        assert(plan.actions.take(1) =~= seq![plan.actions[0]]);
    }
}

/// Where every action succeeds, all are carried out in order, and the plan ends well, unless an error
/// ends it.
pub proof fn success_carries_out_the_plan(
    plan: EditPlanView,
    outcomes: Seq<Result<(), Seq<char>>>,
)
    requires
        outcomes.len() == plan.actions.len(),
        forall|i: int| 0 <= i < outcomes.len() ==> (#[trigger] outcomes[i]) is Ok,
    ensures
        carried_out(plan_left(plan), plan_step(plan), outcomes) == (
            plan.actions,
            Some(
                match plan.error {
                    Some(message) => Err(message),
                    None => Ok(()),
                },
            ),
        ),
    decreases plan.actions.len(),
{
    if plan.actions.len() > 0 {
        let left = plan_left(plan);
        assert(outcomes.first() == outcomes[0]);
        assert forall|i: int| 0 <= i < outcomes.skip(1).len() implies (#[trigger] outcomes.skip(
            1,
        )[i]) is Ok by {
            assert(outcomes.skip(1)[i] == outcomes[i + 1]);
        }
        success_carries_out_the_plan(left, outcomes.skip(1));
        assert(plan.actions =~= seq![plan.actions[0]] + left.actions);
    } else {
        assert(plan.actions =~= Seq::empty());
    }
}

impl MyHandler {
    /// What a change to the workspace comes to, file by file.
    pub fn apply_workspace_edit(&self, edit: &WorkspaceEdit) -> (plan: EditPlan)
        ensures
            plan.deep_view() == plan_of(steps_of(edit.deep_view())),
    {
        EditPlan::of(edit)
    }

    /// Makes the edits in the text of a file. `None` where one of them cannot be made.
    pub fn apply_text_edits(&self, content: &str, edits: &Vec<TextEdit>) -> (text: Option<String>)
        ensures
            match text {
                Some(text) => edits::edits_fit(content@, edits.deep_view()) && text@
                    == edits::edited_text(content@, edits.deep_view()),
                None => !edits::edits_fit(content@, edits.deep_view()),
            },
    {
        edit_text(content, edits)
    }

    /// Makes one edit.
    pub fn apply_text_edit(&self, lines: &mut Vec<String>, edit: &TextEdit)
        requires
            edits::edit_fits(old(lines).deep_view(), edit.deep_view()),
        ensures
            final(lines).deep_view() == edits::edited_lines(
                old(lines).deep_view(),
                edit.deep_view(),
            ),
    {
        edits::apply_text_edit(lines, edit)
    }
}

/// How a path is deleted.
#[derive(Clone, Copy, Debug, PartialEq, Eq, Structural)]
pub enum Deletion {
    File,
    Directory,
    Nothing,
}

/// A file is removed as a file, a directory with all it holds; anything else stays.
pub fn deletion(is_file: bool, is_dir: bool) -> (deletion: Deletion)
    ensures
        deletion == (if is_file {
            Deletion::File
        } else if is_dir {
            Deletion::Directory
        } else {
            Deletion::Nothing
        }),
{
    if is_file {
        Deletion::File
    } else if is_dir {
        Deletion::Directory
    } else {
        Deletion::Nothing
    }
}

/// An error ends the plan: no step behind it adds anything.
pub proof fn an_error_ends_the_plan(steps: Seq<Step>, behind: Seq<Step>)
    requires
        plan_of(steps).error is Some,
    ensures
        plan_of(steps + behind) == plan_of(steps),
    decreases behind.len(),
{
    if behind.len() == 0 {
        assert(steps + behind =~= steps);
    } else {
        assert((steps + behind).drop_last() =~= steps + behind.drop_last());
        an_error_ends_the_plan(steps, behind.drop_last());
    }
}

/// Where no error ends the plan, every step that has an action is planned.
pub proof fn every_step_is_planned(steps: Seq<Step>, at: int)
    requires
        0 <= at < steps.len(),
        plan_of(steps).error is None,
    ensures
        action_of(steps[at]) is Ok,
        action_of(steps[at]) matches Ok(Some(action)) ==> plan_of(steps).actions.contains(action),
    decreases steps.len(),
{
    let before = plan_of(steps.drop_last()).actions;
    let all = plan_of(steps).actions;
    if at < steps.len() - 1 {
        every_step_is_planned(steps.drop_last(), at);
        assert(steps.drop_last()[at] == steps[at]);
        if let Ok(Some(action)) = action_of(steps[at]) {
            let k = before.index_of(action);
            assert(all[k] == action);
        }
    } else if let Ok(Some(action)) = action_of(steps[at]) {
        assert(all[before.len() as int] == action);
    }
}

/// The actions come in the order of the steps: as long as there is no error, those of the later
/// steps stand behind those of the earlier ones.
pub proof fn actions_keep_the_order_of_steps(steps: Seq<Step>, behind: Seq<Step>)
    requires
        plan_of(steps).error is None,
    ensures
        plan_of(steps + behind) == (EditPlanView {
            actions: plan_of(steps).actions + plan_of(behind).actions,
            error: plan_of(behind).error,
        }),
    decreases behind.len(),
{
    if behind.len() == 0 {
        assert(steps + behind =~= steps);
        assert(plan_of(steps).actions + plan_of(behind).actions =~= plan_of(steps).actions);
    } else {
        assert((steps + behind).drop_last() =~= steps + behind.drop_last());
        assert((steps + behind).last() == behind.last());
        actions_keep_the_order_of_steps(steps, behind.drop_last());
        assert(plan_of(steps + behind) =~= EditPlanView {
            actions: plan_of(steps).actions + plan_of(behind).actions,
            error: plan_of(behind).error,
        });
    }
}

/// The URIs of a step.
pub open spec fn uris_of(step: Step) -> Seq<Seq<char>> {
    match step {
        Step::Edit { uri, edits: _ } => seq![uri],
        Step::Create { uri } => seq![uri],
        Step::Rename { old_uri, new_uri } => seq![old_uri, new_uri],
        Step::Delete { uri } => seq![uri],
    }
}

/// Whether every URI of a step is a URL.
pub open spec fn names_urls(step: Step) -> bool {
    forall|i: int| 0 <= i < uris_of(step).len() ==> uri::parsed_url(#[trigger] uris_of(step)[i]) is Ok
}

/// Whether every URI of a step stands for a file.
pub open spec fn names_files(step: Step) -> bool {
    forall|i: int| 0 <= i < uris_of(step).len() ==> uri::url_path(#[trigger] uris_of(step)[i]) is Some
}

/// Whether an action does to the files of a step what the step says: it makes the edits of an edit, all
/// of them and in their order, creates what is to be created, renames the old file to the new one, and
/// deletes what is to be deleted.
pub open spec fn does(action: FileActionView, step: Step) -> bool {
    match action {
        FileActionView::Edit { uri, path, edits } => step == (Step::Edit { uri, edits })
            && uri::url_path(uri) == Some(path),
        FileActionView::Create { uri, path } => step == (Step::Create { uri }) && uri::url_path(uri)
            == Some(path),
        FileActionView::Rename { old_uri, from, new_uri, to } => step == (Step::Rename {
            old_uri,
            new_uri,
        }) && uri::url_path(old_uri) == Some(from) && uri::url_path(new_uri) == Some(to),
        FileActionView::Delete { uri, path } => step == (Step::Delete { uri }) && uri::url_path(uri)
            == Some(path),
    }
}

/// Steps whose URIs stand for files are planned one for one: there is one action for each, in order,
/// which does what the step says, and no error.
pub proof fn steps_are_planned_one_for_one(steps: Seq<Step>)
    requires
        forall|i: int|
            0 <= i < steps.len() ==> names_urls(#[trigger] steps[i]) && names_files(steps[i]),
    ensures
        plan_of(steps).error is None,
        plan_of(steps).actions.len() == steps.len(),
        forall|i: int|
            0 <= i < steps.len() ==> does(plan_of(steps).actions[i], #[trigger] steps[i]),
    decreases steps.len(),
{
    if steps.len() > 0 {
        let front = steps.drop_last();
        let last = steps.last();
        assert forall|i: int| 0 <= i < front.len() implies names_urls(#[trigger] front[i])
            && names_files(front[i]) by {
            assert(front[i] == steps[i]);
        }
        steps_are_planned_one_for_one(front);
        assert(steps[steps.len() - 1] == last);
        lemma_one_step(last);
        assert forall|i: int| 0 <= i < steps.len() implies does(
            plan_of(steps).actions[i],
            #[trigger] steps[i],
        ) by {
            if i < front.len() {
                assert(front[i] == steps[i]);
            }
        }
    }
}

proof fn lemma_one_step(step: Step)
    requires
        names_urls(step),
    ensures
        names_files(step) ==> (action_of(step) matches Ok(Some(action)) && does(action, step)),
        !names_files(step) ==> action_of(step) == Ok::<Option<FileActionView>, Seq<char>>(None),
{
    let uris = uris_of(step);
    assert(uri::parsed_url(uris[0]) is Ok);
    match step {
        Step::Rename { old_uri, new_uri } => {
            assert(uris[0] == old_uri && uris[1] == new_uri);
            assert(uri::parsed_url(uris[1]) is Ok);
            if names_files(step) {
                assert(uri::url_path(uris[0]) is Some && uri::url_path(uris[1]) is Some);
            } else {
                assert(!(uri::url_path(old_uri) is Some && uri::url_path(new_uri) is Some));
            }
        },
        _ => {
            if names_files(step) {
                assert(uri::url_path(uris[0]) is Some);
            } else {
                assert(uri::url_path(uris[0]) is None);
            }
        },
    }
}

/// A step that names a URL which stands for no file adds nothing to a plan.
pub proof fn a_step_without_a_file_adds_nothing(steps: Seq<Step>, step: Step)
    requires
        names_urls(step),
        !names_files(step),
    ensures
        plan_of(steps.push(step)) == plan_of(steps),
{
    assert(steps.push(step).drop_last() =~= steps);
    lemma_one_step(step);
}

/// A URI that is no URL ends a plan with what is wrong with it: the actions of the steps before it stay,
/// and nothing follows them. Of two such URIs of a step the first counts.
pub proof fn a_uri_that_is_no_url_ends_the_plan(
    before: Seq<Step>,
    step: Step,
    behind: Seq<Step>,
    at: int,
)
    requires
        plan_of(before).error is None,
        0 <= at < uris_of(step).len(),
        uri::parsed_url(uris_of(step)[at]) is Err,
        forall|i: int| 0 <= i < at ==> uri::parsed_url(#[trigger] uris_of(step)[i]) is Ok,
    ensures
        plan_of(before + seq![step] + behind) == (EditPlanView {
            actions: plan_of(before).actions,
            error: Some(uri::parsed_url(uris_of(step)[at])->Err_0),
        }),
{
    let steps = before + seq![step];
    assert(steps.drop_last() =~= before);
    assert(steps.last() == step);
    if at == 1 {
        assert(uri::parsed_url(uris_of(step)[0]) is Ok);
    }
    assert(plan_of(steps) =~= EditPlanView {
        actions: plan_of(before).actions,
        error: Some(uri::parsed_url(uris_of(step)[at])->Err_0),
    });
    an_error_ends_the_plan(steps, behind);
}

/// The steps of a change are an edit for each entry by file, in order and with all its edits, and then
/// the changes to documents, in order.
pub proof fn a_change_has_a_step_for_each_entry(edit: WorkspaceEditView, i: int)
    requires
        0 <= i < steps_of(edit).len(),
    ensures
        ({
            let files = match edit.changes {
                Some(entries) => entries.len() as int,
                None => 0,
            };
            let documents = match edit.document_changes {
                Some(steps) => steps.len() as int,
                None => 0,
            };
            &&& steps_of(edit).len() == files + documents
            &&& i < files ==> steps_of(edit)[i] == (Step::Edit {
                uri: (edit.changes->0)[i].0,
                edits: (edit.changes->0)[i].1,
            })
            &&& i >= files ==> steps_of(edit)[i] == (edit.document_changes->0)[i - files]
        }),
{
}

/// A change to the workspace is seen as it is: each document with its edits in order, an annotated edit
/// like any other, each operation with its files.
pub proof fn a_change_is_seen_as_it_is(
    edit: DocumentEdit,
    document: TextDocumentEdit,
    operation: ResourceOp,
    whole: WorkspaceEdit,
)
    ensures
        edit matches DocumentEdit::Plain(plain) ==> edit.deep_view().range == plain.range
            && edit.deep_view().new_text == plain.new_text@,
        edit matches DocumentEdit::Annotated { text_edit, annotation_id: _ } ==> edit.deep_view().range
            == text_edit.range && edit.deep_view().new_text == text_edit.new_text@,
        document.deep_view() == (Step::Edit {
            uri: document.uri@,
            edits: document.edits@.map_values(|edit: DocumentEdit| edit.deep_view()),
        }),
        DocumentChangeOperation::Edit(document).deep_view() == document.deep_view(),
        operation matches ResourceOp::Create { uri } ==> DocumentChangeOperation::Op(
            operation,
        ).deep_view() == (Step::Create { uri: uri@ }),
        operation matches ResourceOp::Delete { uri } ==> DocumentChangeOperation::Op(
            operation,
        ).deep_view() == (Step::Delete { uri: uri@ }),
        operation matches ResourceOp::Rename { old_uri, new_uri } ==> DocumentChangeOperation::Op(
            operation,
        ).deep_view() == (Step::Rename { old_uri: old_uri@, new_uri: new_uri@ }),
        whole.changes matches Some(entries) ==> whole.deep_view().changes matches Some(views)
            && views.len() == entries@.len() && forall|i: int|
            0 <= i < views.len() ==> (#[trigger] views[i]).0 == entries@[i].0@ && views[i].1.len()
                == entries@[i].1@.len(),
        whole.changes is None ==> whole.deep_view().changes is None,
{
    assert(document.edits.deep_view() =~= document.edits@.map_values(
        |edit: DocumentEdit| edit.deep_view(),
    ));
}

/// A plan, its actions and its steps are seen as they are.
pub proof fn a_plan_is_seen_as_it_is(
    plan: EditPlan,
    action: FileAction,
    uri: String,
    path: String,
    new_uri: String,
    to: String,
    edits: Vec<TextEdit>,
    message: String,
)
    ensures
        (FileAction::Edit { uri, path, edits }).deep_view() == (FileActionView::Edit {
            uri: uri@,
            path: path@,
            edits: edits.deep_view(),
        }),
        (FileAction::Create { uri, path }).deep_view() == (FileActionView::Create {
            uri: uri@,
            path: path@,
        }),
        (FileAction::Rename { old_uri: uri, from: path, new_uri, to }).deep_view() == (
        FileActionView::Rename { old_uri: uri@, from: path@, new_uri: new_uri@, to: to@ }),
        (FileAction::Delete { uri, path }).deep_view() == (FileActionView::Delete {
            uri: uri@,
            path: path@,
        }),
        plan.deep_view().actions == plan.actions.deep_view(),
        plan.deep_view().error == plan.error.deep_view(),
        PlanStep::Do(action).deep_view() == PlanStepView::Do(action.deep_view()),
        PlanStep::Done(Ok(())).deep_view() == PlanStepView::Done(Ok(())),
        PlanStep::Done(Err(message)).deep_view() == PlanStepView::Done(Err(message@)),
        action_outcome(Ok(())) == Ok::<(), Seq<char>>(()),
        action_outcome(Err(message)) == Err::<(), Seq<char>>(message@),
{
}

} // verus!
