//! Refactorings that are discussed before they are made.
use crate::changes;
use crate::changes::{edit_to_make, EditError};
use crate::edits;
use crate::edits::TextEdit;
use crate::ids;
use crate::ids::fresh_id;
use crate::json;
use crate::json::{Json, JsonView};
use crate::models::{
    RefactorProposal, RefactorProposalView, RefactorSession, RefactorSessionView,
};
use crate::text::same_text;
use crate::uri;
use crate::workspace;
use crate::workspace::{EditPlan, WorkspaceEdit};
use vstd::prelude::*;

verus! {

/// `dashmap::DashMap`: a map that threads can share.
#[verifier::external_type_specification]
#[verifier::external_body]
#[verifier::reject_recursive_types(K)]
#[verifier::reject_recursive_types(V)]
#[verifier::reject_recursive_types(S)]
pub struct ExDashMap<K, V, S>(dashmap::DashMap<K, V, S>);

/// The sessions that a map holds, by their ids.
pub uninterp spec fn held_sessions(
    map: dashmap::DashMap<String, RefactorSession>,
) -> Map<Seq<char>, RefactorSessionView>;

/// No sessions at all.
pub open spec fn no_sessions() -> Map<Seq<char>, RefactorSessionView> {
    Map::empty()
}

/// `dashmap::DashMap::new`: the map holds nothing.
#[verifier::external_body]
fn new_sessions() -> (sessions: dashmap::DashMap<String, RefactorSession>)
    ensures
        held_sessions(sessions) == no_sessions(),
{
    dashmap::DashMap::new()
}

/// `dashmap::DashMap::insert`: the map holds the session under that id, in place of any other.
#[verifier::external_body]
fn insert_session(
    map: &mut dashmap::DashMap<String, RefactorSession>,
    id: String,
    session: RefactorSession,
)
    ensures
        held_sessions(*final(map)) == held_sessions(*old(map)).insert(id@, session.deep_view()),
{
    map.insert(id, session);
}

/// `dashmap::DashMap::get_mut`: lends what the map holds under that id, if it holds anything there.
/// Here it changes places with another session.
#[verifier::external_body]
fn swap_session(
    map: &mut dashmap::DashMap<String, RefactorSession>,
    id: &str,
    session: &mut RefactorSession,
) -> (found: bool)
    ensures
        found == held_sessions(*old(map)).dom().contains(id@),
        held_sessions(*final(map)) == (if found {
            held_sessions(*old(map)).insert(id@, old(session).deep_view())
        } else {
            held_sessions(*old(map))
        }),
        final(session).deep_view() == (if found {
            held_sessions(*old(map))[id@]
        } else {
            old(session).deep_view()
        }),
{
    match map.get_mut(id) {
        Some(mut held) => {
            std::mem::swap(held.value_mut(), session);
            true
        },
        None => false,
    }
}

/// `dashmap::DashMap::remove`: takes what the map holds under that id out of it, if it holds
/// anything there.
#[verifier::external_body]
fn remove_session(
    map: &mut dashmap::DashMap<String, RefactorSession>,
    id: &str,
) -> (session: Option<RefactorSession>)
    ensures
        held_sessions(*final(map)) == held_sessions(*old(map)).remove(id@),
        match session {
            Some(session) => held_sessions(*old(map)).dom().contains(id@)
                && session.deep_view() == held_sessions(*old(map))[id@],
            None => !held_sessions(*old(map)).dom().contains(id@),
        },
{
    map.remove(id).map(|entry| entry.1)
}

/// The refactorings under discussion.
pub struct SessionManager {
    sessions: dashmap::DashMap<String, RefactorSession>,
}

impl View for SessionManager {
    type V = Map<Seq<char>, RefactorSessionView>;

    closed spec fn view(&self) -> Map<Seq<char>, RefactorSessionView> {
        held_sessions(self.sessions)
    }
}

/// A session of which nothing has been proposed.
pub open spec fn new_session(id: Seq<char>, description: Seq<char>) -> RefactorSessionView {
    RefactorSessionView { id, description, proposals: Seq::empty() }
}

/// The session with one proposal more.
pub open spec fn with_proposal(
    session: RefactorSessionView,
    proposal: RefactorProposalView,
) -> RefactorSessionView {
    RefactorSessionView { proposals: session.proposals.push(proposal), ..session }
}

/// Where the first proposal of that id stands; behind the last where there is none.
pub open spec fn proposal_index(proposals: Seq<RefactorProposalView>, id: Seq<char>) -> int
    decreases proposals.len(),
{
    if proposals.len() == 0 || proposals.first().id == id {
        0
    } else {
        1 + proposal_index(proposals.drop_first(), id)
    }
}

/// The session with the first proposal of that id approved.
pub open spec fn with_approval(session: RefactorSessionView, id: Seq<char>) -> RefactorSessionView {
    let at = proposal_index(session.proposals, id);
    RefactorSessionView {
        proposals: session.proposals.update(
            at,
            RefactorProposalView { approved: true, ..session.proposals[at] },
        ),
        ..session
    }
}

/// The approved ones among the proposals, in order.
pub open spec fn approved_proposals(
    proposals: Seq<RefactorProposalView>,
) -> Seq<RefactorProposalView> {
    proposals.filter(|proposal: RefactorProposalView| proposal.approved)
}

proof fn lemma_proposal_index(proposals: Seq<RefactorProposalView>, id: Seq<char>, at: int)
    requires
        0 <= at <= proposals.len(),
        forall|i: int| 0 <= i < at ==> (#[trigger] proposals[i]).id != id,
        at < proposals.len() ==> proposals[at].id == id,
    ensures
        proposal_index(proposals, id) == at,
    decreases proposals.len(),
{
    if at > 0 {
        assert(proposals.first() == proposals[0]);
        lemma_proposal_index(proposals.drop_first(), id, at - 1);
    }
}

/// Where the first proposal of that id stands.
fn find_proposal(proposals: &Vec<RefactorProposal>, id: &str) -> (at: usize)
    ensures
        at == proposal_index(proposals.deep_view(), id@),
        at <= proposals@.len(),
{
    let ghost views = proposals.deep_view();
    let mut i: usize = 0;
    while i < proposals.len()
        invariant
            i <= proposals@.len(),
            views == proposals.deep_view(),
            forall|j: int| 0 <= j < i ==> (#[trigger] views[j]).id != id@,
        decreases proposals@.len() - i,
    {
        if same_text(proposals[i].id.as_str(), id) {
            proof {
                lemma_proposal_index(views, id@, i as int);
            }
            return i;
        }
        i += 1;
    }
    proof {
        lemma_proposal_index(views, id@, i as int);
    }
    i
}

impl SessionManager {
    /// No refactorings yet.
    pub fn new() -> (manager: SessionManager)
        ensures
            manager@ == no_sessions(),
    {
        SessionManager { sessions: new_sessions() }
    }

    /// Opens a session without proposals, and gives its id.
    pub fn start_session(&mut self, description: String) -> (id: String)
        ensures
            ids::is_random_uuid(id@),
            final(self)@ == old(self)@.insert(
                id@,
                RefactorSessionView {
                    id: id@,
                    description: description@,
                    proposals: Seq::empty(),
                },
            ),
            final(self)@ == old(self)@.insert(id@, new_session(id@, description@)),
    {
        let id = fresh_id();
        let session = RefactorSession { id: id.clone(), description, proposals: Vec::new() };
        assert(session.proposals.deep_view() =~= Seq::empty());
        insert_session(&mut self.sessions, id.clone(), session);
        id
    }

    /// Adds a proposal to a session.
    fn propose(&mut self, session_id: &str, change: Option<Json>, command: Option<Json>) -> (id:
        Option<String>)
        ensures
            id is Some <==> old(self)@.dom().contains(session_id@),
            match id {
                Some(id) => ids::is_random_uuid(id@) && final(self)@ == old(self)@.insert(
                    session_id@,
                    with_proposal(
                        old(self)@[session_id@],
                        RefactorProposalView {
                            id: id@,
                            change: change.deep_view(),
                            command: command.deep_view(),
                            approved: false,
                        },
                    ),
                ),
                None => final(self)@ == old(self)@,
            },
    {
        let ghost before = self@;
        let mut session = RefactorSession {
            id: String::new(),
            description: String::new(),
            proposals: Vec::new(),
        };
        if !swap_session(&mut self.sessions, session_id, &mut session) {
            return None;
        }
        let ghost found = session.deep_view();
        let id = fresh_id();
        let proposal = RefactorProposal { id: id.clone(), change, command, approved: false };
        let ghost added = proposal.deep_view();
        session.proposals.push(proposal);
        assert(session.proposals.deep_view() =~= found.proposals.push(added));
        let swapped = swap_session(&mut self.sessions, session_id, &mut session);
        assert(self@ =~= before.insert(session_id@, with_proposal(found, added)));
        Some(id)
    }

    /// Proposes a change to the workspace. `None` where there is no such session.
    pub fn propose_change(&mut self, session_id: &str, change: Json) -> (id: Option<String>)
        ensures
            id is Some <==> old(self)@.dom().contains(session_id@),
            match id {
                Some(id) => ids::is_random_uuid(id@) && final(self)@ == old(self)@.insert(
                    session_id@,
                    with_proposal(
                        old(self)@[session_id@],
                        RefactorProposalView {
                            id: id@,
                            change: Some(change@),
                            command: None,
                            approved: false,
                        },
                    ),
                ),
                None => final(self)@ == old(self)@,
            },
    {
        self.propose(session_id, Some(change), None)
    }

    /// Proposes a command. `None` where there is no such session.
    pub fn propose_command(&mut self, session_id: &str, command: Json) -> (id: Option<String>)
        ensures
            id is Some <==> old(self)@.dom().contains(session_id@),
            match id {
                Some(id) => ids::is_random_uuid(id@) && final(self)@ == old(self)@.insert(
                    session_id@,
                    with_proposal(
                        old(self)@[session_id@],
                        RefactorProposalView {
                            id: id@,
                            change: None,
                            command: Some(command@),
                            approved: false,
                        },
                    ),
                ),
                None => final(self)@ == old(self)@,
            },
    {
        self.propose(session_id, None, Some(command))
    }

    /// Approves the first proposal of that id. `false` where there is no such session or proposal.
    pub fn approve_proposal(&mut self, session_id: &str, proposal_id: &str) -> (approved: bool)
        ensures
            approved <==> old(self)@.dom().contains(session_id@) && proposal_index(
                old(self)@[session_id@].proposals,
                proposal_id@,
            ) < old(self)@[session_id@].proposals.len(),
            final(self)@ == (if approved {
                old(self)@.insert(
                    session_id@,
                    with_approval(old(self)@[session_id@], proposal_id@),
                )
            } else {
                old(self)@
            }),
    {
        let ghost before = self@;
        let mut session = RefactorSession {
            id: String::new(),
            description: String::new(),
            proposals: Vec::new(),
        };
        if !swap_session(&mut self.sessions, session_id, &mut session) {
            return false;
        }
        let ghost found = session.deep_view();
        let at = find_proposal(&session.proposals, proposal_id);
        let approved = at < session.proposals.len();
        if approved {
            assert(session.proposals@[at as int].deep_view() == found.proposals[at as int]);
            session.proposals[at].approved = true;
            assert(session.proposals.deep_view() =~= with_approval(found, proposal_id@).proposals);
        }
        let swapped = swap_session(&mut self.sessions, session_id, &mut session);
        proof {
            if !approved {
                assert(self@ =~= before);
            } else {
                assert(self@ =~= before.insert(session_id@, with_approval(found, proposal_id@)));
            }
        }
        approved
    }

    /// Closes a session, and gives the proposals to carry out: the approved ones, in order, and for
    /// each what is to be done in files. `None` where there is no such session.
    pub fn apply_approved(&mut self, session_id: &str) -> (approved: Option<
        (Vec<RefactorProposal>, Vec<Option<Result<EditPlan, EditError>>>),
    >)
        ensures
            final(self)@ == old(self)@.remove(session_id@),
            match approved {
                Some((proposals, plans)) => {
                    &&& old(self)@.dom().contains(session_id@)
                    &&& proposals.deep_view() == approved_proposals(
                        old(self)@[session_id@].proposals,
                    )
                    &&& plans@.len() == proposals@.len()
                    &&& forall|i: int|
                        0 <= i < plans@.len() ==> is_plan_for(
                            #[trigger] plans@[i],
                            proposals.deep_view()[i].change,
                        )
                },
                None => !old(self)@.dom().contains(session_id@),
            },
    {
        match remove_session(&mut self.sessions, session_id) {
            Some(session) => {
                let proposals = approved_of(session.proposals);
                let plans = plans_of(&proposals);
                Some((proposals, plans))
            },
            None => None,
        }
    }
}

/// Whether that is what is to be done in files for a proposal: the plan of its change where it has
/// one, or why that is none.
pub open spec fn is_plan_for(
    plan: Option<Result<EditPlan, EditError>>,
    change: Option<JsonView>,
) -> bool {
    match change {
        Some(edit) => match changes::edit_made(edit) {
            Ok(kept) => plan matches Some(Ok(plan)) && changes::is_planned(plan.deep_view(), kept),
            Err(error) => plan matches Some(Err(said)) && said.deep_view() == error,
        },
        None => plan is None,
    }
}

/// Plans what is to be done in files for each proposal.
fn plans_of(proposals: &Vec<RefactorProposal>) -> (plans: Vec<Option<Result<EditPlan, EditError>>>)
    ensures
        plans@.len() == proposals@.len(),
        forall|i: int|
            0 <= i < plans@.len() ==> is_plan_for(
                #[trigger] plans@[i],
                proposals.deep_view()[i].change,
            ),
{
    let mut plans: Vec<Option<Result<EditPlan, EditError>>> = Vec::new();
    let mut i: usize = 0;
    while i < proposals.len()
        invariant
            i <= proposals@.len(),
            plans@.len() == i,
            forall|k: int|
                0 <= k < i ==> is_plan_for(
                    #[trigger] plans@[k],
                    proposals.deep_view()[k].change,
                ),
        decreases proposals@.len() - i,
    {
        assert(proposals.deep_view()[i as int] == proposals@[i as int].deep_view());
        let plan = match &proposals[i].change {
            Some(change) => Some(edit_to_make(change)),
            None => None,
        };
        plans.push(plan);
        i += 1;
    }
    plans
}

/// Keeps the approved ones among the proposals.
fn approved_of(proposals: Vec<RefactorProposal>) -> (approved: Vec<RefactorProposal>)
    ensures
        approved.deep_view() == approved_proposals(proposals.deep_view()),
{
    let ghost views = proposals.deep_view();
    let ghost kept = |proposal: RefactorProposalView| proposal.approved;
    let mut rest = proposals;
    let mut approved: Vec<RefactorProposal> = Vec::new();
    assert(views.filter(kept) =~= approved.deep_view() + rest.deep_view().filter(kept));
    while rest.len() > 0
        invariant
            kept == (|proposal: RefactorProposalView| proposal.approved),
            views.filter(kept) == approved.deep_view() + rest.deep_view().filter(kept),
        decreases rest@.len(),
    {
        let ghost all = rest.deep_view();
        let ghost before = approved.deep_view();
        let proposal = rest.remove(0);
        let ghost view = proposal.deep_view();
        proof {
            assert(all =~= seq![view] + rest.deep_view());
            Seq::filter_distributes_over_add(seq![view], rest.deep_view(), kept);
            reveal(Seq::filter);
            assert(seq![view].drop_last() =~= Seq::empty());
            assert(Seq::<RefactorProposalView>::empty().filter(kept) =~= Seq::empty());
        }
        if proposal.approved {
            approved.push(proposal);
            assert(approved.deep_view() =~= before.push(view));
            assert(seq![view].filter(kept) =~= seq![view]);
        } else {
            assert(seq![view].filter(kept) =~= Seq::empty());
        }
        assert(views.filter(kept) =~= approved.deep_view() + rest.deep_view().filter(kept));
    }
    proof {
        reveal(Seq::filter);
        assert(rest.deep_view().filter(kept) =~= Seq::empty());
    }
    approved
}

/// The changes of the proposals that could be made, in order.
pub open spec fn applied_edits(
    proposals: Seq<RefactorProposalView>,
    succeeded: Seq<bool>,
) -> Seq<JsonView>
    decreases proposals.len(),
{
    if proposals.len() == 0 {
        Seq::empty()
    } else {
        let before = applied_edits(proposals.drop_last(), succeeded);
        match proposals.last().change {
            Some(change) => if succeeded[proposals.len() - 1] {
                before.push(change)
            } else {
                before
            },
            None => before,
        }
    }
}

/// The commands of the proposals, in order.
pub open spec fn applied_commands(proposals: Seq<RefactorProposalView>) -> Seq<JsonView>
    decreases proposals.len(),
{
    if proposals.len() == 0 {
        Seq::empty()
    } else {
        let before = applied_commands(proposals.drop_last());
        match proposals.last().command {
            Some(command) => before.push(command),
            None => before,
        }
    }
}

/// What came of the proposals that were carried out: the changes that could be made, and the
/// commands. `succeeded` says of each proposal whether its change could be made.
pub fn applied(proposals: &Vec<RefactorProposal>, succeeded: &Vec<bool>) -> (done: (
    Vec<Json>,
    Vec<Json>,
))
    requires
        succeeded@.len() == proposals@.len(),
    ensures
        done.0.deep_view() == applied_edits(proposals.deep_view(), succeeded@),
        done.1.deep_view() == applied_commands(proposals.deep_view()),
{
    let ghost views = proposals.deep_view();
    let mut edits: Vec<Json> = Vec::new();
    let mut commands: Vec<Json> = Vec::new();
    let mut i: usize = 0;
    assert(edits.deep_view() =~= Seq::empty());
    assert(commands.deep_view() =~= Seq::empty());
    while i < proposals.len()
        invariant
            i <= proposals@.len(),
            succeeded@.len() == proposals@.len(),
            views == proposals.deep_view(),
            edits.deep_view() == applied_edits(views.take(i as int), succeeded@),
            commands.deep_view() == applied_commands(views.take(i as int)),
        decreases proposals@.len() - i,
    {
        let ghost edits_before = edits.deep_view();
        let ghost commands_before = commands.deep_view();
        assert(views.take(i + 1).drop_last() =~= views.take(i as int));
        assert(views.take(i + 1).last() == proposals@[i as int].deep_view());
        if let Some(change) = &proposals[i].change {
            if succeeded[i] {
                edits.push(change.copy());
                assert(edits.deep_view() =~= edits_before.push(change@));
            }
        }
        if let Some(command) = &proposals[i].command {
            commands.push(command.copy());
            assert(commands.deep_view() =~= commands_before.push(command@));
        }
        i += 1;
    }
    assert(views.take(i as int) =~= views);
    (edits, commands)
}

impl SessionManager {
    /// What a change to the workspace comes to, file by file.
    pub fn apply_workspace_edit(&self, edit: &WorkspaceEdit) -> (plan: EditPlan)
        ensures
            plan.deep_view() == workspace::plan_of(workspace::steps_of(edit.deep_view())),
    {
        EditPlan::of(edit)
    }

    /// Makes the edits in the text of a file. `None` where one of them cannot be made, or spans lines
    /// that are not there.
    pub fn apply_text_edits(&self, content: &str, edits: &Vec<TextEdit>) -> (text: Option<String>)
        ensures
            match text {
                Some(text) => edits::edits_fit(content@, edits.deep_view()) && edits::edits_within(
                    content@,
                    edits.deep_view(),
                ) && text@ == edits::edited_text(content@, edits.deep_view()),
                None => !edits::edits_fit(content@, edits.deep_view()) || !edits::edits_within(
                    content@,
                    edits.deep_view(),
                ),
            },
    {
        edits::edit_text_within(content, edits)
    }

    /// Makes one edit.
    pub fn apply_text_edit(&self, lines: &mut Vec<String>, edit: &TextEdit)
        requires
            edits::edit_fits(old(lines).deep_view(), edit.deep_view()),
            edits::edit_within(old(lines).deep_view(), edit.deep_view()),
        ensures
            final(lines).deep_view() == edits::edited_lines(
                old(lines).deep_view(),
                edit.deep_view(),
            ),
    {
        edits::apply_text_edit(lines, edit)
    }
}

proof fn lemma_proposal_index_found(proposals: Seq<RefactorProposalView>, id: Seq<char>)
    ensures
        0 <= proposal_index(proposals, id) <= proposals.len(),
        proposal_index(proposals, id) < proposals.len() ==> proposals[proposal_index(
            proposals,
            id,
        )].id == id,
        forall|i: int|
            0 <= i < proposal_index(proposals, id) ==> (#[trigger] proposals[i]).id != id,
    decreases proposals.len(),
{
    if proposals.len() > 0 && proposals.first().id != id {
        let rest = proposals.drop_first();
        lemma_proposal_index_found(rest, id);
        assert forall|i: int| 0 <= i < proposal_index(proposals, id) implies (
        #[trigger] proposals[i]).id != id by {
            if i > 0 {
                assert(proposals[i] == rest[i - 1]);
            }
        }
    }
}

/// A proposal that nobody approved is not carried out.
pub proof fn an_unapproved_proposal_is_left_out(
    session: RefactorSessionView,
    proposal: RefactorProposalView,
)
    requires
        !proposal.approved,
    ensures
        approved_proposals(with_proposal(session, proposal).proposals) == approved_proposals(
            session.proposals,
        ),
{
    reveal(Seq::filter);
    assert(with_proposal(session, proposal).proposals.drop_last() =~= session.proposals);
}

/// A proposal that was approved is carried out, behind those before it. Its id must not be that of
/// an earlier proposal.
pub proof fn an_approved_proposal_is_carried_out(
    session: RefactorSessionView,
    proposal: RefactorProposalView,
)
    requires
        forall|i: int|
            0 <= i < session.proposals.len() ==> (#[trigger] session.proposals[i]).id
                != proposal.id,
    ensures
        approved_proposals(
            with_approval(with_proposal(session, proposal), proposal.id).proposals,
        ) == approved_proposals(session.proposals).push(
            RefactorProposalView { approved: true, ..proposal },
        ),
{
    let proposals = with_proposal(session, proposal).proposals;
    lemma_proposal_index(proposals, proposal.id, session.proposals.len() as int);
    let approved = with_approval(with_proposal(session, proposal), proposal.id).proposals;
    assert(approved.drop_last() =~= session.proposals);
    assert(approved.last() == RefactorProposalView { approved: true, ..proposal });
    reveal(Seq::filter);
}

/// Approving a proposal changes nothing but its approval: the session, the other proposals, and what
/// the proposal says stay as they are.
pub proof fn approving_changes_one_proposal(session: RefactorSessionView, id: Seq<char>, i: int)
    requires
        proposal_index(session.proposals, id) < session.proposals.len(),
        0 <= i < session.proposals.len(),
    ensures
        with_approval(session, id).id == session.id,
        with_approval(session, id).description == session.description,
        with_approval(session, id).proposals.len() == session.proposals.len(),
        with_approval(session, id).proposals[i] == (if i == proposal_index(
            session.proposals,
            id,
        ) {
            RefactorProposalView { approved: true, ..session.proposals[i] }
        } else {
            session.proposals[i]
        }),
        session.proposals[proposal_index(session.proposals, id)].id == id,
{
    lemma_proposal_index_found(session.proposals, id);
}

/// A proposal is added behind the others, and nothing else of the session changes.
pub proof fn a_proposal_is_added_behind_the_others(
    session: RefactorSessionView,
    proposal: RefactorProposalView,
    i: int,
)
    requires
        0 <= i < session.proposals.len(),
    ensures
        with_proposal(session, proposal).id == session.id,
        with_proposal(session, proposal).description == session.description,
        with_proposal(session, proposal).proposals.len() == session.proposals.len() + 1,
        with_proposal(session, proposal).proposals[i] == session.proposals[i],
        with_proposal(session, proposal).proposals.last() == proposal,
{
}

/// The proposal that is approved is the first of that id; where none has it, none is.
pub proof fn the_first_of_an_id_is_approved(
    session: RefactorSessionView,
    id: Seq<char>,
    i: int,
)
    requires
        0 <= i < session.proposals.len(),
        session.proposals[i].id == id,
        forall|j: int| 0 <= j < i ==> (#[trigger] session.proposals[j]).id != id,
    ensures
        proposal_index(session.proposals, id) == i,
        with_approval(session, id).proposals[i].approved,
        with_approval(session, id).proposals[i].id == session.proposals[i].id,
        with_approval(session, id).proposals[i].change == session.proposals[i].change,
        with_approval(session, id).proposals[i].command == session.proposals[i].command,
        forall|j: int|
            0 <= j < session.proposals.len() && j != i ==> #[trigger] with_approval(
                session,
                id,
            ).proposals[j] == session.proposals[j],
        with_approval(session, id).proposals.len() == session.proposals.len(),
{
    lemma_proposal_index(session.proposals, id, i);
}

/// An id that no proposal has is not found.
pub proof fn an_unknown_id_is_not_found(proposals: Seq<RefactorProposalView>, id: Seq<char>)
    ensures
        proposal_index(proposals, id) < proposals.len() <==> exists|i: int|
            0 <= i < proposals.len() && (#[trigger] proposals[i]).id == id,
{
    lemma_proposal_index_found(proposals, id);
}

/// The approved proposals are those that are approved, all of them, and in their order: one behind the
/// others comes behind the others, if it is approved.
pub proof fn the_approved_are_kept_in_order(
    proposals: Seq<RefactorProposalView>,
    next: RefactorProposalView,
)
    ensures
        approved_proposals(Seq::empty()) == Seq::<RefactorProposalView>::empty(),
        next.approved ==> approved_proposals(proposals.push(next)) == approved_proposals(
            proposals,
        ).push(next),
        !next.approved ==> approved_proposals(proposals.push(next)) == approved_proposals(
            proposals,
        ),
        forall|p: RefactorProposalView| #[trigger]
            approved_proposals(proposals).contains(p) <==> p.approved && proposals.contains(p),
{
    reveal(Seq::filter);
    assert(proposals.push(next).drop_last() =~= proposals);
    let kept = |proposal: RefactorProposalView| proposal.approved;
    assert forall|p: RefactorProposalView| #[trigger]
        approved_proposals(proposals).contains(p) implies p.approved && proposals.contains(p) by {
        let all = proposals.filter(kept);
        let i = choose|i: int| 0 <= i < all.len() && all[i] == p;
        proposals.lemma_filter_pred(kept, i);
        proposals.lemma_filter_contains_rev(kept, p);
    }
    assert forall|p: RefactorProposalView| p.approved && proposals.contains(
        p,
    ) implies #[trigger] approved_proposals(proposals).contains(p) by {
        let i = choose|i: int| 0 <= i < proposals.len() && proposals[i] == p;
        proposals.lemma_filter_contains(kept, i);
    }
}

/// Whether a proposal among the first ones has that change, and it was made.
pub open spec fn was_made(
    proposals: Seq<RefactorProposalView>,
    succeeded: Seq<bool>,
    change: JsonView,
) -> bool {
    exists|i: int|
        0 <= i < proposals.len() && (#[trigger] proposals[i]).change == Some(change) && succeeded[i]
}

/// The changes that are told are those that were made, in the order of the proposals: of a proposal behind
/// the others its change, where it has one and that was made. A change that failed is not told.
pub proof fn the_changes_made_are_told_in_order(
    proposals: Seq<RefactorProposalView>,
    succeeded: Seq<bool>,
    next: RefactorProposalView,
)
    ensures
        applied_edits(Seq::empty(), succeeded) == Seq::<JsonView>::empty(),
        applied_edits(proposals.push(next), succeeded) == (if next.change is Some
            && succeeded[proposals.len() as int] {
            applied_edits(proposals, succeeded).push(next.change->0)
        } else {
            applied_edits(proposals, succeeded)
        }),
        forall|change: JsonView| #[trigger]
            applied_edits(proposals, succeeded).contains(change) <==> was_made(
                proposals,
                succeeded,
                change,
            ),
    decreases proposals.len(),
{
    assert(proposals.push(next).drop_last() =~= proposals);
    if proposals.len() > 0 {
        let front = proposals.drop_last();
        let last = proposals.last();
        assert(front.push(last) =~= proposals);
        the_changes_made_are_told_in_order(front, succeeded, last);
        let before = applied_edits(front, succeeded);
        let all = applied_edits(proposals, succeeded);
        assert forall|change: JsonView| #[trigger] all.contains(change) <==> was_made(
            proposals,
            succeeded,
            change,
        ) by {
            if all.contains(change) {
                let k = choose|k: int| 0 <= k < all.len() && all[k] == change;
                if k < before.len() {
                    assert(before[k] == change);
                    assert(before.contains(change));
                    let i = choose|i: int|
                        0 <= i < front.len() && (#[trigger] front[i]).change == Some(change)
                            && succeeded[i];
                    assert(proposals[i] == front[i]);
                } else {
                    assert(proposals[proposals.len() - 1].change == Some(change));
                }
            }
            if was_made(proposals, succeeded, change) {
                let i = choose|i: int|
                    0 <= i < proposals.len() && (#[trigger] proposals[i]).change == Some(change)
                        && succeeded[i];
                if i < front.len() {
                    assert(front[i] == proposals[i]);
                    assert(was_made(front, succeeded, change));
                    assert(before.contains(change));
                    let k = choose|k: int| 0 <= k < before.len() && before[k] == change;
                    assert(all[k] == change);
                } else {
                    assert(all[before.len() as int] == change);
                }
            }
        }
    }
}

/// The commands that are told are those of the proposals, in their order.
pub proof fn the_commands_are_told_in_order(
    proposals: Seq<RefactorProposalView>,
    next: RefactorProposalView,
)
    ensures
        applied_commands(Seq::empty()) == Seq::<JsonView>::empty(),
        applied_commands(proposals.push(next)) == (match next.command {
            Some(command) => applied_commands(proposals).push(command),
            None => applied_commands(proposals),
        }),
        applied_commands(proposals).len() <= proposals.len(),
    decreases proposals.len(),
{
    assert(proposals.push(next).drop_last() =~= proposals);
    if proposals.len() > 0 {
        assert(proposals.drop_last().push(proposals.last()) =~= proposals);
        the_commands_are_told_in_order(proposals.drop_last(), proposals.last());
    }
}

/// The plan for a proposal carries out its change as that is written; a proposal without a change has
/// nothing to be done in files.
pub proof fn a_proposal_is_planned_as_its_change_is_written(
    plan: Option<Result<EditPlan, EditError>>,
    change: JsonView,
    kept: JsonView,
)
    requires
        json::texts_within(change, uri::uri_bytes()),
        changes::kept_edit(change) == Ok::<JsonView, Seq<char>>(kept),
    ensures
        is_plan_for(plan, Some(change)) ==> (plan matches Some(Ok(plan)) && changes::is_planned(
            plan.deep_view(),
            kept,
        )),
        is_plan_for(plan, None) ==> plan is None,
{
}

/// A session and its proposals are seen as they are.
pub proof fn a_session_is_seen_as_it_is(session: RefactorSession, proposal: RefactorProposal)
    ensures
        session.deep_view().id == session.id@,
        session.deep_view().description == session.description@,
        session.deep_view().proposals.len() == session.proposals@.len(),
        forall|i: int|
            0 <= i < session.proposals@.len() ==> #[trigger] session.deep_view().proposals[i]
                == session.proposals@[i].deep_view(),
        proposal.deep_view().id == proposal.id@,
        proposal.deep_view().change == proposal.change.deep_view(),
        proposal.deep_view().command == proposal.command.deep_view(),
        proposal.deep_view().approved == proposal.approved,
{
}

/// A session begins without proposals, so that closing it at once carries nothing out; a proposal that is
/// made in it and approved is the only one to be carried out.
pub proof fn a_session_begins_without_proposals(
    id: Seq<char>,
    description: Seq<char>,
    proposal: RefactorProposalView,
)
    ensures
        new_session(id, description).id == id,
        new_session(id, description).description == description,
        new_session(id, description).proposals.len() == 0,
        approved_proposals(new_session(id, description).proposals).len() == 0,
        !proposal.approved ==> approved_proposals(
            with_proposal(new_session(id, description), proposal).proposals,
        ).len() == 0,
        approved_proposals(
            with_approval(
                with_proposal(new_session(id, description), proposal),
                proposal.id,
            ).proposals,
        ) == seq![RefactorProposalView { approved: true, ..proposal }],
{
    let session = new_session(id, description);
    reveal(Seq::filter);
    assert(approved_proposals(session.proposals) =~= Seq::empty());
    an_approved_proposal_is_carried_out(session, proposal);
    if !proposal.approved {
        an_unapproved_proposal_is_left_out(session, proposal);
    }
    assert(Seq::<RefactorProposalView>::empty().push(
        RefactorProposalView { approved: true, ..proposal },
    ) =~= seq![RefactorProposalView { approved: true, ..proposal }]);
}

} // verus!
