//! Text edits: how they are ordered, whether they fit a text, and what they make of it.
use crate::models::{Position, Range};
use crate::offsets;
use crate::offsets::part;
use crate::text::{ends_with_newline, join, lines};
use vstd::prelude::*;

verus! {

/// A replacement for a part of a text. Offsets in a line count bytes.
#[derive(Debug)]
pub struct TextEdit {
    pub range: Range,
    pub new_text: String,
}

#[verifier::ext_equal]
pub struct TextEditView {
    pub range: Range,
    pub new_text: Seq<char>,
}

impl DeepView for TextEdit {
    type V = TextEditView;

    open spec fn deep_view(&self) -> TextEditView {
        TextEditView { range: self.range, new_text: self.new_text@ }
    }
}

/// The new text in lines. The text behind its last line feed is a line of its own, also where it is
/// empty.
pub open spec fn inserted_lines(new_text: Seq<char>) -> Seq<Seq<char>> {
    if new_text.len() > 0 && new_text.last() == '\n' {
        crate::text::lines_of(new_text).push(Seq::empty())
    } else {
        crate::text::lines_of(new_text)
    }
}

/// The lines that take the place of the edited ones: `first` precedes the new text, `last` follows
/// it.
pub open spec fn replacement(
    first: Seq<char>,
    new_text: Seq<char>,
    last: Seq<char>,
) -> Seq<Seq<char>> {
    let new = inserted_lines(new_text);
    if new.len() == 0 {
        seq![first + last]
    } else {
        let begun = new.update(0, first + new[0]);
        begun.update(begun.len() - 1, begun.last() + last)
    }
}

/// Whether both ends of an edit that spans lines are in the text.
pub open spec fn spans_known_lines(lines: Seq<Seq<char>>, edit: TextEditView) -> bool {
    edit.range.start.line < lines.len() && edit.range.end.line < lines.len()
}

/// Whether the edit can be made: its offsets part the lines they stand in, and it does not end more
/// than one line before it starts. An edit beyond the text can be made, to no effect.
pub open spec fn edit_fits(lines: Seq<Seq<char>>, edit: TextEditView) -> bool {
    let start = edit.range.start;
    let end = edit.range.end;
    if start.line == end.line {
        start.line < lines.len() ==> offsets::parts_at(lines[start.line as int], start.character as int)
            && offsets::parts_at(lines[start.line as int], end.character as int)
    } else {
        spans_known_lines(lines, edit) ==> {
            &&& offsets::parts_at(lines[start.line as int], start.character as int)
            &&& offsets::parts_at(lines[end.line as int], end.character as int)
            &&& start.line <= end.line + 1
        }
    }
}

/// The lines after the edit.
pub open spec fn edited_lines(lines: Seq<Seq<char>>, edit: TextEditView) -> Seq<Seq<char>> {
    let start = edit.range.start;
    let end = edit.range.end;
    if start.line == end.line {
        if start.line < lines.len() {
            let line = lines[start.line as int];
            lines.update(
                start.line as int,
                offsets::head(line, start.character as int) + edit.new_text + offsets::tail(
                    line,
                    end.character as int,
                ),
            )
        } else {
            lines
        }
    } else if spans_known_lines(lines, edit) {
        let first = offsets::head(lines[start.line as int], start.character as int);
        let last = offsets::tail(lines[end.line as int], end.character as int);
        lines.take(start.line as int) + replacement(first, edit.new_text, last) + lines.skip(
            end.line + 1,
        )
    } else {
        lines
    }
}

/// Whether the edit can be made.
pub fn fits(lines: &Vec<String>, edit: &TextEdit) -> (fits: bool)
    ensures
        fits == edit_fits(lines.deep_view(), edit.deep_view()),
{
    let start_line: usize = edit.range.start.line as usize;
    let start_char: usize = edit.range.start.character as usize;
    let end_line: usize = edit.range.end.line as usize;
    let end_char: usize = edit.range.end.character as usize;
    if start_line == end_line {
        if start_line < lines.len() {
            let line = lines[start_line].as_str();
            line.is_char_boundary(start_char) && line.is_char_boundary(end_char)
        } else {
            true
        }
    } else if start_line < lines.len() && end_line < lines.len() {
        lines[start_line].as_str().is_char_boundary(start_char)
            && lines[end_line].as_str().is_char_boundary(end_char) && start_line <= end_line + 1
    } else {
        true
    }
}

/// Makes one edit.
pub fn apply_text_edit(lines: &mut Vec<String>, edit: &TextEdit)
    requires
        edit_fits(old(lines).deep_view(), edit.deep_view()),
    ensures
        final(lines).deep_view() == edited_lines(old(lines).deep_view(), edit.deep_view()),
{
    let start_line: usize = edit.range.start.line as usize;
    let start_char: usize = edit.range.start.character as usize;
    let end_line: usize = edit.range.end.line as usize;
    let end_char: usize = edit.range.end.character as usize;
    let ghost before = lines.deep_view();
    if start_line == end_line {
        if start_line < lines.len() {
            let (mut line, _) = part(lines[start_line].as_str(), start_char);
            let (_, behind) = part(lines[start_line].as_str(), end_char);
            line.append(edit.new_text.as_str());
            line.append(behind.as_str());
            lines.set(start_line, line);
            assert(lines.deep_view() =~= before.update(start_line as int, line@));
        }
    } else if start_line < lines.len() && end_line < lines.len() {
        let (first, _) = part(lines[start_line].as_str(), start_char);
        let (_, last) = part(lines[end_line].as_str(), end_char);
        let mut new_lines = replace_lines(first, edit.new_text.as_str(), last.as_str());
        let mut rest = lines.split_off(end_line + 1);
        assert(rest.deep_view() =~= before.skip(end_line + 1));
        lines.truncate(start_line);
        assert(lines.deep_view() =~= before.take(start_line as int));
        let ghost new = new_lines.deep_view();
        lines.append(&mut new_lines);
        assert(lines.deep_view() =~= before.take(start_line as int) + new);
        lines.append(&mut rest);
        assert(lines.deep_view() =~= before.take(start_line as int) + new + before.skip(
            end_line + 1,
        ));
    }
}

/// The new text in lines, `first` before it and `last` behind it.
fn replace_lines(first: String, new_text: &str, last: &str) -> (new_lines: Vec<String>)
    ensures
        new_lines.deep_view() == replacement(first@, new_text@, last@),
{
    let mut new_lines = lines(new_text);
    if ends_with_newline(new_text) {
        let ghost before = new_lines.deep_view();
        new_lines.push(String::new());
        assert(new_lines.deep_view() =~= before.push(Seq::empty()));
    }
    let ghost new = inserted_lines(new_text@);
    assert(new_lines.deep_view() == new);
    if new_lines.len() == 0 {
        let mut only = first;
        only.append(last);
        new_lines.push(only);
        assert(new_lines.deep_view() =~= seq![first@ + last@]);
    } else {
        let mut begin = first;
        begin.append(new_lines[0].as_str());
        assert(new[0] == new_lines@[0]@);
        new_lines.set(0, begin);
        let ghost begun = new.update(0, first@ + new[0]);
        assert(new_lines.deep_view() =~= begun);
        let at: usize = new_lines.len() - 1;
        let mut end = new_lines[at].clone();
        assert(begun.last() == end@);
        end.append(last);
        new_lines.set(at, end);
        assert(new_lines.deep_view() =~= begun.update(begun.len() - 1, begun.last() + last@));
    }
    new_lines
}

/// Whether one position comes before another.
pub open spec fn precedes(a: Position, b: Position) -> bool {
    a.line < b.line || (a.line == b.line && a.character < b.character)
}

/// The edits with one more, behind those that do not start before it.
pub open spec fn with_edit(edits: Seq<TextEditView>, edit: TextEditView) -> Seq<TextEditView>
    decreases edits.len(),
{
    if edits.len() > 0 && precedes(edits.last().range.start, edit.range.start) {
        with_edit(edits.drop_last(), edit).push(edits.last())
    } else {
        edits.push(edit)
    }
}

/// The edits from the one that starts last to the one that starts first. Edits with the same start
/// keep their order.
pub open spec fn from_last(edits: Seq<TextEditView>) -> Seq<TextEditView>
    decreases edits.len(),
{
    if edits.len() == 0 {
        Seq::empty()
    } else {
        with_edit(from_last(edits.drop_last()), edits.last())
    }
}

/// The lines after the edits, made one after another.
pub open spec fn all_edited(lines: Seq<Seq<char>>, edits: Seq<TextEditView>) -> Seq<Seq<char>>
    decreases edits.len(),
{
    if edits.len() == 0 {
        lines
    } else {
        edited_lines(all_edited(lines, edits.drop_last()), edits.last())
    }
}

/// Whether the edits can be made one after another.
pub open spec fn all_fit(lines: Seq<Seq<char>>, edits: Seq<TextEditView>) -> bool
    decreases edits.len(),
{
    edits.len() > 0 ==> all_fit(lines, edits.drop_last()) && edit_fits(
        all_edited(lines, edits.drop_last()),
        edits.last(),
    )
}

/// Whether the edits can be made in a text, the last one first.
pub open spec fn edits_fit(content: Seq<char>, edits: Seq<TextEditView>) -> bool {
    all_fit(crate::text::lines_of(content), from_last(edits))
}

/// The text after the edits, the last one made first.
pub open spec fn edited_text(content: Seq<char>, edits: Seq<TextEditView>) -> Seq<char> {
    crate::text::joined(
        all_edited(crate::text::lines_of(content), from_last(edits)),
        seq!['\n'],
    )
}

pub(crate) fn copy_edit(edit: &TextEdit) -> (copy: TextEdit)
    ensures
        copy.deep_view() == edit.deep_view(),
{
    TextEdit { range: edit.range, new_text: edit.new_text.clone() }
}

pub(crate) fn copy_edits(edits: &Vec<TextEdit>) -> (copy: Vec<TextEdit>)
    ensures
        copy.deep_view() == edits.deep_view(),
{
    let mut copy: Vec<TextEdit> = Vec::new();
    let mut i: usize = 0;
    while i < edits.len()
        invariant
            i <= edits@.len(),
            copy@.len() == i,
            forall|k: int| 0 <= k < i ==> (#[trigger] copy@[k]).deep_view() == edits@[k].deep_view(),
        decreases edits@.len() - i,
    {
        copy.push(copy_edit(&edits[i]));
        i += 1;
    }
    assert(copy.deep_view() =~= edits.deep_view());
    copy
}

/// Puts an edit where it belongs.
fn insert_edit(edits: &mut Vec<TextEdit>, edit: TextEdit)
    ensures
        final(edits).deep_view() == with_edit(old(edits).deep_view(), edit.deep_view()),
{
    let start = edit.range.start;
    let mut at: usize = edits.len();
    let ghost before = edits.deep_view();
    assert(before.take(at as int) =~= before);
    assert(before.skip(at as int) =~= Seq::empty());
    while at > 0 && (edits[at - 1].range.start.line < start.line || (edits[at - 1].range.start.line
        == start.line && edits[at - 1].range.start.character < start.character))
        invariant
            at <= edits@.len(),
            before == edits.deep_view(),
            start == edit.range.start,
            with_edit(before, edit.deep_view()) == with_edit(
                before.take(at as int),
                edit.deep_view(),
            ) + before.skip(at as int),
        decreases at,
    {
        proof {
            let upto = before.take(at as int);
            assert(upto.drop_last() =~= before.take(at - 1));
            assert(upto.last() == before[at - 1]);
            assert(before.skip(at - 1) =~= seq![before[at - 1]] + before.skip(at as int));
            assert(with_edit(before.take(at - 1), edit.deep_view()).push(before[at - 1])
                + before.skip(at as int) =~= with_edit(before.take(at - 1), edit.deep_view())
                + before.skip(at - 1));
        }
        at -= 1;
    }
    let ghost view = edit.deep_view();
    proof {
        if at > 0 {
            assert(before.take(at as int).last() == before[at - 1]);
        }
    }
    edits.insert(at, edit);
    assert(edits.deep_view() =~= before.take(at as int).push(view) + before.skip(at as int));
}

/// The edits from the one that starts last to the one that starts first.
pub fn order_edits(edits: &Vec<TextEdit>) -> (ordered: Vec<TextEdit>)
    ensures
        ordered.deep_view() == from_last(edits.deep_view()),
{
    let mut ordered: Vec<TextEdit> = Vec::new();
    let mut i: usize = 0;
    assert(ordered.deep_view() =~= Seq::empty());
    while i < edits.len()
        invariant
            i <= edits@.len(),
            ordered.deep_view() == from_last(edits.deep_view().take(i as int)),
        decreases edits@.len() - i,
    {
        insert_edit(&mut ordered, copy_edit(&edits[i]));
        assert(edits.deep_view().take(i + 1).drop_last() =~= edits.deep_view().take(i as int));
        i += 1;
    }
    assert(edits.deep_view().take(i as int) =~= edits.deep_view());
    ordered
}

/// Whether an edit that spans lines lies in the text.
pub open spec fn edit_within(lines: Seq<Seq<char>>, edit: TextEditView) -> bool {
    edit.range.start.line != edit.range.end.line ==> spans_known_lines(lines, edit)
}

/// Whether the edits that span lines lie in the text, each when its turn comes.
pub open spec fn all_within(lines: Seq<Seq<char>>, edits: Seq<TextEditView>) -> bool
    decreases edits.len(),
{
    edits.len() > 0 ==> all_within(lines, edits.drop_last()) && edit_within(
        all_edited(lines, edits.drop_last()),
        edits.last(),
    )
}

/// Whether the edits that span lines lie in the text, the last one made first.
pub open spec fn edits_within(content: Seq<char>, edits: Seq<TextEditView>) -> bool {
    all_within(crate::text::lines_of(content), from_last(edits))
}

/// Makes the edits in a text, the last one first, so that the places of those before it stay where
/// they are. `None` where one of them cannot be made.
pub fn edit_text(content: &str, edits: &Vec<TextEdit>) -> (text: Option<String>)
    ensures
        match text {
            Some(text) => edits_fit(content@, edits.deep_view()) && text@ == edited_text(
                content@,
                edits.deep_view(),
            ),
            None => !edits_fit(content@, edits.deep_view()),
        },
{
    make_edits(content, edits, false)
}

/// Makes the edits in a text, the last one first. `None` where one of them cannot be made, or spans
/// lines that are not there.
pub fn edit_text_within(content: &str, edits: &Vec<TextEdit>) -> (text: Option<String>)
    ensures
        match text {
            Some(text) => edits_fit(content@, edits.deep_view()) && edits_within(
                content@,
                edits.deep_view(),
            ) && text@ == edited_text(content@, edits.deep_view()),
            None => !edits_fit(content@, edits.deep_view()) || !edits_within(
                content@,
                edits.deep_view(),
            ),
        },
{
    make_edits(content, edits, true)
}

/// Makes the edits in a text. `within` says whether one that spans lines must lie in it.
fn make_edits(content: &str, edits: &Vec<TextEdit>, within: bool) -> (text: Option<String>)
    ensures
        match text {
            Some(text) => edits_fit(content@, edits.deep_view()) && (within ==> edits_within(
                content@,
                edits.deep_view(),
            )) && text@ == edited_text(content@, edits.deep_view()),
            None => !edits_fit(content@, edits.deep_view()) || (within && !edits_within(
                content@,
                edits.deep_view(),
            )),
        },
{
    let mut lines = lines(content);
    let ghost before = lines.deep_view();
    let ordered = order_edits(edits);
    let ghost order = ordered.deep_view();
    let mut i: usize = 0;
    assert(order.take(order.len() as int) =~= order);
    while i < ordered.len()
        invariant
            i <= ordered@.len(),
            order == ordered.deep_view(),
            order == from_last(edits.deep_view()),
            before == crate::text::lines_of(content@),
            all_fit(before, order.take(i as int)),
            within ==> all_within(before, order.take(i as int)),
            lines.deep_view() == all_edited(before, order.take(i as int)),
        decreases ordered@.len() - i,
    {
        assert(order.take(i + 1).drop_last() =~= order.take(i as int));
        assert(order.take(i + 1).last() == ordered@[i as int].deep_view());
        if !fits(&lines, &ordered[i]) {
            proof {
                if all_fit(before, order) {
                    lemma_all_fit_prefix(before, order, i + 1);
                }
            }
            return None;
        }
        let range = ordered[i].range;
        if within && range.start.line != range.end.line && (range.start.line as usize >= lines.len()
            || range.end.line as usize >= lines.len()) {
            proof {
                if all_within(before, order) {
                    lemma_all_within_prefix(before, order, i + 1);
                }
            }
            return None;
        }
        apply_text_edit(&mut lines, &ordered[i]);
        i += 1;
    }
    assert(order.take(i as int) =~= order);
    proof {
        reveal_strlit("\n");
        assert("\n"@ =~= seq!['\n']);
    }
    Some(join(&lines, "\n"))
}

proof fn lemma_all_within_prefix(lines: Seq<Seq<char>>, edits: Seq<TextEditView>, n: int)
    requires
        0 <= n <= edits.len(),
        all_within(lines, edits),
    ensures
        all_within(lines, edits.take(n)),
    decreases edits.len(),
{
    if n == edits.len() {
        assert(edits.take(n) =~= edits);
    } else {
        assert(edits.drop_last().take(n) =~= edits.take(n));
        lemma_all_within_prefix(lines, edits.drop_last(), n);
    }
}

proof fn lemma_all_fit_prefix(lines: Seq<Seq<char>>, edits: Seq<TextEditView>, n: int)
    requires
        0 <= n <= edits.len(),
        all_fit(lines, edits),
    ensures
        all_fit(lines, edits.take(n)),
    decreases edits.len(),
{
    if n == edits.len() {
        assert(edits.take(n) =~= edits);
    } else {
        assert(edits.drop_last().take(n) =~= edits.take(n));
        lemma_all_fit_prefix(lines, edits.drop_last(), n);
    }
}

/// Whether no edit starts before one that comes behind it.
pub open spec fn descends(edits: Seq<TextEditView>) -> bool {
    forall|i: int, j: int|
        0 <= i < j < edits.len() ==> !precedes(
            (#[trigger] edits[i]).range.start,
            (#[trigger] edits[j]).range.start,
        )
}

/// The edits that start at a position.
pub open spec fn starting_at(edits: Seq<TextEditView>, start: Position) -> Seq<TextEditView> {
    edits.filter(|edit: TextEditView| edit.range.start == start)
}

proof fn lemma_filter_push(edits: Seq<TextEditView>, edit: TextEditView, start: Position)
    ensures
        starting_at(edits.push(edit), start) == (if edit.range.start == start {
            starting_at(edits, start).push(edit)
        } else {
            starting_at(edits, start)
        }),
{
    reveal(Seq::filter);
    assert(edits.push(edit).drop_last() =~= edits);
}

proof fn lemma_with_edit(edits: Seq<TextEditView>, edit: TextEditView)
    requires
        descends(edits),
    ensures
        with_edit(edits, edit).len() == edits.len() + 1,
        descends(with_edit(edits, edit)),
        with_edit(edits, edit).to_multiset() == edits.to_multiset().insert(edit),
        forall|i: int|
            0 <= i <= edits.len() ==> #[trigger] with_edit(edits, edit)[i] == edit
                || edits.contains(with_edit(edits, edit)[i]),
        forall|start: Position| #[trigger]
            starting_at(with_edit(edits, edit), start) == starting_at(edits.push(edit), start),
    decreases edits.len(),
{
    broadcast use vstd::seq_lib::group_to_multiset_ensures;

    if edits.len() > 0 && precedes(edits.last().range.start, edit.range.start) {
        let rest = edits.drop_last();
        let inner = with_edit(rest, edit);
        lemma_with_edit(rest, edit);
        assert(edits =~= rest.push(edits.last()));
        assert forall|i: int| 0 <= i <= edits.len() implies #[trigger] with_edit(edits, edit)[i]
            == edit || edits.contains(with_edit(edits, edit)[i]) by {
            if i < rest.len() + 1 {
                assert(with_edit(edits, edit)[i] == inner[i]);
                if inner[i] != edit {
                    let k = choose|k: int| 0 <= k < rest.len() && rest[k] == inner[i];
                    assert(edits[k] == inner[i]);
                }
            }
        }
        assert forall|i: int, j: int| 0 <= i < j < inner.len() + 1 implies !precedes(
            (#[trigger] inner.push(edits.last())[i]).range.start,
            (#[trigger] inner.push(edits.last())[j]).range.start,
        ) by {
            if j == inner.len() {
                if inner[i] != edit {
                    let k = choose|k: int| 0 <= k < rest.len() && rest[k] == inner[i];
                    assert(edits[k] == inner[i]);
                }
            }
        }
        assert forall|start: Position| #[trigger]
            starting_at(with_edit(edits, edit), start) == starting_at(edits.push(edit), start) by {
            lemma_filter_push(inner, edits.last(), start);
            lemma_filter_push(rest, edits.last(), start);
            lemma_filter_push(edits, edit, start);
            lemma_filter_push(rest, edit, start);
        }
        assert(rest.push(edits.last()).to_multiset() =~= rest.to_multiset().insert(edits.last()));
        assert(with_edit(edits, edit).to_multiset() =~= edits.to_multiset().insert(edit));
    } else {
        assert forall|i: int, j: int| 0 <= i < j < edits.len() + 1 implies !precedes(
            (#[trigger] edits.push(edit)[i]).range.start,
            (#[trigger] edits.push(edit)[j]).range.start,
        ) by {
            if j == edits.len() {
                assert(!precedes(edits.last().range.start, edit.range.start));
                if i < edits.len() - 1 {
                    assert(!precedes(edits[i].range.start, edits[edits.len() - 1].range.start));
                }
            }
        }
        assert forall|i: int| 0 <= i <= edits.len() implies #[trigger] with_edit(edits, edit)[i]
            == edit || edits.contains(with_edit(edits, edit)[i]) by {
            if i < edits.len() {
                assert(edits.push(edit)[i] == edits[i]);
            }
        }
    }
}

/// The order in which edits are made holds the same edits, each starts no earlier than the one
/// behind it, and edits with the same start come as they were given.
pub proof fn edits_are_ordered(edits: Seq<TextEditView>)
    ensures
        from_last(edits).len() == edits.len(),
        from_last(edits).to_multiset() == edits.to_multiset(),
        descends(from_last(edits)),
        forall|start: Position| #[trigger]
            starting_at(from_last(edits), start) == starting_at(edits, start),
    decreases edits.len(),
{
    broadcast use vstd::seq_lib::group_to_multiset_ensures;

    if edits.len() > 0 {
        let rest = edits.drop_last();
        let sorted = from_last(rest);
        edits_are_ordered(rest);
        lemma_with_edit(sorted, edits.last());
        assert(edits =~= rest.push(edits.last()));
        assert(rest.push(edits.last()).to_multiset() =~= rest.to_multiset().insert(edits.last()));
        assert forall|start: Position| #[trigger]
            starting_at(from_last(edits), start) == starting_at(edits, start) by {
            lemma_filter_push(sorted, edits.last(), start);
            lemma_filter_push(rest, edits.last(), start);
        }
    }
}

/// Whether no two edits start at the same position.
pub open spec fn distinct_starts(edits: Seq<TextEditView>) -> bool {
    forall|i: int, j: int|
        0 <= i < j < edits.len() ==> (#[trigger] edits[i]).range.start != (
        #[trigger] edits[j]).range.start
}

proof fn lemma_starting_at_empty(edits: Seq<TextEditView>, start: Position)
    ensures
        starting_at(edits, start).len() == 0 <==> forall|i: int|
            0 <= i < edits.len() ==> (#[trigger] edits[i]).range.start != start,
    decreases edits.len(),
{
    reveal(Seq::filter);
    if edits.len() > 0 {
        let rest = edits.drop_last();
        lemma_starting_at_empty(rest, start);
        assert(edits.last() == edits[edits.len() - 1]);
        if starting_at(edits, start).len() == 0 {
            assert forall|i: int| 0 <= i < edits.len() implies (#[trigger] edits[i]).range.start
                != start by {
                if i < rest.len() {
                    assert(rest[i] == edits[i]);
                }
            }
        } else if edits.last().range.start != start {
            let i = choose|i: int| 0 <= i < rest.len() && (#[trigger] rest[i]).range.start == start;
            assert(edits[i] == rest[i]);
        }
    }
}

proof fn lemma_starting_at_one(edits: Seq<TextEditView>)
    ensures
        distinct_starts(edits) <==> forall|start: Position| #[trigger]
            starting_at(edits, start).len() <= 1,
    decreases edits.len(),
{
    reveal(Seq::filter);
    if edits.len() > 0 {
        let rest = edits.drop_last();
        let last = edits.last();
        lemma_starting_at_one(rest);
        assert(edits =~= rest.push(last));
        if distinct_starts(edits) {
            assert forall|i: int, j: int| 0 <= i < j < rest.len() implies (
            #[trigger] rest[i]).range.start != (#[trigger] rest[j]).range.start by {
                assert(edits[i] == rest[i] && edits[j] == rest[j]);
            }
            assert forall|start: Position| #[trigger] starting_at(edits, start).len() <= 1 by {
                lemma_filter_push(rest, last, start);
                lemma_starting_at_empty(rest, start);
                assert(starting_at(rest, start).len() <= 1);
                if last.range.start == start {
                    assert forall|i: int| 0 <= i < rest.len() implies (
                    #[trigger] rest[i]).range.start != start by {
                        assert(edits[i] == rest[i] && edits[edits.len() - 1] == last);
                    }
                }
            }
        }
        if forall|start: Position| #[trigger] starting_at(edits, start).len() <= 1 {
            assert forall|start: Position| #[trigger] starting_at(rest, start).len() <= 1 by {
                lemma_filter_push(rest, last, start);
                assert(starting_at(edits, start).len() <= 1);
            }
            assert forall|i: int, j: int| 0 <= i < j < edits.len() implies (
            #[trigger] edits[i]).range.start != (#[trigger] edits[j]).range.start by {
                if j < rest.len() {
                    assert(rest[i] == edits[i] && rest[j] == edits[j]);
                } else {
                    lemma_filter_push(rest, last, last.range.start);
                    lemma_starting_at_empty(rest, last.range.start);
                    assert(starting_at(edits, last.range.start).len() <= 1);
                    assert(rest[i] == edits[i]);
                }
            }
        }
    } else {
        assert forall|start: Position| #[trigger] starting_at(edits, start).len() <= 1 by {}
    }
}

/// Two descending lists of the same edits are the same list where no two edits share a start.
proof fn lemma_one_order(a: Seq<TextEditView>, b: Seq<TextEditView>)
    requires
        a.to_multiset() == b.to_multiset(),
        descends(a),
        descends(b),
        distinct_starts(a),
        distinct_starts(b),
    ensures
        a == b,
    decreases a.len(),
{
    broadcast use vstd::seq_lib::group_to_multiset_ensures;

    assert(a.len() == a.to_multiset().len() && b.len() == b.to_multiset().len());
    if a.len() > 0 {
        let n = a.len() - 1;
        assert(a.to_multiset().count(a.last()) > 0 && b.to_multiset().count(b.last()) > 0) by {
            assert(a.contains(a.last()));
            assert(b.contains(b.last()));
        }
        assert(b.contains(a.last()));
        assert(a.contains(b.last()));
        let p = choose|p: int| 0 <= p < b.len() && b[p] == a.last();
        let q = choose|q: int| 0 <= q < a.len() && a[q] == b.last();
        assert(a[n] == a.last() && b[n] == b.last());
        if p < n && q < n {
            assert(!precedes(b[p].range.start, b[n].range.start));
            assert(!precedes(a[q].range.start, a[n].range.start));
            assert(b[p].range.start != b[n].range.start);
        }
        assert(a.last() == b.last());
        let rest_a = a.drop_last();
        let rest_b = b.drop_last();
        assert(a =~= rest_a.push(a.last()));
        assert(b =~= rest_b.push(b.last()));
        assert(rest_a.push(a.last()).to_multiset() =~= rest_a.to_multiset().insert(a.last()));
        assert(rest_b.push(b.last()).to_multiset() =~= rest_b.to_multiset().insert(b.last()));
        assert(rest_a.to_multiset() =~= a.to_multiset().remove(a.last()));
        assert(rest_b.to_multiset() =~= b.to_multiset().remove(b.last()));
        assert forall|i: int, j: int| 0 <= i < j < rest_a.len() implies !precedes(
            (#[trigger] rest_a[i]).range.start,
            (#[trigger] rest_a[j]).range.start,
        ) && rest_a[i].range.start != rest_a[j].range.start by {
            assert(a[i] == rest_a[i] && a[j] == rest_a[j]);
        }
        assert forall|i: int, j: int| 0 <= i < j < rest_b.len() implies !precedes(
            (#[trigger] rest_b[i]).range.start,
            (#[trigger] rest_b[j]).range.start,
        ) && rest_b[i].range.start != rest_b[j].range.start by {
            assert(b[i] == rest_b[i] && b[j] == rest_b[j]);
        }
        lemma_one_order(rest_a, rest_b);
    } else {
        assert(a =~= b);
    }
}

/// Edits that start at different positions have the same effect in whichever order they are given.
pub proof fn edits_in_any_order(content: Seq<char>, a: Seq<TextEditView>, b: Seq<TextEditView>)
    requires
        a.to_multiset() == b.to_multiset(),
        distinct_starts(a),
    ensures
        edits_fit(content, a) == edits_fit(content, b),
        edited_text(content, a) == edited_text(content, b),
{
    broadcast use vstd::seq_lib::group_to_multiset_ensures;

    let x = from_last(a);
    let y = from_last(b);
    edits_are_ordered(a);
    edits_are_ordered(b);
    lemma_starting_at_one(a);
    lemma_starting_at_one(x);
    assert forall|start: Position| #[trigger] starting_at(x, start).len() <= 1 by {
        assert(starting_at(a, start).len() <= 1);
    }
    assert(distinct_starts(x));
    assert(x.no_duplicates());
    x.lemma_multiset_has_no_duplicates();
    y.lemma_multiset_has_no_duplicates_conv();
    assert forall|i: int, j: int| 0 <= i < j < y.len() implies (#[trigger] y[i]).range.start != (
    #[trigger] y[j]).range.start by {
        assert(y.contains(y[i]) && y.contains(y[j]));
        assert(y.to_multiset().count(y[i]) > 0 && y.to_multiset().count(y[j]) > 0);
        assert(x.contains(y[i]) && x.contains(y[j]));
        let p = choose|p: int| 0 <= p < x.len() && x[p] == y[i];
        let q = choose|q: int| 0 <= q < x.len() && x[q] == y[j];
        assert(p != q);
    }
    lemma_one_order(x, y);
}

/// What a text holds up to a position: the lines before it, and the beginning of its line.
pub open spec fn keeps_text_before(
    lines: Seq<Seq<char>>,
    place: Position,
    changed: Seq<Seq<char>>,
) -> bool {
    &&& place.line < changed.len()
    &&& changed.take(place.line as int) == lines.take(place.line as int)
    &&& crate::text::begins_with(
        changed[place.line as int],
        offsets::head(lines[place.line as int], place.character as int),
    )
}

proof fn lemma_replacement_begins(first: Seq<char>, new_text: Seq<char>, last: Seq<char>)
    ensures
        replacement(first, new_text, last).len() > 0,
        crate::text::begins_with(replacement(first, new_text, last)[0], first),
{
    let new = inserted_lines(new_text);
    if new.len() > 0 {
        let begun = new.update(0, first + new[0]);
        if new.len() == 1 {
            assert(begun.last() == first + new[0]);
            assert((first + new[0] + last).take(first.len() as int) =~= first);
        } else {
            assert((first + new[0]).take(first.len() as int) =~= first);
        }
    } else {
        assert((first + last).take(first.len() as int) =~= first);
    }
}

/// One edit that does not start before a position leaves the text before that position as it is.
proof fn lemma_edit_keeps_text_before(
    lines: Seq<Seq<char>>,
    place: Position,
    changed: Seq<Seq<char>>,
    edit: TextEditView,
)
    requires
        place.line < lines.len(),
        offsets::parts_at(lines[place.line as int], place.character as int),
        keeps_text_before(lines, place, changed),
        edit_fits(changed, edit),
        !precedes(edit.range.start, place),
    ensures
        keeps_text_before(lines, place, edited_lines(changed, edit)),
{
    let start = edit.range.start;
    let end = edit.range.end;
    let at = place.line as int;
    let beginning = offsets::head(lines[at], place.character as int);
    let after = edited_lines(changed, edit);
    offsets::parts_make_the_text(lines[at], place.character as int);
    if start.line == end.line {
        if start.line < changed.len() {
            assert(after.take(at) =~= changed.take(at));
            if start.line == place.line {
                let line = changed[at];
                let front = offsets::head(line, start.character as int);
                offsets::head_keeps_beginning(line, beginning, start.character as int);
                assert(after[at].take(beginning.len() as int) =~= front.take(
                    beginning.len() as int,
                ));
            }
        }
    } else if spans_known_lines(changed, edit) {
        let first = offsets::head(changed[start.line as int], start.character as int);
        let last = offsets::tail(changed[end.line as int], end.character as int);
        lemma_replacement_begins(first, edit.new_text, last);
        assert(after.take(at) =~= changed.take(at));
        if start.line == place.line {
            offsets::head_keeps_beginning(changed[at], beginning, start.character as int);
            assert(after[at] == replacement(first, edit.new_text, last)[0]);
            assert(after[at].take(beginning.len() as int) =~= after[at].take(
                first.len() as int,
            ).take(beginning.len() as int));
        } else {
            assert(after[at] == changed[at]);
        }
    }
}

/// Edits made before it do not move the start of an edit: as long as none of them starts before a
/// position, the text up to that position stays as it was.
pub proof fn text_before_edits_stays(
    lines: Seq<Seq<char>>,
    edits: Seq<TextEditView>,
    place: Position,
)
    requires
        place.line < lines.len(),
        offsets::parts_at(lines[place.line as int], place.character as int),
        all_fit(lines, edits),
        forall|i: int| 0 <= i < edits.len() ==> !precedes((#[trigger] edits[i]).range.start, place),
    ensures
        keeps_text_before(lines, place, all_edited(lines, edits)),
    decreases edits.len(),
{
    let at = place.line as int;
    if edits.len() == 0 {
        offsets::parts_make_the_text(lines[at], place.character as int);
        let beginning = offsets::head(lines[at], place.character as int);
        assert(lines[at].take(beginning.len() as int) =~= beginning);
    } else {
        let rest = edits.drop_last();
        assert forall|i: int| 0 <= i < rest.len() implies !precedes(
            (#[trigger] rest[i]).range.start,
            place,
        ) by {
            assert(rest[i] == edits[i]);
        }
        text_before_edits_stays(lines, rest, place);
        assert(edits.last() == edits[edits.len() - 1]);
        lemma_edit_keeps_text_before(lines, place, all_edited(lines, rest), edits.last());
    }
}

/// Replacing nothing by nothing changes nothing.
pub proof fn empty_edit_changes_nothing(lines: Seq<Seq<char>>, edit: TextEditView)
    requires
        edit.range.start == edit.range.end,
        edit.new_text.len() == 0,
        edit_fits(lines, edit),
    ensures
        edited_lines(lines, edit) == lines,
{
    let start = edit.range.start;
    if start.line < lines.len() {
        let line = lines[start.line as int];
        offsets::parts_make_the_text(line, start.character as int);
        assert(offsets::head(line, start.character as int) + edit.new_text + offsets::tail(
            line,
            start.character as int,
        ) =~= line);
        assert(edited_lines(lines, edit) =~= lines);
    }
}

/// Without edits a text stays as it is but for the line feed at its end, which goes. (A text in
/// which a carriage return precedes a line feed loses the carriage return too.)
pub proof fn no_edits_drop_the_last_line_feed(content: Seq<char>)
    requires
        forall|i: int|
            0 <= i < content.len() - 1 && #[trigger] content[i] == '\r' ==> content[i + 1] != '\n',
    ensures
        edits_fit(content, Seq::empty()),
        edited_text(content, Seq::empty()) == (if content.len() > 0 && content.last() == '\n' {
            content.drop_last()
        } else {
            content
        }),
{
    crate::text::joining_undoes_splitting(content);
}

/// One position precedes another where it is on an earlier line, or earlier on the same line.
pub proof fn positions_are_ordered_line_by_line(a: Position, b: Position, c: Position)
    ensures
        a.line < b.line ==> precedes(a, b),
        a.line > b.line ==> !precedes(a, b),
        a.line == b.line ==> (precedes(a, b) <==> a.character < b.character),
        !precedes(a, a),
        a == b || precedes(a, b) || precedes(b, a),
        precedes(a, b) && precedes(b, c) ==> precedes(a, c),
{
}

/// An edit with an end on a line that is not there can be made, and changes nothing.
pub proof fn an_edit_beyond_the_text_changes_nothing(lines: Seq<Seq<char>>, edit: TextEditView)
    requires
        edit.range.start.line >= lines.len() || edit.range.end.line >= lines.len(),
    ensures
        edit_fits(lines, edit),
        edited_lines(lines, edit) == lines,
{
}

/// An edit of lines that are there cannot be made where one of its offsets does not part its line, and
/// neither where it ends more than one line before it starts.
pub proof fn an_edit_within_a_character_cannot_be_made(lines: Seq<Seq<char>>, edit: TextEditView)
    requires
        edit.range.start.line < lines.len(),
        edit.range.end.line < lines.len(),
    ensures
        edit_fits(lines, edit) <==> {
            &&& offsets::parts_at(
                lines[edit.range.start.line as int],
                edit.range.start.character as int,
            )
            &&& offsets::parts_at(
                lines[edit.range.end.line as int],
                edit.range.end.character as int,
            )
            &&& edit.range.start.line <= edit.range.end.line + 1
        },
{
}

/// An edit of a single line lies within the text wherever that line is; one that spans lines does where
/// both of them are there.
pub proof fn an_edit_within_the_text_has_its_lines(lines: Seq<Seq<char>>, edit: TextEditView)
    ensures
        edit.range.start.line == edit.range.end.line ==> edit_within(lines, edit),
        edit.range.start.line != edit.range.end.line ==> (edit_within(lines, edit)
            <==> edit.range.start.line < lines.len() && edit.range.end.line < lines.len()),
{
}

/// Edits are made one after another: the next one in the lines that the earlier ones left.
pub proof fn edits_are_made_one_after_another(
    lines: Seq<Seq<char>>,
    edits: Seq<TextEditView>,
    next: TextEditView,
)
    ensures
        all_edited(lines, Seq::empty()) == lines,
        all_fit(lines, Seq::empty()),
        all_within(lines, Seq::empty()),
        all_edited(lines, edits.push(next)) == edited_lines(all_edited(lines, edits), next),
        all_fit(lines, edits.push(next)) <==> all_fit(lines, edits) && edit_fits(
            all_edited(lines, edits),
            next,
        ),
        all_within(lines, edits.push(next)) <==> all_within(lines, edits) && edit_within(
            all_edited(lines, edits),
            next,
        ),
{
    assert(edits.push(next).drop_last() =~= edits);
}

/// An edit is seen as it is.
pub proof fn an_edit_is_seen_as_it_is(edit: TextEdit)
    ensures
        edit.deep_view().range == edit.range,
        edit.deep_view().new_text == edit.new_text@,
{
}

} // verus!
