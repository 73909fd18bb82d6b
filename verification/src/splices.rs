//! What edits come to, seen from the text as a whole.
use crate::edits;
use crate::edits::TextEditView;
use crate::models::Position;
use crate::offsets;
use crate::text;
use vstd::prelude::*;
use vstd::utf8::encode_utf8;

verus! {

/// The lines, each with a line feed behind it.
pub open spec fn ended(lines: Seq<Seq<char>>) -> Seq<char>
    decreases lines.len(),
{
    if lines.len() == 0 {
        Seq::empty()
    } else {
        ended(lines.drop_last()) + lines.last() + seq!['\n']
    }
}

/// The lines, each with a line feed before it.
pub open spec fn begun(lines: Seq<Seq<char>>) -> Seq<char>
    decreases lines.len(),
{
    if lines.len() == 0 {
        Seq::empty()
    } else {
        begun(lines.drop_last()) + seq!['\n'] + lines.last()
    }
}

/// The text of the lines.
pub open spec fn whole(lines: Seq<Seq<char>>) -> Seq<char> {
    text::joined(lines, seq!['\n'])
}

/// The text before a position.
pub open spec fn text_before(lines: Seq<Seq<char>>, place: Position) -> Seq<char> {
    ended(lines.take(place.line as int)) + offsets::head(
        lines[place.line as int],
        place.character as int,
    )
}

/// The text behind a position.
pub open spec fn text_behind(lines: Seq<Seq<char>>, place: Position) -> Seq<char> {
    offsets::tail(lines[place.line as int], place.character as int) + begun(
        lines.skip(place.line + 1),
    )
}

/// The text from one position up to another.
pub open spec fn text_between(lines: Seq<Seq<char>>, from: Position, to: Position) -> Seq<char> {
    text_before(lines, to).skip(text_before(lines, from).len() as int)
}

/// Whether a position is one of the text.
pub open spec fn is_place(lines: Seq<Seq<char>>, place: Position) -> bool {
    place.line < lines.len() && offsets::parts_at(
        lines[place.line as int],
        place.character as int,
    )
}

/// Whether no carriage return precedes a line feed.
pub open spec fn without_returns(s: Seq<char>) -> bool {
    forall|i: int| 0 <= i < s.len() - 1 && #[trigger] s[i] == '\r' ==> s[i + 1] != '\n'
}

/// Whether the edit replaces a part of the text, and no line of what it puts there ends in a carriage
/// return.
pub open spec fn replaces_a_part(lines: Seq<Seq<char>>, edit: TextEditView) -> bool {
    &&& is_place(lines, edit.range.start)
    &&& is_place(lines, edit.range.end)
    &&& !edits::precedes(edit.range.end, edit.range.start)
    &&& without_returns(edit.new_text)
}

/// Whether the edits, which come from the last to the first, replace parts of the text that do not
/// overlap.
pub open spec fn replace_apart(lines: Seq<Seq<char>>, ordered: Seq<TextEditView>) -> bool {
    &&& forall|i: int| 0 <= i < ordered.len() ==> replaces_a_part(lines, #[trigger] ordered[i])
    &&& forall|i: int, j: int|
        0 <= i < j < ordered.len() ==> !edits::precedes(
            (#[trigger] ordered[i]).range.start,
            (#[trigger] ordered[j]).range.end,
        )
}

/// The text from a position on, with the parts that the edits replace taken by their new texts. The
/// edits come from the last to the first, and none of them starts before the position.
pub open spec fn replaced_from(
    lines: Seq<Seq<char>>,
    ordered: Seq<TextEditView>,
    place: Position,
) -> Seq<char>
    decreases ordered.len(),
{
    if ordered.len() == 0 {
        text_behind(lines, place)
    } else {
        let next = ordered.last();
        text_between(lines, place, next.range.start) + next.new_text + replaced_from(
            lines,
            ordered.drop_last(),
            next.range.end,
        )
    }
}

proof fn lemma_ended_sum(a: Seq<Seq<char>>, b: Seq<Seq<char>>)
    ensures
        ended(a + b) == ended(a) + ended(b),
    decreases b.len(),
{
    if b.len() == 0 {
        assert(a + b =~= a);
        assert(ended(a) + ended(b) =~= ended(a));
    } else {
        assert((a + b).drop_last() =~= a + b.drop_last());
        lemma_ended_sum(a, b.drop_last());
        assert(ended(a + b) =~= ended(a) + ended(b));
    }
}

proof fn lemma_begun_sum(a: Seq<Seq<char>>, b: Seq<Seq<char>>)
    ensures
        begun(a + b) == begun(a) + begun(b),
    decreases b.len(),
{
    if b.len() == 0 {
        assert(a + b =~= a);
        assert(begun(a) + begun(b) =~= begun(a));
    } else {
        assert((a + b).drop_last() =~= a + b.drop_last());
        lemma_begun_sum(a, b.drop_last());
        assert(begun(a + b) =~= begun(a) + begun(b));
    }
}

proof fn lemma_whole_at(lines: Seq<Seq<char>>, k: int)
    requires
        0 <= k < lines.len(),
    ensures
        whole(lines) == ended(lines.take(k)) + lines[k] + begun(lines.skip(k + 1)),
    decreases lines.len(),
{
    let front = lines.drop_last();
    let last = lines.last();
    if lines.len() == 1 {
        assert(lines.take(0) =~= Seq::empty());
        assert(lines.skip(1) =~= Seq::empty());
        assert(ended(lines.take(0)) + lines[0] + begun(lines.skip(1)) =~= lines[0]);
    } else if k == lines.len() - 1 {
        lemma_whole_at(front, k - 1);
        assert(lines.take(k) =~= front);
        assert(front.drop_last() =~= front.take(k - 1));
        assert(front.skip(k) =~= Seq::empty());
        assert(lines.skip(k + 1) =~= Seq::empty());
        assert(ended(front) =~= ended(front.take(k - 1)) + front[k - 1] + seq!['\n']);
        assert(whole(front) =~= ended(front.take(k - 1)) + front[k - 1]);
        assert(whole(lines) =~= ended(lines.take(k)) + lines[k] + begun(lines.skip(k + 1)));
    } else {
        lemma_whole_at(front, k);
        assert(front.take(k) =~= lines.take(k));
        assert(lines.skip(k + 1).drop_last() =~= front.skip(k + 1));
        assert(lines.skip(k + 1).last() == last);
        assert(whole(lines) =~= ended(lines.take(k)) + lines[k] + begun(lines.skip(k + 1)));
    }
}

/// A text is what stands before a position and what stands behind it.
pub proof fn a_place_parts_the_text(lines: Seq<Seq<char>>, place: Position)
    requires
        is_place(lines, place),
    ensures
        whole(lines) == text_before(lines, place) + text_behind(lines, place),
{
    let at = place.line as int;
    lemma_whole_at(lines, at);
    offsets::parts_make_the_text(lines[at], place.character as int);
    assert(whole(lines) =~= text_before(lines, place) + text_behind(lines, place));
}

proof fn lemma_whole_sum(a: Seq<Seq<char>>, middle: Seq<Seq<char>>, b: Seq<Seq<char>>)
    requires
        middle.len() > 0,
    ensures
        whole(a + middle + b) == ended(a) + whole(middle) + begun(b),
{
    let all = a + middle + b;
    let k = a.len() as int;
    lemma_whole_at(all, k);
    lemma_whole_at(middle, 0);
    assert(all.take(k) =~= a);
    assert(all[k] == middle[0]);
    assert(all.skip(k + 1) =~= middle.skip(1) + b);
    lemma_begun_sum(middle.skip(1), b);
    assert(middle.take(0) =~= Seq::empty());
    assert(whole(middle) =~= middle[0] + begun(middle.skip(1)));
    assert(whole(all) =~= ended(a) + whole(middle) + begun(b));
}

proof fn lemma_inserted(new_text: Seq<char>)
    requires
        without_returns(new_text),
    ensures
        edits::inserted_lines(new_text).len() == 0 <==> new_text.len() == 0,
        whole(edits::inserted_lines(new_text)) == new_text,
{
    let lines = text::lines_of(new_text);
    text::joining_undoes_splitting(new_text);
    text::lemma_lines_of_some(new_text);
    if new_text.len() > 0 && new_text.last() == '\n' {
        let all = lines.push(Seq::empty());
        assert(all.drop_last() =~= lines);
        assert(whole(all) =~= whole(lines) + seq!['\n']);
        assert(new_text.drop_last() + seq!['\n'] =~= new_text);
    }
}

proof fn lemma_replacement(first: Seq<char>, new_text: Seq<char>, last: Seq<char>)
    requires
        without_returns(new_text),
    ensures
        edits::replacement(first, new_text, last).len() > 0,
        whole(edits::replacement(first, new_text, last)) == first + new_text + last,
{
    let new = edits::inserted_lines(new_text);
    lemma_inserted(new_text);
    if new.len() == 0 {
        assert(seq![first + last][0] == first + last);
        assert(first + new_text + last =~= first + last);
    } else {
        let n = new.len() - 1;
        let begun_lines = new.update(0, first + new[0]);
        let all = begun_lines.update(n, begun_lines.last() + last);
        lemma_whole_at(new, 0);
        lemma_whole_at(begun_lines, 0);
        assert(new.take(0) =~= begun_lines.take(0));
        assert(new.skip(1) =~= begun_lines.skip(1));
        assert(new.take(0) =~= Seq::empty());
        assert(whole(begun_lines) =~= first + whole(new));
        lemma_whole_at(begun_lines, n);
        lemma_whole_at(all, n);
        assert(all.take(n) =~= begun_lines.take(n));
        assert(all.skip(n + 1) =~= Seq::empty());
        assert(begun_lines.skip(n + 1) =~= Seq::empty());
        assert(whole(all) =~= whole(begun_lines) + last);
        assert(all == edits::replacement(first, new_text, last));
    }
}

/// An edit puts its new text in the place of its range, and leaves the text before and behind that as
/// it is.
pub proof fn an_edit_replaces_its_range(lines: Seq<Seq<char>>, edit: TextEditView)
    requires
        replaces_a_part(lines, edit),
    ensures
        edits::edit_fits(lines, edit),
        whole(edits::edited_lines(lines, edit)) == text_before(lines, edit.range.start)
            + edit.new_text + text_behind(lines, edit.range.end),
{
    let start = edit.range.start;
    let end = edit.range.end;
    let s = start.line as int;
    let e = end.line as int;
    let after = edits::edited_lines(lines, edit);
    let first = offsets::head(lines[s], start.character as int);
    let last = offsets::tail(lines[e], end.character as int);
    if s == e {
        lemma_whole_at(after, s);
        assert(after.take(s) =~= lines.take(s));
        assert(after.skip(s + 1) =~= lines.skip(s + 1));
        assert(whole(after) =~= text_before(lines, start) + edit.new_text + text_behind(
            lines,
            end,
        ));
    } else {
        lemma_replacement(first, edit.new_text, last);
        lemma_whole_sum(
            lines.take(s),
            edits::replacement(first, edit.new_text, last),
            lines.skip(e + 1),
        );
        assert(whole(after) =~= text_before(lines, start) + edit.new_text + text_behind(
            lines,
            end,
        ));
    }
}

proof fn lemma_before_grows(lines: Seq<Seq<char>>, from: Position, to: Position)
    requires
        is_place(lines, from),
        is_place(lines, to),
        !edits::precedes(to, from),
    ensures
        text_before(lines, to) == text_before(lines, from) + text_between(lines, from, to),
{
    let f = from.line as int;
    let t = to.line as int;
    let head = offsets::head(lines[f], from.character as int);
    let front = text_before(lines, from);
    let all = text_before(lines, to);
    offsets::parts_make_the_text(lines[f], from.character as int);
    assert(lines[f].take(head.len() as int) =~= head);
    if f == t {
        offsets::head_keeps_beginning(lines[f], head, to.character as int);
        let longer = offsets::head(lines[f], to.character as int);
        assert(longer =~= head + longer.skip(head.len() as int));
        assert(all =~= front + longer.skip(head.len() as int));
    } else {
        let upto = lines.take(t);
        let rest = upto.skip(f + 1);
        assert(upto =~= lines.take(f + 1) + rest);
        lemma_ended_sum(lines.take(f + 1), rest);
        assert(lines.take(f + 1).drop_last() =~= lines.take(f));
        assert(lines[f] =~= head + lines[f].skip(head.len() as int));
        assert(all =~= front + (lines[f].skip(head.len() as int) + seq!['\n'] + ended(rest)
            + offsets::head(lines[t], to.character as int)));
    }
    assert(all.take(front.len() as int) =~= front);
    assert(all =~= front + all.skip(front.len() as int));
}

proof fn lemma_kept_before(lines: Seq<Seq<char>>, place: Position, changed: Seq<Seq<char>>)
    requires
        is_place(lines, place),
        edits::keeps_text_before(lines, place, changed),
    ensures
        is_place(changed, place),
        text_before(changed, place) == text_before(lines, place),
{
    let at = place.line as int;
    let head = offsets::head(lines[at], place.character as int);
    offsets::parts_make_the_text(lines[at], place.character as int);
    assert(changed[at] =~= head + changed[at].skip(head.len() as int));
    offsets::lemma_boundary_between(head, changed[at].skip(head.len() as int));
}

proof fn lemma_apart_front(lines: Seq<Seq<char>>, ordered: Seq<TextEditView>)
    requires
        replace_apart(lines, ordered),
        ordered.len() > 0,
    ensures
        replace_apart(lines, ordered.drop_last()),
        replaces_a_part(lines, ordered.last()),
        forall|i: int|
            0 <= i < ordered.len() - 1 ==> !edits::precedes(
                (#[trigger] ordered.drop_last()[i]).range.start,
                ordered.last().range.end,
            ),
{
    let rest = ordered.drop_last();
    assert(ordered[ordered.len() - 1] == ordered.last());
    assert forall|i: int| 0 <= i < rest.len() implies replaces_a_part(lines, #[trigger] rest[i])
        && !edits::precedes(rest[i].range.start, ordered.last().range.end) by {
        assert(rest[i] == ordered[i]);
    }
    assert forall|i: int, j: int| 0 <= i < j < rest.len() implies !edits::precedes(
        (#[trigger] rest[i]).range.start,
        (#[trigger] rest[j]).range.end,
    ) by {
        assert(rest[i] == ordered[i] && rest[j] == ordered[j]);
    }
}

/// Edits of parts that do not overlap, made from the last to the first, can all be made. Each replaces
/// its range as the given text has it, and the text outside the ranges stays as it is.
pub proof fn edits_apart_replace_their_ranges(
    lines: Seq<Seq<char>>,
    ordered: Seq<TextEditView>,
    place: Position,
)
    requires
        replace_apart(lines, ordered),
        is_place(lines, place),
        forall|i: int|
            0 <= i < ordered.len() ==> !edits::precedes(
                (#[trigger] ordered[i]).range.start,
                place,
            ),
    ensures
        edits::all_fit(lines, ordered),
        whole(edits::all_edited(lines, ordered)) == text_before(lines, place) + replaced_from(
            lines,
            ordered,
            place,
        ),
    decreases ordered.len(),
{
    if ordered.len() == 0 {
        a_place_parts_the_text(lines, place);
    } else {
        let rest = ordered.drop_last();
        let edit = ordered.last();
        let start = edit.range.start;
        let end = edit.range.end;
        let changed = edits::all_edited(lines, rest);
        lemma_apart_front(lines, ordered);
        edits_apart_replace_their_ranges(lines, rest, end);
        assert forall|i: int| 0 <= i < rest.len() implies !edits::precedes(
            (#[trigger] rest[i]).range.start,
            start,
        ) by {
            assert(!edits::precedes(rest[i].range.start, end));
        }
        edits::text_before_edits_stays(lines, rest, end);
        edits::text_before_edits_stays(lines, rest, start);
        lemma_kept_before(lines, end, changed);
        lemma_kept_before(lines, start, changed);
        an_edit_replaces_its_range(changed, edit);
        a_place_parts_the_text(changed, end);
        let behind = replaced_from(lines, rest, end);
        let front = text_before(lines, end);
        assert(text_behind(changed, end) =~= behind) by {
            assert(front + text_behind(changed, end) == front + behind);
            assert((front + text_behind(changed, end)).skip(front.len() as int) =~= text_behind(
                changed,
                end,
            ));
            assert((front + behind).skip(front.len() as int) =~= behind);
        }
        assert(ordered[ordered.len() - 1] == edit);
        lemma_before_grows(lines, place, start);
        assert(whole(edits::all_edited(lines, ordered)) =~= text_before(lines, place)
            + replaced_from(lines, ordered, place));
    }
}

/// Edits of a text whose ranges do not overlap can be made. The text that comes of them has their new
/// texts in the place of their ranges, and is the given text outside them.
pub proof fn edited_text_is_the_text_with_its_parts_replaced(
    content: Seq<char>,
    given: Seq<TextEditView>,
)
    requires
        text::lines_of(content).len() > 0,
        replace_apart(text::lines_of(content), edits::from_last(given)),
    ensures
        edits::edits_fit(content, given),
        edits::edited_text(content, given) == replaced_from(
            text::lines_of(content),
            edits::from_last(given),
            Position { line: 0, character: 0 },
        ),
{
    let lines = text::lines_of(content);
    let origin = Position { line: 0, character: 0 };
    vstd::utf8::encode_utf8_valid_utf8(lines[0]);
    vstd::utf8::is_char_boundary_start_end_of_seq(encode_utf8(lines[0]));
    edits_apart_replace_their_ranges(lines, edits::from_last(given), origin);
    assert(text_before(lines, origin) =~= Seq::empty()) by {
        offsets::parts_make_the_text(lines[0], 0);
        assert(encode_utf8(lines[0]).subrange(0, 0) =~= Seq::empty());
        assert(lines.take(0) =~= Seq::empty());
    }
    assert(edits::edited_text(content, given) =~= replaced_from(
        lines,
        edits::from_last(given),
        origin,
    ));
}

/// An edit whose ends are places of the text puts its new text between what stands before its start and
/// what stands behind its end, also where it ends before it starts; on a single line whatever its new text
/// is.
pub proof fn an_edit_puts_its_text_between_its_ends(lines: Seq<Seq<char>>, edit: TextEditView)
    requires
        is_place(lines, edit.range.start),
        is_place(lines, edit.range.end),
        edit.range.start.line <= edit.range.end.line + 1,
        edit.range.start.line == edit.range.end.line || without_returns(edit.new_text),
    ensures
        edits::edit_fits(lines, edit),
        edits::edit_within(lines, edit),
        whole(edits::edited_lines(lines, edit)) == text_before(lines, edit.range.start)
            + edit.new_text + text_behind(lines, edit.range.end),
{
    let start = edit.range.start;
    let end = edit.range.end;
    let s = start.line as int;
    let e = end.line as int;
    let after = edits::edited_lines(lines, edit);
    let first = offsets::head(lines[s], start.character as int);
    let last = offsets::tail(lines[e], end.character as int);
    if s == e {
        lemma_whole_at(after, s);
        assert(after.take(s) =~= lines.take(s));
        assert(after.skip(s + 1) =~= lines.skip(s + 1));
    } else {
        lemma_replacement(first, edit.new_text, last);
        lemma_whole_sum(
            lines.take(s),
            edits::replacement(first, edit.new_text, last),
            lines.skip(e + 1),
        );
    }
    assert(whole(after) =~= text_before(lines, start) + edit.new_text + text_behind(lines, end));
}

/// Edits of parts that do not overlap lie within the text, one after another.
proof fn lemma_apart_within(lines: Seq<Seq<char>>, ordered: Seq<TextEditView>)
    requires
        replace_apart(lines, ordered),
    ensures
        edits::all_within(lines, ordered),
    decreases ordered.len(),
{
    if ordered.len() > 0 {
        let rest = ordered.drop_last();
        let edit = ordered.last();
        let start = edit.range.start;
        let end = edit.range.end;
        lemma_apart_front(lines, ordered);
        lemma_apart_within(lines, rest);
        edits_apart_replace_their_ranges(lines, rest, end);
        assert forall|i: int| 0 <= i < rest.len() implies !edits::precedes(
            (#[trigger] rest[i]).range.start,
            start,
        ) by {
            assert(!edits::precedes(rest[i].range.start, end));
        }
        edits::text_before_edits_stays(lines, rest, end);
        edits::text_before_edits_stays(lines, rest, start);
    }
}

/// Edits of a text whose ranges do not overlap lie within it, so that none of them is refused for lines
/// that are not there.
pub proof fn edits_of_parts_lie_within_the_text(content: Seq<char>, given: Seq<TextEditView>)
    requires
        replace_apart(text::lines_of(content), edits::from_last(given)),
    ensures
        edits::edits_within(content, given),
{
    lemma_apart_within(text::lines_of(content), edits::from_last(given));
}

/// An edit that spans lines puts in the lines of its new text, with line feeds between them and one at the
/// end where the new text has one there, whatever carriage returns it has.
pub proof fn new_lines_are_put_between_the_ends(lines: Seq<Seq<char>>, edit: TextEditView)
    requires
        is_place(lines, edit.range.start),
        is_place(lines, edit.range.end),
        edit.range.start.line <= edit.range.end.line + 1,
        edit.range.start.line != edit.range.end.line,
    ensures
        ({
            let new = whole(text::lines_of(edit.new_text)) + if edit.new_text.len() > 0
                && edit.new_text.last() == '\n' {
                seq!['\n']
            } else {
                Seq::empty()
            };
            whole(edits::edited_lines(lines, edit)) == text_before(lines, edit.range.start) + new
                + text_behind(lines, edit.range.end)
        }),
{
    let start = edit.range.start;
    let end = edit.range.end;
    let s = start.line as int;
    let e = end.line as int;
    let first = offsets::head(lines[s], start.character as int);
    let last = offsets::tail(lines[e], end.character as int);
    let put = edits::inserted_lines(edit.new_text);
    let all = edits::replacement(first, edit.new_text, last);
    let given = text::lines_of(edit.new_text);
    if edit.new_text.len() > 0 && edit.new_text.last() == '\n' {
        text::lemma_lines_of_some(edit.new_text);
        assert(put.drop_last() =~= given);
        assert(whole(put) =~= whole(given) + seq!['\n']);
    } else {
        assert(whole(put) =~= whole(given) + Seq::<char>::empty());
    }
    assert(all.len() > 0 && whole(all) == first + whole(put) + last) by {
        if put.len() == 0 {
            assert(seq![first + last][0] == first + last);
            assert(first + whole(put) + last =~= first + last);
        } else {
            let n = put.len() - 1;
            let begun_lines = put.update(0, first + put[0]);
            lemma_whole_at(put, 0);
            lemma_whole_at(begun_lines, 0);
            assert(put.take(0) =~= begun_lines.take(0));
            assert(put.skip(1) =~= begun_lines.skip(1));
            assert(put.take(0) =~= Seq::empty());
            assert(whole(begun_lines) =~= first + whole(put));
            lemma_whole_at(begun_lines, n);
            lemma_whole_at(all, n);
            assert(all.take(n) =~= begun_lines.take(n));
            assert(all.skip(n + 1) =~= Seq::empty());
            assert(begun_lines.skip(n + 1) =~= Seq::empty());
            assert(whole(all) =~= first + whole(put) + last);
        }
    }
    lemma_whole_sum(lines.take(s), all, lines.skip(e + 1));
    assert(whole(edits::edited_lines(lines, edit)) =~= text_before(lines, start) + whole(put)
        + text_behind(lines, end));
}

} // verus!
