//! Diagnostics, with what the text and the symbols of their document say of their places.
use crate::changes;
use crate::handler::MyHandler;
use crate::json;
use crate::json::{Json, JsonView, NumberView};
use crate::models::{Position, Range};
use crate::offsets;
use vstd::prelude::*;
use vstd::utf8::encode_utf8;

verus! {

/// An integer of 32 bits without sign, where the value is one.
pub open spec fn json_u32(value: JsonView) -> Option<u32> {
    match value {
        JsonView::Number(NumberView::Integer(n)) => if 0 <= n <= u32::MAX {
            Some(n as u32)
        } else {
            None
        },
        _ => None,
    }
}

/// The two fields of a record: by their names, or one behind the other.
pub open spec fn json_fields(
    value: JsonView,
    first: Seq<char>,
    second: Seq<char>,
) -> Option<(JsonView, JsonView)> {
    match value {
        JsonView::Object(members) => if members.dom().contains(first) && members.dom().contains(
            second,
        ) {
            Some((members[first], members[second]))
        } else {
            None
        },
        JsonView::Array(items) => if items.len() == 2 {
            Some((items[0], items[1]))
        } else {
            None
        },
        _ => None,
    }
}

/// A position out of JSON, where the value is one.
pub open spec fn json_position(value: JsonView) -> Option<Position> {
    match json_fields(value, "line"@, "character"@) {
        Some((line, character)) => match (json_u32(line), json_u32(character)) {
            (Some(line), Some(character)) => Some(Position { line, character }),
            _ => None,
        },
        None => None,
    }
}

/// A range out of JSON, where the value is one.
pub open spec fn json_range(value: JsonView) -> Option<Range> {
    match json_fields(value, "start"@, "end"@) {
        Some((start, end)) => match (json_position(start), json_position(end)) {
            (Some(start), Some(end)) => Some(Range { start, end }),
            _ => None,
        },
        None => None,
    }
}

/// `serde_json::from_value` for `lsp_types::Range`: the fields of a range and of its positions come
/// by name, among others that do not matter, or one behind the other in an array of two. The numbers
/// are integers of 32 bits without sign. Anything else is no range.
#[verifier::external_body]
fn range_of_value(value: serde_json::Value) -> (range: Option<Range>)
    ensures
        range == json_range(json::value_contents(value)),
{
    let range: lsp_types::Range = serde_json::from_value(value).ok()?;
    Some(Range {
        start: Position { line: range.start.line, character: range.start.character },
        end: Position { line: range.end.line, character: range.end.character },
    })
}

/// The range in a JSON value; the origin where there is none.
pub open spec fn range_or_origin(value: JsonView) -> Range {
    match json_range(value) {
        Some(range) => range,
        None => Range::origin_view(),
    }
}

/// Takes the range out of a JSON value; the origin where there is none.
pub fn range_from(value: &Json) -> (range: Range)
    ensures
        range == range_or_origin(value@),
{
    match range_of_value(value.to_value()) {
        Some(range) => range,
        None => Range::origin(),
    }
}

/// The number of that name on one side of a range; 0 where there is none.
pub open spec fn number_in(range: JsonView, side: Seq<char>, name: Seq<char>) -> usize {
    match json::json_member(range, side) {
        Some(position) => match json::json_member(position, name) {
            Some(number) => match json::json_u64(number) {
                Some(n) => n as usize,
                None => 0,
            },
            None => 0,
        },
        None => 0,
    }
}

/// Whether one range lies in another: no line of it lies outside, and on the lines that both start
/// or end on, no character.
pub open spec fn covers(outer: Range, inner: Range) -> bool {
    &&& outer.start.line <= inner.start.line
    &&& outer.end.line >= inner.end.line
    &&& outer.start.line != inner.start.line || outer.start.character <= inner.start.character
    &&& outer.end.line != inner.end.line || outer.end.character >= inner.end.character
}

/// The name of the first symbol that covers a range.
pub open spec fn covering_symbol(
    doc_symbols: Seq<(Seq<char>, Range)>,
    range: Range,
) -> Option<Seq<char>>
    decreases doc_symbols.len(),
{
    if doc_symbols.len() == 0 {
        None
    } else if covers(doc_symbols.first().1, range) {
        Some(doc_symbols.first().0)
    } else {
        covering_symbol(doc_symbols.drop_first(), range)
    }
}

/// Whether the range, taken by its characters alone, marks a part of a line that it lies in.
pub open spec fn marks_text(range: JsonView, line: Seq<char>) -> bool {
    number_in(range, "start"@, "character"@) < number_in(range, "end"@, "character"@)
        <= encode_utf8(line).len()
}

/// The name of what a diagnostic is about, and where the name comes from: a symbol that covers its
/// range, or else the text that the range marks.
pub open spec fn symbol_name(
    range: JsonView,
    line: Seq<char>,
    doc_symbols: Seq<(Seq<char>, Range)>,
) -> Option<(Seq<char>, Seq<char>)> {
    match covering_symbol(doc_symbols, range_or_origin(range)) {
        Some(name) => Some((name, "semantic"@)),
        None => if marks_text(range, line) {
            Some(
                (
                    offsets::between(
                        line,
                        number_in(range, "start"@, "character"@) as int,
                        number_in(range, "end"@, "character"@) as int,
                    ),
                    "textual"@,
                ),
            )
        } else {
            None
        },
    }
}

/// The diagnostic with the line that its range starts on and the name of what it is about.
pub open spec fn located(
    diagnostic: JsonView,
    range: JsonView,
    lines: Seq<Seq<char>>,
    doc_symbols: Seq<(Seq<char>, Range)>,
) -> JsonView {
    let at = number_in(range, "start"@, "line"@);
    if at < lines.len() {
        let lined = json::json_with_member(
            diagnostic,
            "line_content"@,
            JsonView::Text(lines[at as int]),
        );
        match symbol_name(range, lines[at as int], doc_symbols) {
            Some((name, source)) => json::json_with_member(
                json::json_with_member(lined, "symbol_name"@, JsonView::Text(name)),
                "symbol_name_source"@,
                JsonView::Text(source),
            ),
            None => lined,
        }
    } else {
        diagnostic
    }
}

/// The diagnostic with what is known of its place.
pub open spec fn enriched(
    diagnostic: JsonView,
    lines: Seq<Seq<char>>,
    doc_symbols: Seq<(Seq<char>, Range)>,
    path: Seq<char>,
) -> JsonView {
    json::json_with_member(
        match json::json_member(diagnostic, "range"@) {
            Some(range) => located(diagnostic, range, lines, doc_symbols),
            None => diagnostic,
        },
        "path"@,
        JsonView::Text(path),
    )
}

/// Whether the text that a range marks in a line can be cut out of it.
pub open spec fn cuts_cleanly(
    range: JsonView,
    lines: Seq<Seq<char>>,
    doc_symbols: Seq<(Seq<char>, Range)>,
) -> bool {
    let at = number_in(range, "start"@, "line"@);
    at < lines.len() && covering_symbol(doc_symbols, range_or_origin(range)) is None && marks_text(
        range,
        lines[at as int],
    ) ==> offsets::parts_at(
        lines[at as int],
        number_in(range, "start"@, "character"@) as int,
    ) && offsets::parts_at(lines[at as int], number_in(range, "end"@, "character"@) as int)
}

/// Whether a diagnostic can be enriched: members can be set in it, and the text that its range marks
/// can be cut out.
pub open spec fn enrichable(
    diagnostic: JsonView,
    lines: Seq<Seq<char>>,
    doc_symbols: Seq<(Seq<char>, Range)>,
) -> bool {
    json::takes_members(diagnostic) && match json::json_member(diagnostic, "range"@) {
        Some(range) => cuts_cleanly(range, lines, doc_symbols),
        None => true,
    }
}

fn number_at(range: &Json, side: &str, name: &str) -> (n: usize)
    ensures
        n == number_in(range@, side@, name@),
{
    match range.get(side) {
        Some(position) => match position.get(name) {
            Some(number) => match number.as_u64() {
                Some(n) => n as usize,
                None => 0,
            },
            None => 0,
        },
        None => 0,
    }
}

fn find_covering(doc_symbols: &Vec<(String, Range)>, range: Range) -> (name: Option<String>)
    ensures
        name.deep_view() == covering_symbol(doc_symbols.deep_view(), range),
{
    let ghost symbols = doc_symbols.deep_view();
    let mut i: usize = 0;
    assert(symbols.skip(0) =~= symbols);
    while i < doc_symbols.len()
        invariant
            i <= doc_symbols@.len(),
            symbols == doc_symbols.deep_view(),
            covering_symbol(symbols, range) == covering_symbol(symbols.skip(i as int), range),
        decreases doc_symbols@.len() - i,
    {
        let outer = doc_symbols[i].1;
        assert(symbols.skip(i as int).first() == (doc_symbols@[i as int].0@, outer));
        assert(symbols.skip(i as int).drop_first() =~= symbols.skip(i + 1));
        if outer.start.line <= range.start.line && outer.end.line >= range.end.line && (
        outer.start.line != range.start.line || outer.start.character <= range.start.character) && (
        outer.end.line != range.end.line || outer.end.character >= range.end.character) {
            return Some(doc_symbols[i].0.clone());
        }
        i += 1;
    }
    None
}

/// Whether a diagnostic can be enriched.
pub fn can_enrich(
    diagnostic: &Json,
    lines: &Vec<String>,
    doc_symbols: &Vec<(String, Range)>,
) -> (can: bool)
    ensures
        can == enrichable(diagnostic@, lines.deep_view(), doc_symbols.deep_view()),
{
    match diagnostic {
        Json::Null => {},
        Json::Object(_) => {},
        _ => {
            return false;
        },
    }
    match diagnostic.get("range") {
        Some(range) => {
            let at = number_at(range, "start", "line");
            if at < lines.len() {
                let line = lines[at].as_str();
                let from = number_at(range, "start", "character");
                let to = number_at(range, "end", "character");
                if from < to && to <= line.as_bytes().len() && find_covering(
                    doc_symbols,
                    range_from(range),
                ).is_none() {
                    return line.is_char_boundary(from) && line.is_char_boundary(to);
                }
            }
            true
        },
        None => true,
    }
}

fn enrich(diagnostic: &mut Json, lines: &Vec<String>, doc_symbols: &Vec<(String, Range)>, path: &str)
    requires
        enrichable(old(diagnostic)@, lines.deep_view(), doc_symbols.deep_view()),
    ensures
        final(diagnostic)@ == enriched(
            old(diagnostic)@,
            lines.deep_view(),
            doc_symbols.deep_view(),
            path@,
        ),
{
    let range = match diagnostic.get("range") {
        Some(range) => Some(range.copy()),
        None => None,
    };
    if let Some(range) = range {
        let at = number_at(&range, "start", "line");
        if at < lines.len() {
            let line = lines[at].as_str();
            diagnostic.set("line_content", Json::text(line));
            let from = number_at(&range, "start", "character");
            let to = number_at(&range, "end", "character");
            match find_covering(doc_symbols, range_from(&range)) {
                Some(name) => {
                    diagnostic.set("symbol_name", Json::text(name.as_str()));
                    diagnostic.set("symbol_name_source", Json::text("semantic"));
                },
                None => {
                    if from < to && to <= line.as_bytes().len() {
                        let name = offsets::slice(line, from, to);
                        diagnostic.set("symbol_name", Json::text(name.as_str()));
                        diagnostic.set("symbol_name_source", Json::text("textual"));
                    }
                },
            }
        }
    }
    diagnostic.set("path", Json::text(path));
}

impl MyHandler {
    /// Adds to each diagnostic of a document what is known of its place.
    pub fn enrich_diagnostics(
        diagnostics: &mut Vec<Json>,
        lines: &Vec<String>,
        doc_symbols: &Vec<(String, Range)>,
        path: &str,
    )
        requires
            forall|i: int|
                0 <= i < old(diagnostics)@.len() ==> enrichable(
                    #[trigger] old(diagnostics)@[i]@,
                    lines.deep_view(),
                    doc_symbols.deep_view(),
                ),
        ensures
            final(diagnostics)@.len() == old(diagnostics)@.len(),
            forall|i: int|
                0 <= i < old(diagnostics)@.len() ==> #[trigger] final(diagnostics)@[i]@ == enriched(
                    old(diagnostics)@[i]@,
                    lines.deep_view(),
                    doc_symbols.deep_view(),
                    path@,
                ),
    {
        let ghost before = diagnostics@;
        let mut i: usize = 0;
        while i < diagnostics.len()
            invariant
                i <= diagnostics@.len(),
                diagnostics@.len() == before.len(),
                forall|k: int|
                    0 <= k < before.len() ==> enrichable(
                        #[trigger] before[k]@,
                        lines.deep_view(),
                        doc_symbols.deep_view(),
                    ),
                forall|k: int|
                    0 <= k < i ==> #[trigger] diagnostics@[k]@ == enriched(
                        before[k]@,
                        lines.deep_view(),
                        doc_symbols.deep_view(),
                        path@,
                    ),
                forall|k: int| i <= k < before.len() ==> #[trigger] diagnostics@[k] == before[k],
            decreases diagnostics@.len() - i,
        {
            assert(diagnostics@[i as int] == before[i as int]);
            assert(enrichable(before[i as int]@, lines.deep_view(), doc_symbols.deep_view()));
            enrich(&mut diagnostics[i], lines, doc_symbols, path);
            i += 1;
        }
    }
}

/// Enriching a diagnostic sets members of four names, the path always among them, and leaves all
/// others as they are.
pub proof fn enriching_keeps_the_rest(
    diagnostic: JsonView,
    lines: Seq<Seq<char>>,
    doc_symbols: Seq<(Seq<char>, Range)>,
    path: Seq<char>,
    name: Seq<char>,
)
    requires
        name != "line_content"@,
        name != "symbol_name"@,
        name != "symbol_name_source"@,
        name != "path"@,
        json::takes_members(diagnostic),
    ensures
        json::json_member(enriched(diagnostic, lines, doc_symbols, path), name)
            == json::json_member(diagnostic, name),
        json::json_member(enriched(diagnostic, lines, doc_symbols, path), "path"@) == Some(
            JsonView::Text(path),
        ),
{
}

/// Enriching a diagnostic again, with the same text and symbols, changes nothing.
pub proof fn enriching_again_changes_nothing(
    diagnostic: JsonView,
    lines: Seq<Seq<char>>,
    doc_symbols: Seq<(Seq<char>, Range)>,
    path: Seq<char>,
)
    requires
        json::takes_members(diagnostic),
    ensures
        enriched(enriched(diagnostic, lines, doc_symbols, path), lines, doc_symbols, path)
            == enriched(diagnostic, lines, doc_symbols, path),
{
    let once = enriched(diagnostic, lines, doc_symbols, path);
    reveal_strlit("range");
    reveal_strlit("line_content");
    reveal_strlit("symbol_name");
    reveal_strlit("symbol_name_source");
    reveal_strlit("path");
    assert("range"@[0] != "line_content"@[0]);
    assert("range"@[0] != "symbol_name"@[0]);
    assert("range"@[0] != "symbol_name_source"@[0]);
    assert("range"@[0] != "path"@[0]);
    assert("line_content"@[0] != "path"@[0]);
    assert("symbol_name"@[0] != "path"@[0]);
    assert("symbol_name_source"@[0] != "path"@[0]);
    assert("symbol_name"@[0] != "line_content"@[0]);
    assert("symbol_name"@.len() != "symbol_name_source"@.len());
    enriching_keeps_the_rest(diagnostic, lines, doc_symbols, path, "range"@);
    assert(enriched(once, lines, doc_symbols, path)->Object_0 =~= once->Object_0);
}

/// Whether a position is at another or behind it, in the order of lines and then of characters.
pub open spec fn at_or_behind(a: Position, b: Position) -> bool {
    a.line > b.line || (a.line == b.line && a.character >= b.character)
}

/// Whether every position from the start to the end of a range lies between the ends of another.
pub open spec fn lies_in(inner: Range, outer: Range) -> bool {
    at_or_behind(inner.start, outer.start) && at_or_behind(outer.end, inner.end)
}

/// Whether that symbol is the first of which the range lies in that of the symbol.
pub open spec fn is_first_around(
    doc_symbols: Seq<(Seq<char>, Range)>,
    at: int,
    range: Range,
) -> bool {
    &&& 0 <= at < doc_symbols.len()
    &&& lies_in(range, doc_symbols[at].1)
    &&& forall|i: int| 0 <= i < at ==> !lies_in(range, (#[trigger] doc_symbols[i]).1)
}

/// The symbol that a range is named after is the first one that it lies in, at both ends; there is none
/// where it lies in no symbol.
pub proof fn a_range_is_named_after_the_first_symbol_around(
    doc_symbols: Seq<(Seq<char>, Range)>,
    range: Range,
)
    ensures
        match covering_symbol(doc_symbols, range) {
            Some(name) => exists|at: int| #[trigger]
                is_first_around(doc_symbols, at, range) && doc_symbols[at].0 == name,
            None => forall|i: int|
                0 <= i < doc_symbols.len() ==> !lies_in(range, (#[trigger] doc_symbols[i]).1),
        },
    decreases doc_symbols.len(),
{
    if doc_symbols.len() > 0 {
        let rest = doc_symbols.drop_first();
        if lies_in(range, doc_symbols[0].1) {
            assert(is_first_around(doc_symbols, 0, range));
        } else {
            a_range_is_named_after_the_first_symbol_around(rest, range);
            match covering_symbol(rest, range) {
                Some(name) => {
                    let at = choose|at: int| #[trigger]
                        is_first_around(rest, at, range) && rest[at].0 == name;
                    assert forall|i: int| 0 <= i < at + 1 implies !lies_in(
                        range,
                        (#[trigger] doc_symbols[i]).1,
                    ) by {
                        if i > 0 {
                            assert(rest[i - 1] == doc_symbols[i]);
                        }
                    }
                    assert(is_first_around(doc_symbols, at + 1, range));
                },
                None => {
                    assert forall|i: int| 0 <= i < doc_symbols.len() implies !lies_in(
                        range,
                        (#[trigger] doc_symbols[i]).1,
                    ) by {
                        if i > 0 {
                            assert(rest[i - 1] == doc_symbols[i]);
                        }
                    }
                },
            }
        }
    }
}

/// Whether a value spells a range: where it starts and where it ends.
pub open spec fn spells_range(value: JsonView, range: Range) -> bool {
    value matches JsonView::Object(sides) && sides.dom().contains("start"@) && sides.dom().contains(
        "end"@,
    ) && changes::spells_position(sides["start"@], range.start) && changes::spells_position(
        sides["end"@],
        range.end,
    )
}

proof fn lemma_spelled_range(value: JsonView, range: Range)
    requires
        spells_range(value, range),
    ensures
        range_or_origin(value) == range,
        number_in(value, "start"@, "line"@) == range.start.line,
        number_in(value, "start"@, "character"@) == range.start.character,
        number_in(value, "end"@, "character"@) == range.end.character,
{
}

/// What a diagnostic is told of its place, by the range that it spells: the line that it starts on; the
/// symbol that it lies in, the first of them; else the text that it marks in its line, byte for byte;
/// and the path. A range that starts behind the last line is told of its path alone.
pub proof fn a_diagnostic_is_told_its_place(
    diagnostic: JsonView,
    lines: Seq<Seq<char>>,
    doc_symbols: Seq<(Seq<char>, Range)>,
    path: Seq<char>,
    range: Range,
)
    requires
        diagnostic matches JsonView::Object(members) && members.dom().contains("range"@)
            && spells_range(members["range"@], range),
        enrichable(diagnostic, lines, doc_symbols),
    ensures
        ({
            let told = enriched(diagnostic, lines, doc_symbols, path);
            let line = lines[range.start.line as int];
            let from = range.start.character as int;
            let to = range.end.character as int;
            let around = exists|i: int|
                0 <= i < doc_symbols.len() && lies_in(range, (#[trigger] doc_symbols[i]).1);
            &&& changes::gives_text(told, "path"@, path)
            &&& range.start.line < lines.len() ==> changes::gives_text(told, "line_content"@, line)
            &&& range.start.line < lines.len() && around ==> changes::gives_text(
                told,
                "symbol_name_source"@,
                "semantic"@,
            ) && exists|at: int| #[trigger]
                is_first_around(doc_symbols, at, range) && changes::gives_text(
                    told,
                    "symbol_name"@,
                    doc_symbols[at].0,
                )
            &&& range.start.line < lines.len() && !around && from < to <= encode_utf8(line).len()
                ==> changes::gives_text(told, "symbol_name_source"@, "textual"@)
                && exists|name: Seq<char>| #[trigger]
                changes::gives_text(told, "symbol_name"@, name) && encode_utf8(name) == encode_utf8(
                    line,
                ).subrange(from, to)
            &&& range.start.line >= lines.len() || (!around && !(from < to <= encode_utf8(
                line,
            ).len())) ==> json::json_member(told, "symbol_name"@) == json::json_member(
                diagnostic,
                "symbol_name"@,
            ) && json::json_member(told, "symbol_name_source"@) == json::json_member(
                diagnostic,
                "symbol_name_source"@,
            )
            &&& range.start.line >= lines.len() ==> json::json_member(told, "line_content"@)
                == json::json_member(diagnostic, "line_content"@)
        }),
{
    let spelled = diagnostic->Object_0["range"@];
    let told = enriched(diagnostic, lines, doc_symbols, path);
    let line = lines[range.start.line as int];
    let from = range.start.character as int;
    let to = range.end.character as int;
    reveal_strlit("line_content");
    reveal_strlit("symbol_name");
    reveal_strlit("symbol_name_source");
    reveal_strlit("path");
    assert("line_content"@[0] != "path"@[0]);
    assert("symbol_name"@[0] != "path"@[0]);
    assert("symbol_name_source"@[0] != "path"@[0]);
    assert("symbol_name"@[0] != "line_content"@[0]);
    assert("symbol_name_source"@[0] != "line_content"@[0]);
    assert("symbol_name"@.len() != "symbol_name_source"@.len());
    lemma_spelled_range(spelled, range);
    a_range_is_named_after_the_first_symbol_around(doc_symbols, range);
    if range.start.line < lines.len() {
        match covering_symbol(doc_symbols, range) {
            Some(name) => {
                let at = choose|at: int| #[trigger]
                    is_first_around(doc_symbols, at, range) && doc_symbols[at].0 == name;
                assert(lies_in(range, doc_symbols[at].1));
                assert(changes::gives_text(told, "symbol_name"@, doc_symbols[at].0));
            },
            None => {
                if from < to <= encode_utf8(line).len() {
                    let name = offsets::between(line, from, to);
                    offsets::lemma_between(line, from, to);
                    assert(changes::gives_text(told, "symbol_name"@, name));
                }
            },
        }
    }
}

/// A diagnostic without a range is told its path, and nothing else of it changes.
pub proof fn a_diagnostic_without_a_range_is_told_its_path(
    members: Map<Seq<char>, JsonView>,
    lines: Seq<Seq<char>>,
    doc_symbols: Seq<(Seq<char>, Range)>,
    path: Seq<char>,
    name: Seq<char>,
)
    requires
        !members.dom().contains("range"@),
        name != "path"@,
    ensures
        enrichable(JsonView::Object(members), lines, doc_symbols),
        changes::gives_text(
            enriched(JsonView::Object(members), lines, doc_symbols, path),
            "path"@,
            path,
        ),
        json::json_member(
            enriched(JsonView::Object(members), lines, doc_symbols, path),
            name,
        ) == json::json_member(JsonView::Object(members), name),
{
}

/// A value that spells a range is that range, whether it names its parts or lists them. One that names
/// neither a start nor an end, or is no list or object at all, is the empty range at the start of a text.
pub proof fn a_range_is_taken_as_it_is_spelled(value: JsonView, range: Range)
    ensures
        spells_range(value, range) ==> range_or_origin(value) == range,
        range_or_origin(
            JsonView::Array(
                seq![
                    JsonView::Array(
                        seq![
                            JsonView::Number(NumberView::Integer(range.start.line as int)),
                            JsonView::Number(NumberView::Integer(range.start.character as int)),
                        ],
                    ),
                    JsonView::Array(
                        seq![
                            JsonView::Number(NumberView::Integer(range.end.line as int)),
                            JsonView::Number(NumberView::Integer(range.end.character as int)),
                        ],
                    ),
                ],
            ),
        ) == range,
        !(value is Object) && !(value is Array) ==> range_or_origin(value).start.line == 0
            && range_or_origin(value).start.character == 0 && range_or_origin(value).end.line == 0
            && range_or_origin(value).end.character == 0,
        value is Object && (json::json_member(value, "start"@) is None || json::json_member(
            value,
            "end"@,
        ) is None) ==> range_or_origin(value).start.line == 0 && range_or_origin(
            value,
        ).start.character == 0 && range_or_origin(value).end.line == 0 && range_or_origin(
            value,
        ).end.character == 0,
{
}

/// A number of a range is the one that is spelled on that side under that name; where there is none, it is
/// zero.
pub proof fn a_number_that_is_not_spelled_is_zero(
    range: JsonView,
    side: Seq<char>,
    name: Seq<char>,
    position: JsonView,
    n: u32,
)
    ensures
        json::json_member(range, side) == Some(position) && changes::gives_number(position, name, n)
            ==> number_in(range, side, name) == n,
        json::json_member(range, side) is None ==> number_in(range, side, name) == 0,
        json::json_member(range, side) == Some(position) && json::json_member(position, name) is None
            ==> number_in(range, side, name) == 0,
        json::json_member(range, side) == Some(position) && (json::json_member(
            position,
            name,
        ) matches Some(value) && !(value is Number)) ==> number_in(range, side, name) == 0,
{
}

/// A diagnostic can be told its place unless it takes no members, or the text that its range marks cannot
/// be cut out of its line: where that text would be told, both ends of it must part the line.
pub proof fn a_diagnostic_can_be_told_its_place(
    diagnostic: JsonView,
    lines: Seq<Seq<char>>,
    doc_symbols: Seq<(Seq<char>, Range)>,
    range: Range,
)
    ensures
        (diagnostic matches JsonView::Object(members) && members.dom().contains("range"@)
            && spells_range(members["range"@], range)) ==> (enrichable(
            diagnostic,
            lines,
            doc_symbols,
        ) <==> (range.start.line < lines.len() && !(exists|i: int|
            0 <= i < doc_symbols.len() && lies_in(range, (#[trigger] doc_symbols[i]).1))
            && range.start.character < range.end.character <= encode_utf8(
            lines[range.start.line as int],
        ).len() ==> offsets::parts_at(
            lines[range.start.line as int],
            range.start.character as int,
        ) && offsets::parts_at(lines[range.start.line as int], range.end.character as int))),
        !(diagnostic is Object) && !(diagnostic is Null) ==> !enrichable(
            diagnostic,
            lines,
            doc_symbols,
        ),
{
    if diagnostic matches JsonView::Object(members) && members.dom().contains("range"@)
        && spells_range(members["range"@], range) {
        lemma_spelled_range(diagnostic->Object_0["range"@], range);
        a_range_is_named_after_the_first_symbol_around(doc_symbols, range);
    }
}

} // verus!
