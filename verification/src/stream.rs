//! The messages in what a language server writes.
use crate::json;
use crate::json::{Json, JsonView};
use crate::lsp;
use crate::lsp::{Header, HeaderStep};
use crate::offsets;
use crate::terminals::utf8_text;
use crate::text;
use vstd::prelude::*;
use vstd::slice::slice_subrange;
use vstd::utf8::{decode_utf8, encode_utf8, is_ascii_chars, valid_utf8};

verus! {

/// Why no message can be read.
#[derive(Clone, Copy, Debug, PartialEq, Eq, Structural)]
pub enum ReadFailure {
    /// A line of the header is no UTF-8.
    NotText,
    /// The length of the body is no number.
    BadLength,
    /// The header gives no length, or zero.
    NoLength,
    /// All input ends within the body.
    CutShort,
    /// The body is no JSON.
    NotJson,
}

/// What can be read of the bytes that have come: the next message and how many bytes it took, or that
/// more bytes are needed, that there is no message any more, or what is wrong.
#[derive(Debug)]
pub enum ReadStep {
    Incomplete,
    Message { message: Json, used: usize },
    End,
    Failed(ReadFailure),
}

#[verifier::ext_equal]
pub enum ReadStepView {
    Incomplete,
    Message { message: JsonView, used: int },
    End,
    Failed(ReadFailure),
}

impl View for ReadStep {
    type V = ReadStepView;

    open spec fn view(&self) -> ReadStepView {
        match *self {
            ReadStep::Incomplete => ReadStepView::Incomplete,
            ReadStep::Message { message, used } => ReadStepView::Message {
                message: message@,
                used: used as int,
            },
            ReadStep::End => ReadStepView::End,
            ReadStep::Failed(failure) => ReadStepView::Failed(failure),
        }
    }
}

/// Where the line that begins there ends, behind its line feed. `None` where there is no line feed.
pub open spec fn line_end(bytes: Seq<u8>, at: int) -> Option<int>
    decreases bytes.len() - at,
{
    if at >= bytes.len() {
        None
    } else if bytes[at] == 10 {
        Some(at + 1)
    } else {
        line_end(bytes, at + 1)
    }
}

/// Where the line that begins there ends, if it has ended: where all input has ended, the last line
/// needs no line feed.
pub open spec fn ended_line(bytes: Seq<u8>, at: int, ended: bool) -> Option<int> {
    match line_end(bytes, at) {
        Some(end) => Some(end),
        None => if ended {
            Some(bytes.len() as int)
        } else {
            None
        },
    }
}

/// A line ends behind its start, and within the bytes.
pub proof fn a_line_ends_behind_its_start(bytes: Seq<u8>, at: int)
    ensures
        line_end(bytes, at) matches Some(end) ==> at < end <= bytes.len(),
    decreases bytes.len() - at,
{
    if at < bytes.len() && bytes[at] != 10 {
        a_line_ends_behind_its_start(bytes, at + 1);
    }
}

proof fn lemma_line_end_at(bytes: Seq<u8>, at: int, end: int)
    requires
        at < end <= bytes.len(),
        forall|i: int| at <= i < end - 1 ==> #[trigger] bytes[i] != 10,
        bytes[end - 1] == 10,
    ensures
        line_end(bytes, at) == Some(end),
    decreases end - at,
{
    if at < end - 1 {
        lemma_line_end_at(bytes, at + 1, end);
    }
}

/// What can be read of a message whose body begins there and has that many bytes.
pub open spec fn body_step(bytes: Seq<u8>, at: int, length: int, ended: bool) -> ReadStepView {
    if at + length <= bytes.len() {
        match json::parsed_json(bytes.subrange(at, at + length)) {
            Some(message) => ReadStepView::Message { message, used: at + length },
            None => ReadStepView::Failed(ReadFailure::NotJson),
        }
    } else if ended {
        ReadStepView::Failed(ReadFailure::CutShort)
    } else {
        ReadStepView::Incomplete
    }
}

/// What can be read of a message whose header goes on there, with the length that it has given so far.
pub open spec fn header_step(bytes: Seq<u8>, at: int, length: usize, ended: bool) -> ReadStepView
    decreases bytes.len() - at,
{
    if at >= bytes.len() {
        if ended {
            ReadStepView::End
        } else {
            ReadStepView::Incomplete
        }
    } else {
        match ended_line(bytes, at, ended) {
            None => ReadStepView::Incomplete,
            Some(end) => {
                proof {
                    a_line_ends_behind_its_start(bytes, at);
                }
                let line = bytes.subrange(at, end);
                if !valid_utf8(line) {
                    ReadStepView::Failed(ReadFailure::NotText)
                } else {
                    match lsp::after_line(length, decode_utf8(line)) {
                        (length, HeaderStep::More) => header_step(bytes, end, length, ended),
                        (_, HeaderStep::Body(n)) => body_step(bytes, end, n as int, ended),
                        (_, HeaderStep::End) => ReadStepView::End,
                        (_, HeaderStep::BadLength) => ReadStepView::Failed(ReadFailure::BadLength),
                        (_, HeaderStep::NoLength) => ReadStepView::Failed(ReadFailure::NoLength),
                    }
                }
            },
        }
    }
}

/// What can be read of the bytes that have come, after which there may be more or not.
pub open spec fn read_step(bytes: Seq<u8>, ended: bool) -> ReadStepView {
    header_step(bytes, 0, 0, ended)
}

proof fn lemma_header_goes_forward(bytes: Seq<u8>, at: int, length: usize, ended: bool)
    requires
        0 <= at,
    ensures
        header_step(bytes, at, length, ended) matches ReadStepView::Message { message: _, used } ==> at
            < used <= bytes.len(),
        ended ==> !(header_step(bytes, at, length, ended) is Incomplete),
    decreases bytes.len() - at,
{
    if at < bytes.len() {
        a_line_ends_behind_its_start(bytes, at);
        if let Some(end) = ended_line(bytes, at, ended) {
            let line = bytes.subrange(at, end);
            let (next, step) = lsp::after_line(length, decode_utf8(line));
            if valid_utf8(line) && step is More {
                lemma_header_goes_forward(bytes, end, next, ended);
            }
        }
    }
}

/// A message takes some of the bytes, and no more than there are. Where all input has ended, nothing
/// more is waited for.
pub proof fn reading_goes_forward(bytes: Seq<u8>, ended: bool)
    ensures
        read_step(bytes, ended) matches ReadStepView::Message { message: _, used } ==> 0 < used
            <= bytes.len(),
        ended ==> !(read_step(bytes, ended) is Incomplete),
{
    lemma_header_goes_forward(bytes, 0, 0, ended);
}

fn find_line_end(bytes: &[u8], at: usize) -> (end: Option<usize>)
    requires
        at <= bytes@.len(),
    ensures
        match end {
            Some(end) => line_end(bytes@, at as int) == Some(end as int) && at < end
                <= bytes@.len(),
            None => line_end(bytes@, at as int) is None,
        },
{
    let mut i: usize = at;
    while i < bytes.len()
        invariant
            at <= i <= bytes@.len(),
            line_end(bytes@, at as int) == line_end(bytes@, i as int),
        decreases bytes@.len() - i,
    {
        if bytes[i] == 10 {
            return Some(i + 1);
        }
        i += 1;
    }
    None
}

/// Reads the next message of what has come. The bytes begin where a message does; `ended` says that
/// no more follow.
pub fn read_message(bytes: &[u8], ended: bool) -> (step: ReadStep)
    ensures
        step@ == read_step(bytes@, ended),
{
    let mut header = Header::new();
    let mut at: usize = 0;
    while at < bytes.len()
        invariant
            at <= bytes@.len(),
            header_step(bytes@, at as int, header@, ended) == read_step(bytes@, ended),
        decreases bytes@.len() - at,
    {
        let end: usize = match find_line_end(bytes, at) {
            Some(end) => end,
            None => if ended {
                bytes.len()
            } else {
                return ReadStep::Incomplete;
            },
        };
        let line = match utf8_text(slice_subrange(bytes, at, end)) {
            Some(line) => line,
            None => {
                return ReadStep::Failed(ReadFailure::NotText);
            },
        };
        match header.read_line(line.as_str()) {
            HeaderStep::More => {},
            HeaderStep::Body(length) => {
                if length > bytes.len() - end {
                    return if ended {
                        ReadStep::Failed(ReadFailure::CutShort)
                    } else {
                        ReadStep::Incomplete
                    };
                }
                let used: usize = end + length;
                return match Json::parse(slice_subrange(bytes, end, used)) {
                    Some(message) => ReadStep::Message { message, used },
                    None => ReadStep::Failed(ReadFailure::NotJson),
                };
            },
            HeaderStep::End => {
                return ReadStep::End;
            },
            HeaderStep::BadLength => {
                return ReadStep::Failed(ReadFailure::BadLength);
            },
            HeaderStep::NoLength => {
                return ReadStep::Failed(ReadFailure::NoLength);
            },
        }
        at = end;
    }
    if ended {
        ReadStep::End
    } else {
        ReadStep::Incomplete
    }
}

proof fn lemma_ascii_line(line: Seq<char>)
    requires
        is_ascii_chars(line),
        line.len() > 0,
        line.last() == '\n',
        forall|i: int| 0 <= i < line.len() - 1 ==> #[trigger] line[i] != '\n',
    ensures
        encode_utf8(line).len() == line.len(),
        encode_utf8(line)[line.len() - 1] == 10,
        forall|i: int| 0 <= i < line.len() - 1 ==> #[trigger] encode_utf8(line)[i] != 10,
        valid_utf8(encode_utf8(line)),
        decode_utf8(encode_utf8(line)) == line,
{
    vstd::utf8::is_ascii_chars_encode_utf8(line);
    vstd::utf8::encode_utf8_valid_utf8(line);
    vstd::utf8::encode_utf8_decode_utf8(line);
    assert forall|i: int| 0 <= i < line.len() - 1 implies #[trigger] encode_utf8(line)[i] != 10 by {
        assert(line[i] != '\n');
        assert('\0' <= line[i] <= '\u{7f}');
    }
    assert(line[line.len() - 1] == '\n');
}

proof fn lemma_length_line(n: nat)
    ensures
        is_ascii_chars(lsp::length_line(n)),
        lsp::length_line(n).len() > 0,
        lsp::length_line(n).last() == '\n',
        forall|i: int|
            0 <= i < lsp::length_line(n).len() - 1 ==> #[trigger] lsp::length_line(n)[i] != '\n',
{
    reveal_strlit("Content-Length: ");
    reveal_strlit("\r\n");
    text::lemma_decimal(n);
    let line = lsp::length_line(n);
    let digits = text::decimal(n);
    assert forall|i: int| 0 <= i < line.len() implies '\0' <= #[trigger] line[i] <= '\u{7f}' && (i
        < line.len() - 1 ==> line[i] != '\n') by {
        if 16 <= i < 16 + digits.len() {
            assert(line[i] == digits[i - 16]);
            assert(text::is_digit(digits[i - 16]));
        }
    }
}

/// A message is read back from what goes out for it, and what follows it is left.
pub proof fn a_message_is_read_back(message: JsonView, rest: Seq<u8>, ended: bool)
    requires
        json::reads_back(message),
        encode_utf8(json::rendered_json(message)).len() <= usize::MAX,
    ensures
        read_step(encode_utf8(lsp::wire_text(message)) + rest, ended) == (ReadStepView::Message {
            message,
            used: encode_utf8(lsp::wire_text(message)).len() as int,
        }),
{
    let body = json::rendered_json(message);
    let sent = encode_utf8(body);
    let n = sent.len();
    let first = lsp::length_line(n);
    let second = "\r\n"@;
    let bytes = encode_utf8(lsp::wire_text(message)) + rest;
    lsp::lemma_frame_lines(body);
    assert(n > 0) by {
        vstd::utf8::encode_utf8_decode_utf8(body);
        if n == 0 {
            assert(decode_utf8(sent).len() == 0);
        }
    }
    reveal_strlit("\r\n");
    assert(second =~= seq!['\r', '\n']);
    lemma_length_line(n);
    lemma_ascii_line(first);
    lemma_ascii_line(second);
    offsets::lemma_encode_concat(first + second, body);
    offsets::lemma_encode_concat(first, second);
    assert(bytes =~= encode_utf8(first) + encode_utf8(second) + sent + rest);
    let after_first = first.len() as int;
    let after_second = after_first + 2;
    assert forall|i: int| 0 <= i < after_first - 1 implies #[trigger] bytes[i] != 10 by {
        assert(bytes[i] == encode_utf8(first)[i]);
    }
    assert(bytes[after_first - 1] == encode_utf8(first)[after_first - 1]);
    lemma_line_end_at(bytes, 0, after_first);
    assert(bytes.subrange(0, after_first) =~= encode_utf8(first));
    assert forall|i: int| after_first <= i < after_second - 1 implies #[trigger] bytes[i] != 10 by {
        assert(bytes[i] == encode_utf8(second)[i - after_first]);
    }
    assert(bytes[after_second - 1] == encode_utf8(second)[1]);
    lemma_line_end_at(bytes, after_first, after_second);
    assert(bytes.subrange(after_first, after_second) =~= encode_utf8(second));
    assert(bytes.subrange(after_second, after_second + n) =~= sent);
    assert(header_step(bytes, after_first, n as usize, ended) == body_step(
        bytes,
        after_second,
        n as int,
        ended,
    ));
    assert(read_step(bytes, ended) == header_step(bytes, after_first, n as usize, ended));
}

/// What goes out for messages, one after another.
pub open spec fn wire_bytes(messages: Seq<JsonView>) -> Seq<u8>
    decreases messages.len(),
{
    if messages.len() == 0 {
        Seq::empty()
    } else {
        encode_utf8(lsp::wire_text(messages.first())) + wire_bytes(messages.drop_first())
    }
}

/// The messages that are read of the bytes, one after another, and what comes after the last of them.
pub open spec fn read_all(bytes: Seq<u8>, ended: bool) -> (Seq<JsonView>, ReadStepView)
    decreases bytes.len(),
{
    match read_step(bytes, ended) {
        ReadStepView::Message { message, used } => if 0 < used <= bytes.len() {
            let (messages, last) = read_all(bytes.skip(used), ended);
            (seq![message] + messages, last)
        } else {
            (seq![message], ReadStepView::Incomplete)
        },
        last => (Seq::empty(), last),
    }
}

/// Messages that go out one after another are read back one after another. Behind them there is no
/// message any more where all input has ended, and more is needed for one where it has not.
pub proof fn messages_are_read_back_in_order(messages: Seq<JsonView>, ended: bool)
    requires
        forall|i: int|
            0 <= i < messages.len() ==> json::reads_back(#[trigger] messages[i]) && encode_utf8(
                json::rendered_json(messages[i]),
            ).len() <= usize::MAX,
    ensures
        read_all(wire_bytes(messages), ended) == (
            messages,
            if ended {
                ReadStepView::End
            } else {
                ReadStepView::Incomplete
            },
        ),
    decreases messages.len(),
{
    let bytes = wire_bytes(messages);
    if messages.len() == 0 {
        assert(messages =~= Seq::empty());
    } else {
        let first = messages.first();
        let rest = messages.drop_first();
        let sent = encode_utf8(lsp::wire_text(first));
        assert(messages[0] == first);
        a_message_is_read_back(first, wire_bytes(rest), ended);
        assert forall|i: int| 0 <= i < rest.len() implies json::reads_back(#[trigger] rest[i])
            && encode_utf8(json::rendered_json(rest[i])).len() <= usize::MAX by {
            assert(rest[i] == messages[i + 1]);
        }
        messages_are_read_back_in_order(rest, ended);
        assert(sent.len() > 0) by {
            vstd::utf8::encode_utf8_decode_utf8(lsp::wire_text(first));
            reveal_strlit("Content-Length: ");
            if sent.len() == 0 {
                assert(decode_utf8(sent).len() == 0);
            }
        }
        assert(bytes.skip(sent.len() as int) =~= wire_bytes(rest));
        assert(messages =~= seq![first] + rest);
    }
}

proof fn lemma_no_line_end(bytes: Seq<u8>, at: int)
    requires
        0 <= at,
        forall|i: int| at <= i < bytes.len() ==> #[trigger] bytes[i] != 10,
    ensures
        line_end(bytes, at) is None,
    decreases bytes.len() - at,
{
    if at < bytes.len() {
        lemma_no_line_end(bytes, at + 1);
    }
}

/// What goes out before the body: the line with its length and the empty line.
pub open spec fn header_bytes(length: nat) -> Seq<u8> {
    encode_utf8(lsp::length_line(length) + "\r\n"@)
}

proof fn lemma_header(body: Seq<char>)
    requires
        0 < encode_utf8(body).len() <= usize::MAX,
    ensures
        ({
            let n = encode_utf8(body).len();
            let header = header_bytes(n);
            let first = encode_utf8(lsp::length_line(n));
            &&& encode_utf8(lsp::framed(body)) == header + encode_utf8(body)
            &&& header == first + seq![13u8, 10u8]
            &&& first.len() > 0
            &&& first.last() == 10
            &&& forall|i: int| 0 <= i < first.len() - 1 ==> #[trigger] first[i] != 10
            &&& valid_utf8(first)
            &&& decode_utf8(first) == lsp::length_line(n)
        }),
{
    let n = encode_utf8(body).len();
    let first = lsp::length_line(n);
    let second = "\r\n"@;
    lsp::lemma_frame_lines(body);
    reveal_strlit("\r\n");
    assert(second =~= seq!['\r', '\n']);
    lemma_length_line(n);
    lemma_ascii_line(first);
    lemma_ascii_line(second);
    vstd::utf8::is_ascii_chars_encode_utf8(second);
    assert(encode_utf8(second) =~= seq![13u8, 10u8]);
    offsets::lemma_encode_concat(first + second, body);
    offsets::lemma_encode_concat(first, second);
}

/// Behind the header of a message, whatever has come of it is taken for its body.
proof fn lemma_behind_header(body: Seq<char>, bytes: Seq<u8>, ended: bool)
    requires
        0 < encode_utf8(body).len() <= usize::MAX,
        header_bytes(encode_utf8(body).len()).len() <= bytes.len(),
        bytes.take(header_bytes(encode_utf8(body).len()).len() as int) == header_bytes(
            encode_utf8(body).len(),
        ),
    ensures
        read_step(bytes, ended) == body_step(
            bytes,
            header_bytes(encode_utf8(body).len()).len() as int,
            encode_utf8(body).len() as int,
            ended,
        ),
{
    let n = encode_utf8(body).len();
    let header = header_bytes(n);
    let first = encode_utf8(lsp::length_line(n));
    lemma_header(body);
    lsp::lemma_frame_lines(body);
    let after_first = first.len() as int;
    let after_second = after_first + 2;
    assert forall|i: int| 0 <= i < after_first - 1 implies #[trigger] bytes[i] != 10 by {
        assert(bytes[i] == bytes.take(header.len() as int)[i]);
        assert(header[i] == first[i]);
    }
    assert(bytes[after_first - 1] == bytes.take(header.len() as int)[after_first - 1]);
    assert(header[after_first - 1] == first[after_first - 1]);
    lemma_line_end_at(bytes, 0, after_first);
    assert(bytes.subrange(0, after_first) =~= first) by {
        assert forall|i: int| 0 <= i < after_first implies bytes[i] == first[i] by {
            assert(bytes[i] == bytes.take(header.len() as int)[i]);
        }
    }
    assert(bytes[after_first] == bytes.take(header.len() as int)[after_first]);
    assert(bytes[after_first + 1] == bytes.take(header.len() as int)[after_first + 1]);
    lemma_line_end_at(bytes, after_first, after_second);
    reveal_strlit("\r\n");
    let second = "\r\n"@;
    assert(second =~= seq!['\r', '\n']);
    lemma_ascii_line(second);
    vstd::utf8::is_ascii_chars_encode_utf8(second);
    assert(encode_utf8(second) =~= seq![13u8, 10u8]);
    assert(bytes.subrange(after_first, after_second) =~= encode_utf8(second));
    assert(header_step(bytes, after_first, n as usize, ended) == body_step(
        bytes,
        after_second,
        n as int,
        ended,
    ));
    assert(read_step(bytes, ended) == header_step(bytes, after_first, n as usize, ended));
}

/// A part of what goes out for a message is no message: more is waited for while more may come, wherever
/// the part ends. Where no more comes within the body, it is cut short.
pub proof fn a_part_of_a_message_is_no_message(body: Seq<char>, k: int)
    requires
        0 < encode_utf8(body).len() <= usize::MAX,
        0 <= k < encode_utf8(lsp::framed(body)).len(),
    ensures
        read_step(encode_utf8(lsp::framed(body)).take(k), false) == ReadStepView::Incomplete,
        k >= header_bytes(encode_utf8(body).len()).len() ==> read_step(
            encode_utf8(lsp::framed(body)).take(k),
            true,
        ) == ReadStepView::Failed(ReadFailure::CutShort),
        read_step(Seq::empty(), true) == ReadStepView::End,
{
    let n = encode_utf8(body).len();
    let sent = encode_utf8(lsp::framed(body));
    let header = header_bytes(n);
    let first = encode_utf8(lsp::length_line(n));
    let bytes = sent.take(k);
    let after_first = first.len() as int;
    lemma_header(body);
    lsp::lemma_frame_lines(body);
    if k >= header.len() {
        assert(bytes.take(header.len() as int) =~= header);
        lemma_behind_header(body, bytes, false);
        lemma_behind_header(body, bytes, true);
    } else if k < after_first {
        assert forall|i: int| 0 <= i < bytes.len() implies #[trigger] bytes[i] != 10 by {
            assert(bytes[i] == first[i]);
        }
        lemma_no_line_end(bytes, 0);
    } else {
        assert forall|i: int| 0 <= i < after_first implies bytes[i] == #[trigger] first[i] by {
            assert(bytes[i] == header[i]);
        }
        assert(bytes[after_first - 1] == first[after_first - 1]);
        assert forall|i: int| 0 <= i < after_first - 1 implies #[trigger] bytes[i] != 10 by {
            assert(bytes[i] == first[i]);
        }
        lemma_line_end_at(bytes, 0, after_first);
        assert(bytes.subrange(0, after_first) =~= first);
        assert forall|i: int| after_first <= i < bytes.len() implies #[trigger] bytes[i] != 10 by {
            assert(bytes[i] == header[i]);
        }
        lemma_no_line_end(bytes, after_first);
        assert(header_step(bytes, after_first, n as usize, false) == ReadStepView::Incomplete);
    }
}

/// A body that is no JSON is refused, whatever follows it.
pub proof fn a_body_that_is_no_json_is_refused(body: Seq<char>, rest: Seq<u8>, ended: bool)
    requires
        0 < encode_utf8(body).len() <= usize::MAX,
        json::parsed_json(encode_utf8(body)) is None,
    ensures
        read_step(encode_utf8(lsp::framed(body)) + rest, ended) == ReadStepView::Failed(
            ReadFailure::NotJson,
        ),
{
    let n = encode_utf8(body).len();
    let header = header_bytes(n);
    let bytes = encode_utf8(lsp::framed(body)) + rest;
    lemma_header(body);
    assert(bytes.take(header.len() as int) =~= header);
    lemma_behind_header(body, bytes, ended);
    assert(bytes.subrange(header.len() as int, (header.len() + n) as int) =~= encode_utf8(body));
}

/// What is read is seen as it is.
pub proof fn what_is_read_is_seen_as_it_is(message: Json, used: usize, failure: ReadFailure)
    ensures
        ReadStep::Incomplete@ == ReadStepView::Incomplete,
        (ReadStep::Message { message, used })@ == (ReadStepView::Message {
            message: message@,
            used: used as int,
        }),
        ReadStep::End@ == ReadStepView::End,
        ReadStep::Failed(failure)@ == ReadStepView::Failed(failure),
{
}

/// A header that gives no number as the length is refused for that, one that ends without a length for
/// that, and one that is no text for that, whatever follows.
pub proof fn a_bad_header_is_refused(
    line: Seq<char>,
    rest: Seq<u8>,
    bytes: Seq<u8>,
    end: int,
    ended: bool,
)
    requires
        is_ascii_chars(line),
        line.len() > 0,
        line.last() == '\n',
        forall|i: int| 0 <= i < line.len() - 1 ==> #[trigger] line[i] != '\n',
        0 < end <= bytes.len(),
        bytes[end - 1] == 10,
        forall|i: int| 0 <= i < end - 1 ==> #[trigger] bytes[i] != 10,
    ensures
        text::begins_with(line, "Content-Length: "@) && text::parsed_usize(
            text::trimmed(line.skip("Content-Length: "@.len() as int)),
        ) is None ==> read_step(encode_utf8(line) + rest, ended) == ReadStepView::Failed(
            ReadFailure::BadLength,
        ),
        line == "\r\n"@ ==> read_step(encode_utf8(line) + rest, ended) == ReadStepView::Failed(
            ReadFailure::NoLength,
        ),
        !valid_utf8(bytes.subrange(0, end)) ==> read_step(bytes, ended) == ReadStepView::Failed(
            ReadFailure::NotText,
        ),
{
    let all = encode_utf8(line) + rest;
    let n = line.len() as int;
    lemma_ascii_line(line);
    assert forall|i: int| 0 <= i < n - 1 implies #[trigger] all[i] != 10 by {
        assert(all[i] == encode_utf8(line)[i]);
    }
    assert(all[n - 1] == encode_utf8(line)[n - 1]);
    lemma_line_end_at(all, 0, n);
    assert(all.subrange(0, n) =~= encode_utf8(line));
    lemma_line_end_at(bytes, 0, end);
    reveal_strlit("\r\n");
    reveal_strlit("Content-Length: ");
    assert("Content-Length: "@[0] != "\r\n"@[0]);
    if text::begins_with(line, "Content-Length: "@) {
        assert(line[0] == line.take("Content-Length: "@.len() as int)[0]);
    }
}

} // verus!
