//! The conversation with a language server: messages, and which answer belongs to which request.
use crate::changes;
use crate::errors;
use crate::json;
use crate::json::{Json, JsonView};
use crate::protocol;
use crate::protocol::{LspRequest, LspRequestView};
use crate::text;
use crate::text::{decimal_text, parse_usize, same_text, strip_prefix, trim};
use vstd::prelude::*;
use vstd::utf8::encode_utf8;

verus! {

/// A client of a language server: the number of its last request, the requests that wait for an
/// answer, and the documents that it has opened.
#[derive(Debug)]
pub struct LspClient {
    request_id: i32,
    pending: Vec<i32>,
    opened: Vec<String>,
}

#[verifier::ext_equal]
pub struct LspClientView {
    pub request_id: int,
    pub pending: Set<int>,
    pub opened: Set<Seq<char>>,
}

impl View for LspClient {
    type V = LspClientView;

    closed spec fn view(&self) -> LspClientView {
        LspClientView {
            request_id: self.request_id as int,
            pending: Set::new(
                |id: int| exists|i: int| 0 <= i < self.pending@.len() && #[trigger] self.pending@[i] == id,
            ),
            opened: Set::new(|uri: Seq<char>| self.opened.deep_view().contains(uri)),
        }
    }
}

/// What a message from the server is for.
#[derive(Debug)]
pub enum Incoming {
    /// The answer to a request: its result, or what went wrong.
    Reply { id: i32, result: Result<Json, String> },
    /// What the server says on its own account.
    Notification(Json),
    /// An answer that nobody waits for.
    Ignored,
}

#[verifier::ext_equal]
pub enum IncomingView {
    Reply { id: int, result: Result<JsonView, Seq<char>> },
    Notification(JsonView),
    Ignored,
}

impl View for Incoming {
    type V = IncomingView;

    open spec fn view(&self) -> IncomingView {
        match *self {
            Incoming::Reply { id, result } => IncomingView::Reply {
                id: id as int,
                result: match result {
                    Ok(value) => Ok(value@),
                    Err(message) => Err(message@),
                },
            },
            Incoming::Notification(message) => IncomingView::Notification(message@),
            Incoming::Ignored => IncomingView::Ignored,
        }
    }
}

/// A message without a number.
pub open spec fn notification_message(request: LspRequestView) -> JsonView {
    JsonView::Object(
        map![
            "jsonrpc"@ => JsonView::Text("2.0"@),
            "method"@ => JsonView::Text(request.method),
            "params"@ => request.params,
        ],
    )
}

/// A message with a number, by which its answer is known.
pub open spec fn request_message(request: LspRequestView, id: int) -> JsonView {
    json::json_with_member(notification_message(request), "id"@, protocol::integer_value(id))
}

/// A body with the header that says how many bytes it has.
pub open spec fn framed(body: Seq<char>) -> Seq<char> {
    "Content-Length: "@ + text::decimal(encode_utf8(body).len()) + "\r\n\r\n"@ + body
}

/// What goes to the server for a message.
pub open spec fn wire_text(message: JsonView) -> Seq<char> {
    framed(json::rendered_json(message))
}

/// Whether a message is read back from its text, where that can be read.
pub open spec fn comes_back(message: JsonView) -> bool {
    json::is_readable(message) ==> json::reads_back(message)
}

/// The request that a message answers: the one that it gives the number of, while that waits.
pub open spec fn answered_request(client: LspClientView, message: JsonView) -> Option<int> {
    match json::json_member(message, "id"@) {
        Some(JsonView::Number(json::NumberView::Integer(id))) => if client.pending.contains(id) {
            Some(id)
        } else {
            None
        },
        _ => None,
    }
}

/// What an answer says: its error where it has one, else its result, which may be missing.
pub open spec fn answer_of(message: JsonView) -> Result<JsonView, Seq<char>> {
    match json::json_member(message, "error"@) {
        Some(error) => Err("LSP error: "@ + json::rendered_json(error)),
        None => match json::json_member(message, "result"@) {
            Some(result) => Ok(result),
            None => Ok(JsonView::Null),
        },
    }
}

/// What a message from the server is for.
pub open spec fn incoming_of(client: LspClientView, message: JsonView) -> IncomingView {
    if json::json_member(message, "id"@) is None {
        IncomingView::Notification(message)
    } else {
        match answered_request(client, message) {
            Some(id) => IncomingView::Reply { id, result: answer_of(message) },
            None => IncomingView::Ignored,
        }
    }
}

/// The client after a message from the server: a request that was answered waits no longer.
pub open spec fn client_after(client: LspClientView, message: JsonView) -> LspClientView {
    match answered_request(client, message) {
        Some(id) => LspClientView { pending: client.pending.remove(id), ..client },
        None => client,
    }
}

/// The client after one request more.
pub open spec fn client_asking(client: LspClientView) -> LspClientView {
    LspClientView {
        request_id: client.request_id + 1,
        pending: client.pending.insert(client.request_id + 1),
        ..client
    }
}

fn frame(body: &str) -> (content: String)
    ensures
        content@ == framed(body@),
{
    let mut content = "Content-Length: ".to_owned();
    let length = decimal_text(body.as_bytes().len() as u64);
    content.append(length.as_str());
    content.append("\r\n\r\n");
    content.append(body);
    content
}

fn message_of(request: &LspRequest) -> (message: Json)
    ensures
        message@ == notification_message(request@),
{
    let mut message = Json::object();
    message.set("jsonrpc", Json::text("2.0"));
    message.set("method", Json::text(request.method.as_str()));
    message.set("params", request.params.copy());
    message
}

fn answer(message: &Json) -> (result: Result<Json, String>)
    ensures
        match result {
            Ok(value) => answer_of(message@) == Ok::<JsonView, Seq<char>>(value@),
            Err(error) => answer_of(message@) == Err::<JsonView, Seq<char>>(error@),
        },
{
    match message.get("error") {
        Some(error) => {
            let mut text = "LSP error: ".to_owned();
            text.append(error.render().as_str());
            Err(text)
        },
        None => match message.get("result") {
            Some(result) => Ok(result.copy()),
            None => Ok(Json::Null),
        },
    }
}

impl LspClient {
    /// Whether each waiting request was made, and waits once.
    pub closed spec fn wf(&self) -> bool {
        &&& 0 <= self.request_id
        &&& self.pending@.no_duplicates()
        &&& forall|i: int|
            0 <= i < self.pending@.len() ==> 0 < #[trigger] self.pending@[i] <= self.request_id
    }

    /// A client that has said nothing yet.
    pub fn new() -> (client: LspClient)
        ensures
            client.wf(),
            client@ == (LspClientView {
                request_id: 0,
                pending: Set::empty(),
                opened: Set::empty(),
            }),
    {
        let client = LspClient { request_id: 0, pending: Vec::new(), opened: Vec::new() };
        assert(client@.pending =~= Set::empty());
        assert(client@.opened =~= Set::empty());
        client
    }

    /// Whether there is a number for another request.
    pub fn can_ask(&self) -> (can: bool)
        ensures
            can == (self@.request_id < i32::MAX),
    {
        self.request_id < i32::MAX
    }

    /// Numbers a request, and gives what goes to the server for it.
    pub fn send_request(&mut self, request: &LspRequest) -> (sent: (i32, String))
        requires
            old(self).wf(),
            old(self)@.request_id < i32::MAX,
        ensures
            final(self).wf(),
            final(self)@ == client_asking(old(self)@),
            sent.0 == final(self)@.request_id,
            sent.1@ == wire_text(request_message(request@, sent.0 as int)),
            comes_back(request_message(request@, sent.0 as int)),
    {
        let ghost before = self@;
        let ghost waiting = self.pending@;
        let id: i32 = self.request_id + 1;
        self.request_id = id;
        self.pending.push(id);
        proof {
            assert(self.pending@ == waiting.push(id));
            assert forall|n: int| #[trigger] self@.pending.contains(n) == before.pending.insert(
                id as int,
            ).contains(n) by {
                if before.pending.contains(n) {
                    let i = choose|i: int| 0 <= i < waiting.len() && #[trigger] waiting[i] == n;
                    assert(self.pending@[i] == n);
                }
                if n == id {
                    assert(self.pending@[waiting.len() as int] == n);
                }
                if self@.pending.contains(n) && n != id {
                    let i = choose|i: int|
                        0 <= i < self.pending@.len() && #[trigger] self.pending@[i] == n;
                    assert(waiting[i] == n);
                }
            }
            assert(self@.pending =~= before.pending.insert(id as int));
        }
        let mut message = message_of(request);
        message.set("id", Json::integer(id as u64));
        (id, frame(message.render().as_str()))
    }

    /// What goes to the server for a notification.
    pub fn send_notification(&self, notification: &LspRequest) -> (sent: String)
        ensures
            sent@ == wire_text(notification_message(notification@)),
            comes_back(notification_message(notification@)),
    {
        frame(message_of(notification).render().as_str())
    }

    /// Takes a message from the server.
    pub fn receive(&mut self, message: Json) -> (incoming: Incoming)
        requires
            old(self).wf(),
        ensures
            final(self).wf(),
            final(self)@ == client_after(old(self)@, message@),
            incoming@ == incoming_of(old(self)@, message@),
    {
        let id = match message.get("id") {
            Some(id) => id.as_u64(),
            None => {
                return Incoming::Notification(message);
            },
        };
        match id {
            Some(id) => match self.waiting(id) {
                Some(at) => {
                    let ghost before = self@;
                    let ghost waiting = self.pending@;
                    let number: i32 = self.pending.remove(at);
                    proof {
                        assert(self.pending@ == waiting.remove(at as int));
                        assert forall|n: int| #[trigger]
                            self@.pending.contains(n) == before.pending.remove(
                                number as int,
                            ).contains(n) by {
                            if self@.pending.contains(n) {
                                let i = choose|i: int|
                                    0 <= i < self.pending@.len() && #[trigger] self.pending@[i]
                                        == n;
                                let j = if i < at {
                                    i
                                } else {
                                    i + 1
                                };
                                assert(waiting[j] == n);
                            }
                            if before.pending.contains(n) && n != number {
                                let i = choose|i: int|
                                    0 <= i < waiting.len() && #[trigger] waiting[i] == n;
                                let j = if i < at {
                                    i
                                } else {
                                    i - 1
                                };
                                assert(self.pending@[j] == n);
                            }
                        }
                        assert(self@.pending =~= before.pending.remove(number as int));
                    }
                    Incoming::Reply { id: number, result: answer(&message) }
                },
                None => Incoming::Ignored,
            },
            None => {
                assert(answered_request(self@, message@) is None);
                Incoming::Ignored
            },
        }
    }

    /// Where the request of that number stands among those that wait.
    fn waiting(&self, id: u64) -> (at: Option<usize>)
        requires
            self.wf(),
        ensures
            match at {
                Some(at) => at < self.pending@.len() && self.pending@[at as int] == id
                    && self@.pending.contains(id as int),
                None => !self@.pending.contains(id as int),
            },
    {
        let mut i: usize = 0;
        while i < self.pending.len()
            invariant
                self.wf(),
                i <= self.pending@.len(),
                forall|j: int| 0 <= j < i ==> #[trigger] self.pending@[j] != id,
            decreases self.pending@.len() - i,
        {
            if self.pending[i] as u64 == id {
                assert(self.pending@[i as int] == id);
                return Some(i);
            }
            i += 1;
        }
        None
    }
}

/// A client that has introduced itself, and waits for the answer.
pub open spec fn introduced_client() -> LspClientView {
    client_asking(LspClientView { request_id: 0, pending: Set::empty(), opened: Set::empty() })
}

/// Why a value is no `lsp_types::InitializeResult`, where it is none.
pub uninterp spec fn introduction_failure(result: JsonView) -> Option<Seq<char>>;

/// `serde_json::from_value` for `lsp_types::InitializeResult`: whether the value is one, and the message
/// of the error where it is none, depends on the value alone.
#[verifier::external_body]
fn check_introduction(result: serde_json::Value) -> (failure: Option<String>)
    ensures
        failure.deep_view() == introduction_failure(json::value_contents(result)),
{
    serde_json::from_value::<lsp_types::InitializeResult>(result).err().map(|error| error.to_string())
}

/// What follows the answer to the introduction: the notification that the client is ready, or why
/// there is no client.
pub open spec fn after_introduction(reply: Result<JsonView, Seq<char>>) -> Result<
    LspRequestView,
    Seq<char>,
> {
    match reply {
        Ok(result) => match introduction_failure(result) {
            Some(message) => Err(message),
            None => Ok(protocol::initialized_notification()),
        },
        Err(message) => Err(message),
    }
}

/// The client with a document open.
pub open spec fn client_opening(client: LspClientView, uri: Seq<char>) -> LspClientView {
    LspClientView { opened: client.opened.insert(uri), ..client }
}

/// What is told of a document that is to be open; nothing where it is.
pub open spec fn opening(
    client: LspClientView,
    uri: Seq<char>,
    content: Seq<char>,
) -> Option<JsonView> {
    if client.opened.contains(uri) {
        None
    } else {
        Some(notification_message(protocol::did_open_notification(uri, content)))
    }
}

impl LspClient {
    /// A client, and its first request: it introduces itself, and names the folder that it is about.
    pub fn start(process_id: u32, root_uri: Option<&str>) -> (started: (LspClient, i32, String))
        ensures
            started.0.wf(),
            started.0@ == introduced_client(),
            started.1 == 1,
            started.2@ == wire_text(
                request_message(
                    protocol::initialize_request(
                        process_id,
                        match root_uri {
                            Some(uri) => Some(uri@),
                            None => None,
                        },
                    ),
                    1,
                ),
            ),
    {
        let mut client = LspClient::new();
        let (id, sent) = client.send_request(&LspRequest::initialize(process_id, root_uri));
        (client, id, sent)
    }

    /// Says what follows the answer to the introduction: the notification that the client is ready,
    /// where the server introduced itself in turn. Else there is no client, and why is told.
    pub fn initialized(reply: Result<Json, String>) -> (ready: Result<LspRequest, String>)
        ensures
            match ready {
                Ok(notification) => after_introduction(errors::reply_view(reply)) == Ok::<
                    LspRequestView,
                    Seq<char>,
                >(notification@),
                Err(message) => after_introduction(errors::reply_view(reply)) == Err::<
                    LspRequestView,
                    Seq<char>,
                >(message@),
            },
    {
        match reply {
            Ok(result) => match check_introduction(result.to_value()) {
                Some(message) => Err(message),
                None => Ok(LspRequest::initialized()),
            },
            Err(message) => Err(message),
        }
    }

    /// Opens a document, unless it is open. Gives what goes to the server for it.
    pub fn ensure_file_open(&mut self, uri: &str, content: &str) -> (sent: Option<String>)
        requires
            old(self).wf(),
        ensures
            final(self).wf(),
            final(self)@ == (LspClientView {
                opened: old(self)@.opened.insert(uri@),
                ..old(self)@
            }),
            match sent {
                Some(sent) => !old(self)@.opened.contains(uri@) && sent@ == wire_text(
                    notification_message(protocol::did_open_notification(uri@, content@)),
                ),
                None => old(self)@.opened.contains(uri@),
            },
            final(self)@ == client_opening(old(self)@, uri@),
            match sent {
                Some(sent) => opening(old(self)@, uri@, content@) matches Some(message) && sent@
                    == wire_text(message),
                None => opening(old(self)@, uri@, content@) is None,
            },
    {
        let ghost before = self@;
        let mut i: usize = 0;
        while i < self.opened.len()
            invariant
                i <= self.opened@.len(),
                forall|j: int| 0 <= j < i ==> #[trigger] self.opened@[j]@ != uri@,
                self@ == before,
                self.wf(),
            decreases self.opened@.len() - i,
        {
            if same_text(self.opened[i].as_str(), uri) {
                assert(self.opened.deep_view()[i as int] == uri@);
                assert(self@.opened.insert(uri@) =~= self@.opened);
                return None;
            }
            i += 1;
        }
        assert(!before.opened.contains(uri@));
        let ghost known = self.opened.deep_view();
        self.opened.push(uri.to_owned());
        proof {
            assert(self.opened.deep_view() =~= known.push(uri@));
            assert forall|other: Seq<char>| #[trigger]
                self@.opened.contains(other) == before.opened.insert(uri@).contains(other) by {
                if known.contains(other) {
                    let j = known.index_of(other);
                    assert(self.opened.deep_view()[j] == other);
                }
                if other == uri@ {
                    assert(self.opened.deep_view()[known.len() as int] == other);
                }
            }
            assert(self@.opened =~= before.opened.insert(uri@));
        }
        Some(self.send_notification(&LspRequest::did_open(uri, content)))
    }

    /// The last words to the server: a request to stop its work, and the notice to leave.
    pub fn shutdown(&mut self) -> (sent: (i32, String, String))
        requires
            old(self).wf(),
            old(self)@.request_id < i32::MAX,
        ensures
            final(self).wf(),
            final(self)@ == client_asking(old(self)@),
            sent.0 == final(self)@.request_id,
            sent.1@ == wire_text(request_message(protocol::shutdown_request(), sent.0 as int)),
            sent.2@ == wire_text(notification_message(protocol::exit_notification())),
    {
        let (id, request) = self.send_request(&LspRequest::shutdown());
        let notification = self.send_notification(&LspRequest::exit());
        (id, request, notification)
    }
}

/// Where a message stands after one line of its header.
#[derive(Clone, Copy, Debug, PartialEq, Eq, Structural)]
pub enum HeaderStep {
    /// More lines follow.
    More,
    /// The header is complete: a body of that many bytes follows.
    Body(usize),
    /// There is no message any more.
    End,
    /// The length of the body is no number.
    BadLength,
    /// The header is complete, and gives no length, or zero.
    NoLength,
}

/// The length of the body, as far as it is known, and where the message stands after a line. Before
/// the first line the length is zero, and the last length given counts. An empty line without an end
/// is the end of all input.
pub open spec fn after_line(length: usize, line: Seq<char>) -> (usize, HeaderStep) {
    if line.len() == 0 {
        (length, HeaderStep::End)
    } else if line == "\r\n"@ {
        (
            length,
            if length == 0 {
                HeaderStep::NoLength
            } else {
                HeaderStep::Body(length)
            },
        )
    } else if text::begins_with(line, "Content-Length: "@) {
        match text::parsed_usize(text::trimmed(line.skip("Content-Length: "@.len() as int))) {
            Some(n) => (n, HeaderStep::More),
            None => (length, HeaderStep::BadLength),
        }
    } else {
        (length, HeaderStep::More)
    }
}

/// The length of the body, as far as it is known, after the lines, and where the message stands. The
/// first line after which no more follow decides.
pub open spec fn after_lines(lines: Seq<Seq<char>>) -> (usize, HeaderStep)
    decreases lines.len(),
{
    if lines.len() == 0 {
        (0, HeaderStep::More)
    } else {
        let (length, step) = after_lines(lines.drop_last());
        if step is More {
            after_line(length, lines.last())
        } else {
            (length, step)
        }
    }
}

/// The header of a message while it is read.
#[derive(Debug)]
pub struct Header {
    content_length: usize,
}

impl View for Header {
    type V = usize;

    closed spec fn view(&self) -> usize {
        self.content_length
    }
}

impl Header {
    /// The header of a message of which nothing has been read.
    pub fn new() -> (header: Header)
        ensures
            header@ == 0,
    {
        Header { content_length: 0 }
    }

    /// Takes one line, with its end.
    pub fn read_line(&mut self, line: &str) -> (step: HeaderStep)
        ensures
            (final(self)@, step) == after_line(old(self)@, line@),
    {
        if line.as_bytes().len() == 0 {
            proof {
                vstd::utf8::encode_utf8_decode_utf8(line@);
                assert(encode_utf8(line@) =~= encode_utf8(Seq::<char>::empty()));
                vstd::utf8::encode_utf8_decode_utf8(Seq::<char>::empty());
            }
            return HeaderStep::End;
        }
        assert(line@.len() > 0) by {
            if line@.len() == 0 {
                assert(encode_utf8(line@).len() == 0);
            }
        }
        if same_text(line, "\r\n") {
            if self.content_length == 0 {
                return HeaderStep::NoLength;
            }
            return HeaderStep::Body(self.content_length);
        }
        match strip_prefix(line, "Content-Length: ") {
            Some(rest) => match parse_usize(trim(rest.as_str()).as_str()) {
                Some(n) => {
                    self.content_length = n;
                    HeaderStep::More
                },
                None => HeaderStep::BadLength,
            },
            None => HeaderStep::More,
        }
    }
}

/// Whether every request that waits has a number that was given out.
pub open spec fn numbered(client: LspClientView) -> bool {
    forall|id: int| #[trigger] client.pending.contains(id) ==> 0 < id <= client.request_id
}

impl LspClient {
    /// The requests that wait have numbers that were given out.
    pub proof fn waiting_requests_are_numbered(&self)
        requires
            self.wf(),
        ensures
            numbered(self@),
            0 <= self@.request_id,
    {
    }
}

/// A request has a number that no waiting request has, and answers take no number from a request that
/// waits.
pub proof fn a_new_request_has_a_new_number(client: LspClientView, message: JsonView)
    requires
        numbered(client),
        0 <= client.request_id,
    ensures
        !client.pending.contains(client_asking(client).request_id),
        numbered(client_asking(client)),
        numbered(client_after(client, message)),
{
}

/// An answer reaches the request that it is for, once: another answer to it reaches nobody.
pub proof fn a_request_is_answered_once(
    client: LspClientView,
    first: JsonView,
    second: JsonView,
)
    requires
        answered_request(client, first) is Some,
        json::json_member(second, "id"@) == json::json_member(first, "id"@),
    ensures
        incoming_of(client, first) == (IncomingView::Reply {
            id: answered_request(client, first)->0,
            result: answer_of(first),
        }),
        incoming_of(client_after(client, first), second) == IncomingView::Ignored,
        client_after(client_after(client, first), second) == client_after(client, first),
{
}

/// An answer to one request leaves the others waiting.
pub proof fn an_answer_leaves_other_requests(
    client: LspClientView,
    message: JsonView,
    other: int,
)
    requires
        client.pending.contains(other),
        answered_request(client, message) != Some(other),
    ensures
        client_after(client, message).pending.contains(other),
{
}

/// A client goes on only after a good answer to its introduction: a message with the number of the
/// introduction is its answer, an error in it ends the start with that error, and so does a result
/// that is none; any other result is followed by the notification that the client is ready.
pub proof fn a_good_answer_makes_the_client_ready(message: JsonView)
    requires
        json::json_member(message, "id"@) == Some(protocol::integer_value(1)),
    ensures
        incoming_of(introduced_client(), message) == (IncomingView::Reply {
            id: 1,
            result: answer_of(message),
        }),
        json::json_member(message, "error"@) matches Some(error) ==> after_introduction(
            answer_of(message),
        ) == Err::<LspRequestView, Seq<char>>("LSP error: "@ + json::rendered_json(error)),
        after_introduction(answer_of(message)) is Ok <==> {
            &&& json::json_member(message, "error"@) is None
            &&& introduction_failure(answer_of(message)->Ok_0) is None
        },
        after_introduction(answer_of(message)) matches Ok(notification) ==> notification
            == protocol::initialized_notification(),
        answer_of(message) matches Ok(result) ==> (introduction_failure(result) matches Some(why)
            ==> after_introduction(answer_of(message)) == Err::<LspRequestView, Seq<char>>(why)),
{
    assert(introduced_client().pending.contains(1));
}

/// A message can be read, and so comes back, where the parameters in it can be read and leave one
/// level for the message itself.
pub proof fn a_message_is_readable_by_its_parameters(request: LspRequestView, id: int)
    requires
        json::nested_within(request.params, (json::readable_levels() - 1) as nat),
        json::plain_names(request.params),
    ensures
        json::is_readable(notification_message(request)),
        json::is_readable(request_message(request, id)),
{
    reveal_strlit("jsonrpc");
    reveal_strlit("method");
    reveal_strlit("params");
    reveal_strlit("id");
    json::lemma_plain_name("jsonrpc"@);
    json::lemma_plain_name("method"@);
    json::lemma_plain_name("params"@);
    json::lemma_plain_name("id"@);
    assert("jsonrpc"@.len() != "method"@.len() && "params"@.len() == "method"@.len());
    assert("params"@[0] != "method"@[0]);
    reveal_with_fuel(json::nested_within, 2);
    reveal_with_fuel(json::plain_names, 2);
    assert(json::plain_names(notification_message(request)));
    assert(json::plain_names(request_message(request, id)));
}

/// The first line of a message: it says how many bytes the body has.
pub open spec fn length_line(n: nat) -> Seq<char> {
    "Content-Length: "@ + text::decimal(n) + "\r\n"@
}

/// A message is its two lines and its body, and the lines tell the length of the body.
pub(crate) proof fn lemma_frame_lines(body: Seq<char>)
    requires
        encode_utf8(body).len() <= usize::MAX,
    ensures
        framed(body) == length_line(encode_utf8(body).len()) + "\r\n"@ + body,
        after_line(0, length_line(encode_utf8(body).len())) == (
            encode_utf8(body).len() as usize,
            HeaderStep::More,
        ),
        encode_utf8(body).len() > 0 ==> after_line(encode_utf8(body).len() as usize, "\r\n"@) == (
            encode_utf8(body).len() as usize,
            HeaderStep::Body(encode_utf8(body).len() as usize),
        ),
{
    let n = encode_utf8(body).len();
    let digits = text::decimal(n);
    let first = length_line(n);
    reveal_strlit("\r\n");
    reveal_strlit("\r\n\r\n");
    reveal_strlit("Content-Length: ");
    assert("\r\n\r\n"@ =~= "\r\n"@ + "\r\n"@);
    assert(framed(body) =~= first + "\r\n"@ + body);
    assert(first.take("Content-Length: "@.len() as int) =~= "Content-Length: "@);
    assert(first.skip("Content-Length: "@.len() as int) =~= digits + "\r\n"@);
    assert(first[0] != "\r\n"@[0]);
    text::decimals_are_read_back(n as usize);
    text::lemma_trimmed_line(digits);
    assert("\r\n"@ =~= seq!['\r', '\n']);
}

/// The header of a message says how many bytes its body has, to a reader who takes it line by line.
/// An empty body is the exception: its length counts as none.
pub proof fn a_frame_tells_its_length(body: Seq<char>)
    requires
        encode_utf8(body).len() <= usize::MAX,
    ensures
        ({
            let n = encode_utf8(body).len();
            &&& framed(body) == length_line(n) + "\r\n"@ + body
            &&& n > 0 ==> after_lines(seq![length_line(n), "\r\n"@]) == (
                n as usize,
                HeaderStep::Body(n as usize),
            )
        }),
{
    let n = encode_utf8(body).len();
    lemma_frame_lines(body);
    if n > 0 {
        let lines = seq![length_line(n), "\r\n"@];
        assert(lines.drop_last() =~= seq![length_line(n)]);
        assert(seq![length_line(n)].drop_last() =~= Seq::empty());
        assert(after_lines(Seq::<Seq<char>>::empty()) == (0usize, HeaderStep::More));
        assert(after_lines(seq![length_line(n)]) == (n as usize, HeaderStep::More));
    }
}

/// A message says which version of the protocol it speaks, which method it is for, and with which
/// parameters. One that wants an answer gives its number besides, and one that wants none gives none.
pub proof fn a_message_says_what_is_asked(request: LspRequestView, id: int)
    ensures
        changes::gives_text(notification_message(request), "jsonrpc"@, "2.0"@),
        changes::gives_text(notification_message(request), "method"@, request.method),
        json::json_member(notification_message(request), "params"@) == Some(request.params),
        json::json_member(notification_message(request), "id"@) is None,
        changes::gives_text(request_message(request, id), "jsonrpc"@, "2.0"@),
        changes::gives_text(request_message(request, id), "method"@, request.method),
        json::json_member(request_message(request, id), "params"@) == Some(request.params),
        json::json_member(request_message(request, id), "id"@) == Some(
            JsonView::Number(json::NumberView::Integer(id)),
        ),
{
    reveal_strlit("jsonrpc");
    reveal_strlit("method");
    reveal_strlit("params");
    reveal_strlit("id");
    assert("jsonrpc"@.len() == 7 && "method"@.len() == 6 && "params"@.len() == 6 && "id"@.len()
        == 2);
    assert("params"@[0] != "method"@[0]);
}

/// An answer with an error says the error, whatever else is in it. One without says its result, and one
/// with neither says nothing.
pub proof fn an_answer_says_its_error_or_its_result(
    members: Map<Seq<char>, JsonView>,
    error: JsonView,
    result: JsonView,
)
    ensures
        answer_of(JsonView::Object(members.insert("error"@, error))) == Err::<JsonView, Seq<char>>(
            "LSP error: "@ + json::rendered_json(error),
        ),
        !members.dom().contains("error"@) ==> answer_of(
            JsonView::Object(members.insert("result"@, result)),
        ) == Ok::<JsonView, Seq<char>>(result),
        !members.dom().contains("error"@) && !members.dom().contains("result"@) ==> answer_of(
            JsonView::Object(members),
        ) == Ok::<JsonView, Seq<char>>(JsonView::Null),
{
    reveal_strlit("error");
    reveal_strlit("result");
    assert("error"@.len() != "result"@.len());
}

/// Requests are numbered one after another, from one on. The first message with the number of a request
/// is its answer, and it waits no longer; the documents that are open, and the numbers, stay as they are.
pub proof fn a_request_is_answered_by_its_number(client: LspClientView, message: JsonView)
    requires
        json::json_member(message, "id"@) == Some(
            JsonView::Number(json::NumberView::Integer(client.request_id + 1)),
        ),
        !client.pending.contains(client.request_id + 1),
    ensures
        client_asking(client).request_id == client.request_id + 1,
        client_asking(client).opened == client.opened,
        incoming_of(client_asking(client), message) matches IncomingView::Reply { id, result } && id
            == client.request_id + 1 && result == answer_of(message),
        client_after(client_asking(client), message).pending == client.pending,
        client_after(client_asking(client), message).request_id == client.request_id + 1,
        client_after(client_asking(client), message).opened == client.opened,
        introduced_client().request_id == 1,
        introduced_client().pending == set![1int],
        introduced_client().opened == Set::<Seq<char>>::empty(),
{
    assert(client.pending.insert(client.request_id + 1).remove(client.request_id + 1)
        =~= client.pending);
    assert(introduced_client().pending =~= set![1int]);
}

/// A message without a number is told as it is; one whose number no request waits under is told to
/// nobody. Neither changes anything.
pub proof fn only_waiting_requests_are_answered(client: LspClientView, message: JsonView)
    ensures
        json::json_member(message, "id"@) is None ==> incoming_of(client, message)
            == IncomingView::Notification(message) && client_after(client, message) == client,
        (json::json_member(message, "id"@) matches Some(id) && forall|n: int|
            client.pending.contains(n) ==> id != #[trigger] protocol::integer_value(n))
            ==> incoming_of(client, message) == IncomingView::Ignored && client_after(
            client,
            message,
        ) == client,
{
    if let Some(JsonView::Number(json::NumberView::Integer(n))) = json::json_member(
        message,
        "id"@,
    ) {
        assert(protocol::integer_value(n) == JsonView::Number(json::NumberView::Integer(n)));
    }
}

/// A line of a header that gives no length, and does not end it, changes nothing. The last line that gives
/// a length counts, whatever was given before; one that gives no number is an error.
pub proof fn the_last_length_counts(length: usize, n: usize, line: Seq<char>, given: Seq<char>)
    requires
        line.len() > 0,
        line != "\r\n"@,
    ensures
        !text::begins_with(line, "Content-Length: "@) ==> after_line(length, line) == (
            length,
            HeaderStep::More,
        ),
        after_line(length, length_line(n as nat)) == (n, HeaderStep::More),
        text::parsed_usize(text::trimmed(given)) is None ==> after_line(
            length,
            "Content-Length: "@ + given,
        ) == (length, HeaderStep::BadLength),
        after_line(length, Seq::empty()) == (length, HeaderStep::End),
        after_line(0, "\r\n"@) == (0usize, HeaderStep::NoLength),
        length > 0 ==> after_line(length, "\r\n"@) == (length, HeaderStep::Body(length)),
{
    let digits = text::decimal(n as nat);
    let first = length_line(n as nat);
    let bad = "Content-Length: "@ + given;
    reveal_strlit("\r\n");
    reveal_strlit("Content-Length: ");
    assert(first.take("Content-Length: "@.len() as int) =~= "Content-Length: "@);
    assert(first.skip("Content-Length: "@.len() as int) =~= digits + "\r\n"@);
    assert(first[0] != "\r\n"@[0]);
    assert(bad.take("Content-Length: "@.len() as int) =~= "Content-Length: "@);
    assert(bad.skip("Content-Length: "@.len() as int) =~= given);
    assert(bad[0] != "\r\n"@[0]);
    text::decimals_are_read_back(n);
    text::lemma_trimmed_line(digits);
    assert("\r\n"@ =~= seq!['\r', '\n']);
}

/// What comes in is seen as it is.
pub proof fn what_comes_in_is_seen_as_it_is(id: i32, value: Json, message: String)
    ensures
        (Incoming::Reply { id, result: Ok(value) })@ == (IncomingView::Reply {
            id: id as int,
            result: Ok(value@),
        }),
        (Incoming::Reply { id, result: Err(message) })@ == (IncomingView::Reply {
            id: id as int,
            result: Err(message@),
        }),
        Incoming::Notification(value)@ == IncomingView::Notification(value@),
        Incoming::Ignored@ == IncomingView::Ignored,
{
}

/// A document is opened once: the first time its whole text is told, under its URI, and from then on
/// nothing. The requests that wait, and the other documents, do not matter, and stay as they are.
pub proof fn a_document_is_opened_once(
    client: LspClientView,
    uri: Seq<char>,
    other: Seq<char>,
    content: Seq<char>,
    later: Seq<char>,
)
    ensures
        !client.opened.contains(uri) ==> (opening(client, uri, content) matches Some(message)
            && changes::gives_text(message, "method"@, "textDocument/didOpen"@) && (
        json::json_member(message, "params"@) matches Some(params) && protocol::names_document(
            params,
            uri,
        ) && (json::json_member(params, "textDocument"@) matches Some(document)
            && changes::gives_text(document, "text"@, content))) && json::json_member(
            message,
            "id"@,
        ) is None),
        opening(client_opening(client, uri), uri, later) is None,
        other != uri ==> (opening(client_opening(client, uri), other, content) is Some <==> opening(
            client,
            other,
            content,
        ) is Some),
        client_opening(client, uri).request_id == client.request_id,
        client_opening(client, uri).pending == client.pending,
{
    a_message_says_what_is_asked(protocol::did_open_notification(uri, content), 0);
    protocol::a_document_is_opened_with_its_text(uri, content);
}

} // verus!
