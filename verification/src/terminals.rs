//! Shells that commands are run in, and how the end of a command's output is known.
use crate::ids;
use crate::ids::fresh_id;
use crate::text;
use crate::text::{contains, remove_text, trim};
use vstd::prelude::*;
use vstd::utf8::{decode_utf8, encode_utf8, valid_utf8};

verus! {

/// A shell.
#[derive(Debug)]
pub struct Terminal {
    pub id: String,
}

/// What came of starting a shell.
#[derive(Debug)]
pub enum Spawned {
    Ready,
    Failed(String),
    NoStdin,
    NoStdout,
    NoStderr,
}

/// The ids of the shells that a map holds, by the ids that it holds them under.
pub uninterp spec fn held_terminals(
    map: dashmap::DashMap<String, Terminal>,
) -> Map<Seq<char>, Seq<char>>;

/// No shells at all.
pub open spec fn no_terminals() -> Map<Seq<char>, Seq<char>> {
    Map::empty()
}

/// `dashmap::DashMap::new`: the map holds nothing.
#[verifier::external_body]
fn new_terminals() -> (terminals: dashmap::DashMap<String, Terminal>)
    ensures
        held_terminals(terminals) == no_terminals(),
{
    dashmap::DashMap::new()
}

/// `dashmap::DashMap::insert`: the map holds the shell under that id, in place of any other.
#[verifier::external_body]
fn insert_terminal(map: &mut dashmap::DashMap<String, Terminal>, id: String, terminal: Terminal)
    ensures
        held_terminals(*final(map)) == held_terminals(*old(map)).insert(id@, terminal.id@),
{
    map.insert(id, terminal);
}

/// `dashmap::DashMap::get_mut`: lends what the map holds under that id, if it holds anything there.
#[verifier::external_body]
fn has_terminal(map: &mut dashmap::DashMap<String, Terminal>, id: &str) -> (found: bool)
    ensures
        found == held_terminals(*old(map)).dom().contains(id@),
        held_terminals(*final(map)) == held_terminals(*old(map)),
{
    map.get_mut(id).is_some()
}

/// `dashmap::DashMap::remove`: takes what the map holds under that id out of it, if it holds
/// anything there.
#[verifier::external_body]
fn remove_terminal(map: &mut dashmap::DashMap<String, Terminal>, id: &str) -> (found: bool)
    ensures
        found == held_terminals(*old(map)).dom().contains(id@),
        held_terminals(*final(map)) == held_terminals(*old(map)).remove(id@),
{
    map.remove(id).is_some()
}

/// What `String::from_utf8_lossy` makes of bytes that are no UTF-8: a text with replacement
/// characters.
pub uninterp spec fn lossy_text(bytes: Seq<u8>) -> Seq<char>;

/// The text that bytes spell in UTF-8, as far as they do.
pub open spec fn spelled_text(bytes: Seq<u8>) -> Seq<char> {
    if valid_utf8(bytes) {
        decode_utf8(bytes)
    } else {
        lossy_text(bytes)
    }
}

/// `std::str::from_utf8`: the text that the bytes spell, where they are UTF-8.
#[verifier::external_body]
pub(crate) fn utf8_text(bytes: &[u8]) -> (text: Option<String>)
    ensures
        match text {
            Some(text) => valid_utf8(bytes@) && text@ == decode_utf8(bytes@),
            None => !valid_utf8(bytes@),
        },
{
    std::str::from_utf8(bytes).ok().map(|text| text.to_owned())
}

/// `String::from_utf8_lossy`: the text that the bytes spell, where they are UTF-8. Where they are
/// not, the text depends on the bytes alone.
#[verifier::external_body]
fn utf8_text_lossy(bytes: &[u8]) -> (text: String)
    ensures
        valid_utf8(bytes@) ==> text@ == decode_utf8(bytes@),
        !valid_utf8(bytes@) ==> text@ == lossy_text(bytes@),
{
    String::from_utf8_lossy(bytes).into_owned()
}

/// The shells that are running.
pub struct TerminalManager {
    terminals: dashmap::DashMap<String, Terminal>,
}

impl View for TerminalManager {
    type V = Map<Seq<char>, Seq<char>>;

    closed spec fn view(&self) -> Map<Seq<char>, Seq<char>> {
        held_terminals(self.terminals)
    }
}

/// Why a shell could not be started.
pub open spec fn spawn_error(spawned: Spawned) -> Option<Seq<char>> {
    match spawned {
        Spawned::Ready => None,
        Spawned::Failed(error) => Some("Failed to spawn bash: "@ + error@),
        Spawned::NoStdin => Some("No stdin"@),
        Spawned::NoStdout => Some("No stdout"@),
        Spawned::NoStderr => Some("No stderr"@),
    }
}

/// What stands behind the output of a command.
pub open spec fn marker_of(id: Seq<char>) -> Seq<char> {
    "---MARKER-"@ + id + "---"@
}

/// What the shell is given: the command, and then to write the marker to both outputs.
pub open spec fn command_input(command: Seq<char>, marker: Seq<char>) -> Seq<char> {
    command + "; echo "@ + marker + "; echo "@ + marker + " >&2\n"@
}

/// What has been read of an output, and whether all of it has.
#[verifier::ext_equal]
pub struct OutputView {
    pub bytes: Seq<u8>,
    pub done: bool,
}

/// Whether the marker stands in what was read.
pub open spec fn is_marked(bytes: Seq<u8>, marker: Seq<char>) -> bool {
    valid_utf8(bytes) && text::contains_text(decode_utf8(bytes), marker)
}

/// The output after one more read: it is complete where nothing was read, or the marker is there.
pub open spec fn after_read(output: OutputView, read: Seq<u8>, marker: Seq<char>) -> OutputView {
    OutputView {
        bytes: output.bytes + read,
        done: output.done || read.len() == 0 || is_marked(output.bytes + read, marker),
    }
}

/// What a command wrote: the text without the marker, and without white space at its ends.
pub open spec fn output_text(bytes: Seq<u8>, marker: Seq<char>) -> Seq<char> {
    text::trimmed(text::without_text(spelled_text(bytes), marker))
}

/// One of the two outputs of a command while it is read.
#[derive(Debug)]
struct Output {
    bytes: Vec<u8>,
    done: bool,
}

impl View for Output {
    type V = OutputView;

    closed spec fn view(&self) -> OutputView {
        OutputView { bytes: self.bytes@, done: self.done }
    }
}

impl Output {
    fn new() -> (output: Output)
        ensures
            output@ == (OutputView { bytes: Seq::empty(), done: false }),
    {
        Output { bytes: Vec::new(), done: false }
    }

    fn read(&mut self, read: &[u8], marker: &str)
        ensures
            final(self)@ == after_read(old(self)@, read@, marker@),
    {
        if read.len() == 0 {
            self.done = true;
        }
        self.bytes.extend_from_slice(read);
        assert(self.bytes@ =~= old(self)@.bytes + read@);
        if let Some(text) = utf8_text(self.bytes.as_slice()) {
            if contains(text.as_str(), marker) {
                self.done = true;
            }
        }
    }

    fn text(&self, marker: &str) -> (text: String)
        ensures
            text@ == output_text(self@.bytes, marker@),
    {
        let whole = utf8_text_lossy(self.bytes.as_slice());
        let unmarked = remove_text(whole.as_str(), marker);
        trim(unmarked.as_str())
    }
}

/// A command that runs in a shell.
#[derive(Debug)]
pub struct CommandRun {
    input: String,
    marker: String,
    stdout: Output,
    stderr: Output,
}

#[verifier::ext_equal]
pub struct CommandRunView {
    pub input: Seq<char>,
    pub marker: Seq<char>,
    pub stdout: OutputView,
    pub stderr: OutputView,
}

impl View for CommandRun {
    type V = CommandRunView;

    closed spec fn view(&self) -> CommandRunView {
        CommandRunView {
            input: self.input@,
            marker: self.marker@,
            stdout: self.stdout@,
            stderr: self.stderr@,
        }
    }
}

/// The run of a command of which nothing has been read, with a marker of that id.
pub open spec fn new_run(command: Seq<char>, id: Seq<char>) -> CommandRunView {
    CommandRunView {
        input: command_input(command, marker_of(id)),
        marker: marker_of(id),
        stdout: OutputView { bytes: Seq::empty(), done: false },
        stderr: OutputView { bytes: Seq::empty(), done: false },
    }
}

/// What came of a command: nothing while an output is incomplete.
pub open spec fn run_result(run: CommandRunView) -> Option<(Seq<char>, Seq<char>)> {
    if run.stdout.done && run.stderr.done {
        Some(
            (
                output_text(run.stdout.bytes, run.marker),
                output_text(run.stderr.bytes, run.marker),
            ),
        )
    } else {
        None
    }
}

impl CommandRun {
    /// The run of a command, with a marker of that id.
    pub fn new(command: &str, id: &str) -> (run: CommandRun)
        ensures
            run@ == new_run(command@, id@),
    {
        let mut marker = "---MARKER-".to_owned();
        marker.append(id);
        marker.append("---");
        let mut input = command.to_owned();
        input.append("; echo ");
        input.append(marker.as_str());
        input.append("; echo ");
        input.append(marker.as_str());
        input.append(" >&2\n");
        CommandRun { input, marker, stdout: Output::new(), stderr: Output::new() }
    }

    /// What the shell is given.
    pub fn input(&self) -> (input: &str)
        ensures
            input@ == self@.input,
    {
        self.input.as_str()
    }

    /// Whether there is more to read from standard output.
    pub fn wants_stdout(&self) -> (wants: bool)
        ensures
            wants == !self@.stdout.done,
    {
        !self.stdout.done
    }

    /// Whether there is more to read from standard error.
    pub fn wants_stderr(&self) -> (wants: bool)
        ensures
            wants == !self@.stderr.done,
    {
        !self.stderr.done
    }

    /// Takes what was read from standard output; nothing where it has ended.
    pub fn read_stdout(&mut self, read: &[u8])
        ensures
            final(self)@ == (CommandRunView {
                stdout: after_read(old(self)@.stdout, read@, old(self)@.marker),
                ..old(self)@
            }),
    {
        self.stdout.read(read, self.marker.as_str());
    }

    /// Takes what was read from standard error; nothing where it has ended.
    pub fn read_stderr(&mut self, read: &[u8])
        ensures
            final(self)@ == (CommandRunView {
                stderr: after_read(old(self)@.stderr, read@, old(self)@.marker),
                ..old(self)@
            }),
    {
        self.stderr.read(read, self.marker.as_str());
    }

    /// What the command wrote to its two outputs, when both are complete.
    pub fn result(&self) -> (result: Option<(String, String)>)
        ensures
            result.deep_view() == run_result(self@),
    {
        if self.stdout.done && self.stderr.done {
            Some((self.stdout.text(self.marker.as_str()), self.stderr.text(self.marker.as_str())))
        } else {
            None
        }
    }

    /// What is said of a command that neither ends nor writes anything for too long.
    pub fn timed_out() -> (error: String)
        ensures
            error@ == "Command timed out"@,
    {
        "Command timed out".to_owned()
    }
}

impl TerminalManager {
    /// No shells yet.
    pub fn new() -> (manager: TerminalManager)
        ensures
            manager@ == no_terminals(),
    {
        TerminalManager { terminals: new_terminals() }
    }

    /// Keeps a shell that was started, and gives its id; or says why it could not be started.
    pub fn create_terminal(&mut self, spawned: Spawned) -> (id: Result<String, String>)
        ensures
            match id {
                Ok(id) => spawn_error(spawned) is None && ids::is_random_uuid(id@) && final(self)@
                    == old(self)@.insert(id@, id@),
                Err(error) => spawn_error(spawned) == Some(error@) && final(self)@ == old(self)@,
            },
    {
        match spawned {
            Spawned::Ready => {
                let id = fresh_id();
                insert_terminal(&mut self.terminals, id.clone(), Terminal { id: id.clone() });
                Ok(id)
            },
            Spawned::Failed(error) => {
                let mut message = "Failed to spawn bash: ".to_owned();
                message.append(error.as_str());
                Err(message)
            },
            Spawned::NoStdin => Err("No stdin".to_owned()),
            Spawned::NoStdout => Err("No stdout".to_owned()),
            Spawned::NoStderr => Err("No stderr".to_owned()),
        }
    }

    /// Starts a command in a shell. An error where there is no such shell.
    pub fn run_command(&mut self, terminal_id: &str, command: &str) -> (run: Result<
        CommandRun,
        String,
    >)
        ensures
            final(self)@ == old(self)@,
            match run {
                Ok(run) => old(self)@.dom().contains(terminal_id@) && exists|id: Seq<char>|
                    ids::is_random_uuid(id) && run@ == #[trigger] new_run(command@, id),
                Err(error) => !old(self)@.dom().contains(terminal_id@) && error@
                    == "Terminal not found"@,
            },
    {
        if has_terminal(&mut self.terminals, terminal_id) {
            let id = fresh_id();
            let run = CommandRun::new(command, id.as_str());
            assert(run@ == new_run(command@, id@));
            Ok(run)
        } else {
            Err("Terminal not found".to_owned())
        }
    }

    /// Lets a shell go. `false` where there is none.
    pub fn close_terminal(&mut self, terminal_id: &str) -> (closed: bool)
        ensures
            closed == old(self)@.dom().contains(terminal_id@),
            final(self)@ == old(self)@.remove(terminal_id@),
    {
        remove_terminal(&mut self.terminals, terminal_id)
    }
}

/// What a command writes comes back without the marker, and without white space at its ends, as
/// soon as the line with the marker has been read. The marker must not begin in what the command
/// writes itself.
pub proof fn output_comes_back(output: Seq<char>, id: Seq<char>)
    requires
        forall|i: int|
            0 <= i < output.len() ==> !#[trigger] text::occurs_at(
                output + marker_of(id) + seq!['\n'],
                marker_of(id),
                i,
            ),
    ensures
        ({
            let bytes = encode_utf8(output + marker_of(id) + seq!['\n']);
            &&& is_marked(bytes, marker_of(id))
            &&& output_text(bytes, marker_of(id)) == text::trimmed(output)
        }),
{
    let marker = marker_of(id);
    let whole = output + marker + seq!['\n'];
    reveal_strlit("---MARKER-");
    assert(marker.len() > 1);
    vstd::utf8::encode_utf8_valid_utf8(whole);
    vstd::utf8::encode_utf8_decode_utf8(whole);
    assert(whole.subrange(output.len() as int, (output.len() + marker.len()) as int) =~= marker);
    assert(text::occurs_at(whole, marker, output.len() as int));
    assert(whole =~= output + (marker + seq!['\n']));
    text::lemma_without_text_behind(output, marker + seq!['\n'], marker);
    let end = marker + seq!['\n'];
    assert(end.take(marker.len() as int) =~= marker);
    assert(end.skip(marker.len() as int) =~= seq!['\n']);
    assert(text::without_text(seq!['\n'], marker) == seq!['\n']);
    assert(text::without_text(end, marker) == seq!['\n']);
    assert(output + seq!['\n'] =~= output.push('\n'));
    text::lemma_trimmed_line_feed(output);
}

/// What is read of an output is kept in the order in which it came, all of it. An output is complete as
/// soon as nothing more can be read or the marker is there, stays so, and is not before.
pub proof fn an_output_is_kept_as_it_came(
    output: OutputView,
    first: Seq<u8>,
    second: Seq<u8>,
    marker: Seq<char>,
)
    ensures
        after_read(after_read(output, first, marker), second, marker).bytes == output.bytes + first
            + second,
        output.done ==> after_read(output, first, marker).done,
        after_read(output, Seq::empty(), marker).done,
        is_marked(output.bytes + first, marker) ==> after_read(output, first, marker).done,
        !output.done && first.len() > 0 && !is_marked(output.bytes + first, marker) ==> !after_read(
            output,
            first,
            marker,
        ).done,
{
}

/// The shell is given the command as it is, and then to write the marker to its output and to its error
/// output. Different ids have different markers.
pub proof fn the_shell_is_given_the_command_and_the_marker(
    command: Seq<char>,
    id: Seq<char>,
    other: Seq<char>,
)
    ensures
        new_run(command, id).input.take(command.len() as int) == command,
        new_run(command, id).input.skip(command.len() as int) == "; echo ---MARKER-"@ + id
            + "---; echo ---MARKER-"@ + id + "--- >&2\n"@,
        new_run(command, id).marker == "---MARKER-"@ + id + "---"@,
        marker_of(id) == marker_of(other) ==> id == other,
{
    reveal_strlit("; echo ");
    reveal_strlit("---MARKER-");
    reveal_strlit("---");
    reveal_strlit(" >&2\n");
    reveal_strlit("; echo ---MARKER-");
    reveal_strlit("---; echo ---MARKER-");
    reveal_strlit("--- >&2\n");
    let input = new_run(command, id).input;
    assert(input.take(command.len() as int) =~= command);
    assert("; echo ---MARKER-"@ =~= "; echo "@ + "---MARKER-"@);
    assert("---; echo ---MARKER-"@ =~= "---"@ + "; echo "@ + "---MARKER-"@);
    assert("--- >&2\n"@ =~= "---"@ + " >&2\n"@);
    assert(input.skip(command.len() as int) =~= "; echo ---MARKER-"@ + id
        + "---; echo ---MARKER-"@ + id + "--- >&2\n"@);
    if marker_of(id) == marker_of(other) {
        assert(marker_of(id).len() == marker_of(other).len());
        assert(id =~= marker_of(id).subrange(10, (10 + id.len()) as int));
        assert(other =~= marker_of(other).subrange(10, (10 + other.len()) as int));
    }
}

/// A command that wrote one text to its output and another to its error output comes to those two, in
/// that order, however little of them was read at a time before. Nothing is told before both are
/// complete.
pub proof fn each_output_is_told_in_its_place(
    run: CommandRunView,
    command: Seq<char>,
    id: Seq<char>,
    output: Seq<char>,
    errors: Seq<char>,
)
    requires
        run.marker == new_run(command, id).marker,
        run.stdout.done,
        run.stderr.done,
        run.stdout.bytes == encode_utf8(output + marker_of(id) + seq!['\n']),
        run.stderr.bytes == encode_utf8(errors + marker_of(id) + seq!['\n']),
        forall|i: int|
            0 <= i < output.len() ==> !#[trigger] text::occurs_at(
                output + marker_of(id) + seq!['\n'],
                marker_of(id),
                i,
            ),
        forall|i: int|
            0 <= i < errors.len() ==> !#[trigger] text::occurs_at(
                errors + marker_of(id) + seq!['\n'],
                marker_of(id),
                i,
            ),
    ensures
        run_result(run) == Some((text::trimmed(output), text::trimmed(errors))),
        run_result(
            CommandRunView { stdout: OutputView { done: false, ..run.stdout }, ..run },
        ) is None,
        run_result(
            CommandRunView { stderr: OutputView { done: false, ..run.stderr }, ..run },
        ) is None,
        run_result(new_run(command, id)) is None,
        new_run(command, id).stdout.bytes.len() == 0,
        new_run(command, id).stderr.bytes.len() == 0,
{
    output_comes_back(output, id);
    output_comes_back(errors, id);
}

/// A shell that could not be started is told with the reason.
pub proof fn a_failure_is_told_with_its_reason(error: String)
    ensures
        spawn_error(Spawned::Ready) is None,
        spawn_error(Spawned::Failed(error)) == Some("Failed to spawn bash: "@ + error@),
        spawn_error(Spawned::NoStdin) == Some("No stdin"@),
        spawn_error(Spawned::NoStdout) == Some("No stdout"@),
        spawn_error(Spawned::NoStderr) == Some("No stderr"@),
{
}

/// What a command wrote is told as the text that its bytes spell; where they spell none, as what is made of
/// them with replacement characters.
pub proof fn what_is_no_text_is_told_with_replacements(bytes: Seq<u8>, marker: Seq<char>)
    ensures
        valid_utf8(bytes) ==> output_text(bytes, marker) == text::trimmed(
            text::without_text(decode_utf8(bytes), marker),
        ),
        !valid_utf8(bytes) ==> output_text(bytes, marker) == text::trimmed(
            text::without_text(lossy_text(bytes), marker),
        ),
        !valid_utf8(bytes) ==> !is_marked(bytes, marker),
{
}

} // verus!
