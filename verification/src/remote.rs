//! The terminal's side of a pane that lives in a daemon: attaching to it here
//! or through ssh, reading its frames as they come, and writing to it.
use crate::attach::{decode_error_message, decode_exit_status, error_message_of, exit_status_of};
use crate::cli::{sanitize, sanitized, PaneFacts};
use crate::json::{
    bool_field, elements, entries_json, entry_json, fault_of, handshake_json, hello_json, int_field,
    json_bool_field, json_elements, json_fault, json_int_field, json_string_field, list_json,
    string_field,
};
use crate::launch::copy_texts;
use crate::pane::{is_valid_pane_id, opt_text, texts, valid_pane_id, PaneMeta};
use crate::protocol::{
    chunked, encode_client_hello, encode_resize, frame_bytes, front, is_type_byte, le16, le32,
    le32_at, read_u32, server_hello_of, type_byte, write_chunked, write_frame, Decoder, FrameType,
    Front, ProtocolError, ServerHello, ServerHelloView, HEADER_LEN, MAX_PAYLOAD, PROTOCOL_VERSION,
    SHELL_EXITED,
};
use crate::text::{chars_of, hex_byte, number_text, push_number, same_text, signed_text};
use crate::words::{trim_text, trimmed_text};
use vstd::prelude::*;
use vstd::string::StringExecFns;

verus! {

/// How much of a control payload is read at once.
pub const CONTROL_CHUNK: usize = 256;

/// Whether the shell of a pane runs.
#[derive(Clone, Copy, Debug, PartialEq, Eq, Structural)]
pub enum ShellState {
    Running,
    Exited,
}

/// What a daemon said of its pane.
#[derive(Clone, Debug)]
pub struct HelloInfo {
    pub daemon_pid: u32,
    pub shell_pid: u32,
    pub shell_state: ShellState,
    pub exit_status: i32,
    /// The directory the shell is in, kept for when its daemon is gone.
    pub cwd: Option<String>,
}

/// The mathematical value of a [`HelloInfo`].
pub struct HelloInfoView {
    pub daemon_pid: u32,
    pub shell_pid: u32,
    pub shell_state: ShellState,
    pub exit_status: i32,
    pub cwd: Option<Seq<char>>,
}

impl View for HelloInfo {
    type V = HelloInfoView;

    open spec fn view(&self) -> HelloInfoView {
        HelloInfoView {
            daemon_pid: self.daemon_pid,
            shell_pid: self.shell_pid,
            shell_state: self.shell_state,
            exit_status: self.exit_status,
            cwd: opt_text(self.cwd),
        }
    }
}

/// Why a pane could not be attached to.
#[derive(Clone, Debug)]
pub enum AttachError {
    ShellExited(i32),
    Io(String),
}

/// The mathematical value of an [`AttachError`].
pub enum AttachErrorView {
    ShellExited(i32),
    Io(Seq<char>),
}

impl View for AttachError {
    type V = AttachErrorView;

    open spec fn view(&self) -> AttachErrorView {
        match self {
            AttachError::ShellExited(code) => AttachErrorView::ShellExited(*code),
            AttachError::Io(text) => AttachErrorView::Io(text@),
        }
    }
}

impl AttachError {
    /// The error in words.
    pub fn message(&self) -> (text: String)
        ensures
            text@ == match self@ {
                AttachErrorView::ShellExited(code) => "shell already exited with status "@
                    + signed_text(code as int),
                AttachErrorView::Io(message) => message,
            },
    {
        match self {
            AttachError::ShellExited(code) => {
                let mut text: String = "shell already exited with status ".to_owned();
                text.append(crate::text::signed_to_text(*code).as_str());
                text
            },
            AttachError::Io(message) => message.clone(),
        }
    }
}

// ---------------------------------------------------------------------------
// Destinations and command lines.

/// The characters of a destination: those of user and host names, addresses,
/// ports and scopes.
pub open spec fn is_dest_char(c: char) -> bool {
    ('a' <= c <= 'z') || ('A' <= c <= 'Z') || ('0' <= c <= '9') || c == '.' || c == '-' || c == '_'
        || c == '@' || c == ':' || c == '[' || c == ']' || c == '%'
}

/// Whether a destination can be handed to ssh.
pub open spec fn safe_dest(dest: Seq<char>) -> bool {
    dest.len() > 0 && dest[0] != '-' && forall|i: int|
        0 <= i < dest.len() ==> is_dest_char(#[trigger] dest[i])
}

/// Whether a destination can be handed to ssh as an argument: it is no option,
/// and holds nothing that a shell would take apart.
pub fn is_safe_ssh_dest(dest: &str) -> (safe: bool)
    ensures
        safe == safe_dest(dest@),
{
    let chars = chars_of(dest);
    if chars.len() == 0 || chars[0] == '-' {
        return false;
    }
    let mut i: usize = 0;
    while i < chars.len()
        invariant
            i <= chars@.len(),
            chars@ == dest@,
            forall|j: int| 0 <= j < i ==> is_dest_char(#[trigger] dest@[j]),
        decreases chars.len() - i,
    {
        let c: char = chars[i];
        let plain = ('a' <= c && c <= 'z') || ('A' <= c && c <= 'Z') || ('0' <= c && c <= '9')
            || c == '.' || c == '-' || c == '_' || c == '@' || c == ':' || c == '[' || c == ']'
            || c == '%';
        if !plain {
            assert(!is_dest_char(dest@[i as int]));
            return false;
        }
        i = i + 1;
    }
    true
}

/// A destination that is accepted holds no blank, quote, separator or other
/// sign that ssh or a shell would read as more than a name, and does not begin
/// as an option.
pub proof fn law_destination_is_one_plain_argument(dest: Seq<char>, i: int)
    requires
        safe_dest(dest),
        0 <= i < dest.len(),
    ensures
        dest[0] != '-',
        dest[i] != ' ' && dest[i] != '\t' && dest[i] != '\n' && dest[i] != '=' && dest[i] != ';'
            && dest[i] != '|' && dest[i] != '&' && dest[i] != '$' && dest[i] != '`' && dest[i] != '('
            && dest[i] != ')' && dest[i] != '<' && dest[i] != '>' && dest[i] != '\'' && dest[i]
            != '"' && dest[i] != '\\' && dest[i] != '/' && dest[i] != '*' && dest[i] != '?'
            && dest[i] != '~' && dest[i] != '#' && dest[i] != '!' && dest[i] != '{' && dest[i]
            != '}',
{
    assert(is_dest_char(dest[i]));
}

/// The arguments of ssh that bridge to a pane.
pub open spec fn ssh_attach_args(dest: Seq<char>, pane_id: Seq<char>) -> Seq<Seq<char>> {
    seq!["-oBatchMode=yes"@, dest, "rio-ptyd"@, "attach"@, "--stdio"@, pane_id]
}

/// The arguments of ssh that bridge to a pane, where id and destination are
/// what they must be.
pub fn ssh_attach_argv(dest: &str, pane_id: &str) -> (argv: Result<Vec<String>, AttachError>)
    ensures
        match argv {
            Ok(args) => valid_pane_id(pane_id@) && safe_dest(dest@) && texts(args@)
                == ssh_attach_args(dest@, pane_id@),
            Err(e) => e@ == AttachErrorView::Io(
                if !valid_pane_id(pane_id@) {
                    "invalid pane id"@
                } else {
                    "unsafe ssh destination"@
                },
            ) && !(valid_pane_id(pane_id@) && safe_dest(dest@)),
        },
{
    if !is_valid_pane_id(pane_id) {
        return Err(AttachError::Io("invalid pane id".to_owned()));
    }
    if !is_safe_ssh_dest(dest) {
        return Err(AttachError::Io("unsafe ssh destination".to_owned()));
    }
    let mut args: Vec<String> = Vec::new();
    args.push("-oBatchMode=yes".to_owned());
    args.push(dest.to_owned());
    args.push("rio-ptyd".to_owned());
    args.push("attach".to_owned());
    args.push("--stdio".to_owned());
    args.push(pane_id.to_owned());
    assert(texts(args@) =~= ssh_attach_args(dest@, pane_id@));
    Ok(args)
}

/// The arguments of ssh that list the panes of a host.
pub open spec fn ssh_list_args(dest: Seq<char>) -> Seq<Seq<char>> {
    seq![
        "-oBatchMode=yes"@,
        "-oConnectTimeout=8"@,
        dest,
        "rio-ptyd"@,
        "list"@,
        "--json"@,
    ]
}

pub fn ssh_list_argv(dest: &str) -> (argv: Result<Vec<String>, String>)
    ensures
        match argv {
            Ok(args) => safe_dest(dest@) && texts(args@) == ssh_list_args(dest@),
            Err(e) => e@ == "invalid ssh destination"@ && !safe_dest(dest@),
        },
{
    if !is_safe_ssh_dest(dest) {
        return Err("invalid ssh destination".to_owned());
    }
    let mut args: Vec<String> = Vec::new();
    args.push("-oBatchMode=yes".to_owned());
    args.push("-oConnectTimeout=8".to_owned());
    args.push(dest.to_owned());
    args.push("rio-ptyd".to_owned());
    args.push("list".to_owned());
    args.push("--json".to_owned());
    assert(texts(args@) =~= ssh_list_args(dest@));
    Ok(args)
}

/// An option with its value, where there is one.
pub open spec fn option_args(flag: Seq<char>, value: Option<Seq<char>>) -> Seq<Seq<char>> {
    match value {
        Some(v) => seq![flag, v],
        None => Seq::empty(),
    }
}

/// The arguments that launch a daemon. Without a directory of its own the pane
/// starts where the terminal is: a daemon itself lives at the root.
pub open spec fn spawn_args(
    ring_bytes: nat,
    session: Option<Seq<char>>,
    cwd: Option<Seq<char>>,
    current: Option<Seq<char>>,
    program: Seq<char>,
    args: Seq<Seq<char>>,
) -> Seq<Seq<char>> {
    seq!["spawn"@, "--ring-size"@, number_text(ring_bytes)] + option_args("--session"@, session)
        + option_args(
        "--cwd"@,
        if cwd is Some {
            cwd
        } else {
            current
        },
    ) + seq!["--"@, program] + args
}

pub fn spawn_argv(
    ring_bytes: u64,
    session: &Option<String>,
    cwd: &Option<String>,
    current: &Option<String>,
    program: &str,
    args: &Vec<String>,
) -> (argv: Vec<String>)
    ensures
        texts(argv@) == spawn_args(
            ring_bytes as nat,
            opt_text(*session),
            opt_text(*cwd),
            opt_text(*current),
            program@,
            texts(args@),
        ),
{
    let mut argv: Vec<String> = Vec::new();
    argv.push("spawn".to_owned());
    argv.push("--ring-size".to_owned());
    let mut size = String::new();
    push_number(&mut size, ring_bytes);
    assert(size@ =~= number_text(ring_bytes as nat));
    argv.push(size);
    let ghost head = seq!["spawn"@, "--ring-size"@, number_text(ring_bytes as nat)];
    assert(texts(argv@) =~= head);
    if let Some(name) = session {
        argv.push("--session".to_owned());
        argv.push(name.clone());
    }
    let ghost named = head + option_args("--session"@, opt_text(*session));
    assert(texts(argv@) =~= named);
    let dir: &Option<String> = if cwd.is_some() {
        cwd
    } else {
        current
    };
    if let Some(path) = dir {
        argv.push("--cwd".to_owned());
        argv.push(path.clone());
    }
    let ghost placed = named + option_args("--cwd"@, opt_text(*dir));
    assert(texts(argv@) =~= placed);
    argv.push("--".to_owned());
    argv.push(program.to_owned());
    let mut rest = copy_texts(args);
    let ghost tail = rest@;
    argv.append(&mut rest);
    assert(texts(argv@) =~= placed + seq!["--"@, program@] + texts(tail));
    argv
}

// ---------------------------------------------------------------------------
// The handshake of a daemon that was launched.

/// Where a new pane can be reached.
#[derive(Clone, Debug)]
pub struct Launched {
    pub pane_id: String,
    pub socket: String,
}

/// A field that counts as empty where it is absent.
pub open spec fn or_empty(text: Option<Seq<char>>) -> Seq<char> {
    match text {
        Some(t) => t,
        None => Seq::empty(),
    }
}

/// Takes the fields of a handshake: why it is no JSON, its pane id, its socket.
pub fn launched(fault: Option<String>, pane_id: Option<String>, socket: Option<String>) -> (result:
    Result<Launched, AttachError>)
    ensures
        match result {
            Ok(l) => fault is None && or_empty(opt_text(pane_id)).len() > 0 && or_empty(
                opt_text(socket),
            ).len() > 0 && opt_text(pane_id) == Some(l.pane_id@) && opt_text(socket) == Some(
                l.socket@,
            ),
            Err(e) => match fault {
                Some(f) => e@ == AttachErrorView::Io(f@),
                None => e@ == AttachErrorView::Io("rio-ptyd spawn returned no socket"@) && (
                or_empty(opt_text(pane_id)).len() == 0 || or_empty(opt_text(socket)).len() == 0),
            },
        },
{
    if let Some(f) = fault {
        return Err(AttachError::Io(f));
    }
    match (pane_id, socket) {
        (Some(id), Some(path)) => {
            proof {
                reveal_strlit("");
            }
            if same_text(id.as_str(), "") || same_text(path.as_str(), "") {
                assert(""@ =~= Seq::<char>::empty());
                return Err(AttachError::Io("rio-ptyd spawn returned no socket".to_owned()));
            }
            assert(id@.len() == 0 ==> id@ =~= ""@);
            assert(path@.len() == 0 ==> path@ =~= ""@);
            Ok(Launched { pane_id: id, socket: path })
        },
        _ => Err(AttachError::Io("rio-ptyd spawn returned no socket".to_owned())),
    }
}

/// Reads the line that a daemon printed as it started. What a daemon prints is
/// read back: its pane id and socket.
pub fn parse_handshake(line: &str) -> (result: Result<Launched, AttachError>)
    ensures
        match result {
            Ok(l) => {
                let text = trimmed_text(line@);
                &&& json_fault(text) is None
                &&& json_string_field(text, "pane_id"@) == Some(l.pane_id@)
                &&& json_string_field(text, "socket"@) == Some(l.socket@)
                &&& l.pane_id@.len() > 0
                &&& l.socket@.len() > 0
            },
            Err(e) => {
                let text = trimmed_text(line@);
                match json_fault(text) {
                    Some(f) => e@ == AttachErrorView::Io(f),
                    None => e@ == AttachErrorView::Io("rio-ptyd spawn returned no socket"@) && (
                    or_empty(json_string_field(text, "pane_id"@)).len() == 0 || or_empty(
                        json_string_field(text, "socket"@),
                    ).len() == 0),
                }
            },
        },
        forall|id: Seq<char>, socket: Seq<char>, daemon: i32, shell: i32|
            trimmed_text(line@) == #[trigger] handshake_json(id, socket, daemon as int, shell as int)
                && id.len() > 0 && socket.len() > 0 ==> (result matches Ok(l) && l.pane_id@ == id
                && l.socket@ == socket),
{
    let text = trim_text(line);
    let fault = fault_of(text.as_str());
    let pane_id = string_field(text.as_str(), "pane_id");
    let socket = string_field(text.as_str(), "socket");
    launched(fault, pane_id, socket)
}

/// What is said of a daemon that could not be launched.
pub fn spawn_failure(stderr: &str) -> (error: AttachError)
    ensures
        error@ == AttachErrorView::Io("rio-ptyd spawn failed: "@ + trimmed_text(stderr@)),
{
    let mut text: String = "rio-ptyd spawn failed: ".to_owned();
    text.append(trim_text(stderr).as_str());
    AttachError::Io(text)
}

// ---------------------------------------------------------------------------
// The hello of a daemon.

/// The directory in the metadata of a hello. What a daemon writes there is read
/// back as it was.
pub fn parse_hello_cwd(meta: &str) -> (cwd: Option<String>)
    ensures
        opt_text(cwd) == json_string_field(meta@, "cwd"@),
        forall|dir: Option<Seq<char>>, id: Seq<char>, program: Seq<char>|
            meta@ == #[trigger] hello_json(dir, id, program) ==> opt_text(cwd) == dir,
{
    string_field(meta, "cwd")
}

/// The first frames to a daemon: the hello, and the size of the terminal.
pub open spec fn attach_bytes(rows: u16, cols: u16, width: u16, height: u16) -> Seq<u8> {
    frame_bytes(FrameType::ClientHello, le32(PROTOCOL_VERSION) + le32(0)) + frame_bytes(
        FrameType::Resize,
        le16(rows) + le16(cols) + le16(width) + le16(height),
    )
}

pub fn attach_opening(rows: u16, cols: u16, width: u16, height: u16) -> (bytes: Vec<u8>)
    ensures
        bytes@ == attach_bytes(rows, cols, width, height),
{
    let mut bytes: Vec<u8> = Vec::new();
    let hello = encode_client_hello();
    let _ = write_frame(&mut bytes, FrameType::ClientHello, hello.as_slice());
    let size = encode_resize(rows, cols, width, height);
    let _ = write_frame(&mut bytes, FrameType::Resize, size.as_slice());
    assert(bytes@ =~= attach_bytes(rows, cols, width, height));
    bytes
}

pub open spec fn info_of(hello: ServerHelloView, cwd: Option<Seq<char>>) -> HelloInfoView {
    HelloInfoView {
        daemon_pid: hello.daemon_pid,
        shell_pid: hello.shell_pid,
        shell_state: if hello.shell_state == SHELL_EXITED {
            ShellState::Exited
        } else {
            ShellState::Running
        },
        exit_status: hello.exit_status,
        cwd,
    }
}

/// What a hello says, its directory already read. A pane whose shell has exited
/// is not attached to.
pub fn hello_info(hello: &ServerHello, cwd: Option<String>) -> (info: Result<HelloInfo, AttachError>)
    ensures
        match info {
            Ok(i) => hello.shell_state != SHELL_EXITED && i@ == info_of(hello@, opt_text(cwd)),
            Err(e) => hello.shell_state == SHELL_EXITED && e@ == AttachErrorView::ShellExited(
                hello.exit_status,
            ),
        },
{
    if hello.shell_state == SHELL_EXITED {
        return Err(AttachError::ShellExited(hello.exit_status));
    }
    Ok(
        HelloInfo {
            daemon_pid: hello.daemon_pid,
            shell_pid: hello.shell_pid,
            shell_state: ShellState::Running,
            exit_status: hello.exit_status,
            cwd,
        },
    )
}

/// Where a hello exchange stands.
#[derive(Debug)]
pub enum Greeting {
    /// More bytes are wanted.
    Waiting,
    Hello(HelloInfo),
    Failed(AttachError),
}

pub open spec fn violation_text(error: ProtocolError) -> Seq<char> {
    match error {
        ProtocolError::Oversize(n) => "frame payload "@ + number_text(n as nat) + " exceeds cap"@,
        ProtocolError::UnknownType(t) => "unknown frame type 0x"@ + hex_byte(t),
    }
}

/// What the bytes received so far mean.
pub enum GreetingView {
    Waiting,
    Hello(ServerHelloView),
    Failed(AttachErrorView),
}

pub open spec fn greeting(bytes: Seq<u8>) -> GreetingView {
    match front(bytes) {
        Front::Incomplete => GreetingView::Waiting,
        Front::Violation(error) => GreetingView::Failed(AttachErrorView::Io(violation_text(error))),
        Front::Frame { header, payload, rest } => if header.typ == type_byte(
            FrameType::ServerHello,
        ) {
            match server_hello_of(payload) {
                None => GreetingView::Failed(AttachErrorView::Io("malformed server hello"@)),
                Some(hello) => if hello.shell_state == SHELL_EXITED {
                    GreetingView::Failed(AttachErrorView::ShellExited(hello.exit_status))
                } else {
                    GreetingView::Hello(hello)
                },
            }
        } else if header.typ == type_byte(FrameType::Error) {
            GreetingView::Failed(AttachErrorView::Io(error_message_of(payload)))
        } else {
            GreetingView::Failed(AttachErrorView::Io("unexpected frame before hello"@))
        },
    }
}

/// Looks for the hello in what was received. It is read byte by byte, so that
/// nothing of the stream behind it is taken.
pub fn greet(dec: &mut Decoder) -> (step: Greeting)
    requires
        old(dec).wf(),
    ensures
        final(dec).wf(),
        match greeting(old(dec)@) {
            GreetingView::Waiting => step is Waiting && final(dec)@ == old(dec)@,
            GreetingView::Hello(hello) => step matches Greeting::Hello(i) && i@ == info_of(
                hello,
                json_string_field(hello.meta_json, "cwd"@),
            ),
            GreetingView::Failed(error) => step matches Greeting::Failed(e) && e@ == error,
        },
        final(dec)@ == match front(old(dec)@) {
            Front::Frame { rest, .. } => rest,
            _ => old(dec)@,
        },
{
    match dec.next_frame() {
        Ok(Some((header, payload))) => match FrameType::from_u8(header.typ) {
            Some(FrameType::ServerHello) => match ServerHello::decode(payload.as_slice()) {
                Some(hello) => {
                    let cwd = parse_hello_cwd(hello.meta_json.as_str());
                    match hello_info(&hello, cwd) {
                        Ok(info) => Greeting::Hello(info),
                        Err(error) => Greeting::Failed(error),
                    }
                },
                None => Greeting::Failed(AttachError::Io("malformed server hello".to_owned())),
            },
            Some(FrameType::Error) => Greeting::Failed(
                AttachError::Io(decode_error_message(payload.as_slice())),
            ),
            _ => Greeting::Failed(AttachError::Io("unexpected frame before hello".to_owned())),
        },
        Ok(None) => Greeting::Waiting,
        Err(error) => Greeting::Failed(AttachError::Io(error.message())),
    }
}

// ---------------------------------------------------------------------------
// Reading.

/// Where a reader is in the stream of frames.
enum ReadState {
    /// Collecting a frame header.
    Header { hdr: Vec<u8> },
    /// Handing output on as it comes.
    Output { remaining: usize },
    /// Collecting the payload of another frame.
    Control { typ: u8, need: usize, got: Vec<u8> },
}

/// The mathematical value of a reader's place.
pub enum Place {
    Header(Seq<u8>),
    Output(nat),
    Control { typ: u8, need: nat, got: Seq<u8> },
}

/// Reads the frames of a daemon: output is handed on, the rest is acted on.
pub struct RemoteReader {
    state: ReadState,
    exit_signaled: bool,
    exited: Option<i32>,
    link_lost: bool,
    in_replay: bool,
    replay_dirty: bool,
}

/// The mathematical value of a [`RemoteReader`].
#[verifier::ext_equal]
pub struct ReaderView {
    pub place: Place,
    /// Whether the end was signalled.
    pub exit_signaled: bool,
    /// The status the shell exited with.
    pub exited: Option<i32>,
    pub link_lost: bool,
    /// Whether the output is the replay of an attach.
    pub in_replay: bool,
    /// Whether replayed output was handed on since it was last asked for.
    pub replay_dirty: bool,
}

impl View for RemoteReader {
    type V = ReaderView;

    closed spec fn view(&self) -> ReaderView {
        ReaderView {
            place: match self.state {
                ReadState::Header { hdr } => Place::Header(hdr@),
                ReadState::Output { remaining } => Place::Output(remaining as nat),
                ReadState::Control { typ, need, got } => Place::Control {
                    typ,
                    need: need as nat,
                    got: got@,
                },
            },
            exit_signaled: self.exit_signaled,
            exited: self.exited,
            link_lost: self.link_lost,
            in_replay: self.in_replay,
            replay_dirty: self.replay_dirty,
        }
    }
}

/// What came of bytes that were read.
#[derive(Clone, Copy, Debug, PartialEq, Eq, Structural)]
pub enum Taken {
    /// Nothing for the terminal yet.
    More,
    /// The bytes are output.
    Output,
    /// The stream is over.
    Ended,
}

/// What every reader keeps.
pub open spec fn reader_wf(v: ReaderView) -> bool {
    match v.place {
        Place::Header(hdr) => hdr.len() <= HEADER_LEN,
        Place::Output(remaining) => 0 < remaining <= MAX_PAYLOAD,
        Place::Control { typ, need, got } => got.len() < need <= MAX_PAYLOAD,
    }
}

/// How many bytes the reader takes next, with room for `room` bytes of output.
pub open spec fn wanted(v: ReaderView, room: int) -> int {
    match v.place {
        Place::Header(hdr) => HEADER_LEN - hdr.len(),
        Place::Output(remaining) => if remaining < room {
            remaining as int
        } else {
            room
        },
        Place::Control { typ, need, got } => if need - got.len() < CONTROL_CHUNK {
            need - got.len()
        } else {
            CONTROL_CHUNK as int
        },
    }
}

/// The end of the stream: a lost link, unless the shell is known to have
/// exited.
pub open spec fn ended(v: ReaderView) -> ReaderView {
    ReaderView { link_lost: v.link_lost || v.exited is None, exit_signaled: true, ..v }
}

/// A stream that makes no sense.
pub open spec fn severed(v: ReaderView) -> ReaderView {
    ReaderView { link_lost: true, exit_signaled: true, ..v }
}

/// A frame other than output.
pub open spec fn controlled(v: ReaderView, typ: u8, payload: Seq<u8>) -> ReaderView {
    if typ == type_byte(FrameType::Exited) {
        ReaderView { exited: Some(exit_status_of(payload)), exit_signaled: true, ..v }
    } else if typ == type_byte(FrameType::Detached) || typ == type_byte(FrameType::Error) {
        severed(v)
    } else if typ == type_byte(FrameType::ReplayBegin) {
        ReaderView { in_replay: true, ..v }
    } else if typ == type_byte(FrameType::ReplayEnd) {
        ReaderView { in_replay: false, ..v }
    } else {
        v
    }
}

/// Whether nothing more is read.
pub open spec fn over(v: ReaderView) -> bool {
    v.exited is Some || v.link_lost
}

pub open spec fn at_boundary(v: ReaderView) -> ReaderView {
    ReaderView { place: Place::Header(Seq::empty()), ..v }
}

/// A complete header.
pub open spec fn after_header(v: ReaderView, hdr: Seq<u8>) -> (ReaderView, Taken) {
    let len = le32_at(hdr, 0);
    let typ = hdr[4];
    let held = ReaderView { place: Place::Header(hdr), ..v };
    if len > MAX_PAYLOAD || !is_type_byte(typ) {
        (severed(held), Taken::Ended)
    } else if typ == type_byte(FrameType::Output) && len > 0 {
        (ReaderView { place: Place::Output(len as nat), ..v }, Taken::More)
    } else if len == 0 {
        let c = controlled(held, typ, Seq::empty());
        if over(c) {
            (c, Taken::Ended)
        } else {
            (at_boundary(c), Taken::More)
        }
    } else {
        (
            ReaderView { place: Place::Control { typ, need: len as nat, got: Seq::empty() }, ..v },
            Taken::More,
        )
    }
}

/// Bytes that were read, at most as many as wanted.
pub open spec fn after_bytes(v: ReaderView, bytes: Seq<u8>) -> (ReaderView, Taken) {
    match v.place {
        Place::Header(hdr) => {
            let all = hdr + bytes;
            if all.len() < HEADER_LEN {
                (ReaderView { place: Place::Header(all), ..v }, Taken::More)
            } else {
                after_header(v, all)
            }
        },
        Place::Output(remaining) => {
            let left = (remaining - bytes.len()) as nat;
            let next = ReaderView { replay_dirty: v.replay_dirty || v.in_replay, ..v };
            (
                if left == 0 {
                    at_boundary(next)
                } else {
                    ReaderView { place: Place::Output(left), ..next }
                },
                Taken::Output,
            )
        },
        Place::Control { typ, need, got } => {
            let all = got + bytes;
            if all.len() < need {
                (ReaderView { place: Place::Control { typ, need, got: all }, ..v }, Taken::More)
            } else {
                let c = controlled(at_boundary(v), typ, all);
                (
                    c,
                    if over(c) {
                        Taken::Ended
                    } else {
                        Taken::More
                    },
                )
            }
        },
    }
}

impl RemoteReader {
    pub open spec fn wf(&self) -> bool {
        reader_wf(self@)
    }

    pub fn new() -> (reader: RemoteReader)
        ensures
            reader.wf(),
            reader@ == (ReaderView {
                place: Place::Header(Seq::empty()),
                exit_signaled: false,
                exited: None,
                link_lost: false,
                in_replay: false,
                replay_dirty: false,
            }),
    {
        let hdr: Vec<u8> = Vec::new();
        assert(hdr@ =~= Seq::<u8>::empty());
        RemoteReader {
            state: ReadState::Header { hdr },
            exit_signaled: false,
            exited: None,
            link_lost: false,
            in_replay: false,
            replay_dirty: false,
        }
    }

    pub fn exited(&self) -> (code: Option<i32>)
        ensures
            code == self@.exited,
    {
        self.exited
    }

    pub fn link_lost(&self) -> (lost: bool)
        ensures
            lost == self@.link_lost,
    {
        self.link_lost
    }

    /// Whether the end was signalled.
    pub fn exit_signaled(&self) -> (signaled: bool)
        ensures
            signaled == self@.exit_signaled,
    {
        self.exit_signaled
    }

    /// Whether the pane is to be told that its shell is gone.
    pub fn is_over(&self) -> (ended: bool)
        ensures
            ended == over(self@),
    {
        self.exited.is_some() || self.link_lost
    }

    /// Whether the next bytes are output.
    pub fn expects_output(&self) -> (output: bool)
        ensures
            output == (self@.place is Output),
    {
        match &self.state {
            ReadState::Output { .. } => true,
            _ => false,
        }
    }

    /// How many bytes to read next, with room for `room` bytes of output.
    pub fn wants(&self, room: usize) -> (n: usize)
        requires
            self.wf(),
        ensures
            n == wanted(self@, room as int),
    {
        match &self.state {
            ReadState::Header { hdr } => HEADER_LEN - hdr.len(),
            ReadState::Output { remaining } => if *remaining < room {
                *remaining
            } else {
                room
            },
            ReadState::Control { typ: _, need, got } => {
                let left: usize = *need - got.len();
                if left < CONTROL_CHUNK {
                    left
                } else {
                    CONTROL_CHUNK
                }
            },
        }
    }

    fn handle_control(&mut self, typ: u8, payload: &[u8])
        ensures
            final(self)@ == controlled(old(self)@, typ, payload@),
    {
        match FrameType::from_u8(typ) {
            Some(FrameType::Exited) => {
                self.exited = Some(decode_exit_status(payload));
                self.exit_signaled = true;
            },
            Some(FrameType::Detached) | Some(FrameType::Error) => {
                self.link_lost = true;
                self.exit_signaled = true;
            },
            Some(FrameType::ReplayBegin) => {
                self.in_replay = true;
            },
            Some(FrameType::ReplayEnd) => {
                self.in_replay = false;
            },
            _ => {},
        }
    }

    fn take_header(&mut self, hdr: Vec<u8>) -> (taken: Taken)
        requires
            hdr@.len() == HEADER_LEN,
        ensures
            (final(self)@, taken) == after_header(old(self)@, hdr@),
            final(self).wf(),
    {
        let len: u32 = read_u32(hdr.as_slice(), 0);
        let typ: u8 = hdr[4];
        if len as usize > MAX_PAYLOAD || FrameType::from_u8(typ).is_none() {
            self.state = ReadState::Header { hdr };
            self.link_lost = true;
            self.exit_signaled = true;
            return Taken::Ended;
        }
        let output: u8 = FrameType::Output.to_u8();
        if typ == output && len > 0 {
            self.state = ReadState::Output { remaining: len as usize };
            return Taken::More;
        }
        let empty: Vec<u8> = Vec::new();
        assert(empty@ =~= Seq::<u8>::empty());
        if len == 0 {
            self.state = ReadState::Header { hdr };
            self.handle_control(typ, empty.as_slice());
            if self.exited.is_some() || self.link_lost {
                return Taken::Ended;
            }
            self.state = ReadState::Header { hdr: empty };
            return Taken::More;
        }
        self.state = ReadState::Control { typ, need: len as usize, got: empty };
        Taken::More
    }

    /// Takes bytes that were read, at most as many as wanted.
    pub fn took(&mut self, bytes: &[u8]) -> (taken: Taken)
        requires
            old(self).wf(),
            0 < bytes@.len() <= wanted(old(self)@, MAX_PAYLOAD as int),
        ensures
            final(self).wf(),
            (final(self)@, taken) == after_bytes(old(self)@, bytes@),
    {
        let mut state = ReadState::Output { remaining: 1 };
        std::mem::swap(&mut state, &mut self.state);
        match state {
            ReadState::Header { mut hdr } => {
                let ghost before = hdr@;
                hdr.extend_from_slice(bytes);
                assert(hdr@ =~= before + bytes@);
                if hdr.len() < HEADER_LEN {
                    self.state = ReadState::Header { hdr };
                    return Taken::More;
                }
                self.take_header(hdr)
            },
            ReadState::Output { remaining } => {
                let left: usize = remaining - bytes.len();
                if left == 0 {
                    let hdr: Vec<u8> = Vec::new();
                    assert(hdr@ =~= Seq::<u8>::empty());
                    self.state = ReadState::Header { hdr };
                } else {
                    self.state = ReadState::Output { remaining: left };
                }
                if self.in_replay {
                    self.replay_dirty = true;
                }
                Taken::Output
            },
            ReadState::Control { typ, need, mut got } => {
                let ghost before = got@;
                got.extend_from_slice(bytes);
                assert(got@ =~= before + bytes@);
                if got.len() < need {
                    self.state = ReadState::Control { typ, need, got };
                    return Taken::More;
                }
                let hdr: Vec<u8> = Vec::new();
                assert(hdr@ =~= Seq::<u8>::empty());
                self.state = ReadState::Header { hdr };
                self.handle_control(typ, got.as_slice());
                if self.exited.is_some() || self.link_lost {
                    Taken::Ended
                } else {
                    Taken::More
                }
            },
        }
    }

    /// Notes the end of the stream.
    pub fn hung_up(&mut self)
        requires
            old(self).wf(),
        ensures
            final(self).wf(),
            final(self)@ == ended(old(self)@),
    {
        if self.exited.is_none() {
            self.link_lost = true;
        }
        self.exit_signaled = true;
    }

    /// Tells whether output since the last call was replayed, so that the
    /// terminal must not answer queries in it. A read that straddles the end of
    /// the replay still counts.
    pub fn take_replay_pending(&mut self) -> (pending: bool)
        requires
            old(self).wf(),
        ensures
            final(self).wf(),
            pending == (old(self)@.in_replay || old(self)@.replay_dirty),
            final(self)@ == (ReaderView { replay_dirty: old(self)@.in_replay, ..old(self)@ }),
    {
        let pending = self.in_replay || self.replay_dirty;
        self.replay_dirty = self.in_replay;
        pending
    }
}

/// It does not matter how the stream is cut: bytes taken in two reads come to
/// the same as bytes taken in one, and all of them are output or none is.
pub proof fn law_reads_can_be_cut(v: ReaderView, a: Seq<u8>, b: Seq<u8>)
    requires
        reader_wf(v),
        a.len() > 0,
        b.len() > 0,
        a.len() + b.len() <= wanted(v, MAX_PAYLOAD as int),
    ensures
        reader_wf(after_bytes(v, a).0),
        b.len() <= wanted(after_bytes(v, a).0, MAX_PAYLOAD as int),
        after_bytes(v, a).1 == Taken::Output <==> after_bytes(v, a + b).1 == Taken::Output,
        after_bytes(after_bytes(v, a).0, b) == after_bytes(v, a + b),
{
    match v.place {
        Place::Header(hdr) => {
            assert(hdr + (a + b) =~= hdr + a + b);
        },
        Place::Output(remaining) => {},
        Place::Control { typ, need, got } => {
            assert(got + (a + b) =~= got + a + b);
        },
    }
}

/// An output frame is handed on whole: its header leads to output of just its
/// length, and behind the payload the next frame begins.
pub proof fn law_output_frame_is_read(v: ReaderView, payload: Seq<u8>)
    requires
        v.place == Place::Header(Seq::empty()),
        0 < payload.len() <= MAX_PAYLOAD,
    ensures
        ({
            let frame = frame_bytes(FrameType::Output, payload);
            let (h, first) = after_bytes(v, frame.take(HEADER_LEN as int));
            let (p, second) = after_bytes(h, frame.skip(HEADER_LEN as int));
            &&& first == Taken::More
            &&& second == Taken::Output
            &&& frame.skip(HEADER_LEN as int) == payload
            &&& wanted(h, MAX_PAYLOAD as int) == payload.len()
            &&& p == (ReaderView { replay_dirty: v.replay_dirty || v.in_replay, ..v })
        }),
{
    let frame = frame_bytes(FrameType::Output, payload);
    let hdr = frame.take(HEADER_LEN as int);
    assert(Seq::<u8>::empty() + hdr =~= hdr);
    assert(frame.skip(HEADER_LEN as int) =~= payload);
    crate::protocol::law_frame_round_trip(FrameType::Output, payload, Seq::empty());
    assert(frame + Seq::<u8>::empty() =~= frame);
    assert(le32_at(hdr, 0) == le32_at(frame, 0));
}

/// Output between the marks of a replay is told apart from what follows: the
/// first question after it says so, whether or not the replay is over by then,
/// and the next one does not.
pub proof fn law_replay_is_told_apart(v: ReaderView, payload: Seq<u8>)
    requires
        v.place == Place::Header(Seq::empty()),
        v.in_replay,
        !over(v),
        0 < payload.len() <= MAX_PAYLOAD,
    ensures
        ({
            let frame = frame_bytes(FrameType::Output, payload);
            let h = after_bytes(v, frame.take(HEADER_LEN as int)).0;
            let p = after_bytes(h, frame.skip(HEADER_LEN as int)).0;
            let end = frame_bytes(FrameType::ReplayEnd, Seq::empty());
            let (e, taken) = after_bytes(p, end);
            let asked = ReaderView { replay_dirty: e.in_replay, ..e };
            &&& taken == Taken::More
            &&& e.in_replay || e.replay_dirty
            &&& !(asked.in_replay || asked.replay_dirty)
        }),
{
    law_output_frame_is_read(v, payload);
    let end = frame_bytes(FrameType::ReplayEnd, Seq::empty());
    crate::protocol::law_frame_round_trip(FrameType::ReplayEnd, Seq::empty(), Seq::empty());
    assert(end + Seq::<u8>::empty() =~= end);
    assert(Seq::<u8>::empty() + end =~= end);
    assert(end.len() == HEADER_LEN);
}

// ---------------------------------------------------------------------------
// Writing.

/// Frames for a daemon that were not sent yet. The socket may take half of a
/// frame; what follows must not be put in front of the other half.
pub struct RemoteWriter {
    pending: Vec<u8>,
}

impl View for RemoteWriter {
    type V = Seq<u8>;

    /// The bytes not sent yet.
    closed spec fn view(&self) -> Seq<u8> {
        self.pending@
    }
}

impl RemoteWriter {
    pub fn new() -> (writer: RemoteWriter)
        ensures
            writer@ == Seq::<u8>::empty(),
    {
        let writer = RemoteWriter { pending: Vec::new() };
        assert(writer@ =~= Seq::<u8>::empty());
        writer
    }

    /// The bytes not sent yet.
    pub fn pending(&self) -> (bytes: &[u8])
        ensures
            bytes@ == self@,
    {
        self.pending.as_slice()
    }

    /// Whether bytes wait to be sent. The socket is watched for room while they
    /// do.
    pub fn is_blocked(&self) -> (blocked: bool)
        ensures
            blocked == (self@.len() > 0),
    {
        self.pending.len() > 0
    }

    /// Notes that the socket took the first `n` bytes.
    pub fn sent(&mut self, n: usize)
        requires
            n <= old(self)@.len(),
        ensures
            final(self)@ == old(self)@.skip(n as int),
    {
        self.pending = self.pending.split_off(n);
        assert(self@ =~= old(self)@.skip(n as int));
    }

    /// Queues input. It is refused while earlier bytes wait.
    pub fn write(&mut self, input: &[u8]) -> (accepted: bool)
        ensures
            accepted == (old(self)@.len() == 0),
            final(self)@ == if accepted {
                chunked(FrameType::Stdin, input@)
            } else {
                old(self)@
            },
    {
        if self.pending.len() > 0 {
            return false;
        }
        write_chunked(&mut self.pending, FrameType::Stdin, input);
        assert(self@ =~= chunked(FrameType::Stdin, input@));
        true
    }

    /// Queues the size of the terminal, behind what waits.
    pub fn set_winsize(&mut self, rows: u16, cols: u16, width: u16, height: u16)
        ensures
            final(self)@ == old(self)@ + frame_bytes(
                FrameType::Resize,
                le16(rows) + le16(cols) + le16(width) + le16(height),
            ),
    {
        let payload = encode_resize(rows, cols, width, height);
        let _ = write_frame(&mut self.pending, FrameType::Resize, payload.as_slice());
    }

    /// Queues the end of the pane, behind what waits.
    pub fn kill(&mut self)
        ensures
            final(self)@ == old(self)@ + frame_bytes(FrameType::Kill, Seq::empty()),
    {
        let payload: Vec<u8> = Vec::new();
        assert(payload@ =~= Seq::<u8>::empty());
        let _ = write_frame(&mut self.pending, FrameType::Kill, payload.as_slice());
    }
}

// ---------------------------------------------------------------------------
// The panes of another host.

/// What a listing of another host says of a pane.
#[derive(Clone, Debug)]
pub struct RemoteEntry {
    pub pane_id: Option<String>,
    pub alive: Option<bool>,
    pub program: Option<String>,
    pub cwd: Option<String>,
    pub exited_status: Option<i64>,
}

/// The mathematical value of a [`RemoteEntry`].
#[verifier::ext_equal]
pub struct RemoteEntryView {
    pub pane_id: Option<Seq<char>>,
    pub alive: Option<bool>,
    pub program: Option<Seq<char>>,
    pub cwd: Option<Seq<char>>,
    pub exited_status: Option<i64>,
}

impl View for RemoteEntry {
    type V = RemoteEntryView;

    open spec fn view(&self) -> RemoteEntryView {
        RemoteEntryView {
            pane_id: opt_text(self.pane_id),
            alive: self.alive,
            program: opt_text(self.program),
            cwd: opt_text(self.cwd),
            exited_status: self.exited_status,
        }
    }
}

/// How a pane is shown for picking: program, directory and state. The names come
/// from another host and are shown without control characters.
pub open spec fn picker_label(e: RemoteEntryView) -> Seq<char> {
    sanitized(
        match e.program {
            Some(p) => p,
            None => "?"@,
        },
    ) + "  "@ + sanitized(
        match e.cwd {
            Some(d) => d,
            None => "-"@,
        },
    ) + "  "@ + match e.exited_status {
        Some(code) => "exited("@ + signed_text(code as int) + ")"@,
        None => "running"@,
    }
}

/// Whether a pane can be attached to: only a live daemon accepts one.
pub open spec fn pickable(e: RemoteEntryView) -> bool {
    e.pane_id is Some && e.alive == Some(true)
}

/// The panes to pick from, in the order of the listing.
pub open spec fn picks(entries: Seq<RemoteEntryView>) -> Seq<(Seq<char>, Seq<char>)>
    decreases entries.len(),
{
    if entries.len() == 0 {
        Seq::empty()
    } else {
        let before = picks(entries.drop_last());
        let e = entries.last();
        if pickable(e) {
            before.push((e.pane_id->0, picker_label(e)))
        } else {
            before
        }
    }
}

pub open spec fn entry_views(entries: Seq<RemoteEntry>) -> Seq<RemoteEntryView> {
    Seq::new(entries.len(), |i: int| entries[i]@)
}

pub open spec fn pick_texts(panes: Seq<(String, String)>) -> Seq<(Seq<char>, Seq<char>)> {
    Seq::new(panes.len(), |i: int| (panes[i].0@, panes[i].1@))
}

/// The text of a status.
fn push_status(out: &mut String, n: i64)
    ensures
        final(out)@ == old(out)@ + signed_text(n as int),
{
    if n < 0 {
        out.push('-');
        push_number(out, (-(n as i128)) as u64);
    } else {
        push_number(out, n as u64);
    }
    assert(out@ =~= old(out)@ + signed_text(n as int));
}

fn label_of(e: &RemoteEntry) -> (label: String)
    ensures
        label@ == picker_label(e@),
{
    let mut label: String = match &e.program {
        Some(p) => sanitize(p.as_str()),
        None => sanitize("?"),
    };
    label.append("  ");
    match &e.cwd {
        Some(d) => label.append(sanitize(d.as_str()).as_str()),
        None => label.append(sanitize("-").as_str()),
    }
    label.append("  ");
    let ghost shown = label@;
    match e.exited_status {
        Some(code) => {
            label.append("exited(");
            push_status(&mut label, code);
            label.append(")");
            assert(label@ =~= shown + ("exited("@ + signed_text(code as int) + ")"@));
        },
        None => label.append("running"),
    }
    label
}

/// The panes to pick from.
pub fn attachable_panes(entries: &Vec<RemoteEntry>) -> (panes: Vec<(String, String)>)
    ensures
        pick_texts(panes@) == picks(entry_views(entries@)),
{
    let mut panes: Vec<(String, String)> = Vec::new();
    let ghost all = entry_views(entries@);
    assert(all.take(0) =~= Seq::<RemoteEntryView>::empty());
    assert(pick_texts(panes@) =~= picks(all.take(0)));
    let mut i: usize = 0;
    while i < entries.len()
        invariant
            i <= entries@.len(),
            all == entry_views(entries@),
            pick_texts(panes@) == picks(all.take(i as int)),
        decreases entries.len() - i,
    {
        let e = &entries[i];
        let ghost before = panes@;
        assert(all.take(i + 1).drop_last() =~= all.take(i as int));
        assert(all.take(i + 1).last() == e@);
        let alive = match e.alive {
            Some(a) => a,
            None => false,
        };
        if let Some(id) = &e.pane_id {
            if alive {
                panes.push((id.clone(), label_of(e)));
                assert(pick_texts(panes@) =~= pick_texts(before).push(
                    (e@.pane_id->0, picker_label(e@)),
                ));
            }
        }
        assert(pick_texts(panes@) == picks(all.take(i + 1)));
        i = i + 1;
    }
    assert(all.take(i as int) =~= all);
    panes
}

/// What a JSON object says of a pane.
pub open spec fn entry_fields(text: Seq<char>) -> RemoteEntryView {
    RemoteEntryView {
        pane_id: json_string_field(text, "pane_id"@),
        alive: json_bool_field(text, "alive"@),
        program: json_string_field(text, "program"@),
        cwd: json_string_field(text, "cwd"@),
        exited_status: json_int_field(text, "exited_status"@),
    }
}

/// What the listing of a host says of its panes.
pub open spec fn listed_entry(m: PaneMeta, f: PaneFacts) -> RemoteEntryView {
    RemoteEntryView {
        pane_id: Some(m.pane_id@),
        alive: Some(f.alive),
        program: Some(m.program@),
        cwd: opt_text(m.cwd),
        exited_status: match m.exited_status {
            Some(code) => Some(code as i64),
            None => None,
        },
    }
}

pub open spec fn listed_entries(panes: Seq<PaneMeta>, facts: Seq<PaneFacts>) -> Seq<
    RemoteEntryView,
> {
    Seq::new(panes.len(), |i: int| listed_entry(panes[i], facts[i]))
}

fn read_entry(text: &str) -> (e: RemoteEntry)
    ensures
        e@ == entry_fields(text@),
        forall|m: PaneMeta, f: PaneFacts|
            text@ == #[trigger] entry_json(m, f) ==> e@ == listed_entry(m, f),
{
    RemoteEntry {
        pane_id: string_field(text, "pane_id"),
        alive: bool_field(text, "alive"),
        program: string_field(text, "program"),
        cwd: string_field(text, "cwd"),
        exited_status: int_field(text, "exited_status"),
    }
}

/// Reads the listing of another host. What the listing was made from is read
/// back.
pub fn parse_remote_pane_list(json: &str) -> (result: Result<Vec<(String, String)>, String>)
    ensures
        match json_elements(trimmed_text(json@)) {
            Ok(items) => result matches Ok(panes) && pick_texts(panes@) == picks(
                Seq::new(items.len(), |i: int| entry_fields(items[i])),
            ),
            Err(fault) => result matches Err(e) && e@ == "bad rio-ptyd list output: "@ + fault,
        },
        forall|panes: Seq<PaneMeta>, facts: Seq<PaneFacts>|
            trimmed_text(json@) == #[trigger] list_json(panes, facts) ==> (result matches Ok(found)
                && pick_texts(found@) == picks(listed_entries(panes, facts))),
{
    let text = trim_text(json);
    let parsed = elements(text.as_str());
    match parsed {
        Ok(items) => {
            let mut entries: Vec<RemoteEntry> = Vec::new();
            let mut i: usize = 0;
            while i < items.len()
                invariant
                    i <= items@.len(),
                    entries@.len() == i,
                    forall|j: int|
                        0 <= j < i ==> #[trigger] entries@[j]@ == entry_fields(items@[j]@),
                    forall|j: int, m: PaneMeta, f: PaneFacts|
                        0 <= j < i && items@[j]@ == #[trigger] entry_json(m, f)
                            ==> (#[trigger] entries@[j])@ == listed_entry(m, f),
                decreases items.len() - i,
            {
                entries.push(read_entry(items[i].as_str()));
                i = i + 1;
            }
            proof {
                let fields = Seq::new(
                    texts(items@).len(),
                    |j: int| entry_fields(texts(items@)[j]),
                );
                assert(entry_views(entries@) =~= fields);
                assert forall|panes: Seq<PaneMeta>, facts: Seq<PaneFacts>|
                    text@ == #[trigger] list_json(panes, facts) implies entry_views(entries@)
                    == listed_entries(panes, facts) by {
                    assert(texts(items@) == entries_json(panes, facts));
                    assert(texts(items@).len() == panes.len());
                    assert forall|j: int| 0 <= j < panes.len() implies #[trigger] entry_views(
                        entries@,
                    )[j] == listed_entry(panes[j], facts[j]) by {
                        assert(texts(items@)[j] == entry_json(panes[j], facts[j]));
                        assert(items@[j]@ == entry_json(panes[j], facts[j]));
                        assert(entries@[j]@ == listed_entry(panes[j], facts[j]));
                    }
                    assert(entry_views(entries@) =~= listed_entries(panes, facts));
                }
            }
            Ok(attachable_panes(&entries))
        },
        Err(fault) => {
            let mut message: String = "bad rio-ptyd list output: ".to_owned();
            message.append(fault.as_str());
            Err(message)
        },
    }
}

/// What is said of a listing that failed: what ssh wrote, else how it ended.
pub fn list_failure(stderr: &str, status: &str) -> (message: String)
    ensures
        message@ == if trimmed_text(stderr@).len() == 0 {
            "ssh exited with "@ + status@
        } else {
            trimmed_text(stderr@)
        },
{
    let said = trim_text(stderr);
    proof {
        reveal_strlit("");
        assert(said@.len() == 0 ==> said@ =~= ""@);
    }
    if same_text(said.as_str(), "") {
        let mut message: String = "ssh exited with ".to_owned();
        message.append(status);
        message
    } else {
        said
    }
}

/// A hostile name cannot reach the picker as more than text: nothing that is
/// shown of a pane is a control character.
pub proof fn law_picker_shows_plain_text(e: RemoteEntryView, i: int)
    requires
        0 <= i < picker_label(e).len(),
    ensures
        !crate::cli::is_control(picker_label(e)[i]),
{
    reveal_strlit("?");
    reveal_strlit("-");
    reveal_strlit("  ");
    reveal_strlit("exited(");
    reveal_strlit(")");
    reveal_strlit("running");
    if let Some(code) = e.exited_status {
        lemma_signed_text_is_plain(code as int);
    }
}

proof fn lemma_number_text_is_plain(n: nat)
    ensures
        forall|i: int|
            0 <= i < number_text(n).len() ==> !crate::cli::is_control(#[trigger] number_text(n)[i]),
    decreases n,
{
    if n >= 10 {
        lemma_number_text_is_plain(n / 10);
        let rest = number_text(n / 10);
        let d = crate::text::digit_char(n % 10);
        assert(d as int == 0x30 + n % 10);
        assert forall|i: int| 0 <= i < number_text(n).len() implies !crate::cli::is_control(
            #[trigger] number_text(n)[i],
        ) by {
            if i < rest.len() {
                assert(number_text(n)[i] == rest[i]);
            } else {
                assert(number_text(n)[i] == d);
            }
        }
    } else {
        assert(crate::text::digit_char(n) as int == 0x30 + n);
    }
}

proof fn lemma_signed_text_is_plain(n: int)
    ensures
        forall|i: int|
            0 <= i < signed_text(n).len() ==> !crate::cli::is_control(#[trigger] signed_text(n)[i]),
{
    if n < 0 {
        lemma_number_text_is_plain((-n) as nat);
    } else {
        lemma_number_text_is_plain(n as nat);
    }
}

} // verus!
