//! How a session begins: the command that starts the app server of a workspace, and the handshake
//! with the server.

use crate::json::{Fields, Json, JsonView};
use crate::session::{event, event_view, report_holds_what_was_given, AppServerEvent, EventView};
use crate::workspace::{EntryView, WorkspaceEntry};
use vstd::prelude::*;

verus! {

broadcast use vstd::string::group_string_axioms;

/// The report that a workspace is connected.
pub open spec fn connected_event_view(workspace_id: Seq<char>) -> EventView {
    event_view(
        workspace_id,
        "codex/connected"@,
        JsonView::Object(map!["workspaceId"@ => JsonView::Text(workspace_id)]),
    )
}

/// The report that a workspace is connected.
fn connected_event(workspace_id: &str) -> (report: AppServerEvent)
    ensures
        report@ == connected_event_view(workspace_id@),
{
    let params = Fields::new().with("workspaceId", Json::text(workspace_id)).object();
    event(workspace_id, "codex/connected", params)
}

/// The program that serves a workspace, and its arguments.
pub struct ServerCommand {
    pub program: String,
    pub args: Vec<String>,
}

/// The program that serves a workspace: the one that the workspace names, or `codex`.
pub open spec fn server_program(entry: EntryView) -> Seq<char> {
    match entry.codex_bin {
        Some(program) => program,
        None => "codex"@,
    }
}

/// The command that starts the app server of a workspace.
pub fn server_command(entry: &WorkspaceEntry) -> (command: ServerCommand)
    ensures
        command.program@ == server_program(entry@),
        match entry.codex_bin {
            Some(program) => command.program@ == program@,
            None => command.program@ == "codex"@,
        },
        command.args@.len() == 1,
        command.args@[0]@ == "app-server"@,
{
    let program = match &entry.codex_bin {
        Some(program) => program.clone(),
        None => "codex".to_owned(),
    };
    let mut args: Vec<String> = Vec::new();
    args.push("app-server".to_owned());
    ServerCommand { program, args }
}

/// What the monitor says of itself to a server.
pub open spec fn client_info() -> JsonView {
    JsonView::Object(
        map![
            "clientInfo"@ => JsonView::Object(
                map![
                    "name"@ => JsonView::Text("codex_monitor"@),
                    "title"@ => JsonView::Text("CodexMonitor"@),
                    "version"@ => JsonView::Text("0.1.0"@),
                ],
            ),
        ],
    )
}

/// How far the handshake of a session has come.
#[derive(Debug, Clone, Copy, PartialEq, Eq)]
pub enum HandshakeStep {
    /// Nothing has been sent.
    Start,
    /// The server has been asked to initialize.
    Initializing,
    /// The server has replied, and is being told so.
    Announcing,
    /// The session is connected.
    Connected,
    /// The session is given up.
    Failed,
}

/// What happens during a handshake.
pub enum HandshakeEvent {
    /// The server has started.
    Begun,
    /// The reply to the request has come, or will not.
    Replied(Result<Json, String>),
    /// The message has been written, or could not be.
    Written(Result<(), String>),
}

/// What is to be done during a handshake.
pub enum HandshakeAction {
    /// Send this request and wait for the reply.
    Request { method: String, params: Json },
    /// Write this message.
    Notify { method: String },
    /// Tell the window.
    Emit(AppServerEvent),
    /// Give the session up for this reason.
    Fail(String),
    /// Nothing.
    Ignore,
}

pub enum HandshakeActionView {
    Request { method: Seq<char>, params: JsonView },
    Notify { method: Seq<char> },
    Emit(EventView),
    Fail(Seq<char>),
    Ignore,
}

impl View for HandshakeAction {
    type V = HandshakeActionView;

    open spec fn view(&self) -> HandshakeActionView {
        match *self {
            HandshakeAction::Request { method, params } => HandshakeActionView::Request {
                method: method@,
                params: params@,
            },
            HandshakeAction::Notify { method } => HandshakeActionView::Notify { method: method@ },
            HandshakeAction::Emit(event) => HandshakeActionView::Emit(event@),
            HandshakeAction::Fail(reason) => HandshakeActionView::Fail(reason@),
            HandshakeAction::Ignore => HandshakeActionView::Ignore,
        }
    }
}

/// The next step of a handshake and what is to be done: the server is asked to initialize, told
/// that its reply, whatever it says, has come, and then the window is told. What does not belong to
/// the step changes nothing.
pub open spec fn handshake(
    step: HandshakeStep,
    event: HandshakeEvent,
    workspace_id: Seq<char>,
) -> (HandshakeStep, HandshakeActionView) {
    match (step, event) {
        (HandshakeStep::Start, HandshakeEvent::Begun) => (
            HandshakeStep::Initializing,
            HandshakeActionView::Request { method: "initialize"@, params: client_info() },
        ),
        (HandshakeStep::Initializing, HandshakeEvent::Replied(Ok(_))) => (
            HandshakeStep::Announcing,
            HandshakeActionView::Notify { method: "initialized"@ },
        ),
        (HandshakeStep::Initializing, HandshakeEvent::Replied(Err(error))) => (
            HandshakeStep::Failed,
            HandshakeActionView::Fail(error@),
        ),
        (HandshakeStep::Announcing, HandshakeEvent::Written(Ok(_))) => (
            HandshakeStep::Connected,
            HandshakeActionView::Emit(connected_event_view(workspace_id)),
        ),
        (HandshakeStep::Announcing, HandshakeEvent::Written(Err(error))) => (
            HandshakeStep::Failed,
            HandshakeActionView::Fail(error@),
        ),
        _ => (step, HandshakeActionView::Ignore),
    }
}

/// The next step of a handshake and what is to be done.
pub fn handshake_next(step: HandshakeStep, event: HandshakeEvent, workspace_id: &str) -> (next: (
    HandshakeStep,
    HandshakeAction,
))
    ensures
        (next.0, next.1@) == handshake(step, event, workspace_id@),
{
    match (step, event) {
        (HandshakeStep::Start, HandshakeEvent::Begun) => {
            let info = Fields::new().with("name", Json::text("codex_monitor")).with(
                "title",
                Json::text("CodexMonitor"),
            ).with("version", Json::text("0.1.0")).object();
            let params = Fields::new().with("clientInfo", info).object();
            (
                HandshakeStep::Initializing,
                HandshakeAction::Request { method: "initialize".to_owned(), params },
            )
        },
        (HandshakeStep::Initializing, HandshakeEvent::Replied(Ok(_))) => (
            HandshakeStep::Announcing,
            HandshakeAction::Notify { method: "initialized".to_owned() },
        ),
        (HandshakeStep::Initializing, HandshakeEvent::Replied(Err(error))) => (
            HandshakeStep::Failed,
            HandshakeAction::Fail(error),
        ),
        (HandshakeStep::Announcing, HandshakeEvent::Written(Ok(_))) => (
            HandshakeStep::Connected,
            HandshakeAction::Emit(connected_event(workspace_id)),
        ),
        (HandshakeStep::Announcing, HandshakeEvent::Written(Err(error))) => (
            HandshakeStep::Failed,
            HandshakeAction::Fail(error),
        ),
        (step, _) => (step, HandshakeAction::Ignore),
    }
}

/// A session is connected only once the server has replied and has been told so: whatever led to
/// the step before, only a message that was written takes a handshake to its end, and the window is
/// told then and at no other time.
pub proof fn connected_only_after_announcing(
    step: HandshakeStep,
    event: HandshakeEvent,
    workspace_id: Seq<char>,
)
    requires
        step != HandshakeStep::Connected,
    ensures
        handshake(step, event, workspace_id).0 == HandshakeStep::Connected <==> step
            == HandshakeStep::Announcing && event matches HandshakeEvent::Written(Ok(_)),
        handshake(step, event, workspace_id).0 == HandshakeStep::Announcing && step
            != HandshakeStep::Announcing <==> step == HandshakeStep::Initializing
            && event matches HandshakeEvent::Replied(Ok(_)),
        handshake(step, event, workspace_id).1 is Emit <==> handshake(
            step,
            event,
            workspace_id,
        ).0 == HandshakeStep::Connected,
{
}

/// A handshake that has come to its end, or has failed, stays so, and nothing more is done.
pub proof fn finished_handshake_stays(
    step: HandshakeStep,
    event: HandshakeEvent,
    workspace_id: Seq<char>,
)
    requires
        step == HandshakeStep::Connected || step == HandshakeStep::Failed,
    ensures
        handshake(step, event, workspace_id) == (step, HandshakeActionView::Ignore),
{
}

/// The program that a workspace names serves it, whatever it is called; `codex` serves one that
/// names none. Nothing else of the workspace matters.
pub proof fn named_program_serves(entry: EntryView, program: Seq<char>)
    ensures
        entry.codex_bin == Some(program) ==> server_program(entry) == program,
        entry.codex_bin is None ==> server_program(entry) == "codex"@,
{
}

/// The report that a workspace is connected names the workspace, outside and inside.
pub proof fn connected_report_names_workspace(workspace_id: Seq<char>)
    ensures
        ({
            let report = connected_event_view(workspace_id);
            &&& report.workspace_id == workspace_id
            &&& report.message.get("method"@) == Some(JsonView::Text("codex/connected"@))
            &&& report.message.get("params"@) matches Some(params)
            &&& params.get("workspaceId"@) == Some(JsonView::Text(workspace_id))
            &&& forall|key: Seq<char>| #[trigger] params.has(key) <==> key == "workspaceId"@
        }),
{
    let params = JsonView::Object(map!["workspaceId"@ => JsonView::Text(workspace_id)]);
    report_holds_what_was_given(workspace_id, "codex/connected"@, params);
}

/// The monitor gives its name, its title and its version, and nothing else.
pub proof fn client_gives_name_title_version()
    ensures
        client_info().get("clientInfo"@) matches Some(info) && {
            &&& info.get("name"@) == Some(JsonView::Text("codex_monitor"@))
            &&& info.get("title"@) == Some(JsonView::Text("CodexMonitor"@))
            &&& info.get("version"@) == Some(JsonView::Text("0.1.0"@))
            &&& forall|key: Seq<char>| #[trigger]
                info.has(key) <==> key == "name"@ || key == "title"@ || key == "version"@
        },
        forall|key: Seq<char>| #[trigger] client_info().has(key) <==> key == "clientInfo"@,
{
    reveal_strlit("name");
    reveal_strlit("title");
    reveal_strlit("version");
    assert("name"@.len() == 4);
    assert("title"@.len() == 5);
    assert("version"@.len() == 7);
}

/// A handshake in which nothing fails asks the server to initialize, tells it that its reply has
/// come, whatever the reply says, and then tells the window that this workspace is connected.
pub proof fn handshake_goes_through(reply: Json, workspace_id: Seq<char>)
    ensures
        ({
            let begun = handshake(HandshakeStep::Start, HandshakeEvent::Begun, workspace_id);
            let replied = handshake(begun.0, HandshakeEvent::Replied(Ok(reply)), workspace_id);
            let written = handshake(replied.0, HandshakeEvent::Written(Ok(())), workspace_id);
            &&& begun.1 matches HandshakeActionView::Request { method: asked, params }
            &&& asked == "initialize"@
            &&& params == client_info()
            &&& replied.1 matches HandshakeActionView::Notify { method: told }
            &&& told == "initialized"@
            &&& written.0 == HandshakeStep::Connected
            &&& written.1 matches HandshakeActionView::Emit(report)
            &&& report == connected_event_view(workspace_id)
        }),
{
}

/// A request that is not answered, or a message that is not written, ends the handshake with the
/// reason that was given, and the workspace is not reported as connected.
pub proof fn failure_ends_handshake(error: String, workspace_id: Seq<char>)
    ensures
        ({
            let unanswered = handshake(
                HandshakeStep::Initializing,
                HandshakeEvent::Replied(Err(error)),
                workspace_id,
            );
            let unwritten = handshake(
                HandshakeStep::Announcing,
                HandshakeEvent::Written(Err(error)),
                workspace_id,
            );
            &&& unanswered.0 == HandshakeStep::Failed
            &&& unwritten.0 == HandshakeStep::Failed
            &&& unanswered.1 matches HandshakeActionView::Fail(first)
            &&& first == error@
            &&& unwritten.1 matches HandshakeActionView::Fail(second)
            &&& second == error@
        }),
{
}

/// What does not belong to a step changes nothing and leads to nothing.
pub proof fn other_events_are_ignored(
    step: HandshakeStep,
    event: HandshakeEvent,
    workspace_id: Seq<char>,
)
    requires
        step == HandshakeStep::Start ==> !(event is Begun),
        step == HandshakeStep::Initializing ==> !(event is Replied),
        step == HandshakeStep::Announcing ==> !(event is Written),
    ensures
        handshake(step, event, workspace_id).0 == step,
        handshake(step, event, workspace_id).1 is Ignore,
{
}

/// What is to be done is seen with all that it takes.
pub proof fn actions_are_seen_as_they_are(action: HandshakeAction)
    ensures
        match action {
            HandshakeAction::Request { method, params } => {
                &&& action@ matches HandshakeActionView::Request { method: m, params: p }
                &&& m == method@
                &&& p == params@
            },
            HandshakeAction::Notify { method } => {
                &&& action@ matches HandshakeActionView::Notify { method: m }
                &&& m == method@
            },
            HandshakeAction::Emit(event) => {
                &&& action@ matches HandshakeActionView::Emit(e)
                &&& e.workspace_id == event.workspace_id@
                &&& e.message == event.message@
            },
            HandshakeAction::Fail(reason) => {
                &&& action@ matches HandshakeActionView::Fail(r)
                &&& r == reason@
            },
            HandshakeAction::Ignore => action@ is Ignore,
        },
{
}

} // verus!
