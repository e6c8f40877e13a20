use codex_monitor::handshake::{
    handshake_next, server_command, HandshakeAction, HandshakeEvent, HandshakeStep,
};
use codex_monitor::json::Json;
use codex_monitor::session::{
    request_outcome, route_message, send_notification, send_response, Delivery, Route,
    WorkspaceSession,
};
use codex_monitor::wire::{into_value, parse};
use codex_monitor::workspace::WorkspaceEntry;

fn entry(codex_bin: Option<&str>) -> WorkspaceEntry {
    WorkspaceEntry {
        id: "w1".to_string(),
        name: "proj".to_string(),
        path: "/home/me/proj".to_string(),
        codex_bin: codex_bin.map(|bin| bin.to_string()),
    }
}

fn session() -> WorkspaceSession<&'static str> {
    WorkspaceSession::new(entry(None))
}

fn value(text: &str) -> serde_json::Value {
    serde_json::from_str(text).unwrap()
}

fn sent(line: Result<String, String>) -> serde_json::Value {
    let line = line.unwrap();
    assert!(line.ends_with('\n'));
    value(line.trim_end())
}

fn routed(text: &str) -> Route {
    route_message(&parse(text).unwrap())
}

#[test]
fn requests_are_numbered_from_one() {
    let mut session = session();
    let first = session.send_request("a", Json::Null, "first").unwrap();
    assert_eq!(first, "{\"id\":1,\"method\":\"a\",\"params\":null}\n");
    let second = session.send_request("b", Json::Array(vec![]), "second").unwrap();
    assert_eq!(second, "{\"id\":2,\"method\":\"b\",\"params\":[]}\n");
}

#[test]
fn messages_are_routed() {
    assert!(matches!(routed(r#"{"id":4,"result":null}"#), Route::Reply(4)));
    assert!(matches!(routed(r#"{"id":4,"error":{}}"#), Route::Reply(4)));
    assert!(matches!(routed(r#"{"id":4,"method":"m","result":1}"#), Route::Reply(4)));
    assert!(matches!(routed(r#"{"id":4,"method":"m"}"#), Route::Event));
    assert!(matches!(routed(r#"{"id":4}"#), Route::Reply(4)));
    assert!(matches!(routed(r#"{"method":"m"}"#), Route::Event));
    assert!(matches!(routed(r#"{"id":"4","method":"m"}"#), Route::Event));
    assert!(matches!(routed(r#"{"id":-4,"method":"m","result":1}"#), Route::Event));
    assert!(matches!(routed(r#"{"id":"4","result":1}"#), Route::Drop));
    assert!(matches!(routed(r#"{"result":1}"#), Route::Drop));
    assert!(matches!(routed(r#"["id","method"]"#), Route::Drop));
}

#[test]
fn a_reply_reaches_its_request_once() {
    let mut session = session();
    session.send_request("a", Json::Null, "first").unwrap();
    session.send_request("b", Json::Null, "second").unwrap();
    let reply = r#"{"id":1,"result":{"ok":true}}"#;
    match session.handle_stdout_line(reply) {
        Delivery::Reply(waiting, message) => {
            assert_eq!(waiting, "first");
            assert_eq!(into_value(message), value(reply));
        }
        _ => panic!("no reply"),
    }
    assert!(matches!(session.handle_stdout_line(reply), Delivery::Nothing));
    match session.handle_stdout_line(r#"{"id":2,"error":{"code":1}}"#) {
        Delivery::Reply(waiting, _) => assert_eq!(waiting, "second"),
        _ => panic!("no reply"),
    }
}

#[test]
fn replies_that_nobody_waits_for_are_dropped() {
    let mut session = session();
    session.send_request("a", Json::Null, "first").unwrap();
    assert!(matches!(session.handle_stdout_line(r#"{"id":9,"result":1}"#), Delivery::Nothing));
    assert!(matches!(session.handle_stdout_line(r#"{"id":9}"#), Delivery::Nothing));
    assert!(matches!(session.handle_stdout_line(r#"{"id":1}"#), Delivery::Reply("first", _)));
}

#[test]
fn requests_of_the_server_are_passed_on_and_leave_requests_waiting() {
    let mut session = session();
    session.send_request("a", Json::Null, "first").unwrap();
    let line = r#"{"id":1,"method":"approve","params":{"x":1.5}}"#;
    match session.handle_stdout_line(line) {
        Delivery::Event(event) => {
            assert_eq!(event.workspace_id, "w1");
            assert_eq!(into_value(event.message), value(line));
        }
        _ => panic!("no event"),
    }
    assert!(matches!(session.handle_stdout_line(r#"{"id":1,"result":0}"#), Delivery::Reply(..)));
}

#[test]
fn blank_lines_lead_to_nothing() {
    let mut session = session();
    assert!(matches!(session.handle_stdout_line(""), Delivery::Nothing));
    assert!(matches!(session.handle_stdout_line(" \t\r"), Delivery::Nothing));
    assert!(session.handle_stderr_line("\u{2003}").is_none());
}

#[test]
fn lines_that_are_not_json_are_reported() {
    let mut session = session();
    let line = "{not json";
    let error = serde_json::from_str::<serde_json::Value>(line).unwrap_err().to_string();
    match session.handle_stdout_line(line) {
        Delivery::Event(event) => {
            assert_eq!(event.workspace_id, "w1");
            let message = into_value(event.message);
            assert_eq!(message["method"], "codex/parseError");
            assert_eq!(message["params"]["error"], error.as_str());
            assert_eq!(message["params"]["raw"], line);
            assert_eq!(message.as_object().unwrap().len(), 2);
            assert_eq!(message["params"].as_object().unwrap().len(), 2);
        }
        _ => panic!("no event"),
    }
}

#[test]
fn an_outcome_of_reading_can_be_handed_in() {
    let mut session = session();
    match session.handle_parsed("raw", Err("bad".to_string())) {
        Delivery::Event(event) => assert_eq!(
            into_value(event.message),
            value(r#"{"method":"codex/parseError","params":{"error":"bad","raw":"raw"}}"#),
        ),
        _ => panic!("no event"),
    }
}

#[test]
fn lines_on_standard_error_are_reported() {
    let event = session().handle_stderr_line("  boom ").unwrap();
    assert_eq!(event.workspace_id, "w1");
    assert_eq!(
        into_value(event.message),
        value(r#"{"method":"codex/stderr","params":{"message":"  boom "}}"#),
    );
}

#[test]
fn notifications_and_responses() {
    assert_eq!(send_notification("initialized", None).unwrap(), "{\"method\":\"initialized\"}\n");
    assert_eq!(
        send_notification("n", Some(Json::Bool(true))).unwrap(),
        "{\"method\":\"n\",\"params\":true}\n",
    );
    assert_eq!(send_response(12, Json::text("yes")).unwrap(), "{\"id\":12,\"result\":\"yes\"}\n");
}

#[test]
fn the_three_kinds_of_message_are_told_apart() {
    let mut session = session();
    let request = session.send_request("m", Json::Null, "x").unwrap();
    assert!(matches!(routed(&request), Route::Event));
    assert!(matches!(routed(&send_notification("m", None).unwrap()), Route::Event));
    assert!(matches!(routed(&send_response(5, Json::Null).unwrap()), Route::Reply(5)));
}

#[test]
fn a_request_without_a_reply_is_canceled() {
    assert_eq!(request_outcome(None), Err("request canceled".to_string()));
    assert_eq!(request_outcome(Some(Json::Bool(true))), Ok(Json::Bool(true)));
}

#[test]
fn threads_are_started_in_the_directory_of_the_workspace() {
    assert_eq!(
        sent(session().start_thread("t")),
        value(
            r#"{"id":1,"method":"thread/start",
                "params":{"cwd":"/home/me/proj","approvalPolicy":"on-request"}}"#
        ),
    );
}

#[test]
fn a_user_message_starts_a_turn() {
    let mut session = session();
    session.model_list("m").unwrap();
    let line = session.send_user_message("th", "hello\nworld", &Some("gpt".to_string()), &None, "t");
    assert_eq!(
        sent(line),
        value(
            r#"{"id":2,"method":"turn/start","params":{
                "threadId":"th",
                "input":[{"type":"text","text":"hello\nworld"}],
                "cwd":"/home/me/proj",
                "approvalPolicy":"on-request",
                "sandboxPolicy":{
                    "type":"workspaceWrite",
                    "writableRoots":["/home/me/proj"],
                    "networkAccess":true
                },
                "model":"gpt",
                "effort":null
            }}"#
        ),
    );
}

#[test]
fn models_and_skills_are_asked_for() {
    let mut session = session();
    assert_eq!(
        sent(session.model_list("m")),
        value(r#"{"id":1,"method":"model/list","params":{}}"#),
    );
    assert_eq!(
        sent(session.skills_list("s")),
        value(r#"{"id":2,"method":"skills/list","params":{"cwd":"/home/me/proj"}}"#),
    );
}

#[test]
fn the_program_is_the_one_that_the_workspace_names() {
    let command = server_command(&entry(Some("/opt/codex")));
    assert_eq!(command.program, "/opt/codex");
    assert_eq!(command.args, ["app-server"]);
    assert_eq!(server_command(&entry(None)).program, "codex");
}

#[test]
fn a_handshake_asks_announces_and_connects() {
    let (step, action) = handshake_next(HandshakeStep::Start, HandshakeEvent::Begun, "w1");
    assert_eq!(step, HandshakeStep::Initializing);
    match action {
        HandshakeAction::Request { method, params } => {
            assert_eq!(method, "initialize");
            assert_eq!(
                into_value(params),
                value(
                    r#"{"clientInfo":{
                        "name":"codex_monitor","title":"CodexMonitor","version":"0.1.0"}}"#
                ),
            );
        }
        _ => panic!("no request"),
    }
    let reply = HandshakeEvent::Replied(Ok(parse(r#"{"id":1,"error":{}}"#).unwrap()));
    let (step, action) = handshake_next(step, reply, "w1");
    assert_eq!(step, HandshakeStep::Announcing);
    assert!(matches!(action, HandshakeAction::Notify { method } if method == "initialized"));
    let (step, action) = handshake_next(step, HandshakeEvent::Written(Ok(())), "w1");
    assert_eq!(step, HandshakeStep::Connected);
    match action {
        HandshakeAction::Emit(event) => {
            assert_eq!(event.workspace_id, "w1");
            assert_eq!(
                into_value(event.message),
                value(r#"{"method":"codex/connected","params":{"workspaceId":"w1"}}"#),
            );
        }
        _ => panic!("no event"),
    }
}

#[test]
fn a_handshake_fails_where_a_message_does_not_go_through() {
    let lost = HandshakeEvent::Replied(Err("request canceled".to_string()));
    let (step, action) = handshake_next(HandshakeStep::Initializing, lost, "w1");
    assert_eq!(step, HandshakeStep::Failed);
    assert!(matches!(action, HandshakeAction::Fail(reason) if reason == "request canceled"));
    let broken = HandshakeEvent::Written(Err("broken pipe".to_string()));
    let (step, action) = handshake_next(HandshakeStep::Announcing, broken, "w1");
    assert_eq!(step, HandshakeStep::Failed);
    assert!(matches!(action, HandshakeAction::Fail(reason) if reason == "broken pipe"));
}

#[test]
fn a_handshake_ignores_what_does_not_belong_to_its_step() {
    let (step, action) =
        handshake_next(HandshakeStep::Start, HandshakeEvent::Written(Ok(())), "w1");
    assert_eq!(step, HandshakeStep::Start);
    assert!(matches!(action, HandshakeAction::Ignore));
    for finished in [HandshakeStep::Connected, HandshakeStep::Failed] {
        let (step, action) = handshake_next(finished, HandshakeEvent::Begun, "w1");
        assert_eq!(step, finished);
        assert!(matches!(action, HandshakeAction::Ignore));
    }
}
