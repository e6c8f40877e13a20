//! A session with the app server of a workspace: requests and their replies, and what the server
//! says on its own.

use crate::json::{Fields, Json, JsonView};
use crate::text::{blank, is_blank};
use crate::wire::{carries, json_parse, parse, parsed_json_view, reads_as, write_message};
use crate::workspace::{EntryView, WorkspaceEntry};
use std::collections::HashMap;
use vstd::prelude::*;

verus! {

broadcast use {vstd::string::group_string_axioms, vstd::std_specs::hash::group_hash_axioms};

/// What the monitor tells its window of a workspace.
pub struct AppServerEvent {
    pub workspace_id: String,
    pub message: Json,
}

pub struct EventView {
    pub workspace_id: Seq<char>,
    pub message: JsonView,
}

impl View for AppServerEvent {
    type V = EventView;

    open spec fn view(&self) -> EventView {
        EventView { workspace_id: self.workspace_id@, message: self.message@ }
    }
}

/// A message that asks for a reply.
pub open spec fn request_message(id: u64, method: Seq<char>, params: JsonView) -> JsonView {
    JsonView::Object(
        map![
            "id"@ => JsonView::integer(id as int),
            "method"@ => JsonView::Text(method),
            "params"@ => params,
        ],
    )
}

/// A message that asks for nothing.
pub open spec fn notification_message(method: Seq<char>, params: Option<JsonView>) -> JsonView {
    match params {
        Some(p) => JsonView::Object(
            map![
                "method"@ => JsonView::Text(method),
                "params"@ => p,
            ],
        ),
        None => JsonView::Object(map!["method"@ => JsonView::Text(method)]),
    }
}

/// A message that replies to the server.
pub open spec fn response_message(id: u64, result: JsonView) -> JsonView {
    JsonView::Object(
        map![
            "id"@ => JsonView::integer(id as int),
            "result"@ => result,
        ],
    )
}

/// What becomes of a message from the server.
pub enum Route {
    /// It replies to the request with this number.
    Reply(u64),
    /// It is passed on to the window.
    Event,
    /// Nothing is done with it.
    Drop,
}

/// A message with a result or an error replies to the request whose number it bears; without
/// either, one with a method is passed on, and only then does a bare number make a reply. A message
/// without a number is passed on if it has a method.
pub open spec fn route(message: JsonView) -> Route {
    let id = match message.get("id"@) {
        Some(value) => value.as_u64(),
        None => None,
    };
    match id {
        Some(id) => if message.has("result"@) || message.has("error"@) || !message.has("method"@) {
            Route::Reply(id)
        } else {
            Route::Event
        },
        None => if message.has("method"@) {
            Route::Event
        } else {
            Route::Drop
        },
    }
}

/// What becomes of a message from the server.
pub fn route_message(message: &Json) -> (decision: Route)
    ensures
        decision == route(message@),
{
    let id = match message.get("id") {
        Some(value) => value.as_u64(),
        None => None,
    };
    let has_method = message.has("method");
    let has_result_or_error = message.has("result") || message.has("error");
    match id {
        Some(id) => if has_result_or_error {
            Route::Reply(id)
        } else if has_method {
            Route::Event
        } else {
            Route::Reply(id)
        },
        None => if has_method {
            Route::Event
        } else {
            Route::Drop
        },
    }
}

/// What a line from the server leads to: a reply for whoever waits for it, an event for the
/// window, or nothing.
pub enum Delivery<T> {
    Nothing,
    Reply(T, Json),
    Event(AppServerEvent),
}

pub enum DeliveryView<T> {
    Nothing,
    Reply(T, JsonView),
    Event(EventView),
}

impl<T> View for Delivery<T> {
    type V = DeliveryView<T>;

    open spec fn view(&self) -> DeliveryView<T> {
        match *self {
            Delivery::Nothing => DeliveryView::Nothing,
            Delivery::Reply(waiting, message) => DeliveryView::Reply(waiting, message@),
            Delivery::Event(event) => DeliveryView::Event(event@),
        }
    }
}

/// A session: its workspace, who waits for a reply to which request, and the number of the next
/// request.
pub struct WorkspaceSession<T> {
    entry: WorkspaceEntry,
    pending: HashMap<u64, T>,
    next_id: u64,
}

pub struct SessionView<T> {
    pub entry: EntryView,
    pub pending: Map<u64, T>,
    pub next_id: u64,
}

impl<T> View for WorkspaceSession<T> {
    type V = SessionView<T>;

    closed spec fn view(&self) -> SessionView<T> {
        SessionView { entry: self.entry@, pending: self.pending@, next_id: self.next_id }
    }
}

/// The number after `id`. The numbers start over at zero after the last.
pub open spec fn following(id: u64) -> u64 {
    if id == u64::MAX {
        0
    } else {
        (id + 1) as u64
    }
}

impl<T> SessionView<T> {
    /// The session of a workspace as it begins: nobody waits, and the first request has number 1.
    pub open spec fn new(entry: EntryView) -> SessionView<T> {
        SessionView { entry, pending: Map::empty(), next_id: 1 }
    }

    /// The session after a request that `waiting` waits for the reply to.
    pub open spec fn after_request(self, waiting: T) -> SessionView<T> {
        SessionView {
            entry: self.entry,
            pending: self.pending.insert(self.next_id, waiting),
            next_id: following(self.next_id),
        }
    }

    /// The session after a message from the server, and what the message leads to.
    pub open spec fn after_message(self, message: JsonView) -> (SessionView<T>, DeliveryView<T>) {
        match route(message) {
            Route::Reply(id) => if self.pending.contains_key(id) {
                (
                    SessionView { pending: self.pending.remove(id), ..self },
                    DeliveryView::Reply(self.pending[id], message),
                )
            } else {
                (self, DeliveryView::Nothing)
            },
            Route::Event => (
                self,
                DeliveryView::Event(EventView { workspace_id: self.entry.id, message }),
            ),
            Route::Drop => (self, DeliveryView::Nothing),
        }
    }
}

impl<T> WorkspaceSession<T> {
    pub fn new(entry: WorkspaceEntry) -> (session: Self)
        ensures
            session@ == SessionView::<T>::new(entry@),
    {
        WorkspaceSession { entry, pending: HashMap::new(), next_id: 1 }
    }

    /// The workspace of the session.
    pub fn entry(&self) -> (entry: &WorkspaceEntry)
        ensures
            entry@ == self@.entry,
    {
        &self.entry
    }

    /// Sends a request that `waiting` waits for the reply to: the line to write.
    pub fn send_request(&mut self, method: &str, params: Json, waiting: T) -> (line: Result<
        String,
        String,
    >)
        ensures
            final(self)@ == old(self)@.after_request(waiting),
            line matches Ok(l) && carries(
                l@,
                request_message(old(self)@.next_id, method@, params@),
            ),
    {
        let id: u64 = self.next_id;
        self.next_id = id.wrapping_add(1);
        self.pending.insert(id, waiting);
        let message = Fields::new().with("id", Json::unsigned(id)).with(
            "method",
            Json::text(method),
        ).with("params", params).object();
        write_message(message)
    }

    /// Deals with a message from the server.
    pub fn handle_message(&mut self, message: Json) -> (delivery: Delivery<T>)
        ensures
            (final(self)@, delivery@) == old(self)@.after_message(message@),
            delivery matches Delivery::Reply(_, m) ==> m == message,
            delivery matches Delivery::Event(e) ==> e.message == message && e.workspace_id@ == old(
                self,
            )@.entry.id,
            message@.has("method"@) && !message@.has("id"@) ==> delivery is Event,
    {
        match route_message(&message) {
            Route::Reply(id) => match self.pending.remove(&id) {
                Some(waiting) => Delivery::Reply(waiting, message),
                None => {
                    assert(self.pending@ =~= old(self).pending@);
                    Delivery::Nothing
                },
            },
            Route::Event => Delivery::Event(
                AppServerEvent { workspace_id: self.entry.id.clone(), message },
            ),
            Route::Drop => Delivery::Nothing,
        }
    }

    /// Deals with a line that the server wrote to its standard output. Blank lines say nothing, and
    /// a line that is not JSON is reported.
    pub fn handle_stdout_line(&mut self, line: &str) -> (delivery: Delivery<T>)
        ensures
            (final(self)@, delivery@) == old(self)@.after_line(line@),
    {
        if is_blank(line) {
            return Delivery::Nothing;
        }
        let parsed = parse(line);
        self.handle_parsed(line, parsed)
    }

    /// Deals with a line that was read as JSON, or could not be.
    pub fn handle_parsed(&mut self, line: &str, parsed: Result<Json, String>) -> (delivery:
        Delivery<T>)
        ensures
            (final(self)@, delivery@) == old(self)@.after_parse(line@, parsed_json_view(parsed)),
    {
        match parsed {
            Ok(message) => self.handle_message(message),
            Err(error) => Delivery::Event(
                parse_error_event(self.entry.id.as_str(), error.as_str(), line),
            ),
        }
    }

    /// Deals with a line that the server wrote to its standard error. Blank lines say nothing, any
    /// other is reported.
    pub fn handle_stderr_line(&self, line: &str) -> (event: Option<AppServerEvent>)
        ensures
            match event {
                Some(e) => !blank(line@) && e@ == stderr_event_view(self@.entry.id, line@),
                None => blank(line@),
            },
    {
        if is_blank(line) {
            return None;
        }
        let params = Fields::new().with("message", Json::text(line)).object();
        Some(event(self.entry.id.as_str(), "codex/stderr", params))
    }
}

/// A message of the monitor's own for the window.
pub open spec fn event_view(
    workspace_id: Seq<char>,
    method: Seq<char>,
    params: JsonView,
) -> EventView {
    EventView { workspace_id, message: notification_message(method, Some(params)) }
}

/// The report of a line that is not JSON.
pub open spec fn parse_error_view(
    workspace_id: Seq<char>,
    error: Seq<char>,
    raw: Seq<char>,
) -> EventView {
    event_view(
        workspace_id,
        "codex/parseError"@,
        JsonView::Object(
            map![
                "error"@ => JsonView::Text(error),
                "raw"@ => JsonView::Text(raw),
            ],
        ),
    )
}

/// The report of a line on standard error.
pub open spec fn stderr_event_view(workspace_id: Seq<char>, line: Seq<char>) -> EventView {
    event_view(
        workspace_id,
        "codex/stderr"@,
        JsonView::Object(map!["message"@ => JsonView::Text(line)]),
    )
}

impl<T> SessionView<T> {
    /// The session after a line from the server, and what the line leads to.
    pub open spec fn after_line(self, line: Seq<char>) -> (SessionView<T>, DeliveryView<T>) {
        if blank(line) {
            (self, DeliveryView::Nothing)
        } else {
            self.after_parse(line, json_parse(line))
        }
    }

    /// The session after a line that was read as JSON, or could not be, and what it leads to.
    pub open spec fn after_parse(
        self,
        line: Seq<char>,
        parsed: Result<JsonView, Seq<char>>,
    ) -> (SessionView<T>, DeliveryView<T>) {
        match parsed {
            Ok(message) => self.after_message(message),
            Err(error) => (
                self,
                DeliveryView::Event(parse_error_view(self.entry.id, error, line)),
            ),
        }
    }
}

/// A message of the monitor's own for the window.
pub fn event(workspace_id: &str, method: &str, params: Json) -> (event: AppServerEvent)
    ensures
        event@ == event_view(workspace_id@, method@, params@),
        event.workspace_id@ == workspace_id@,
        event.message@.get("method"@) == Some(JsonView::Text(method@)),
        event.message@.get("params"@) == Some(params@),
{
    let message = Fields::new().with("method", Json::text(method)).with("params", params).object();
    proof {
        lemma_keys_differ();
    }
    AppServerEvent { workspace_id: workspace_id.to_owned(), message }
}

/// The report of a line that is not JSON.
fn parse_error_event(workspace_id: &str, error: &str, raw: &str) -> (report: AppServerEvent)
    ensures
        report@ == parse_error_view(workspace_id@, error@, raw@),
{
    let params = Fields::new().with("error", Json::text(error)).with("raw", Json::text(
        raw,
    )).object();
    event(workspace_id, "codex/parseError", params)
}

pub open spec fn optional_json_view(json: Option<Json>) -> Option<JsonView> {
    match json {
        Some(j) => Some(j@),
        None => None,
    }
}

/// Sends a message that asks for nothing: the line to write.
pub fn send_notification(method: &str, params: Option<Json>) -> (line: Result<String, String>)
    ensures
        line matches Ok(l) && carries(
            l@,
            notification_message(method@, optional_json_view(params)),
        ),
        match params {
            Some(p) => line matches Ok(l) && carries(l@, notification_message(method@, Some(p@))),
            None => line matches Ok(l) && carries(l@, notification_message(method@, None)),
        },
{
    let fields = Fields::new().with("method", Json::text(method));
    let message = match params {
        Some(params) => fields.with("params", params).object(),
        None => fields.object(),
    };
    write_message(message)
}

/// Replies to a request of the server: the line to write.
pub fn send_response(id: u64, result: Json) -> (line: Result<String, String>)
    ensures
        line matches Ok(l) && carries(l@, response_message(id, result@)),
{
    let message = Fields::new().with("id", Json::unsigned(id)).with("result", result).object();
    write_message(message)
}

/// What a request came to, once its reply has arrived or is known never to.
pub fn request_outcome(reply: Option<Json>) -> (outcome: Result<Json, String>)
    ensures
        match reply {
            Some(message) => outcome matches Ok(m) && m@ == message@,
            None => outcome matches Err(error) && error@ == "request canceled"@,
        },
{
    match reply {
        Some(message) => Ok(message),
        None => Err("request canceled".to_owned()),
    }
}

proof fn lemma_keys_differ()
    ensures
        "id"@ != "method"@,
        "id"@ != "params"@,
        "id"@ != "result"@,
        "id"@ != "error"@,
        "method"@ != "params"@,
        "method"@ != "result"@,
        "method"@ != "error"@,
        "params"@ != "result"@,
        "params"@ != "error"@,
        "result"@ != "error"@,
{
    reveal_strlit("id");
    reveal_strlit("method");
    reveal_strlit("params");
    reveal_strlit("result");
    reveal_strlit("error");
    assert("id"@.len() == 2);
    assert("error"@.len() == 5);
    assert("method"@[0] == 'm');
    assert("params"@[0] == 'p');
    assert("result"@[0] == 'r');
}

/// A request is told from a reply: it is passed on, whatever its number.
pub proof fn request_is_an_event(id: u64, method: Seq<char>, params: JsonView)
    ensures
        route(request_message(id, method, params)) == Route::Event,
{
    lemma_keys_differ();
}

/// A notification is passed on.
pub proof fn notification_is_an_event(method: Seq<char>, params: Option<JsonView>)
    ensures
        route(notification_message(method, params)) == Route::Event,
{
    lemma_keys_differ();
}

/// A reply with a result goes to the request whose number it bears.
pub proof fn response_is_a_reply(id: u64, result: JsonView)
    ensures
        route(response_message(id, result)) == Route::Reply(id),
{
    lemma_keys_differ();
}

impl<T> SessionView<T> {
    /// The numbers of the requests that are waited for have been given out, and are not those of
    /// requests to come.
    pub open spec fn numbered(self) -> bool {
        &&& 1 <= self.next_id
        &&& forall|id: u64| #[trigger] self.pending.contains_key(id) ==> 1 <= id < self.next_id
    }

    /// A reply to a request reaches the one that waits for it, with the message as it came, and
    /// nobody waits for that reply any longer. The others wait as before.
    pub proof fn reply_reaches_its_request(self, waiting: T, message: JsonView)
        requires
            route(message) == Route::Reply(self.next_id),
        ensures
            ({
                let (after, delivery) = self.after_request(waiting).after_message(message);
                &&& delivery == DeliveryView::Reply(waiting, message)
                &&& after.pending == self.pending.remove(self.next_id)
                &&& after.next_id == following(self.next_id)
                &&& after.entry == self.entry
            }),
    {
        let sent = self.after_request(waiting);
        assert(sent.pending.remove(self.next_id) =~= self.pending.remove(self.next_id));
    }

    /// A request is answered once: a second reply to it is dropped.
    pub proof fn second_reply_is_dropped(self, id: u64, first: JsonView, second: JsonView)
        requires
            route(first) == Route::Reply(id),
            route(second) == Route::Reply(id),
        ensures
            ({
                let after = self.after_message(first).0;
                after.after_message(second) == (after, DeliveryView::<T>::Nothing)
            }),
    {
    }

    /// A reply leaves all those alone that wait for another.
    pub proof fn reply_leaves_others_waiting(self, id: u64, message: JsonView)
        requires
            route(message) == Route::Reply(id),
        ensures
            forall|other: u64|
                other != id && #[trigger] self.pending.contains_key(other) ==> {
                    let after = self.after_message(message).0;
                    after.pending.contains_key(other) && after.pending[other]
                        == self.pending[other]
                },
    {
    }

    /// What is passed on to the window, or dropped, leaves all those waiting that wait.
    pub proof fn events_leave_requests_waiting(self, message: JsonView)
        requires
            !(route(message) is Reply),
        ensures
            self.after_message(message).0 == self,
    {
    }

    /// A session begins with its requests numbered.
    pub proof fn begins_numbered(entry: EntryView)
        ensures
            SessionView::<T>::new(entry).numbered(),
    {
    }

    /// A request leaves the requests numbered, as long as the numbers last.
    pub proof fn request_keeps_numbered(self, waiting: T)
        requires
            self.numbered(),
            self.next_id < u64::MAX,
        ensures
            self.after_request(waiting).numbered(),
    {
    }

    /// A line from the server leaves the requests numbered.
    pub proof fn line_keeps_numbered(self, line: Seq<char>)
        requires
            self.numbered(),
        ensures
            self.after_line(line).0.numbered(),
    {
    }

    /// As long as the numbers last, a request takes a number that nobody waits for, and so no
    /// request loses its reply to a later one.
    pub proof fn request_displaces_none(self, waiting: T)
        requires
            self.numbered(),
        ensures
            !self.pending.contains_key(self.next_id),
            forall|id: u64| #[trigger]
                self.pending.contains_key(id) ==> self.after_request(waiting).pending.contains_key(
                    id,
                ) && self.after_request(waiting).pending[id] == self.pending[id],
    {
    }

    /// The whole way: the line that the server replies to a request with reaches the one that
    /// waits, and leaves the session as it was before the request, but for the next number.
    pub proof fn request_and_reply(self, waiting: T, line: Seq<char>, result: JsonView)
        requires
            self.numbered(),
            !blank(line),
            reads_as(line, response_message(self.next_id, result)),
        ensures
            self.after_request(waiting).after_line(line) == (
                SessionView { next_id: following(self.next_id), ..self },
                DeliveryView::Reply(waiting, response_message(self.next_id, result)),
            ),
    {
        response_is_a_reply(self.next_id, result);
        let sent = self.after_request(waiting);
        assert(!self.pending.contains_key(self.next_id));
        assert(sent.pending.remove(self.next_id) =~= self.pending);
    }
}

/// A request holds its number, its method and its parameters as they were given, and nothing else.
pub proof fn request_holds_what_was_given(id: u64, method: Seq<char>, params: JsonView)
    ensures
        ({
            let message = request_message(id, method, params);
            &&& message.get("id"@) == Some(JsonView::integer(id as int))
            &&& message.get("method"@) == Some(JsonView::Text(method))
            &&& message.get("params"@) == Some(params)
            &&& forall|key: Seq<char>| #[trigger]
                message.has(key) <==> key == "id"@ || key == "method"@ || key == "params"@
        }),
{
    lemma_keys_differ();
}

/// A notification holds its method, and its parameters as they were given where there are any, and
/// nothing else.
pub proof fn notification_holds_what_was_given(method: Seq<char>, params: Option<JsonView>)
    ensures
        ({
            let message = notification_message(method, params);
            &&& message.get("method"@) == Some(JsonView::Text(method))
            &&& message.get("params"@) == params
            &&& forall|key: Seq<char>| #[trigger]
                message.has(key) <==> key == "method"@ || (key == "params"@ && params is Some)
        }),
{
    lemma_keys_differ();
}

/// A reply to the server holds the number of the server's request and the result as it was given,
/// whatever kind of value that is, and nothing else.
pub proof fn response_holds_what_was_given(id: u64, result: JsonView)
    ensures
        ({
            let message = response_message(id, result);
            &&& message.get("id"@) == Some(JsonView::integer(id as int))
            &&& message.get("result"@) == Some(result)
            &&& forall|key: Seq<char>| #[trigger]
                message.has(key) <==> key == "id"@ || key == "result"@
        }),
{
    lemma_keys_differ();
}

/// Requests that differ in anything go out as different messages.
pub proof fn requests_are_told_apart(
    id: u64,
    method: Seq<char>,
    params: JsonView,
    other_id: u64,
    other_method: Seq<char>,
    other_params: JsonView,
)
    requires
        request_message(id, method, params) == request_message(
            other_id,
            other_method,
            other_params,
        ),
    ensures
        id == other_id,
        method == other_method,
        params == other_params,
{
    request_holds_what_was_given(id, method, params);
    request_holds_what_was_given(other_id, other_method, other_params);
}

/// Replies that differ in their number or their result go out as different messages.
pub proof fn responses_are_told_apart(
    id: u64,
    result: JsonView,
    other_id: u64,
    other_result: JsonView,
)
    requires
        response_message(id, result) == response_message(other_id, other_result),
    ensures
        id == other_id,
        result == other_result,
{
    response_holds_what_was_given(id, result);
    response_holds_what_was_given(other_id, other_result);
}

/// A message with a number is a reply to that request if it has a result or an error, or no
/// method; otherwise it is the server's own request, and is passed on.
pub proof fn numbered_message_goes(message: JsonView, id: u64)
    requires
        message.get("id"@) == Some(JsonView::integer(id as int)),
    ensures
        message.has("result"@) ==> route(message) == Route::Reply(id),
        message.has("error"@) ==> route(message) == Route::Reply(id),
        !message.has("method"@) ==> route(message) == Route::Reply(id),
        message.has("method"@) && !message.has("result"@) && !message.has("error"@) ==> route(
            message,
        ) == Route::Event,
{
}

/// A message without a number is never a reply: it is passed on if it has a method, and otherwise
/// nothing is done with it.
pub proof fn unnumbered_message_goes(message: JsonView)
    requires
        forall|id: u64| message.get("id"@) != Some(#[trigger] JsonView::integer(id as int)),
    ensures
        message.has("method"@) ==> route(message) == Route::Event,
        !message.has("method"@) ==> route(message) == Route::Drop,
{
    if let Some(value) = message.get("id"@) {
        if let Some(n) = value.as_u64() {
            assert(value == JsonView::integer(n as int));
        }
    }
}

/// The report of the monitor's own for the window bears the identifier of the workspace, and its
/// message the method and the parameters.
pub proof fn report_holds_what_was_given(
    workspace_id: Seq<char>,
    method: Seq<char>,
    params: JsonView,
)
    ensures
        event_view(workspace_id, method, params).workspace_id == workspace_id,
        event_view(workspace_id, method, params).message.get("method"@) == Some(
            JsonView::Text(method),
        ),
        event_view(workspace_id, method, params).message.get("params"@) == Some(params),
        route(event_view(workspace_id, method, params).message) == Route::Event,
{
    lemma_keys_differ();
}

/// A line that is not JSON is reported with the error and the line as they are.
pub proof fn parse_error_is_reported_whole(
    workspace_id: Seq<char>,
    error: Seq<char>,
    raw: Seq<char>,
)
    ensures
        ({
            let report = parse_error_view(workspace_id, error, raw);
            &&& report.workspace_id == workspace_id
            &&& report.message.get("method"@) == Some(JsonView::Text("codex/parseError"@))
            &&& report.message.get("params"@) matches Some(params)
            &&& params.get("error"@) == Some(JsonView::Text(error))
            &&& params.get("raw"@) == Some(JsonView::Text(raw))
            &&& forall|key: Seq<char>| #[trigger]
                params.has(key) <==> key == "error"@ || key == "raw"@
        }),
{
    lemma_keys_differ();
    reveal_strlit("error");
    reveal_strlit("raw");
    assert("error"@.len() == 5);
    assert("raw"@.len() == 3);
}

/// A line on standard error is reported as it is.
pub proof fn stderr_line_is_reported_whole(workspace_id: Seq<char>, line: Seq<char>)
    ensures
        ({
            let report = stderr_event_view(workspace_id, line);
            &&& report.workspace_id == workspace_id
            &&& report.message.get("method"@) == Some(JsonView::Text("codex/stderr"@))
            &&& report.message.get("params"@) matches Some(params)
            &&& params.get("message"@) == Some(JsonView::Text(line))
            &&& forall|key: Seq<char>| #[trigger] params.has(key) <==> key == "message"@
        }),
{
    lemma_keys_differ();
}

impl<T> SessionView<T> {
    /// A session begins with nobody waiting, with number 1 to give out, for the workspace that it
    /// is of.
    pub proof fn begins_empty(entry: EntryView, id: u64)
        ensures
            SessionView::<T>::new(entry).entry == entry,
            SessionView::<T>::new(entry).next_id == 1,
            !SessionView::<T>::new(entry).pending.contains_key(id),
    {
    }

    /// A request is waited for under the number that it was given, the workspace stays the same,
    /// and the next request has the next number.
    pub proof fn request_is_waited_for(self, waiting: T)
        ensures
            ({
                let after = self.after_request(waiting);
                &&& after.pending.contains_key(self.next_id)
                &&& after.pending[self.next_id] == waiting
                &&& after.entry == self.entry
                &&& after.next_id != self.next_id
                &&& self.next_id < u64::MAX ==> after.next_id == self.next_id + 1
                &&& self.next_id == u64::MAX ==> after.next_id == 0
                &&& forall|id: u64|
                    id != self.next_id ==> (#[trigger] after.pending.contains_key(id)
                        <==> self.pending.contains_key(id))
            }),
    {
    }

    /// What is to be passed on is delivered as an event of the workspace, with the message as it
    /// came.
    pub proof fn event_is_delivered(self, message: JsonView)
        requires
            route(message) == Route::Event,
        ensures
            self.after_message(message).1 matches DeliveryView::Event(event)
                && event.workspace_id == self.entry.id && event.message == message,
    {
    }

    /// A notification of the server, which has a method and no number, reaches the window as it
    /// came, and leaves the session as it was.
    pub proof fn notification_reaches_window(self, message: JsonView)
        requires
            message.has("method"@),
            !message.has("id"@),
        ensures
            self.after_message(message).0 == self,
            self.after_message(message).1 matches DeliveryView::Event(event)
                && event.workspace_id == self.entry.id && event.message == message,
    {
        unnumbered_message_goes(message);
    }

    /// A request of the server, which has a method and a number but neither a result nor an error,
    /// reaches the window as it came, even if a request of the monitor with that number waits.
    pub proof fn server_request_reaches_window(self, message: JsonView)
        requires
            message.has("method"@),
            !message.has("result"@),
            !message.has("error"@),
        ensures
            self.after_message(message).0 == self,
            self.after_message(message).1 matches DeliveryView::Event(event)
                && event.workspace_id == self.entry.id && event.message == message,
    {
    }

    /// A reply is handed, as it came, to the one that waits for it; where nobody does, it leads to
    /// nothing and changes nothing.
    pub proof fn reply_is_handed_over(self, id: u64, message: JsonView)
        requires
            message.get("id"@) == Some(JsonView::integer(id as int)),
            message.has("result"@) || message.has("error"@) || !message.has("method"@),
        ensures
            ({
                let (after, delivery) = self.after_message(message);
                &&& self.pending.contains_key(id) ==> delivery == DeliveryView::Reply(
                    self.pending[id],
                    message,
                )
                &&& !self.pending.contains_key(id) ==> delivery == DeliveryView::<T>::Nothing
                    && after == self
                &&& !after.pending.contains_key(id)
                &&& after.entry == self.entry
                &&& after.next_id == self.next_id
            }),
    {
        numbered_message_goes(message, id);
    }

    /// Only a message without a number and without a method leads to nothing on its own account.
    pub proof fn nothing_else_is_dropped(self, message: JsonView)
        requires
            self.after_message(message).1 == DeliveryView::<T>::Nothing,
        ensures
            !message.has("method"@) || message.has("result"@) || message.has("error"@),
            forall|id: u64|
                message.get("id"@) == Some(#[trigger] JsonView::integer(id as int))
                    ==> !self.pending.contains_key(id),
    {
    }

    /// A line leads where its message does; a blank line leads to nothing; and any other line is
    /// reported, with the session left as it was.
    pub proof fn line_leads_where_its_message_does(self, line: Seq<char>, message: JsonView)
        ensures
            blank(line) ==> self.after_line(line) == (self, DeliveryView::<T>::Nothing),
            !blank(line) && json_parse(line) == Ok::<JsonView, Seq<char>>(message)
                ==> self.after_line(line) == self.after_message(message),
            json_parse(line) matches Err(error) ==> !blank(line) ==> {
                &&& self.after_line(line).0 == self
                &&& self.after_line(line).1 matches DeliveryView::Event(report)
                &&& report.workspace_id == self.entry.id
                &&& report.message.get("params"@) matches Some(params)
                &&& params.get("error"@) == Some(JsonView::Text(error))
                &&& params.get("raw"@) == Some(JsonView::Text(line))
            },
    {
        if let Err(error) = json_parse(line) {
            parse_error_is_reported_whole(self.entry.id, error, line);
        }
    }

    /// No line changes the workspace of a session or the number of its next request, and none makes
    /// anybody wait.
    pub proof fn line_makes_nobody_wait(self, line: Seq<char>, id: u64)
        ensures
            self.after_line(line).0.entry == self.entry,
            self.after_line(line).0.next_id == self.next_id,
            self.after_line(line).0.pending.contains_key(id) ==> self.pending.contains_key(id)
                && self.after_line(line).0.pending[id] == self.pending[id],
    {
    }
}

/// An event is seen with the workspace and the message that it holds, and a delivery with what it
/// delivers.
pub proof fn deliveries_are_seen_as_they_are<T>(event: AppServerEvent, delivery: Delivery<T>)
    ensures
        event@.workspace_id == event.workspace_id@,
        event@.message == event.message@,
        match delivery {
            Delivery::Nothing => delivery@ is Nothing,
            Delivery::Reply(waiting, message) => {
                &&& delivery@ matches DeliveryView::Reply(seen, content)
                &&& seen == waiting
                &&& content == message@
            },
            Delivery::Event(passed_on) => {
                &&& delivery@ matches DeliveryView::Event(seen)
                &&& seen.workspace_id == passed_on.workspace_id@
                &&& seen.message == passed_on.message@
            },
        },
{
}

} // verus!
