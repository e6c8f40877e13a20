//! What a session is asked for on behalf of the window.

use crate::handshake::client_info;
use crate::json::{Fields, Json, JsonView};
use crate::session::{
    notification_message, request_message, response_message, WorkspaceSession,
};
use crate::wire::{carries, depth_limit, readable, reserved_key};
use crate::workspace::optional_view;
use vstd::prelude::*;

verus! {

broadcast use vstd::string::group_string_axioms;

pub open spec fn optional_text(text: Option<Seq<char>>) -> JsonView {
    match text {
        Some(s) => JsonView::Text(s),
        None => JsonView::Null,
    }
}

/// Where a thread works, and that it asks before it acts.
pub open spec fn thread_params(path: Seq<char>) -> JsonView {
    JsonView::Object(
        map![
            "cwd"@ => JsonView::Text(path),
            "approvalPolicy"@ => JsonView::Text("on-request"@),
        ],
    )
}

/// What a turn may touch: it may write below the directory of the workspace, and use the network.
pub open spec fn sandbox_policy(path: Seq<char>) -> JsonView {
    JsonView::Object(
        map![
            "type"@ => JsonView::Text("workspaceWrite"@),
            "writableRoots"@ => JsonView::Array(seq![JsonView::Text(path)]),
            "networkAccess"@ => JsonView::Bool(true),
        ],
    )
}

/// A turn of a thread: what the user said, where the thread works, what it may touch, and the model
/// and effort that were asked for.
pub open spec fn turn_params(
    path: Seq<char>,
    thread_id: Seq<char>,
    text: Seq<char>,
    model: Option<Seq<char>>,
    effort: Option<Seq<char>>,
) -> JsonView {
    JsonView::Object(
        map![
            "threadId"@ => JsonView::Text(thread_id),
            "input"@ => JsonView::Array(
                seq![
                    JsonView::Object(
                        map![
                            "type"@ => JsonView::Text("text"@),
                            "text"@ => JsonView::Text(text),
                        ],
                    ),
                ],
            ),
            "cwd"@ => JsonView::Text(path),
            "approvalPolicy"@ => JsonView::Text("on-request"@),
            "sandboxPolicy"@ => sandbox_policy(path),
            "model"@ => optional_text(model),
            "effort"@ => optional_text(effort),
        ],
    )
}

pub open spec fn skills_params(path: Seq<char>) -> JsonView {
    JsonView::Object(map!["cwd"@ => JsonView::Text(path)])
}

impl<T> WorkspaceSession<T> {
    /// Starts a thread in the directory of the workspace: the line to write.
    pub fn start_thread(&mut self, waiting: T) -> (line: Result<String, String>)
        ensures
            final(self)@ == old(self)@.after_request(waiting),
            line matches Ok(l) && carries(
                l@,
                request_message(
                    old(self)@.next_id,
                    "thread/start"@,
                    thread_params(old(self)@.entry.path),
                ),
            ),
    {
        let params = Fields::new().with("cwd", Json::text(self.entry().path.as_str())).with(
            "approvalPolicy",
            Json::text("on-request"),
        ).object();
        self.send_request("thread/start", params, waiting)
    }

    /// Says something to a thread: the line to write.
    pub fn send_user_message(
        &mut self,
        thread_id: &str,
        text: &str,
        model: &Option<String>,
        effort: &Option<String>,
        waiting: T,
    ) -> (line: Result<String, String>)
        ensures
            final(self)@ == old(self)@.after_request(waiting),
            line matches Ok(l) && carries(
                l@,
                request_message(
                    old(self)@.next_id,
                    "turn/start"@,
                    turn_params(
                        old(self)@.entry.path,
                        thread_id@,
                        text@,
                        optional_view(*model),
                        optional_view(*effort),
                    ),
                ),
            ),
    {
        let path = self.entry().path.clone();
        let said = Fields::new().with("type", Json::text("text")).with(
            "text",
            Json::text(text),
        ).object();
        let sandbox = Fields::new().with("type", Json::text("workspaceWrite")).with(
            "writableRoots",
            Json::single(Json::text(path.as_str())),
        ).with("networkAccess", Json::Bool(true)).object();
        let params = Fields::new().with("threadId", Json::text(thread_id)).with(
            "input",
            Json::single(said),
        ).with("cwd", Json::text(path.as_str())).with(
            "approvalPolicy",
            Json::text("on-request"),
        ).with("sandboxPolicy", sandbox).with("model", Json::optional_text(model)).with(
            "effort",
            Json::optional_text(effort),
        ).object();
        self.send_request("turn/start", params, waiting)
    }

    /// Asks which models there are: the line to write.
    pub fn model_list(&mut self, waiting: T) -> (line: Result<String, String>)
        ensures
            final(self)@ == old(self)@.after_request(waiting),
            line matches Ok(l) && carries(
                l@,
                request_message(
                    old(self)@.next_id,
                    "model/list"@,
                    JsonView::Object(Map::empty()),
                ),
            ),
    {
        self.send_request("model/list", Fields::new().object(), waiting)
    }

    /// Asks which skills there are in the directory of the workspace: the line to write.
    pub fn skills_list(&mut self, waiting: T) -> (line: Result<String, String>)
        ensures
            final(self)@ == old(self)@.after_request(waiting),
            line matches Ok(l) && carries(
                l@,
                request_message(
                    old(self)@.next_id,
                    "skills/list"@,
                    skills_params(old(self)@.entry.path),
                ),
            ),
    {
        let params = Fields::new().with("cwd", Json::text(self.entry().path.as_str())).object();
        self.send_request("skills/list", params, waiting)
    }
}

/// A key that starts otherwise than with a dollar sign is not reserved.
proof fn lemma_not_reserved(key: Seq<char>)
    requires
        key.len() > 0,
        key[0] != '$',
    ensures
        !reserved_key(key),
{
    reveal_strlit("$serde_json::private::Number");
    reveal_strlit("$serde_json::private::RawValue");
    assert("$serde_json::private::Number"@[0] == '$');
    assert("$serde_json::private::RawValue"@[0] == '$');
}

/// A request is read back as it was sent, where its parameters are.
pub proof fn request_is_readable(id: u64, method: Seq<char>, params: JsonView, depth: nat)
    requires
        readable(params, depth),
    ensures
        readable(request_message(id, method, params), depth + 1),
{
    reveal_with_fuel(readable, 2);
    reveal_strlit("id");
    reveal_strlit("method");
    reveal_strlit("params");
    lemma_not_reserved("id"@);
    lemma_not_reserved("method"@);
    lemma_not_reserved("params"@);
}

/// A reply is read back as it was sent, where its result is.
pub proof fn response_is_readable(id: u64, result: JsonView, depth: nat)
    requires
        readable(result, depth),
    ensures
        readable(response_message(id, result), depth + 1),
{
    reveal_with_fuel(readable, 2);
    reveal_strlit("id");
    reveal_strlit("result");
    lemma_not_reserved("id"@);
    lemma_not_reserved("result"@);
}

/// A notification without parameters is read back as it was sent.
pub proof fn notification_is_readable(method: Seq<char>)
    ensures
        readable(notification_message(method, None), depth_limit()),
{
    reveal_with_fuel(readable, 2);
    reveal_strlit("method");
    lemma_not_reserved("method"@);
}

/// The request that opens a session is read back as it was sent.
pub proof fn initialize_is_readable(id: u64)
    ensures
        readable(request_message(id, "initialize"@, client_info()), depth_limit()),
{
    reveal_with_fuel(readable, 2);
    reveal_strlit("clientInfo");
    reveal_strlit("name");
    reveal_strlit("title");
    reveal_strlit("version");
    lemma_not_reserved("clientInfo"@);
    lemma_not_reserved("name"@);
    lemma_not_reserved("title"@);
    lemma_not_reserved("version"@);
    assert(readable(client_info()->Object_0["clientInfo"@], 125));
    assert(readable(client_info(), 126));
    request_is_readable(id, "initialize"@, client_info(), 126);
}

/// The requests for a thread, for the models and for the skills are read back as they were sent.
pub proof fn queries_are_readable(id: u64, path: Seq<char>)
    ensures
        readable(request_message(id, "thread/start"@, thread_params(path)), depth_limit()),
        readable(
            request_message(id, "model/list"@, JsonView::Object(Map::empty())),
            depth_limit(),
        ),
        readable(request_message(id, "skills/list"@, skills_params(path)), depth_limit()),
{
    reveal_with_fuel(readable, 2);
    reveal_strlit("cwd");
    reveal_strlit("approvalPolicy");
    lemma_not_reserved("cwd"@);
    lemma_not_reserved("approvalPolicy"@);
    assert(readable(thread_params(path), 126));
    assert(readable(JsonView::Object(Map::empty()), 126));
    assert(readable(skills_params(path), 126));
    request_is_readable(id, "thread/start"@, thread_params(path), 126);
    request_is_readable(id, "model/list"@, JsonView::Object(Map::empty()), 126);
    request_is_readable(id, "skills/list"@, skills_params(path), 126);
}

/// What a turn asks for is read back as it was sent, whatever the user said.
pub proof fn turn_is_readable(
    id: u64,
    path: Seq<char>,
    thread_id: Seq<char>,
    text: Seq<char>,
    model: Option<Seq<char>>,
    effort: Option<Seq<char>>,
)
    ensures
        readable(
            request_message(id, "turn/start"@, turn_params(path, thread_id, text, model, effort)),
            depth_limit(),
        ),
{
    reveal_with_fuel(readable, 2);
    reveal_strlit("threadId");
    reveal_strlit("input");
    reveal_strlit("cwd");
    reveal_strlit("approvalPolicy");
    reveal_strlit("sandboxPolicy");
    reveal_strlit("model");
    reveal_strlit("effort");
    reveal_strlit("type");
    reveal_strlit("text");
    reveal_strlit("writableRoots");
    reveal_strlit("networkAccess");
    lemma_not_reserved("threadId"@);
    lemma_not_reserved("input"@);
    lemma_not_reserved("cwd"@);
    lemma_not_reserved("approvalPolicy"@);
    lemma_not_reserved("sandboxPolicy"@);
    lemma_not_reserved("model"@);
    lemma_not_reserved("effort"@);
    lemma_not_reserved("type"@);
    lemma_not_reserved("text"@);
    lemma_not_reserved("writableRoots"@);
    lemma_not_reserved("networkAccess"@);
    let params = turn_params(path, thread_id, text, model, effort);
    let said = JsonView::Object(
        map![
            "type"@ => JsonView::Text("text"@),
            "text"@ => JsonView::Text(text),
        ],
    );
    assert(readable(said, 124));
    assert(readable(JsonView::Array(seq![said]), 125));
    assert(readable(JsonView::Array(seq![JsonView::Text(path)]), 124));
    assert(readable(sandbox_policy(path), 125));
    assert(readable(params, 126));
    request_is_readable(id, "turn/start"@, params, 126);
}

proof fn lemma_turn_keys_differ()
    ensures
        "threadId"@ != "input"@ && "threadId"@ != "cwd"@ && "threadId"@ != "approvalPolicy"@
            && "threadId"@ != "sandboxPolicy"@ && "threadId"@ != "model"@ && "threadId"@
            != "effort"@,
        "input"@ != "cwd"@ && "input"@ != "approvalPolicy"@ && "input"@ != "sandboxPolicy"@
            && "input"@ != "model"@ && "input"@ != "effort"@,
        "cwd"@ != "approvalPolicy"@ && "cwd"@ != "sandboxPolicy"@ && "cwd"@ != "model"@ && "cwd"@
            != "effort"@,
        "approvalPolicy"@ != "sandboxPolicy"@ && "approvalPolicy"@ != "model"@ && "approvalPolicy"@
            != "effort"@,
        "sandboxPolicy"@ != "model"@ && "sandboxPolicy"@ != "effort"@,
        "model"@ != "effort"@,
{
    reveal_strlit("threadId");
    reveal_strlit("input");
    reveal_strlit("cwd");
    reveal_strlit("approvalPolicy");
    reveal_strlit("sandboxPolicy");
    reveal_strlit("model");
    reveal_strlit("effort");
    assert("threadId"@.len() == 8);
    assert("input"@.len() == 5 && "input"@[0] == 'i');
    assert("cwd"@.len() == 3);
    assert("approvalPolicy"@.len() == 14);
    assert("sandboxPolicy"@.len() == 13);
    assert("model"@.len() == 5 && "model"@[0] == 'm');
    assert("effort"@.len() == 6);
}

/// A text that is there is sent as it is, and `null` is sent only where there is none.
pub proof fn optional_text_is_kept(text: Seq<char>)
    ensures
        optional_text(Some(text)) == JsonView::Text(text),
        optional_text(None) == JsonView::Null,
{
}

/// A thread is started in the directory of the workspace, with approval on request, and nothing
/// else is said.
pub proof fn thread_works_in_workspace(path: Seq<char>)
    ensures
        thread_params(path).get("cwd"@) == Some(JsonView::Text(path)),
        thread_params(path).get("approvalPolicy"@) == Some(JsonView::Text("on-request"@)),
        forall|key: Seq<char>| #[trigger]
            thread_params(path).has(key) <==> key == "cwd"@ || key == "approvalPolicy"@,
{
    lemma_turn_keys_differ();
}

/// The skills are asked for in the directory of the workspace, and nothing else is said.
pub proof fn skills_are_those_of_workspace(path: Seq<char>)
    ensures
        skills_params(path).get("cwd"@) == Some(JsonView::Text(path)),
        forall|key: Seq<char>| #[trigger] skills_params(path).has(key) <==> key == "cwd"@,
{
}

/// A turn may write in the directory of the workspace and nowhere else, and may use the network.
pub proof fn turn_writes_in_workspace_alone(path: Seq<char>)
    ensures
        sandbox_policy(path).get("type"@) == Some(JsonView::Text("workspaceWrite"@)),
        sandbox_policy(path).get("writableRoots"@) matches Some(JsonView::Array(roots))
            && roots.len() == 1 && roots[0] == JsonView::Text(path),
        sandbox_policy(path).get("networkAccess"@) == Some(JsonView::Bool(true)),
        forall|key: Seq<char>| #[trigger]
            sandbox_policy(path).has(key) <==> key == "type"@ || key == "writableRoots"@ || key
                == "networkAccess"@,
{
    reveal_strlit("type");
    reveal_strlit("writableRoots");
    reveal_strlit("networkAccess");
    assert("type"@.len() == 4);
    assert("writableRoots"@.len() == 13 && "writableRoots"@[0] == 'w');
    assert("networkAccess"@.len() == 13 && "networkAccess"@[0] == 'n');
}

/// A turn says to the thread what the user said, in the directory of the workspace, with the model
/// and the effort that were asked for: a field for each of them, `null` only where nothing was asked
/// for, and nothing else is said.
pub proof fn turn_holds_what_was_given(
    path: Seq<char>,
    thread_id: Seq<char>,
    text: Seq<char>,
    model: Option<Seq<char>>,
    effort: Option<Seq<char>>,
)
    ensures
        ({
            let params = turn_params(path, thread_id, text, model, effort);
            &&& params.get("threadId"@) == Some(JsonView::Text(thread_id))
            &&& params.get("input"@) matches Some(JsonView::Array(input))
            &&& input.len() == 1
            &&& input[0].get("type"@) == Some(JsonView::Text("text"@))
            &&& input[0].get("text"@) == Some(JsonView::Text(text))
            &&& forall|key: Seq<char>| #[trigger]
                input[0].has(key) <==> key == "type"@ || key == "text"@
            &&& params.get("cwd"@) == Some(JsonView::Text(path))
            &&& params.get("approvalPolicy"@) == Some(JsonView::Text("on-request"@))
            &&& params.get("sandboxPolicy"@) == Some(sandbox_policy(path))
            &&& match model {
                Some(name) => params.get("model"@) == Some(JsonView::Text(name)),
                None => params.get("model"@) == Some(JsonView::Null),
            }
            &&& match effort {
                Some(level) => params.get("effort"@) == Some(JsonView::Text(level)),
                None => params.get("effort"@) == Some(JsonView::Null),
            }
            &&& forall|key: Seq<char>| #[trigger]
                params.has(key) <==> key == "threadId"@ || key == "input"@ || key == "cwd"@ || key
                    == "approvalPolicy"@ || key == "sandboxPolicy"@ || key == "model"@ || key
                    == "effort"@
        }),
{
    lemma_turn_keys_differ();
    reveal_strlit("type");
    reveal_strlit("text");
    assert("type"@[1] == 'y');
    assert("text"@[1] == 'e');
}

/// Turns that differ in the workspace, the thread, the text, the model or the effort are sent as
/// different requests.
pub proof fn turns_are_told_apart(
    path: Seq<char>,
    thread_id: Seq<char>,
    text: Seq<char>,
    model: Option<Seq<char>>,
    effort: Option<Seq<char>>,
    other_path: Seq<char>,
    other_thread_id: Seq<char>,
    other_text: Seq<char>,
    other_model: Option<Seq<char>>,
    other_effort: Option<Seq<char>>,
)
    requires
        turn_params(path, thread_id, text, model, effort) == turn_params(
            other_path,
            other_thread_id,
            other_text,
            other_model,
            other_effort,
        ),
    ensures
        path == other_path,
        thread_id == other_thread_id,
        text == other_text,
        model == other_model,
        effort == other_effort,
{
    turn_holds_what_was_given(path, thread_id, text, model, effort);
    turn_holds_what_was_given(
        other_path,
        other_thread_id,
        other_text,
        other_model,
        other_effort,
    );
}

} // verus!
