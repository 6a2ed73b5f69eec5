//! What the world sends to the clients of its users.

use crate::types::{Id, Message, MessageView};
use crate::value::{SerializableValue, ValueView};
use vstd::prelude::*;
use vstd::string::*;

verus! {

/// A new random name, as text. This is `Uuid::new_v4` of the `uuid` crate,
/// written with its `to_string`: the name is drawn at random, so nothing is
/// claimed of it.
#[verifier::external_body]
pub(crate) fn fresh_name() -> (r: String) {
    uuid::Uuid::new_v4().to_string()
}

/// One row of a client's chat window. Each row has a name of its own, drawn at
/// random when the row is made.
#[derive(Debug, Clone, PartialEq, Eq)]
pub enum ChatRowContent {
    TextContent { id: String, text: String },
    HtmlContent { id: String, html: String },
}

/// What a row shows: whether it is HTML, and its body.
pub struct RowView {
    pub is_html: bool,
    pub body: Seq<char>,
}

impl View for ChatRowContent {
    type V = RowView;

    open spec fn view(&self) -> RowView {
        match self {
            ChatRowContent::TextContent { id, text } => RowView { is_html: false, body: text@ },
            ChatRowContent::HtmlContent { id, html } => RowView { is_html: true, body: html@ },
        }
    }
}

impl ChatRowContent {
    /// A row of plain text.
    pub fn new(text: &str) -> (r: ChatRowContent)
        ensures
            r@ == (RowView { is_html: false, body: text@ }),
    {
        ChatRowContent::TextContent { id: fresh_name(), text: String::from_str(text) }
    }

    /// A row of HTML.
    pub fn new_html(html: &str) -> (r: ChatRowContent)
        ensures
            r@ == (RowView { is_html: true, body: html@ }),
    {
        ChatRowContent::HtmlContent { id: fresh_name(), html: String::from_str(html) }
    }
}

/// A message for the clients of one user.
#[derive(Debug, Clone, PartialEq, Eq)]
pub enum ToClientMessage {
    Tell { content: ChatRowContent },
    Backlog { history: Vec<ChatRowContent> },
    Log { level: String, message: String },
    EditFile { name: String, content: String },
}

/// What a message for a client shows.
pub enum ClientMessageView {
    Tell { content: RowView },
    Backlog { history: Seq<RowView> },
    Log { level: Seq<char>, message: Seq<char> },
    EditFile { name: Seq<char>, content: Seq<char> },
}

impl View for ToClientMessage {
    type V = ClientMessageView;

    open spec fn view(&self) -> ClientMessageView {
        match self {
            ToClientMessage::Tell { content } => ClientMessageView::Tell { content: content@ },
            ToClientMessage::Backlog { history } => ClientMessageView::Backlog {
                history: Seq::new(history.len() as nat, |i: int| history[i]@),
            },
            ToClientMessage::Log { level, message } => ClientMessageView::Log {
                level: level@,
                message: message@,
            },
            ToClientMessage::EditFile { name, content } => ClientMessageView::EditFile {
                name: name@,
                content: content@,
            },
        }
    }
}

/// The rows of HTML that show the given texts, in order.
pub open spec fn html_rows(texts: Seq<Seq<char>>) -> Seq<RowView> {
    Seq::new(texts.len(), |i: int| RowView { is_html: true, body: texts[i] })
}

/// The texts of a list of strings.
pub open spec fn texts_of(v: Seq<String>) -> Seq<Seq<char>> {
    Seq::new(v.len(), |i: int| v[i]@)
}

impl ToClientMessage {
    /// One row of HTML to show.
    pub fn tell_html(html: &str) -> (r: ToClientMessage)
        ensures
            r@ == (ClientMessageView::Tell { content: RowView { is_html: true, body: html@ } }),
    {
        ToClientMessage::Tell { content: ChatRowContent::new_html(html) }
    }

    /// Earlier rows of HTML to show, in order.
    pub fn backlog_html(messages: &Vec<String>) -> (r: ToClientMessage)
        ensures
            r@ == (ClientMessageView::Backlog { history: html_rows(texts_of(messages@)) }),
    {
        let mut history: Vec<ChatRowContent> = Vec::new();
        let mut i: usize = 0;
        while i < messages.len()
            invariant
                i <= messages.len(),
                history.len() == i,
                forall|j: int|
                    0 <= j < i ==> (#[trigger] history[j])@ == (RowView {
                        is_html: true,
                        body: messages[j]@,
                    }),
            decreases messages.len() - i,
        {
            history.push(ChatRowContent::new_html(messages[i].as_str()));
            i += 1;
        }
        let r = ToClientMessage::Backlog { history };
        assert(r@->Backlog_history =~= html_rows(texts_of(messages@)));
        r
    }

    /// A line for the client's log.
    pub fn log(level: &str, message: String) -> (r: ToClientMessage)
        ensures
            r@ == (ClientMessageView::Log { level: level@, message: message@ }),
    {
        ToClientMessage::Log { level: String::from_str(level), message }
    }

    /// A file for the client to edit.
    pub fn edit_file(name: String, content: String) -> (r: ToClientMessage)
        ensures
            r@ == (ClientMessageView::EditFile { name: name@, content: content@ }),
    {
        ToClientMessage::EditFile { name, content }
    }
}


/// What a client sends to the server.
#[derive(Debug, PartialEq)]
pub enum ToServerMessage {
    Login { username: String, user_type: String },
    Command { text: String },
    SendMessage { name: String, payload: SerializableValue },
    ReloadCode,
    SaveFile { name: String, content: String },
}

/// What the server does for a client that sent something.
#[derive(Debug, PartialEq)]
pub enum ClientRequest {
    /// Make the connection that of the user `username`, and tell the user's
    /// object that it is connected.
    Login { username: String },
    /// Send the message `name` to the user's object.
    Send { name: String, payload: SerializableValue },
    /// Bring the scripts up to date and load them anew.
    Reload,
}

/// The mathematical content of a `ClientRequest`.
pub enum RequestView {
    Login { username: Seq<char> },
    Send { name: Seq<char>, payload: ValueView },
    Reload,
}

impl View for ClientRequest {
    type V = RequestView;

    open spec fn view(&self) -> RequestView {
        match self {
            ClientRequest::Login { username } => RequestView::Login { username: username@ },
            ClientRequest::Send { name, payload } => RequestView::Send {
                name: name@,
                payload: payload@,
            },
            ClientRequest::Reload => RequestView::Reload,
        }
    }
}

/// The mathematical content of a `ToServerMessage`.
pub enum ToServerView {
    Login { username: Seq<char>, user_type: Seq<char> },
    Command { text: Seq<char> },
    SendMessage { name: Seq<char>, payload: ValueView },
    ReloadCode,
    SaveFile { name: Seq<char>, content: Seq<char> },
}

impl View for ToServerMessage {
    type V = ToServerView;

    open spec fn view(&self) -> ToServerView {
        match self {
            ToServerMessage::Login { username, user_type } => ToServerView::Login {
                username: username@,
                user_type: user_type@,
            },
            ToServerMessage::Command { text } => ToServerView::Command { text: text@ },
            ToServerMessage::SendMessage { name, payload } => ToServerView::SendMessage {
                name: name@,
                payload: payload@,
            },
            ToServerMessage::ReloadCode => ToServerView::ReloadCode,
            ToServerMessage::SaveFile { name, content } => ToServerView::SaveFile {
                name: name@,
                content: content@,
            },
        }
    }
}

/// What the server does for each thing that a client can send: a line typed
/// by the user goes to the user's object as the message `command`, a file
/// that the user saved as the message `save_file`.
pub open spec fn request_of(message: ToServerView) -> RequestView {
    match message {
        ToServerView::Login { username, user_type } => RequestView::Login { username },
        ToServerView::Command { text } => RequestView::Send {
            name: "command"@,
            payload: ValueView::Dict(seq![("message"@, ValueView::String(text))]),
        },
        ToServerView::SendMessage { name, payload } => RequestView::Send { name, payload },
        ToServerView::ReloadCode => RequestView::Reload,
        ToServerView::SaveFile { name, content } => RequestView::Send {
            name: "save_file"@,
            payload: ValueView::Dict(
                seq![("name"@, ValueView::String(name)), ("content"@, ValueView::String(content))],
            ),
        },
    }
}

/// The message that a user's client sends to the user's own object.
pub open spec fn user_message(id: Id, name: Seq<char>, payload: ValueView) -> MessageView {
    MessageView { target: id, immediate_sender: id, original_user: Some(id), name, payload }
}

impl ToServerMessage {
    /// What the server does for this message.
    pub fn into_request(self) -> (r: ClientRequest)
        ensures
            r@ == request_of(self@),
    {
        match self {
            ToServerMessage::Login { username, user_type } => ClientRequest::Login { username },
            ToServerMessage::Command { text } => {
                let line = SerializableValue::String(text);
                assert(line@ == ValueView::String(text@));
                let mut payload: Vec<(String, SerializableValue)> = Vec::new();
                payload.push((String::from_str("message"), line));
                let value = SerializableValue::Dict(payload);
                assert(value@->Dict_0 =~= seq![("message"@, ValueView::String(text@))]);
                ClientRequest::Send { name: String::from_str("command"), payload: value }
            },
            ToServerMessage::SendMessage { name, payload } => ClientRequest::Send {
                name,
                payload,
            },
            ToServerMessage::ReloadCode => ClientRequest::Reload,
            ToServerMessage::SaveFile { name, content } => {
                let file = SerializableValue::String(name);
                let text = SerializableValue::String(content);
                assert(file@ == ValueView::String(name@));
                assert(text@ == ValueView::String(content@));
                let mut payload: Vec<(String, SerializableValue)> = Vec::new();
                payload.push((String::from_str("name"), file));
                payload.push((String::from_str("content"), text));
                let value = SerializableValue::Dict(payload);
                assert(value@->Dict_0 =~= seq![
                    ("name"@, ValueView::String(name@)),
                    ("content"@, ValueView::String(content@)),
                ]);
                ClientRequest::Send { name: String::from_str("save_file"), payload: value }
            },
        }
    }
}

/// The message that the client of the user whose object is `id` sends to
/// that object.
pub fn message_from_user(id: Id, name: String, payload: SerializableValue) -> (r: Message)
    ensures
        r@ == user_message(id, name@, payload@),
{
    Message { target: id, immediate_sender: id, original_user: Some(id), name, payload }
}

/// What is said of an attempt to bring the scripts up to date.
pub open spec fn reload_report(outcome: Result<Seq<char>, Seq<char>>) -> Seq<char> {
    match outcome {
        Ok(said) => "Reloaded code: "@ + said,
        Err(why) => "Failed to reload: "@ + why,
    }
}

/// What a client is told once the scripts were to be brought up to date:
/// `outcome` is what the update said, or why it failed.
pub fn reload_message(outcome: Result<String, String>) -> (r: ToClientMessage)
    ensures
        r@ == (ClientMessageView::Tell {
            content: RowView {
                is_html: false,
                body: reload_report(
                    match outcome {
                        Ok(said) => Ok(said@),
                        Err(why) => Err(why@),
                    },
                ),
            },
        }),
{
    let text = match outcome {
        Ok(said) => String::from_str("Reloaded code: ").concat(said.as_str()),
        Err(why) => String::from_str("Failed to reload: ").concat(why.as_str()),
    };
    ToClientMessage::Tell { content: ChatRowContent::new(text.as_str()) }
}

} // verus!
