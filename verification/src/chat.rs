use vstd::prelude::*;
use crate::json::{Json, JsonValue, members_view};

verus! {

/// One part of a multimodal user message.
#[derive(Debug, PartialEq)]
pub enum ContentPart {
    Text(String),
    Image { media_type: String, data: String },
}

/// The model of a `ContentPart`.
pub enum PartView {
    Text(Seq<char>),
    Image { media_type: Seq<char>, data: Seq<char> },
}

impl View for ContentPart {
    type V = PartView;

    open spec fn view(&self) -> PartView {
        match self {
            ContentPart::Text(t) => PartView::Text(t@),
            ContentPart::Image { media_type, data } => PartView::Image {
                media_type: media_type@,
                data: data@,
            },
        }
    }
}

/// The models of a sequence of parts.
pub open spec fn parts_view(s: Seq<ContentPart>) -> Seq<PartView> {
    s.map_values(|p: ContentPart| p@)
}

/// The content of a user message: plain text or a list of parts.
#[derive(Debug, PartialEq)]
pub enum UserContent {
    Text(String),
    Multimodal(Vec<ContentPart>),
}

/// The model of a `UserContent`.
pub enum UserContentView {
    Text(Seq<char>),
    Multimodal(Seq<PartView>),
}

impl View for UserContent {
    type V = UserContentView;

    open spec fn view(&self) -> UserContentView {
        match self {
            UserContent::Text(t) => UserContentView::Text(t@),
            UserContent::Multimodal(p) => UserContentView::Multimodal(parts_view(p@)),
        }
    }
}

/// A tool call that an assistant message asks for.
#[derive(Debug, PartialEq)]
pub struct ToolCall {
    pub id: String,
    pub name: String,
    pub arguments: JsonValue,
    pub argument_diagnostic: Option<String>,
    pub metadata: Option<Vec<(String, JsonValue)>>,
}

/// The model of a `ToolCall`.
pub struct ToolCallView {
    pub id: Seq<char>,
    pub name: Seq<char>,
    pub arguments: Json,
    pub argument_diagnostic: Option<Seq<char>>,
    pub metadata: Option<Seq<(Seq<char>, Json)>>,
}

/// The model of an optional text.
pub open spec fn opt_view(o: Option<String>) -> Option<Seq<char>> {
    match o {
        Some(s) => Some(s@),
        None => None,
    }
}

impl View for ToolCall {
    type V = ToolCallView;

    open spec fn view(&self) -> ToolCallView {
        ToolCallView {
            id: self.id@,
            name: self.name@,
            arguments: self.arguments@,
            argument_diagnostic: opt_view(self.argument_diagnostic),
            metadata: match self.metadata {
                Some(m) => Some(members_view(m@)),
                None => None,
            },
        }
    }
}

/// The models of a sequence of tool calls.
pub open spec fn calls_view(s: Seq<ToolCall>) -> Seq<ToolCallView> {
    s.map_values(|c: ToolCall| c@)
}

/// A typed chat message.
#[derive(Debug, PartialEq)]
#[allow(inconsistent_fields)]
pub enum ChatMessage {
    System { content: String },
    User { content: UserContent, name: Option<String> },
    Assistant { content: Option<String>, tool_calls: Vec<ToolCall>, reasoning: Option<String> },
    Tool { tool_call_id: String, content: String },
}

/// The model of a `ChatMessage`.
#[allow(inconsistent_fields)]
pub enum MessageView {
    System { content: Seq<char> },
    User { content: UserContentView, name: Option<Seq<char>> },
    Assistant {
        content: Option<Seq<char>>,
        tool_calls: Seq<ToolCallView>,
        reasoning: Option<Seq<char>>,
    },
    Tool { tool_call_id: Seq<char>, content: Seq<char> },
}

impl View for ChatMessage {
    type V = MessageView;

    open spec fn view(&self) -> MessageView {
        match self {
            ChatMessage::System { content } => MessageView::System { content: content@ },
            ChatMessage::User { content, name } => MessageView::User {
                content: content@,
                name: opt_view(*name),
            },
            ChatMessage::Assistant { content, tool_calls, reasoning } => MessageView::Assistant {
                content: opt_view(*content),
                tool_calls: calls_view(tool_calls@),
                reasoning: opt_view(*reasoning),
            },
            ChatMessage::Tool { tool_call_id, content } => MessageView::Tool {
                tool_call_id: tool_call_id@,
                content: content@,
            },
        }
    }
}

/// The models of a sequence of messages.
pub open spec fn messages_view(s: Seq<ChatMessage>) -> Seq<MessageView> {
    s.map_values(|m: ChatMessage| m@)
}

impl ChatMessage {
    /// A system message.
    pub fn system(content: String) -> (m: ChatMessage)
        ensures
            m@ == (MessageView::System { content: content@ }),
    {
        ChatMessage::System { content }
    }

    /// A tool message answering the tool call `tool_call_id`.
    pub fn tool(tool_call_id: String, content: String) -> (m: ChatMessage)
        ensures
            m@ == (MessageView::Tool { tool_call_id: tool_call_id@, content: content@ }),
    {
        ChatMessage::Tool { tool_call_id, content }
    }
}

/// A copy of a part with the same model.
pub fn clone_part(p: &ContentPart) -> (r: ContentPart)
    ensures
        r@ == p@,
{
    match p {
        ContentPart::Text(t) => ContentPart::Text(t.clone()),
        ContentPart::Image { media_type, data } => ContentPart::Image {
            media_type: media_type.clone(),
            data: data.clone(),
        },
    }
}

} // verus!
