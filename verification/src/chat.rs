//! Data model of chat-completion requests and responses.
//!
//! The optional AI post-processing pass sends markdown to a chat-completion
//! API.  The request and response payloads are plain data, modelled here;
//! the unverified shell owns serialisation and the network.

use vstd::prelude::*;

verus! {

/// The author of a chat message.
#[derive(Clone, Copy, Debug, PartialEq, Eq, Structural)]
pub enum ROLE {
    System,
    User,
    Assistant,
}

/// An image attachment: a content kind tag (serialised as `type` on the
/// wire) and a URL or base64 data URL.
pub struct ImageData {
    pub kind: String,
    pub image_url: String,
}

/// A message body: plain text, or one attached image.
pub enum MessageContent {
    ImageUrl([ImageData; 1]),
    PlainText(String),
}

/// One chat message.
pub struct Message {
    pub role: ROLE,
    pub content: MessageContent,
}

impl Message {
    pub fn new(role: ROLE, content: MessageContent) -> (r: Message)
        ensures
            r.role == role,
            r.content == content,
    {
        Message { role, content }
    }

    /// A plain-text message.
    pub fn new_text(role: ROLE, text: String) -> (r: Message)
        ensures
            r.role == role,
            r.content == MessageContent::PlainText(text),
    {
        Message { role, content: MessageContent::PlainText(text) }
    }
}

/// Token accounting of one completion response.
pub struct Usage {
    pub completion_tokens: u64,
    pub prompt_tokens: u64,
    pub prompt_tokens_details: PromptTokensDetails,
    pub total_tokens: u64,
}

pub struct PromptTokensDetails {
    pub cached_tokens: u64,
}

} // verus!
