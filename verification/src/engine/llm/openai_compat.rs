//! Providers that speak the chat protocol of OpenAI.

use vstd::prelude::*;
use vstd::string::*;

use crate::engine::llm::provider::{
    build_user_content, endpoint, endpoint_of, user_content, SYSTEM_PROMPT,
};
use crate::engine::verdict::RequestSummary;
use crate::json::{
    item_of, list_2, member_of, object_1, object_2, text, text_in, with_member, Json, JsonView,
};

verus! {

/// The endpoint of OpenAI itself.
pub const DEFAULT_BASE: &'static str = "https://api.openai.com/v1";

/// A provider with its endpoint, model and key.
#[derive(Debug)]
pub struct OpenAiCompatProvider {
    pub base_url: String,
    pub model: String,
    /// Empty where the endpoint asks for none.
    pub api_key: String,
}

/// A message of a chat.
pub open spec fn chat_message(role: Seq<char>, content: Seq<char>) -> JsonView {
    JsonView::Object(
        seq![("role"@, JsonView::Text(role)), ("content"@, JsonView::Text(content))],
    )
}

/// A message of a chat.
pub fn message(role: &str, content: &str) -> (r: Json)
    ensures
        r@ == chat_message(role@, content@),
{
    object_2("role", text(role), "content", text(content))
}

/// What is sent to the model about a request.
pub open spec fn chat_request(model: Seq<char>, s: RequestSummary) -> JsonView {
    JsonView::Object(
        seq![
            ("model"@, JsonView::Text(model)),
            ("max_tokens"@, JsonView::Number("256"@)),
            (
                "messages"@,
                JsonView::List(
                    seq![
                        chat_message("system"@, SYSTEM_PROMPT@),
                        chat_message("user"@, user_content(s)),
                    ],
                ),
            ),
            (
                "response_format"@,
                JsonView::Object(seq![("type"@, JsonView::Text("json_object"@))]),
            ),
        ],
    )
}

/// The answer in a reply of the chat protocol.
pub open spec fn chat_answer(reply: JsonView) -> Option<Seq<char>> {
    text_in(
        member_of(
            member_of(item_of(member_of(reply, "choices"@), 0), "message"@),
            "content"@,
        ),
    )
}

/// The answer in a reply of the chat protocol: the content of the message of the
/// first choice.
pub fn answer_in(reply: &Json) -> (r: Option<String>)
    ensures
        match r {
            Some(t) => chat_answer(reply@) == Some(t@),
            None => chat_answer(reply@) is None,
        },
{
    reply.member("choices").item(0).member("message").member("content").as_text()
}

/// The address that a chat goes to.
pub fn chat_url(base_url: &str) -> (r: String)
    ensures
        r@ == base_url@ + "/chat/completions"@,
{
    let mut r: String = base_url.to_owned();
    r.append("/chat/completions");
    r
}

impl OpenAiCompatProvider {
    /// A provider for an endpoint, or for OpenAI's own where none is given.
    pub fn new(base_url: &str, model: &str, api_key: String) -> (r: Self)
        ensures
            r.base_url@ == endpoint(base_url@, DEFAULT_BASE@),
            r.model@ == model@,
            r.api_key@ == api_key@,
    {
        OpenAiCompatProvider {
            base_url: endpoint_of(base_url, DEFAULT_BASE),
            model: model.to_owned(),
            api_key,
        }
    }

    /// The name of the provider.
    pub fn name(&self) -> (r: &'static str)
        ensures
            r@ == "openai_compat"@,
    {
        "openai_compat"
    }

    /// The address that a request goes to.
    pub fn url(&self) -> (r: String)
        ensures
            r@ == self.base_url@ + "/chat/completions"@,
    {
        chat_url(self.base_url.as_str())
    }

    /// The key that is sent along, if there is one.
    pub fn bearer(&self) -> (r: Option<String>)
        ensures
            match r {
                Some(k) => self.api_key@.len() > 0 && k@ == self.api_key@,
                None => self.api_key@.len() == 0,
            },
    {
        if crate::text::chars_of(self.api_key.as_str()).len() == 0 {
            None
        } else {
            Some(self.api_key.clone())
        }
    }

    /// What is sent to the model about a request.
    pub fn request(&self, summary: &RequestSummary) -> (r: Json)
        ensures
            r@ == chat_request(self.model@, *summary),
    {
        let messages = list_2(
            message("system", SYSTEM_PROMPT),
            message("user", build_user_content(summary).as_str()),
        );
        let body = object_2(
            "model",
            text(self.model.as_str()),
            "max_tokens",
            Json::Number("256".to_owned()),
        );
        let body = with_member(body, "messages", messages);
        let body = with_member(body, "response_format", object_1("type", text("json_object")));
        assert(body@->Object_0 =~= chat_request(self.model@, *summary)->Object_0);
        body
    }
}

} // verus!
