//! The messages protocol of Anthropic.

use vstd::prelude::*;
use vstd::string::*;

use crate::engine::llm::openai_compat::{chat_message, message};
use crate::engine::llm::provider::{
    build_user_content, endpoint, endpoint_of, user_content, SYSTEM_PROMPT,
};
use crate::engine::verdict::RequestSummary;
use crate::json::{
    list_1, list_view, member_of, object_1, object_2, text, text_in, with_member, Json, JsonView,
};
use crate::text::same_text;

verus! {

/// The endpoint of Anthropic.
pub const DEFAULT_BASE: &'static str = "https://api.anthropic.com";

/// The version of the protocol.
pub const ANTHROPIC_VERSION: &'static str = "2023-06-01";

/// A provider with its endpoint, model and key.
#[derive(Debug)]
pub struct AnthropicProvider {
    pub base_url: String,
    pub model: String,
    pub api_key: String,
}

/// What is sent to the model about a request, with the schema that its answer
/// has to follow.
pub open spec fn messages_request(
    model: Seq<char>,
    s: RequestSummary,
    schema: JsonView,
) -> JsonView {
    JsonView::Object(
        seq![
            ("model"@, JsonView::Text(model)),
            ("max_tokens"@, JsonView::Number("256"@)),
            (
                "system"@,
                JsonView::List(
                    seq![
                        JsonView::Object(
                            seq![
                                ("type"@, JsonView::Text("text"@)),
                                ("text"@, JsonView::Text(SYSTEM_PROMPT@)),
                                (
                                    "cache_control"@,
                                    JsonView::Object(seq![("type"@, JsonView::Text("ephemeral"@))]),
                                ),
                            ],
                        ),
                    ],
                ),
            ),
            ("messages"@, JsonView::List(seq![chat_message("user"@, user_content(s))])),
            (
                "output_config"@,
                JsonView::Object(
                    seq![
                        (
                            "format"@,
                            JsonView::Object(
                                seq![
                                    ("type"@, JsonView::Text("json_schema"@)),
                                    ("schema"@, schema),
                                ],
                            ),
                        ),
                    ],
                ),
            ),
        ],
    )
}

/// The text of the first text block among some blocks, if it has one.
pub open spec fn first_text(blocks: Seq<JsonView>) -> Option<Seq<char>>
    decreases blocks.len(),
{
    if blocks.len() == 0 {
        None
    } else if member_of(blocks[0], "type"@) == JsonView::Text("text"@) {
        text_in(member_of(blocks[0], "text"@))
    } else {
        first_text(blocks.skip(1))
    }
}

/// The answer in a reply: the text of its first text block.
pub open spec fn messages_answer(reply: JsonView) -> Option<Seq<char>> {
    match member_of(reply, "content"@) {
        JsonView::List(blocks) => first_text(blocks),
        _ => None,
    }
}

impl AnthropicProvider {
    /// A provider for an endpoint, or for Anthropic's own where none is given.
    pub fn new(base_url: &str, model: &str, api_key: String) -> (r: Self)
        ensures
            r.base_url@ == endpoint(base_url@, DEFAULT_BASE@),
            r.model@ == model@,
            r.api_key@ == api_key@,
    {
        AnthropicProvider {
            base_url: endpoint_of(base_url, DEFAULT_BASE),
            model: model.to_owned(),
            api_key,
        }
    }

    /// The name of the provider.
    pub fn name(&self) -> (r: &'static str)
        ensures
            r@ == "anthropic"@,
    {
        "anthropic"
    }

    /// The address that a request goes to.
    pub fn url(&self) -> (r: String)
        ensures
            r@ == self.base_url@ + "/v1/messages"@,
    {
        let mut r: String = self.base_url.clone();
        r.append("/v1/messages");
        r
    }

    /// What is sent to the model about a request.
    pub fn request(&self, summary: &RequestSummary, schema: Json) -> (r: Json)
        ensures
            r@ == messages_request(self.model@, *summary, schema@),
    {
        let system = object_2("type", text("text"), "text", text(SYSTEM_PROMPT));
        let system = with_member(system, "cache_control", object_1("type", text("ephemeral")));
        assert(system@->Object_0 =~= seq![
            ("type"@, JsonView::Text("text"@)),
            ("text"@, JsonView::Text(SYSTEM_PROMPT@)),
            ("cache_control"@, JsonView::Object(seq![("type"@, JsonView::Text("ephemeral"@))])),
        ]);
        let question = message("user", build_user_content(summary).as_str());
        let format = object_2("type", text("json_schema"), "schema", schema);
        let body = object_2(
            "model",
            text(self.model.as_str()),
            "max_tokens",
            Json::Number("256".to_owned()),
        );
        let body = with_member(body, "system", list_1(system));
        let body = with_member(body, "messages", list_1(question));
        let body = with_member(body, "output_config", object_1("format", format));
        assert(body@->Object_0 =~= messages_request(
            self.model@,
            *summary,
            schema@,
        )->Object_0);
        body
    }
}

/// Is the value the text?
fn is_text(v: &Json, t: &str) -> (r: bool)
    ensures
        r == (v@ == JsonView::Text(t@)),
{
    match v {
        Json::Text(s) => same_text(s.as_str(), t),
        _ => false,
    }
}

/// The answer in a reply: the text of its first text block.
pub fn answer_in(reply: &Json) -> (r: Option<String>)
    ensures
        match r {
            Some(t) => messages_answer(reply@) == Some(t@),
            None => messages_answer(reply@) is None,
        },
{
    match reply.member("content") {
        Json::List(blocks) => {
            let mut i: usize = 0;
            assert(list_view(blocks@).skip(0) =~= list_view(blocks@));
            while i < blocks.len()
                invariant
                    i <= blocks@.len(),
                    messages_answer(reply@) == first_text(list_view(blocks@)),
                    first_text(list_view(blocks@)) == first_text(
                        list_view(blocks@).skip(i as int),
                    ),
                decreases blocks@.len() - i,
            {
                let ghost rest = list_view(blocks@).skip(i as int);
                assert(rest[0] == blocks@[i as int]@);
                if is_text(blocks[i].member("type"), "text") {
                    return blocks[i].member("text").as_text();
                }
                assert(rest.skip(1) =~= list_view(blocks@).skip(i + 1));
                i += 1;
            }
            None
        },
        _ => None,
    }
}

} // verus!
