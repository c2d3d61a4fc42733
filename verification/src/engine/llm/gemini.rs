//! The content protocol of Gemini.

use vstd::prelude::*;
use vstd::string::*;

use crate::engine::llm::provider::{
    build_user_content, endpoint, endpoint_of, user_content, SYSTEM_PROMPT,
};
use crate::engine::verdict::RequestSummary;
use crate::json::{
    item_of, list_1, member_of, object_1, object_2, text, text_in, with_member, Json, JsonView,
};

verus! {

/// The endpoint of Gemini.
pub const DEFAULT_BASE: &'static str = "https://generativelanguage.googleapis.com/v1beta";

/// A provider with its endpoint, model and key.
#[derive(Debug)]
pub struct GeminiProvider {
    pub base_url: String,
    pub model: String,
    pub api_key: String,
}

/// A list with one part of text.
pub open spec fn text_part(t: Seq<char>) -> JsonView {
    JsonView::List(seq![JsonView::Object(seq![("text"@, JsonView::Text(t))])])
}

fn one_part(t: &str) -> (r: Json)
    ensures
        r@ == text_part(t@),
{
    list_1(object_1("text", text(t)))
}

/// What is sent to the model about a request, with the schema that its answer
/// has to follow.
pub open spec fn content_request(s: RequestSummary, schema: JsonView) -> JsonView {
    JsonView::Object(
        seq![
            (
                "systemInstruction"@,
                JsonView::Object(seq![("parts"@, text_part(SYSTEM_PROMPT@))]),
            ),
            (
                "contents"@,
                JsonView::List(
                    seq![
                        JsonView::Object(
                            seq![
                                ("role"@, JsonView::Text("user"@)),
                                ("parts"@, text_part(user_content(s))),
                            ],
                        ),
                    ],
                ),
            ),
            (
                "generationConfig"@,
                JsonView::Object(
                    seq![
                        ("responseMimeType"@, JsonView::Text("application/json"@)),
                        ("responseSchema"@, schema),
                    ],
                ),
            ),
        ],
    )
}

/// The answer in a reply: the text of the first part of the first candidate.
pub open spec fn content_answer(reply: JsonView) -> Option<Seq<char>> {
    text_in(
        member_of(
            item_of(
                member_of(
                    member_of(item_of(member_of(reply, "candidates"@), 0), "content"@),
                    "parts"@,
                ),
                0,
            ),
            "text"@,
        ),
    )
}

/// The answer in a reply: the text of the first part of the first candidate.
pub fn answer_in(reply: &Json) -> (r: Option<String>)
    ensures
        match r {
            Some(t) => content_answer(reply@) == Some(t@),
            None => content_answer(reply@) is None,
        },
{
    reply.member("candidates").item(0).member("content").member("parts").item(0).member(
        "text",
    ).as_text()
}

impl GeminiProvider {
    /// A provider for an endpoint, or for Gemini's own where none is given.
    pub fn new(base_url: &str, model: &str, api_key: String) -> (r: Self)
        ensures
            r.base_url@ == endpoint(base_url@, DEFAULT_BASE@),
            r.model@ == model@,
            r.api_key@ == api_key@,
    {
        GeminiProvider {
            base_url: endpoint_of(base_url, DEFAULT_BASE),
            model: model.to_owned(),
            api_key,
        }
    }

    /// The name of the provider.
    pub fn name(&self) -> (r: &'static str)
        ensures
            r@ == "gemini"@,
    {
        "gemini"
    }

    /// The address that a request goes to, with the key in it.
    pub fn url(&self) -> (r: String)
        ensures
            r@ == self.base_url@ + "/models/"@ + self.model@ + ":generateContent?key="@
                + self.api_key@,
    {
        let mut r: String = self.base_url.clone();
        r.append("/models/");
        r.append(self.model.as_str());
        r.append(":generateContent?key=");
        r.append(self.api_key.as_str());
        r
    }

    /// What is sent to the model about a request.
    pub fn request(&self, summary: &RequestSummary, schema: Json) -> (r: Json)
        ensures
            r@ == content_request(*summary, schema@),
    {
        let system = object_1("parts", one_part(SYSTEM_PROMPT));
        let question = object_2(
            "role",
            text("user"),
            "parts",
            one_part(build_user_content(summary).as_str()),
        );
        let format = object_2(
            "responseMimeType",
            text("application/json"),
            "responseSchema",
            schema,
        );
        let body = object_2("systemInstruction", system, "contents", list_1(question));
        let body = with_member(body, "generationConfig", format);
        assert(body@->Object_0 =~= content_request(*summary, schema@)->Object_0);
        body
    }
}

} // verus!
