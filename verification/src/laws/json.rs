//! What is looked up in the replies of models, and what they are sent.

use vstd::prelude::*;
use vstd::string::*;

use crate::engine::llm::anthropic::{first_text, messages_answer, messages_request};
use crate::engine::llm::gemini::{content_answer, content_request};
use crate::engine::llm::openai_compat::{chat_answer, chat_request};
use crate::engine::llm::provider::{user_content, SYSTEM_PROMPT};
use crate::engine::verdict::RequestSummary;
use crate::json::{item_of, member_in, member_of, text_in, JsonView};

verus! {

/// No member has the name.
pub open spec fn nameless(members: Seq<(Seq<char>, JsonView)>, name: Seq<char>) -> bool {
    forall|i: int| 0 <= i < members.len() ==> (#[trigger] members[i]).0 != name
}

/// A member of an object is found by its name, wherever it stands; the first one
/// of that name counts, and where there is none it is null.
pub proof fn law_member_is_found_by_name(
    before: Seq<(Seq<char>, JsonView)>,
    name: Seq<char>,
    value: JsonView,
    after: Seq<(Seq<char>, JsonView)>,
)
    requires
        nameless(before, name),
    ensures
        member_of(JsonView::Object(before.push((name, value)) + after), name) == value,
        member_of(JsonView::Object(before), name) == JsonView::Null,
    decreases before.len(),
{
    let all = before.push((name, value)) + after;
    if before.len() > 0 {
        assert(all[0] == before[0]);
        let fewer = before.skip(1);
        assert forall|i: int| 0 <= i < fewer.len() implies (#[trigger] fewer[i]).0 != name by {
            assert(fewer[i] == before[i + 1]);
        }
        law_member_is_found_by_name(fewer, name, value, after);
        assert(all.skip(1) =~= fewer.push((name, value)) + after);
        assert(member_in(all, name) == member_in(all.skip(1), name));
    } else {
        assert(all[0] == (name, value));
    }
}

/// Only objects have members, only lists have items, and only texts are texts.
pub proof fn law_values_are_told_apart(v: JsonView, name: Seq<char>, at: nat)
    ensures
        !(v is Object) ==> member_of(v, name) == JsonView::Null,
        !(v is List) ==> item_of(v, at) == JsonView::Null,
        v matches JsonView::List(items) ==> at < items.len() ==> item_of(v, at)
            == items[at as int],
        v matches JsonView::List(items) ==> at >= items.len() ==> item_of(v, at)
            == JsonView::Null,
        v matches JsonView::Text(t) ==> text_in(v) == Some(t),
        !(v is Text) ==> text_in(v) is None,
{
}

/// An object with one member.
pub open spec fn only(name: Seq<char>, v: JsonView) -> JsonView {
    JsonView::Object(seq![(name, v)])
}

/// The answer of the chat protocol is the content of the message of the first
/// choice, whatever choices follow.
pub proof fn law_chat_answer(answer: Seq<char>, more: Seq<JsonView>)
    ensures
        chat_answer(
            only(
                "choices"@,
                JsonView::List(
                    seq![only("message"@, only("content"@, JsonView::Text(answer)))] + more,
                ),
            ),
        ) == Some(answer),
        chat_answer(only("choices"@, JsonView::List(Seq::empty()))) is None,
{
    let message = only("content"@, JsonView::Text(answer));
    let choice = only("message"@, message);
    let choices = JsonView::List(seq![choice] + more);
    lemma_only("choices"@, choices);
    assert((seq![choice] + more)[0] == choice);
    lemma_only("message"@, message);
    lemma_only("content"@, JsonView::Text(answer));
    lemma_only("choices"@, JsonView::List(Seq::empty()));
    law_member_is_found_by_name(Seq::empty(), "message"@, JsonView::Null, Seq::empty());
    law_values_are_told_apart(JsonView::Null, "message"@, 0);
    law_values_are_told_apart(JsonView::Null, "content"@, 0);
}

proof fn lemma_only(name: Seq<char>, v: JsonView)
    ensures
        member_of(only(name, v), name) == v,
{
    law_member_is_found_by_name(Seq::empty(), name, v, Seq::empty());
    assert(Seq::<(Seq<char>, JsonView)>::empty().push((name, v)) + Seq::empty() =~= seq![(name, v)]);
}

/// The answer of the content protocol is the text of the first part of the first
/// candidate, whatever follows.
pub proof fn law_content_answer(answer: Seq<char>, parts: Seq<JsonView>, more: Seq<JsonView>)
    ensures
        content_answer(
            only(
                "candidates"@,
                JsonView::List(
                    seq![
                        only(
                            "content"@,
                            only(
                                "parts"@,
                                JsonView::List(
                                    seq![only("text"@, JsonView::Text(answer))] + parts,
                                ),
                            ),
                        ),
                    ] + more,
                ),
            ),
        ) == Some(answer),
{
    let part = only("text"@, JsonView::Text(answer));
    let all = JsonView::List(seq![part] + parts);
    let content = only("parts"@, all);
    let candidate = only("content"@, content);
    let candidates = JsonView::List(seq![candidate] + more);
    lemma_only("candidates"@, candidates);
    assert((seq![candidate] + more)[0] == candidate);
    lemma_only("content"@, content);
    lemma_only("parts"@, all);
    assert((seq![part] + parts)[0] == part);
    lemma_only("text"@, JsonView::Text(answer));
}

/// Every protocol tells the model its task and shows it the request; the chat and
/// messages protocols name the model and limit its answer, and the others give it
/// the schema of its answer.
pub proof fn law_models_are_asked(model: Seq<char>, s: RequestSummary, schema: JsonView)
    ensures
        ({
            let told = JsonView::Text(SYSTEM_PROMPT@);
            let asked = JsonView::Text(user_content(s));
            &&& chat_request(model, s) == JsonView::Object(
                seq![
                    ("model"@, JsonView::Text(model)),
                    ("max_tokens"@, JsonView::Number("256"@)),
                    (
                        "messages"@,
                        JsonView::List(
                            seq![
                                JsonView::Object(
                                    seq![("role"@, JsonView::Text("system"@)), ("content"@, told)],
                                ),
                                JsonView::Object(
                                    seq![("role"@, JsonView::Text("user"@)), ("content"@, asked)],
                                ),
                            ],
                        ),
                    ),
                    ("response_format"@, only("type"@, JsonView::Text("json_object"@))),
                ],
            )
            &&& messages_request(model, s, schema) == JsonView::Object(
                seq![
                    ("model"@, JsonView::Text(model)),
                    ("max_tokens"@, JsonView::Number("256"@)),
                    (
                        "system"@,
                        JsonView::List(
                            seq![
                                JsonView::Object(
                                    seq![
                                        ("type"@, JsonView::Text("text"@)),
                                        ("text"@, told),
                                        (
                                            "cache_control"@,
                                            only("type"@, JsonView::Text("ephemeral"@)),
                                        ),
                                    ],
                                ),
                            ],
                        ),
                    ),
                    (
                        "messages"@,
                        JsonView::List(
                            seq![
                                JsonView::Object(
                                    seq![("role"@, JsonView::Text("user"@)), ("content"@, asked)],
                                ),
                            ],
                        ),
                    ),
                    (
                        "output_config"@,
                        only(
                            "format"@,
                            JsonView::Object(
                                seq![
                                    ("type"@, JsonView::Text("json_schema"@)),
                                    ("schema"@, schema),
                                ],
                            ),
                        ),
                    ),
                ],
            )
            &&& content_request(s, schema) == JsonView::Object(
                seq![
                    (
                        "systemInstruction"@,
                        only("parts"@, JsonView::List(seq![only("text"@, told)])),
                    ),
                    (
                        "contents"@,
                        JsonView::List(
                            seq![
                                JsonView::Object(
                                    seq![
                                        ("role"@, JsonView::Text("user"@)),
                                        ("parts"@, JsonView::List(seq![only("text"@, asked)])),
                                    ],
                                ),
                            ],
                        ),
                    ),
                    (
                        "generationConfig"@,
                        JsonView::Object(
                            seq![
                                ("responseMimeType"@, JsonView::Text("application/json"@)),
                                ("responseSchema"@, schema),
                            ],
                        ),
                    ),
                ],
            )
        }),
{
}

/// The answer of the chat protocol, whatever else the reply holds: the content of
/// the message of the first choice, if that is a text.
pub proof fn law_chat_answer_among_others(reply: JsonView, choices: Seq<JsonView>)
    ensures
        member_of(reply, "choices"@) == JsonView::List(choices) && choices.len() > 0 ==> chat_answer(
            reply,
        ) == text_in(member_of(member_of(choices[0], "message"@), "content"@)),
        !(member_of(reply, "choices"@) is List) ==> chat_answer(reply) is None,
{
}

/// The answer of the messages protocol, whatever else the reply holds: what the
/// first block of text has as its text.
pub proof fn law_messages_answer_among_others(
    reply: JsonView,
    before: Seq<JsonView>,
    block: JsonView,
    after: Seq<JsonView>,
)
    requires
        forall|i: int|
            0 <= i < before.len() ==> member_of(#[trigger] before[i], "type"@) != JsonView::Text(
                "text"@,
            ),
        member_of(block, "type"@) == JsonView::Text("text"@),
    ensures
        member_of(reply, "content"@) == JsonView::List(before.push(block) + after)
            ==> messages_answer(reply) == text_in(member_of(block, "text"@)),
        member_of(reply, "content"@) == JsonView::List(before) ==> messages_answer(reply) is None,
        !(member_of(reply, "content"@) is List) ==> messages_answer(reply) is None,
{
    lemma_first_block(before, block, after);
}

proof fn lemma_first_block(before: Seq<JsonView>, block: JsonView, after: Seq<JsonView>)
    requires
        forall|i: int|
            0 <= i < before.len() ==> member_of(#[trigger] before[i], "type"@) != JsonView::Text(
                "text"@,
            ),
        member_of(block, "type"@) == JsonView::Text("text"@),
    ensures
        first_text(before.push(block) + after) == text_in(member_of(block, "text"@)),
        first_text(before) is None,
    decreases before.len(),
{
    let all = before.push(block) + after;
    if before.len() > 0 {
        assert(all[0] == before[0]);
        let fewer = before.skip(1);
        assert forall|i: int| 0 <= i < fewer.len() implies member_of(
            #[trigger] fewer[i],
            "type"@,
        ) != JsonView::Text("text"@) by {
            assert(fewer[i] == before[i + 1]);
        }
        lemma_first_block(fewer, block, after);
        assert(all.skip(1) =~= fewer.push(block) + after);
    } else {
        assert(all[0] == block);
    }
}

/// The answer of the content protocol, whatever else the reply holds: the text of
/// the first part of the content of the first candidate, if it is one.
pub proof fn law_content_answer_among_others(
    reply: JsonView,
    candidates: Seq<JsonView>,
    parts: Seq<JsonView>,
)
    ensures
        member_of(reply, "candidates"@) == JsonView::List(candidates) && candidates.len() > 0
            && member_of(member_of(candidates[0], "content"@), "parts"@) == JsonView::List(parts)
            && parts.len() > 0 ==> content_answer(reply) == text_in(member_of(parts[0], "text"@)),
        !(member_of(reply, "candidates"@) is List) ==> content_answer(reply) is None,
{
}

} // verus!
