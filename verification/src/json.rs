//! JSON text: how strings, file contexts and lists of them are written down.

use crate::outside;
use crate::records::{AiFileContext, ContextView};
use crate::records;
use crate::text;
use vstd::prelude::*;

verus! {

/// The character of a hexadecimal digit.
pub open spec fn hex_digit(digit: int) -> char {
    if digit < 10 {
        (48 + digit) as char
    } else {
        (87 + digit) as char
    }
}

/// How a character is written inside a JSON string.
pub open spec fn escape(c: char) -> Seq<char> {
    let u = c as u32;
    if c == '"' {
        seq!['\\', '"']
    } else if c == '\\' {
        seq!['\\', '\\']
    } else if u == 0x08 {
        seq!['\\', 'b']
    } else if u == 0x09 {
        seq!['\\', 't']
    } else if u == 0x0a {
        seq!['\\', 'n']
    } else if u == 0x0c {
        seq!['\\', 'f']
    } else if u == 0x0d {
        seq!['\\', 'r']
    } else if u < 0x20 {
        seq!['\\', 'u', '0', '0', hex_digit(u as int / 16), hex_digit(u as int % 16)]
    } else {
        seq![c]
    }
}

/// How a text is written inside a JSON string.
pub open spec fn escaped(s: Seq<char>) -> Seq<char>
    decreases s.len(),
{
    if s.len() == 0 {
        Seq::empty()
    } else {
        escaped(s.drop_last()) + escape(s.last())
    }
}

/// A text as a JSON string.
pub open spec fn quoted(s: Seq<char>) -> Seq<char> {
    seq!['"'] + escaped(s) + seq!['"']
}

/// A text that may be missing as a JSON value.
pub open spec fn quoted_or_null(s: Option<Seq<char>>) -> Seq<char> {
    match s {
        Some(s) => quoted(s),
        None => "null"@,
    }
}

/// What the model is told of a file, as a JSON object.
pub open spec fn context_json(context: ContextView) -> Seq<char> {
    context_head(context) + quoted_or_null(context.content_extract) + context_tail(context)
}

/// What the JSON object says before the text of the file.
pub open spec fn context_head(context: ContextView) -> Seq<char> {
    "{\"id\":"@ + quoted(context.id) + ",\"path\":"@ + quoted(context.path) + ",\"extension\":"@
        + quoted(context.extension) + ",\"sizeBytes\":"@ + text::decimal(context.size_bytes as nat)
        + ",\"createdAt\":"@ + quoted_or_null(context.created_at) + ",\"modifiedAt\":"@
        + quoted_or_null(context.modified_at) + ",\"suggestedCategory\":"@ + quoted(
        context.suggested_category,
    ) + ",\"contentExtract\":"@
}

/// What the JSON object says behind the text of the file.
pub open spec fn context_tail(context: ContextView) -> Seq<char> {
    ",\"contentStatus\":"@ + quoted(context.content_status) + "}"@
}

/// The JSON values of the first `n` contexts, with commas between them.
pub open spec fn contexts_joined(contexts: Seq<ContextView>) -> Seq<char>
    decreases contexts.len(),
{
    if contexts.len() == 0 {
        Seq::empty()
    } else if contexts.len() == 1 {
        context_json(contexts[0])
    } else {
        contexts_joined(contexts.drop_last()) + ","@ + context_json(contexts.last())
    }
}

/// What the model is told of a list of files, as a JSON array.
pub open spec fn contexts_json(contexts: Seq<ContextView>) -> Seq<char> {
    "["@ + contexts_joined(contexts) + "]"@
}

/// A text as a JSON string.
pub fn quote(value: &str) -> (json: String)
    ensures
        json@ == quoted(value@),
{
    match outside::json_string(value) {
        Ok(json) => json,
        Err(_) => String::new(),
    }
}

/// A text that may be missing as a JSON value.
pub fn quote_or_null(value: &Option<String>) -> (json: String)
    ensures
        json@ == quoted_or_null(records::option_view(*value)),
{
    match value {
        Some(value) => quote(value),
        None => "null".to_owned(),
    }
}

/// What the model is told of a file, as a JSON object.
pub fn write_context(context: &AiFileContext) -> (json: String)
    ensures
        json@ == context_json(context@),
{
    let mut json = "{\"id\":".to_owned();
    json.append(&quote(&context.id));
    json.append(",\"path\":");
    json.append(&quote(&context.path));
    json.append(",\"extension\":");
    json.append(&quote(&context.extension));
    json.append(",\"sizeBytes\":");
    json.append(&text::decimal_of(context.size_bytes));
    json.append(",\"createdAt\":");
    json.append(&quote_or_null(&context.created_at));
    json.append(",\"modifiedAt\":");
    json.append(&quote_or_null(&context.modified_at));
    json.append(",\"suggestedCategory\":");
    json.append(&quote(&context.suggested_category));
    json.append(",\"contentExtract\":");
    json.append(&quote_or_null(&context.content_extract));
    json.append(",\"contentStatus\":");
    json.append(&quote(&context.content_status));
    json.append("}");
    assert(json@ =~= context_json(context@));
    json
}

/// What the model is told of a list of files, as a JSON array.
pub fn write_contexts(contexts: &[AiFileContext]) -> (json: String)
    ensures
        json@ == contexts_json(records::context_views(contexts@)),
{
    let ghost views = records::context_views(contexts@);
    let mut json = "[".to_owned();
    assert(views.take(0) =~= Seq::<ContextView>::empty());
    assert(json@ =~= "["@ + contexts_joined(views.take(0)));
    for i in 0..contexts.len()
        invariant
            views == records::context_views(contexts@),
            json@ == "["@ + contexts_joined(views.take(i as int)),
    {
        let ghost part = views.take(i as int + 1);
        assert(part.drop_last() =~= views.take(i as int));
        assert(part.last() == contexts@[i as int]@);
        if i > 0 {
            json.append(",");
        }
        json.append(&write_context(&contexts[i]));
        assert(json@ =~= "["@ + contexts_joined(part));
    }
    assert(views.take(contexts@.len() as int) =~= views);
    json.append("]");
    json
}

/// The beginning of a text is written as the beginning of what the text is written as.
pub proof fn escaped_prefix(s: Seq<char>, n: int)
    requires
        0 <= n <= s.len(),
    ensures
        text::utf8_len(escaped(s.take(n))) <= text::utf8_len(escaped(s)),
    decreases s.len(),
{
    if n == s.len() {
        assert(s.take(n) =~= s);
    } else {
        assert(s.drop_last().take(n) =~= s.take(n));
        escaped_prefix(s.drop_last(), n);
        text::utf8_len_of_sum(escaped(s.drop_last()), escape(s.last()));
    }
}

/// A shorter text of a file makes the object that holds it no longer.
pub proof fn shorter_text_is_no_longer(context: ContextView, s: Seq<char>, n: int)
    requires
        0 <= n <= s.len(),
    ensures
        text::utf8_len(
            context_json(ContextView { content_extract: Some(s.take(n)), ..context }),
        ) <= text::utf8_len(context_json(ContextView { content_extract: Some(s), ..context })),
{
    let head = context_head(context);
    let tail = context_tail(context);
    escaped_prefix(s, n);
    length_with_text(context, s);
    length_with_text(context, s.take(n));
}

proof fn length_with_text(context: ContextView, s: Seq<char>)
    ensures
        text::utf8_len(context_json(ContextView { content_extract: Some(s), ..context }))
            == text::utf8_len(context_head(context)) + text::utf8_len(seq!['"']) + text::utf8_len(
            escaped(s),
        ) + text::utf8_len(seq!['"']) + text::utf8_len(context_tail(context)),
{
    let changed = ContextView { content_extract: Some(s), ..context };
    let head = context_head(context);
    let tail = context_tail(context);
    assert(context_head(changed) == head);
    assert(context_tail(changed) == tail);
    text::utf8_len_of_sum(seq!['"'], escaped(s));
    text::utf8_len_of_sum(seq!['"'] + escaped(s), seq!['"']);
    text::utf8_len_of_sum(head, quoted(s));
    text::utf8_len_of_sum(head + quoted(s), tail);
}

} // verus!
