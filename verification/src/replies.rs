//! What the model replied, as text.

use crate::outside;
use crate::records::Confidence;
use crate::text;
use vstd::prelude::*;

verus! {

/// Where the reply stands in what the service answers.
pub const CONTENT_POINTER: &'static str = "/choices/0/message/content";

pub const NO_CONTENT: &'static str = "Ответ API не содержит choices[0].message.content";

pub const INVALID_JSON: &'static str = "Модель вернула невалидный JSON: ";

pub const FENCE: &'static str = "```";

pub const JSON_FENCE: &'static str = "```json";

// ---------------------------------------------------------------------------
// The reply without its fence
// ---------------------------------------------------------------------------

/// A text without a given beginning, where it has that.
pub open spec fn without_prefix(s: Seq<char>, prefix: Seq<char>) -> Option<Seq<char>> {
    if text::starts_with(s, prefix) {
        Some(s.skip(prefix.len() as int))
    } else {
        None
    }
}

/// A text without a given end, where it has that.
pub open spec fn without_suffix(s: Seq<char>, suffix: Seq<char>) -> Seq<char> {
    if text::ends_with(s, suffix) {
        s.take(s.len() - suffix.len())
    } else {
        s
    }
}

/// A reply without the line that opens a block of code.
pub open spec fn opened(s: Seq<char>) -> Seq<char> {
    match without_prefix(s, JSON_FENCE@) {
        Some(rest) => rest,
        None => match without_prefix(s, FENCE@) {
            Some(rest) => rest,
            None => s,
        },
    }
}

/// A reply without the marks of a block of code round it.
pub open spec fn unfenced(s: Seq<char>) -> Seq<char> {
    text::trim(without_suffix(text::trim(opened(text::trim(s))), FENCE@))
}

fn open_block(chars: &[char]) -> (rest: &[char])
    ensures
        rest@ == opened(chars@),
{
    let json_fence = text::chars_of(JSON_FENCE);
    let fence = text::chars_of(FENCE);
    if text::begins_with(chars, JSON_FENCE) {
        let rest = vstd::slice::slice_subrange(chars, json_fence.len(), chars.len());
        assert(rest@ =~= chars@.skip(json_fence@.len() as int));
        rest
    } else if text::begins_with(chars, FENCE) {
        let rest = vstd::slice::slice_subrange(chars, fence.len(), chars.len());
        assert(rest@ =~= chars@.skip(fence@.len() as int));
        rest
    } else {
        chars
    }
}

fn close_block(chars: &[char]) -> (rest: &[char])
    ensures
        rest@ == without_suffix(chars@, FENCE@),
{
    let fence = text::chars_of(FENCE);
    if text::finishes_with(chars, FENCE) {
        let rest = vstd::slice::slice_subrange(chars, 0, chars.len() - fence.len());
        assert(rest@ =~= chars@.take(chars@.len() - fence@.len()));
        rest
    } else {
        chars
    }
}

/// A reply without the marks of a block of code round it.
pub fn unfenced_reply(content: &str) -> (json: String)
    ensures
        json@ == unfenced(content@),
{
    let chars = text::chars_of(content);
    let inner = text::trimmed(open_block(text::trimmed(&chars)));
    text::string_of(text::trimmed(close_block(inner)))
}

/// The reply of the model, by the texts that the answer of the service holds, without the
/// marks of a block of code round it.
pub open spec fn reply_among(texts: Map<Seq<char>, Seq<char>>) -> Result<Seq<char>, Seq<char>> {
    if texts.dom().contains(CONTENT_POINTER@) {
        Ok(unfenced(texts[CONTENT_POINTER@]))
    } else {
        Err(NO_CONTENT@)
    }
}

/// The reply of the model in what the service answers, without the marks of a block of
/// code round it.
pub fn reply_in(value: &serde_json::Value) -> (reply: Result<String, String>)
    ensures
        match (reply, reply_among(outside::json_texts(*value))) {
            (Ok(json), Ok(expected)) => json@ == expected,
            (Err(message), Err(expected)) => message@ == expected,
            _ => false,
        },
        match reply {
            Ok(json) => {
                &&& outside::json_texts(*value).dom().contains(CONTENT_POINTER@)
                &&& json@ == unfenced(outside::json_texts(*value)[CONTENT_POINTER@])
            },
            Err(message) => {
                &&& !outside::json_texts(*value).dom().contains(CONTENT_POINTER@)
                &&& message@ == NO_CONTENT@
            },
        },
{
    match outside::text_at(value, CONTENT_POINTER) {
        Some(content) => Ok(unfenced_reply(&content)),
        None => Err(NO_CONTENT.to_owned()),
    }
}

/// What is said of a reply that is no JSON, or not the JSON that was asked for.
pub fn invalid_reply(error: &str) -> (message: String)
    ensures
        message@ == INVALID_JSON@ + error@,
{
    let mut message = INVALID_JSON.to_owned();
    message.append(error);
    message
}

proof fn trimmed_again(s: Seq<char>)
    requires
        s.len() > 0 ==> !text::is_space(s[0]) && !text::is_space(s.last()),
    ensures
        text::trim(s) == s,
{
}

/// A reply that is written in a block of code is read as the reply itself: what stands
/// between the marks is what counts.
pub proof fn fences_do_not_matter(json: Seq<char>)
    requires
        json.len() > 0,
        !text::is_space(json[0]),
        !text::is_space(json.last()),
        json[0] != '`',
        json.last() != '`',
    ensures
        unfenced(json) == json,
        unfenced(JSON_FENCE@ + seq!['\n'] + json + seq!['\n'] + FENCE@) == json,
{
    reveal_strlit("```");
    reveal_strlit("```json");
    trimmed_again(json);
    assert(!text::starts_with(json, FENCE@)) by {
        if text::starts_with(json, FENCE@) {
            assert(FENCE@[0] == '`');
        }
    }
    assert(!text::starts_with(json, JSON_FENCE@)) by {
        if text::starts_with(json, JSON_FENCE@) {
            assert(JSON_FENCE@[0] == '`');
        }
    }
    assert(!text::ends_with(json, FENCE@)) by {
        if text::ends_with(json, FENCE@) {
            assert(FENCE@[2] == '`');
        }
    }
    let line = seq!['\n'];
    let whole = JSON_FENCE@ + line + json + line + FENCE@;
    assert(whole[0] == JSON_FENCE@[0]);
    assert(whole.last() == FENCE@[2]);
    trimmed_again(whole);
    assert(whole.subrange(0, JSON_FENCE@.len() as int) =~= JSON_FENCE@);
    let inside = line + json + line + FENCE@;
    assert(whole.skip(JSON_FENCE@.len() as int) =~= inside);
    let behind = json + line + FENCE@;
    assert(inside.drop_first() =~= behind);
    assert(text::trim_start(inside) == text::trim_start(behind));
    assert(behind[0] == json[0]);
    assert(behind.last() == FENCE@[2]);
    assert(text::trim(inside) == behind);
    assert(behind.subrange(behind.len() - 3, behind.len() as int) =~= FENCE@);
    let rest = json + line;
    assert(behind.take(behind.len() - FENCE@.len()) =~= rest);
    assert(rest[0] == json[0]);
    assert(rest.drop_last() =~= json);
    assert(text::trim_end(rest) == text::trim_end(json));
}

// ---------------------------------------------------------------------------
// How sure the model is
// ---------------------------------------------------------------------------

/// The bits of 0.75.
pub const HIGH: u32 = 0x3f40_0000;

/// The bits of 0.5.
pub const MEDIUM: u32 = 0x3f00_0000;

/// The bits of 0.25.
pub const LOW: u32 = 0x3e80_0000;

/// What a text says of how sure the model is.
#[derive(Debug, PartialEq, Eq)]
pub enum SpokenConfidence {
    /// A word for it.
    Grade(Confidence),
    /// What may be a number, with a point in place of a comma.
    Number(String),
    /// What may be a number of hundredths, with a point in place of a comma.
    Percentage(String),
}

/// What a [`SpokenConfidence`] stands for.
#[verifier::ext_equal]
pub enum SpokenView {
    Grade(Confidence),
    Number(Seq<char>),
    Percentage(Seq<char>),
}

impl View for SpokenConfidence {
    type V = SpokenView;

    open spec fn view(&self) -> SpokenView {
        match *self {
            SpokenConfidence::Grade(confidence) => SpokenView::Grade(confidence),
            SpokenConfidence::Number(number) => SpokenView::Number(number@),
            SpokenConfidence::Percentage(number) => SpokenView::Percentage(number@),
        }
    }
}

/// What a text in lower case, without blanks round it, says of how sure the model is.
pub open spec fn spoken(s: Seq<char>) -> SpokenView {
    if text::one_of(s, seq!["high", "высокая", "высокий", "высоко"]) {
        SpokenView::Grade(Confidence { bits: HIGH })
    } else if text::one_of(s, seq!["medium", "average", "средняя", "средний", "средне"]) {
        SpokenView::Grade(Confidence { bits: MEDIUM })
    } else if text::one_of(s, seq!["low", "низкая", "низкий", "низко"]) {
        SpokenView::Grade(Confidence { bits: LOW })
    } else {
        let number = text::replace_char(text::trim(text::trim_end_any(s, seq!['%'])), ',', '.');
        if s.len() > 0 && s.last() == '%' {
            SpokenView::Percentage(number)
        } else {
            SpokenView::Number(number)
        }
    }
}

/// What a text in lower case, without blanks round it, says of how sure the model is.
pub fn spoken_confidence(normalized: &str) -> (said: SpokenConfidence)
    ensures
        said@ == spoken(normalized@),
{
    let high = ["high", "высокая", "высокий", "высоко"];
    assert(high@ =~= seq!["high", "высокая", "высокий", "высоко"]);
    let medium = ["medium", "average", "средняя", "средний", "средне"];
    assert(medium@ =~= seq!["medium", "average", "средняя", "средний", "средне"]);
    let low = ["low", "низкая", "низкий", "низко"];
    assert(low@ =~= seq!["low", "низкая", "низкий", "низко"]);
    if text::is_one_of(normalized, &high) {
        return SpokenConfidence::Grade(Confidence { bits: HIGH });
    }
    if text::is_one_of(normalized, &medium) {
        return SpokenConfidence::Grade(Confidence { bits: MEDIUM });
    }
    if text::is_one_of(normalized, &low) {
        return SpokenConfidence::Grade(Confidence { bits: LOW });
    }
    let chars = text::chars_of(normalized);
    let percent = ['%'];
    assert(percent@ =~= seq!['%']);
    let number = text::with_char_replaced(
        text::trimmed(text::trimmed_end_any(&chars, &percent)),
        ',',
        '.',
    );
    if chars.len() > 0 && chars[chars.len() - 1] == '%' {
        SpokenConfidence::Percentage(text::string_of(&number))
    } else {
        SpokenConfidence::Number(text::string_of(&number))
    }
}

/// What a text says of how sure the model is, whatever its case is and the white space round it.
pub open spec fn spoken_in(value: Seq<char>) -> SpokenView {
    spoken(outside::lowercase(text::trim(value)))
}

/// What a text says of how sure the model is.
pub fn read_confidence(value: &str) -> (said: SpokenConfidence)
    ensures
        said@ == spoken_in(value@),
        said@ == spoken(outside::lowercase(text::trim(value@))),
{
    let chars = text::chars_of(value);
    let normalized = text::string_of(text::trimmed(&chars)).to_lowercase();
    spoken_confidence(&normalized)
}

} // verus!
