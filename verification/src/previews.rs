//! The beginning of a text file.

use crate::outside;
use crate::records;
use crate::text;
use vstd::prelude::*;
use vstd::utf8;

verus! {

pub const NOT_EXTRACTED: &'static str =
    "Содержимое этого формата не извлекается; использованы метаданные файла.";

pub const TEXT_USED_UP: &'static str =
    "Достигнут общий лимит текста; использованы метаданные файла.";

pub const EMPTY_FILE: &'static str = "Текстовый файл пуст; использованы метаданные файла.";

pub const EXTRACTED: &'static str = "Передан фрагмент текстового содержимого и метаданные файла.";

pub const UNREADABLE: &'static str =
    "Не удалось прочитать содержимое; использованы метаданные файла.";

/// The extensions of files that hold text.
pub open spec fn text_kinds() -> Seq<&'static str> {
    seq![
        "txt",
        "md",
        "csv",
        "json",
        "xml",
        "yaml",
        "yml",
        "toml",
        "html",
        "htm",
        "log",
        "py",
        "js",
        "ts",
        "rs",
        "java",
        "c",
        "cpp",
        "h",
        "sql",
    ]
}

/// What is told of the contents of a file.
#[derive(Debug)]
pub struct Preview {
    pub extract: Option<String>,
    pub status: String,
}

/// What a [`Preview`] stands for.
#[verifier::ext_equal]
pub struct PreviewView {
    pub extract: Option<Seq<char>>,
    pub status: Seq<char>,
}

impl View for Preview {
    type V = PreviewView;

    open spec fn view(&self) -> PreviewView {
        PreviewView { extract: records::option_view(self.extract), status: self.status@ }
    }
}

/// What to do for a preview.
#[derive(Debug)]
pub enum PreviewPlan {
    /// Nothing: this is the preview.
    Done(Preview),
    /// Read so many bytes, or fewer where the file has no more.
    Read(u64),
}

// ---------------------------------------------------------------------------
// How much is read
// ---------------------------------------------------------------------------

/// The number of bytes that are read for some characters: enough for each of them, and
/// for one more.
pub open spec fn bytes_for(limit: usize) -> u64 {
    if limit == usize::MAX {
        u64::MAX
    } else if 4 * limit + 4 <= usize::MAX {
        (4 * limit + 4) as u64
    } else {
        usize::MAX as u64
    }
}

/// Why no byte of a file is read, where none is.
pub open spec fn not_read(ext: Seq<char>, limit: usize) -> Option<Seq<char>> {
    if !text::one_of(ext, text_kinds()) {
        Some(NOT_EXTRACTED@)
    } else if limit == 0 {
        Some(TEXT_USED_UP@)
    } else {
        None
    }
}

/// What to do for a preview of so many characters.
pub fn plan_preview(ext: &str, limit: usize) -> (plan: PreviewPlan)
    ensures
        match plan {
            PreviewPlan::Done(preview) => {
                &&& not_read(ext@, limit) == Some(preview@.status)
                &&& preview@.extract is None
            },
            PreviewPlan::Read(bytes) => not_read(ext@, limit) is None && bytes == bytes_for(limit),
        },
{
    let kinds = [
        "txt",
        "md",
        "csv",
        "json",
        "xml",
        "yaml",
        "yml",
        "toml",
        "html",
        "htm",
        "log",
        "py",
        "js",
        "ts",
        "rs",
        "java",
        "c",
        "cpp",
        "h",
        "sql",
    ];
    assert(kinds@ =~= text_kinds());
    if !text::is_one_of(ext, &kinds) {
        return PreviewPlan::Done(Preview { extract: None, status: NOT_EXTRACTED.to_owned() });
    }
    if limit == 0 {
        return PreviewPlan::Done(Preview { extract: None, status: TEXT_USED_UP.to_owned() });
    }
    if limit == usize::MAX {
        PreviewPlan::Read(u64::MAX)
    } else if limit <= usize::MAX / 4 - 1 {
        PreviewPlan::Read((4 * limit + 4) as u64)
    } else {
        PreviewPlan::Read(usize::MAX as u64)
    }
}

// ---------------------------------------------------------------------------
// What is shown
// ---------------------------------------------------------------------------

/// The preview of a text.
pub open spec fn text_preview(s: Seq<char>, limit: nat) -> PreviewView {
    let shown = text::first_chars(s, limit);
    if shown.len() == 0 {
        PreviewView { extract: None, status: EMPTY_FILE@ }
    } else {
        PreviewView { extract: Some(shown), status: EXTRACTED@ }
    }
}

/// The preview of the bytes that were read, where they could be.
pub open spec fn preview(bytes: Option<Seq<u8>>, limit: nat) -> PreviewView {
    match bytes {
        Some(bytes) => text_preview(outside::lossy_text(bytes), limit),
        None => PreviewView { extract: None, status: UNREADABLE@ },
    }
}

/// The preview of a text.
pub fn preview_of_text(value: &str, limit: usize) -> (shown: Preview)
    ensures
        shown@ == text_preview(value@, limit as nat),
{
    let chars = text::chars_of(value);
    let leading = text::leading_chars(&chars, limit);
    if leading.len() == 0 {
        Preview { extract: None, status: EMPTY_FILE.to_owned() }
    } else {
        Preview { extract: Some(text::string_of(leading)), status: EXTRACTED.to_owned() }
    }
}

/// Whether some bytes are the beginning of a text, with enough of it for so many
/// characters, or all of it.
pub open spec fn begins_text(bytes: Seq<u8>, s: Seq<char>, limit: nat) -> bool {
    let all = utf8::encode_utf8(s);
    bytes == all || bytes.len() >= 4 * limit && bytes.is_prefix_of(all)
}

proof fn encoding_of_sum(a: Seq<char>, b: Seq<char>)
    ensures
        utf8::encode_utf8(a + b) == utf8::encode_utf8(a) + utf8::encode_utf8(b),
    decreases a.len(),
{
    if a.len() == 0 {
        assert(a + b =~= b);
        assert(utf8::encode_utf8(a) + utf8::encode_utf8(b) =~= utf8::encode_utf8(b));
    } else {
        encoding_of_sum(a.drop_first(), b);
        assert((a + b).drop_first() =~= a.drop_first() + b);
        assert((a + b)[0] == a[0]);
        assert(utf8::encode_utf8(a + b) =~= utf8::encode_utf8(a) + utf8::encode_utf8(b));
    }
}

proof fn encoding_is_short(s: Seq<char>)
    ensures
        utf8::encode_utf8(s).len() <= 4 * s.len(),
    decreases s.len(),
{
    text::utf8_len_counts_bytes(s);
    few_bytes(s);
}

proof fn few_bytes(s: Seq<char>)
    ensures
        text::utf8_len(s) <= 4 * s.len(),
    decreases s.len(),
{
    if s.len() > 0 {
        few_bytes(s.drop_last());
    }
}

proof fn leading_text(bytes: Seq<u8>, s: Seq<char>, limit: nat)
    requires
        bytes.len() >= 4 * limit,
        bytes.is_prefix_of(utf8::encode_utf8(s)),
        bytes != utf8::encode_utf8(s),
    ensures
        s.len() >= limit,
        utf8::encode_utf8(s.take(limit as int)).is_prefix_of(bytes),
{
    let all = utf8::encode_utf8(s);
    encoding_is_short(s);
    if bytes.len() == all.len() {
        assert(bytes =~= all);
    }
    let head = s.take(limit as int);
    let tail = s.skip(limit as int);
    assert(head + tail =~= s);
    encoding_of_sum(head, tail);
    encoding_is_short(head);
    let part = utf8::encode_utf8(head);
    assert(part =~= bytes.take(part.len() as int));
}

/// The preview of the bytes that were read, where they could be. Where they begin a
/// text, it is a preview of that text: no character is cut.
pub fn preview_of_bytes(bytes: Option<&[u8]>, limit: usize) -> (shown: Preview)
    ensures
        shown@ == preview(
            match bytes {
                Some(bytes) => Some(bytes@),
                None => None,
            },
            limit as nat,
        ),
        forall|s: Seq<char>|
            bytes is Some && #[trigger] begins_text(bytes->0@, s, limit as nat) ==> shown@
                == text_preview(s, limit as nat),
{
    match bytes {
        Some(bytes) => {
            let value = outside::text_from_utf8_lossy(bytes);
            proof {
                assert forall|s: Seq<char>| #[trigger]
                    begins_text(bytes@, s, limit as nat) implies text_preview(
                    value@,
                    limit as nat,
                ) == text_preview(s, limit as nat) by {
                    if bytes@ != utf8::encode_utf8(s) {
                        leading_text(bytes@, s, limit as nat);
                        let head = s.take(limit as int);
                        assert(utf8::encode_utf8(head).is_prefix_of(bytes@));
                        assert(head.is_prefix_of(value@));
                        assert(value@.take(limit as int) =~= head) by {
                            assert(head == value@.subrange(0, limit as int));
                        }
                        if value@.len() == limit {
                            assert(value@.take(limit as int) =~= value@);
                        }
                        if s.len() == limit {
                            assert(s.take(limit as int) =~= s);
                        }
                        assert(text::first_chars(value@, limit as nat) =~= text::first_chars(
                            s,
                            limit as nat,
                        ));
                    }
                }
            }
            preview_of_text(&value, limit)
        },
        None => Preview { extract: None, status: UNREADABLE.to_owned() },
    }
}

} // verus!
