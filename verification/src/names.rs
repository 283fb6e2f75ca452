//! Names of files and folders: what Windows refuses, how a name is cleaned, and
//! where a file goes.

use crate::outside;
use crate::paths;
use crate::paths::Style;
use crate::records;
use crate::text;
use vstd::prelude::*;
use vstd::slice::slice_subrange;

verus! {

/// The folder that sorted files go to.
pub const SORTED_DIR: &'static str = "AI Sorted";

/// The category of what fits nowhere else.
pub const OTHER_CATEGORY: &'static str = "Прочее";

/// The name of a file that has none.
pub const UNNAMED_FILE: &'static str = "файл";

/// The number of characters that a cleaned name keeps.
pub const MAX_NAME_CHARS: usize = 80;

// ---------------------------------------------------------------------------
// What Windows refuses
// ---------------------------------------------------------------------------

/// Whether a character cannot stand in a file name.
pub open spec fn is_forbidden(c: char) -> bool {
    ||| text::is_control(c)
    ||| c == '/'
    ||| c == '\\'
    ||| c == ':'
    ||| c == '*'
    ||| c == '?'
    ||| c == '"'
    ||| c == '<'
    ||| c == '>'
    ||| c == '|'
}

/// Whether `stem`, in upper case, is the name of a device.
pub open spec fn is_device(stem: Seq<char>) -> bool {
    ||| stem == "CON"@
    ||| stem == "PRN"@
    ||| stem == "AUX"@
    ||| stem == "NUL"@
    ||| {
        &&& stem.len() == 4
        &&& stem.take(3) == "COM"@ || stem.take(3) == "LPT"@
        &&& text::is_ascii_digit(stem[3]) && stem[3] != '0'
    }
}

/// Whether what stands before the first `.` names a device, in whatever case.
pub open spec fn is_reserved(name: Seq<char>) -> bool {
    is_device(text::ascii_upper_text(text::before_first(name, "."@)))
}

/// Whether Windows takes a name as one part of a path.
pub open spec fn is_compatible(name: Seq<char>) -> bool {
    &&& name.len() > 0
    &&& name != "."@
    &&& name != ".."@
    &&& name.last() != ' '
    &&& name.last() != '.'
    &&& !is_reserved(name)
    &&& forall|i: int| 0 <= i < name.len() ==> !is_forbidden(#[trigger] name[i])
}

fn char_is_forbidden(c: char) -> (yes: bool)
    ensures
        yes == is_forbidden(c),
{
    text::char_is_control(c) || c == '/' || c == '\\' || c == ':' || c == '*' || c == '?' || c == '"' || c
        == '<' || c == '>' || c == '|'
}

/// Whether a name is that of a Windows device, with or without an extension.
pub fn is_windows_reserved_name(value: &str) -> (yes: bool)
    ensures
        yes == is_reserved(value@),
{
    let chars = text::chars_of(value);
    let stem = text::raised_ascii(text::cut_before(&chars, "."));
    let stem_text = text::string_of(&stem);
    proof {
        reveal_strlit("COM");
        reveal_strlit("LPT");
    }
    if text::is_one_of(&stem_text, &["CON", "PRN", "AUX", "NUL"]) {
        proof {
            let options = ["CON", "PRN", "AUX", "NUL"]@;
            assert(options[0] == "CON" && options[1] == "PRN" && options[2] == "AUX" && options[3]
                == "NUL");
        }
        return true;
    }
    proof {
        let options = ["CON", "PRN", "AUX", "NUL"]@;
        assert(options[0] == "CON" && options[1] == "PRN" && options[2] == "AUX" && options[3]
            == "NUL");
    }
    if stem.len() != 4 {
        return false;
    }
    let front = text::string_of(slice_subrange(&stem, 0, 3));
    assert(front@ =~= stem@.take(3));
    let number = text::char_code(stem[3]);
    (text::same_text(&front, "COM") || text::same_text(&front, "LPT")) && '1' as u32 <= number && number
        <= '9' as u32
}

/// Whether Windows takes a name as one part of a path.
pub fn windows_compatible_component(value: &str) -> (yes: bool)
    ensures
        yes == is_compatible(value@),
{
    let chars = text::chars_of(value);
    if chars.len() == 0 || text::same_text(value, ".") || text::same_text(value, "..") {
        return false;
    }
    let last = chars[chars.len() - 1];
    if last == ' ' || last == '.' || is_windows_reserved_name(value) {
        return false;
    }
    for i in 0..chars.len()
        invariant
            chars@ == value@,
            forall|j: int| 0 <= j < i ==> !is_forbidden(#[trigger] value@[j]),
    {
        if char_is_forbidden(chars[i]) {
            return false;
        }
    }
    true
}

// ---------------------------------------------------------------------------
// Cleaning a name
// ---------------------------------------------------------------------------

/// With `_` in place of every character that cannot stand in a file name.
pub open spec fn masked(s: Seq<char>) -> Seq<char> {
    Seq::new(
        s.len(),
        |i: int|
            if is_forbidden(s[i]) {
                '_'
            } else {
                s[i]
            },
    )
}

/// The beginning of a name, masked, without the white space round it and the dots and
/// white space at its end.
pub open spec fn cleaned(value: Seq<char>) -> Seq<char> {
    text::trim_end(
        text::trim_end_any(
            text::trim(text::first_chars(masked(value), MAX_NAME_CHARS as nat)),
            seq!['.'],
        ),
    )
}

/// The name that stands for `value` on disk.
pub open spec fn safe(value: Seq<char>) -> Seq<char> {
    let clean = cleaned(value);
    if clean.len() == 0 || clean == "."@ || clean == ".."@ {
        OTHER_CATEGORY@
    } else if is_reserved(clean) {
        "_"@ + clean
    } else {
        clean
    }
}

/// A name that can stand on disk.
pub fn safe_name(value: &str) -> (name: String)
    ensures
        name@ == safe(value@),
{
    let chars = text::chars_of(value);
    let mut mask: Vec<char> = Vec::new();
    for i in 0..chars.len()
        invariant
            chars@ == value@,
            mask@ == masked(value@).take(i as int),
    {
        let c = chars[i];
        mask.push(if char_is_forbidden(c) { '_' } else { c });
    }
    assert(mask@ =~= masked(value@));
    let short = text::leading_chars(&mask, MAX_NAME_CHARS);
    let dots = ['.'];
    assert(dots@ =~= seq!['.']);
    let clean = text::trimmed_end(text::trimmed_end_any(text::trimmed(short), &dots));
    let clean_text = text::string_of(clean);
    if clean.len() == 0 || text::same_text(&clean_text, ".") || text::same_text(&clean_text, "..") {
        OTHER_CATEGORY.to_owned()
    } else if is_windows_reserved_name(&clean_text) {
        let mut name = "_".to_owned();
        name.append(&clean_text);
        name
    } else {
        clean_text
    }
}

/// Where a file of a category goes: into the folder of the category, under its own
/// name and nothing else of its old path.
pub open spec fn target(style: Style, category: Seq<char>, relative: Seq<char>) -> Seq<char> {
    target_under(style, category, paths::file_name(style, relative))
}

/// Where a file of a category goes, by its name, where it has one that is text.
pub open spec fn target_under(
    style: Style,
    category: Seq<char>,
    name: Option<Seq<char>>,
) -> Seq<char> {
    let separator = seq![paths::main_separator(style)];
    SORTED_DIR@ + separator + safe(category) + separator + kept_name(name)
}

/// The name that a file keeps.
pub open spec fn kept_name(name: Option<Seq<char>>) -> Seq<char> {
    match name {
        Some(name) => safe(name),
        None => UNNAMED_FILE@,
    }
}

/// The name that a file keeps, by its path.
pub open spec fn target_name(style: Style, relative: Seq<char>) -> Seq<char> {
    kept_name(paths::file_name(style, relative))
}

/// Where a file of a category goes.
pub fn planned_target(style: Style, category: &str, relative: &str) -> (path: String)
    ensures
        path@ == target(style, category@, relative@),
{
    planned_target_under(style, category, &paths::file_name_of(style, relative))
}

/// Where a file of a category goes, by its name, where it has one that is text.
pub fn planned_target_under(style: Style, category: &str, file_name: &Option<String>) -> (path:
    String)
    ensures
        path@ == target_under(style, category@, records::option_view(*file_name)),
{
    let name = match file_name {
        Some(name) => safe_name(name),
        None => UNNAMED_FILE.to_owned(),
    };
    let folder = safe_name(category);
    let separator = paths::separator_of(style);
    let mut path = SORTED_DIR.to_owned();
    path.push(separator);
    path.append(&folder);
    path.push(separator);
    path.append(&name);
    assert(path@ =~= target_under(style, category@, records::option_view(*file_name)));
    path
}

// ---------------------------------------------------------------------------
// Where a file may go
// ---------------------------------------------------------------------------

pub const BAD_TARGET: &'static str = "Недопустимый целевой путь";

pub const INCOMPATIBLE_NAME: &'static str = "Имя папки или файла несовместимо с Windows";

pub const OUTSIDE_ROOT: &'static str = "Путь выходит за пределы выбранной папки";

/// Whether every part of a path is a name.
pub open spec fn only_names(style: Style, path: Seq<char>) -> bool {
    paths::are_names(paths::parts(style, path))
}

/// Whether Windows takes every name in a path.
pub open spec fn names_compatible(style: Style, path: Seq<char>) -> bool {
    forall|i: int|
        0 <= i < paths::parts(style, path).len() ==> ((#[trigger] paths::parts(style, path)[i]) matches
            paths::Part::Normal(name) ==> is_compatible(name))
}

/// Whether `..` is a part of a path.
pub open spec fn climbs(style: Style, path: Seq<char>) -> bool {
    exists|i: int|
        0 <= i < paths::parts(style, path).len() && (#[trigger] paths::parts(style, path)[i]) is ParentDir
}

/// Where a target given relative to the root lies, or why it is refused.
pub open spec fn destination(style: Style, root: Seq<char>, relative: Seq<char>) -> Result<
    Seq<char>,
    Seq<char>,
> {
    let place = paths::join(style, root, relative);
    if !only_names(style, relative) {
        Err(BAD_TARGET@)
    } else if !names_compatible(style, relative) {
        Err(INCOMPATIBLE_NAME@)
    } else if !paths::lies_in(style, place, root) {
        Err(OUTSIDE_ROOT@)
    } else {
        Ok(place)
    }
}

/// Where a recorded path lies, or why it is refused.
pub open spec fn recorded_destination(
    style: Style,
    root: Seq<char>,
    candidate: Seq<char>,
) -> Result<Seq<char>, Seq<char>> {
    if !paths::is_absolute(style, candidate) {
        destination(style, root, candidate)
    } else if climbs(style, candidate) || !paths::lies_in(style, candidate, root) {
        Err(OUTSIDE_ROOT@)
    } else {
        Ok(candidate)
    }
}

/// Whether a result has the given text on the given side.
pub open spec fn is_outcome(
    result: Result<String, String>,
    expected: Result<Seq<char>, Seq<char>>,
) -> bool {
    match (result, expected) {
        (Ok(text), Ok(expected_text)) => text@ == expected_text,
        (Err(text), Err(expected_text)) => text@ == expected_text,
        _ => false,
    }
}

/// The place of a target inside the root.
pub fn safe_destination(style: Style, root: &str, relative: &str) -> (place: Result<String, String>)
    ensures
        is_outcome(place, destination(style, root@, relative@)),
        place is Ok ==> paths::lies_in(style, place->Ok_0@, root@),
{
    let list = paths::components(style, relative);
    let ghost parts = paths::component_views(list@);
    assert(parts == paths::parts(style, relative@));
    for i in 0..list.len()
        invariant
            parts == paths::component_views(list@),
            parts == paths::parts(style, relative@),
            forall|j: int| 0 <= j < i ==> (#[trigger] parts[j]) is Normal,
    {
        assert(parts[i as int] == list@[i as int]@);
        match &list[i] {
            paths::Component::Normal(_) => {},
            _ => {
                return Err(BAD_TARGET.to_owned());
            },
        }
    }
    assert(only_names(style, relative@));
    for i in 0..list.len()
        invariant
            parts == paths::component_views(list@),
            parts == paths::parts(style, relative@),
            only_names(style, relative@),
            forall|j: int|
                0 <= j < i ==> ((#[trigger] parts[j]) matches paths::Part::Normal(name)
                    ==> is_compatible(name)),
    {
        assert(parts[i as int] == list@[i as int]@);
        match &list[i] {
            paths::Component::Normal(name) => {
                if !windows_compatible_component(name) {
                    return Err(INCOMPATIBLE_NAME.to_owned());
                }
            },
            _ => {},
        }
    }
    let place = paths::joined(style, root, relative);
    if paths::is_inside(style, &place, root) {
        Ok(place)
    } else {
        Err(OUTSIDE_ROOT.to_owned())
    }
}

/// The place of a recorded path inside the root.
pub fn safe_recorded_destination(style: Style, root: &str, candidate: &str) -> (place: Result<
    String,
    String,
>)
    ensures
        is_outcome(place, recorded_destination(style, root@, candidate@)),
        place is Ok ==> paths::lies_in(style, place->Ok_0@, root@),
{
    if !paths::is_absolute_path(style, candidate) {
        return safe_destination(style, root, candidate);
    }
    let list = paths::components(style, candidate);
    let ghost parts = paths::component_views(list@);
    for i in 0..list.len()
        invariant
            parts == paths::component_views(list@),
            parts == paths::parts(style, candidate@),
            paths::is_absolute(style, candidate@),
            forall|j: int| 0 <= j < i ==> !((#[trigger] parts[j]) is ParentDir),
    {
        assert(parts[i as int] == list@[i as int]@);
        match &list[i] {
            paths::Component::ParentDir => {
                return Err(OUTSIDE_ROOT.to_owned());
            },
            _ => {},
        }
    }
    assert(!climbs(style, candidate@));
    if paths::is_inside(style, candidate, root) {
        Ok(candidate.to_owned())
    } else {
        Err(OUTSIDE_ROOT.to_owned())
    }
}

/// The form of a path in which two spellings of one file on a disk that ignores case
/// are the same.
pub open spec fn path_key(path: Seq<char>) -> Seq<char> {
    outside::lowercase(text::replace_char(path, '\\', '/'))
}

/// The form of a path under which it is remembered.
pub fn normalized_path_key(path: &str) -> (key: String)
    ensures
        key@ == path_key(path@),
{
    let chars = text::chars_of(path);
    let slashed = text::string_of(&text::with_char_replaced(&chars, '\\', '/'));
    slashed.as_str().to_lowercase()
}

// ---------------------------------------------------------------------------
// Laws
// ---------------------------------------------------------------------------

/// A cleaned name does not begin or end in white space and holds no character that
/// cannot stand in a file name. It has no more characters than a name keeps.
pub proof fn cleaned_names_are_clean(value: Seq<char>)
    ensures
        cleaned(value).len() <= MAX_NAME_CHARS,
        forall|i: int| 0 <= i < cleaned(value).len() ==> !is_forbidden(#[trigger] cleaned(value)[i]),
        cleaned(value).len() > 0 ==> !text::is_space(cleaned(value).last()),
        cleaned(value).len() > 0 ==> !text::is_space(cleaned(value)[0]),
{
    let mask = masked(value);
    let short = text::first_chars(mask, MAX_NAME_CHARS as nat);
    let front = text::trim_start(short);
    let trimmed = text::trim_end(front);
    let undotted = text::trim_end_any(trimmed, seq!['.']);
    text::trim_start_is_a_suffix(short);
    text::trim_end_is_a_prefix(front);
    text::trim_end_any_is_a_prefix(trimmed, seq!['.']);
    text::trim_end_is_a_prefix(undotted);
    let clean = cleaned(value);
    assert forall|i: int| 0 <= i < clean.len() implies !is_forbidden(#[trigger] clean[i]) by {
        let cut = short.len() - front.len();
        assert(clean[i] == undotted[i]);
        assert(undotted[i] == trimmed[i]);
        assert(trimmed[i] == front[i]);
        assert(front[i] == short[cut + i]);
        assert(short[cut + i] == mask[cut + i]);
    }
    if clean.len() > 0 {
        assert(clean[0] == front[0]);
    }
}

proof fn safe_names_hold_no_mark(value: Seq<char>)
    ensures
        safe(value).len() > 0,
        safe(value) != seq!['.'],
        safe(value) != seq!['.', '.'],
        forall|i: int| 0 <= i < safe(value).len() ==> !is_forbidden(#[trigger] safe(value)[i]),
{
    cleaned_names_are_clean(value);
    let clean = cleaned(value);
    let name = safe(value);
    reveal_strlit(".");
    reveal_strlit("..");
    reveal_strlit("_");
    reveal_strlit("Прочее");
    assert("."@ =~= seq!['.']);
    assert(".."@ =~= seq!['.', '.']);
    assert(name.len() > 0);
    if name == OTHER_CATEGORY@ {
        assert(name[0] == 'П' && name[1] == 'р' && name[2] == 'о' && name[3] == 'ч' && name[4]
            == 'е' && name[5] == 'е');
    } else if is_reserved(clean) && name == "_"@ + clean {
        assert(name[0] == '_');
        assert forall|i: int| 0 <= i < name.len() implies !is_forbidden(#[trigger] name[i]) by {
            if i > 0 {
                assert(name[i] == clean[i - 1]);
            }
        }
    }
}

/// A name that may stand on disk holds nothing that is a mark in a path.
pub proof fn allowed_names_hold_no_mark(style: Style, name: Seq<char>)
    requires
        forall|i: int| 0 <= i < name.len() ==> !is_forbidden(#[trigger] name[i]),
    ensures
        paths::holds_no_mark(style, name),
{
    if name.contains(':') {
        let k = choose|k: int| 0 <= k < name.len() && name[k] == ':';
        assert(is_forbidden(name[k]));
    }
    let set = paths::separators(style, None);
    assert forall|i: int| 0 <= i < name.len() implies !paths::separates(
        set,
        #[trigger] name[i],
    ) by {
        assert(!is_forbidden(name[i]));
    }
}

/// A cleaned name stays one part of a path: it is not empty, holds no separator, and
/// does not stand for the folder itself or the one above.
pub proof fn safe_names_are_single_parts(style: Style, value: Seq<char>)
    ensures
        paths::parts(style, safe(value)) == seq![paths::Part::Normal(safe(value))],
        paths::holds_no_mark(style, safe(value)),
        safe(value).len() > 0,
{
    safe_names_hold_no_mark(value);
    allowed_names_hold_no_mark(style, safe(value));
    paths::unmarked_names_are_plain(style, safe(value));
}

/// A name that Windows takes, that is not too long and has no white space round it, is
/// not changed by cleaning.
pub proof fn compatible_names_stay(name: Seq<char>)
    requires
        is_compatible(name),
        name.len() <= MAX_NAME_CHARS,
        !text::is_space(name[0]),
        !text::is_space(name.last()),
    ensures
        safe(name) == name,
{
    assert(masked(name) =~= name);
    assert(text::trim(name) == name);
    assert(!seq!['.'].contains(name.last())) by {
        if seq!['.'].contains(name.last()) {
            let k = choose|k: int| 0 <= k < 1 && seq!['.'][k] == name.last();
        }
    }
    assert(cleaned(name) == name);
}

proof fn unnamed_is_allowed()
    ensures
        UNNAMED_FILE@.len() == 4,
        UNNAMED_FILE@[0] == 'ф',
        UNNAMED_FILE@[3] == 'л',
        forall|i: int| 0 <= i < UNNAMED_FILE@.len() ==> !is_forbidden(#[trigger] UNNAMED_FILE@[i]),
{
    reveal_strlit("файл");
    let name = UNNAMED_FILE@;
    assert(name[0] == 'ф' && name[1] == 'а' && name[2] == 'й' && name[3] == 'л');
}

proof fn kept_names_hold_no_mark(style: Style, name: Option<Seq<char>>)
    ensures
        kept_name(name).len() > 0,
        kept_name(name) != seq!['.'],
        kept_name(name) != seq!['.', '.'],
        paths::holds_no_mark(style, kept_name(name)),
{
    match name {
        Some(own) => {
            safe_names_hold_no_mark(own);
            allowed_names_hold_no_mark(style, safe(own));
        },
        None => {
            unnamed_is_allowed();
            allowed_names_hold_no_mark(style, UNNAMED_FILE@);
        },
    }
}

/// A target has three parts, whatever the category and the path are: the folder of
/// sorted files, one folder in it, and the file. Nothing else of the old path stays.
pub proof fn targets_have_three_parts(style: Style, category: Seq<char>, relative: Seq<char>)
    ensures
        paths::parts(style, target(style, category, relative)) == seq![
            paths::Part::Normal(SORTED_DIR@),
            paths::Part::Normal(safe(category)),
            paths::Part::Normal(target_name(style, relative)),
        ],
        only_names(style, target(style, category, relative)),
        paths::holds_no_mark(style, target_name(style, relative)),
{
    reveal_strlit("AI Sorted");
    let folder = SORTED_DIR@;
    assert(folder[0] == 'A' && folder[1] == 'I' && folder[2] == ' ' && folder[3] == 'S' && folder[4]
        == 'o' && folder[5] == 'r' && folder[6] == 't' && folder[7] == 'e' && folder[8] == 'd');
    allowed_names_hold_no_mark(style, folder);
    safe_names_hold_no_mark(category);
    allowed_names_hold_no_mark(style, safe(category));
    kept_names_hold_no_mark(style, paths::file_name(style, relative));
    paths::three_names_are_three_parts(
        style,
        folder,
        safe(category),
        target_name(style, relative),
    );
}

/// A name whose first character begins no device name is not reserved.
proof fn not_a_device(name: Seq<char>)
    requires
        name.len() > 0,
        !text::is_ascii_letter(name[0]),
        name[0] != '.',
    ensures
        !is_reserved(name),
{
    reveal_strlit(".");
    reveal_strlit("CON");
    reveal_strlit("PRN");
    reveal_strlit("AUX");
    reveal_strlit("NUL");
    reveal_strlit("COM");
    reveal_strlit("LPT");
    let front = text::before_first(name, "."@);
    text::before_first_is_free_of_it(name, "."@);
    if text::contains(name, "."@) {
        text::an_occurrence_has_a_first(name, "."@);
        let first = choose|i: int| text::is_first_at(name, i, "."@);
        assert(front == name.take(first));
        if first == 0 {
            assert(name.subrange(0, 1)[0] == "."@[0]);
        }
        assert(front[0] == name[0]);
    }
    let stem = text::ascii_upper_text(front);
    assert(stem[0] == name[0]);
    if is_device(stem) {
        assert(stem.take(3)[0] == stem[0]);
    }
}

/// Windows takes every cleaned name but one that still ends in a dot.
pub proof fn safe_names_are_compatible(value: Seq<char>)
    ensures
        is_compatible(safe(value)) <==> safe(value).last() != '.',
{
    cleaned_names_are_clean(value);
    safe_names_hold_no_mark(value);
    let clean = cleaned(value);
    let name = safe(value);
    reveal_strlit(".");
    reveal_strlit("..");
    reveal_strlit("_");
    reveal_strlit("Прочее");
    assert("."@ =~= seq!['.']);
    assert(".."@ =~= seq!['.', '.']);
    if name == OTHER_CATEGORY@ {
        assert(name[0] == 'П' && name[1] == 'р' && name[2] == 'о' && name[3] == 'ч' && name[4]
            == 'е' && name[5] == 'е');
        not_a_device(name);
    } else if is_reserved(clean) {
        assert(name == "_"@ + clean);
        assert(name[0] == '_');
        assert(name.last() == clean.last());
        not_a_device(name);
        assert forall|i: int| 0 <= i < name.len() implies !is_forbidden(#[trigger] name[i]) by {
            if i > 0 {
                assert(name[i] == clean[i - 1]);
            }
        }
    }
}

/// A planned target is accepted as a destination, and lies in the root, but where a
/// cleaned name still ends in a dot.
pub proof fn targets_are_accepted(
    style: Style,
    root: Seq<char>,
    category: Seq<char>,
    relative: Seq<char>,
)
    requires
        paths::is_settled(style, root),
        safe(category).last() != '.',
        target_name(style, relative).last() != '.',
    ensures
        destination(style, root, target(style, category, relative)) == Ok::<Seq<char>, Seq<char>>(
            paths::join(style, root, target(style, category, relative)),
        ),
        paths::lies_in(
            style,
            paths::join(style, root, target(style, category, relative)),
            root,
        ),
{
    let path = target(style, category, relative);
    targets_have_three_parts(style, category, relative);
    safe_names_are_compatible(category);
    reveal_strlit(".");
    reveal_strlit("..");
    match paths::file_name(style, relative) {
        Some(own) => safe_names_are_compatible(own),
        None => {
            let name = UNNAMED_FILE@;
            unnamed_is_allowed();
            assert(name.last() == name[3]);
            not_a_device(name);
            assert(is_compatible(name));
        },
    }
    sorted_dir_is_compatible();
    let parts = paths::parts(style, path);
    assert forall|i: int| 0 <= i < parts.len() implies ((#[trigger] parts[i]) matches
        paths::Part::Normal(name) ==> is_compatible(name)) by {
        if i == 0 {
            assert(parts[i] == paths::Part::Normal(SORTED_DIR@));
        } else if i == 1 {
            assert(parts[i] == paths::Part::Normal(safe(category)));
        } else {
            assert(parts[i] == paths::Part::Normal(target_name(style, relative)));
        }
    }
    assert(names_compatible(style, path));
    paths::parts_of_join(style, root, path);
}

proof fn sorted_dir_is_compatible()
    ensures
        is_compatible(SORTED_DIR@),
{
    reveal_strlit("AI Sorted");
    reveal_strlit(".");
    reveal_strlit("..");
    reveal_strlit("CON");
    reveal_strlit("PRN");
    reveal_strlit("AUX");
    reveal_strlit("NUL");
    let folder = SORTED_DIR@;
    assert(folder[0] == 'A' && folder[1] == 'I' && folder[2] == ' ' && folder[3] == 'S' && folder[4]
        == 'o' && folder[5] == 'r' && folder[6] == 't' && folder[7] == 'e' && folder[8] == 'd');
    if text::contains(folder, "."@) {
        let i = choose|i: int| text::has_at(folder, i, "."@);
        assert(folder.subrange(i, i + 1)[0] == "."@[0]);
        assert(folder[i] == '.');
    }
    let stem = text::ascii_upper_text(folder);
    assert(stem.len() == 9);
}

} // verus!
