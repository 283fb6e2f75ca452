//! What a file is called where it goes, and where it may go.

use crate::laws::texts;
use crate::moves;
use crate::names;
use crate::outside;
use crate::paths;
use crate::paths::Style;
use crate::text;
use vstd::prelude::*;

verus! {

// ---------------------------------------------------------------------------
// Names that may stand
// ---------------------------------------------------------------------------

/// Whether a character has a meaning of its own in a path, a command or a pattern, or is
/// no character to be seen.
pub open spec fn is_listed(c: char) -> bool {
    (c as u32) < 0x20 || 0x7f <= c as u32 <= 0x9f || "/\\:*?\"<>|"@.contains(c)
}

/// The characters that cannot stand in a file name.
pub proof fn forbidden_characters_are_listed(c: char)
    ensures
        names::is_forbidden(c) <==> is_listed(c),
{
    let marks = "/\\:*?\"<>|"@;
    reveal_strlit("/\\:*?\"<>|");
    assert(marks[0] == '/');
    assert(marks[1] == '\\');
    assert(marks[2] == ':');
    assert(marks[3] == '*');
    assert(marks[4] == '?');
    assert(marks[5] == '"');
    assert(marks[6] == '<');
    assert(marks[7] == '>');
    assert(marks[8] == '|');
    if marks.contains(c) {
        let k = choose|k: int| 0 <= k < marks.len() && marks[k] == c;
    }
}

/// The names of the devices of Windows.
pub open spec fn device_names() -> Seq<&'static str> {
    seq![
        "CON", "PRN", "AUX", "NUL", "COM1", "COM2", "COM3", "COM4", "COM5", "COM6", "COM7", "COM8", "COM9", "LPT1", "LPT2", "LPT3", "LPT4", "LPT5", "LPT6", "LPT7", "LPT8", "LPT9",
    ]
}

proof fn digits_are_listed(c: char)
    requires
        text::is_ascii_digit(c),
        c != '0',
    ensures
        c == '1' || c == '2' || c == '3' || c == '4' || c == '5' || c == '6' || c == '7' || c == '8' || c == '9',
{
    let u = c as u32;
    assert(48 <= u <= 57);
    assert(u != 48);
    assert(u == 49 || u == 50 || u == 51 || u == 52 || u == 53 || u == 54 || u == 55 || u == 56 || u == 57);
}

proof fn com_ports_are_named(stem: Seq<char>)
    ensures
        (stem.len() == 4 && stem.take(3) == "COM"@ && text::is_ascii_digit(stem[3]) && stem[3] != '0')
            <==> (stem == "COM1"@ || stem == "COM2"@ || stem == "COM3"@ || stem == "COM4"@ || stem == "COM5"@ || stem == "COM6"@ || stem == "COM7"@ || stem == "COM8"@ || stem == "COM9"@),
{
    reveal_strlit("COM");
    reveal_strlit("COM1");
    assert("COM1"@.take(3) =~= "COM"@);
    assert("COM1"@[3] == '1');
    reveal_strlit("COM2");
    assert("COM2"@.take(3) =~= "COM"@);
    assert("COM2"@[3] == '2');
    reveal_strlit("COM3");
    assert("COM3"@.take(3) =~= "COM"@);
    assert("COM3"@[3] == '3');
    reveal_strlit("COM4");
    assert("COM4"@.take(3) =~= "COM"@);
    assert("COM4"@[3] == '4');
    reveal_strlit("COM5");
    assert("COM5"@.take(3) =~= "COM"@);
    assert("COM5"@[3] == '5');
    reveal_strlit("COM6");
    assert("COM6"@.take(3) =~= "COM"@);
    assert("COM6"@[3] == '6');
    reveal_strlit("COM7");
    assert("COM7"@.take(3) =~= "COM"@);
    assert("COM7"@[3] == '7');
    reveal_strlit("COM8");
    assert("COM8"@.take(3) =~= "COM"@);
    assert("COM8"@[3] == '8');
    reveal_strlit("COM9");
    assert("COM9"@.take(3) =~= "COM"@);
    assert("COM9"@[3] == '9');
    if stem.len() == 4 && stem.take(3) == "COM"@ && text::is_ascii_digit(stem[3]) && stem[3] != '0' {
        assert(stem[0] == stem.take(3)[0] && stem[1] == stem.take(3)[1] && stem[2] == stem.take(3)[2]);
        let c = stem[3];
        assert(c as int != '0' as int);
        digits_are_listed(c);
        if c == '1' {
            assert(stem =~= "COM1"@);
        }
        if c == '2' {
            assert(stem =~= "COM2"@);
        }
        if c == '3' {
            assert(stem =~= "COM3"@);
        }
        if c == '4' {
            assert(stem =~= "COM4"@);
        }
        if c == '5' {
            assert(stem =~= "COM5"@);
        }
        if c == '6' {
            assert(stem =~= "COM6"@);
        }
        if c == '7' {
            assert(stem =~= "COM7"@);
        }
        if c == '8' {
            assert(stem =~= "COM8"@);
        }
        if c == '9' {
            assert(stem =~= "COM9"@);
        }
    }
}

proof fn lpt_ports_are_named(stem: Seq<char>)
    ensures
        (stem.len() == 4 && stem.take(3) == "LPT"@ && text::is_ascii_digit(stem[3]) && stem[3] != '0')
            <==> (stem == "LPT1"@ || stem == "LPT2"@ || stem == "LPT3"@ || stem == "LPT4"@ || stem == "LPT5"@ || stem == "LPT6"@ || stem == "LPT7"@ || stem == "LPT8"@ || stem == "LPT9"@),
{
    reveal_strlit("LPT");
    reveal_strlit("LPT1");
    assert("LPT1"@.take(3) =~= "LPT"@);
    assert("LPT1"@[3] == '1');
    reveal_strlit("LPT2");
    assert("LPT2"@.take(3) =~= "LPT"@);
    assert("LPT2"@[3] == '2');
    reveal_strlit("LPT3");
    assert("LPT3"@.take(3) =~= "LPT"@);
    assert("LPT3"@[3] == '3');
    reveal_strlit("LPT4");
    assert("LPT4"@.take(3) =~= "LPT"@);
    assert("LPT4"@[3] == '4');
    reveal_strlit("LPT5");
    assert("LPT5"@.take(3) =~= "LPT"@);
    assert("LPT5"@[3] == '5');
    reveal_strlit("LPT6");
    assert("LPT6"@.take(3) =~= "LPT"@);
    assert("LPT6"@[3] == '6');
    reveal_strlit("LPT7");
    assert("LPT7"@.take(3) =~= "LPT"@);
    assert("LPT7"@[3] == '7');
    reveal_strlit("LPT8");
    assert("LPT8"@.take(3) =~= "LPT"@);
    assert("LPT8"@[3] == '8');
    reveal_strlit("LPT9");
    assert("LPT9"@.take(3) =~= "LPT"@);
    assert("LPT9"@[3] == '9');
    if stem.len() == 4 && stem.take(3) == "LPT"@ && text::is_ascii_digit(stem[3]) && stem[3] != '0' {
        assert(stem[0] == stem.take(3)[0] && stem[1] == stem.take(3)[1] && stem[2] == stem.take(3)[2]);
        let c = stem[3];
        assert(c as int != '0' as int);
        digits_are_listed(c);
        if c == '1' {
            assert(stem =~= "LPT1"@);
        }
        if c == '2' {
            assert(stem =~= "LPT2"@);
        }
        if c == '3' {
            assert(stem =~= "LPT3"@);
        }
        if c == '4' {
            assert(stem =~= "LPT4"@);
        }
        if c == '5' {
            assert(stem =~= "LPT5"@);
        }
        if c == '6' {
            assert(stem =~= "LPT6"@);
        }
        if c == '7' {
            assert(stem =~= "LPT7"@);
        }
        if c == '8' {
            assert(stem =~= "LPT8"@);
        }
        if c == '9' {
            assert(stem =~= "LPT9"@);
        }
    }
}

proof fn devices_are_named(stem: Seq<char>)
    ensures
        names::is_device(stem) <==> text::one_of(stem, device_names()),
{
    let all = device_names();
    com_ports_are_named(stem);
    lpt_ports_are_named(stem);
    assert(all[0] == "CON");
    assert(all[1] == "PRN");
    assert(all[2] == "AUX");
    assert(all[3] == "NUL");
    assert(all[4] == "COM1");
    assert(all[5] == "COM2");
    assert(all[6] == "COM3");
    assert(all[7] == "COM4");
    assert(all[8] == "COM5");
    assert(all[9] == "COM6");
    assert(all[10] == "COM7");
    assert(all[11] == "COM8");
    assert(all[12] == "COM9");
    assert(all[13] == "LPT1");
    assert(all[14] == "LPT2");
    assert(all[15] == "LPT3");
    assert(all[16] == "LPT4");
    assert(all[17] == "LPT5");
    assert(all[18] == "LPT6");
    assert(all[19] == "LPT7");
    assert(all[20] == "LPT8");
    assert(all[21] == "LPT9");
    if text::one_of(stem, all) {
        let i = choose|i: int| 0 <= i < all.len() && stem == (#[trigger] all[i])@;
    }
}

/// A name is reserved where what stands before its first dot, whatever the case of its
/// letters is, is the name of a device of Windows.
pub proof fn device_names_are_reserved(name: Seq<char>, k: int)
    requires
        0 <= k <= name.len(),
        forall|i: int| 0 <= i < k ==> (#[trigger] name[i]) != '.',
        k == name.len() || name[k] == '.',
    ensures
        names::is_reserved(name) <==> text::one_of(
            text::ascii_upper_text(name.take(k)),
            device_names(),
        ),
{
    reveal_strlit(".");
    assert("."@ =~= seq!['.']);
    let front = name.take(k);
    assert forall|i: int| 0 <= i < front.len() implies (#[trigger] front[i]) != '.' by {
        assert(front[i] == name[i]);
    }
    if k < name.len() {
        let rest = name.skip(k + 1);
        texts::before_the_first_mark(front, '.', rest);
        assert(front + seq!['.'] + rest =~= name);
    } else {
        texts::before_the_first_mark(front, '.', Seq::empty());
        assert(front =~= name);
    }
    devices_are_named(text::ascii_upper_text(front));
}

/// Windows takes a name that is not empty, ends neither in a blank nor in a dot, is not that
/// of a device, and holds only characters that may stand in a file name; it takes no other.
pub proof fn names_are_taken_by_windows(name: Seq<char>)
    ensures
        names::is_compatible(name) <==> {
            &&& name.len() > 0
            &&& name.last() != ' '
            &&& name.last() != '.'
            &&& !names::is_reserved(name)
            &&& forall|i: int| 0 <= i < name.len() ==> !is_listed(#[trigger] name[i])
        },
{
    reveal_strlit(".");
    reveal_strlit("..");
    assert forall|i: int| 0 <= i < name.len() implies is_listed(#[trigger] name[i])
        == names::is_forbidden(name[i]) by {
        forbidden_characters_are_listed(name[i]);
    }
    if names::is_compatible(name) {
        assert forall|i: int| 0 <= i < name.len() implies !is_listed(#[trigger] name[i]) by {
            assert(!names::is_forbidden(name[i]));
        }
    }
}

// ---------------------------------------------------------------------------
// Cleaning
// ---------------------------------------------------------------------------

/// Whether a name has nothing at its ends that cleaning takes off, and is not too long.
pub open spec fn is_tidy(name: Seq<char>) -> bool {
    &&& 1 <= name.len() <= 80
    &&& !text::is_space(name[0]) || is_listed(name[0])
    &&& !text::is_space(name.last()) || is_listed(name.last())
    &&& name.last() != '.'
}

/// Cleaning changes no character of a tidy name but those that cannot stand in a file name,
/// which become `_`, and puts one `_` in front of what would be the name of a device.
pub proof fn cleaning_changes_nothing_else(name: Seq<char>)
    requires
        is_tidy(name),
    ensures
        names::safe(name).len() == name.len() || names::safe(name).len() == name.len() + 1
            && names::safe(name)[0] == '_' && names::is_reserved(names::safe(name).skip(1)),
        forall|i: int|
            0 <= i < name.len() ==> #[trigger] names::safe(name)[names::safe(name).len() - name.len()
                + i] == if is_listed(name[i]) {
                '_'
            } else {
                name[i]
            },
{
    let mask = names::masked(name);
    assert forall|i: int| 0 <= i < name.len() implies #[trigger] mask[i] == if is_listed(name[i]) {
        '_'
    } else {
        name[i]
    } by {
        forbidden_characters_are_listed(name[i]);
    }
    forbidden_characters_are_listed('.');
    assert(mask[0] == mask[0] && mask.last() == mask[name.len() - 1]);
    assert(!text::is_space(mask[0]) && !text::is_space(mask.last()));
    assert(mask.last() != '.');
    assert(text::first_chars(mask, 80) == mask);
    assert(text::trim(mask) == mask);
    assert(!seq!['.'].contains(mask.last())) by {
        if seq!['.'].contains(mask.last()) {
            let k = choose|k: int| 0 <= k < 1 && seq!['.'][k] == mask.last();
        }
    }
    assert(names::cleaned(name) == mask);
    reveal_strlit(".");
    reveal_strlit("..");
    reveal_strlit("_");
    assert(mask != "."@ && mask != ".."@) by {
        assert("."@.last() == '.' && ".."@.last() == '.');
    }
    if names::is_reserved(mask) {
        assert(names::safe(name) == "_"@ + mask);
        assert(names::safe(name).skip(1) =~= mask);
    }
}

/// A name that may stand on disk, that is not too long and has no white space round it, is
/// kept as it is.
pub proof fn good_names_are_kept(name: Seq<char>)
    requires
        is_tidy(name),
        forall|i: int| 0 <= i < name.len() ==> !is_listed(#[trigger] name[i]),
        !names::is_reserved(name),
    ensures
        names::safe(name) == name,
{
    cleaning_changes_nothing_else(name);
    let kept = names::safe(name);
    let from = kept.len() - name.len();
    assert(kept.skip(from) =~= name) by {
        assert forall|i: int| 0 <= i < name.len() implies kept.skip(from)[i] == name[i] by {
            assert(!is_listed(name[i]));
            assert(names::safe(name)[names::safe(name).len() - name.len() + i] == name[i]);
        }
    }
    if from == 1 {
        assert(kept.skip(1) == name);
    } else {
        assert(kept =~= name);
    }
}

/// Of a long name the first 80 characters count, and no others.
pub proof fn long_names_are_cut(value: Seq<char>)
    requires
        value.len() > 80,
    ensures
        names::safe(value) == names::safe(value.take(80)),
{
    let short = value.take(80);
    assert(text::first_chars(names::masked(value), 80) =~= text::first_chars(
        names::masked(short),
        80,
    ));
}

/// Blanks round a name and dots behind it do not count; of a name of nothing else, the name of
/// what fits nowhere is left.
pub proof fn blanks_and_dots_do_not_count(before: Seq<char>, name: Seq<char>, after: Seq<char>)
    requires
        forall|i: int| 0 <= i < before.len() ==> (#[trigger] before[i]) == ' ',
        forall|i: int| 0 <= i < after.len() ==> (#[trigger] after[i]) == ' ',
        is_tidy(name),
        before.len() + name.len() + after.len() <= 80,
    ensures
        names::safe(before + name + after) == names::safe(name),
        names::safe(name + seq!['.']) == if name.len() < 80 {
            names::safe(name)
        } else {
            names::safe((name + seq!['.']).take(80))
        },
        names::safe(before) == "Прочее"@,
        names::safe(seq!['.']) == "Прочее"@,
{
    let whole = before + name + after;
    let mask = names::masked(name);
    let front = names::masked(before);
    let back = names::masked(after);
    forbidden_characters_are_listed(' ');
    forbidden_characters_are_listed('.');
    texts::white_space_is_listed(' ');
    blank_is_not_listed();
    forbidden_characters_are_listed(name[0]);
    forbidden_characters_are_listed(name.last());
    assert(!text::is_space('_'));
    assert(front =~= before);
    assert(back =~= after);
    assert(names::masked(whole) =~= front + mask + back);
    assert forall|i: int| 0 <= i < before.len() implies text::is_space(#[trigger] before[i]) by {}
    assert forall|i: int| 0 <= i < after.len() implies text::is_space(#[trigger] after[i]) by {}
    texts::trimming_takes_white_space_off(before, mask, after);
    texts::trimming_takes_white_space_off(Seq::empty(), mask, Seq::empty());
    assert(Seq::<char>::empty() + mask + Seq::<char>::empty() =~= mask);
    assert(text::first_chars(names::masked(whole), 80) == names::masked(whole));
    assert(names::cleaned(whole) == names::cleaned(name));
    texts::blanks_trim_to_nothing(before);
    assert(names::cleaned(before) =~= Seq::<char>::empty());
    let dotted = name + seq!['.'];
    if name.len() < 80 {
        let marked = names::masked(dotted);
        assert(marked =~= mask + seq!['.']);
        assert(!text::is_space('.'));
        texts::trimming_takes_white_space_off(Seq::empty(), marked, Seq::empty());
        assert(Seq::<char>::empty() + marked + Seq::<char>::empty() =~= marked);
        assert(seq!['.'][0] == '.');
        assert(seq!['.'].contains('.'));
        assert(marked.drop_last() =~= mask);
        assert(names::cleaned(dotted) == names::cleaned(name));
    } else {
        long_names_are_cut(dotted);
    }
    let dot = seq!['.'];
    assert(names::masked(dot) =~= dot);
    assert(text::trim(dot) == dot);
    assert(dot[0] == '.' && dot.contains('.'));
    assert(dot.drop_last() =~= Seq::<char>::empty());
    assert(text::trim_end_any(dot, dot) =~= Seq::<char>::empty()) by {
        reveal_with_fuel(text::trim_end_any, 2);
    }
    assert(names::cleaned(dot) =~= Seq::<char>::empty());
}

proof fn dots_at_the_end_go(s: Seq<char>, dots: Seq<char>)
    requires
        s.len() > 0 ==> s.last() != '.',
        forall|i: int| 0 <= i < dots.len() ==> (#[trigger] dots[i]) == '.',
    ensures
        text::trim_end_any(s + dots, seq!['.']) == s,
    decreases dots.len(),
{
    let set = seq!['.'];
    assert(set[0] == '.');
    if dots.len() == 0 {
        assert(s + dots =~= s);
        if s.len() > 0 && set.contains(s.last()) {
            let k = choose|k: int| 0 <= k < set.len() && set[k] == s.last();
        }
    } else {
        assert((s + dots).last() == dots[dots.len() - 1]);
        assert(set.contains('.'));
        assert((s + dots).drop_last() =~= s + dots.drop_last());
        dots_at_the_end_go(s, dots.drop_last());
    }
}

/// However many blanks and then dots stand behind a name, they do not count.
pub proof fn no_number_of_blanks_and_dots_counts(
    before: Seq<char>,
    name: Seq<char>,
    blanks: Seq<char>,
    dots: Seq<char>,
    after: Seq<char>,
)
    requires
        forall|i: int| 0 <= i < before.len() ==> (#[trigger] before[i]) == ' ',
        forall|i: int| 0 <= i < blanks.len() ==> (#[trigger] blanks[i]) == ' ',
        forall|i: int| 0 <= i < dots.len() ==> (#[trigger] dots[i]) == '.',
        forall|i: int| 0 <= i < after.len() ==> (#[trigger] after[i]) == ' ',
        dots.len() > 0,
        is_tidy(name),
        before.len() + name.len() + blanks.len() + dots.len() + after.len() <= 80,
    ensures
        names::safe(before + (name + blanks + dots) + after) == names::safe(name),
{
    let empty = Seq::<char>::empty();
    let mask = names::masked(name);
    let inner = name + blanks + dots;
    let whole = before + inner + after;
    let kept = mask + blanks + dots;
    blank_is_not_listed();
    forbidden_characters_are_listed(' ');
    forbidden_characters_are_listed('.');
    forbidden_characters_are_listed(name[0]);
    forbidden_characters_are_listed(name.last());
    texts::white_space_is_listed(' ');
    texts::white_space_is_listed('.');
    texts::white_space_is_listed('_');
    assert(names::masked(whole) =~= before + kept + after);
    assert forall|i: int| 0 <= i < before.len() implies text::is_space(#[trigger] before[i]) by {}
    assert forall|i: int| 0 <= i < after.len() implies text::is_space(#[trigger] after[i]) by {}
    assert forall|i: int| 0 <= i < blanks.len() implies text::is_space(#[trigger] blanks[i]) by {}
    assert(kept[0] == mask[0]);
    assert(kept.last() == dots[dots.len() - 1]);
    texts::trimming_takes_white_space_off(before, kept, after);
    assert((mask + blanks).last() != '.') by {
        if blanks.len() > 0 {
            assert((mask + blanks).last() == blanks[blanks.len() - 1]);
        } else {
            assert(mask + blanks =~= mask);
            assert(mask.last() == mask[name.len() - 1]);
        }
    }
    dots_at_the_end_go(mask + blanks, dots);
    texts::trimming_takes_white_space_off(empty, mask, blanks);
    assert(empty + mask + blanks =~= mask + blanks);
    assert((mask + blanks)[0] == mask[0]);
    assert(text::trim_start(mask + blanks) == mask + blanks);
    assert(text::trim_end(mask + blanks) == mask);
    texts::trimming_takes_white_space_off(empty, mask, empty);
    assert(empty + mask + empty =~= mask);
    dots_at_the_end_go(mask, empty);
    assert(mask + empty =~= mask);
    assert(text::trim_end(mask) == mask);
    assert(names::cleaned(whole) == mask);
    assert(names::cleaned(name) == mask);
}

proof fn blank_is_not_listed()
    ensures
        !is_listed(' '),
        !is_listed('.'),
        !is_listed('_'),
{
    forbidden_characters_are_listed(' ');
    forbidden_characters_are_listed('.');
    forbidden_characters_are_listed('_');
}

// ---------------------------------------------------------------------------
// Targets
// ---------------------------------------------------------------------------

proof fn work_is_a_name()
    ensures
        names::safe("Работа"@) == "Работа"@,
{
    let name = "Работа"@;
    reveal_strlit("Работа");
    assert(name[0] == 'Р' && name[1] == 'а' && name[2] == 'б' && name[3] == 'о' && name[4] == 'т' && name[5] == 'а');
    plain_names_are_kept(name);
}

proof fn personal_is_a_name()
    ensures
        names::safe("Личное"@) == "Личное"@,
{
    let name = "Личное"@;
    reveal_strlit("Личное");
    assert(name[0] == 'Л' && name[1] == 'и' && name[2] == 'ч' && name[3] == 'н' && name[4] == 'о' && name[5] == 'е');
    plain_names_are_kept(name);
}

proof fn finance_is_a_name()
    ensures
        names::safe("Финансы"@) == "Финансы"@,
{
    let name = "Финансы"@;
    reveal_strlit("Финансы");
    assert(name[0] == 'Ф' && name[1] == 'и' && name[2] == 'н' && name[3] == 'а' && name[4] == 'н' && name[5] == 'с' && name[6] == 'ы');
    plain_names_are_kept(name);
}

proof fn study_is_a_name()
    ensures
        names::safe("Учёба"@) == "Учёба"@,
{
    let name = "Учёба"@;
    reveal_strlit("Учёба");
    assert(name[0] == 'У' && name[1] == 'ч' && name[2] == 'ё' && name[3] == 'б' && name[4] == 'а');
    plain_names_are_kept(name);
}

proof fn media_is_a_name()
    ensures
        names::safe("Медиа"@) == "Медиа"@,
{
    let name = "Медиа"@;
    reveal_strlit("Медиа");
    assert(name[0] == 'М' && name[1] == 'е' && name[2] == 'д' && name[3] == 'и' && name[4] == 'а');
    plain_names_are_kept(name);
}

proof fn archive_is_a_name()
    ensures
        names::safe("Архив"@) == "Архив"@,
{
    let name = "Архив"@;
    reveal_strlit("Архив");
    assert(name[0] == 'А' && name[1] == 'р' && name[2] == 'х' && name[3] == 'и' && name[4] == 'в');
    plain_names_are_kept(name);
}

proof fn downloads_is_a_name()
    ensures
        names::safe("Загрузчики"@) == "Загрузчики"@,
{
    let name = "Загрузчики"@;
    reveal_strlit("Загрузчики");
    assert(name[0] == 'З' && name[1] == 'а' && name[2] == 'г' && name[3] == 'р' && name[4] == 'у' && name[5] == 'з' && name[6] == 'ч' && name[7] == 'и' && name[8] == 'к' && name[9] == 'и');
    plain_names_are_kept(name);
}

proof fn other_is_a_name()
    ensures
        names::safe("Прочее"@) == "Прочее"@,
{
    let name = "Прочее"@;
    reveal_strlit("Прочее");
    assert(name[0] == 'П' && name[1] == 'р' && name[2] == 'о' && name[3] == 'ч' && name[4] == 'е' && name[5] == 'е');
    plain_names_are_kept(name);
}

proof fn unprocessed_is_a_name()
    ensures
        names::safe("Не обработано ИИ"@) == "Не обработано ИИ"@,
{
    let name = "Не обработано ИИ"@;
    reveal_strlit("Не обработано ИИ");
    assert(name[0] == 'Н' && name[1] == 'е' && name[2] == ' ' && name[3] == 'о' && name[4] == 'б' && name[5] == 'р' && name[6] == 'а' && name[7] == 'б' && name[8] == 'о' && name[9] == 'т' && name[10] == 'а' && name[11] == 'н' && name[12] == 'о' && name[13] == ' ' && name[14] == 'И' && name[15] == 'И');
    plain_names_are_kept(name);
}

proof fn plain_names_are_kept(name: Seq<char>)
    requires
        1 <= name.len() <= 80,
        forall|i: int| 0 <= i < name.len() ==> (#[trigger] name[i]) == ' ' || name[i] as int >= 0x400
            && (name[i] as int) < 0x500,
        name[0] != ' ',
        name.last() != ' ',
    ensures
        names::safe(name) == name,
{
    assert forall|i: int| 0 <= i < name.len() implies !is_listed(#[trigger] name[i]) by {
        forbidden_characters_are_listed(name[i]);
        blank_is_not_listed();
    }
    device_names_are_reserved(name, name.len() as int);
    let all = device_names();
    let upper = text::ascii_upper_text(name.take(name.len() as int));
    assert(upper[0] == name[0]);
    if text::one_of(upper, all) {
        devices_are_named(upper);
        reveal_strlit("CON");
        reveal_strlit("PRN");
        reveal_strlit("AUX");
        reveal_strlit("NUL");
        reveal_strlit("COM");
        reveal_strlit("LPT");
        assert(upper.take(3)[0] == upper[0]);
    }
    good_names_are_kept(name);
}

/// The folder of each category is called like the category.
pub proof fn categories_are_names_of_folders()
    ensures
        names::safe("Работа"@) == "Работа"@,
        names::safe("Личное"@) == "Личное"@,
        names::safe("Финансы"@) == "Финансы"@,
        names::safe("Учёба"@) == "Учёба"@,
        names::safe("Медиа"@) == "Медиа"@,
        names::safe("Архив"@) == "Архив"@,
        names::safe("Загрузчики"@) == "Загрузчики"@,
        names::safe("Прочее"@) == "Прочее"@,
        names::safe("Не обработано ИИ"@) == "Не обработано ИИ"@,
{
    work_is_a_name();
    personal_is_a_name();
    finance_is_a_name();
    study_is_a_name();
    media_is_a_name();
    archive_is_a_name();
    downloads_is_a_name();
    other_is_a_name();
    unprocessed_is_a_name();
}

/// A file goes into the folder of its category inside the folder of sorted files, and its own
/// name is kept wherever it may stand on disk.
pub proof fn files_keep_their_names(
    style: Style,
    category: Seq<char>,
    relative: Seq<char>,
    name: Seq<char>,
)
    requires
        paths::file_name(style, relative) == Some(name),
        is_tidy(name),
        forall|i: int| 0 <= i < name.len() ==> !is_listed(#[trigger] name[i]),
        !names::is_reserved(name),
    ensures
        names::target(style, category, relative) == match style {
            Style::Unix => "AI Sorted/"@ + names::safe(category) + "/"@ + name,
            Style::Windows => "AI Sorted\\"@ + names::safe(category) + "\\"@ + name,
        },
        paths::file_name(style, names::target(style, category, relative)) == Some(name),
        paths::parts(style, names::target(style, category, relative)) == seq![
            paths::Part::Normal("AI Sorted"@),
            paths::Part::Normal(names::safe(category)),
            paths::Part::Normal(name),
        ],
{
    good_names_are_kept(name);
    names::targets_have_three_parts(style, category, relative);
    reveal_strlit("AI Sorted");
    reveal_strlit("AI Sorted/");
    reveal_strlit("AI Sorted\\");
    reveal_strlit("/");
    reveal_strlit("\\");
    assert("AI Sorted/"@ =~= "AI Sorted"@ + seq!['/']);
    assert("AI Sorted\\"@ =~= "AI Sorted"@ + seq!['\\']);
    assert("/"@ =~= seq!['/']);
    assert("\\"@ =~= seq!['\\']);
}

/// The old folders of a file do not matter, nor does anything else of its path: two files of the
/// same name and category go to the same place.
pub proof fn old_folders_do_not_matter(
    style: Style,
    category: Seq<char>,
    one: Seq<char>,
    other: Seq<char>,
)
    requires
        paths::file_name(style, one) == paths::file_name(style, other),
    ensures
        names::target(style, category, one) == names::target(style, category, other),
        names::target_under(style, category, paths::file_name(style, one)) == names::target(
            style,
            category,
            one,
        ),
        paths::parts(style, names::target_under(style, category, None)).last()
            == paths::Part::Normal("файл"@),
        names::target_under(style, category, None) == match style {
            Style::Unix => "AI Sorted/"@ + names::safe(category) + "/файл"@,
            Style::Windows => "AI Sorted\\"@ + names::safe(category) + "\\файл"@,
        },
{
    names::targets_have_three_parts(style, category, Seq::empty());
    assert(paths::file_name(style, Seq::empty()) is None) by {
        no_parts(style);
    }
    reveal_strlit("AI Sorted");
    reveal_strlit("AI Sorted/");
    reveal_strlit("AI Sorted\\");
    reveal_strlit("файл");
    reveal_strlit("/файл");
    reveal_strlit("\\файл");
    assert("AI Sorted/"@ =~= "AI Sorted"@ + seq!['/']);
    assert("AI Sorted\\"@ =~= "AI Sorted"@ + seq!['\\']);
    assert("/файл"@ =~= seq!['/'] + "файл"@);
    assert("\\файл"@ =~= seq!['\\'] + "файл"@);
    let folder = names::safe(category);
    assert("AI Sorted"@ + seq!['/'] + folder + seq!['/'] + "файл"@ =~= "AI Sorted/"@ + folder
        + "/файл"@);
    assert("AI Sorted"@ + seq!['\\'] + folder + seq!['\\'] + "файл"@ =~= "AI Sorted\\"@ + folder
        + "\\файл"@);
}

proof fn no_parts(style: Style)
    ensures
        paths::parts(style, Seq::empty()).len() == 0,
{
    let empty = Seq::<char>::empty();
    let set = paths::separators(style, None);
    assert(paths::body(style, empty) =~= empty);
    paths::one_piece(set, empty);
    assert(seq![empty].drop_last() =~= Seq::<Seq<char>>::empty());
    reveal_with_fuel(paths::parts_of, 2);
}

// ---------------------------------------------------------------------------
// Places
// ---------------------------------------------------------------------------

/// A target is refused where a part of it is no name, with the words for that, and else where
/// Windows would not take one of its names; every other target is accepted and lies below
/// the root: the parts of the two, one after the other.
pub proof fn targets_lie_below_the_root(style: Style, root: Seq<char>, relative: Seq<char>)
    requires
        paths::is_settled(style, root),
    ensures
        (exists|i: int|
            0 <= i < paths::parts(style, relative).len() && !((#[trigger] paths::parts(
                style,
                relative,
            )[i]) is Normal)) <==> names::destination(style, root, relative) == Err::<
            Seq<char>,
            Seq<char>,
        >("Недопустимый целевой путь"@),
        (forall|i: int|
            0 <= i < paths::parts(style, relative).len() ==> ((#[trigger] paths::parts(
                style,
                relative,
            )[i]) matches paths::Part::Normal(name) && names::is_compatible(name)))
            <==> names::destination(style, root, relative) is Ok,
        names::destination(style, root, relative) is Ok ==> paths::parts(
            style,
            names::destination(style, root, relative)->Ok_0,
        ) == paths::parts(style, root) + paths::parts(style, relative),
        names::destination(style, root, relative) is Err ==> names::destination(
            style,
            root,
            relative,
        )->Err_0 == "Недопустимый целевой путь"@ || names::destination(style, root, relative)->Err_0
            == "Имя папки или файла несовместимо с Windows"@,
{
    reveal_strlit("Недопустимый целевой путь");
    reveal_strlit("Имя папки или файла несовместимо с Windows");
    assert("Недопустимый целевой путь"@[0] == 'Н');
    assert("Имя папки или файла несовместимо с Windows"@[0] == 'И');
    let parts = paths::parts(style, relative);
    if names::only_names(style, relative) {
        paths::parts_of_join(style, root, relative);
        assert forall|i: int| 0 <= i < parts.len() implies (#[trigger] parts[i]) is Normal by {}
    } else {
        let i = choose|i: int| 0 <= i < parts.len() && !((#[trigger] parts[i]) is Normal);
        assert(!(parts[i] is Normal));
    }
    if names::only_names(style, relative) && !names::names_compatible(style, relative) {
        let i = choose|i: int|
            0 <= i < parts.len() && !((#[trigger] parts[i]) matches paths::Part::Normal(name)
                ==> names::is_compatible(name));
        assert(!(parts[i] matches paths::Part::Normal(name) && names::is_compatible(name)));
    }
}

/// A recorded path that is absolute is taken as it is where it lies in the root and climbs
/// nowhere, and refused where it does not; any other is taken like a target.
pub proof fn recorded_paths_stay_as_they_are(style: Style, root: Seq<char>, recorded: Seq<char>)
    ensures
        paths::is_absolute(style, recorded) && paths::lies_in(style, recorded, root) && (forall|i: int|
            0 <= i < paths::parts(style, recorded).len() ==> !((#[trigger] paths::parts(
                style,
                recorded,
            )[i]) is ParentDir)) ==> names::recorded_destination(style, root, recorded) == Ok::<
            Seq<char>,
            Seq<char>,
        >(recorded),
        paths::is_absolute(style, recorded) && (!paths::lies_in(style, recorded, root) || (exists|
            i: int,
        |
            0 <= i < paths::parts(style, recorded).len() && (#[trigger] paths::parts(
                style,
                recorded,
            )[i]) is ParentDir)) ==> names::recorded_destination(style, root, recorded) == Err::<
            Seq<char>,
            Seq<char>,
        >("Путь выходит за пределы выбранной папки"@),
        !paths::is_absolute(style, recorded) ==> names::recorded_destination(style, root, recorded)
            == names::destination(style, root, recorded),
{
}

/// Whether two characters separate folders, whichever of the two marks each is.
pub open spec fn are_slashes(a: char, b: char) -> bool {
    (a == '/' || a == '\\') && (b == '/' || b == '\\')
}

/// Two paths that differ in the kind of their slashes alone are remembered as one.
pub proof fn slashes_do_not_tell_paths_apart(one: Seq<char>, other: Seq<char>)
    requires
        one.len() == other.len(),
        forall|i: int|
            0 <= i < one.len() ==> (#[trigger] one[i]) == other[i] || are_slashes(one[i], other[i]),
    ensures
        names::path_key(one) == names::path_key(other),
        !one.contains('\\') ==> names::path_key(one) == outside::lowercase(one),
{
    assert(text::replace_char(one, '\\', '/') =~= text::replace_char(other, '\\', '/'));
    if !one.contains('\\') {
        assert(text::replace_char(one, '\\', '/') =~= one) by {
            assert forall|i: int| 0 <= i < one.len() implies text::replace_char(one, '\\', '/')[i]
                == one[i] by {
                assert(one[i] != '\\');
            }
        }
    }
}

// ---------------------------------------------------------------------------
// Stems, extensions and numbers
// ---------------------------------------------------------------------------

proof fn the_last_dot_is_found(stem: Seq<char>, ext: Seq<char>)
    requires
        forall|i: int| 0 <= i < ext.len() ==> (#[trigger] ext[i]) != '.',
    ensures
        paths::last_dot(stem + seq!['.'] + ext) == stem.len(),
    decreases ext.len(),
{
    let name = stem + seq!['.'] + ext;
    if ext.len() > 0 {
        assert(name.last() == ext.last());
        assert(name.drop_last() =~= stem + seq!['.'] + ext.drop_last());
        the_last_dot_is_found(stem, ext.drop_last());
    } else {
        assert(name.last() == '.');
    }
}

proof fn no_dot_is_found(name: Seq<char>)
    requires
        forall|i: int| 0 <= i < name.len() ==> (#[trigger] name[i]) != '.',
    ensures
        paths::last_dot(name) < 0,
    decreases name.len(),
{
    if name.len() > 0 {
        assert(name[name.len() - 1] != '.');
        assert forall|i: int| 0 <= i < name.drop_last().len() implies (
        #[trigger] name.drop_last()[i]) != '.' by {
            assert(name.drop_last()[i] == name[i]);
        }
        no_dot_is_found(name.drop_last());
    }
}

/// What stands behind the last dot of a name is its extension, and what stands before that dot is
/// its stem, unless nothing stands before it.
pub proof fn names_have_stems_and_extensions(stem: Seq<char>, ext: Seq<char>)
    requires
        stem.len() > 0,
        forall|i: int| 0 <= i < ext.len() ==> (#[trigger] ext[i]) != '.',
        stem + seq!['.'] + ext != seq!['.', '.'],
    ensures
        paths::stem_of(stem + seq!['.'] + ext) == stem,
        paths::extension_of(stem + seq!['.'] + ext) == Some(ext),
        paths::stem_of(ext) == ext,
        paths::extension_of(ext) is None,
        paths::stem_of(seq!['.'] + ext) == seq!['.'] + ext,
        paths::extension_of(seq!['.'] + ext) is None,
{
    let name = stem + seq!['.'] + ext;
    the_last_dot_is_found(stem, ext);
    no_dot_is_found(ext);
    assert(Seq::<char>::empty() + seq!['.'] + ext =~= seq!['.'] + ext);
    the_last_dot_is_found(Seq::empty(), ext);
    assert(name.take(stem.len() as int) =~= stem);
    assert(name.skip(stem.len() as int + 1) =~= ext);
}

/// A file whose place is taken keeps its stem and its extension; the number stands between
/// them, in brackets. The first place that is tried is the one that was wished.
pub proof fn numbers_stand_before_the_extension(
    style: Style,
    path: Seq<char>,
    stem: Seq<char>,
    ext: Seq<char>,
    n: nat,
)
    requires
        stem.len() > 0,
        forall|i: int| 0 <= i < ext.len() ==> (#[trigger] ext[i]) != '.',
        stem + seq!['.'] + ext != seq!['.', '.'],
    ensures
        paths::file_name(style, path) == Some(stem + seq!['.'] + ext) ==> moves::numbered_name(
            style,
            path,
            n,
        ) == stem + " ("@ + text::decimal(n) + ")."@ + ext,
        paths::file_name(style, path) == Some(ext) ==> moves::numbered_name(style, path, n) == ext
            + " ("@ + text::decimal(n) + ")"@,
        paths::file_name(style, path) == Some(seq!['.'] + ext) ==> moves::numbered_name(
            style,
            path,
            n,
        ) == seq!['.'] + ext + " ("@ + text::decimal(n) + ")"@,
        paths::file_name(style, path) is None ==> moves::numbered_name(style, path, n) == "file ("@
            + text::decimal(n) + ")"@,
        moves::candidate(style, path, 1) == path,
        n != 1 ==> moves::candidate(style, path, n) == paths::with_file_name(
            style,
            path,
            moves::numbered_name(style, path, n),
        ),
{
    names_have_stems_and_extensions(stem, ext);
    reveal_strlit(".");
    reveal_strlit(")");
    reveal_strlit(").");
    reveal_strlit("file (");
    reveal_strlit("file");
    reveal_strlit(" (");
    let digits = text::decimal(n);
    assert(stem + " ("@ + digits + ")"@ + ("."@ + ext) =~= stem + " ("@ + digits + ")."@ + ext);
    assert(ext + " ("@ + digits + ")"@ + Seq::<char>::empty() =~= ext + " ("@ + digits + ")"@);
    let hidden = seq!['.'] + ext;
    assert(hidden + " ("@ + digits + ")"@ + Seq::<char>::empty() =~= hidden + " ("@ + digits + ")"@);
    assert("file"@ + " ("@ + digits + ")"@ + Seq::<char>::empty() =~= "file ("@ + digits + ")"@);
}

} // verus!
