//! What the operations on texts give, stated on the characters themselves.

use crate::text;
use vstd::prelude::*;

verus! {

/// What stands between two texts stands in the whole, and what stands in a text has
/// something before it and something behind it.
pub proof fn a_part_stands_in_the_whole(before: Seq<char>, part: Seq<char>, after: Seq<char>)
    ensures
        text::contains(before + part + after, part),
        text::starts_with(part + after, part),
        text::ends_with(before + part, part),
        text::contains(part + after, part),
        text::contains(before + part, part),
{
    let whole = before + part + after;
    let at = before.len() as int;
    assert(whole.subrange(at, at + part.len()) =~= part);
    assert(text::has_at(whole, at, part));
    assert((part + after).subrange(0, part.len() as int) =~= part);
    assert(text::has_at(part + after, 0, part));
    assert((before + part).subrange(at, at + part.len()) =~= part);
    assert(text::has_at(before + part, at, part));
}

/// A text that a longer one holds is found wherever the longer one is.
pub proof fn parts_of_parts_stand_in_the_whole(whole: Seq<char>, part: Seq<char>, inner: Seq<char>)
    requires
        text::contains(whole, part),
        text::contains(part, inner),
    ensures
        text::contains(whole, inner),
{
    let i = choose|i: int| text::has_at(whole, i, part);
    let j = choose|j: int| text::has_at(part, j, inner);
    assert(whole.subrange(i + j, i + j + inner.len()) =~= inner) by {
        assert forall|k: int| 0 <= k < inner.len() implies whole[i + j + k] == inner[k] by {
            assert(whole.subrange(i, i + part.len())[j + k] == part[j + k]);
            assert(part.subrange(j, j + inner.len())[k] == inner[k]);
        }
    }
    assert(text::has_at(whole, i + j, inner));
}

/// What a text holds stands at some place in it, character by character.
pub proof fn what_a_text_holds_is_there(whole: Seq<char>, part: Seq<char>)
    requires
        text::contains(whole, part),
    ensures
        exists|before: Seq<char>, after: Seq<char>| whole == #[trigger] ((before + part) + after),
{
    let i = choose|i: int| text::has_at(whole, i, part);
    let before = whole.take(i);
    let after = whole.skip(i + part.len());
    assert(whole =~= (before + part) + after) by {
        assert forall|k: int| 0 <= k < whole.len() implies whole[k] == ((before + part)
            + after)[k] by {
            if i <= k < i + part.len() {
                assert(whole.subrange(i, i + part.len())[k - i] == part[k - i]);
            }
        }
    }
}

/// A beginning and an end are where they are said to be.
pub proof fn a_beginning_is_at_the_front(whole: Seq<char>, part: Seq<char>)
    ensures
        text::starts_with(whole, part) <==> part.len() <= whole.len() && whole.take(
            part.len() as int,
        ) == part,
        text::ends_with(whole, part) <==> part.len() <= whole.len() && whole.skip(
            whole.len() - part.len(),
        ) == part,
{
    if part.len() <= whole.len() {
        assert(whole.subrange(0, part.len() as int) =~= whole.take(part.len() as int));
        assert(whole.subrange(whole.len() - part.len(), whole.len() as int) =~= whole.skip(
            whole.len() - part.len(),
        ));
    }
}

proof fn spaces_in_front_go(blanks: Seq<char>, s: Seq<char>)
    requires
        forall|i: int| 0 <= i < blanks.len() ==> text::is_space(#[trigger] blanks[i]),
    ensures
        text::trim_start(blanks + s) == text::trim_start(s),
    decreases blanks.len(),
{
    if blanks.len() == 0 {
        assert(blanks + s =~= s);
    } else {
        assert(blanks[0] == (blanks + s)[0]);
        assert((blanks + s).drop_first() =~= blanks.drop_first() + s);
        spaces_in_front_go(blanks.drop_first(), s);
    }
}

proof fn spaces_at_the_end_go(s: Seq<char>, blanks: Seq<char>)
    requires
        forall|i: int| 0 <= i < blanks.len() ==> text::is_space(#[trigger] blanks[i]),
    ensures
        text::trim_end(s + blanks) == text::trim_end(s),
    decreases blanks.len(),
{
    if blanks.len() == 0 {
        assert(s + blanks =~= s);
    } else {
        assert(blanks.last() == (s + blanks).last());
        assert((s + blanks).drop_last() =~= s + blanks.drop_last());
        spaces_at_the_end_go(s, blanks.drop_last());
    }
}

/// Trimming takes the white space off both sides, and nothing else.
pub proof fn trimming_takes_white_space_off(before: Seq<char>, s: Seq<char>, after: Seq<char>)
    requires
        forall|i: int| 0 <= i < before.len() ==> text::is_space(#[trigger] before[i]),
        forall|i: int| 0 <= i < after.len() ==> text::is_space(#[trigger] after[i]),
        s.len() > 0 ==> !text::is_space(s[0]) && !text::is_space(s.last()),
    ensures
        text::trim(before + s + after) == s,
{
    assert(before + s + after =~= before + (s + after));
    spaces_in_front_go(before, s + after);
    if s.len() > 0 {
        assert((s + after)[0] == s[0]);
        spaces_at_the_end_go(s, after);
    } else {
        assert(s + after =~= after);
        spaces_in_front_go(after, Seq::empty());
        assert(after + Seq::<char>::empty() =~= after);
        assert(s =~= Seq::<char>::empty());
    }
}

/// A text of white space alone trims to nothing.
pub proof fn blanks_trim_to_nothing(blanks: Seq<char>)
    requires
        forall|i: int| 0 <= i < blanks.len() ==> text::is_space(#[trigger] blanks[i]),
    ensures
        text::trim(blanks) == Seq::<char>::empty(),
{
    let empty = Seq::<char>::empty();
    trimming_takes_white_space_off(blanks, empty, empty);
    assert(blanks + empty + empty =~= blanks);
}

/// The white space and the control characters, by their numbers.
pub proof fn white_space_is_listed(c: char)
    ensures
        text::is_space(c) <==> (9 <= c as u32 <= 13 || c == ' ' || c as u32 == 0x85 || c as u32
            == 0xa0 || c as u32 == 0x1680 || 0x2000 <= c as u32 <= 0x200a || c as u32 == 0x2028
            || c as u32 == 0x2029 || c as u32 == 0x202f || c as u32 == 0x205f || c as u32 == 0x3000),
        text::is_control(c) <==> ((c as u32) < 0x20 || 0x7f <= c as u32 <= 0x9f),
{
}

/// Case is a matter of the Latin letters alone: each letter goes to its counterpart.
pub proof fn letters_have_two_cases(c: char)
    ensures
        'a' <= c && c <= 'z' ==> text::ascii_upper(c) as int == c as int - 32 && text::ascii_lower(c)
            == c,
        'A' <= c && c <= 'Z' ==> text::ascii_lower(c) as int == c as int + 32 && text::ascii_upper(c)
            == c,
        !('a' <= c && c <= 'z') && !('A' <= c && c <= 'Z') ==> text::ascii_lower(c) == c
            && text::ascii_upper(c) == c,
{
}

/// What is done to a text character by character is done to every character, and to each by itself.
pub proof fn texts_change_character_by_character(s: Seq<char>, old_char: char, new: char)
    ensures
        text::ascii_lower_text(s).len() == s.len(),
        text::ascii_upper_text(s).len() == s.len(),
        text::replace_char(s, old_char, new).len() == s.len(),
        forall|i: int|
            0 <= i < s.len() ==> #[trigger] text::ascii_lower_text(s)[i] == text::ascii_lower(s[i]),
        forall|i: int|
            0 <= i < s.len() ==> #[trigger] text::ascii_upper_text(s)[i] == text::ascii_upper(s[i]),
        forall|i: int|
            0 <= i < s.len() ==> #[trigger] text::replace_char(s, old_char, new)[i] == if s[i]
                == old_char {
                new
            } else {
                s[i]
            },
{
}

/// The number that digits stand for.
pub open spec fn number_of(digits: Seq<char>) -> int
    decreases digits.len(),
{
    if digits.len() == 0 {
        0
    } else {
        10 * number_of(digits.drop_last()) + (digits.last() as int - '0' as int)
    }
}

/// A number written in decimal notation is read as that number, and has no zero in front.
pub proof fn decimals_are_read_back(n: nat)
    ensures
        number_of(text::decimal(n)) == n,
        n > 0 ==> text::decimal(n)[0] != '0',
        n == 0 ==> text::decimal(n) == seq!['0'],
        forall|i: int|
            0 <= i < text::decimal(n).len() ==> '0' <= #[trigger] text::decimal(n)[i] && text::decimal(
                n,
            )[i] <= '9',
    decreases n,
{
    text::decimal_is_digits(n);
    let digits = text::decimal(n);
    reveal_with_fuel(number_of, 2);
    if n < 10 {
        assert(digits.drop_last() =~= Seq::<char>::empty());
    } else {
        decimals_are_read_back(n / 10);
        assert(digits.drop_last() =~= text::decimal(n / 10));
        assert(digits[0] == text::decimal(n / 10)[0]);
    }
}

/// The first characters of a text are at most so many, and its beginning.
pub proof fn first_characters_are_a_beginning(s: Seq<char>, n: nat)
    ensures
        s.len() <= n ==> text::first_chars(s, n) == s,
        s.len() > n ==> text::first_chars(s, n).len() == n && s == text::first_chars(s, n) + s.skip(
            n as int,
        ),
{
    if s.len() > n {
        assert(s =~= text::first_chars(s, n) + s.skip(n as int));
    }
}

/// Texts are in the order of their first different characters, and a beginning of a text stands before it.
pub proof fn texts_are_ordered_by_their_first_difference(
    front: Seq<char>,
    x: char,
    one: Seq<char>,
    y: char,
    other: Seq<char>,
)
    ensures
        x != y ==> (text::text_before(front + (seq![x] + one), front + (seq![y] + other)) <==> (
        x as int) < (y as int)),
        text::text_before(front, front + (seq![y] + other)),
        !text::text_before(front + (seq![x] + one), front),
    decreases front.len(),
{
    let a = front + (seq![x] + one);
    let b = front + (seq![y] + other);
    if front.len() == 0 {
        assert(a[0] == x && b[0] == y);
    } else {
        texts_are_ordered_by_their_first_difference(front.drop_first(), x, one, y, other);
        assert(a[0] == front[0] && b[0] == front[0]);
        assert(a.drop_first() =~= front.drop_first() + (seq![x] + one));
        assert(b.drop_first() =~= front.drop_first() + (seq![y] + other));
    }
}

/// What stands before the first mark is the longest beginning without it.
pub proof fn before_the_first_mark(front: Seq<char>, mark: char, rest: Seq<char>)
    requires
        forall|i: int| 0 <= i < front.len() ==> (#[trigger] front[i]) != mark,
    ensures
        text::before_first(front + seq![mark] + rest, seq![mark]) == front,
        text::before_first(front, seq![mark]) == front,
{
    let part = seq![mark];
    let whole = front + part + rest;
    let at = front.len() as int;
    assert(whole.subrange(at, at + 1) =~= part);
    assert(text::has_at(whole, at, part));
    assert forall|j: int| j < at implies !text::has_at(whole, j, part) by {
        if text::has_at(whole, j, part) {
            assert(whole.subrange(j, j + 1)[0] == part[0]);
            assert(front[j] == mark);
        }
    }
    assert(text::is_first_at(whole, at, part));
    let first = choose|i: int| text::is_first_at(whole, i, part);
    text::first_position_is_unique(whole, at, first, part);
    assert(whole.take(at) =~= front);
    if text::contains(front, part) {
        let i = choose|i: int| text::has_at(front, i, part);
        assert(front.subrange(i, i + 1)[0] == part[0]);
        assert(front[i] == mark);
    }
}

} // verus!
