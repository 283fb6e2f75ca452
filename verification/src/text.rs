//! Text as sequences of characters: the vocabulary in which every other module
//! states what it does to names, messages and paths, and the code that does it.

use vstd::prelude::*;
use vstd::slice::slice_subrange;
use vstd::utf8;

verus! {

// ---------------------------------------------------------------------------
// Characters
// ---------------------------------------------------------------------------

/// The Unicode `White_Space` property.
pub open spec fn is_space(c: char) -> bool {
    let u = c as u32;
    ||| 0x09 <= u <= 0x0d
    ||| u == 0x20
    ||| u == 0x85
    ||| u == 0xa0
    ||| u == 0x1680
    ||| 0x2000 <= u <= 0x200a
    ||| u == 0x2028
    ||| u == 0x2029
    ||| u == 0x202f
    ||| u == 0x205f
    ||| u == 0x3000
}

/// The Unicode general category `Cc`.
pub open spec fn is_control(c: char) -> bool {
    let u = c as u32;
    u <= 0x1f || 0x7f <= u <= 0x9f
}

pub open spec fn is_ascii_upper(c: char) -> bool {
    'A' as u32 <= c as u32 <= 'Z' as u32
}

pub open spec fn is_ascii_lower(c: char) -> bool {
    'a' as u32 <= c as u32 <= 'z' as u32
}

pub open spec fn is_ascii_letter(c: char) -> bool {
    is_ascii_upper(c) || is_ascii_lower(c)
}

pub open spec fn is_ascii_digit(c: char) -> bool {
    '0' as u32 <= c as u32 <= '9' as u32
}

/// The lower-case form of an ASCII letter; every other character stays as it is.
pub open spec fn ascii_lower(c: char) -> char {
    if is_ascii_upper(c) {
        (c as u32 + 32) as char
    } else {
        c
    }
}

/// The upper-case form of an ASCII letter; every other character stays as it is.
pub open spec fn ascii_upper(c: char) -> char {
    if is_ascii_lower(c) {
        (c as u32 - 32) as char
    } else {
        c
    }
}

/// The number of a character.
pub fn char_code(c: char) -> (code: u32)
    ensures
        code as int == c as int,
{
    c as u32
}

pub fn char_is_space(c: char) -> (yes: bool)
    ensures
        yes == is_space(c),
{
    let u: u32 = c as u32;
    (0x09 <= u && u <= 0x0d) || u == 0x20 || u == 0x85 || u == 0xa0 || u == 0x1680 || (0x2000 <= u
        && u <= 0x200a) || u == 0x2028 || u == 0x2029 || u == 0x202f || u == 0x205f || u == 0x3000
}

pub fn char_is_control(c: char) -> (yes: bool)
    ensures
        yes == is_control(c),
{
    let u: u32 = c as u32;
    u <= 0x1f || (0x7f <= u && u <= 0x9f)
}

pub fn char_is_ascii_letter(c: char) -> (yes: bool)
    ensures
        yes == is_ascii_letter(c),
{
    let u: u32 = c as u32;
    ('A' as u32 <= u && u <= 'Z' as u32) || ('a' as u32 <= u && u <= 'z' as u32)
}

pub fn char_ascii_lower(c: char) -> (lower: char)
    ensures
        lower == ascii_lower(c),
{
    let u: u32 = c as u32;
    if 'A' as u32 <= u && u <= 'Z' as u32 {
        (u as u8 + 32) as char
    } else {
        c
    }
}

pub fn char_ascii_upper(c: char) -> (upper: char)
    ensures
        upper == ascii_upper(c),
{
    let u: u32 = c as u32;
    if 'a' as u32 <= u && u <= 'z' as u32 {
        (u as u8 - 32) as char
    } else {
        c
    }
}

// ---------------------------------------------------------------------------
// Between strings and character sequences
// ---------------------------------------------------------------------------

/// The characters of a text.
pub fn chars_of(text: &str) -> (chars: Vec<char>)
    ensures
        chars@ == text@,
{
    let mut chars: Vec<char> = Vec::new();
    for c in it: text.chars()
        invariant
            chars@ == it.seq().take(it.index() as int),
            it.seq() == text@,
    {
        chars.push(c);
    }
    chars
}

/// The text that has the given characters.
pub fn string_of(chars: &[char]) -> (text: String)
    ensures
        text@ == chars@,
{
    let mut text = String::new();
    for i in 0..chars.len()
        invariant
            text@ == chars@.take(i as int),
    {
        text.push(chars[i]);
        assert(chars@.take(i as int + 1) == chars@.take(i as int).push(chars@[i as int]));
    }
    assert(chars@.take(chars@.len() as int) == chars@);
    text
}

/// Whether two character sequences are the same.
pub fn same_chars(left: &[char], right: &[char]) -> (same: bool)
    ensures
        same == (left@ == right@),
{
    if left.len() != right.len() {
        return false;
    }
    for i in 0..left.len()
        invariant
            left@.len() == right@.len(),
            forall|j: int| 0 <= j < i ==> left@[j] == right@[j],
    {
        if left[i] != right[i] {
            return false;
        }
    }
    assert(left@ =~= right@);
    true
}

/// Whether two texts are the same.
pub fn same_text(left: &str, right: &str) -> (same: bool)
    ensures
        same == (left@ == right@),
{
    let left_chars = chars_of(left);
    let right_chars = chars_of(right);
    same_chars(&left_chars, &right_chars)
}

/// Whether `s` is one of the given texts.
pub open spec fn one_of(s: Seq<char>, options: Seq<&str>) -> bool {
    exists|i: int| 0 <= i < options.len() && s == (#[trigger] options[i])@
}

/// Whether a text is one of the given texts.
pub fn is_one_of(text: &str, options: &[&str]) -> (found: bool)
    ensures
        found == one_of(text@, options@),
{
    for i in 0..options.len()
        invariant
            forall|j: int| 0 <= j < i ==> text@ != (#[trigger] options@[j])@,
    {
        if same_text(text, options[i]) {
            return true;
        }
    }
    false
}

// ---------------------------------------------------------------------------
// Trimming
// ---------------------------------------------------------------------------

/// Without the white space at the front.
pub open spec fn trim_start(s: Seq<char>) -> Seq<char>
    decreases s.len(),
{
    if s.len() > 0 && is_space(s[0]) {
        trim_start(s.drop_first())
    } else {
        s
    }
}

/// Without the white space at the end.
pub open spec fn trim_end(s: Seq<char>) -> Seq<char>
    decreases s.len(),
{
    if s.len() > 0 && is_space(s.last()) {
        trim_end(s.drop_last())
    } else {
        s
    }
}

/// Without the white space at either side.
pub open spec fn trim(s: Seq<char>) -> Seq<char> {
    trim_end(trim_start(s))
}

/// Without the characters of `set` at the front.
pub open spec fn trim_start_any(s: Seq<char>, set: Seq<char>) -> Seq<char>
    decreases s.len(),
{
    if s.len() > 0 && set.contains(s[0]) {
        trim_start_any(s.drop_first(), set)
    } else {
        s
    }
}

/// Without the characters of `set` at the end.
pub open spec fn trim_end_any(s: Seq<char>, set: Seq<char>) -> Seq<char>
    decreases s.len(),
{
    if s.len() > 0 && set.contains(s.last()) {
        trim_end_any(s.drop_last(), set)
    } else {
        s
    }
}

/// Without the copies of `suffix` at the end.
pub open spec fn trim_end_text(s: Seq<char>, suffix: Seq<char>) -> Seq<char>
    decreases s.len(),
{
    if suffix.len() > 0 && ends_with(s, suffix) {
        trim_end_text(s.take(s.len() - suffix.len()), suffix)
    } else {
        s
    }
}

/// `trim_start` cuts a stretch of white space off the front and nothing else.
pub proof fn trim_start_is_a_suffix(s: Seq<char>)
    ensures
        trim_start(s).len() <= s.len(),
        trim_start(s) == s.skip(s.len() - trim_start(s).len()),
        forall|i: int| 0 <= i < s.len() - trim_start(s).len() ==> is_space(#[trigger] s[i]),
        trim_start(s).len() > 0 ==> !is_space(trim_start(s)[0]),
    decreases s.len(),
{
    if s.len() > 0 && is_space(s[0]) {
        let rest = s.drop_first();
        trim_start_is_a_suffix(rest);
        let cut = rest.len() - trim_start(rest).len();
        assert(rest.skip(cut) =~= s.skip(cut + 1));
        assert forall|i: int| 0 <= i < cut + 1 implies is_space(#[trigger] s[i]) by {
            if i > 0 {
                assert(s[i] == rest[i - 1]);
            }
        }
    } else {
        assert(s.skip(0) =~= s);
    }
}

/// `trim_end` cuts a stretch of white space off the end and nothing else.
pub proof fn trim_end_is_a_prefix(s: Seq<char>)
    ensures
        trim_end(s).len() <= s.len(),
        trim_end(s) == s.take(trim_end(s).len() as int),
        forall|i: int| trim_end(s).len() <= i < s.len() ==> is_space(#[trigger] s[i]),
        trim_end(s).len() > 0 ==> !is_space(trim_end(s).last()),
    decreases s.len(),
{
    if s.len() > 0 && is_space(s.last()) {
        let rest = s.drop_last();
        trim_end_is_a_prefix(rest);
        assert(rest.take(trim_end(rest).len() as int) =~= s.take(trim_end(rest).len() as int));
        assert forall|i: int| trim_end(s).len() <= i < s.len() implies is_space(#[trigger] s[i]) by {
            if i < rest.len() {
                assert(s[i] == rest[i]);
            }
        }
    } else {
        assert(s.take(s.len() as int) =~= s);
    }
}

/// `trim_end_any` gives a prefix that does not end in a character of the set.
pub proof fn trim_end_any_is_a_prefix(s: Seq<char>, set: Seq<char>)
    ensures
        trim_end_any(s, set).len() <= s.len(),
        trim_end_any(s, set) == s.take(trim_end_any(s, set).len() as int),
        trim_end_any(s, set).len() > 0 ==> !set.contains(trim_end_any(s, set).last()),
    decreases s.len(),
{
    if s.len() > 0 && set.contains(s.last()) {
        let rest = s.drop_last();
        trim_end_any_is_a_prefix(rest, set);
        let kept = trim_end_any(rest, set).len() as int;
        assert(rest.take(kept) =~= s.take(kept));
    } else {
        assert(s.take(s.len() as int) =~= s);
    }
}

/// The characters without the white space at the front.
pub fn trimmed_start(chars: &[char]) -> (rest: &[char])
    ensures
        rest@ == trim_start(chars@),
{
    let mut from: usize = 0;
    assert(chars@.skip(0) =~= chars@);
    while from < chars.len() && char_is_space(chars[from])
        invariant
            from <= chars@.len(),
            trim_start(chars@) == trim_start(chars@.skip(from as int)),
        decreases chars@.len() - from,
    {
        assert(chars@.skip(from as int).drop_first() =~= chars@.skip(from as int + 1));
        from += 1;
    }
    assert(chars@.subrange(from as int, chars@.len() as int) =~= chars@.skip(from as int));
    slice_subrange(chars, from, chars.len())
}

/// The characters without the white space at the end.
pub fn trimmed_end(chars: &[char]) -> (rest: &[char])
    ensures
        rest@ == trim_end(chars@),
{
    let mut to: usize = chars.len();
    assert(chars@.take(to as int) =~= chars@);
    while to > 0 && char_is_space(chars[to - 1])
        invariant
            to <= chars@.len(),
            trim_end(chars@) == trim_end(chars@.take(to as int)),
        decreases to,
    {
        assert(chars@.take(to as int).drop_last() =~= chars@.take(to as int - 1));
        to -= 1;
    }
    assert(chars@.subrange(0, to as int) =~= chars@.take(to as int));
    slice_subrange(chars, 0, to)
}

/// The characters without the white space at either side.
pub fn trimmed(chars: &[char]) -> (rest: &[char])
    ensures
        rest@ == trim(chars@),
{
    trimmed_end(trimmed_start(chars))
}

fn holds_char(set: &[char], c: char) -> (found: bool)
    ensures
        found == set@.contains(c),
{
    for i in 0..set.len()
        invariant
            forall|j: int| 0 <= j < i ==> set@[j] != c,
    {
        if set[i] == c {
            return true;
        }
    }
    false
}

/// The characters without those of `set` at the front.
pub fn trimmed_start_any<'a>(chars: &'a [char], set: &[char]) -> (rest: &'a [char])
    ensures
        rest@ == trim_start_any(chars@, set@),
{
    let mut from: usize = 0;
    assert(chars@.skip(0) =~= chars@);
    while from < chars.len() && holds_char(set, chars[from])
        invariant
            from <= chars@.len(),
            trim_start_any(chars@, set@) == trim_start_any(chars@.skip(from as int), set@),
        decreases chars@.len() - from,
    {
        assert(chars@.skip(from as int).drop_first() =~= chars@.skip(from as int + 1));
        from += 1;
    }
    assert(chars@.subrange(from as int, chars@.len() as int) =~= chars@.skip(from as int));
    slice_subrange(chars, from, chars.len())
}

/// The characters without those of `set` at the end.
pub fn trimmed_end_any<'a>(chars: &'a [char], set: &[char]) -> (rest: &'a [char])
    ensures
        rest@ == trim_end_any(chars@, set@),
{
    let mut to: usize = chars.len();
    assert(chars@.take(to as int) =~= chars@);
    while to > 0 && holds_char(set, chars[to - 1])
        invariant
            to <= chars@.len(),
            trim_end_any(chars@, set@) == trim_end_any(chars@.take(to as int), set@),
        decreases to,
    {
        assert(chars@.take(to as int).drop_last() =~= chars@.take(to as int - 1));
        to -= 1;
    }
    assert(chars@.subrange(0, to as int) =~= chars@.take(to as int));
    slice_subrange(chars, 0, to)
}

/// The characters without the copies of `suffix` at the end.
pub fn trimmed_end_text<'a>(chars: &'a [char], suffix: &[char]) -> (rest: &'a [char])
    ensures
        rest@ == trim_end_text(chars@, suffix@),
{
    let mut to: usize = chars.len();
    assert(chars@.take(to as int) =~= chars@);
    while suffix.len() > 0 && to >= suffix.len() && occurs_at(
        slice_subrange(chars, 0, to),
        to - suffix.len(),
        suffix,
    )
        invariant
            to <= chars@.len(),
            trim_end_text(chars@, suffix@) == trim_end_text(chars@.take(to as int), suffix@),
        decreases to,
    {
        let ghost cut = chars@.take(to as int);
        assert(chars@.subrange(0, to as int) =~= cut);
        assert(cut.take(cut.len() - suffix@.len()) =~= chars@.take(to - suffix@.len()));
        to -= suffix.len();
    }
    assert(chars@.subrange(0, to as int) =~= chars@.take(to as int));
    slice_subrange(chars, 0, to)
}

// ---------------------------------------------------------------------------
// Searching
// ---------------------------------------------------------------------------

/// Whether `part` stands in `s` from position `i` on.
pub open spec fn has_at(s: Seq<char>, i: int, part: Seq<char>) -> bool {
    0 <= i && i + part.len() <= s.len() && s.subrange(i, i + part.len()) == part
}

pub open spec fn starts_with(s: Seq<char>, prefix: Seq<char>) -> bool {
    has_at(s, 0, prefix)
}

pub open spec fn ends_with(s: Seq<char>, suffix: Seq<char>) -> bool {
    has_at(s, s.len() - suffix.len(), suffix)
}

/// Whether `part` stands anywhere in `s`.
pub open spec fn contains(s: Seq<char>, part: Seq<char>) -> bool {
    exists|i: int| has_at(s, i, part)
}

/// Whether `i` is the first position at which `part` stands in `s`.
pub open spec fn is_first_at(s: Seq<char>, i: int, part: Seq<char>) -> bool {
    has_at(s, i, part) && forall|j: int| j < i ==> !has_at(s, j, part)
}

/// What stands in `s` before the first `part`; all of `s` where there is none.
pub open spec fn before_first(s: Seq<char>, part: Seq<char>) -> Seq<char> {
    if contains(s, part) {
        s.take(choose|i: int| is_first_at(s, i, part))
    } else {
        s
    }
}

/// Whether `part` stands in `chars` from position `i` on.
pub fn occurs_at(chars: &[char], i: usize, part: &[char]) -> (yes: bool)
    requires
        i <= chars@.len(),
    ensures
        yes == has_at(chars@, i as int, part@),
{
    if chars.len() - i < part.len() {
        return false;
    }
    for k in 0..part.len()
        invariant
            i + part@.len() <= chars.len() == chars@.len(),
            forall|j: int| 0 <= j < k ==> chars@[i + j] == part@[j],
    {
        if chars[i + k] != part[k] {
            assert(chars@.subrange(i as int, i + part@.len())[k as int] != part@[k as int]);
            return false;
        }
    }
    assert(chars@.subrange(i as int, i + part@.len()) =~= part@);
    true
}

/// The first position of `part` in `chars`.
pub fn find(chars: &[char], part: &[char]) -> (position: Option<usize>)
    ensures
        match position {
            Some(i) => is_first_at(chars@, i as int, part@),
            None => !contains(chars@, part@),
        },
{
    let mut i: usize = 0;
    while i < chars.len()
        invariant
            i <= chars@.len(),
            forall|j: int| j < i ==> !has_at(chars@, j, part@),
        decreases chars@.len() - i,
    {
        if occurs_at(chars, i, part) {
            return Some(i);
        }
        i += 1;
    }
    if part.len() == 0 {
        assert(chars@.subrange(i as int, i as int) =~= part@);
        return Some(i);
    }
    None
}

/// Whether `part` stands anywhere in `chars`.
pub fn holds_text(chars: &[char], part: &str) -> (found: bool)
    ensures
        found == contains(chars@, part@),
{
    let part_chars = chars_of(part);
    match find(chars, &part_chars) {
        Some(_) => true,
        None => false,
    }
}

/// Whether one of the given texts stands anywhere in `s`.
pub open spec fn mentions(s: Seq<char>, parts: Seq<&str>) -> bool {
    exists|i: int| 0 <= i < parts.len() && contains(s, (#[trigger] parts[i])@)
}

/// Whether one of the given texts stands anywhere in `chars`.
pub fn holds_any(chars: &[char], parts: &[&str]) -> (found: bool)
    ensures
        found == mentions(chars@, parts@),
{
    for i in 0..parts.len()
        invariant
            forall|j: int| 0 <= j < i ==> !contains(chars@, (#[trigger] parts@[j])@),
    {
        if holds_text(chars, parts[i]) {
            return true;
        }
    }
    false
}

pub fn begins_with(chars: &[char], prefix: &str) -> (yes: bool)
    ensures
        yes == starts_with(chars@, prefix@),
{
    let prefix_chars = chars_of(prefix);
    occurs_at(chars, 0, &prefix_chars)
}

pub fn finishes_with(chars: &[char], suffix: &str) -> (yes: bool)
    ensures
        yes == ends_with(chars@, suffix@),
{
    let suffix_chars = chars_of(suffix);
    if suffix_chars.len() > chars.len() {
        return false;
    }
    occurs_at(chars, chars.len() - suffix_chars.len(), &suffix_chars)
}

/// There is one first position only.
pub proof fn first_position_is_unique(s: Seq<char>, i: int, j: int, part: Seq<char>)
    requires
        is_first_at(s, i, part),
        is_first_at(s, j, part),
    ensures
        i == j,
{
    if i < j {
        assert(!has_at(s, i, part));
    }
    if j < i {
        assert(!has_at(s, j, part));
    }
}

/// A text that occurs occurs somewhere first.
pub proof fn an_occurrence_has_a_first(s: Seq<char>, part: Seq<char>)
    requires
        contains(s, part),
    ensures
        exists|i: int| is_first_at(s, i, part),
{
    let k = choose|i: int| has_at(s, i, part);
    first_up_to(s, part, k);
}

proof fn first_up_to(s: Seq<char>, part: Seq<char>, k: int)
    requires
        has_at(s, k, part),
    ensures
        exists|i: int| is_first_at(s, i, part),
    decreases k,
{
    if exists|j: int| j < k && has_at(s, j, part) {
        let j = choose|j: int| j < k && has_at(s, j, part);
        first_up_to(s, part, j);
    } else {
        assert(is_first_at(s, k, part));
    }
}

/// The characters before the first `part`; all of them where there is none.
pub fn cut_before<'a>(chars: &'a [char], part: &str) -> (rest: &'a [char])
    ensures
        rest@ == before_first(chars@, part@),
{
    let part_chars = chars_of(part);
    match find(chars, &part_chars) {
        Some(i) => {
            proof {
                assert(has_at(chars@, i as int, part@));
                let first = choose|k: int| is_first_at(chars@, k, part@);
                first_position_is_unique(chars@, i as int, first, part@);
                assert(chars@.subrange(0, i as int) =~= chars@.take(i as int));
            }
            slice_subrange(chars, 0, i)
        },
        None => chars,
    }
}

/// A part of a prefix is a part of the whole.
pub proof fn prefix_contains_no_more(s: Seq<char>, n: int, part: Seq<char>)
    requires
        0 <= n <= s.len(),
        contains(s.take(n), part),
    ensures
        contains(s, part),
{
    let i = choose|i: int| has_at(s.take(n), i, part);
    assert(s.subrange(i, i + part.len()) =~= s.take(n).subrange(i, i + part.len()));
    assert(has_at(s, i, part));
}

/// `before_first` gives a prefix in which the part no longer stands.
pub proof fn before_first_is_free_of_it(s: Seq<char>, part: Seq<char>)
    requires
        part.len() > 0,
    ensures
        before_first(s, part).len() <= s.len(),
        before_first(s, part) == s.take(before_first(s, part).len() as int),
        !contains(before_first(s, part), part),
{
    if contains(s, part) {
        an_occurrence_has_a_first(s, part);
        let first = choose|i: int| is_first_at(s, i, part);
        let kept = s.take(first);
        if contains(kept, part) {
            let j = choose|j: int| has_at(kept, j, part);
            assert(s.subrange(j, j + part.len()) =~= kept.subrange(j, j + part.len()));
            assert(has_at(s, j, part));
        }
    } else {
        assert(s.take(s.len() as int) =~= s);
    }
}

// ---------------------------------------------------------------------------
// Rewriting
// ---------------------------------------------------------------------------

/// With every ASCII letter in lower case.
pub open spec fn ascii_lower_text(s: Seq<char>) -> Seq<char> {
    Seq::new(s.len(), |i: int| ascii_lower(s[i]))
}

/// With every ASCII letter in upper case.
pub open spec fn ascii_upper_text(s: Seq<char>) -> Seq<char> {
    Seq::new(s.len(), |i: int| ascii_upper(s[i]))
}

/// With `new` in place of every `old_char`.
pub open spec fn replace_char(s: Seq<char>, old_char: char, new: char) -> Seq<char> {
    Seq::new(
        s.len(),
        |i: int|
            if s[i] == old_char {
                new
            } else {
                s[i]
            },
    )
}

/// The first `n` characters, or all of them where there are fewer.
pub open spec fn first_chars(s: Seq<char>, n: nat) -> Seq<char> {
    if s.len() <= n {
        s
    } else {
        s.take(n as int)
    }
}

pub fn lowered_ascii(chars: &[char]) -> (lowered: Vec<char>)
    ensures
        lowered@ == ascii_lower_text(chars@),
{
    let mut lowered: Vec<char> = Vec::new();
    for i in 0..chars.len()
        invariant
            lowered@ == ascii_lower_text(chars@).take(i as int),
    {
        lowered.push(char_ascii_lower(chars[i]));
    }
    lowered
}

pub fn raised_ascii(chars: &[char]) -> (raised: Vec<char>)
    ensures
        raised@ == ascii_upper_text(chars@),
{
    let mut raised: Vec<char> = Vec::new();
    for i in 0..chars.len()
        invariant
            raised@ == ascii_upper_text(chars@).take(i as int),
    {
        raised.push(char_ascii_upper(chars[i]));
    }
    raised
}

pub fn with_char_replaced(chars: &[char], old_char: char, new: char) -> (replaced: Vec<char>)
    ensures
        replaced@ == replace_char(chars@, old_char, new),
{
    let mut replaced: Vec<char> = Vec::new();
    for i in 0..chars.len()
        invariant
            replaced@ == replace_char(chars@, old_char, new).take(i as int),
    {
        let c = chars[i];
        replaced.push(if c == old_char { new } else { c });
    }
    replaced
}

/// The first `n` characters, or all of them where there are fewer.
pub fn leading_chars(chars: &[char], n: usize) -> (leading: &[char])
    ensures
        leading@ == first_chars(chars@, n as nat),
{
    if chars.len() <= n {
        chars
    } else {
        assert(chars@.subrange(0, n as int) =~= chars@.take(n as int));
        slice_subrange(chars, 0, n)
    }
}

/// Whether two texts are the same but for the case of ASCII letters.
pub fn same_but_ascii_case(left: &[char], right: &[char]) -> (same: bool)
    ensures
        same == (ascii_lower_text(left@) == ascii_lower_text(right@)),
{
    let left_lowered = lowered_ascii(left);
    let right_lowered = lowered_ascii(right);
    same_chars(&left_lowered, &right_lowered)
}

// ---------------------------------------------------------------------------
// Numbers
// ---------------------------------------------------------------------------

/// The character of a decimal digit.
pub open spec fn digit_char(digit: nat) -> char {
    (48 + digit) as char
}

/// A number in decimal notation.
pub open spec fn decimal(n: nat) -> Seq<char>
    decreases n,
{
    if n < 10 {
        seq![digit_char(n)]
    } else {
        decimal(n / 10).push(digit_char(n % 10))
    }
}

/// The decimal notation of a number is never empty, and made of digits alone.
pub proof fn decimal_is_digits(n: nat)
    ensures
        decimal(n).len() > 0,
        forall|i: int| 0 <= i < decimal(n).len() ==> is_ascii_digit(#[trigger] decimal(n)[i]),
    decreases n,
{
    if n >= 10 {
        decimal_is_digits(n / 10);
    }
}

/// Two numbers with the same decimal notation are the same.
pub proof fn decimal_is_injective(m: nat, n: nat)
    requires
        decimal(m) == decimal(n),
    ensures
        m == n,
    decreases m,
{
    decimal_is_digits(m / 10);
    decimal_is_digits(n / 10);
    assert(decimal(m).last() == digit_char(m % 10));
    assert(decimal(n).last() == digit_char(n % 10));
    assert(48 + m % 10 == 48 + n % 10);
    if m >= 10 && n >= 10 {
        assert(decimal(m).drop_last() =~= decimal(m / 10));
        assert(decimal(n).drop_last() =~= decimal(n / 10));
        decimal_is_injective(m / 10, n / 10);
    }
}

/// A number in decimal notation.
pub fn decimal_of(n: u64) -> (text: String)
    ensures
        text@ == decimal(n as nat),
    decreases n,
{
    let mut text = if n < 10 {
        String::new()
    } else {
        decimal_of(n / 10)
    };
    let digit: u8 = (n % 10) as u8;
    text.push((48 + digit) as char);
    assert(text@ =~= decimal(n as nat));
    text
}

// ---------------------------------------------------------------------------
// Sizes in bytes
// ---------------------------------------------------------------------------

/// The number of bytes of a character in UTF-8.
pub open spec fn utf8_width(c: char) -> nat {
    let u = c as u32;
    if u <= 0x7f {
        1
    } else if u <= 0x7ff {
        2
    } else if u <= 0xffff {
        3
    } else {
        4
    }
}

/// The number of bytes of a text in UTF-8.
pub open spec fn utf8_len(s: Seq<char>) -> nat
    decreases s.len(),
{
    if s.len() == 0 {
        0
    } else {
        utf8_len(s.drop_last()) + utf8_width(s.last())
    }
}

/// The bytes of two texts put together are the bytes of both.
pub proof fn utf8_len_of_sum(a: Seq<char>, b: Seq<char>)
    ensures
        utf8_len(a + b) == utf8_len(a) + utf8_len(b),
    decreases b.len(),
{
    if b.len() == 0 {
        assert(a + b =~= a);
    } else {
        assert((a + b).drop_last() =~= a + b.drop_last());
        assert((a + b).last() == b.last());
        utf8_len_of_sum(a, b.drop_last());
    }
}

/// `utf8_len` counts the bytes of the UTF-8 encoding.
pub proof fn utf8_len_counts_bytes(s: Seq<char>)
    ensures
        utf8::encode_utf8(s).len() == utf8_len(s),
    decreases s.len(),
{
    if s.len() > 0 {
        let first = seq![s[0]];
        let rest = s.drop_first();
        utf8_len_counts_bytes(rest);
        utf8_len_of_sum(first, rest);
        assert(first + rest =~= s);
        let c = s[0];
        utf8::char_is_scalar(c);
        assert(first.drop_last() =~= Seq::<char>::empty());
        assert(utf8_len(first.drop_last()) == 0);
        assert(utf8_len(first) == utf8_width(c));
    }
}

/// The number of bytes of a text.
pub fn byte_length(text: &str) -> (bytes: usize)
    ensures
        bytes as nat == utf8_len(text@),
{
    proof {
        utf8_len_counts_bytes(text@);
    }
    text.as_bytes().len()
}

// ---------------------------------------------------------------------------
// Order
// ---------------------------------------------------------------------------

/// The order of texts by their characters, from the first on.
pub open spec fn text_before(a: Seq<char>, b: Seq<char>) -> bool
    decreases a.len(),
{
    if b.len() == 0 {
        false
    } else if a.len() == 0 {
        true
    } else if a[0] != b[0] {
        (a[0] as int) < (b[0] as int)
    } else {
        text_before(a.drop_first(), b.drop_first())
    }
}

/// No text stands before itself.
pub proof fn text_order_is_irreflexive(a: Seq<char>)
    ensures
        !text_before(a, a),
    decreases a.len(),
{
    if a.len() > 0 {
        text_order_is_irreflexive(a.drop_first());
    }
}

/// What stands before something that stands before a third stands before the third.
pub proof fn text_order_is_transitive(a: Seq<char>, b: Seq<char>, c: Seq<char>)
    requires
        text_before(a, b),
        text_before(b, c),
    ensures
        text_before(a, c),
    decreases a.len(),
{
    if a.len() > 0 && a[0] == b[0] && b[0] == c[0] {
        text_order_is_transitive(a.drop_first(), b.drop_first(), c.drop_first());
    }
}

/// Of two different texts one stands before the other.
pub proof fn text_order_is_total(a: Seq<char>, b: Seq<char>)
    requires
        a != b,
    ensures
        text_before(a, b) || text_before(b, a),
    decreases a.len(),
{
    if a.len() == 0 {
        if b.len() == 0 {
            assert(a =~= b);
        }
    } else if b.len() > 0 && a[0] == b[0] {
        if a.drop_first() == b.drop_first() {
            assert(a =~= seq![a[0]] + a.drop_first());
            assert(b =~= seq![b[0]] + b.drop_first());
        }
        text_order_is_total(a.drop_first(), b.drop_first());
    }
}

/// Whether `left` stands before `right`.
pub fn stands_before(left: &[char], right: &[char]) -> (yes: bool)
    ensures
        yes == text_before(left@, right@),
{
    let mut i: usize = 0;
    assert(left@.skip(0) =~= left@);
    assert(right@.skip(0) =~= right@);
    while i < left.len() && i < right.len() && left[i] == right[i]
        invariant
            i <= left@.len(),
            i <= right@.len(),
            text_before(left@, right@) == text_before(left@.skip(i as int), right@.skip(i as int)),
        decreases left@.len() - i,
    {
        assert(left@.skip(i as int).drop_first() =~= left@.skip(i as int + 1));
        assert(right@.skip(i as int).drop_first() =~= right@.skip(i as int + 1));
        i += 1;
    }
    if i >= right.len() {
        false
    } else if i >= left.len() {
        true
    } else {
        char_code(left[i]) < char_code(right[i])
    }
}

} // verus!
