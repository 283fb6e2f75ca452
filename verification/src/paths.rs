//! Paths as text, in the notation of the system that they come from.

use crate::text;
use crate::text::{chars_of, same_text, string_of};
use vstd::prelude::*;
use vstd::slice::slice_subrange;

verus! {

/// The notation of a path.
#[derive(Debug, Clone, Copy, PartialEq, Eq, Structural)]
pub enum Style {
    /// Parts are separated by `/`, and a path that begins with `/` is absolute.
    Unix,
    /// Parts are separated by `\` or `/`, and an absolute path begins with a drive or
    /// another prefix.
    Windows,
}

/// What separates the parts of a path.
#[derive(Debug, Clone, Copy, PartialEq, Eq, Structural)]
pub enum Separators {
    Slash,
    Backslash,
    Both,
}

/// Whether a character is a separator.
pub open spec fn separates(set: Separators, c: char) -> bool {
    match set {
        Separators::Slash => c == '/',
        Separators::Backslash => c == '\\',
        Separators::Both => c == '/' || c == '\\',
    }
}

fn is_separator(set: Separators, c: char) -> (yes: bool)
    ensures
        yes == separates(set, c),
{
    match set {
        Separators::Slash => c == '/',
        Separators::Backslash => c == '\\',
        Separators::Both => c == '/' || c == '\\',
    }
}

/// The separator that is put between parts.
pub open spec fn main_separator(style: Style) -> char {
    match style {
        Style::Unix => '/',
        Style::Windows => '\\',
    }
}

/// The separator that is put between parts.
pub fn separator_of(style: Style) -> (c: char)
    ensures
        c == main_separator(style),
{
    match style {
        Style::Unix => '/',
        Style::Windows => '\\',
    }
}

// ---------------------------------------------------------------------------
// Prefixes
// ---------------------------------------------------------------------------

/// What stands before the parts of a Windows path. A verbatim path is taken as it is
/// written: only `\` separates its names, and `.` is one of its parts.
#[derive(Debug)]
pub enum Prefix {
    /// `\\?\name`
    Verbatim(String),
    /// `\\?\UNC\server\share`
    VerbatimUnc(String, String),
    /// `\\?\C:`
    VerbatimDisk(char),
    /// `\\.\name`
    Device(String),
    /// `\\server\share`
    Unc(String, String),
    /// `C:`
    Disk(char),
}

/// What a [`Prefix`] stands for. A drive is given by its letter in upper case.
#[verifier::ext_equal]
pub enum PrefixView {
    Verbatim(Seq<char>),
    VerbatimUnc(Seq<char>, Seq<char>),
    VerbatimDisk(char),
    Device(Seq<char>),
    Unc(Seq<char>, Seq<char>),
    Disk(char),
}

impl View for Prefix {
    type V = PrefixView;

    open spec fn view(&self) -> PrefixView {
        match self {
            Prefix::Verbatim(name) => PrefixView::Verbatim(name@),
            Prefix::VerbatimUnc(server, share) => PrefixView::VerbatimUnc(server@, share@),
            Prefix::VerbatimDisk(letter) => PrefixView::VerbatimDisk(*letter),
            Prefix::Device(name) => PrefixView::Device(name@),
            Prefix::Unc(server, share) => PrefixView::Unc(server@, share@),
            Prefix::Disk(letter) => PrefixView::Disk(*letter),
        }
    }
}

/// Where the first separator stands; the length of the text where there is none.
pub open spec fn first_separator(set: Separators, s: Seq<char>) -> int
    decreases s.len(),
{
    if s.len() == 0 || separates(set, s[0]) {
        0
    } else {
        1 + first_separator(set, s.drop_first())
    }
}

/// What stands before the first separator.
pub open spec fn until(set: Separators, s: Seq<char>) -> Seq<char> {
    s.take(first_separator(set, s))
}

/// What stands behind the first separator; nothing where there is none.
pub open spec fn behind(set: Separators, s: Seq<char>) -> Seq<char> {
    if first_separator(set, s) < s.len() {
        s.skip(first_separator(set, s) + 1)
    } else {
        Seq::empty()
    }
}

/// Whether a text begins with a drive letter and a colon.
pub open spec fn begins_with_drive(s: Seq<char>) -> bool {
    s.len() >= 2 && text::is_ascii_letter(s[0]) && s[1] == ':'
}

/// Whether a text begins with `UNC` and a separator.
pub open spec fn begins_with_unc(s: Seq<char>) -> bool {
    s.len() >= 4 && s[0] == 'U' && s[1] == 'N' && s[2] == 'C' && separates(Separators::Both, s[3])
}

/// The prefix of a path behind `\\?\`.
pub open spec fn verbatim_prefix(s: Seq<char>) -> PrefixView {
    let set = Separators::Backslash;
    if begins_with_unc(s) {
        let rest = s.skip(4);
        PrefixView::VerbatimUnc(until(set, rest), until(set, behind(set, rest)))
    } else if begins_with_drive(s) && (s.len() == 2 || separates(Separators::Both, s[2])) {
        PrefixView::VerbatimDisk(text::ascii_upper(s[0]))
    } else {
        PrefixView::Verbatim(until(set, s))
    }
}

/// Whether a text begins with two separators.
pub open spec fn begins_with_two(s: Seq<char>) -> bool {
    s.len() >= 2 && separates(Separators::Both, s[0]) && separates(Separators::Both, s[1])
}

/// Whether a text begins with `\\?\`, written with these very characters.
pub open spec fn begins_verbatim(s: Seq<char>) -> bool {
    s.len() >= 4 && s[0] == '\\' && s[1] == '\\' && s[2] == '?' && s[3] == '\\'
}

/// The prefix of a Windows path, where it has one.
pub open spec fn windows_prefix(s: Seq<char>) -> Option<PrefixView> {
    let set = Separators::Both;
    if begins_with_two(s) {
        if begins_verbatim(s) {
            Some(verbatim_prefix(s.skip(4)))
        } else if s.len() >= 4 && s[2] == '.' && separates(set, s[3]) {
            Some(PrefixView::Device(until(set, s.skip(4))))
        } else {
            let server = until(set, s.skip(2));
            let share = until(set, behind(set, s.skip(2)));
            if server.len() > 0 && share.len() > 0 {
                Some(PrefixView::Unc(server, share))
            } else {
                None
            }
        }
    } else if begins_with_drive(s) {
        Some(PrefixView::Disk(text::ascii_upper(s[0])))
    } else {
        None
    }
}

/// The prefix of a path, where it has one.
pub open spec fn prefix(style: Style, s: Seq<char>) -> Option<PrefixView> {
    match style {
        Style::Unix => None,
        Style::Windows => windows_prefix(s),
    }
}

/// The number of characters of a server and a share.
pub open spec fn share_len(server: Seq<char>, share: Seq<char>) -> nat {
    server.len() + if share.len() > 0 {
        1 + share.len()
    } else {
        0
    }
}

/// The number of characters that a prefix takes.
pub open spec fn prefix_len(prefix: Option<PrefixView>) -> nat {
    match prefix {
        None => 0,
        Some(PrefixView::Verbatim(name)) => 4 + name.len(),
        Some(PrefixView::VerbatimUnc(server, share)) => 8 + share_len(server, share),
        Some(PrefixView::VerbatimDisk(_)) => 6,
        Some(PrefixView::Device(name)) => 4 + name.len(),
        Some(PrefixView::Unc(server, share)) => 2 + share_len(server, share),
        Some(PrefixView::Disk(_)) => 2,
    }
}

/// Whether a path is taken as it is written.
pub open spec fn is_verbatim(prefix: Option<PrefixView>) -> bool {
    match prefix {
        Some(PrefixView::Verbatim(_)) => true,
        Some(PrefixView::VerbatimUnc(_, _)) => true,
        Some(PrefixView::VerbatimDisk(_)) => true,
        _ => false,
    }
}

/// Whether what follows a prefix starts at a root, even where no separator says so.
pub open spec fn implies_root(prefix: Option<PrefixView>) -> bool {
    prefix is Some && !(prefix->0 is Disk)
}

/// What separates the parts behind a prefix.
pub open spec fn separators(style: Style, prefix: Option<PrefixView>) -> Separators {
    match style {
        Style::Unix => Separators::Slash,
        Style::Windows => if is_verbatim(prefix) {
            Separators::Backslash
        } else {
            Separators::Both
        },
    }
}

// ---------------------------------------------------------------------------
// Parts
// ---------------------------------------------------------------------------

/// One part of a path.
#[derive(Debug)]
pub enum Component {
    /// What stands before the parts of a Windows path.
    Prefix(Prefix),
    /// The root.
    RootDir,
    /// A leading `.`; further ones are left out, but in a verbatim path.
    CurDir,
    /// `..`
    ParentDir,
    /// A name.
    Normal(String),
}

/// What a [`Component`] stands for.
#[verifier::ext_equal]
pub enum Part {
    Prefix(PrefixView),
    RootDir,
    CurDir,
    ParentDir,
    Normal(Seq<char>),
}

impl View for Component {
    type V = Part;

    open spec fn view(&self) -> Part {
        match self {
            Component::Prefix(prefix) => Part::Prefix(prefix@),
            Component::RootDir => Part::RootDir,
            Component::CurDir => Part::CurDir,
            Component::ParentDir => Part::ParentDir,
            Component::Normal(name) => Part::Normal(name@),
        }
    }
}

/// What stands between the separators of a text, from the first on: one piece more than
/// there are separators.
pub open spec fn pieces(set: Separators, s: Seq<char>) -> Seq<Seq<char>>
    decreases s.len(),
{
    if s.len() == 0 {
        seq![Seq::<char>::empty()]
    } else {
        let before = pieces(set, s.drop_last());
        if separates(set, s.last()) {
            before.push(Seq::<char>::empty())
        } else {
            before.update(before.len() - 1, before.last().push(s.last()))
        }
    }
}

/// The part that a piece stands for. An empty piece stands for none, and neither does a
/// `.`, but in a verbatim path.
pub open spec fn part_of(verbatim: bool, piece: Seq<char>) -> Option<Part> {
    if piece.len() == 0 {
        None
    } else if piece == seq!['.'] {
        if verbatim {
            Some(Part::CurDir)
        } else {
            None
        }
    } else if piece == seq!['.', '.'] {
        Some(Part::ParentDir)
    } else {
        Some(Part::Normal(piece))
    }
}

/// The parts that the pieces stand for.
pub open spec fn parts_of(verbatim: bool, list: Seq<Seq<char>>) -> Seq<Part>
    decreases list.len(),
{
    if list.len() == 0 {
        Seq::empty()
    } else {
        match part_of(verbatim, list.last()) {
            Some(part) => parts_of(verbatim, list.drop_last()).push(part),
            None => parts_of(verbatim, list.drop_last()),
        }
    }
}

/// Whether a separator stands behind the prefix of a path. Any separator of the style marks the
/// root, also where the names of the path are separated by fewer characters.
pub open spec fn shows_root(style: Style, s: Seq<char>) -> bool {
    let rest = s.skip(prefix_len(prefix(style, s)) as int);
    rest.len() > 0 && separates(separators(style, None), rest[0])
}

/// How long the prefix of a path and the separator that marks its root are together.
pub open spec fn body_start(style: Style, s: Seq<char>) -> nat {
    prefix_len(prefix(style, s)) + if shows_root(style, s) {
        1nat
    } else {
        0
    }
}

/// What stands behind the prefix and the root of a path.
pub open spec fn body(style: Style, s: Seq<char>) -> Seq<char> {
    s.skip(body_start(style, s) as int)
}

/// Whether a path starts at a root.
pub open spec fn has_root(style: Style, s: Seq<char>) -> bool {
    shows_root(style, s) || implies_root(prefix(style, s))
}

/// Whether a path says where it is without another one.
pub open spec fn is_absolute(style: Style, s: Seq<char>) -> bool {
    has_root(style, s) && (style == Style::Windows ==> prefix(style, s) is Some)
}

/// The pieces behind the prefix and the root of a path.
pub open spec fn body_pieces(style: Style, s: Seq<char>) -> Seq<Seq<char>> {
    pieces(separators(style, prefix(style, s)), body(style, s))
}

/// The part that a path has between its prefix and the parts of its pieces.
pub open spec fn leading_part(style: Style, s: Seq<char>) -> Seq<Part> {
    let own = prefix(style, s);
    if shows_root(style, s) || implies_root(own) && !is_verbatim(own) {
        seq![Part::RootDir]
    } else if own is None && body_pieces(style, s)[0] == seq!['.'] {
        seq![Part::CurDir]
    } else {
        Seq::empty()
    }
}

/// The part that the prefix of a path is.
pub open spec fn prefix_part(prefix: Option<PrefixView>) -> Seq<Part> {
    match prefix {
        Some(prefix) => seq![Part::Prefix(prefix)],
        None => Seq::empty(),
    }
}

/// The parts of a path.
pub open spec fn parts(style: Style, s: Seq<char>) -> Seq<Part> {
    prefix_part(prefix(style, s)) + leading_part(style, s) + parts_of(
        is_verbatim(prefix(style, s)),
        body_pieces(style, s),
    )
}

/// Whether a text holds no separator.
pub open spec fn is_free_of(set: Separators, s: Seq<char>) -> bool {
    forall|i: int| 0 <= i < s.len() ==> !separates(set, #[trigger] s[i])
}

/// A text has at least one piece.
pub proof fn there_is_a_piece(set: Separators, s: Seq<char>)
    ensures
        pieces(set, s).len() > 0,
    decreases s.len(),
{
    if s.len() > 0 {
        there_is_a_piece(set, s.drop_last());
    }
}

/// No piece holds a separator.
pub proof fn pieces_hold_no_separator(set: Separators, s: Seq<char>)
    ensures
        forall|i: int| 0 <= i < pieces(set, s).len() ==> is_free_of(set, #[trigger] pieces(set, s)[i]),
    decreases s.len(),
{
    there_is_a_piece(set, s);
    if s.len() > 0 {
        let before = pieces(set, s.drop_last());
        there_is_a_piece(set, s.drop_last());
        pieces_hold_no_separator(set, s.drop_last());
        assert forall|i: int| 0 <= i < pieces(set, s).len() implies is_free_of(
            set,
            #[trigger] pieces(set, s)[i],
        ) by {
            if i < before.len() {
                assert(is_free_of(set, before[i]));
            }
        }
    }
}

/// A text without separators is its own only piece.
pub proof fn one_piece(set: Separators, s: Seq<char>)
    requires
        is_free_of(set, s),
    ensures
        pieces(set, s) == seq![s],
    decreases s.len(),
{
    if s.len() > 0 {
        assert forall|i: int| 0 <= i < s.drop_last().len() implies !separates(
            set,
            #[trigger] s.drop_last()[i],
        ) by {
            assert(!separates(set, s[i]));
        }
        one_piece(set, s.drop_last());
        assert(!separates(set, s[s.len() - 1]));
        assert(s.drop_last().push(s.last()) =~= s);
        assert(pieces(set, s) =~= seq![s]);
    } else {
        assert(s =~= Seq::<char>::empty());
    }
}

/// The pieces of two texts with a separator between them are the pieces of both.
pub proof fn pieces_of_joined(set: Separators, a: Seq<char>, c: char, b: Seq<char>)
    requires
        separates(set, c),
    ensures
        pieces(set, a + seq![c] + b) == pieces(set, a) + pieces(set, b),
    decreases b.len(),
{
    let whole = a + seq![c] + b;
    if b.len() == 0 {
        assert(whole =~= a.push(c));
        assert(a.push(c).drop_last() =~= a);
        assert(pieces(set, whole) =~= pieces(set, a) + pieces(set, b));
    } else {
        assert(whole.drop_last() =~= a + seq![c] + b.drop_last());
        pieces_of_joined(set, a, c, b.drop_last());
        there_is_a_piece(set, b.drop_last());
        assert(pieces(set, whole) =~= pieces(set, a) + pieces(set, b));
    }
}

/// The parts of two lists of pieces, one after the other, are the parts of both.
pub proof fn parts_of_sum(verbatim: bool, a: Seq<Seq<char>>, b: Seq<Seq<char>>)
    ensures
        parts_of(verbatim, a + b) == parts_of(verbatim, a) + parts_of(verbatim, b),
    decreases b.len(),
{
    if b.len() == 0 {
        assert(a + b =~= a);
        assert(parts_of(verbatim, a) + parts_of(verbatim, b) =~= parts_of(verbatim, a));
    } else {
        assert((a + b).drop_last() =~= a + b.drop_last());
        parts_of_sum(verbatim, a, b.drop_last());
        assert(parts_of(verbatim, a + b) =~= parts_of(verbatim, a) + parts_of(verbatim, b));
    }
}

/// The first separator is the one that no other stands before.
pub proof fn first_separator_is(set: Separators, s: Seq<char>, k: int)
    requires
        0 <= k <= s.len(),
        is_free_of(set, s.take(k)),
        k == s.len() || separates(set, s[k]),
    ensures
        first_separator(set, s) == k,
    decreases s.len(),
{
    if k > 0 {
        assert(s.take(k)[0] == s[0]);
        let rest = s.drop_first();
        assert forall|i: int| 0 <= i < rest.take(k - 1).len() implies !separates(
            set,
            #[trigger] rest.take(k - 1)[i],
        ) by {
            assert(rest.take(k - 1)[i] == s.take(k)[i + 1]);
        }
        first_separator_is(set, rest, k - 1);
    }
}

/// What the first separator is.
pub proof fn first_separator_is_first(set: Separators, s: Seq<char>)
    ensures
        0 <= first_separator(set, s) <= s.len(),
        is_free_of(set, until(set, s)),
        first_separator(set, s) < s.len() ==> separates(set, s[first_separator(set, s)]),
    decreases s.len(),
{
    if s.len() > 0 && !separates(set, s[0]) {
        let rest = s.drop_first();
        first_separator_is_first(set, rest);
        let head = until(set, s);
        assert forall|i: int| 0 <= i < head.len() implies !separates(set, #[trigger] head[i]) by {
            if i > 0 {
                assert(until(set, rest)[i - 1] == head[i]);
            }
        }
    }
}

/// The first piece ends at the first separator.
pub proof fn first_piece(set: Separators, s: Seq<char>)
    ensures
        pieces(set, s)[0] == until(set, s),
{
    let end = first_separator(set, s);
    first_separator_is_first(set, s);
    let first = until(set, s);
    one_piece(set, first);
    if end < s.len() {
        let rest = s.skip(end + 1);
        assert(first + seq![s[end]] + rest =~= s);
        pieces_of_joined(set, first, s[end], rest);
    } else {
        assert(first =~= s);
    }
}

/// A prefix takes no more characters than there are.
pub proof fn prefix_fits(style: Style, s: Seq<char>)
    ensures
        prefix_len(prefix(style, s)) <= s.len(),
{
    first_separator_is_first(Separators::Both, s.skip(2));
    first_separator_is_first(Separators::Both, behind(Separators::Both, s.skip(2)));
    first_separator_is_first(Separators::Both, s.skip(4));
    first_separator_is_first(Separators::Backslash, s.skip(4));
    let rest = s.skip(4).skip(4);
    first_separator_is_first(Separators::Backslash, rest);
    first_separator_is_first(Separators::Backslash, behind(Separators::Backslash, rest));
}

// ---------------------------------------------------------------------------
// Reading a path
// ---------------------------------------------------------------------------

fn is_dots(piece: &[char], count: usize) -> (yes: bool)
    requires
        count == 1 || count == 2,
    ensures
        yes == (piece@ == if count == 1 {
            seq!['.']
        } else {
            seq!['.', '.']
        }),
{
    if piece.len() != count {
        return false;
    }
    if piece[0] != '.' {
        return false;
    }
    if count == 2 && piece[1] != '.' {
        return false;
    }
    proof {
        if count == 1 {
            assert(piece@ =~= seq!['.']);
        } else {
            assert(piece@ =~= seq!['.', '.']);
        }
    }
    true
}

/// What a list of components stands for.
pub open spec fn component_views(list: Seq<Component>) -> Seq<Part> {
    Seq::new(list.len(), |i: int| list[i]@)
}

/// The components of the pieces of `chars`.
fn body_components(set: Separators, verbatim: bool, chars: &[char]) -> (list: Vec<Component>)
    ensures
        component_views(list@) == parts_of(verbatim, pieces(set, chars@)),
{
    let mut list: Vec<Component> = Vec::new();
    let mut start: usize = 0;
    let mut end: usize = 0;
    let ghost mut done: Seq<Seq<char>> = Seq::empty();
    proof {
        assert(chars@.subrange(0, 0) =~= Seq::<char>::empty());
        assert(chars@.take(0) =~= Seq::<char>::empty());
        assert(done.push(chars@.subrange(0, 0)) =~= pieces(set, chars@.take(0)));
        assert(component_views(list@) =~= parts_of(verbatim, done));
    }
    while end < chars.len()
        invariant
            start <= end <= chars@.len(),
            pieces(set, chars@.take(end as int)) == done.push(
                chars@.subrange(start as int, end as int),
            ),
            component_views(list@) == parts_of(verbatim, done),
        decreases chars@.len() - end,
    {
        let ghost before = chars@.take(end as int);
        let ghost after = chars@.take(end as int + 1);
        let ghost open_piece = chars@.subrange(start as int, end as int);
        assert(after.drop_last() =~= before);
        assert(after.last() == chars@[end as int]);
        if is_separator(set, chars[end]) {
            push_component(verbatim, &mut list, slice_subrange(chars, start, end));
            proof {
                assert(done.push(open_piece).drop_last() =~= done);
                done = done.push(open_piece);
                assert(chars@.subrange(end as int + 1, end as int + 1) =~= Seq::<char>::empty());
            }
            end += 1;
            start = end;
        } else {
            proof {
                assert(open_piece.push(chars@[end as int]) =~= chars@.subrange(
                    start as int,
                    end as int + 1,
                ));
                assert(done.push(open_piece).update(
                    done.len() as int,
                    open_piece.push(chars@[end as int]),
                ) =~= done.push(open_piece.push(chars@[end as int])));
            }
            end += 1;
        }
    }
    push_component(verbatim, &mut list, slice_subrange(chars, start, end));
    proof {
        assert(chars@.take(end as int) =~= chars@);
        let last = chars@.subrange(start as int, end as int);
        assert(done.push(last).drop_last() =~= done);
    }
    list
}

fn push_component(verbatim: bool, list: &mut Vec<Component>, piece: &[char])
    ensures
        component_views(final(list)@) == match part_of(verbatim, piece@) {
            Some(part) => component_views(old(list)@).push(part),
            None => component_views(old(list)@),
        },
{
    if piece.len() == 0 {
        return ;
    }
    if is_dots(piece, 1) {
        if !verbatim {
            return ;
        }
        list.push(Component::CurDir);
    } else if is_dots(piece, 2) {
        list.push(Component::ParentDir);
    } else {
        let name = string_of(piece);
        list.push(Component::Normal(name));
    }
    assert(component_views(list@) =~= component_views(old(list)@).push(
        part_of(verbatim, piece@)->0,
    ));
}

fn find_separator(set: Separators, chars: &[char]) -> (end: usize)
    ensures
        end as int == first_separator(set, chars@),
        end <= chars@.len(),
{
    let mut end: usize = 0;
    while end < chars.len() && !is_separator(set, chars[end])
        invariant
            end <= chars@.len(),
            is_free_of(set, chars@.take(end as int)),
        decreases chars@.len() - end,
    {
        proof {
            let longer = chars@.take(end as int + 1);
            assert forall|i: int| 0 <= i < longer.len() implies !separates(
                set,
                #[trigger] longer[i],
            ) by {
                if i < end {
                    assert(chars@.take(end as int)[i] == longer[i]);
                }
            }
        }
        end += 1;
    }
    proof {
        first_separator_is(set, chars@, end as int);
    }
    end
}

/// What stands before and behind the first separator.
fn cut_at_separator(set: Separators, chars: &[char]) -> (cut: (&[char], &[char]))
    ensures
        cut.0@ == until(set, chars@),
        cut.1@ == behind(set, chars@),
{
    let end = find_separator(set, chars);
    let first = slice_subrange(chars, 0, end);
    assert(first@ =~= until(set, chars@));
    if end < chars.len() {
        let rest = slice_subrange(chars, end + 1, chars.len());
        assert(rest@ =~= behind(set, chars@));
        (first, rest)
    } else {
        let rest = slice_subrange(chars, end, chars.len());
        assert(rest@ =~= behind(set, chars@));
        (first, rest)
    }
}

fn is_drive(chars: &[char]) -> (yes: bool)
    ensures
        yes == begins_with_drive(chars@),
{
    chars.len() >= 2 && text::char_is_ascii_letter(chars[0]) && chars[1] == ':'
}

fn read_verbatim_prefix(chars: &[char]) -> (found: Prefix)
    ensures
        found@ == verbatim_prefix(chars@),
{
    let set = Separators::Backslash;
    if chars.len() >= 4 && chars[0] == 'U' && chars[1] == 'N' && chars[2] == 'C' && is_separator(
        Separators::Both,
        chars[3],
    ) {
        let rest = slice_subrange(chars, 4, chars.len());
        assert(rest@ =~= chars@.skip(4));
        let (server, behind_server) = cut_at_separator(set, rest);
        let (share, _) = cut_at_separator(set, behind_server);
        Prefix::VerbatimUnc(string_of(server), string_of(share))
    } else if is_drive(chars) && (chars.len() == 2 || is_separator(Separators::Both, chars[2])) {
        Prefix::VerbatimDisk(text::char_ascii_upper(chars[0]))
    } else {
        let (name, _) = cut_at_separator(set, chars);
        Prefix::Verbatim(string_of(name))
    }
}

/// What an optional prefix stands for.
pub open spec fn prefix_view(found: Option<Prefix>) -> Option<PrefixView> {
    match found {
        Some(found) => Some(found@),
        None => None,
    }
}

fn read_windows_prefix(chars: &[char]) -> (found: Option<Prefix>)
    ensures
        prefix_view(found) == windows_prefix(chars@),
{
    let set = Separators::Both;
    if chars.len() >= 2 && is_separator(set, chars[0]) && is_separator(set, chars[1]) {
        if chars.len() >= 4 && chars[0] == '\\' && chars[1] == '\\' && chars[2] == '?' && chars[3]
            == '\\' {
            let rest = slice_subrange(chars, 4, chars.len());
            assert(rest@ =~= chars@.skip(4));
            Some(read_verbatim_prefix(rest))
        } else if chars.len() >= 4 && chars[2] == '.' && is_separator(set, chars[3]) {
            let rest = slice_subrange(chars, 4, chars.len());
            assert(rest@ =~= chars@.skip(4));
            let (name, _) = cut_at_separator(set, rest);
            Some(Prefix::Device(string_of(name)))
        } else {
            let rest = slice_subrange(chars, 2, chars.len());
            assert(rest@ =~= chars@.skip(2));
            let (server, behind_server) = cut_at_separator(set, rest);
            let (share, _) = cut_at_separator(set, behind_server);
            if server.len() > 0 && share.len() > 0 {
                Some(Prefix::Unc(string_of(server), string_of(share)))
            } else {
                None
            }
        }
    } else if is_drive(chars) {
        Some(Prefix::Disk(text::char_ascii_upper(chars[0])))
    } else {
        None
    }
}

fn read_prefix(style: Style, chars: &[char]) -> (found: Option<Prefix>)
    ensures
        prefix_view(found) == prefix(style, chars@),
{
    match style {
        Style::Unix => None,
        Style::Windows => read_windows_prefix(chars),
    }
}

fn text_len(s: &str) -> (len: usize)
    ensures
        len as nat == s@.len(),
{
    chars_of(s).len()
}

fn length_of_prefix(found: &Option<Prefix>) -> (len: usize)
    requires
        prefix_len(prefix_view(*found)) <= usize::MAX,
    ensures
        len as nat == prefix_len(prefix_view(*found)),
{
    match found {
        None => 0,
        Some(Prefix::Verbatim(name)) => 4 + text_len(name),
        Some(Prefix::VerbatimUnc(server, share)) => {
            let share: usize = text_len(share);
            8 + text_len(server) + if share > 0 {
                1 + share
            } else {
                0
            }
        },
        Some(Prefix::VerbatimDisk(_)) => 6,
        Some(Prefix::Device(name)) => 4 + text_len(name),
        Some(Prefix::Unc(server, share)) => {
            let share: usize = text_len(share);
            2 + text_len(server) + if share > 0 {
                1 + share
            } else {
                0
            }
        },
        Some(Prefix::Disk(_)) => 2,
    }
}

fn has_verbatim(found: &Option<Prefix>) -> (yes: bool)
    ensures
        yes == is_verbatim(prefix_view(*found)),
{
    match found {
        Some(Prefix::Verbatim(_)) => true,
        Some(Prefix::VerbatimUnc(_, _)) => true,
        Some(Prefix::VerbatimDisk(_)) => true,
        _ => false,
    }
}

fn has_implied_root(found: &Option<Prefix>) -> (yes: bool)
    ensures
        yes == implies_root(prefix_view(*found)),
{
    match found {
        None => false,
        Some(Prefix::Disk(_)) => false,
        Some(_) => true,
    }
}

fn separators_behind(style: Style, found: &Option<Prefix>) -> (set: Separators)
    ensures
        set == separators(style, prefix_view(*found)),
{
    match style {
        Style::Unix => Separators::Slash,
        Style::Windows => if has_verbatim(found) {
            Separators::Backslash
        } else {
            Separators::Both
        },
    }
}

/// The parts of a path.
pub fn components(style: Style, path: &str) -> (list: Vec<Component>)
    ensures
        component_views(list@) == parts(style, path@),
{
    let chars = chars_of(path);
    components_of(style, &chars)
}

fn components_of(style: Style, chars: &[char]) -> (list: Vec<Component>)
    ensures
        component_views(list@) == parts(style, chars@),
{
    let found = read_prefix(style, chars);
    proof {
        prefix_fits(style, chars@);
        assert(chars.len() == chars@.len());
    }
    let n: usize = length_of_prefix(&found);
    let shown = n < chars.len() && is_separator(separators_behind(style, &None), chars[n]);
    let start: usize = if shown {
        n + 1
    } else {
        n
    };
    let rest = slice_subrange(chars, start, chars.len());
    assert(rest@ =~= body(style, chars@));
    let verbatim = has_verbatim(&found);
    let set = separators_behind(style, &found);
    let mut list = body_components(set, verbatim, rest);
    let ghost names = component_views(list@);
    proof {
        first_piece(set, rest@);
    }
    if shown || has_implied_root(&found) && !verbatim {
        list.insert(0, Component::RootDir);
    } else if found.is_none() {
        let first_end = find_separator(set, rest);
        let first = slice_subrange(rest, 0, first_end);
        assert(first@ =~= until(set, rest@));
        if is_dots(first, 1) {
            list.insert(0, Component::CurDir);
        }
    }
    let ghost named = component_views(list@);
    assert(named =~= leading_part(style, chars@) + names);
    if let Some(found) = found {
        list.insert(0, Component::Prefix(found));
    }
    assert(component_views(list@) =~= parts(style, chars@));
    list
}

// ---------------------------------------------------------------------------
// Names
// ---------------------------------------------------------------------------

/// The last part of a path, where that is a name.
pub open spec fn file_name(style: Style, s: Seq<char>) -> Option<Seq<char>> {
    if parts(style, s).len() > 0 {
        match parts(style, s).last() {
            Part::Normal(name) => Some(name),
            _ => None,
        }
    } else {
        None
    }
}

/// The position of the last `.`; -1 where there is none.
pub open spec fn last_dot(name: Seq<char>) -> int
    decreases name.len(),
{
    if name.len() == 0 {
        -1
    } else if name.last() == '.' {
        name.len() - 1
    } else {
        last_dot(name.drop_last())
    }
}

/// A file name without its extension.
pub open spec fn stem_of(name: Seq<char>) -> Seq<char> {
    if last_dot(name) > 0 {
        name.take(last_dot(name))
    } else {
        name
    }
}

/// What stands behind the last `.` of a file name that does not begin with it.
pub open spec fn extension_of(name: Seq<char>) -> Option<Seq<char>> {
    if last_dot(name) > 0 {
        Some(name.skip(last_dot(name) + 1))
    } else {
        None
    }
}

/// Where the last `.` stands.
pub proof fn last_dot_is_a_dot(name: Seq<char>)
    ensures
        -1 <= last_dot(name) < name.len(),
        last_dot(name) >= 0 ==> name[last_dot(name)] == '.',
        forall|i: int| last_dot(name) < i < name.len() ==> name[i] != '.',
    decreases name.len(),
{
    if name.len() > 0 && name.last() != '.' {
        last_dot_is_a_dot(name.drop_last());
        assert forall|i: int| last_dot(name) < i < name.len() implies name[i] != '.' by {
            if i < name.len() - 1 {
                assert(name.drop_last()[i] == name[i]);
            }
        }
    }
}

/// The last part of a path, where that is a name.
pub fn file_name_of(style: Style, path: &str) -> (name: Option<String>)
    ensures
        name is Some <==> file_name(style, path@) is Some,
        name is Some ==> name->0@ == file_name(style, path@)->0,
{
    let mut list = components(style, path);
    let ghost views = component_views(list@);
    match list.pop() {
        Some(last) => {
            assert(views.last() == last@);
            match last {
                Component::Normal(name) => Some(name),
                _ => None,
            }
        },
        None => None,
    }
}

fn last_dot_in(name: &[char]) -> (position: Option<usize>)
    ensures
        match position {
            Some(i) => i as int == last_dot(name@),
            None => last_dot(name@) == -1,
        },
{
    let mut end: usize = name.len();
    assert(name@.take(end as int) =~= name@);
    while end > 0
        invariant
            end <= name@.len(),
            last_dot(name@.take(end as int)) == last_dot(name@),
        decreases end,
    {
        assert(name@.take(end as int).drop_last() =~= name@.take(end as int - 1));
        if name[end - 1] == '.' {
            return Some(end - 1);
        }
        end -= 1;
    }
    None
}

/// A file name without its extension.
pub fn stem(name: &str) -> (text: String)
    ensures
        text@ == stem_of(name@),
{
    let chars = chars_of(name);
    match last_dot_in(&chars) {
        Some(i) => {
            if i > 0 {
                proof {
                    last_dot_is_a_dot(name@);
                    assert(name@.subrange(0, i as int) =~= name@.take(i as int));
                }
                string_of(slice_subrange(&chars, 0, i))
            } else {
                string_of(&chars)
            }
        },
        None => string_of(&chars),
    }
}

/// The extension of a file name.
pub fn extension(name: &str) -> (text: Option<String>)
    ensures
        text is Some <==> extension_of(name@) is Some,
        text is Some ==> text->0@ == extension_of(name@)->0,
{
    let chars = chars_of(name);
    match last_dot_in(&chars) {
        Some(i) => {
            if i > 0 {
                proof {
                    last_dot_is_a_dot(name@);
                    assert(i < chars.len());
                    assert(name@.subrange(i as int + 1, name@.len() as int) =~= name@.skip(
                        i as int + 1,
                    ));
                }
                Some(string_of(slice_subrange(&chars, i + 1, chars.len())))
            } else {
                None
            }
        },
        None => None,
    }
}

// ---------------------------------------------------------------------------
// Comparing paths
// ---------------------------------------------------------------------------

/// Whether `path` lies in `base`, part by part.
pub open spec fn lies_in(style: Style, path: Seq<char>, base: Seq<char>) -> bool {
    parts(style, base).len() <= parts(style, path).len() && parts(style, path).take(
        parts(style, base).len() as int,
    ) == parts(style, base)
}

/// Whether two texts name the same path, part by part.
pub open spec fn same_path(style: Style, a: Seq<char>, b: Seq<char>) -> bool {
    parts(style, a) == parts(style, b)
}

fn same_prefix(left: &Prefix, right: &Prefix) -> (same: bool)
    ensures
        same == (left@ == right@),
{
    match (left, right) {
        (Prefix::Verbatim(a), Prefix::Verbatim(b)) => same_text(a, b),
        (Prefix::VerbatimUnc(a, c), Prefix::VerbatimUnc(b, d)) => same_text(a, b) && same_text(
            c,
            d,
        ),
        (Prefix::VerbatimDisk(a), Prefix::VerbatimDisk(b)) => *a == *b,
        (Prefix::Device(a), Prefix::Device(b)) => same_text(a, b),
        (Prefix::Unc(a, c), Prefix::Unc(b, d)) => same_text(a, b) && same_text(c, d),
        (Prefix::Disk(a), Prefix::Disk(b)) => *a == *b,
        _ => false,
    }
}

fn same_component(left: &Component, right: &Component) -> (same: bool)
    ensures
        same == (left@ == right@),
{
    match (left, right) {
        (Component::Prefix(a), Component::Prefix(b)) => same_prefix(a, b),
        (Component::RootDir, Component::RootDir) => true,
        (Component::CurDir, Component::CurDir) => true,
        (Component::ParentDir, Component::ParentDir) => true,
        (Component::Normal(a), Component::Normal(b)) => same_text(a, b),
        _ => false,
    }
}

/// Whether the first components of `list` are those of `front`.
fn begins_with_components(list: &Vec<Component>, front: &Vec<Component>) -> (yes: bool)
    ensures
        yes == (front@.len() <= list@.len() && component_views(list@).take(front@.len() as int)
            == component_views(front@)),
{
    if front.len() > list.len() {
        return false;
    }
    for i in 0..front.len()
        invariant
            front@.len() <= list@.len(),
            forall|j: int| 0 <= j < i ==> list@[j]@ == front@[j]@,
    {
        if !same_component(&list[i], &front[i]) {
            assert(component_views(list@).take(front@.len() as int)[i as int] == list@[i as int]@);
            assert(component_views(front@)[i as int] == front@[i as int]@);
            return false;
        }
    }
    assert(component_views(list@).take(front@.len() as int) =~= component_views(front@));
    true
}

fn same_components(left: &Vec<Component>, right: &Vec<Component>) -> (same: bool)
    ensures
        same == (component_views(left@) == component_views(right@)),
{
    assert(component_views(left@).len() == left@.len());
    assert(component_views(right@).len() == right@.len());
    assert(component_views(left@).take(left@.len() as int) =~= component_views(left@));
    left.len() == right.len() && begins_with_components(left, right)
}

/// Whether `path` lies in `base`, part by part.
pub fn is_inside(style: Style, path: &str, base: &str) -> (yes: bool)
    ensures
        yes == lies_in(style, path@, base@),
{
    let path_list = components(style, path);
    let base_list = components(style, base);
    assert(component_views(path_list@).len() == path_list@.len());
    assert(component_views(base_list@).len() == base_list@.len());
    begins_with_components(&path_list, &base_list)
}

/// Whether two texts name the same path.
pub fn is_same_path(style: Style, left: &str, right: &str) -> (yes: bool)
    ensures
        yes == same_path(style, left@, right@),
{
    let left_list = components(style, left);
    let right_list = components(style, right);
    same_components(&left_list, &right_list)
}

/// Whether a path says where it is without another one.
pub fn is_absolute_path(style: Style, path: &str) -> (yes: bool)
    ensures
        yes == is_absolute(style, path@),
{
    let chars = chars_of(path);
    root_of(style, &chars) && match style {
        Style::Unix => true,
        Style::Windows => read_prefix(style, &chars).is_some(),
    }
}

fn shown_root_of(style: Style, chars: &[char]) -> (yes: bool)
    ensures
        yes == shows_root(style, chars@),
{
    let found = read_prefix(style, chars);
    proof {
        prefix_fits(style, chars@);
        assert(chars.len() == chars@.len());
    }
    let n: usize = length_of_prefix(&found);
    n < chars.len() && is_separator(separators_behind(style, &None), chars[n])
}

fn root_of(style: Style, chars: &[char]) -> (yes: bool)
    ensures
        yes == has_root(style, chars@),
{
    shown_root_of(style, chars) || has_implied_root(&read_prefix(style, chars))
}

// ---------------------------------------------------------------------------
// Putting paths together
// ---------------------------------------------------------------------------

/// The parts of a verbatim path after those of another path.
pub open spec fn pushed(list: Seq<Part>, more: Seq<Part>) -> Seq<Part>
    decreases more.len(),
{
    if more.len() == 0 {
        list
    } else {
        let before = pushed(list, more.drop_last());
        match more.last() {
            Part::RootDir => before.take(1).push(Part::RootDir),
            Part::CurDir => before,
            Part::ParentDir => if before.len() > 1 && before.last() is Normal {
                before.drop_last()
            } else {
                before
            },
            part => before.push(part),
        }
    }
}

/// How a part is written, `raw` being how the prefix is.
pub open spec fn part_text(raw: Seq<char>, part: Part) -> Seq<char> {
    match part {
        Part::Prefix(_) => raw,
        Part::RootDir => seq!['\\'],
        Part::CurDir => seq!['.'],
        Part::ParentDir => seq!['.', '.'],
        Part::Normal(name) => name,
    }
}

/// How the parts of a verbatim path are written.
pub open spec fn written(raw: Seq<char>, list: Seq<Part>) -> Seq<char>
    decreases list.len(),
{
    if list.len() == 0 {
        Seq::empty()
    } else if list.len() == 1 {
        part_text(raw, list[0])
    } else {
        let before = written(raw, list.drop_last());
        if list.last() is RootDir || list[list.len() - 2] is RootDir {
            before + part_text(raw, list.last())
        } else {
            before + seq!['\\'] + part_text(raw, list.last())
        }
    }
}

/// Whether nothing has to be put between `base` and what follows it.
pub open spec fn ends_open(style: Style, base: Seq<char>) -> bool {
    ||| base.len() == 0
    ||| separates(separators(style, None), base.last())
    ||| prefix(style, base) is Some && prefix(style, base)->0 is Disk && base.len() == 2
}

/// `relative` inside `base`; an absolute path stands for itself.
pub open spec fn join(style: Style, base: Seq<char>, relative: Seq<char>) -> Seq<char> {
    let own = prefix(style, base);
    if is_absolute(style, relative) || prefix(style, relative) is Some {
        relative
    } else if is_verbatim(own) && relative.len() > 0 {
        written(
            base.take(prefix_len(own) as int),
            pushed(parts(style, base), parts(style, relative)),
        )
    } else if has_root(style, relative) {
        base.take(prefix_len(own) as int) + relative
    } else if ends_open(style, base) {
        base + relative
    } else {
        base + seq![main_separator(style)] + relative
    }
}

fn push_part(list: &mut Vec<Component>, part: Component)
    requires
        old(list)@.len() > 0,
    ensures
        component_views(final(list)@) == pushed(component_views(old(list)@), seq![part@]),
        final(list)@.len() > 0,
{
    let ghost before = component_views(list@);
    let ghost view = part@;
    proof {
        let one = seq![view];
        assert(one.drop_last() =~= Seq::<Part>::empty());
        assert(one.last() == view);
        assert(pushed(before, one.drop_last()) == before);
        assert(before[0] == list@[0]@);
    }
    match part {
        Component::RootDir => {
            list.truncate(1);
            list.push(Component::RootDir);
            assert(component_views(list@) =~= before.take(1).push(view));
        },
        Component::CurDir => {},
        Component::ParentDir => {
            assert(before.last() == list@[list@.len() - 1]@);
            if list.len() > 1 {
                if let Component::Normal(_) = &list[list.len() - 1] {
                    list.pop();
                    assert(component_views(list@) =~= before.drop_last());
                }
            }
        },
        Component::Prefix(found) => {
            list.push(Component::Prefix(found));
            assert(component_views(list@) =~= before.push(view));
        },
        Component::Normal(name) => {
            list.push(Component::Normal(name));
            assert(component_views(list@) =~= before.push(view));
        },
    }
}

proof fn pushed_one_more(list: Seq<Part>, more: Seq<Part>, n: int)
    requires
        0 <= n < more.len(),
    ensures
        pushed(list, more.take(n + 1)) == pushed(pushed(list, more.take(n)), seq![more[n]]),
{
    assert(more.take(n + 1).drop_last() =~= more.take(n));
    let one = seq![more[n]];
    assert(one.drop_last() =~= Seq::<Part>::empty());
    assert(pushed(pushed(list, more.take(n)), one.drop_last()) == pushed(list, more.take(n)));
}

fn push_parts(list: Vec<Component>, more: Vec<Component>) -> (all: Vec<Component>)
    requires
        list@.len() > 0,
    ensures
        component_views(all@) == pushed(component_views(list@), component_views(more@)),
        all@.len() > 0,
{
    let ghost start = component_views(list@);
    let ghost views = component_views(more@);
    let mut all = list;
    let mut left = more;
    let mut ordered: Vec<Component> = Vec::new();
    let ghost n = left@.len();
    while left.len() > 0
        invariant
            n == views.len(),
            left@.len() + ordered@.len() == n,
            forall|j: int| 0 <= j < left@.len() ==> (#[trigger] left@[j])@ == views[j],
            forall|j: int|
                0 <= j < ordered@.len() ==> (#[trigger] ordered@[j])@ == views[n - 1 - j],
        decreases left@.len(),
    {
        if let Some(last) = left.pop() {
            ordered.push(last);
        }
    }
    assert(views.take(0) =~= Seq::<Part>::empty());
    while ordered.len() > 0
        invariant
            n == views.len(),
            ordered@.len() <= n,
            all@.len() > 0,
            forall|j: int|
                0 <= j < ordered@.len() ==> (#[trigger] ordered@[j])@ == views[n - 1 - j],
            component_views(all@) == pushed(start, views.take(n - ordered@.len())),
        decreases ordered@.len(),
    {
        let ghost k = n - ordered@.len();
        if let Some(part) = ordered.pop() {
            proof {
                assert(part@ == views[k]);
                pushed_one_more(start, views, k);
            }
            push_part(&mut all, part);
        }
    }
    assert(views.take(n as int) =~= views);
    all
}

fn append_part(path: &mut String, raw: &[char], part: &Component)
    ensures
        final(path)@ == old(path)@ + part_text(raw@, part@),
{
    match part {
        Component::Prefix(_) => {
            path.append(&string_of(raw));
        },
        Component::RootDir => {
            path.push('\\');
            assert(path@ =~= old(path)@ + part_text(raw@, part@));
        },
        Component::CurDir => {
            path.push('.');
            assert(path@ =~= old(path)@ + part_text(raw@, part@));
        },
        Component::ParentDir => {
            path.push('.');
            path.push('.');
            assert(path@ =~= old(path)@ + part_text(raw@, part@));
        },
        Component::Normal(name) => {
            path.append(name);
        },
    }
}

fn is_root(part: &Component) -> (yes: bool)
    ensures
        yes == (part@ is RootDir),
{
    match part {
        Component::RootDir => true,
        _ => false,
    }
}

fn write_parts(raw: &[char], list: &Vec<Component>) -> (path: String)
    ensures
        path@ == written(raw@, component_views(list@)),
{
    let ghost views = component_views(list@);
    let mut path = String::new();
    assert(views.take(0) =~= Seq::<Part>::empty());
    assert(path@ =~= written(raw@, views.take(0)));
    for i in 0..list.len()
        invariant
            views == component_views(list@),
            path@ == written(raw@, views.take(i as int)),
    {
        let ghost part = views.take(i as int + 1);
        assert(part.drop_last() =~= views.take(i as int));
        assert(part.last() == list@[i as int]@);
        assert(i > 0 ==> part[part.len() - 2] == list@[i - 1]@);
        let ghost before = path@;
        if i > 0 && !is_root(&list[i]) && !is_root(&list[i - 1]) {
            path.push('\\');
            assert(path@ =~= before + seq!['\\']);
        }
        append_part(&mut path, raw, &list[i]);
        assert(i == 0 ==> before + part_text(raw@, part[0]) =~= part_text(raw@, part[0]));
        assert(path@ =~= written(raw@, part));
    }
    assert(views.take(list@.len() as int) =~= views);
    path
}

fn is_open_end(style: Style, base: &[char]) -> (yes: bool)
    ensures
        yes == ends_open(style, base@),
{
    if base.len() == 0 {
        return true;
    }
    let set = separators_behind(style, &None);
    is_separator(set, base[base.len() - 1]) || (base.len() == 2 && matches!(
        read_prefix(style, base),
        Some(Prefix::Disk(_))
    ))
}

/// `relative` inside `base`.
pub fn joined(style: Style, base: &str, relative: &str) -> (path: String)
    ensures
        path@ == join(style, base@, relative@),
{
    let base_chars = chars_of(base);
    let relative_chars = chars_of(relative);
    if is_absolute_path(style, relative) || read_prefix(style, &relative_chars).is_some() {
        return string_of(&relative_chars);
    }
    let own = read_prefix(style, &base_chars);
    proof {
        prefix_fits(style, base@);
        assert(base_chars.len() == base_chars@.len());
    }
    let n: usize = length_of_prefix(&own);
    let raw = slice_subrange(&base_chars, 0, n);
    assert(raw@ =~= base@.take(n as int));
    if has_verbatim(&own) && relative_chars.len() > 0 {
        let list = components(style, base);
        proof {
            assert(parts(style, base@).len() > 0);
            assert(component_views(list@).len() == list@.len());
        }
        let all = push_parts(list, components(style, relative));
        return write_parts(raw, &all);
    }
    if root_of(style, &relative_chars) {
        let mut path = string_of(raw);
        path.append(relative);
        return path;
    }
    let mut path = string_of(&base_chars);
    if !is_open_end(style, &base_chars) {
        path.push(separator_of(style));
        assert(path@ =~= base@ + seq![main_separator(style)]);
    }
    path.append(relative);
    path
}

// ---------------------------------------------------------------------------
// Taking paths apart
// ---------------------------------------------------------------------------

/// The number of characters that stand before the names of a path: its prefix, and the
/// root or the leading `.`.
pub open spec fn head_len(style: Style, s: Seq<char>) -> nat {
    prefix_len(prefix(style, s)) + if shows_root(style, s) || !has_root(style, s) && body_pieces(
        style,
        s,
    )[0] == seq!['.'] {
        1nat
    } else {
        0
    }
}

/// Whether a path has names or dots behind its head.
pub open spec fn has_tail(style: Style, s: Seq<char>) -> bool {
    parts_of(is_verbatim(prefix(style, s)), body_pieces(style, s)).len() > 0
}

/// Whether the first `n` characters of a path name the folder that its last part lies
/// in. They hold its whole head, unless the last part is the head itself.
pub open spec fn ends_parent(style: Style, s: Seq<char>, n: int) -> bool {
    &&& 0 <= n <= s.len()
    &&& has_tail(style, s) ==> n >= head_len(style, s)
    &&& parts(style, s.take(n)) == parts(style, s).drop_last()
}

/// Whether a path has a last part that something else can stand in place of.
pub open spec fn has_parent(style: Style, s: Seq<char>) -> bool {
    &&& parts(style, s).len() > 0
    &&& !(parts(style, s).last() is RootDir)
    &&& !(parts(style, s).last() is Prefix)
}

/// Whether the shortest beginning that [`ends_parent`] has `n` characters.
pub open spec fn is_parent_end(style: Style, s: Seq<char>, n: int) -> bool {
    ends_parent(style, s, n) && forall|m: int| m < n ==> !ends_parent(style, s, m)
}

/// The folder that the last part of a path lies in: the shortest beginning of the
/// path that names it.
pub open spec fn parent(style: Style, s: Seq<char>) -> Option<Seq<char>> {
    if has_parent(style, s) {
        Some(s.take(choose|n: int| is_parent_end(style, s, n)))
    } else {
        None
    }
}

/// The path with another last part.
pub open spec fn with_file_name(style: Style, s: Seq<char>, name: Seq<char>) -> Seq<char> {
    match file_name(style, s) {
        Some(_) => join(style, parent(style, s)->0, name),
        None => join(style, s, name),
    }
}

proof fn first_separator_of_beginning(set: Separators, s: Seq<char>, m: int)
    requires
        0 <= m <= s.len(),
    ensures
        first_separator(set, s.take(m)) == if first_separator(set, s) < m {
            first_separator(set, s)
        } else {
            m
        },
        until(set, s.take(m)) == if first_separator(set, s) < m {
            until(set, s)
        } else {
            s.take(m)
        },
        behind(set, s.take(m)) == if first_separator(set, s) < m {
            behind(set, s).take(m - first_separator(set, s) - 1)
        } else {
            Seq::empty()
        },
{
    let f = first_separator(set, s);
    first_separator_is_first(set, s);
    let k = if f < m {
        f
    } else {
        m
    };
    let front = s.take(m);
    assert forall|i: int| 0 <= i < front.take(k).len() implies !separates(
        set,
        #[trigger] front.take(k)[i],
    ) by {
        assert(until(set, s)[i] == front.take(k)[i]);
    }
    first_separator_is(set, front, k);
    if f < m {
        assert(front.take(f) =~= until(set, s));
        assert(front.skip(f + 1) =~= s.skip(f + 1).take(m - f - 1));
    } else {
        assert(front.take(m) =~= front);
    }
}

/// A beginning of a path that holds its prefix has the same prefix.
proof fn prefix_of_beginning(style: Style, s: Seq<char>, m: int)
    requires
        prefix_len(prefix(style, s)) <= m <= s.len(),
    ensures
        prefix(style, s.take(m)) == prefix(style, s),
{
    if style == Style::Windows {
        let u = s.take(m);
        let both = Separators::Both;
        let back = Separators::Backslash;
        if begins_with_two(s) && m >= 2 {
            if begins_verbatim(s) && m >= 4 {
                let rest = s.skip(4);
                let part = u.skip(4);
                assert(part =~= rest.take(m - 4));
                first_separator_is_first(back, rest);
                first_separator_of_beginning(back, rest, m - 4);
                if begins_with_unc(rest) && m >= 8 {
                    let tail = rest.skip(4);
                    assert(part.skip(4) =~= tail.take(m - 8));
                    first_separator_is_first(back, tail);
                    first_separator_of_beginning(back, tail, m - 8);
                    let f = first_separator(back, tail);
                    if f < tail.len() {
                        first_separator_is_first(back, behind(back, tail));
                        if f < m - 8 {
                            first_separator_of_beginning(back, behind(back, tail), m - 8 - f - 1);
                        }
                    }
                    until_of_whole(back, tail);
                    until_of_whole(back, behind(back, tail));
                    until_of_whole(back, tail.take(m - 8));
                    until_of_nothing(back);
                }
                until_of_whole(back, rest);
            } else if s.len() >= 4 && s[2] == '.' && separates(both, s[3]) && m >= 4 {
                let rest = s.skip(4);
                assert(u.skip(4) =~= rest.take(m - 4));
                first_separator_is_first(both, rest);
                first_separator_of_beginning(both, rest, m - 4);
                until_of_whole(both, rest);
            } else {
                let rest = s.skip(2);
                assert(u.skip(2) =~= rest.take(m - 2));
                first_separator_is_first(both, rest);
                first_separator_of_beginning(both, rest, m - 2);
                let f = first_separator(both, rest);
                first_separator_is_first(both, behind(both, rest));
                if f < m - 2 {
                    first_separator_of_beginning(both, behind(both, rest), m - 2 - f - 1);
                }
                until_of_whole(both, behind(both, rest));
                until_of_nothing(both);
            }
        }
    }
}

proof fn until_of_nothing(set: Separators)
    ensures
        until(set, Seq::empty()).len() == 0,
        until(set, Seq::empty()) == Seq::<char>::empty(),
{
    assert(until(set, Seq::empty()) =~= Seq::<char>::empty());
}

proof fn until_of_whole(set: Separators, s: Seq<char>)
    ensures
        until(set, s).len() == first_separator(set, s),
        s.take(s.len() as int) == s,
{
    first_separator_is_first(set, s);
    assert(s.take(s.len() as int) =~= s);
}

proof fn last_separator(set: Separators, s: Seq<char>) -> (n: int)
    ensures
        -1 <= n < s.len(),
        n >= 0 ==> separates(set, s[n]),
        is_free_of(set, s.skip(n + 1)),
    decreases s.len(),
{
    if s.len() == 0 {
        -1
    } else if separates(set, s.last()) {
        s.len() - 1
    } else {
        let n = last_separator(set, s.drop_last());
        let rest = s.skip(n + 1);
        assert forall|i: int| 0 <= i < rest.len() implies !separates(set, #[trigger] rest[i]) by {
            if n + 1 + i < s.len() - 1 {
                assert(s.drop_last().skip(n + 1)[i] == rest[i]);
            }
        }
        n
    }
}

/// Where the last piece of a text goes away, its part goes away, and no other.
proof fn body_end(set: Separators, verbatim: bool, b: Seq<char>) -> (m: int)
    requires
        parts_of(verbatim, pieces(set, b)).len() > 0,
    ensures
        0 <= m <= b.len(),
        parts_of(verbatim, pieces(set, b.take(m))) == parts_of(
            verbatim,
            pieces(set, b),
        ).drop_last(),
        !verbatim && pieces(set, b)[0] == seq!['.'] ==> m >= 1,
        m == 0 || m >= first_separator(set, b),
    decreases b.len(),
{
    let empty = Seq::<char>::empty();
    let cut = last_separator(set, b);
    first_piece(set, b);
    first_separator_is_first(set, b);
    one_piece(set, empty);
    assert(seq![empty].drop_last() =~= Seq::<Seq<char>>::empty());
    reveal_with_fuel(parts_of, 3);
    assert(parts_of(verbatim, seq![empty]) =~= Seq::<Part>::empty());
    if cut < 0 {
        assert(b.skip(0) =~= b);
        one_piece(set, b);
        assert(seq![b].drop_last() =~= Seq::<Seq<char>>::empty());
        assert(b.take(0) =~= empty);
        assert(parts_of(verbatim, pieces(set, b)).drop_last() =~= Seq::<Part>::empty());
        0
    } else {
        let front = b.take(cut);
        let piece = b.skip(cut + 1);
        assert(front + seq![b[cut]] + piece =~= b);
        pieces_of_joined(set, front, b[cut], piece);
        one_piece(set, piece);
        there_is_a_piece(set, front);
        assert(pieces(set, front) + seq![piece] =~= pieces(set, front).push(piece));
        assert(pieces(set, front).push(piece).drop_last() =~= pieces(set, front));
        assert(first_separator(set, b) <= cut) by {
            if first_separator(set, b) > cut {
                assert(until(set, b)[cut] == b[cut]);
            }
        }
        match part_of(verbatim, piece) {
            Some(part) => {
                assert(parts_of(verbatim, pieces(set, b)).drop_last() =~= parts_of(
                    verbatim,
                    pieces(set, front),
                ));
                cut
            },
            None => {
                if cut == 0 {
                    assert(front =~= empty);
                }
                let m = body_end(set, verbatim, front);
                assert(front.take(m) =~= b.take(m));
                first_separator_of_beginning(set, b, cut);
                first_piece(set, front);
                if first_separator(set, b) == cut {
                    assert(front =~= until(set, b));
                }
                m
            },
        }
    }
}

proof fn parts_of_nothing(style: Style)
    ensures
        parts(style, Seq::empty()) == Seq::<Part>::empty(),
{
    let empty = Seq::<char>::empty();
    let set = separators(style, None);
    assert(body(style, empty) =~= empty);
    one_piece(set, empty);
    assert(seq![empty].drop_last() =~= Seq::<Seq<char>>::empty());
    reveal_with_fuel(parts_of, 2);
    assert(parts(style, empty) =~= Seq::<Part>::empty());
}

proof fn find_parent_end(style: Style, s: Seq<char>) -> (n: int)
    requires
        has_parent(style, s),
    ensures
        ends_parent(style, s, n),
{
    let own = prefix(style, s);
    let k = body_start(style, s) as int;
    let b = body(style, s);
    let set = separators(style, own);
    let verbatim = is_verbatim(own);
    prefix_fits(style, s);
    if !has_tail(style, s) {
        assert(parts(style, s) =~= prefix_part(own) + leading_part(style, s));
        assert(parts(style, s).last() is CurDir);
        assert(own is None);
        assert(parts(style, s).drop_last() =~= Seq::<Part>::empty());
        parts_of_nothing(style);
        assert(s.take(0) =~= Seq::<char>::empty());
        0
    } else {
        let m = body_end(set, verbatim, b);
        let n = k + m;
        let front = s.take(n);
        prefix_of_beginning(style, s, n);
        assert(body(style, front) =~= b.take(m));
        first_piece(set, b);
        first_piece(set, b.take(m));
        first_separator_is_first(set, b);
        first_separator_of_beginning(set, b, m);
        assert(shows_root(style, front) == shows_root(style, s));
        assert((pieces(set, b.take(m))[0] == seq!['.']) == (pieces(set, b)[0] == seq!['.'])
            || verbatim) by {
            if m == 0 {
                assert(b.take(0).len() == 0);
                assert(until(set, b.take(0)).len() == 0);
            } else if m == first_separator(set, b) {
                assert(b.take(m) =~= until(set, b));
            }
        }
        assert(leading_part(style, front) == leading_part(style, s));
        assert(parts(style, front) =~= parts(style, s).drop_last());
        n
    }
}

proof fn shortest_parent_end(style: Style, s: Seq<char>, n: int)
    requires
        ends_parent(style, s, n),
    ensures
        exists|m: int| is_parent_end(style, s, m),
    decreases n,
{
    if exists|m: int| m < n && ends_parent(style, s, m) {
        let m = choose|m: int| m < n && ends_parent(style, s, m);
        shortest_parent_end(style, s, m);
    } else {
        assert(is_parent_end(style, s, n));
    }
}

/// A path with a last part other than its head has a beginning that names its folder.
pub proof fn parent_exists(style: Style, s: Seq<char>)
    requires
        has_parent(style, s),
    ensures
        exists|n: int| is_parent_end(style, s, n),
{
    let n = find_parent_end(style, s);
    shortest_parent_end(style, s, n);
}

fn is_behind_head(style: Style, chars: &[char], n: usize) -> (yes: bool)
    requires
        n <= chars@.len(),
    ensures
        yes == (has_tail(style, chars@) ==> n >= head_len(style, chars@)),
{
    let found = read_prefix(style, chars);
    proof {
        prefix_fits(style, chars@);
        assert(chars.len() == chars@.len());
    }
    let shown = shown_root_of(style, chars);
    let k: usize = length_of_prefix(&found);
    let start: usize = if shown {
        k + 1
    } else {
        k
    };
    let rest = slice_subrange(chars, start, chars.len());
    assert(rest@ =~= body(style, chars@));
    let set = separators_behind(style, &found);
    let tail = body_components(set, has_verbatim(&found), rest);
    assert(component_views(tail@).len() == tail@.len());
    if tail.len() == 0 {
        return true;
    }
    let first_end = find_separator(set, rest);
    let first = slice_subrange(rest, 0, first_end);
    proof {
        assert(first@ =~= until(set, rest@));
        first_piece(set, rest@);
    }
    if shown || !root_of(style, chars) && is_dots(first, 1) {
        n > k
    } else {
        n >= k
    }
}

/// The folder that the last part of a path lies in.
pub fn parent_of(style: Style, path: &str) -> (folder: Option<String>)
    ensures
        folder is Some <==> parent(style, path@) is Some,
        folder is Some ==> folder->0@ == parent(style, path@)->0,
{
    let mut list = components(style, path);
    let ghost views = component_views(list@);
    match list.pop() {
        None => {
            return None;
        },
        Some(last) => {
            assert(views.last() == last@);
            match last {
                Component::RootDir => {
                    return None;
                },
                Component::Prefix(_) => {
                    return None;
                },
                _ => {},
            }
        },
    }
    assert(component_views(list@) =~= views.drop_last());
    let chars = chars_of(path);
    let mut n: usize = 0;
    proof {
        parent_exists(style, path@);
    }
    while n < chars.len()
        invariant
            n <= chars@.len(),
            chars@ == path@,
            component_views(list@) == parts(style, path@).drop_last(),
            exists|m: int| is_parent_end(style, path@, m),
            has_parent(style, path@),
            forall|m: int| m < n ==> !ends_parent(style, path@, m),
        decreases chars@.len() - n,
    {
        let front = slice_subrange(&chars, 0, n);
        assert(front@ =~= path@.take(n as int));
        let front_list = components_of(style, front);
        if is_behind_head(style, &chars, n) && same_components(&front_list, &list) {
            proof {
                let end = choose|m: int| is_parent_end(style, path@, m);
                assert(is_parent_end(style, path@, n as int));
                assert(end == n) by {
                    if end < n {
                        assert(!ends_parent(style, path@, end));
                    }
                    if n < end {
                        assert(!ends_parent(style, path@, n as int));
                    }
                }
            }
            return Some(string_of(front));
        }
        n += 1;
    }
    proof {
        let end = choose|m: int| is_parent_end(style, path@, m);
        assert(ends_parent(style, path@, end));
        assert(end == n);
        assert(path@.take(n as int) =~= path@);
        assert(parts(style, path@).drop_last().len() < parts(style, path@).len());
        assert(false);
    }
    None
}

/// The path with another last part.
pub fn renamed(style: Style, path: &str, name: &str) -> (result: String)
    ensures
        result@ == with_file_name(style, path@, name@),
{
    match file_name_of(style, path) {
        Some(_) => {
            match parent_of(style, path) {
                Some(folder) => joined(style, &folder, name),
                None => joined(style, path, name),
            }
        },
        None => joined(style, path, name),
    }
}

// ---------------------------------------------------------------------------
// What is put into a folder lies in it
// ---------------------------------------------------------------------------

/// Whether parts begin with a prefix that stays the same whatever is put behind them: a
/// drive, a share, a device, or one that is taken as it is written and has a root.
pub open spec fn begins_settled(list: Seq<Part>) -> bool {
    &&& list.len() > 0
    &&& match list[0] {
        Part::Prefix(PrefixView::Disk(_)) => true,
        Part::Prefix(PrefixView::Unc(_, _)) => true,
        Part::Prefix(PrefixView::Device(name)) => name.len() > 0,
        Part::Prefix(PrefixView::VerbatimUnc(_, share)) => share.len() > 0 && list.len() > 1
            && list[1] is RootDir,
        Part::Prefix(_) => list.len() > 1 && list[1] is RootDir,
        _ => false,
    }
}

/// Whether the prefix of a path stays the same whatever is put behind the path. Every
/// absolute path of a folder on a drive or a share is of this kind.
pub open spec fn is_settled(style: Style, s: Seq<char>) -> bool {
    style == Style::Windows ==> begins_settled(parts(style, s))
}

/// Whether all parts are names.
pub open spec fn are_names(list: Seq<Part>) -> bool {
    forall|i: int| 0 <= i < list.len() ==> (#[trigger] list[i]) is Normal
}

/// Whether a prefix ends before a character.
spec fn goes_on(prefix: PrefixView, c: char) -> bool {
    match prefix {
        PrefixView::Disk(_) => true,
        PrefixView::VerbatimDisk(_) => separates(Separators::Both, c),
        _ => separates(separators(Style::Windows, Some(prefix)), c),
    }
}

proof fn separator_follows_prefix(s: Seq<char>)
    requires
        windows_prefix(s) is Some,
        !(windows_prefix(s)->0 is Disk),
        prefix_len(windows_prefix(s)) < s.len(),
    ensures
        separates(Separators::Both, s[prefix_len(windows_prefix(s)) as int]),
        goes_on(windows_prefix(s)->0, s[prefix_len(windows_prefix(s)) as int]),
{
    let both = Separators::Both;
    let back = Separators::Backslash;
    first_separator_is_first(both, s.skip(2));
    first_separator_is_first(both, behind(both, s.skip(2)));
    first_separator_is_first(both, s.skip(4));
    let rest = s.skip(4);
    first_separator_is_first(back, rest);
    first_separator_is_first(back, rest.skip(4));
    first_separator_is_first(back, behind(back, rest.skip(4)));
}

/// A path that begins with the prefix of another and goes on with a separator has that
/// prefix too.
proof fn prefix_stays(s: Seq<char>, u: Seq<char>)
    requires
        windows_prefix(s) is Some,
        prefix_len(windows_prefix(s)) < u.len(),
        prefix_len(windows_prefix(s)) <= s.len(),
        u.take(prefix_len(windows_prefix(s)) as int) == s.take(
            prefix_len(windows_prefix(s)) as int,
        ),
        goes_on(windows_prefix(s)->0, u[prefix_len(windows_prefix(s)) as int]),
        is_verbatim(windows_prefix(s)) ==> prefix_len(windows_prefix(s)) < s.len(),
        match windows_prefix(s) {
            Some(PrefixView::VerbatimUnc(_, share)) => share.len() > 0,
            _ => true,
        },
    ensures
        windows_prefix(u) == windows_prefix(s),
{
    let own = windows_prefix(s);
    let n = prefix_len(own) as int;
    let both = Separators::Both;
    let back = Separators::Backslash;
    assert forall|i: int| 0 <= i < n implies s[i] == u[i] by {
        assert(s.take(n)[i] == u.take(n)[i]);
    }
    match own->0 {
        PrefixView::Disk(_) => {},
        PrefixView::Unc(server, share) => {
            let f = first_separator(both, s.skip(2));
            until_of_whole(both, s.skip(2));
            until_of_nothing(both);
            first_separator_is_first(both, s.skip(2));
            assert(f < s.skip(2).len());
            assert(s.skip(2)[f] == u.skip(2)[f]);
            same_until(both, s.skip(2), u.skip(2));
            assert(behind(both, s.skip(2)) =~= s.skip(2 + f + 1));
            assert(behind(both, u.skip(2)) =~= u.skip(2 + f + 1));
            until_of_whole(both, behind(both, s.skip(2)));
            let g = first_separator(both, behind(both, s.skip(2)));
            assert(n == 2 + f + 1 + g);
            assert(behind(both, u.skip(2))[g] == u[n]);
            same_until(both, behind(both, s.skip(2)), behind(both, u.skip(2)));
        },
        PrefixView::Device(name) => {
            until_of_whole(both, s.skip(4));
            assert(u.skip(4)[name.len() as int] == u[n]);
            same_until(both, s.skip(4), u.skip(4));
        },
        PrefixView::Verbatim(name) => {
            until_of_whole(back, s.skip(4));
            first_separator_is_first(back, s.skip(4));
            assert(s.skip(4)[name.len() as int] == s[n]);
            assert(u.skip(4)[name.len() as int] == u[n]);
            same_until(back, s.skip(4), u.skip(4));
        },
        PrefixView::VerbatimDisk(_) => {},
        PrefixView::VerbatimUnc(server, share) => {
            let a = s.skip(4).skip(4);
            let b = u.skip(4).skip(4);
            assert(a =~= s.skip(8));
            assert(b =~= u.skip(8));
            let f = first_separator(back, a);
            first_separator_is_first(back, a);
            until_of_whole(back, a);
            until_of_nothing(back);
            assert(f < a.len());
            assert(a[f] == b[f]);
            same_until(back, a, b);
            assert(behind(back, a) =~= s.skip(8 + f + 1));
            assert(behind(back, b) =~= u.skip(8 + f + 1));
            until_of_whole(back, behind(back, a));
            let g = first_separator(back, behind(back, a));
            assert(n == 8 + f + 1 + g);
            assert(behind(back, b)[g] == u[n]);
            same_until(back, behind(back, a), behind(back, b));
        },
    }
}

/// Two texts that agree up to where the first separator of the one stands, and have
/// one there, agree in what stands before it.
proof fn same_until(set: Separators, a: Seq<char>, b: Seq<char>)
    requires
        first_separator(set, a) < b.len(),
        forall|i: int| 0 <= i < first_separator(set, a) ==> a[i] == b[i],
        separates(set, b[first_separator(set, a)]),
    ensures
        first_separator(set, b) == first_separator(set, a),
        until(set, b) == until(set, a),
{
    let f = first_separator(set, a);
    first_separator_is_first(set, a);
    assert(b.take(f) =~= until(set, a));
    first_separator_is(set, b, f);
}

/// A path of names alone has no prefix and no root.
proof fn names_have_no_head(style: Style, relative: Seq<char>)
    requires
        are_names(parts(style, relative)),
    ensures
        prefix(style, relative) is None,
        leading_part(style, relative).len() == 0,
        !has_root(style, relative),
        !is_absolute(style, relative),
        body(style, relative) == relative,
        parts(style, relative) == parts_of(
            false,
            pieces(separators(style, None), relative),
        ),
{
    let own = prefix(style, relative);
    if own is Some {
        assert(parts(style, relative)[0] == Part::Prefix(own->0));
    }
    if leading_part(style, relative).len() > 0 {
        assert(parts(style, relative)[0] == leading_part(style, relative)[0]);
    }
    assert(body(style, relative) =~= relative);
    assert(parts(style, relative) =~= parts_of(
        false,
        pieces(separators(style, None), relative),
    ));
}

/// The pieces of a text that goes on behind a separator.
proof fn pieces_go_on(
    set: Separators,
    verbatim: bool,
    front: Seq<char>,
    a: Seq<char>,
    c: char,
    relative: Seq<char>,
)
    requires
        separates(set, c),
        front == a || front == a + seq![c],
    ensures
        parts_of(verbatim, pieces(set, a + seq![c] + relative)) == parts_of(
            verbatim,
            pieces(set, front),
        ) + parts_of(verbatim, pieces(set, relative)),
        pieces(set, a + seq![c] + relative)[0] == pieces(set, front)[0],
{
    let empty = Seq::<char>::empty();
    pieces_of_joined(set, a, c, relative);
    there_is_a_piece(set, a);
    parts_of_sum(verbatim, pieces(set, a), pieces(set, relative));
    if front != a {
        one_piece(set, empty);
        assert(seq![empty].drop_last() =~= Seq::<Seq<char>>::empty());
        reveal_with_fuel(parts_of, 2);
        assert(parts_of(verbatim, seq![empty]) =~= Seq::<Part>::empty());
        assert(front =~= a + seq![c] + empty);
        pieces_of_joined(set, a, c, empty);
        parts_of_sum(verbatim, pieces(set, a), pieces(set, empty));
        assert(parts_of(verbatim, pieces(set, front)) =~= parts_of(verbatim, pieces(set, a)));
    }
}

/// What is put behind a path with a separator between them goes behind its parts.
proof fn parts_of_sequel(style: Style, base: Seq<char>, whole: Seq<char>, relative: Seq<char>)
    requires
        is_settled(style, base),
        are_names(parts(style, relative)),
        is_verbatim(prefix(style, base)) ==> relative.len() == 0,
        whole == if ends_open(style, base) {
            base + relative
        } else {
            base + seq![main_separator(style)] + relative
        },
    ensures
        parts(style, whole) == parts(style, base) + parts(style, relative),
{
    let open = ends_open(style, base);
    prefix_fits(style, base);
    if open && relative.len() == 0 {
        assert(relative =~= Seq::<char>::empty());
        parts_of_nothing(style);
        assert(whole =~= base);
        assert(parts(style, base) + parts(style, relative) =~= parts(style, base));
    } else {
        sequel_keeps_prefix(style, base, whole, relative);
        if body(style, base).len() == 0 {
            sequel_of_head(style, base, whole, relative);
        } else {
            sequel_of_body(style, base, whole, relative);
        }
    }
}

proof fn sequel_of_head(style: Style, base: Seq<char>, whole: Seq<char>, relative: Seq<char>)
    requires
        is_settled(style, base),
        are_names(parts(style, relative)),
        is_verbatim(prefix(style, base)) ==> relative.len() == 0,
        body(style, base).len() == 0,
        prefix_len(prefix(style, base)) <= base.len(),
        prefix(style, whole) == prefix(style, base),
        !(ends_open(style, base) && relative.len() == 0),
        whole == if ends_open(style, base) {
            base + relative
        } else {
            base + seq![main_separator(style)] + relative
        },
    ensures
        parts(style, whole) == parts(style, base) + parts(style, relative),
{
    let empty = Seq::<char>::empty();
    let own = prefix(style, base);
    let set = separators(style, own);
    let n = prefix_len(own) as int;
    names_have_no_head(style, relative);
    assert(body(style, base) =~= empty);
    one_piece(set, empty);
    assert(seq![empty].drop_last() =~= Seq::<Seq<char>>::empty());
    reveal_with_fuel(parts_of, 2);
    assert(parts_of(is_verbatim(own), pieces(set, empty)) =~= Seq::<Part>::empty());
    if shows_root(style, base) {
        assert(base.len() == n + 1);
        assert(base.last() == base.skip(n)[0]);
        assert(ends_open(style, base));
        assert(whole.skip(n)[0] == base.skip(n)[0]);
        assert(body(style, whole) =~= relative);
    } else {
        assert(base.len() == n);
        if style == Style::Windows {
            settled_paths_have_a_prefix(base);
            ends_of_prefix(base);
        }
        if ends_open(style, base) {
            assert(whole.skip(n) =~= relative);
            assert(!shows_root(style, whole)) by {
                assert(relative.skip(0) =~= relative);
            }
        } else {
            assert(whole.skip(n)[0] == main_separator(style));
            assert(shows_root(style, whole));
        }
        assert(body(style, whole) =~= relative);
    }
    assert(!is_verbatim(own));
    assert(leading_part(style, whole) == leading_part(style, base));
    assert(parts(style, whole) =~= parts(style, base) + parts(style, relative));
}

proof fn sequel_of_body(style: Style, base: Seq<char>, whole: Seq<char>, relative: Seq<char>)
    requires
        is_settled(style, base),
        are_names(parts(style, relative)),
        is_verbatim(prefix(style, base)) ==> relative.len() == 0 && !ends_open(style, base),
        body(style, base).len() > 0,
        prefix_len(prefix(style, base)) <= base.len(),
        prefix(style, whole) == prefix(style, base),
        whole == if ends_open(style, base) {
            base + relative
        } else {
            base + seq![main_separator(style)] + relative
        },
    ensures
        parts(style, whole) == parts(style, base) + parts(style, relative),
{
    let own = prefix(style, base);
    let set = separators(style, own);
    let verbatim = is_verbatim(own);
    let open = ends_open(style, base);
    let front = body(style, base);
    let rest = body(style, whole);
    names_have_no_head(style, relative);
    if relative.len() == 0 {
        let empty = Seq::<char>::empty();
        assert(relative =~= empty);
        one_piece(set, empty);
        assert(seq![empty].drop_last() =~= Seq::<Seq<char>>::empty());
        reveal_with_fuel(parts_of, 2);
        assert(parts_of(verbatim, pieces(set, relative)) =~= Seq::<Part>::empty());
        parts_of_nothing(style);
    }
    assert(parts_of(verbatim, pieces(set, relative)) == parts(style, relative));
    let (a, c) = if open {
        (front.drop_last(), front.last())
    } else {
        (front, main_separator(style))
    };
    let n = prefix_len(own) as int;
    assert(whole.skip(n)[0] == base.skip(n)[0]);
    assert(shows_root(style, whole) == shows_root(style, base));
    assert(open ==> front.last() == base.last());
    assert(separates(set, c));
    assert(open ==> front =~= a + seq![c]);
    assert(rest =~= a + seq![c] + relative);
    pieces_go_on(set, verbatim, front, a, c, relative);
    assert(leading_part(style, whole) == leading_part(style, base));
    assert(parts(style, whole) =~= parts(style, base) + parts(style, relative));
}

proof fn sequel_keeps_prefix(style: Style, base: Seq<char>, whole: Seq<char>, relative: Seq<char>)
    requires
        is_settled(style, base),
        !(ends_open(style, base) && relative.len() == 0),
        whole == if ends_open(style, base) {
            base + relative
        } else {
            base + seq![main_separator(style)] + relative
        },
    ensures
        prefix(style, whole) == prefix(style, base),
{
    if style == Style::Windows {
        let own = windows_prefix(base);
        let n = prefix_len(own) as int;
        prefix_fits(style, base);
        settled_paths_have_a_prefix(base);
        assert(whole.take(n) =~= base.take(n));
        if base.len() > n {
            if !(own->0 is Disk) {
                separator_follows_prefix(base);
                verbatim_root(base);
            }
            assert(whole[n] == base[n]);
        } else {
            ends_of_prefix(base);
        }
        prefix_stays(base, whole);
    }
}

/// A path that is nothing but a prefix does not end in a separator.
proof fn ends_of_prefix(s: Seq<char>)
    requires
        begins_settled(parts(Style::Windows, s)),
        windows_prefix(s) is Some,
        prefix_len(windows_prefix(s)) == s.len(),
    ensures
        !is_verbatim(windows_prefix(s)),
        windows_prefix(s)->0 is Disk || !ends_open(Style::Windows, s),
{
    let both = Separators::Both;
    assert(parts(Style::Windows, s)[0] == Part::Prefix(windows_prefix(s)->0));
    let rest = body(Style::Windows, s);
    assert(rest =~= Seq::<char>::empty());
    one_piece(separators(Style::Windows, windows_prefix(s)), rest);
    assert(seq![rest].drop_last() =~= Seq::<Seq<char>>::empty());
    reveal_with_fuel(parts_of, 2);
    first_separator_is_first(both, s.skip(4));
    let after = behind(both, s.skip(2));
    first_separator_is_first(both, s.skip(2));
    first_separator_is_first(both, after);
    until_of_whole(both, s.skip(4));
    until_of_whole(both, s.skip(2));
    until_of_whole(both, after);
    match windows_prefix(s)->0 {
        PrefixView::Device(name) => {
            assert(name.last() == s.last());
            assert(!separates(both, name[name.len() - 1]));
        },
        PrefixView::Unc(server, share) => {
            assert(share.last() == s.last());
            assert(!separates(both, share[share.len() - 1]));
        },
        _ => {},
    }
}

/// A path that is taken as it is written and has a root has a separator behind its
/// prefix.
proof fn verbatim_root(s: Seq<char>)
    requires
        begins_settled(parts(Style::Windows, s)),
        windows_prefix(s) is Some,
    ensures
        is_verbatim(windows_prefix(s)) ==> shows_root(Style::Windows, s) && prefix_len(
            windows_prefix(s),
        ) < s.len(),
{
    let own = windows_prefix(s);
    prefix_fits(Style::Windows, s);
    if is_verbatim(own) {
        let all = parts(Style::Windows, s);
        assert(all[0] == Part::Prefix(own->0));
        if !shows_root(Style::Windows, s) {
            let tail = parts_of(true, body_pieces(Style::Windows, s));
            assert(leading_part(Style::Windows, s).len() == 0);
            assert(all[1] == tail[0]);
            tail_holds_no_root(true, body_pieces(Style::Windows, s));
        }
    }
}

proof fn settled_paths_have_a_prefix(s: Seq<char>)
    requires
        begins_settled(parts(Style::Windows, s)),
    ensures
        windows_prefix(s) is Some,
        parts(Style::Windows, s)[0] == Part::Prefix(windows_prefix(s)->0),
{
    let all = parts(Style::Windows, s);
    if windows_prefix(s) is None {
        let lead = leading_part(Style::Windows, s);
        let tail = parts_of(false, body_pieces(Style::Windows, s));
        tail_holds_no_root(false, body_pieces(Style::Windows, s));
        if lead.len() > 0 {
            assert(all[0] == lead[0]);
        } else {
            assert(all[0] == tail[0]);
        }
    }
}

proof fn tail_holds_no_root(verbatim: bool, list: Seq<Seq<char>>)
    ensures
        forall|i: int|
            0 <= i < parts_of(verbatim, list).len() ==> {
                &&& !((#[trigger] parts_of(verbatim, list)[i]) is RootDir)
                &&& !(parts_of(verbatim, list)[i] is Prefix)
            },
    decreases list.len(),
{
    if list.len() > 0 {
        tail_holds_no_root(verbatim, list.drop_last());
        let before = parts_of(verbatim, list.drop_last());
        assert forall|i: int| 0 <= i < parts_of(verbatim, list).len() implies {
            &&& !((#[trigger] parts_of(verbatim, list)[i]) is RootDir)
            &&& !(parts_of(verbatim, list)[i] is Prefix)
        } by {
            if i < before.len() {
                assert(parts_of(verbatim, list)[i] == before[i]);
            }
        }
    }
}

/// Whether a part can stand behind the root of a path that is taken as it is written.
pub open spec fn is_tail_part(part: Part) -> bool {
    match part {
        Part::Prefix(_) => false,
        Part::RootDir => false,
        Part::CurDir => true,
        Part::ParentDir => true,
        Part::Normal(name) => {
            &&& name.len() > 0
            &&& name != seq!['.']
            &&& name != seq!['.', '.']
            &&& is_free_of(Separators::Backslash, name)
        },
    }
}

proof fn parts_are_tail_parts(verbatim: bool, list: Seq<Seq<char>>)
    requires
        forall|i: int|
            0 <= i < list.len() ==> is_free_of(Separators::Backslash, #[trigger] list[i]),
    ensures
        forall|i: int|
            0 <= i < parts_of(verbatim, list).len() ==> is_tail_part(
                #[trigger] parts_of(verbatim, list)[i],
            ),
    decreases list.len(),
{
    if list.len() > 0 {
        let front = list.drop_last();
        assert forall|i: int| 0 <= i < front.len() implies is_free_of(
            Separators::Backslash,
            #[trigger] front[i],
        ) by {
            assert(front[i] == list[i]);
        }
        parts_are_tail_parts(verbatim, front);
        let before = parts_of(verbatim, front);
        assert(list[list.len() - 1] == list.last());
        assert forall|i: int| 0 <= i < parts_of(verbatim, list).len() implies is_tail_part(
            #[trigger] parts_of(verbatim, list)[i],
        ) by {
            if i < before.len() {
                assert(parts_of(verbatim, list)[i] == before[i]);
            }
        }
    }
}

proof fn names_are_pushed(list: Seq<Part>, more: Seq<Part>)
    requires
        are_names(more),
    ensures
        pushed(list, more) == list + more,
    decreases more.len(),
{
    if more.len() > 0 {
        let front = more.drop_last();
        assert forall|i: int| 0 <= i < front.len() implies (#[trigger] front[i]) is Normal by {
            assert(front[i] == more[i]);
        }
        names_are_pushed(list, front);
        assert(more[more.len() - 1] is Normal);
        assert(pushed(list, more) =~= list + more);
    } else {
        assert(list + more =~= list);
    }
}

/// What is written is read back.
proof fn written_is_read(raw: Seq<char>, list: Seq<Part>) -> (b: Seq<char>)
    requires
        list.len() >= 2,
        list[0] is Prefix,
        list[1] is RootDir,
        forall|i: int| 2 <= i < list.len() ==> is_tail_part(#[trigger] list[i]),
    ensures
        written(raw, list) == raw + b,
        b.len() > 0,
        b[0] == '\\',
        parts_of(true, pieces(Separators::Backslash, b)) == list.skip(2),
    decreases list.len(),
{
    let set = Separators::Backslash;
    let empty = Seq::<char>::empty();
    let root = seq!['\\'];
    let front = list.drop_last();
    one_piece(set, empty);
    assert(root =~= empty + root + empty);
    pieces_of_joined(set, empty, '\\', empty);
    assert(seq![empty] + seq![empty] =~= seq![empty, empty]);
    assert(seq![empty, empty].drop_last() =~= seq![empty]);
    assert(seq![empty].drop_last() =~= Seq::<Seq<char>>::empty());
    reveal_with_fuel(parts_of, 3);
    assert(parts_of(true, pieces(set, root)) =~= Seq::<Part>::empty());
    if list.len() == 2 {
        assert(front.len() == 1 && front[0] == list[0]);
        assert(written(raw, front) == raw);
        assert(written(raw, list) =~= raw + root);
        assert(list.skip(2) =~= Seq::<Part>::empty());
        root
    } else {
        let last = list.last();
        assert(is_tail_part(list[list.len() - 1]));
        let piece = part_text(raw, last);
        assert(is_free_of(set, piece));
        assert(part_of(true, piece) == Some(last));
        one_piece(set, piece);
        let before = written_is_read(raw, front);
        assert(list.skip(2) =~= front.skip(2).push(last));
        if list.len() == 3 {
            let b = root + piece;
            assert(written(raw, front) =~= raw + root) by {
                assert(front.drop_last().len() == 1);
                assert(written(raw, front.drop_last()) == raw);
            }
            assert(written(raw, list) =~= raw + b);
            assert(b =~= empty + root + piece);
            pieces_of_joined(set, empty, '\\', piece);
            assert(seq![empty] + seq![piece] =~= seq![empty, piece]);
            assert(seq![empty, piece].drop_last() =~= seq![empty]);
            assert(front.skip(2) =~= Seq::<Part>::empty());
            assert(parts_of(true, pieces(set, b)) =~= list.skip(2));
            b
        } else {
            let b = before + root + piece;
            assert(!(list[list.len() - 2] is RootDir)) by {
                assert(is_tail_part(list[list.len() - 2]));
            }
            assert(written(raw, list) =~= raw + b);
            pieces_of_joined(set, before, '\\', piece);
            assert(pieces(set, before) + seq![piece] =~= pieces(set, before).push(piece));
            assert(pieces(set, before).push(piece).drop_last() =~= pieces(set, before));
            assert(parts_of(true, pieces(set, b)) =~= list.skip(2));
            b
        }
    }
}

proof fn parts_of_written(base: Seq<char>, relative: Seq<char>)
    requires
        begins_settled(parts(Style::Windows, base)),
        is_verbatim(windows_prefix(base)),
        are_names(parts(Style::Windows, relative)),
        relative.len() > 0,
    ensures
        parts(Style::Windows, join(Style::Windows, base, relative)) == parts(Style::Windows, base)
            + parts(Style::Windows, relative),
{
    let style = Style::Windows;
    let own = windows_prefix(base);
    let n = prefix_len(own) as int;
    let set = Separators::Backslash;
    let head = parts(style, base);
    let more = parts(style, relative);
    let list = head + more;
    prefix_fits(style, base);
    settled_paths_have_a_prefix(base);
    verbatim_root(base);
    names_have_no_head(style, relative);
    names_are_pushed(head, more);
    let tail = parts_of(true, body_pieces(style, base));
    pieces_hold_no_separator(set, body(style, base));
    parts_are_tail_parts(true, body_pieces(style, base));
    let own_pieces = pieces(Separators::Both, relative);
    pieces_hold_no_separator(Separators::Both, relative);
    assert forall|i: int| 0 <= i < own_pieces.len() implies is_free_of(
        set,
        #[trigger] own_pieces[i],
    ) by {
        let piece = own_pieces[i];
        assert(is_free_of(Separators::Both, piece));
        assert forall|k: int| 0 <= k < piece.len() implies !separates(
            set,
            #[trigger] piece[k],
        ) by {
            assert(!separates(Separators::Both, piece[k]));
        }
    }
    parts_are_tail_parts(false, own_pieces);
    assert(head =~= seq![Part::Prefix(own->0), Part::RootDir] + tail);
    assert forall|i: int| 2 <= i < list.len() implies is_tail_part(#[trigger] list[i]) by {
        if i < head.len() {
            assert(list[i] == tail[i - 2]);
        } else {
            assert(list[i] == more[i - head.len()]);
        }
    }
    let raw = base.take(n);
    let b = written_is_read(raw, list);
    let whole = join(style, base, relative);
    assert(whole == raw + b);
    assert(whole.take(n) =~= raw);
    assert(whole[n] == b[0]);
    prefix_stays(base, whole);
    assert(whole.skip(n)[0] == b[0]);
    assert(body(style, whole) =~= b.skip(1));
    let empty = Seq::<char>::empty();
    assert(b =~= empty + seq![b[0]] + b.skip(1));
    pieces_go_on(set, true, empty, empty, b[0], b.skip(1));
    one_piece(set, empty);
    assert(seq![empty].drop_last() =~= Seq::<Seq<char>>::empty());
    reveal_with_fuel(parts_of, 2);
    assert(parts_of(true, pieces(set, empty)) =~= Seq::<Part>::empty());
    assert(parts_of(true, pieces(set, b)) =~= parts_of(true, pieces(set, b.skip(1))));
    assert(parts(style, whole) =~= list);
}

/// What is put into a folder lies in it: the parts of the two, one after the other.
pub proof fn parts_of_join(style: Style, base: Seq<char>, relative: Seq<char>)
    requires
        is_settled(style, base),
        are_names(parts(style, relative)),
    ensures
        parts(style, join(style, base, relative)) == parts(style, base) + parts(style, relative),
        lies_in(style, join(style, base, relative), base),
{
    let whole = join(style, base, relative);
    names_have_no_head(style, relative);
    if is_verbatim(prefix(style, base)) && relative.len() > 0 {
        parts_of_written(base, relative);
    } else {
        parts_of_sequel(style, base, whole, relative);
    }
    assert(parts(style, whole).take(parts(style, base).len() as int) =~= parts(style, base));
}

/// Whether a name is a path of one part, whatever else it may hold.
pub open spec fn is_plain(style: Style, name: Seq<char>) -> bool {
    parts(style, name) == seq![Part::Normal(name)]
}

/// Whether a name holds no character that is anything but a part of a name.
pub open spec fn holds_no_mark(style: Style, name: Seq<char>) -> bool {
    &&& is_free_of(separators(style, None), name)
    &&& style == Style::Windows ==> !name.contains(':')
}

/// A name without marks that is neither `.` nor `..` is a path of one part.
pub proof fn unmarked_names_are_plain(style: Style, name: Seq<char>)
    requires
        name.len() > 0,
        holds_no_mark(style, name),
        name != seq!['.'],
        name != seq!['.', '.'],
    ensures
        is_plain(style, name),
{
    let set = separators(style, None);
    assert(!separates(set, name[0]));
    if style == Style::Windows && name.len() >= 2 && name[1] == ':' {
        assert(name.contains(':'));
    }
    assert(prefix(style, name) is None);
    assert(body(style, name) =~= name);
    one_piece(set, name);
    assert(seq![name].drop_last() =~= Seq::<Seq<char>>::empty());
    reveal_with_fuel(parts_of, 2);
    assert(parts(style, name) =~= seq![Part::Normal(name)]);
}

/// A path with another name lies in the same folder, under that name.
pub proof fn renamed_paths_stay_in_their_folder(style: Style, s: Seq<char>, name: Seq<char>)
    requires
        file_name(style, s) is Some,
        is_settled(style, s),
        is_plain(style, name),
    ensures
        parts(style, with_file_name(style, s, name)) == parts(style, s).drop_last().push(
            Part::Normal(name),
        ),
        file_name(style, with_file_name(style, s, name)) == Some(name),
{
    parent_exists(style, s);
    let n = choose|n: int| is_parent_end(style, s, n);
    let folder = s.take(n);
    let all = parts(style, s);
    assert(parts(style, folder) == all.drop_last());
    if style == Style::Windows {
        settled_paths_have_a_prefix(s);
        assert(all.last() is Normal);
        assert(all.len() > 1);
        assert(all.drop_last()[0] == all[0]);
        if all[1] is RootDir {
            assert(all.len() > 2);
            assert(all.drop_last()[1] == all[1]);
        }
    }
    parts_of_join(style, folder, name);
    assert(parts(style, with_file_name(style, s, name)) =~= parts(style, s).drop_last().push(
        Part::Normal(name),
    ));
}

/// Three names with separators between them are a path of three parts.
pub proof fn three_names_are_three_parts(
    style: Style,
    first: Seq<char>,
    second: Seq<char>,
    third: Seq<char>,
)
    requires
        first.len() > 0 && holds_no_mark(style, first) && first != seq!['.'] && first != seq![
            '.',
            '.',
        ],
        second.len() > 0 && holds_no_mark(style, second) && second != seq!['.'] && second != seq![
            '.',
            '.',
        ],
        third.len() > 0 && holds_no_mark(style, third) && third != seq!['.'] && third != seq![
            '.',
            '.',
        ],
    ensures
        parts(
            style,
            first + seq![main_separator(style)] + second + seq![main_separator(style)] + third,
        ) == seq![Part::Normal(first), Part::Normal(second), Part::Normal(third)],
{
    let c = main_separator(style);
    let set = separators(style, None);
    let two = first + seq![c] + second;
    let whole = two + seq![c] + third;
    one_piece(set, first);
    one_piece(set, second);
    one_piece(set, third);
    pieces_of_joined(set, first, c, second);
    pieces_of_joined(set, two, c, third);
    let list = seq![first, second, third];
    assert(seq![first] + seq![second] + seq![third] =~= list);
    assert(whole[0] == first[0]);
    assert(!separates(set, first[0]));
    if style == Style::Windows {
        if first.len() > 1 {
            assert(whole[1] == first[1]);
            if first[1] == ':' {
                assert(first.contains(':'));
            }
        } else {
            assert(whole[1] == c);
        }
    }
    assert(prefix(style, whole) is None);
    assert(body(style, whole) =~= whole);
    assert(list.drop_last() =~= seq![first, second]);
    assert(seq![first, second].drop_last() =~= seq![first]);
    assert(seq![first].drop_last() =~= Seq::<Seq<char>>::empty());
    reveal_with_fuel(parts_of, 4);
    assert(parts(style, whole) =~= seq![
        Part::Normal(first),
        Part::Normal(second),
        Part::Normal(third),
    ]);
}

proof fn names_are_pieces(verbatim: bool, list: Seq<Seq<char>>)
    ensures
        forall|i: int|
            0 <= i < parts_of(verbatim, list).len() ==> match #[trigger] parts_of(
                verbatim,
                list,
            )[i] {
                Part::Normal(name) => list.contains(name) && name.len() > 0,
                _ => true,
            },
    decreases list.len(),
{
    if list.len() > 0 {
        let front = list.drop_last();
        names_are_pieces(verbatim, front);
        let all = parts_of(verbatim, list);
        let before = parts_of(verbatim, front);
        assert forall|i: int| 0 <= i < all.len() implies match #[trigger] all[i] {
            Part::Normal(name) => list.contains(name) && name.len() > 0,
            _ => true,
        } by {
            if i < before.len() {
                assert(all[i] == before[i]);
                match before[i] {
                    Part::Normal(name) => {
                        let k = choose|k: int| 0 <= k < front.len() && front[k] == name;
                        assert(list[k] == name);
                    },
                    _ => {},
                }
            } else {
                assert(list[list.len() - 1] == list.last());
            }
        }
    }
}

/// The name of a file holds no separator.
pub proof fn file_names_hold_no_separator(style: Style, s: Seq<char>)
    requires
        file_name(style, s) is Some,
    ensures
        is_free_of(separators(style, prefix(style, s)), file_name(style, s)->0),
{
    let own = prefix(style, s);
    let list = body_pieces(style, s);
    let tail = parts_of(is_verbatim(own), list);
    let head = prefix_part(own) + leading_part(style, s);
    names_are_pieces(is_verbatim(own), list);
    pieces_hold_no_separator(separators(style, own), body(style, s));
    let last = parts(style, s).len() - 1;
    assert(head.len() <= last) by {
        if last < head.len() {
            assert(parts(style, s)[last] == head[last]);
        }
    }
    assert(parts(style, s)[last] == tail[last - head.len()]);
    let name = file_name(style, s)->0;
    assert(list.contains(name));
    let i = choose|i: int| 0 <= i < list.len() && list[i] == name;
    assert(is_free_of(separators(style, own), list[i]));
}

/// What is put into a folder stands at the end of the path that comes of it.
pub proof fn join_keeps_the_end(style: Style, base: Seq<char>, relative: Seq<char>)
    requires
        relative.len() > 0,
        prefix(style, relative) is None,
        !has_root(style, relative),
        !separates(separators(style, None), relative.last()),
        relative.last() != '.',
    ensures
        join(style, base, relative).len() > 0,
        join(style, base, relative).last() == relative.last(),
{
    let own = prefix(style, base);
    if is_verbatim(own) {
        let set = separators(style, None);
        let list = pieces(set, relative);
        assert(body(style, relative) =~= relative);
        there_is_a_piece(set, relative.drop_last());
        let piece = list.last();
        assert(piece.last() == relative.last());
        assert(piece.len() > 0);
        let more = parts(style, relative);
        assert(parts_of(false, list).last() == Part::Normal(piece));
        assert(more.last() == Part::Normal(piece));
        let head = parts(style, base);
        let raw = base.take(prefix_len(own) as int);
        let before = pushed(head, more.drop_last());
        assert(head.len() > 0);
        pushing_keeps_some(head, more.drop_last());
        let all = pushed(head, more);
        assert(all == before.push(Part::Normal(piece)));
        assert(all.len() >= 2);
        assert(written(raw, all).last() == piece.last());
    }
}

proof fn pushing_keeps_some(list: Seq<Part>, more: Seq<Part>)
    requires
        list.len() > 0,
    ensures
        pushed(list, more).len() > 0,
    decreases more.len(),
{
    if more.len() > 0 {
        pushing_keeps_some(list, more.drop_last());
    }
}

} // verus!
