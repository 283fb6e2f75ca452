//! Which host names and addresses mean this computer.

use crate::text;
use vstd::prelude::*;

verus! {

// ---------------------------------------------------------------------------
// Splitting
// ---------------------------------------------------------------------------

/// What stands between the separators of a text, from the first on: one piece more
/// than there are separators.
pub open spec fn split(s: Seq<char>, separator: char) -> Seq<Seq<char>>
    decreases s.len(),
{
    if s.len() == 0 {
        seq![Seq::<char>::empty()]
    } else {
        let before = split(s.drop_last(), separator);
        if s.last() == separator {
            before.push(Seq::<char>::empty())
        } else {
            before.update(before.len() - 1, before.last().push(s.last()))
        }
    }
}

/// What some pieces stand for.
pub open spec fn piece_views(pieces: Seq<Vec<char>>) -> Seq<Seq<char>> {
    Seq::new(pieces.len(), |i: int| pieces[i]@)
}

fn split_at(chars: &[char], separator: char) -> (pieces: Vec<Vec<char>>)
    ensures
        piece_views(pieces@) == split(chars@, separator),
        pieces@.len() > 0,
{
    let mut pieces: Vec<Vec<char>> = Vec::new();
    let mut piece: Vec<char> = Vec::new();
    assert(chars@.take(0) =~= Seq::<char>::empty());
    assert(piece_views(pieces@).push(piece@) =~= split(chars@.take(0), separator));
    for i in 0..chars.len()
        invariant
            piece_views(pieces@).push(piece@) == split(chars@.take(i as int), separator),
    {
        let ghost part = chars@.take(i as int + 1);
        assert(part.drop_last() =~= chars@.take(i as int));
        assert(part.last() == chars@[i as int]);
        let ghost before = piece_views(pieces@);
        let ghost last = piece@;
        assert(before.push(last).last() == last);
        if chars[i] == separator {
            pieces.push(piece);
            piece = Vec::new();
            assert(piece_views(pieces@) =~= before.push(last));
            assert(piece_views(pieces@).push(piece@) =~= split(part, separator));
        } else {
            piece.push(chars[i]);
            assert(piece_views(pieces@).push(piece@) =~= split(part, separator));
        }
    }
    assert(chars@.take(chars@.len() as int) =~= chars@);
    let ghost before = piece_views(pieces@);
    let ghost last = piece@;
    pieces.push(piece);
    assert(piece_views(pieces@) =~= before.push(last));
    pieces
}

// ---------------------------------------------------------------------------
// Version 4
// ---------------------------------------------------------------------------

/// Whether a text is a number that fits a byte, written without leading zeros.
pub open spec fn is_byte(s: Seq<char>) -> bool {
    exists|n: nat| n <= 255 && s == #[trigger] text::decimal(n)
}

/// Whether a text is an address of version 4 that means this computer: four bytes with
/// dots between them, the first of them 127.
pub open spec fn is_loopback_v4(s: Seq<char>) -> bool {
    let pieces = split(s, '.');
    &&& pieces.len() == 4
    &&& pieces[0] == text::decimal(127)
    &&& is_byte(pieces[1])
    &&& is_byte(pieces[2])
    &&& is_byte(pieces[3])
}

// ---------------------------------------------------------------------------
// Version 6
// ---------------------------------------------------------------------------

/// Whether a text is a group of an address of version 6 that is zero.
pub open spec fn is_zero_group(s: Seq<char>) -> bool {
    &&& 1 <= s.len() <= 4
    &&& forall|i: int| 0 <= i < s.len() ==> s[i] == '0'
}

/// Whether a text is a group of an address of version 6 that is one.
pub open spec fn is_one_group(s: Seq<char>) -> bool {
    &&& 1 <= s.len() <= 4
    &&& s.last() == '1'
    &&& forall|i: int| 0 <= i < s.len() - 1 ==> s[i] == '0'
}

/// The number of groups for which the last piece of an address stands, where they make
/// one: it is the last group, or the last two as an address of version 4. Else none.
pub open spec fn last_groups(s: Seq<char>) -> nat {
    if is_one_group(s) {
        1
    } else if s == "0.0.0.1"@ {
        2
    } else {
        0
    }
}

/// Whether all pieces but the one at position `k` are zero groups.
pub open spec fn zeros_but(pieces: Seq<Seq<char>>, k: int) -> bool {
    forall|i: int| 0 <= i < pieces.len() && i != k ==> is_zero_group(#[trigger] pieces[i])
}

/// Whether the pieces of an address before its last are zero groups, `missing` of them
/// left out: none, or at least one in a place where two colons follow each other.
pub open spec fn are_zeros(pieces: Seq<Seq<char>>, missing: int) -> bool {
    ||| missing == 0 && zeros_but(pieces, -1)
    ||| {
        &&& missing >= 1
        &&& exists|k: int|
            0 < k < pieces.len() && (#[trigger] pieces[k]).len() == 0 && zeros_but(pieces, k)
    }
    ||| {
        &&& missing >= 1
        &&& pieces.len() >= 2
        &&& pieces[0].len() == 0
        &&& pieces[1].len() == 0
        &&& zeros_but(pieces.drop_first(), 0)
    }
}

/// The number of zero groups that the pieces before the last write out.
pub open spec fn written_zeros(pieces: Seq<Seq<char>>) -> nat
    decreases pieces.len(),
{
    if pieces.len() == 0 {
        0
    } else {
        written_zeros(pieces.drop_last()) + if pieces.last().len() == 0 {
            0nat
        } else {
            1
        }
    }
}

/// Whether a text is an address of version 6 that means this computer: eight groups
/// with colons between them, all zero but the last, which is one.
pub open spec fn is_loopback_v6(s: Seq<char>) -> bool {
    let pieces = split(s, ':');
    let front = pieces.drop_last();
    &&& last_groups(pieces.last()) > 0
    &&& are_zeros(front, 8 - last_groups(pieces.last()) - written_zeros(front))
}

// ---------------------------------------------------------------------------
// Hosts
// ---------------------------------------------------------------------------

/// A host without the brackets round an address and without the dots at its end.
pub open spec fn bare_host(host: Seq<char>) -> Seq<char> {
    text::trim_end_any(text::trim_end_any(text::trim_start_any(host, seq!['[']), seq![']']), seq!['.'])
}

/// Whether a host means this computer.
pub open spec fn is_loopback(host: Seq<char>) -> bool {
    let bare = bare_host(host);
    ||| text::ascii_lower_text(bare) == "localhost"@
    ||| is_loopback_v4(bare)
    ||| is_loopback_v6(bare)
}

/// The number that some decimal digits stand for.
spec fn number(s: Seq<char>) -> int
    decreases s.len(),
{
    if s.len() == 0 {
        0
    } else {
        10 * number(s.drop_last()) + (s.last() as int - 48)
    }
}

proof fn number_of_decimal(n: nat)
    ensures
        number(text::decimal(n)) == n,
    decreases n,
{
    let s = text::decimal(n);
    if n < 10 {
        assert(s.drop_last() =~= Seq::<char>::empty());
        assert(number(s.drop_last()) == 0);
        assert(s.last() as int == 48 + n);
    } else {
        number_of_decimal(n / 10);
        assert(s.drop_last() =~= text::decimal(n / 10));
        assert(s.last() as int == 48 + n % 10);
    }
}

fn is_byte_text(piece: &[char]) -> (yes: bool)
    ensures
        yes == is_byte(piece@),
{
    proof {
        if is_byte(piece@) {
            let n = choose|n: nat| n <= 255 && piece@ == #[trigger] text::decimal(n);
            reveal_with_fuel(text::decimal, 4);
            text::decimal_is_digits(n);
            number_of_decimal(n);
        }
    }
    if piece.len() > 3 {
        return false;
    }
    let mut value: u32 = 0;
    assert(piece@.take(0) =~= Seq::<char>::empty());
    for i in 0..piece.len()
        invariant
            piece@.len() <= 3,
            value as int == number(piece@.take(i as int)),
            i == 0 ==> value == 0,
            i == 1 ==> value <= 9,
            i == 2 ==> value <= 99,
            i == 3 ==> value <= 999,
            is_byte(piece@) ==> forall|j: int|
                0 <= j < piece@.len() ==> text::is_ascii_digit(#[trigger] piece@[j]),
    {
        let ghost part = piece@.take(i as int + 1);
        assert(part.drop_last() =~= piece@.take(i as int));
        assert(part.last() == piece@[i as int]);
        let code: u32 = text::char_code(piece[i]);
        if code < 48 || code > 57 {
            assert(!text::is_ascii_digit(piece@[i as int]));
            return false;
        }
        value = value * 10 + (code - 48);
    }
    assert(piece@.take(piece@.len() as int) =~= piece@);
    if value > 255 {
        return false;
    }
    let written = text::decimal_of(value as u64);
    let written_chars = text::chars_of(&written);
    text::same_chars(piece, &written_chars)
}

fn is_v4_text(bare: &[char]) -> (yes: bool)
    ensures
        yes == is_loopback_v4(bare@),
{
    let pieces = split_at(bare, '.');
    if pieces.len() != 4 {
        return false;
    }
    let ghost views = piece_views(pieces@);
    assert(views[0] == pieces@[0]@ && views[1] == pieces@[1]@ && views[2] == pieces@[2]@ && views[3]
        == pieces@[3]@);
    let first = text::decimal_of(127);
    let first_chars = text::chars_of(&first);
    text::same_chars(&pieces[0], &first_chars) && is_byte_text(&pieces[1]) && is_byte_text(&pieces[2])
        && is_byte_text(&pieces[3])
}

fn is_zero_text(piece: &[char]) -> (yes: bool)
    ensures
        yes == is_zero_group(piece@),
{
    if piece.len() == 0 || piece.len() > 4 {
        return false;
    }
    for i in 0..piece.len()
        invariant
            forall|j: int| 0 <= j < i ==> piece@[j] == '0',
    {
        if piece[i] != '0' {
            return false;
        }
    }
    true
}

fn is_one_text(piece: &[char]) -> (yes: bool)
    ensures
        yes == is_one_group(piece@),
{
    if piece.len() == 0 || piece.len() > 4 {
        return false;
    }
    let last: usize = piece.len() - 1;
    for i in 0..last
        invariant
            last == piece@.len() - 1,
            forall|j: int| 0 <= j < i ==> piece@[j] == '0',
    {
        if piece[i] != '0' {
            return false;
        }
    }
    piece[last] == '1'
}

/// Whether all pieces from `from` on are zero groups, except that at position `k` and
/// the last.
fn zeros_from(pieces: &Vec<Vec<char>>, from: usize, k: usize) -> (yes: bool)
    requires
        from < pieces@.len(),
    ensures
        yes == forall|i: int|
            from <= i < pieces@.len() - 1 && i != k ==> is_zero_group(
                #[trigger] piece_views(pieces@).drop_last()[i],
            ),
{
    let ghost front = piece_views(pieces@).drop_last();
    let mut i: usize = from;
    while i < pieces.len() - 1
        invariant
            from <= i < pieces@.len(),
            front == piece_views(pieces@).drop_last(),
            forall|j: int| from <= j < i && j != k ==> is_zero_group(#[trigger] front[j]),
        decreases pieces@.len() - i,
    {
        assert(front[i as int] == pieces@[i as int]@);
        if i != k && !is_zero_text(&pieces[i]) {
            return false;
        }
        i += 1;
    }
    true
}

/// The number of groups for which the last piece stands.
fn last_groups_of(piece: &[char]) -> (groups: usize)
    ensures
        groups as nat == last_groups(piece@),
{
    if is_one_text(piece) {
        1
    } else {
        let written = text::chars_of("0.0.0.1");
        if text::same_chars(piece, &written) {
            2
        } else {
            0
        }
    }
}

/// The number of zero groups that are written out, and the first empty piece after the
/// first one, where there is one before the last.
fn survey(pieces: &Vec<Vec<char>>) -> (found: (usize, usize))
    requires
        pieces@.len() > 0,
    ensures
        ({
            let front = piece_views(pieces@).drop_last();
            let (written, gap) = found;
            &&& written as nat == written_zeros(front)
            &&& written < pieces@.len()
            &&& gap == front.len() || 0 < gap < front.len() && front[gap as int].len() == 0
            &&& forall|j: int| 0 < j < gap ==> (#[trigger] front[j]).len() > 0
        }),
{
    let ghost front = piece_views(pieces@).drop_last();
    let end: usize = pieces.len() - 1;
    let mut written: usize = 0;
    let mut gap: usize = end;
    let mut i: usize = 0;
    assert(front.take(0) =~= Seq::<Seq<char>>::empty());
    while i < end
        invariant
            i <= end,
            end == pieces@.len() - 1,
            front == piece_views(pieces@).drop_last(),
            written as nat == written_zeros(front.take(i as int)),
            written <= i,
            gap == end || 0 < gap < i && front[gap as int].len() == 0,
            forall|j: int| 0 < j < i && j < gap ==> (#[trigger] front[j]).len() > 0,
        decreases end - i,
    {
        assert(front.take(i as int + 1).drop_last() =~= front.take(i as int));
        assert(front.take(i as int + 1).last() == front[i as int]);
        assert(front[i as int] == pieces@[i as int]@);
        if pieces[i].len() > 0 {
            written += 1;
        } else if i > 0 && gap == end {
            gap = i;
        }
        i += 1;
    }
    assert(front.take(end as int) =~= front);
    (written, gap)
}

fn is_v6_text(bare: &[char]) -> (yes: bool)
    ensures
        yes == is_loopback_v6(bare@),
{
    let pieces = split_at(bare, ':');
    let ghost views = piece_views(pieces@);
    let ghost front = views.drop_last();
    let end: usize = pieces.len() - 1;
    assert(views.last() == pieces@[end as int]@);
    let width: usize = last_groups_of(&pieces[end]);
    if width == 0 {
        return false;
    }
    let (written, gap) = survey(&pieces);
    let complete = written <= 6 && written + width == 8 || written == 7 && width == 1;
    let incomplete = written <= 6 && written + width <= 7;
    let ghost missing = 8 - width - written;
    if end >= 2 && pieces[0].len() == 0 {
        assert(front[0] == pieces@[0]@ && front[1] == pieces@[1]@);
        let yes = incomplete && pieces[1].len() == 0 && zeros_from(&pieces, 2, end);
        proof {
            let rest = front.drop_first();
            if yes {
                assert forall|i: int| 0 <= i < rest.len() && i != 0 implies is_zero_group(
                    #[trigger] rest[i],
                ) by {
                    assert(rest[i] == front[i + 1]);
                }
            }
            if are_zeros(front, missing) {
                assert(!zeros_but(front, -1)) by {
                    assert(!is_zero_group(front[0]));
                }
                assert(zeros_but(rest, 0));
                assert forall|i: int| 2 <= i < front.len() && i != end implies is_zero_group(
                    #[trigger] front[i],
                ) by {
                    assert(rest[i - 1] == front[i]);
                }
            }
        }
        yes
    } else if gap == end {
        let yes = complete && zeros_from(&pieces, 0, end);
        proof {
            if yes {
                assert(zeros_but(front, -1));
            }
            if are_zeros(front, missing) {
                assert(zeros_but(front, -1));
                assert forall|i: int| 0 <= i < front.len() && i != end implies is_zero_group(
                    #[trigger] front[i],
                ) by {}
            }
        }
        yes
    } else {
        let yes = incomplete && zeros_from(&pieces, 0, gap);
        proof {
            if yes {
                assert(zeros_but(front, gap as int));
            }
            if are_zeros(front, missing) {
                assert(!is_zero_group(front[gap as int]));
                assert(!zeros_but(front, -1));
                let k = choose|k: int|
                    0 < k < front.len() && (#[trigger] front[k]).len() == 0 && zeros_but(front, k);
                assert(k == gap);
            }
        }
        yes
    }
}

/// Whether a host means this computer.
pub fn is_loopback_host(host: &str) -> (yes: bool)
    ensures
        yes == is_loopback(host@),
{
    let chars = text::chars_of(host);
    let opening = ['['];
    let closing = [']'];
    let dot = ['.'];
    assert(opening@ =~= seq!['['] && closing@ =~= seq![']'] && dot@ =~= seq!['.']);
    let bare = text::trimmed_end_any(
        text::trimmed_end_any(text::trimmed_start_any(&chars, &opening), &closing),
        &dot,
    );
    let localhost = text::chars_of("localhost");
    let lowered = text::lowered_ascii(bare);
    text::same_chars(&lowered, &localhost) || is_v4_text(bare) || is_v6_text(bare)
}

} // verus!
