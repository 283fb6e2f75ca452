//! How paths are read, put together and taken apart.

use crate::paths;
use crate::paths::{Part, PrefixView, Separators, Style};
use crate::text;
use vstd::prelude::*;

verus! {

/// What separates the parts of a path: `/` everywhere, and `\` as well on Windows, where it is the one
/// that is written.
pub proof fn separators_are_listed(c: char)
    ensures
        paths::separates(paths::separators(Style::Unix, None), c) <==> c == '/',
        paths::separates(paths::separators(Style::Windows, None), c) <==> c == '/' || c == '\\',
        paths::separates(Separators::Backslash, c) <==> c == '\\',
        paths::main_separator(Style::Unix) == '/',
        paths::main_separator(Style::Windows) == '\\',
{
}

/// What stands between two separators: nothing or a dot stand for no part, two dots for the folder above,
/// and everything else for a name. In a verbatim path a dot is a part of its own.
pub open spec fn meaning(verbatim: bool, piece: Seq<char>) -> Seq<Part> {
    if piece.len() == 0 || piece == seq!['.'] && !verbatim {
        Seq::empty()
    } else if piece == seq!['.'] {
        seq![Part::CurDir]
    } else if piece == seq!['.', '.'] {
        seq![Part::ParentDir]
    } else {
        seq![Part::Normal(piece)]
    }
}

proof fn one_piece_has_a_meaning(verbatim: bool, piece: Seq<char>)
    ensures
        paths::parts_of(verbatim, seq![piece]) == meaning(verbatim, piece),
{
    reveal_with_fuel(paths::parts_of, 2);
    assert(seq![piece].drop_last() =~= Seq::<Seq<char>>::empty());
    assert(paths::parts_of(verbatim, seq![piece]) =~= meaning(verbatim, piece));
}

/// Whether a text holds no `/`.
pub open spec fn holds_no_slash(s: Seq<char>) -> bool {
    forall|i: int| 0 <= i < s.len() ==> (#[trigger] s[i]) != '/'
}

/// How a path is read where `/` separates its parts: a text without `/` is one part, what stands behind
/// the last `/` comes behind the parts of what stands before it, and a `/` in front is the root. A dot
/// counts in front of all others alone.
pub proof fn unix_paths_are_read_part_by_part(front: Seq<char>, last: Seq<char>)
    requires
        holds_no_slash(last),
    ensures
        last != seq!['.'] ==> paths::parts(Style::Unix, last) == meaning(false, last),
        last == seq!['.'] ==> paths::parts(Style::Unix, last) == seq![Part::CurDir],
        front.len() > 0 ==> paths::parts(Style::Unix, front + seq!['/'] + last) == paths::parts(
            Style::Unix,
            front,
        ) + meaning(false, last),
        paths::parts(Style::Unix, seq!['/'] + last) == seq![Part::RootDir] + meaning(false, last),
{
    let style = Style::Unix;
    let set = Separators::Slash;
    assert(paths::is_free_of(set, last)) by {
        assert forall|i: int| 0 <= i < last.len() implies !paths::separates(
            set,
            #[trigger] last[i],
        ) by {
            assert(last[i] != '/');
        }
    }
    paths::one_piece(set, last);
    one_piece_has_a_meaning(false, last);
    assert(last.skip(0) =~= last);
    if last.len() > 0 {
        assert(last[0] != '/');
    }
    assert(!paths::shows_root(style, last));
    assert(paths::body(style, last) =~= last);
    if last == seq!['.'] {
        assert(paths::parts(style, last) =~= seq![Part::CurDir]);
    } else {
        assert(paths::parts(style, last) =~= meaning(false, last));
    }
    let rooted = seq!['/'] + last;
    assert(rooted.skip(0) =~= rooted);
    assert(paths::shows_root(style, rooted));
    assert(paths::body(style, rooted) =~= last);
    assert(paths::parts(style, rooted) =~= seq![Part::RootDir] + meaning(false, last));
    if front.len() > 0 {
        let whole = front + seq!['/'] + last;
        assert(front.skip(0) =~= front);
        assert(whole.skip(0) =~= whole);
        assert(whole[0] == front[0]);
        assert(paths::shows_root(style, whole) == paths::shows_root(style, front));
        let own = paths::body(style, front);
        assert(paths::body(style, whole) =~= own + seq!['/'] + last);
        paths::pieces_of_joined(set, own, '/', last);
        paths::there_is_a_piece(set, own);
        paths::parts_of_sum(false, paths::pieces(set, own), seq![last]);
        assert(paths::parts(style, whole) =~= paths::parts(style, front) + meaning(false, last));
    }
}

/// A letter and a colon in front name a drive, whatever the case of the letter is; what follows is read as
/// it is without them.
pub proof fn drives_stand_in_front(letter: char, rest: Seq<char>)
    requires
        text::is_ascii_letter(letter),
        paths::prefix(Style::Windows, rest) is None,
        rest.len() > 0 ==> paths::body_pieces(Style::Windows, rest)[0] != seq!['.'],
    ensures
        paths::parts(Style::Windows, seq![letter, ':'] + rest) == seq![
            Part::Prefix(PrefixView::Disk(text::ascii_upper(letter))),
        ] + paths::parts(Style::Windows, rest),
        paths::is_absolute(Style::Windows, seq![letter, ':'] + rest) == paths::shows_root(
            Style::Windows,
            rest,
        ),
{
    let style = Style::Windows;
    let whole = seq![letter, ':'] + rest;
    assert(whole[0] == letter && whole[1] == ':');
    letters_separate_nothing(letter);
    assert(!paths::begins_with_two(whole));
    assert(paths::prefix(style, whole) == Some(PrefixView::Disk(text::ascii_upper(letter))));
    assert(whole.skip(2) =~= rest);
    assert(rest.skip(0) =~= rest);
    assert(paths::shows_root(style, whole) == paths::shows_root(style, rest));
    assert(paths::body(style, whole) =~= paths::body(style, rest));
    if rest.len() == 0 {
        assert(paths::body(style, rest) =~= Seq::<char>::empty());
        paths::one_piece(Separators::Both, Seq::empty());
    }
    assert(paths::parts(style, whole) =~= seq![
        Part::Prefix(PrefixView::Disk(text::ascii_upper(letter))),
    ] + paths::parts(style, rest));
}

/// Whether a text holds no separator of Windows.
pub open spec fn holds_no_separator(s: Seq<char>) -> bool {
    forall|i: int| 0 <= i < s.len() ==> (#[trigger] s[i]) != '/' && s[i] != '\\'
}

proof fn a_front_ends_at_a_separator(set: Separators, front: Seq<char>, rest: Seq<char>)
    requires
        holds_no_separator(front),
        rest.len() == 0 || paths::separates(set, rest[0]),
    ensures
        paths::until(set, front + rest) == front,
        paths::behind(set, front + rest) == if rest.len() == 0 {
            Seq::empty()
        } else {
            rest.skip(1)
        },
{
    let whole = front + rest;
    let n = front.len() as int;
    assert(whole.take(n) =~= front);
    assert(paths::is_free_of(set, whole.take(n))) by {
        assert forall|i: int| 0 <= i < n implies !paths::separates(
            set,
            #[trigger] whole.take(n)[i],
        ) by {
            assert(front[i] != '/' && front[i] != '\\');
        }
    }
    paths::first_separator_is(set, whole, n);
    if rest.len() > 0 {
        assert(whole.skip(n + 1) =~= rest.skip(1));
    }
}

/// Two backslashes, a server, a backslash and a share in front name a share of a server.
pub proof fn shares_stand_in_front(server: Seq<char>, share: Seq<char>, rest: Seq<char>)
    requires
        server.len() > 0,
        share.len() > 0,
        holds_no_separator(server),
        holds_no_separator(share),
        server != seq!['?'],
        server != seq!['.'],
        rest.len() == 0 || rest[0] == '/' || rest[0] == '\\',
    ensures
        paths::prefix(
            Style::Windows,
            seq!['\\', '\\'] + (server + (seq!['\\'] + (share + rest))),
        ) == Some(PrefixView::Unc(server, share)),
        paths::is_absolute(
            Style::Windows,
            seq!['\\', '\\'] + (server + (seq!['\\'] + (share + rest))),
        ),
{
    let tail = seq!['\\'] + (share + rest);
    let whole = seq!['\\', '\\'] + (server + tail);
    assert(whole[0] == '\\' && whole[1] == '\\');
    assert(whole.skip(2) =~= server + tail);
    a_front_ends_at_a_separator(Separators::Both, server, tail);
    assert(tail.skip(1) =~= share + rest);
    a_front_ends_at_a_separator(Separators::Both, share, rest);
    assert(whole[2] == server[0]);
    assert(server[0] != '/' && server[0] != '\\');
    if whole.len() >= 4 && (whole[3] == '\\' || whole[3] == '/') {
        if server.len() > 1 {
            assert(whole[3] == server[1]);
            assert(server[1] != '/' && server[1] != '\\');
        }
        assert(server =~= seq![whole[2]]);
    }
    assert(!paths::begins_verbatim(whole));
}

/// A drive may stand behind the mark of a path that is taken as it is written, with either separator or
/// nothing behind it.
pub proof fn verbatim_drives_stand_in_front(letter: char, rest: Seq<char>)
    requires
        text::is_ascii_letter(letter),
        rest.len() == 0 || rest[0] == '/' || rest[0] == '\\',
    ensures
        paths::prefix(Style::Windows, seq!['\\', '\\', '?', '\\', letter, ':'] + rest) == Some(
            PrefixView::VerbatimDisk(text::ascii_upper(letter)),
        ),
        paths::shows_root(Style::Windows, seq!['\\', '\\', '?', '\\', letter, ':'] + rest) == (
        rest.len() > 0),
{
    let whole = seq!['\\', '\\', '?', '\\', letter, ':'] + rest;
    assert(whole[0] == '\\' && whole[1] == '\\' && whole[2] == '?' && whole[3] == '\\' && whole[4]
        == letter && whole[5] == ':');
    let own = whole.skip(4);
    assert(own[0] == letter && own[1] == ':');
    assert(rest.len() > 0 ==> own[2] == rest[0]);
    assert(!paths::begins_with_unc(own));
    assert(whole.skip(6) =~= rest);
}

/// A share of a server may stand behind that mark too, with `UNC` in front of it.
pub proof fn verbatim_shares_stand_in_front(server: Seq<char>, share: Seq<char>, rest: Seq<char>)
    requires
        holds_no_separator(server),
        holds_no_separator(share),
        rest.len() == 0 || rest[0] == '\\',
    ensures
        paths::prefix(
            Style::Windows,
            seq!['\\', '\\', '?', '\\', 'U', 'N', 'C', '\\'] + (server + (seq!['\\'] + (share
                + rest))),
        ) == Some(PrefixView::VerbatimUnc(server, share)),
{
    let set = Separators::Backslash;
    let tail = seq!['\\'] + (share + rest);
    let mark = seq!['\\', '\\', '?', '\\', 'U', 'N', 'C', '\\'];
    let whole = mark + (server + tail);
    assert forall|i: int| 0 <= i < 8 implies #[trigger] whole[i] == mark[i] by {}
    assert(whole[0] == '\\' && whole[1] == '\\' && whole[2] == '?' && whole[3] == '\\');
    let own = whole.skip(4);
    assert(own[0] == whole[4] && own[1] == whole[5] && own[2] == whole[6] && own[3] == whole[7]);
    assert(own.skip(4) =~= server + tail);
    a_front_ends_at_a_separator(set, server, tail);
    assert(tail.skip(1) =~= share + rest);
    a_front_ends_at_a_separator(set, share, rest);
}

/// Whatever else stands behind that mark, up to the next `\`, is a name that is taken as it is written;
/// and what stands behind `\\.\` is the name of a device.
pub proof fn verbatim_names_stand_in_front(name: Seq<char>, rest: Seq<char>)
    requires
        holds_no_separator(name),
        name != seq!['U', 'N', 'C'],
        name.len() == 2 ==> name[1] != ':',
        rest.len() == 0 || rest[0] == '\\',
    ensures
        paths::prefix(Style::Windows, seq!['\\', '\\', '?', '\\'] + (name + rest)) == Some(
            PrefixView::Verbatim(name),
        ),
        paths::prefix(Style::Windows, seq!['\\', '\\', '.', '\\'] + (name + rest)) == Some(
            PrefixView::Device(name),
        ),
{
    let own = name + rest;
    let taken = seq!['\\', '\\', '?', '\\'] + own;
    let device = seq!['\\', '\\', '.', '\\'] + own;
    assert(taken[0] == '\\' && taken[1] == '\\' && taken[2] == '?' && taken[3] == '\\');
    assert(device[0] == '\\' && device[1] == '\\' && device[2] == '.' && device[3] == '\\');
    assert(taken.skip(4) =~= own);
    assert(device.skip(4) =~= own);
    a_front_ends_at_a_separator(Separators::Backslash, name, rest);
    a_front_ends_at_a_separator(Separators::Both, name, rest);
    assert(forall|i: int| 0 <= i < name.len() ==> own[i] == name[i]);
    assert(rest.len() > 0 ==> own[name.len() as int] == '\\');
    if paths::begins_with_unc(own) {
        if name.len() > 3 {
            assert(own[3] == name[3]);
        }
        assert(name =~= seq!['U', 'N', 'C']);
    }
    if paths::begins_with_drive(own) && (own.len() == 2 || paths::separates(
        Separators::Both,
        own[2],
    )) {
        if name.len() > 2 {
            assert(own[2] == name[2]);
        }
        if name.len() < 2 {
            assert(own[1] != ':' || name.len() == 0);
        }
        assert(name.len() != 0) by {
            if name.len() == 0 {
                assert(own[0] == '\\');
                letters_separate_nothing(own[0]);
            }
        }
    }
}

/// A prefix takes as many characters as it is written with.
pub proof fn prefixes_take_what_they_are_written_with(name: Seq<char>, share: Seq<char>, c: char)
    ensures
        paths::prefix_len(None) == 0,
        paths::prefix_len(Some(PrefixView::Disk(c))) == seq![c, ':'].len(),
        paths::prefix_len(Some(PrefixView::VerbatimDisk(c))) == seq![
            '\\',
            '\\',
            '?',
            '\\',
            c,
            ':',
        ].len(),
        paths::prefix_len(Some(PrefixView::Verbatim(name))) == (seq!['\\', '\\', '?', '\\']
            + name).len(),
        paths::prefix_len(Some(PrefixView::Device(name))) == (seq!['\\', '\\', '.', '\\']
            + name).len(),
        share.len() > 0 ==> paths::prefix_len(Some(PrefixView::Unc(name, share))) == (seq![
            '\\',
            '\\',
        ] + name + seq!['\\'] + share).len(),
        share.len() > 0 ==> paths::prefix_len(Some(PrefixView::VerbatimUnc(name, share))) == (seq![
            '\\',
            '\\',
            '?',
            '\\',
            'U',
            'N',
            'C',
            '\\',
        ] + name + seq!['\\'] + share).len(),
        share.len() == 0 ==> paths::prefix_len(Some(PrefixView::VerbatimUnc(name, share))) == (seq![
            '\\',
            '\\',
            '?',
            '\\',
            'U',
            'N',
            'C',
            '\\',
        ] + name).len(),
{
}

/// What stands behind the last separator of a path comes behind the parts of what stands before it, as long
/// as that is more than a prefix. In a path that is taken as it is written only `\` separates.
pub proof fn paths_go_on_behind_a_separator(
    style: Style,
    front: Seq<char>,
    c: char,
    last: Seq<char>,
)
    requires
        paths::prefix(style, front + seq![c] + last) == paths::prefix(style, front),
        paths::prefix_len(paths::prefix(style, front)) < front.len(),
        paths::separates(paths::separators(style, paths::prefix(style, front)), c),
        paths::is_free_of(paths::separators(style, paths::prefix(style, front)), last),
    ensures
        paths::parts(style, front + seq![c] + last) == paths::parts(style, front) + meaning(
            paths::is_verbatim(paths::prefix(style, front)),
            last,
        ),
{
    let own = paths::prefix(style, front);
    let n = paths::prefix_len(own) as int;
    let set = paths::separators(style, own);
    let verbatim = paths::is_verbatim(own);
    let whole = front + seq![c] + last;
    assert(whole.skip(n)[0] == front.skip(n)[0]);
    assert(paths::shows_root(style, whole) == paths::shows_root(style, front));
    let body = paths::body(style, front);
    assert(paths::body(style, whole) =~= body + seq![c] + last);
    paths::pieces_of_joined(set, body, c, last);
    paths::one_piece(set, last);
    one_piece_has_a_meaning(verbatim, last);
    paths::there_is_a_piece(set, body);
    paths::parts_of_sum(verbatim, paths::pieces(set, body), seq![last]);
    assert(paths::parts(style, whole) =~= paths::parts(style, front) + meaning(verbatim, last));
}

proof fn letters_separate_nothing(c: char)
    requires
        text::is_ascii_letter(c),
    ensures
        c != '/',
        c != '\\',
{
}

/// A path lies in a folder where its parts begin with those of the folder; it is the same path where they
/// are the same.
pub proof fn paths_lie_in_folders_by_their_parts(
    style: Style,
    path: Seq<char>,
    folder: Seq<char>,
    rest: Seq<Part>,
)
    ensures
        paths::parts(style, path) == paths::parts(style, folder) + rest ==> paths::lies_in(
            style,
            path,
            folder,
        ),
        paths::lies_in(style, path, folder) ==> paths::parts(style, path) == paths::parts(
            style,
            folder,
        ) + paths::parts(style, path).skip(paths::parts(style, folder).len() as int),
        paths::same_path(style, path, folder) <==> paths::lies_in(style, path, folder)
            && paths::lies_in(style, folder, path),
        paths::lies_in(style, path, path),
{
    let p = paths::parts(style, path);
    let f = paths::parts(style, folder);
    if p == f + rest {
        assert(p.take(f.len() as int) =~= f);
    }
    if paths::lies_in(style, path, folder) {
        assert(p =~= p.take(f.len() as int) + p.skip(f.len() as int));
    }
    assert(p.take(p.len() as int) =~= p);
    if paths::lies_in(style, path, folder) && paths::lies_in(style, folder, path) {
        assert(p.len() == f.len());
    }
    if p == f {
        assert(f.take(p.len() as int) =~= f);
    }
}

/// The name of a file is the last part of its path, where that is a name.
pub proof fn the_last_name_is_the_file(style: Style, path: Seq<char>, name: Seq<char>)
    ensures
        paths::file_name(style, path) == Some(name) <==> paths::parts(style, path).len() > 0
            && paths::parts(style, path).last() == Part::Normal(name),
{
}

/// The folder of a path has all its parts but the last, and is a beginning of the path; a root and a drive
/// lie in no folder.
pub proof fn folders_have_all_parts_but_the_last(style: Style, path: Seq<char>)
    ensures
        paths::parent(style, path) is Some <==> paths::parts(style, path).len() > 0 && !(paths::parts(
            style,
            path,
        ).last() is RootDir) && !(paths::parts(style, path).last() is Prefix),
        paths::parent(style, path) is Some ==> {
            let folder = paths::parent(style, path)->0;
            &&& paths::parts(style, folder) == paths::parts(style, path).drop_last()
            &&& folder.len() <= path.len()
            &&& folder == path.take(folder.len() as int)
        },
{
    if paths::has_parent(style, path) {
        paths::parent_exists(style, path);
        let n = choose|n: int| paths::is_parent_end(style, path, n);
        assert(path.take(n).len() == n);
    }
}

/// A relative path is put behind a folder with one `/` between them, and an absolute one stands for itself.
pub proof fn unix_paths_are_put_together(folder: Seq<char>, relative: Seq<char>)
    ensures
        relative.len() > 0 && relative[0] == '/' ==> paths::join(Style::Unix, folder, relative)
            == relative,
        (relative.len() == 0 || relative[0] != '/') && folder.len() > 0 && folder.last() != '/'
            ==> paths::join(Style::Unix, folder, relative) == folder + seq!['/'] + relative,
        (relative.len() == 0 || relative[0] != '/') && folder.len() > 0 && folder.last() == '/'
            ==> paths::join(Style::Unix, folder, relative) == folder + relative,
        (relative.len() == 0 || relative[0] != '/') && folder.len() == 0 ==> paths::join(
            Style::Unix,
            folder,
            relative,
        ) == relative,
        paths::is_absolute(Style::Unix, relative) <==> relative.len() > 0 && relative[0] == '/',
{
    assert(relative.skip(0) =~= relative);
    if folder.len() == 0 {
        assert(folder + relative =~= relative);
    }
}

/// What is put into a folder lies in it, under its name.
pub proof fn what_is_put_into_a_folder_is_there(
    style: Style,
    folder: Seq<char>,
    name: Seq<char>,
)
    requires
        paths::is_settled(style, folder),
        paths::parts(style, name) == seq![Part::Normal(name)],
    ensures
        paths::parts(style, paths::join(style, folder, name)) == paths::parts(style, folder).push(
            Part::Normal(name),
        ),
        paths::file_name(style, paths::join(style, folder, name)) == Some(name),
{
    paths::parts_of_join(style, folder, name);
    assert(paths::parts(style, folder) + seq![Part::Normal(name)] =~= paths::parts(
        style,
        folder,
    ).push(Part::Normal(name)));
}

} // verus!
