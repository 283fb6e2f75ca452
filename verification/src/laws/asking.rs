//! What the model is told and asked.

use crate::batches;
use crate::endpoints;
use crate::json;
use crate::laws::texts;
use crate::records::{AiSettings, ContextView, SortSettings};
use crate::requests;
use crate::text;
use vstd::prelude::*;

verus! {

// ---------------------------------------------------------------------------
// Strings
// ---------------------------------------------------------------------------

/// The number that a hexadecimal digit stands for.
pub open spec fn digit_value(c: char) -> int {
    if '0' <= c && c <= '9' {
        c as int - '0' as int
    } else {
        c as int - 'a' as int + 10
    }
}

/// The character that a mark behind a backslash stands for.
pub open spec fn marked(mark: char) -> char {
    if mark == 'b' {
        8 as char
    } else if mark == 't' {
        9 as char
    } else if mark == 'n' {
        10 as char
    } else if mark == 'f' {
        12 as char
    } else if mark == 'r' {
        13 as char
    } else {
        mark
    }
}

/// What the inside of a JSON string says, read from its front; nothing where it is no inside
/// of a JSON string.
pub open spec fn read_string(s: Seq<char>) -> Option<Seq<char>>
    decreases s.len(),
{
    if s.len() == 0 {
        Some(Seq::empty())
    } else if s[0] == '"' || (s[0] as int) < 32 {
        None
    } else if s[0] != '\\' {
        match read_string(s.skip(1)) {
            Some(rest) => Some(seq![s[0]] + rest),
            None => None,
        }
    } else if s.len() >= 6 && s[1] == 'u' {
        match read_string(s.skip(6)) {
            Some(rest) => Some(
                seq![
                    (4096 * digit_value(s[2]) + 256 * digit_value(s[3]) + 16 * digit_value(s[4])
                        + digit_value(s[5])) as char,
                ] + rest,
            ),
            None => None,
        }
    } else if s.len() >= 2 && s[1] != 'u' {
        match read_string(s.skip(2)) {
            Some(rest) => Some(seq![marked(s[1])] + rest),
            None => None,
        }
    } else {
        None
    }
}

proof fn escaped_from_the_front(s: Seq<char>)
    requires
        s.len() > 0,
    ensures
        json::escaped(s) == json::escape(s[0]) + json::escaped(s.skip(1)),
    decreases s.len(),
{
    let tail = s.skip(1);
    if s.len() == 1 {
        assert(s.drop_last() =~= Seq::<char>::empty());
        assert(tail =~= Seq::<char>::empty());
        assert(json::escaped(s) =~= json::escape(s[0]) + json::escaped(tail));
    } else {
        let front = s.drop_last();
        escaped_from_the_front(front);
        assert(front.skip(1) =~= tail.drop_last());
        assert(tail.last() == s.last());
        assert(front[0] == s[0]);
        assert(json::escaped(s) =~= json::escape(s[0]) + json::escaped(tail));
    }
}

proof fn an_escape_is_read(c: char, rest: Seq<char>)
    requires
        read_string(rest) is Some,
    ensures
        read_string(json::escape(c) + rest) == Some(seq![c] + read_string(rest)->0),
{
    let e = json::escape(c);
    let s = e + rest;
    assert(s.skip(e.len() as int) =~= rest);
    let u = c as u32;
    if e.len() == 6 {
        assert(s[0] == '\\' && s[1] == 'u' && s[2] == '0' && s[3] == '0');
        assert(s[4] == json::hex_digit(u as int / 16));
        assert(s[5] == json::hex_digit(u as int % 16));
        assert(digit_value(s[4]) == u as int / 16);
        assert(digit_value(s[5]) == u as int % 16);
    } else if e.len() == 2 {
        assert(s[0] == '\\' && s[1] == e[1]);
    } else {
        assert(s[0] == c);
    }
}

/// A text that is written as a JSON string is read as that text: nothing of it is lost,
/// and nothing in it ends the string or is left as a control character.
pub proof fn strings_are_read_back(s: Seq<char>)
    ensures
        json::quoted(s)[0] == '"',
        json::quoted(s).last() == '"',
        json::quoted(s).len() >= 2,
        read_string(json::quoted(s).subrange(1, json::quoted(s).len() - 1)) == Some(s),
{
    inside_is_read_back(s);
    assert(json::quoted(s).subrange(1, json::quoted(s).len() - 1) =~= json::escaped(s));
}

proof fn inside_is_read_back(s: Seq<char>)
    ensures
        read_string(json::escaped(s)) == Some(s),
    decreases s.len(),
{
    if s.len() == 0 {
        assert(s =~= Seq::<char>::empty());
    } else {
        escaped_from_the_front(s);
        inside_is_read_back(s.skip(1));
        an_escape_is_read(s[0], json::escaped(s.skip(1)));
        assert(seq![s[0]] + s.skip(1) =~= s);
    }
}

/// A text that is missing is told apart from every text.
pub proof fn missing_texts_are_null(s: Seq<char>)
    ensures
        json::quoted_or_null(None) == "null"@,
        json::quoted_or_null(Some(s)) == json::quoted(s),
        json::quoted_or_null(Some(s)) != json::quoted_or_null(None),
{
    reveal_strlit("null");
    assert("null"@[0] == 'n');
    strings_are_read_back(s);
}

// ---------------------------------------------------------------------------
// Objects
// ---------------------------------------------------------------------------

/// The object of a file tells its id, path, extension, size, dates, suggestion, text and
/// the state of its text, each under its own name and in this order.
pub proof fn objects_tell_everything(context: ContextView)
    ensures
        text::starts_with(
            json::context_json(context),
            "{\"id\":"@ + json::quoted(context.id) + ",\"path\":"@,
        ),
        text::contains(
            json::context_json(context),
            ",\"path\":"@ + json::quoted(context.path) + ",\"extension\":"@,
        ),
        text::contains(
            json::context_json(context),
            ",\"extension\":"@ + json::quoted(context.extension) + ",\"sizeBytes\":"@,
        ),
        text::contains(
            json::context_json(context),
            ",\"sizeBytes\":"@ + text::decimal(context.size_bytes as nat) + ",\"createdAt\":"@,
        ),
        text::contains(
            json::context_json(context),
            ",\"createdAt\":"@ + json::quoted_or_null(context.created_at) + ",\"modifiedAt\":"@,
        ),
        text::contains(
            json::context_json(context),
            ",\"modifiedAt\":"@ + json::quoted_or_null(context.modified_at)
                + ",\"suggestedCategory\":"@,
        ),
        text::contains(
            json::context_json(context),
            ",\"suggestedCategory\":"@ + json::quoted(context.suggested_category)
                + ",\"contentExtract\":"@,
        ),
        text::contains(
            json::context_json(context),
            ",\"contentExtract\":"@ + json::quoted_or_null(context.content_extract)
                + ",\"contentStatus\":"@,
        ),
        text::ends_with(
            json::context_json(context),
            ",\"contentStatus\":"@ + json::quoted(context.content_status) + "}"@,
        ),
{
    let v0 = json::quoted(context.id);
    let v1 = json::quoted(context.path);
    let v2 = json::quoted(context.extension);
    let v3 = text::decimal(context.size_bytes as nat);
    let v4 = json::quoted_or_null(context.created_at);
    let v5 = json::quoted_or_null(context.modified_at);
    let v6 = json::quoted(context.suggested_category);
    let v7 = json::quoted_or_null(context.content_extract);
    let v8 = json::quoted(context.content_status);
    let n0 = "{\"id\":"@;
    let n1 = ",\"path\":"@;
    let n2 = ",\"extension\":"@;
    let n3 = ",\"sizeBytes\":"@;
    let n4 = ",\"createdAt\":"@;
    let n5 = ",\"modifiedAt\":"@;
    let n6 = ",\"suggestedCategory\":"@;
    let n7 = ",\"contentExtract\":"@;
    let n8 = ",\"contentStatus\":"@;
    let h0 = n0 + v0 + n1;
    let h1 = h0 + v1 + n2;
    let h2 = h1 + v2 + n3;
    let h3 = h2 + v3 + n4;
    let h4 = h3 + v4 + n5;
    let h5 = h4 + v5 + n6;
    let h6 = h5 + v6 + n7;
    let h7 = h6 + v7;
    let tail = json::context_tail(context);
    let j = json::context_json(context);
    assert(json::context_head(context) == h6);
    assert(j == h7 + tail);
    texts::a_part_stands_in_the_whole(Seq::empty(), h0, v1);
    assert(j.subrange(0, j.len() as int) =~= j);
    goes_on(j, h7, tail);
    goes_on(j, h6, v7);
    goes_on(j, h5 + v6, n7);
    goes_on(j, h5, v6);
    goes_on(j, h4 + v5, n6);
    goes_on(j, h4, v5);
    goes_on(j, h3 + v4, n5);
    goes_on(j, h3, v4);
    goes_on(j, h2 + v3, n4);
    goes_on(j, h2, v3);
    goes_on(j, h1 + v2, n3);
    goes_on(j, h1, v2);
    goes_on(j, h0 + v1, n2);
    goes_on(j, h0, v1);
    assert(text::contains(h1, n1 + v1 + n2)) by {
        field_at_the_end(n0 + v0, n1, v1, n2);
    }
    holds_what_its_beginning_holds(j, h1, n1 + v1 + n2);
    assert(text::contains(h2, n2 + v2 + n3)) by {
        field_at_the_end(h0 + v1, n2, v2, n3);
    }
    holds_what_its_beginning_holds(j, h2, n2 + v2 + n3);
    assert(text::contains(h3, n3 + v3 + n4)) by {
        field_at_the_end(h1 + v2, n3, v3, n4);
    }
    holds_what_its_beginning_holds(j, h3, n3 + v3 + n4);
    assert(text::contains(h4, n4 + v4 + n5)) by {
        field_at_the_end(h2 + v3, n4, v4, n5);
    }
    holds_what_its_beginning_holds(j, h4, n4 + v4 + n5);
    assert(text::contains(h5, n5 + v5 + n6)) by {
        field_at_the_end(h3 + v4, n5, v5, n6);
    }
    holds_what_its_beginning_holds(j, h5, n5 + v5 + n6);
    assert(text::contains(h6, n6 + v6 + n7)) by {
        field_at_the_end(h4 + v5, n6, v6, n7);
    }
    holds_what_its_beginning_holds(j, h6, n6 + v6 + n7);
    let h8 = h7 + n8;
    assert(tail == n8 + v8 + "}"@);
    assert(j == h8 + (v8 + "}"@)) by {
        assert(h7 + (n8 + v8 + "}"@) =~= h7 + n8 + (v8 + "}"@));
    }
    goes_on(j, h8, v8 + "}"@);
    assert(text::contains(h8, n7 + v7 + n8)) by {
        field_at_the_end(h5 + v6, n7, v7, n8);
    }
    holds_what_its_beginning_holds(j, h8, n7 + v7 + n8);
    texts::a_part_stands_in_the_whole(h7, tail, Seq::empty());
}

/// A text that another goes on from is its beginning.
proof fn goes_on(whole: Seq<char>, front: Seq<char>, back: Seq<char>)
    requires
        text::starts_with(whole, front + back),
    ensures
        text::starts_with(whole, front),
{
    assert(whole.subrange(0, front.len() as int) =~= front) by {
        assert forall|i: int| 0 <= i < front.len() implies whole[i] == front[i] by {
            assert(whole.subrange(0, (front + back).len() as int)[i] == (front + back)[i]);
        }
    }
}

proof fn field_at_the_end(front: Seq<char>, name: Seq<char>, value: Seq<char>, next: Seq<char>)
    ensures
        text::contains(front + name + value + next, name + value + next),
{
    assert(front + name + value + next =~= front + (name + value + next));
    texts::a_part_stands_in_the_whole(front, name + value + next, Seq::empty());
}

proof fn holds_what_its_beginning_holds(whole: Seq<char>, front: Seq<char>, part: Seq<char>)
    requires
        text::starts_with(whole, front),
        text::contains(front, part),
    ensures
        text::contains(whole, part),
{
    texts::parts_of_parts_stand_in_the_whole(whole, front, part);
}

/// The object of a file holds nothing but that.
pub proof fn objects_tell_nothing_else(context: ContextView)
    ensures
        json::context_json(context).len() == json::quoted(context.id).len() + json::quoted(
            context.path,
        ).len() + json::quoted(context.extension).len() + text::decimal(
            context.size_bytes as nat,
        ).len() + json::quoted_or_null(context.created_at).len() + json::quoted_or_null(
            context.modified_at,
        ).len() + json::quoted(context.suggested_category).len() + json::quoted_or_null(
            context.content_extract,
        ).len() + json::quoted(context.content_status).len() + "{\"id\":"@.len()
            + ",\"path\":"@.len() + ",\"extension\":"@.len() + ",\"sizeBytes\":"@.len()
            + ",\"createdAt\":"@.len() + ",\"modifiedAt\":"@.len()
            + ",\"suggestedCategory\":"@.len() + ",\"contentExtract\":"@.len()
            + ",\"contentStatus\":"@.len() + "}"@.len(),
{
}

/// Where the object of a file begins in the array of a batch.
pub open spec fn place_of(batch: Seq<ContextView>, k: int) -> int
    decreases k,
{
    if k <= 0 {
        1
    } else {
        place_of(batch, k - 1) + json::context_json(batch[k - 1]).len() + 1
    }
}

proof fn places_of_a_beginning(batch: Seq<ContextView>, k: int)
    requires
        0 <= k < batch.len(),
    ensures
        place_of(batch, k) == place_of(batch.drop_last(), k),
    decreases k,
{
    if k > 0 {
        places_of_a_beginning(batch, k - 1);
        assert(batch[k - 1] == batch.drop_last()[k - 1]);
    }
}

proof fn joined_length(batch: Seq<ContextView>)
    requires
        batch.len() > 0,
    ensures
        json::contexts_joined(batch).len() == place_of(batch, batch.len() as int) - 2,
    decreases batch.len(),
{
    let n = batch.len() as int;
    assert(place_of(batch, n) == place_of(batch, n - 1) + json::context_json(batch.last()).len() + 1);
    if n > 1 {
        joined_length(batch.drop_last());
        places_of_a_beginning(batch, n - 1);
        reveal_strlit(",");
        assert(","@.len() == 1);
    }
}

proof fn joined_objects_stand_in_order(batch: Seq<ContextView>, k: int)
    requires
        0 <= k < batch.len(),
    ensures
        text::has_at(
            json::contexts_joined(batch),
            place_of(batch, k) - 1,
            json::context_json(batch[k]),
        ),
        k > 0 ==> 2 <= place_of(batch, k) <= json::contexts_joined(batch).len() + 1
            && json::contexts_joined(batch)[place_of(batch, k) - 2] == ',',
    decreases batch.len(),
{
    let n = batch.len() as int;
    let all = json::contexts_joined(batch);
    let last = json::context_json(batch.last());
    if n == 1 {
        assert(all.subrange(0, last.len() as int) =~= last);
        assert(batch[0] == batch.last());
    } else {
        let rest = batch.drop_last();
        let before = json::contexts_joined(rest);
        reveal_strlit(",");
        assert(","@.len() == 1 && ","@[0] == ',');
        places_of_a_beginning(batch, k);
        if k < n - 1 {
            joined_objects_stand_in_order(rest, k);
            let at = place_of(rest, k) - 1;
            let one = json::context_json(batch[k]);
            assert(rest[k] == batch[k]);
            assert(all.subrange(at, at + one.len()) =~= before.subrange(at, at + one.len()));
            if k > 0 {
                assert(all[at - 1] == before[at - 1]);
            }
        } else {
            joined_length(rest);
            let at = before.len() as int + 1;
            assert(all.subrange(at, at + last.len()) =~= last);
            assert(all[at - 1] == ","@[0]);
        }
    }
}

/// The array of a batch holds as many objects as the batch has files, the object of each
/// file at the place of the file, with a comma between two of them and nothing else.
pub proof fn arrays_hold_every_object(batch: Seq<ContextView>)
    ensures
        json::contexts_json(batch)[0] == '[',
        json::contexts_json(batch).last() == ']',
        json::contexts_json(batch).len() == if batch.len() == 0 {
            2
        } else {
            place_of(batch, batch.len() as int)
        },
        forall|k: int|
            0 <= k < batch.len() ==> text::has_at(
                json::contexts_json(batch),
                #[trigger] place_of(batch, k),
                json::context_json(batch[k]),
            ),
        forall|k: int|
            0 < k < batch.len() ==> json::contexts_json(batch)[#[trigger] place_of(batch, k) - 1]
                == ',',
{
    reveal_strlit("[");
    reveal_strlit("]");
    let all = json::contexts_joined(batch);
    let whole = json::contexts_json(batch);
    assert("["@.len() == 1 && "["@[0] == '[');
    assert("]"@.len() == 1 && "]"@[0] == ']');
    if batch.len() > 0 {
        joined_length(batch);
        assert forall|k: int| 0 <= k < batch.len() implies text::has_at(
            whole,
            #[trigger] place_of(batch, k),
            json::context_json(batch[k]),
        ) by {
            joined_objects_stand_in_order(batch, k);
            let one = json::context_json(batch[k]);
            let at = place_of(batch, k);
            assert(text::has_at(all, at - 1, one));
            assert(whole.subrange(at, at + one.len()) =~= all.subrange(
                at - 1,
                at - 1 + one.len(),
            ));
        }
        assert forall|k: int| 0 < k < batch.len() implies whole[#[trigger] place_of(batch, k) - 1]
            == ',' by {
            joined_objects_stand_in_order(batch, k);
            assert(whole[place_of(batch, k) - 1] == all[place_of(batch, k) - 2]);
        }
    }
}

// ---------------------------------------------------------------------------
// The prompt
// ---------------------------------------------------------------------------

/// The model is asked about the whole batch: behind the rules stands the array of all its
/// files, so that the object of each file, and its id, stand in the prompt.
pub proof fn prompts_list_every_file(mode: Seq<char>, custom: Seq<char>, batch: Seq<ContextView>)
    ensures
        text::ends_with(
            requests::prompt(mode, custom, batch),
            "Файлы: "@ + json::contexts_json(batch),
        ),
        forall|k: int|
            0 <= k < batch.len() ==> text::contains(
                requests::prompt(mode, custom, batch),
                json::context_json(#[trigger] batch[k]),
            ),
        forall|k: int|
            0 <= k < batch.len() ==> text::contains(
                requests::prompt(mode, custom, batch),
                "{\"id\":"@ + json::quoted((#[trigger] batch[k]).id),
            ),
{
    let p = requests::prompt(mode, custom, batch);
    let list = json::contexts_json(batch);
    let front = requests::PROMPT_START@ + requests::instruction(mode, custom);
    rules_end_in_files();
    let rules = requests::PROMPT_RULES@;
    let cut = rules.len() - "Файлы: "@.len();
    assert(rules =~= rules.take(cut) + "Файлы: "@) by {
        assert(rules.subrange(cut, rules.len() as int) == "Файлы: "@);
    }
    assert(p =~= (front + rules.take(cut)) + ("Файлы: "@ + list));
    texts::a_part_stands_in_the_whole(
        front + rules.take(cut),
        "Файлы: "@ + list,
        Seq::empty(),
    );
    texts::a_part_stands_in_the_whole(front + rules, list, Seq::empty());
    assert(p =~= front + rules + list);
    arrays_hold_every_object(batch);
    assert forall|k: int| 0 <= k < batch.len() implies text::contains(
        p,
        json::context_json(#[trigger] batch[k]),
    ) by {
        assert(text::has_at(list, place_of(batch, k), json::context_json(batch[k])));
        texts::parts_of_parts_stand_in_the_whole(p, list, json::context_json(batch[k]));
    }
    assert forall|k: int| 0 <= k < batch.len() implies text::contains(
        p,
        "{\"id\":"@ + json::quoted((#[trigger] batch[k]).id),
    ) by {
        let object = json::context_json(batch[k]);
        assert(text::contains(p, object));
        objects_tell_everything(batch[k]);
        let id = "{\"id\":"@ + json::quoted(batch[k].id);
        let head = id + ",\"path\":"@;
        assert(text::has_at(object, 0, head));
        texts::a_part_stands_in_the_whole(Seq::empty(), id, ",\"path\":"@);
        texts::parts_of_parts_stand_in_the_whole(p, object, head);
        texts::parts_of_parts_stand_in_the_whole(p, head, id);
    }
}

proof fn rules_end_in_files()
    ensures
        text::ends_with(requests::PROMPT_RULES@, "Файлы: "@),
{
    reveal_strlit(
        "\nДля каждого файла сначала используй contentExtract, если он есть. Если его нет, анализируй только метаданные: path, extension, sizeBytes, даты и suggestedCategory. Не выдумывай содержимое. Верни ТОЛЬКО компактный JSON-массив объектов {id, category, confidence}. Без explanation, Markdown и любого текста вне JSON. Верни ровно одно решение для каждого переданного id.\nФайлы: ",
    );
    reveal_strlit("Файлы: ");
    let rules = requests::PROMPT_RULES@;
    let end = "Файлы: "@;
    assert(rules.subrange(rules.len() - end.len(), rules.len() as int) =~= end);
}

/// The categories that the model may choose from are named in every prompt, and the rules
/// for the answer are given.
pub proof fn prompts_say_what_to_answer(mode: Seq<char>, custom: Seq<char>, batch: Seq<ContextView>)
    ensures
        text::starts_with(
            requests::prompt(mode, custom, batch),
            "Классифицируй только этот небольшой пакет файлов. Инструкция: Категория должна быть ровно одной из: Работа, Личное, Финансы, Учёба, Медиа, Архив, Загрузчики, Прочее."@,
        ),
        text::contains(
            requests::prompt(mode, custom, batch),
            "\nДля каждого файла сначала используй contentExtract, если он есть. Если его нет, анализируй только метаданные: path, extension, sizeBytes, даты и suggestedCategory. Не выдумывай содержимое. Верни ТОЛЬКО компактный JSON-массив объектов {id, category, confidence}. Без explanation, Markdown и любого текста вне JSON. Верни ровно одно решение для каждого переданного id.\nФайлы: "@,
        ),
        text::contains(
            requests::prompt(mode, custom, batch),
            "Инструкция: "@ + requests::instruction(mode, custom),
        ),
        requests::prompt(mode, custom, batch).len()
            == "Классифицируй только этот небольшой пакет файлов. Инструкция: "@.len()
            + requests::instruction(mode, custom).len() + requests::PROMPT_RULES@.len()
            + json::contexts_json(batch).len(),
{
    instruction_is_in_the_prompt(mode, custom, batch);
    let p = requests::prompt(mode, custom, batch);
    let whole =
        "Классифицируй только этот небольшой пакет файлов. Инструкция: Категория должна быть ровно одной из: Работа, Личное, Финансы, Учёба, Медиа, Архив, Загрузчики, Прочее."@;
    reveal_strlit(
        "Классифицируй только этот небольшой пакет файлов. Инструкция: Категория должна быть ровно одной из: Работа, Личное, Финансы, Учёба, Медиа, Архив, Загрузчики, Прочее.",
    );
    reveal_strlit("Классифицируй только этот небольшой пакет файлов. Инструкция: ");
    reveal_strlit(
        "Категория должна быть ровно одной из: Работа, Личное, Финансы, Учёба, Медиа, Архив, Загрузчики, Прочее.",
    );
    let start = requests::PROMPT_START@ + requests::CATEGORY_RULE@;
    assert(whole =~= start);
    let instruction = requests::instruction(mode, custom);
    let rest = instruction.skip(requests::CATEGORY_RULE@.len() as int);
    assert(instruction =~= requests::CATEGORY_RULE@ + rest);
    let list = json::contexts_json(batch);
    assert(p =~= start + (rest + requests::PROMPT_RULES@ + list));
    texts::a_part_stands_in_the_whole(
        Seq::empty(),
        start,
        rest + requests::PROMPT_RULES@ + list,
    );
    texts::a_part_stands_in_the_whole(
        requests::PROMPT_START@ + instruction,
        requests::PROMPT_RULES@,
        list,
    );
}

proof fn instruction_is_in_the_prompt(
    mode: Seq<char>,
    custom: Seq<char>,
    batch: Seq<ContextView>,
)
    ensures
        text::contains(
            requests::prompt(mode, custom, batch),
            "Инструкция: "@ + requests::instruction(mode, custom),
        ),
{
    let start = requests::PROMPT_START@;
    let word = "Инструкция: "@;
    reveal_strlit("Классифицируй только этот небольшой пакет файлов. Инструкция: ");
    reveal_strlit("Инструкция: ");
    let front = start.take(start.len() - word.len());
    assert(start =~= front + word);
    let part = word + requests::instruction(mode, custom);
    let rest = requests::PROMPT_RULES@ + json::contexts_json(batch);
    assert(requests::prompt(mode, custom, batch) =~= front + part + rest);
    texts::a_part_stands_in_the_whole(front, part, rest);
}

/// In the custom mode an instruction that is not blank is handed on, its first 600 characters
/// of it; in every other mode, or where it is blank, it does not matter what it says.
pub proof fn instructions_are_handed_on(mode: Seq<char>, custom: Seq<char>, other: Seq<char>)
    ensures
        mode == "custom"@ && text::trim(custom).len() > 0 && custom.len() <= 600
            ==> text::ends_with(
            requests::instruction(mode, custom),
            " Дополнительная инструкция пользователя: "@ + custom,
        ),
        mode == "custom"@ && text::trim(custom).len() > 0 && custom.len() > 600 ==> text::ends_with(
            requests::instruction(mode, custom),
            " Дополнительная инструкция пользователя: "@ + custom.take(600),
        ),
        mode != "custom"@ || text::trim(custom).len() == 0 ==> text::ends_with(
            requests::instruction(mode, custom),
            " Установочные файлы с расширениями DMG, EXE, PKG, MSI и похожими всегда относятся к Загрузчикам."@,
        ),
        mode != "custom"@ ==> requests::instruction(mode, custom) == requests::instruction(
            mode,
            other,
        ),
        text::starts_with(
            requests::instruction(mode, custom),
            "Категория должна быть ровно одной из: Работа, Личное, Финансы, Учёба, Медиа, Архив, Загрузчики, Прочее."@,
        ),
        mode == "custom"@ && text::trim(custom).len() > 0 && custom.len() <= 600
            ==> requests::instruction(mode, custom).len()
            == "Категория должна быть ровно одной из: Работа, Личное, Финансы, Учёба, Медиа, Архив, Загрузчики, Прочее."@.len()
            + " Дополнительная инструкция пользователя: "@.len() + custom.len(),
        mode != "custom"@ || text::trim(custom).len() == 0 ==> requests::instruction(
            mode,
            custom,
        ).len()
            == "Категория должна быть ровно одной из: Работа, Личное, Финансы, Учёба, Медиа, Архив, Загрузчики, Прочее."@.len()
            + " Установочные файлы с расширениями DMG, EXE, PKG, MSI и похожими всегда относятся к Загрузчикам."@.len(),
{
    let rule = requests::CATEGORY_RULE@;
    let shown = text::first_chars(custom, 600);
    let wish = requests::USER_INSTRUCTION@ + shown;
    assert(rule + requests::USER_INSTRUCTION@ + shown =~= rule + wish);
    texts::a_part_stands_in_the_whole(rule, wish, Seq::empty());
    texts::a_part_stands_in_the_whole(rule, requests::INSTALLER_RULE@, Seq::empty());
    texts::a_part_stands_in_the_whole(Seq::empty(), rule, wish);
    texts::a_part_stands_in_the_whole(Seq::empty(), rule, requests::INSTALLER_RULE@);
}

// ---------------------------------------------------------------------------
// The request
// ---------------------------------------------------------------------------

proof fn the_token_limit_is_written()
    ensures
        text::decimal(512) == seq!['5', '1', '2'],
{
    reveal_with_fuel(text::decimal, 3);
    assert(text::decimal(512) =~= seq!['5', '1', '2']);
}

/// A request asks the chosen model for a short answer without chance: it names the model,
/// holds the rules of the answer as the word of the system and the prompt as that of the
/// user, and limits the answer to 512 tokens.
pub proof fn requests_hold_model_and_prompt(model: Seq<char>, prompt: Seq<char>)
    ensures
        text::starts_with(requests::chat_body(model, prompt), "{\"max_tokens\":512,\"messages\":["@),
        text::contains(
            requests::chat_body(model, prompt),
            "{\"content\":"@ + json::quoted(
                "Отвечай только компактным валидным JSON-массивом. Каждый объект: id, category, confidence. Никакого Markdown, explanation или текста вне JSON."@,
            ) + ",\"role\":\"system\"}"@,
        ),
        text::contains(
            requests::chat_body(model, prompt),
            "{\"content\":"@ + json::quoted(prompt) + ",\"role\":\"user\"}"@,
        ),
        text::ends_with(
            requests::chat_body(model, prompt),
            "],\"model\":"@ + json::quoted(model) + ",\"temperature\":0}"@,
        ),
        requests::chat_body(model, prompt).len() == json::quoted(
            "Отвечай только компактным валидным JSON-массивом. Каждый объект: id, category, confidence. Никакого Markdown, explanation или текста вне JSON."@,
        ).len() + json::quoted(prompt).len() + json::quoted(model).len()
            + "{\"max_tokens\":512,\"messages\":["@.len() + 2 * "{\"content\":"@.len()
            + ",\"role\":\"system\"}"@.len() + ",\"role\":\"user\"}"@.len() + 1
            + "],\"model\":"@.len() + ",\"temperature\":0}"@.len(),
{
    let body = requests::chat_body(model, prompt);
    let system = json::quoted(requests::SYSTEM_PROMPT@);
    let user = json::quoted(prompt);
    let name = json::quoted(model);
    the_token_limit_is_written();
    reveal_strlit("{\"max_tokens\":512,\"messages\":[");
    reveal_strlit("{\"max_tokens\":");
    reveal_strlit(",\"messages\":[{\"content\":");
    reveal_strlit("{\"content\":");
    reveal_strlit(",\"role\":\"system\"},{\"content\":");
    reveal_strlit(",\"role\":\"system\"}");
    reveal_strlit(",\"role\":\"user\"}],\"model\":");
    reveal_strlit(",\"role\":\"user\"}");
    reveal_strlit("],\"model\":");
    let start = "{\"max_tokens\":512,\"messages\":["@;
    let open = "{\"content\":"@;
    let end_system = ",\"role\":\"system\"}"@;
    let end_user = ",\"role\":\"user\"}"@;
    let tail = "],\"model\":"@ + name + ",\"temperature\":0}"@;
    assert("{\"max_tokens\":"@ + seq!['5', '1', '2'] + ",\"messages\":[{\"content\":"@ =~= start
        + open);
    assert(",\"role\":\"system\"},{\"content\":"@ =~= end_system + seq![','] + open);
    assert(",\"role\":\"user\"}],\"model\":"@ =~= end_user + "],\"model\":"@);
    let one = open + system + end_system;
    let two = open + user + end_user;
    assert(body =~= start + (one + (seq![','] + (two + tail)))) by {
        let b1 = "{\"max_tokens\":"@ + text::decimal(512) + ",\"messages\":[{\"content\":"@;
        let b2 = ",\"role\":\"system\"},{\"content\":"@;
        let b3 = ",\"role\":\"user\"}],\"model\":"@;
        assert(body =~= b1 + system + b2 + user + b3 + name + ",\"temperature\":0}"@);
        assert(b1 == start + open);
        assert(b2 == end_system + seq![','] + open);
        assert(b3 == end_user + "],\"model\":"@);
        assert(b1 + system + b2 =~= start + one + (seq![','] + open));
        assert(user + b3 + name + ",\"temperature\":0}"@ =~= user + end_user + tail);
        assert(body =~= (b1 + system + b2) + (user + b3 + name + ",\"temperature\":0}"@));
    }
    texts::a_part_stands_in_the_whole(Seq::empty(), start, one + (seq![','] + (two + tail)));
    texts::a_part_stands_in_the_whole(start, one, seq![','] + (two + tail));
    assert(body =~= start + one + (seq![','] + (two + tail)));
    texts::a_part_stands_in_the_whole(start + one + seq![','], two, tail);
    assert(body =~= (start + one + seq![',']) + two + tail);
    texts::a_part_stands_in_the_whole(start + one + seq![','] + two, tail, Seq::empty());
    assert(body =~= (start + one + seq![','] + two) + tail);
}

/// A batch that fits is asked about at the address of the service, with its key, the chosen model and the
/// prompt on the whole batch; one that does not fit is not asked about.
pub proof fn batches_that_fit_are_asked_about(
    ai: AiSettings,
    sort: SortSettings,
    batch: Seq<ContextView>,
)
    ensures
        requests::request_about(ai, sort, batch) is Ok <==> requests::batch_bytes(batch) <= 8000,
        requests::batch_bytes(batch) > 8000 && requests::batch_bytes(batch) <= usize::MAX
            ==> requests::request_about(ai, sort, batch)->Err_0 == requests::too_big(
            requests::batch_bytes(batch),
        ),
        requests::request_about(ai, sort, batch) is Ok ==> {
            let request = requests::request_about(ai, sort, batch)->Ok_0;
            let asked = requests::prompt(sort.mode@, sort.custom_prompt@, batch);
            &&& request.url == endpoints::chat_url(ai)
            &&& request.bearer == endpoints::bearer(ai)
            &&& text::contains(
                request.body,
                "{\"content\":"@ + json::quoted(asked) + ",\"role\":\"user\"}"@,
            )
            &&& text::ends_with(
                request.body,
                "],\"model\":"@ + json::quoted(ai.model@) + ",\"temperature\":0}"@,
            )
        },
{
    requests_hold_model_and_prompt(
        ai.model@,
        requests::prompt(sort.mode@, sort.custom_prompt@, batch),
    );
}

/// A batch is counted by the bytes of all its objects, and one that takes more than 8000
/// bytes is refused, with both numbers.
pub proof fn batches_are_measured_by_their_objects(
    one: Seq<ContextView>,
    context: ContextView,
    bytes: nat,
)
    ensures
        requests::batch_bytes(one.push(context)) == requests::batch_bytes(one) + text::utf8_len(
            json::context_json(context),
        ),
        requests::batch_bytes(Seq::empty()) == 0,
        batches::MAX_BATCH_CONTEXT_BYTES == 8000,
        requests::too_big(bytes) == "Входной контекст пакета ("@ + text::decimal(bytes)
            + " байт) превышает безопасный лимит 8000 байт."@,
{
    let all = one.push(context);
    same_bytes(one, all, one.len() as int);
    reveal_strlit(" байт) превышает безопасный лимит 8000 байт.");
    reveal_strlit(" байт) превышает безопасный лимит ");
    reveal_strlit(" байт.");
    reveal_with_fuel(text::decimal, 4);
    assert(text::decimal(8000) =~= seq!['8', '0', '0', '0']);
    assert(" байт) превышает безопасный лимит 8000 байт."@
        =~= " байт) превышает безопасный лимит "@ + text::decimal(8000) + " байт."@);
    assert(requests::too_big(bytes) =~= "Входной контекст пакета ("@ + text::decimal(bytes)
        + " байт) превышает безопасный лимит 8000 байт."@);
}

proof fn same_bytes(one: Seq<ContextView>, other: Seq<ContextView>, to: int)
    requires
        to <= one.len(),
        to <= other.len(),
        forall|i: int| 0 <= i < to ==> one[i] == other[i],
    ensures
        batches::bytes_between(one, 0, to) == batches::bytes_between(other, 0, to),
    decreases to,
{
    if to > 0 {
        same_bytes(one, other, to - 1);
    }
}

/// The requests take all files, in their order: the first begins with the first file, each other one
/// where the one before has ended, and the last ends with the last file. Each takes as many files as fit.
pub proof fn requests_take_all_files_in_order(contexts: Seq<ContextView>)
    requires
        contexts.len() <= usize::MAX,
    ensures
        ({
            let ranges = batches::ranges_of(contexts);
            &&& ranges.len() == 0 <==> contexts.len() == 0
            &&& ranges.len() > 0 ==> ranges[0].start == 0 && ranges.last().end == contexts.len()
            &&& forall|i: int|
                0 < i < ranges.len() ==> (#[trigger] ranges[i]).start == ranges[i - 1].end
            &&& forall|i: int|
                0 <= i < ranges.len() ==> batches::is_batch(
                    contexts,
                    (#[trigger] ranges[i]).start as int,
                    ranges[i].end as int,
                ) && batches::is_full(contexts, ranges[i].start as int, ranges[i].end as int)
        }),
{
    batches::a_split_exists(contexts);
    let ranges = batches::ranges_of(contexts);
    if ranges.len() > 0 {
        assert(batches::is_batch(contexts, ranges[0].start as int, ranges[0].end as int));
    }
    assert forall|i: int| 0 < i < ranges.len() implies (#[trigger] ranges[i]).start == ranges[i
        - 1].end by {
        let j = i - 1;
        assert(ranges[j].end == ranges[i].start);
    }
}

/// The size of the files of a request is exact as far as a machine word holds it.
pub proof fn sizes_are_exact(n: nat)
    ensures
        n <= usize::MAX ==> batches::saturated(n) == n,
        n > usize::MAX ==> batches::saturated(n) == usize::MAX,
{
}

} // verus!
