//! The models that a service offers.

use crate::endpoints;
use crate::outside;
use crate::records;
use crate::text;
use vstd::prelude::*;

verus! {

pub const UNKNOWN_LISTING: &'static str = "Сервис вернул список моделей в неизвестном формате";

pub const NO_LANGUAGE_MODELS: &'static str = "LM Studio не сообщил доступных языковых моделей";

pub const NO_MODELS: &'static str = "Локальный сервис не сообщил доступных моделей";

/// The kind of a model that can be asked.
pub const LANGUAGE_MODEL: &'static str = "llm";

/// The models that can be asked, and the one that is ready to be.
#[derive(Debug, PartialEq, Eq)]
pub struct ModelList {
    pub models: Vec<String>,
    pub active_model: Option<String>,
}

/// What a service tells of a model.
#[derive(Debug)]
pub struct ModelEntry {
    pub kind: Option<String>,
    pub name: Option<String>,
    /// The id of the first of its instances that are loaded.
    pub instance: Option<String>,
}

/// What a [`ModelEntry`] stands for.
#[verifier::ext_equal]
pub struct EntryView {
    pub kind: Option<Seq<char>>,
    pub name: Option<Seq<char>>,
    pub instance: Option<Seq<char>>,
}

impl View for ModelEntry {
    type V = EntryView;

    open spec fn view(&self) -> EntryView {
        EntryView {
            kind: records::option_view(self.kind),
            name: records::option_view(self.name),
            instance: records::option_view(self.instance),
        }
    }
}

/// What a list of entries stands for.
pub open spec fn entry_views(entries: Seq<ModelEntry>) -> Seq<EntryView> {
    Seq::new(entries.len(), |i: int| entries[i]@)
}

// ---------------------------------------------------------------------------
// Which models can be asked
// ---------------------------------------------------------------------------

/// Whether a model can be asked.
pub open spec fn is_language_model(entry: EntryView) -> bool {
    entry.kind == Some(LANGUAGE_MODEL@)
}

/// The names of the models that can be asked.
pub open spec fn language_models(entries: Seq<EntryView>) -> Seq<Seq<char>>
    decreases entries.len(),
{
    if entries.len() == 0 {
        Seq::empty()
    } else {
        let before = language_models(entries.drop_last());
        match entries.last().name {
            Some(name) => if is_language_model(entries.last()) {
                before.push(name)
            } else {
                before
            },
            None => before,
        }
    }
}

/// The first model that can be asked and is loaded, by the id of its instance.
pub open spec fn loaded_model(entries: Seq<EntryView>) -> Option<Seq<char>>
    decreases entries.len(),
{
    if entries.len() == 0 {
        None
    } else {
        match loaded_model(entries.drop_last()) {
            Some(id) => Some(id),
            None => if is_language_model(entries.last()) {
                entries.last().instance
            } else {
                None
            },
        }
    }
}

/// The texts that are not equal to a given one.
pub open spec fn others(texts: Seq<Seq<char>>, one: Seq<char>) -> Seq<Seq<char>>
    decreases texts.len(),
{
    if texts.len() == 0 {
        texts
    } else if texts.last() == one {
        others(texts.drop_last(), one)
    } else {
        others(texts.drop_last(), one).push(texts.last())
    }
}

/// The models that can be asked, the one that is loaded first.
pub open spec fn ordered_models(entries: Seq<EntryView>) -> Seq<Seq<char>> {
    match loaded_model(entries) {
        Some(id) => seq![id] + others(language_models(entries), id),
        None => language_models(entries),
    }
}

/// The names of the models.
pub open spec fn all_names(entries: Seq<EntryView>) -> Seq<Seq<char>>
    decreases entries.len(),
{
    if entries.len() == 0 {
        Seq::empty()
    } else {
        match entries.last().name {
            Some(name) => all_names(entries.drop_last()).push(name),
            None => all_names(entries.drop_last()),
        }
    }
}

/// Whether each text stands before those behind it.
pub open spec fn ascends(texts: Seq<Seq<char>>) -> bool {
    forall|i: int, j: int|
        #![trigger texts[i], texts[j]]
        0 <= i < j < texts.len() ==> text::text_before(texts[i], texts[j])
}

/// Whether some texts are given ones in their order, each once.
pub open spec fn is_sorting(given: Seq<Seq<char>>, texts: Seq<Seq<char>>) -> bool {
    &&& ascends(texts)
    &&& forall|x: Seq<char>| given.contains(x) <==> #[trigger] texts.contains(x)
}

fn is_llm(entry: &ModelEntry) -> (yes: bool)
    ensures
        yes == is_language_model(entry@),
{
    match &entry.kind {
        Some(kind) => text::same_text(kind, LANGUAGE_MODEL),
        None => false,
    }
}

fn find_loaded(entries: &Vec<ModelEntry>) -> (id: Option<String>)
    ensures
        records::option_view(id) == loaded_model(entry_views(entries@)),
{
    let ghost views = entry_views(entries@);
    let mut found: Option<String> = None;
    assert(views.take(0) =~= Seq::<EntryView>::empty());
    for i in 0..entries.len()
        invariant
            views == entry_views(entries@),
            records::option_view(found) == loaded_model(views.take(i as int)),
    {
        assert(views.take(i as int + 1).drop_last() =~= views.take(i as int));
        assert(views.take(i as int + 1).last() == entries@[i as int]@);
        if found.is_none() && is_llm(&entries[i]) {
            found = records::option_copy(&entries[i].instance);
        }
    }
    assert(views.take(entries@.len() as int) =~= views);
    found
}

/// The models of LM Studio: those that can be asked, the one that is loaded first.
pub fn lm_studio_models(entries: &Vec<ModelEntry>) -> (list: Result<ModelList, String>)
    ensures
        match list {
            Ok(list) => {
                &&& ordered_models(entry_views(entries@)).len() > 0
                &&& records::text_views(list.models@) == ordered_models(entry_views(entries@))
                &&& records::option_view(list.active_model) == loaded_model(entry_views(entries@))
            },
            Err(message) => {
                &&& ordered_models(entry_views(entries@)).len() == 0
                &&& message@ == NO_LANGUAGE_MODELS@
            },
        },
{
    let ghost views = entry_views(entries@);
    let active_model = find_loaded(entries);
    let mut models: Vec<String> = Vec::new();
    if let Some(active) = &active_model {
        models.push(active.clone());
    }
    let ghost head = records::text_views(models@);
    let ghost active = records::option_view(active_model);
    assert(views.take(0) =~= Seq::<EntryView>::empty());
    assert(records::text_views(models@) =~= head + kept(active, language_models(views.take(0))));
    for i in 0..entries.len()
        invariant
            views == entry_views(entries@),
            active == records::option_view(active_model),
            records::text_views(models@) == head + kept(
                active,
                language_models(views.take(i as int)),
            ),
    {
        assert(views.take(i as int + 1).drop_last() =~= views.take(i as int));
        assert(views.take(i as int + 1).last() == entries@[i as int]@);
        let ghost known = language_models(views.take(i as int));
        let ghost before = models@;
        if is_llm(&entries[i]) {
            if let Some(name) = &entries[i].name {
                assert(known.push(name@).drop_last() =~= known);
                let is_active = match &active_model {
                    Some(active) => text::same_text(active, name),
                    None => false,
                };
                if !is_active {
                    models.push(name.clone());
                    assert(records::text_views(models@) =~= records::text_views(before).push(name@));
                }
                assert(records::text_views(models@) =~= head + kept(active, known.push(name@)));
            }
        }
    }
    assert(views.take(entries@.len() as int) =~= views);
    assert(records::text_views(models@) =~= ordered_models(views));
    if models.len() == 0 {
        return Err(NO_LANGUAGE_MODELS.to_owned());
    }
    Ok(ModelList { models, active_model })
}

/// The models behind the one that is loaded.
spec fn kept(active: Option<Seq<char>>, models: Seq<Seq<char>>) -> Seq<Seq<char>> {
    match active {
        Some(id) => others(models, id),
        None => models,
    }
}

fn stands_before(left: &str, right: &str) -> (yes: bool)
    ensures
        yes == text::text_before(left@, right@),
{
    let left_chars = text::chars_of(left);
    let right_chars = text::chars_of(right);
    text::stands_before(&left_chars, &right_chars)
}

/// Puts a text where it belongs, unless it is there.
fn place(sorted: &mut Vec<String>, one: &str)
    requires
        ascends(records::text_views(old(sorted)@)),
    ensures
        ascends(records::text_views(final(sorted)@)),
        forall|x: Seq<char>| #[trigger]
            records::text_views(final(sorted)@).contains(x) <==> records::text_views(
                old(sorted)@,
            ).contains(x) || x == one@,
{
    let ghost before = records::text_views(sorted@);
    let mut p: usize = 0;
    while p < sorted.len() && stands_before(&sorted[p], one)
        invariant
            before == records::text_views(sorted@),
            p <= sorted@.len(),
            forall|i: int| 0 <= i < p ==> text::text_before(#[trigger] before[i], one@),
        decreases sorted@.len() - p,
    {
        assert(before[p as int] == sorted@[p as int]@);
        p += 1;
    }
    if p < sorted.len() {
        assert(before[p as int] == sorted@[p as int]@);
        if text::same_text(&sorted[p], one) {
            assert(before.contains(one@));
            return ;
        }
    }
    sorted.insert(p, one.to_owned());
    let ghost after = records::text_views(sorted@);
    proof {
        assert(after =~= before.insert(p as int, one@));
        if p < before.len() {
            text::text_order_is_total(before[p as int], one@);
        }
        assert forall|i: int, j: int|
            #![trigger after[i], after[j]]
            0 <= i < j < after.len() implies text::text_before(after[i], after[j]) by {
            let from = if i < p {
                i
            } else {
                i - 1
            };
            let to = if j < p {
                j
            } else {
                j - 1
            };
            if i == p {
                assert(after[j] == before[to]);
                if to > p {
                    assert(text::text_before(before[p as int], before[to]));
                    text::text_order_is_transitive(one@, before[p as int], before[to]);
                }
            } else if j == p {
                assert(after[i] == before[from]);
            } else {
                assert(after[i] == before[from]);
                assert(after[j] == before[to]);
            }
        }
        assert forall|x: Seq<char>| #[trigger] after.contains(x) <==> before.contains(x) || x
            == one@ by {
            if after.contains(x) {
                let i = choose|i: int| 0 <= i < after.len() && after[i] == x;
                if i != p {
                    let b = if i < p {
                        i
                    } else {
                        i - 1
                    };
                    assert(before[b] == x);
                }
            }
            if before.contains(x) {
                let b = choose|b: int| 0 <= b < before.len() && before[b] == x;
                let i = if b < p {
                    b
                } else {
                    b + 1
                };
                assert(after[i] == x);
            }
            assert(after[p as int] == one@);
        }
    }
}

/// The models of other services: their names in order, each once.
pub fn named_models(entries: &Vec<ModelEntry>) -> (list: Result<ModelList, String>)
    ensures
        match list {
            Ok(list) => {
                &&& all_names(entry_views(entries@)).len() > 0
                &&& is_sorting(all_names(entry_views(entries@)), records::text_views(list.models@))
                &&& list.active_model is None
            },
            Err(message) => {
                &&& all_names(entry_views(entries@)).len() == 0
                &&& message@ == NO_MODELS@
            },
        },
{
    let ghost views = entry_views(entries@);
    let mut models: Vec<String> = Vec::new();
    assert(views.take(0) =~= Seq::<EntryView>::empty());
    for i in 0..entries.len()
        invariant
            views == entry_views(entries@),
            is_sorting(all_names(views.take(i as int)), records::text_views(models@)),
    {
        let ghost known = all_names(views.take(i as int));
        assert(views.take(i as int + 1).drop_last() =~= views.take(i as int));
        assert(views.take(i as int + 1).last() == entries@[i as int]@);
        if let Some(name) = &entries[i].name {
            let ghost before = records::text_views(models@);
            place(&mut models, name);
            let ghost after = records::text_views(models@);
            assert forall|x: Seq<char>| known.push(name@).contains(x) <==> #[trigger] after.contains(
                x,
            ) by {
                assert(known.contains(x) <==> before.contains(x));
                if known.push(name@).contains(x) && x != name@ {
                    let k = choose|k: int| 0 <= k <= known.len() && known.push(name@)[k] == x;
                    assert(known[k] == x);
                }
                if known.contains(x) {
                    let k = choose|k: int| 0 <= k < known.len() && known[k] == x;
                    assert(known.push(name@)[k] == x);
                }
                assert(known.push(name@)[known.len() as int] == name@);
            }
        }
    }
    assert(views.take(entries@.len() as int) =~= views);
    let ghost given = all_names(views);
    let ghost shown = records::text_views(models@);
    if models.len() == 0 {
        assert(given.len() == 0) by {
            if given.len() > 0 {
                assert(given.contains(given[0]));
                assert(shown.contains(given[0]));
            }
        }
        return Err(NO_MODELS.to_owned());
    }
    assert(shown.contains(shown[0]));
    Ok(ModelList { models, active_model: None })
}

/// There is only one way to put texts into their order, each once.
pub proof fn sorting_is_unique(given: Seq<Seq<char>>, one: Seq<Seq<char>>, other: Seq<Seq<char>>)
    requires
        is_sorting(given, one),
        is_sorting(given, other),
    ensures
        one == other,
{
    assert forall|x: Seq<char>| one.contains(x) <==> other.contains(x) by {
        assert(given.contains(x) <==> one.contains(x));
        assert(given.contains(x) <==> other.contains(x));
    }
    ascending_lists_agree(one, other);
}

proof fn ascending_lists_agree(a: Seq<Seq<char>>, b: Seq<Seq<char>>)
    requires
        ascends(a),
        ascends(b),
        forall|x: Seq<char>| a.contains(x) <==> b.contains(x),
    ensures
        a == b,
    decreases a.len(),
{
    if a.len() == 0 {
        if b.len() > 0 {
            assert(b.contains(b[0]));
            assert(a.contains(b[0]));
        }
        assert(a =~= b);
    } else {
        assert(a.contains(a[0]));
        let j = choose|j: int| 0 <= j < b.len() && b[j] == a[0];
        assert(b.contains(b[0]));
        let k = choose|k: int| 0 <= k < a.len() && a[k] == b[0];
        if a[0] != b[0] {
            text::text_order_is_transitive(a[0], b[0], a[0]);
            text::text_order_is_irreflexive(a[0]);
        }
        let a1 = a.drop_first();
        let b1 = b.drop_first();
        assert forall|x: Seq<char>| a1.contains(x) <==> b1.contains(x) by {
            text::text_order_is_irreflexive(a[0]);
            if a1.contains(x) {
                let i = choose|i: int| 0 <= i < a1.len() && a1[i] == x;
                assert(a[i + 1] == x);
                assert(text::text_before(a[0], a[i + 1]));
                assert(b.contains(x));
                let n = choose|n: int| 0 <= n < b.len() && b[n] == x;
                assert(b1[n - 1] == x);
            }
            if b1.contains(x) {
                let i = choose|i: int| 0 <= i < b1.len() && b1[i] == x;
                assert(b[i + 1] == x);
                assert(text::text_before(b[0], b[i + 1]));
                assert(a.contains(x));
                let n = choose|n: int| 0 <= n < a.len() && a[n] == x;
                assert(a1[n - 1] == x);
            }
        }
        ascending_lists_agree(a1, b1);
        assert(a =~= seq![a[0]] + a1);
        assert(b =~= seq![b[0]] + b1);
    }
}

proof fn others_are_the_rest(texts: Seq<Seq<char>>, one: Seq<char>, x: Seq<char>)
    ensures
        others(texts, one).contains(x) <==> texts.contains(x) && x != one,
    decreases texts.len(),
{
    if texts.len() > 0 {
        let front = texts.drop_last();
        let last = texts.last();
        others_are_the_rest(front, one, x);
        assert(texts =~= front.push(last));
        assert(texts.contains(x) <==> front.contains(x) || x == last) by {
            if texts.contains(x) && x != last {
                let i = choose|i: int| 0 <= i < texts.len() && texts[i] == x;
                assert(front[i] == x);
            }
            if front.contains(x) {
                let i = choose|i: int| 0 <= i < front.len() && front[i] == x;
                assert(texts[i] == x);
            }
            assert(texts[texts.len() - 1] == last);
        }
        if last != one {
            let before = others(front, one);
            let after = others(texts, one);
            assert(after.contains(x) <==> before.contains(x) || x == last) by {
                if after.contains(x) && x != last {
                    let i = choose|i: int| 0 <= i < after.len() && after[i] == x;
                    assert(before[i] == x);
                }
                if before.contains(x) {
                    let i = choose|i: int| 0 <= i < before.len() && before[i] == x;
                    assert(after[i] == x);
                }
                assert(after[after.len() - 1] == last);
            }
        }
    }
}

/// The model that is loaded comes first, and every other model that can be asked comes
/// behind it.
pub proof fn the_loaded_model_comes_first(entries: Seq<EntryView>, name: Seq<char>)
    requires
        loaded_model(entries) is Some,
    ensures
        ordered_models(entries)[0] == loaded_model(entries)->0,
        ordered_models(entries).drop_first().contains(name) <==> language_models(entries).contains(
            name,
        ) && name != loaded_model(entries)->0,
{
    let id = loaded_model(entries)->0;
    others_are_the_rest(language_models(entries), id, name);
    assert(ordered_models(entries).drop_first() =~= others(language_models(entries), id));
}

// ---------------------------------------------------------------------------
// Reading the list
// ---------------------------------------------------------------------------

/// Where the list stands in what a service answers.
pub open spec fn listing(provider: Seq<char>) -> Seq<char> {
    if provider == endpoints::LM_STUDIO@ || provider == endpoints::OLLAMA@ {
        "/models"@
    } else {
        "/data"@
    }
}

/// What the name of a model is called.
pub open spec fn name_field(provider: Seq<char>) -> Seq<char> {
    if provider == endpoints::LM_STUDIO@ {
        "key"@
    } else if provider == endpoints::OLLAMA@ {
        "name"@
    } else {
        "id"@
    }
}

/// Where a field of an entry of the list stands.
pub open spec fn field_at(list: Seq<char>, i: nat, field: Seq<char>) -> Seq<char> {
    list + "/"@ + text::decimal(i) + "/"@ + field
}

/// The text at a place, where there is one.
pub open spec fn found_text(texts: Map<Seq<char>, Seq<char>>, place: Seq<char>) -> Option<
    Seq<char>,
> {
    if texts.dom().contains(place) {
        Some(texts[place])
    } else {
        None
    }
}

/// The id of the first of the instances of a model.
pub open spec fn first_instance(
    texts: Map<Seq<char>, Seq<char>>,
    lengths: Map<Seq<char>, nat>,
    instances: Seq<char>,
) -> Option<Seq<char>> {
    if lengths.dom().contains(instances) && lengths[instances] > 0 {
        found_text(texts, instances + "/0/id"@)
    } else {
        None
    }
}

/// What a service tells of its model number `i`.
pub open spec fn entry_at(
    provider: Seq<char>,
    texts: Map<Seq<char>, Seq<char>>,
    lengths: Map<Seq<char>, nat>,
    i: nat,
) -> EntryView {
    let list = listing(provider);
    EntryView {
        kind: found_text(texts, field_at(list, i, "type"@)),
        name: found_text(texts, field_at(list, i, name_field(provider))),
        instance: first_instance(texts, lengths, field_at(list, i, "loaded_instances"@)),
    }
}

/// What a service tells of its models: nothing where its answer holds no list.
pub open spec fn entries_of(
    provider: Seq<char>,
    texts: Map<Seq<char>, Seq<char>>,
    lengths: Map<Seq<char>, nat>,
) -> Option<Seq<EntryView>> {
    let list = listing(provider);
    if lengths.dom().contains(list) {
        Some(Seq::new(lengths[list], |i: int| entry_at(provider, texts, lengths, i as nat)))
    } else {
        None
    }
}

fn place_of(list: &str, i: usize, field: &str) -> (place: String)
    ensures
        place@ == field_at(list@, i as nat, field@),
{
    let mut place = list.to_owned();
    place.append("/");
    place.append(&text::decimal_of(i as u64));
    place.append("/");
    place.append(field);
    place
}

fn read_text(value: &serde_json::Value, place: &str) -> (found: Option<String>)
    ensures
        records::option_view(found) == found_text(outside::json_texts(*value), place@),
{
    outside::text_at(value, place)
}

fn read_instance(value: &serde_json::Value, instances: &str) -> (found: Option<String>)
    ensures
        records::option_view(found) == first_instance(
            outside::json_texts(*value),
            outside::json_lengths(*value),
            instances@,
        ),
{
    match outside::array_length_at(value, instances) {
        Some(length) => if length > 0 {
            let mut first = instances.to_owned();
            first.append("/0/id");
            outside::text_at(value, &first)
        } else {
            None
        },
        None => None,
    }
}

/// Reads what a service tells of its models.
pub fn read_entries(provider: &str, value: &serde_json::Value) -> (entries: Result<
    Vec<ModelEntry>,
    String,
>)
    ensures
        match entries {
            Ok(entries) => entries_of(
                provider@,
                outside::json_texts(*value),
                outside::json_lengths(*value),
            ) == Some(entry_views(entries@)),
            Err(message) => {
                &&& entries_of(
                    provider@,
                    outside::json_texts(*value),
                    outside::json_lengths(*value),
                ) is None
                &&& message@ == UNKNOWN_LISTING@
            },
        },
{
    let lm_studio = text::same_text(provider, endpoints::LM_STUDIO);
    let ollama = text::same_text(provider, endpoints::OLLAMA);
    let list = if lm_studio || ollama {
        "/models"
    } else {
        "/data"
    };
    let name_field = if lm_studio {
        "key"
    } else if ollama {
        "name"
    } else {
        "id"
    };
    let ghost texts = outside::json_texts(*value);
    let ghost lengths = outside::json_lengths(*value);
    let length: usize = match outside::array_length_at(value, list) {
        Some(length) => length,
        None => {
            return Err(UNKNOWN_LISTING.to_owned());
        },
    };
    let mut entries: Vec<ModelEntry> = Vec::new();
    for i in 0..length
        invariant
            list@ == listing(provider@),
            name_field@ == self::name_field(provider@),
            texts == outside::json_texts(*value),
            lengths == outside::json_lengths(*value),
            entries@.len() == i,
            forall|j: int|
                0 <= j < i ==> (#[trigger] entries@[j])@ == entry_at(
                    provider@,
                    texts,
                    lengths,
                    j as nat,
                ),
    {
        entries.push(
            ModelEntry {
                kind: read_text(value, &place_of(list, i, "type")),
                name: read_text(value, &place_of(list, i, name_field)),
                instance: read_instance(value, &place_of(list, i, "loaded_instances")),
            },
        );
    }
    assert(entries_of(provider@, texts, lengths)->0 =~= entry_views(entries@));
    Ok(entries)
}

/// The models that a service offers, by what it tells of them.
pub open spec fn is_offer(
    provider: Seq<char>,
    entries: Seq<EntryView>,
    list: Result<ModelList, String>,
) -> bool {
    if provider == endpoints::LM_STUDIO@ {
        match list {
            Ok(list) => {
                &&& ordered_models(entries).len() > 0
                &&& records::text_views(list.models@) == ordered_models(entries)
                &&& records::option_view(list.active_model) == loaded_model(entries)
            },
            Err(message) => ordered_models(entries).len() == 0 && message@ == NO_LANGUAGE_MODELS@,
        }
    } else {
        match list {
            Ok(list) => {
                &&& all_names(entries).len() > 0
                &&& is_sorting(all_names(entries), records::text_views(list.models@))
                &&& list.active_model is None
            },
            Err(message) => all_names(entries).len() == 0 && message@ == NO_MODELS@,
        }
    }
}

/// The models that a service offers, by what it answers.
pub fn list_models(provider: &str, value: &serde_json::Value) -> (list: Result<ModelList, String>)
    ensures
        match entries_of(provider@, outside::json_texts(*value), outside::json_lengths(*value)) {
            Some(entries) => is_offer(provider@, entries, list),
            None => list is Err && list->Err_0@ == UNKNOWN_LISTING@,
        },
{
    match read_entries(provider, value) {
        Ok(entries) => if text::same_text(provider, endpoints::LM_STUDIO) {
            lm_studio_models(&entries)
        } else {
            named_models(&entries)
        },
        Err(message) => Err(message),
    }
}

} // verus!
