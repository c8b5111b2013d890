//! What holds of values that are shown and of variables that are listed.
use crate::protocol::{Outcome, ResponseBody, Variable, VariableView};
use crate::session::{DebugSession, Reply, VariablesQuery};
use crate::state::{DebugState, Scope, StateView};
use crate::value::{Instance, ObjectReader, Property, Snapshot, Value, ValueFormatter};
use crate::variables::{count_variables, list_variables, ScopeContents};
use vstd::prelude::*;

verus! {

/// The properties that lie in an object itself.
pub open spec fn lying_inside(properties: Seq<Property>) -> Seq<Property> {
    properties.filter(|p: Property| p.in_value_holder)
}

/// How many of `n` fields are shown: eight at most.
pub open spec fn visible(n: nat) -> nat {
    if n <= 8 {
        n
    } else {
        8
    }
}

/// Fields one after the other, each with its name and its text.
pub open spec fn written_fields(fields: Seq<Property>, texts: Seq<Seq<char>>) -> Seq<char>
    decreases fields.len(),
{
    if fields.len() == 0 {
        Seq::<char>::empty()
    } else {
        written_fields(fields.drop_last(), texts.drop_last()) + fields.last().name@ + ": "@
            + texts.last() + ", "@
    }
}

/// Whether `texts` are the texts of the values of `fields`, inside of the objects in `inside`.
pub open spec fn are_texts(
    objects: Map<usize, Vec<Property>>,
    fields: Seq<Property>,
    inside: Set<usize>,
    texts: Seq<Seq<char>>,
) -> bool {
    &&& texts.len() == fields.len()
    &&& forall|i: int|
        0 <= i < fields.len() ==> crate::value::format_value(
            objects,
            (#[trigger] fields[i]).value,
            inside,
        ) == Ok::<Seq<char>, usize>(texts[i])
}

proof fn lemma_fields_written(
    objects: Map<usize, Vec<Property>>,
    fields: Seq<Property>,
    inside: Set<usize>,
)
    requires
        objects.dom().finite(),
    ensures
        match crate::value::format_fields(objects, fields, inside) {
            Ok(text) => exists|texts: Seq<Seq<char>>| #[trigger]
                are_texts(objects, fields, inside, texts) && text == written_fields(fields, texts),
            Err(id) => exists|i: int|
                0 <= i < fields.len() && crate::value::format_value(
                    objects,
                    (#[trigger] fields[i]).value,
                    inside,
                ) == Err::<Seq<char>, usize>(id) && forall|j: int|
                    0 <= j < i ==> crate::value::format_value(
                        objects,
                        (#[trigger] fields[j]).value,
                        inside,
                    ) is Ok,
        },
    decreases fields.len(),
{
    if fields.len() == 0 {
        assert(are_texts(objects, fields, inside, Seq::<Seq<char>>::empty()));
    } else {
        let head = fields.drop_last();
        lemma_fields_written(objects, head, inside);
        match crate::value::format_fields(objects, head, inside) {
            Ok(front) => {
                let texts = choose|texts: Seq<Seq<char>>| #[trigger]
                    are_texts(objects, head, inside, texts) && front == written_fields(head, texts);
                match crate::value::format_value(objects, fields.last().value, inside) {
                    Ok(text) => {
                        let more = texts.push(text);
                        assert(more.drop_last() =~= texts);
                        assert forall|i: int| 0 <= i < fields.len() implies crate::value::format_value(
                            objects,
                            (#[trigger] fields[i]).value,
                            inside,
                        ) == Ok::<Seq<char>, usize>(more[i]) by {
                            if i < head.len() {
                                assert(head[i] == fields[i]);
                            }
                        }
                        assert(are_texts(objects, fields, inside, more));
                    },
                    Err(_) => {
                        let last = fields.len() - 1;
                        assert(fields[last] == fields.last());
                        assert forall|j: int| 0 <= j < last implies crate::value::format_value(
                            objects,
                            (#[trigger] fields[j]).value,
                            inside,
                        ) is Ok by {
                            assert(head[j] == fields[j]);
                        }
                    },
                }
            },
            Err(id) => {
                let i = choose|i: int|
                    0 <= i < head.len() && crate::value::format_value(
                        objects,
                        (#[trigger] head[i]).value,
                        inside,
                    ) == Err::<Seq<char>, usize>(id) && forall|j: int|
                        0 <= j < i ==> crate::value::format_value(
                            objects,
                            (#[trigger] head[j]).value,
                            inside,
                        ) is Ok;
                assert(fields[i] == head[i]);
                assert forall|j: int| 0 <= j < i implies crate::value::format_value(
                    objects,
                    (#[trigger] fields[j]).value,
                    inside,
                ) is Ok by {
                    assert(head[j] == fields[j]);
                }
            },
        }
    }
}

/// An object that is known, and that is not being shown already, is shown by its fields at every
/// depth: a brace, up to eight of the properties that lie in it, each with its name and the text
/// that its value has inside of this object, three dots where there are more, and a brace. Where
/// one of these values cannot be shown, the first such is the error.
pub proof fn law_object_shows_its_fields(
    objects: Map<usize, Vec<Property>>,
    inst: Instance,
    visited: Set<usize>,
)
    requires
        objects.dom().finite(),
        objects.contains_key(inst.id),
        !visited.contains(inst.id),
    ensures
        ({
            let held = lying_inside(objects[inst.id]@);
            let fields = held.take(visible(held.len()) as int);
            let inside = visited.insert(inst.id);
            match crate::value::format_value(objects, Value::Ref(Some(inst)), visited) {
                Ok(text) => exists|texts: Seq<Seq<char>>| #[trigger]
                    are_texts(objects, fields, inside, texts) && text == "{"@ + written_fields(
                        fields,
                        texts,
                    ) + (if held.len() > 8 {
                        "..."@
                    } else {
                        Seq::<char>::empty()
                    }) + "}"@,
                Err(id) => exists|i: int|
                    0 <= i < fields.len() && crate::value::format_value(
                        objects,
                        (#[trigger] fields[i]).value,
                        inside,
                    ) == Err::<Seq<char>, usize>(id) && forall|j: int|
                        0 <= j < i ==> crate::value::format_value(
                            objects,
                            (#[trigger] fields[j]).value,
                            inside,
                        ) is Ok,
            }
        }),
{
    let held = lying_inside(objects[inst.id]@);
    let fields = held.take(visible(held.len()) as int);
    assert(crate::value::shown(objects[inst.id]@) =~= fields);
    lemma_fields_written(objects, fields, visited.insert(inst.id));
}

/// An object that is not being shown already is never shown as cyclic: its text is in braces.
pub proof fn law_only_cycles_are_cyclic(
    objects: Map<usize, Vec<Property>>,
    inst: Instance,
    visited: Set<usize>,
)
    requires
        objects.dom().finite(),
        !visited.contains(inst.id),
    ensures
        crate::value::format_value(objects, Value::Ref(Some(inst)), visited) matches Ok(text)
            ==> text.len() >= 2 && text[0] == '{' && text.last() == '}' && text != "<cyclic>"@
            && text != "null"@,
        !objects.contains_key(inst.id) ==> crate::value::format_value(
            objects,
            Value::Ref(Some(inst)),
            visited,
        ) == Err::<Seq<char>, usize>(inst.id),
{
    reveal_strlit("{");
    reveal_strlit("}");
    reveal_strlit("<cyclic>");
    reveal_strlit("null");
    if objects.contains_key(inst.id) {
        law_object_shows_its_fields(objects, inst, visited);
        if let Ok(text) = crate::value::format_value(objects, Value::Ref(Some(inst)), visited) {
            assert(text[0] == "{"@[0]);
            assert(text.last() == "}"@[0]);
            assert("<cyclic>"@[0] == '<');
            assert("null"@[0] == 'n');
        }
    }
}

/// All values but references to objects have one text, wherever they are shown: that of the game,
/// and `null` for a reference to nothing.
pub proof fn law_plain_values(
    objects: Map<usize, Vec<Property>>,
    visited: Set<usize>,
    container: usize,
    class: u64,
    ptr: usize,
    typ: usize,
    text: String,
)
    requires
        objects.dom().finite(),
    ensures
        crate::value::format_value(objects, Value::Struct { container, class, text }, visited)
            == Ok::<Seq<char>, usize>(text@),
        crate::value::format_value(objects, Value::Array { ptr, typ, text }, visited) == Ok::<
            Seq<char>,
            usize,
        >(text@),
        crate::value::format_value(objects, Value::Other(text), visited) == Ok::<Seq<char>, usize>(
            text@,
        ),
        crate::value::format_value(objects, Value::Ref(None), visited) == Ok::<Seq<char>, usize>(
            "null"@,
        ),
{
}

/// The object that is the error is one that is neither known nor being shown.
pub proof fn law_error_is_missing(
    objects: Map<usize, Vec<Property>>,
    value: Value,
    visited: Set<usize>,
)
    requires
        objects.dom().finite(),
    ensures
        crate::value::format_value(objects, value, visited) matches Err(id)
            ==> !objects.contains_key(id) && !visited.contains(id),
    decreases objects.dom().difference(visited).len(),
{
    if let Value::Ref(Some(inst)) = value {
        if !visited.contains(inst.id) && objects.contains_key(inst.id) {
            crate::value::lemma_fewer_left(objects, visited, inst.id);
            law_object_shows_its_fields(objects, inst, visited);
            let held = lying_inside(objects[inst.id]@);
            let fields = held.take(visible(held.len()) as int);
            let inside = visited.insert(inst.id);
            if let Err(id) = crate::value::format_value(objects, value, visited) {
                let i = choose|i: int|
                    0 <= i < fields.len() && crate::value::format_value(
                        objects,
                        (#[trigger] fields[i]).value,
                        inside,
                    ) == Err::<Seq<char>, usize>(id);
                law_error_is_missing(objects, fields[i].value, inside);
            }
        }
    }
}

/// A new formatter shows its value from the outside, inside of no object.
pub proof fn law_formatter_starts_outside<'a>(
    value: &'a Value,
    formatter: ValueFormatter<'a>,
)
    requires
        call_ensures(ValueFormatter::new, (value,), formatter),
    ensures
        formatter.value() == *value,
        forall|id: usize| !formatter.visited().contains(id),
{
}

/// What a formatter writes is the text of its value, or the object that is missing for it.
pub proof fn law_formatter_writes<'a>(
    formatter: &mut ValueFormatter<'a>,
    objects: &Snapshot,
    r: Result<String, usize>,
)
    requires
        call_ensures(ValueFormatter::fmt, (formatter, objects), r),
    ensures
        match crate::value::format_value(
            objects@,
            old(formatter).value(),
            old(formatter).visited(),
        ) {
            Ok(text) => r matches Ok(written) && written@ == text,
            Err(id) => r == Err::<String, usize>(id),
        },
{
}

/// Whether a value is a reference to the object `id`.
pub open spec fn refers_to(value: Value, id: usize) -> bool {
    match value {
        Value::Ref(Some(inst)) => inst.id == id,
        _ => false,
    }
}

/// To want a value asks for the object that it refers to, and for nothing else.
pub proof fn law_wanted(reader: &mut ObjectReader, value: Value, id: usize)
    requires
        call_ensures(ObjectReader::want, (reader, &value), ()),
    ensures
        final(reader).queue().contains(id) <==> old(reader).queue().contains(id) || refers_to(
            value,
            id,
        ),
        final(reader).objects() == old(reader).objects(),
{
}

/// An object that is asked for next is wanted and not collected yet. When there is none, every
/// object that was wanted has been collected.
pub proof fn law_asked_next(reader: &mut ObjectReader, r: Option<usize>, id: usize)
    requires
        call_ensures(ObjectReader::next, (reader,), r),
    ensures
        final(reader).objects() == old(reader).objects(),
        r matches Some(next) ==> old(reader).queue().contains(next) && !old(reader).objects().contains_key(next),
        r is None && old(reader).queue().contains(id) ==> old(reader).objects().contains_key(id),
        old(reader).queue().contains(id) ==> old(reader).objects().contains_key(id) || final(reader).queue().contains(id),
{
}

/// An object that is provided is collected as it is, and the objects that its visible fields refer
/// to are asked for, and no others.
pub proof fn law_provided(
    reader: &mut ObjectReader,
    id: usize,
    properties: Vec<Property>,
    other: usize,
)
    requires
        call_ensures(ObjectReader::provide, (reader, id, properties), ()),
    ensures
        final(reader).objects().contains_key(id),
        final(reader).objects()[id] == properties,
        other != id ==> final(reader).objects().contains_key(other) == old(reader).objects().contains_key(other),
        other != id && old(reader).objects().contains_key(other) ==> final(reader).objects()[other]
            == old(reader).objects()[other],
        ({
            let held = lying_inside(properties@);
            final(reader).queue().contains(other) <==> old(reader).queue().contains(other) || exists|
                i: int,
            |
                0 <= i < visible(held.len()) && refers_to((#[trigger] held[i]).value, other)
        }),
{
    let held = lying_inside(properties@);
    let fields = crate::value::shown(properties@);
    assert(fields =~= held.take(visible(held.len()) as int));
    if exists|i: int| 0 <= i < visible(held.len()) && refers_to((#[trigger] held[i]).value, other) {
        let i = choose|i: int|
            0 <= i < visible(held.len()) && refers_to((#[trigger] held[i]).value, other);
        assert(fields[i] == held[i]);
        assert(crate::value::leads_to(fields[i].value, other));
    }
    if crate::value::led_to(fields).contains(other) {
        let i = choose|i: int|
            0 <= i < fields.len() && crate::value::leads_to((#[trigger] fields[i]).value, other);
        assert(fields[i] == held[i]);
    }
}

/// What is listed of a scope: of an object the properties that lie in it, of anything else all.
pub open spec fn items(scope: Scope, properties: Seq<Property>) -> Seq<Property> {
    match scope {
        Scope::Object(_, _) => lying_inside(properties),
        _ => properties,
    }
}

/// Whether `this` is listed: among the locals of a method that runs on an object.
pub open spec fn lists_this(scope: Scope, contents: ScopeContents) -> bool {
    scope is Locals && contents.this is Some && !contents.is_static
}

/// Whether the number `reference` is right for `value` where the scopes `after` have been handed
/// out, the last of them since there were `before`: it leads to what the value consists of, and is
/// 0 for a value that consists of nothing.
pub open spec fn refers_right(value: Value, reference: int, before: nat, after: StateView) -> bool {
    match value {
        Value::Other(_) => reference == 0,
        Value::Ref(None) => reference == 0,
        Value::Ref(Some(inst)) => reference > before && after.scope_at(reference) == Some(
            Scope::Object(inst.fields, inst.class),
        ),
        Value::Struct { container, class, .. } => reference > before && after.scope_at(reference)
            == Some(Scope::Struct(container, class)),
        Value::Array { ptr, typ, .. } => reference > before && after.scope_at(reference) == Some(
            Scope::Array(ptr, typ),
        ),
    }
}

/// Whether `all` are the variables of a scope: `this` where it is listed, and then one variable for
/// each item, in order.
pub open spec fn shows_scope(
    all: Seq<VariableView>,
    scope: Scope,
    contents: ScopeContents,
    objects: Map<usize, Vec<Property>>,
    before: StateView,
    after: StateView,
) -> bool {
    let items = items(scope, contents.properties@);
    let shift: int = if lists_this(scope, contents) {
        1
    } else {
        0
    };
    &&& all.len() == items.len() + shift
    &&& lists_this(scope, contents) ==> all[0].name == "this"@ && all[0].value.len() == 0
        && all[0].variables_reference > before.scopes.len() && after.scope_at(
        all[0].variables_reference,
    ) == Some(Scope::Object(contents.this->0.fields, contents.this->0.class))
    &&& forall|i: int|
        #![trigger items[i]]
        0 <= i < items.len() ==> {
            let v = all[i + shift];
            &&& scope is Array ==> crate::laws::texts::writes(v.name, i)
            &&& !(scope is Array) ==> crate::laws::texts::ends_before(v.name, items[i].name@, '$')
            &&& crate::value::format_value(objects, items[i].value, Set::<usize>::empty()) == Ok::<
                Seq<char>,
                usize,
            >(v.value)
            &&& refers_right(items[i].value, v.variables_reference, before.scopes.len(), after)
        }
    &&& forall|i: int, j: int|
        0 <= i < j < all.len() && all[i].variables_reference != 0 && all[j].variables_reference != 0
            ==> (#[trigger] all[i]).variables_reference < (#[trigger] all[j]).variables_reference
    &&& forall|id: int|
        before.scopes.len() < id && #[trigger] after.scope_at(id) is Some ==> exists|k: int|
            0 <= k < all.len() && #[trigger] leads_by(all, k, id)
}

/// Whether the variable at `k` leads on by the number `id`.
pub open spec fn leads_by(all: Seq<VariableView>, k: int, id: int) -> bool {
    all[k].variables_reference == id
}

/// Whether a listing only handed out scopes: those before it lead where they did, and all else is
/// the same.
pub open spec fn only_hands_out(before: StateView, after: StateView) -> bool {
    &&& after.frames == before.frames
    &&& after.current == before.current
    &&& after.pending == before.pending
    &&& before.scopes.len() <= after.scopes.len()
    &&& forall|id: int| id <= before.scopes.len() ==> #[trigger] after.scope_at(id) == before.scope_at(id)
}

proof fn lemma_opened_grows(entries: Seq<(Seq<char>, Value)>, i: int, j: int)
    requires
        0 <= i < j <= entries.len(),
    ensures
        crate::variables::opened(entries.take(i)).len() <= crate::variables::opened(
            entries.take(j),
        ).len(),
        crate::variables::scope_for(entries[i].1) is Some ==> crate::variables::opened(
            entries.take(i),
        ).len() < crate::variables::opened(entries.take(j)).len(),
{
    let front = entries.take(j);
    assert(front.take(i) =~= entries.take(i));
    crate::laws::lemma_opened_at(front, i);
}

proof fn lemma_opened_by(entries: Seq<(Seq<char>, Value)>, at: int) -> (i: int)
    requires
        0 <= at < crate::variables::opened(entries).len(),
    ensures
        0 <= i < entries.len(),
        crate::variables::scope_for(entries[i].1) is Some,
        crate::variables::opened(entries.take(i)).len() == at,
    decreases entries.len(),
{
    let head = entries.drop_last();
    let last = entries.len() - 1;
    if at < crate::variables::opened(head).len() {
        let i = lemma_opened_by(head, at);
        assert(head.take(i) =~= entries.take(i));
        i
    } else {
        assert(entries.take(last) =~= head);
        last
    }
}

proof fn lemma_listing(
    scope: Scope,
    contents: ScopeContents,
    objects: Map<usize, Vec<Property>>,
    texts: Seq<Seq<char>>,
    before: StateView,
    after: StateView,
)
    requires
        crate::variables::texts(objects, crate::variables::entries(scope, contents.properties@))
            == Ok::<Seq<Seq<char>>, usize>(texts),
        after.scopes == before.scopes + crate::variables::listed_scopes(scope, contents),
        after.frames == before.frames,
        after.current == before.current,
        after.pending == before.pending,
    ensures
        shows_scope(
            crate::variables::listed(scope, contents, texts, before.scopes.len() as int),
            scope,
            contents,
            objects,
            before,
            after,
        ),
        only_hands_out(before, after),
{
    let entries = crate::variables::entries(scope, contents.properties@);
    let these = items(scope, contents.properties@);
    let all = crate::variables::listed(scope, contents, texts, before.scopes.len() as int);
    let shift: int = if lists_this(scope, contents) {
        1
    } else {
        0
    };
    assert((crate::variables::this_scope(scope, contents) is Some) == lists_this(scope, contents));
    assert(entries.len() == these.len());
    crate::variables::lemma_texts(objects, entries);
    assert forall|i: int|
        #![trigger these[i]]
        0 <= i < these.len() implies ({
        let v = all[i + shift];
        &&& scope is Array ==> crate::laws::texts::writes(v.name, i)
        &&& !(scope is Array) ==> crate::laws::texts::ends_before(v.name, these[i].name@, '$')
        &&& crate::value::format_value(objects, these[i].value, Set::<usize>::empty()) == Ok::<
            Seq<char>,
            usize,
        >(v.value)
        &&& refers_right(these[i].value, v.variables_reference, before.scopes.len(), after)
    }) by {
        assert(entries[i].1 == these[i].value);
        crate::laws::lemma_opened_at(entries, i);
        crate::laws::texts::lemma_ends_before(entries[i].0, '$');
        if scope is Array {
            let digits = crate::text::digits(i as nat);
            crate::laws::texts::lemma_writes(i as nat);
            let name = crate::text::before(digits, '$');
            assert(entries[i].0 == digits);
            if name.len() < digits.len() {
                assert(digits[name.len() as int] == '$');
            }
            assert(name =~= digits);
        }
        let own = crate::variables::scope_for(entries[i].1);
        if own is Some {
            let at = crate::variables::opened(entries.take(i)).len() as int;
            let place = before.scopes.len() + shift + at;
            assert(after.scopes[place] == own->0);
            assert(all[i + shift].variables_reference == place + 1);
        }
    }
    assert forall|i: int, j: int|
        0 <= i < j < all.len() && all[i].variables_reference != 0 && all[j].variables_reference
            != 0 implies (#[trigger] all[i]).variables_reference < (
    #[trigger] all[j]).variables_reference by {
        if i >= shift {
            lemma_opened_grows(entries, i - shift, j - shift);
        }
    }
    assert forall|id: int|
        before.scopes.len() < id && #[trigger] after.scope_at(id) is Some implies exists|k: int|
        0 <= k < all.len() && #[trigger] leads_by(all, k, id) by {
        let n = before.scopes.len() as int;
        if lists_this(scope, contents) && id == n + 1 {
            assert(leads_by(all, 0, id));
        } else {
            let i = lemma_opened_by(entries, id - n - shift - 1);
            assert(leads_by(all, i + shift, id));
        }
    }
    assert forall|id: int| id <= before.scopes.len() implies #[trigger] after.scope_at(id)
        == before.scope_at(id) by {}
}

/// A listing shows `this` and each item of the scope, by name, by text and by the scope that it
/// leads to. It fails only for an object that is not known, and then nothing changes.
pub proof fn law_scope_is_listed(
    state: &mut DebugState,
    scope: Scope,
    contents: ScopeContents,
    objects: &Snapshot,
    r: Result<Vec<Variable>, usize>,
)
    requires
        call_ensures(list_variables, (state, scope, &contents, objects), r),
    ensures
        match r {
            Ok(variables) => shows_scope(
                variables@.map_values(|v: Variable| v@),
                scope,
                contents,
                objects@,
                old(state)@,
                final(state)@,
            ) && only_hands_out(old(state)@, final(state)@),
            Err(id) => !objects@.contains_key(id) && final(state)@ == old(state)@,
        },
{
    let entries = crate::variables::entries(scope, contents.properties@);
    objects.lemma_finite();
    match crate::variables::texts(objects@, entries) {
        Ok(texts) => {
            lemma_listing(scope, contents, objects@, texts, old(state)@, final(state)@);
        },
        Err(id) => {
            crate::variables::lemma_texts(objects@, entries);
            let i = choose|i: int|
                0 <= i < entries.len() && crate::value::format_value(
                    objects@,
                    (#[trigger] entries[i]).1,
                    Set::<usize>::empty(),
                ) == Err::<Seq<char>, usize>(id);
            law_error_is_missing(objects@, entries[i].1, Set::<usize>::empty());
        },
    }
}

/// What is put into a snapshot is what it holds, and the rest stays.
pub proof fn law_snapshot(objects: &mut Snapshot, id: usize, properties: Vec<Property>, other: usize)
    requires
        call_ensures(Snapshot::insert, (objects, id, properties), ()),
    ensures
        forall|r: Option<&Vec<Property>>|
            call_ensures(Snapshot::get, (&*final(objects), id), r) ==> r == Some(&properties),
        other != id ==> forall|r: Option<&Vec<Property>>|
            call_ensures(Snapshot::get, (&*final(objects), other), r) ==> (r is Some
                <==> old(objects)@.contains_key(other)) && (r is Some ==> *r->0
                == old(objects)@[other]),
{
}

/// A scope has one variable for each item, and one for `this` where it is listed.
pub proof fn law_scope_is_counted(scope: Scope, contents: ScopeContents, r: usize)
    requires
        call_ensures(count_variables, (scope, &contents), r),
    ensures
        r == items(scope, contents.properties@).len() + (if lists_this(scope, contents) {
            1int
        } else {
            0int
        }),
{
}

/// A request for variables is answered with a part of the listing of the scope: all from the start
/// on, or so many of them as are asked for. It fails only for an object that is not known.
pub proof fn law_variables_answer(
    session: &mut DebugSession,
    query: VariablesQuery,
    contents: ScopeContents,
    objects: &Snapshot,
    r: Result<Reply, usize>,
)
    requires
        query.start matches Some(start) ==> 0 <= start,
        contents.properties@.len() < i64::MAX,
        call_ensures(DebugSession::variables, (session, &query, &contents, objects), r),
    ensures
        match r {
            Ok(reply) => {
                &&& reply.resume is None
                &&& !reply.initialized
                &&& reply.outcome is Continue
                &&& only_hands_out(old(session)@, final(session)@)
                &&& exists|all: Seq<VariableView>| #[trigger]
                    shows_scope(
                        all,
                        query.scope,
                        contents,
                        objects@,
                        old(session)@,
                        final(session)@,
                    ) && answers_part(reply, all, query.start, query.count)
            },
            Err(id) => !objects@.contains_key(id) && final(session)@ == old(session)@,
        },
{
    let entries = crate::variables::entries(query.scope, contents.properties@);
    objects.lemma_finite();
    match crate::variables::texts(objects@, entries) {
        Ok(texts) => {
            let all = crate::variables::listed(
                query.scope,
                contents,
                texts,
                old(session)@.scopes.len() as int,
            );
            lemma_listing(query.scope, contents, objects@, texts, old(session)@, final(session)@);
            contents.properties@.lemma_filter_len(|p: Property| p.in_value_holder);
            assert(shows_scope(
                all,
                query.scope,
                contents,
                objects@,
                old(session)@,
                final(session)@,
            ));
        },
        Err(id) => {
            crate::variables::lemma_texts(objects@, entries);
            let i = choose|i: int|
                0 <= i < entries.len() && crate::value::format_value(
                    objects@,
                    (#[trigger] entries[i]).1,
                    Set::<usize>::empty(),
                ) == Err::<Seq<char>, usize>(id);
            law_error_is_missing(objects@, entries[i].1, Set::<usize>::empty());
        },
    }
}

/// Whether `reply` answers with the variables in `all` from the start on: with `count` of them, or
/// as many as there are where `count` is 0, negative, missing or too large.
pub open spec fn answers_part(
    reply: Reply,
    all: Seq<VariableView>,
    start: Option<i64>,
    count: Option<i64>,
) -> bool {
    let from: int = match start {
        Some(start) => start as int,
        None => 0,
    };
    let to: int = match count {
        Some(count) => if count <= 0 || from + count > all.len() {
            all.len() as int
        } else {
            from + count
        },
        None => all.len() as int,
    };
    reply.body matches Some(ResponseBody::Variables { variables }) && variables@.map_values(
        |v: Variable| v@,
    ) == all.subrange(from, to)
}

/// A request for variables can be answered exactly where its start lies within the listing, a
/// negative count outweighs the start, and there is room for the scopes.
pub proof fn law_variables_accepted(
    session: &DebugSession,
    query: VariablesQuery,
    contents: ScopeContents,
    r: bool,
)
    requires
        call_ensures(DebugSession::accepts_variables, (session, &query, &contents), r),
    ensures
        ({
            let n = items(query.scope, contents.properties@).len() + (if lists_this(
                query.scope,
                contents,
            ) {
                1int
            } else {
                0int
            });
            let from: int = match query.start {
                Some(start) => start as int,
                None => 0,
            };
            r <==> 0 <= from <= n && (query.count matches Some(count) ==> count < 0 ==> from + count < 0)
                && session@.scopes.len() + contents.properties@.len()
                < crate::state::max_scopes()
        }),
{
}

} // verus!
