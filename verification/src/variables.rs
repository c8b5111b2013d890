//! The variables of a scope.
use crate::protocol::Variable;
use crate::state::{DebugState, Scope};
use crate::text::{decimal, text_before};
use crate::value::{Instance, Property, Snapshot, Value, ValueFormatter};
use vstd::prelude::*;

verus! {

/// What the game has in a scope.
#[derive(Debug)]
pub struct ScopeContents {
    /// The object that a frame runs on.
    pub this: Option<Instance>,
    /// Whether the function of the frame is static.
    pub is_static: bool,
    /// The variables of a frame, the properties of a class or the elements of an array, with
    /// their values.
    pub properties: Vec<Property>,
}

/// The scope that lists what `value` consists of.
pub open spec fn scope_for(value: Value) -> Option<Scope> {
    match value {
        Value::Struct { container, class, .. } => Some(Scope::Struct(container, class)),
        Value::Ref(Some(inst)) => Some(Scope::Object(inst.fields, inst.class)),
        Value::Ref(None) => None,
        Value::Array { ptr, typ, .. } => Some(Scope::Array(ptr, typ)),
        Value::Other(_) => None,
    }
}

/// The object that is listed as `this`: only among the locals of a function that is not static.
pub open spec fn this_scope(scope: Scope, contents: ScopeContents) -> Option<Scope> {
    match (scope, contents.this) {
        (Scope::Locals(_), Some(inst)) => if contents.is_static {
            None
        } else {
            Some(Scope::Object(inst.fields, inst.class))
        },
        _ => None,
    }
}

/// A name and a value, to be shown as a variable.
#[derive(Debug)]
pub struct Entry<'a> {
    pub name: String,
    pub value: &'a Value,
}

impl<'a> View for Entry<'a> {
    type V = (Seq<char>, Value);

    open spec fn view(&self) -> (Seq<char>, Value) {
        (self.name@, *self.value)
    }
}

/// Properties by their names.
pub open spec fn named_entries(properties: Seq<Property>) -> Seq<(Seq<char>, Value)> {
    properties.map_values(|p: Property| (p.name@, p.value))
}

/// Elements by their positions.
pub open spec fn array_entries(elements: Seq<Property>) -> Seq<(Seq<char>, Value)> {
    Seq::new(elements.len(), |i: int| (crate::text::digits(i as nat), elements[i].value))
}

/// What is listed in a scope: of an object only what lies in the object itself.
pub open spec fn entries(scope: Scope, properties: Seq<Property>) -> Seq<(Seq<char>, Value)> {
    match scope {
        Scope::Array(_, _) => array_entries(properties),
        Scope::Object(_, _) => named_entries(crate::value::held(properties)),
        _ => named_entries(properties),
    }
}

/// The scopes that are handed out for `entries`.
pub open spec fn opened(entries: Seq<(Seq<char>, Value)>) -> Seq<Scope>
    decreases entries.len(),
{
    if entries.len() == 0 {
        Seq::<Scope>::empty()
    } else {
        match scope_for(entries.last().1) {
            Some(scope) => opened(entries.drop_last()).push(scope),
            None => opened(entries.drop_last()),
        }
    }
}

/// The text of each entry, or the first object that is missing for one of them.
pub open spec fn texts(
    objects: Map<usize, Vec<Property>>,
    entries: Seq<(Seq<char>, Value)>,
) -> Result<Seq<Seq<char>>, usize>
    decreases entries.len(),
{
    if entries.len() == 0 {
        Ok(Seq::<Seq<char>>::empty())
    } else {
        match texts(objects, entries.drop_last()) {
            Ok(head) => match crate::value::format_value(
                objects,
                entries.last().1,
                Set::<usize>::empty(),
            ) {
                Ok(text) => Ok(head.push(text)),
                Err(id) => Err(id),
            },
            Err(id) => Err(id),
        }
    }
}

/// The variable that shows an entry. Names are cut at a `$`, behind which the compiler puts what
/// makes them unique. `count` scopes have been handed out before it.
pub open spec fn variable_of(
    entry: (Seq<char>, Value),
    text: Seq<char>,
    count: int,
) -> crate::protocol::VariableView {
    crate::protocol::VariableView {
        name: crate::text::before(entry.0, '$'),
        value: text,
        variables_reference: if scope_for(entry.1) is Some {
            count + 1
        } else {
            0
        },
    }
}

/// The variables that show `entries`, with `count` scopes handed out before them.
pub open spec fn variables_of(
    entries: Seq<(Seq<char>, Value)>,
    texts: Seq<Seq<char>>,
    count: int,
) -> Seq<crate::protocol::VariableView> {
    Seq::new(
        entries.len(),
        |i: int| variable_of(entries[i], texts[i], count + opened(entries.take(i)).len()),
    )
}

/// The variables at the front of a list: `this`, where there is one.
pub open spec fn this_variables(this: Option<Scope>, count: int) -> Seq<
    crate::protocol::VariableView,
> {
    if this is Some {
        seq![
            crate::protocol::VariableView {
                name: "this"@,
                value: Seq::<char>::empty(),
                variables_reference: count + 1,
            },
        ]
    } else {
        Seq::empty()
    }
}

/// All variables of a scope, with `count` scopes handed out before them.
pub open spec fn listed(
    scope: Scope,
    contents: ScopeContents,
    texts: Seq<Seq<char>>,
    count: int,
) -> Seq<crate::protocol::VariableView> {
    let this = this_scope(scope, contents);
    this_variables(this, count) + variables_of(
        entries(scope, contents.properties@),
        texts,
        if this is Some {
            count + 1
        } else {
            count
        },
    )
}

/// The scopes that are handed out when a scope is listed.
pub open spec fn listed_scopes(scope: Scope, contents: ScopeContents) -> Seq<Scope> {
    let rest = opened(entries(scope, contents.properties@));
    match this_scope(scope, contents) {
        Some(this) => seq![this] + rest,
        None => rest,
    }
}

/// The number of variables of a scope.
pub open spec fn listed_len(scope: Scope, contents: ScopeContents) -> int {
    let rest = entries(scope, contents.properties@).len() as int;
    if this_scope(scope, contents) is Some {
        rest + 1
    } else {
        rest
    }
}

/// No more scopes are handed out than variables are listed.
pub proof fn lemma_opened_bound(entries: Seq<(Seq<char>, Value)>)
    ensures
        opened(entries).len() <= entries.len(),
    decreases entries.len(),
{
    if entries.len() > 0 {
        lemma_opened_bound(entries.drop_last());
    }
}

/// A text that is missing for the first entries is missing for all.
proof fn lemma_texts_error_stays(
    objects: Map<usize, Vec<Property>>,
    entries: Seq<(Seq<char>, Value)>,
    n: int,
)
    requires
        0 <= n <= entries.len(),
        texts(objects, entries.take(n)) is Err,
    ensures
        texts(objects, entries) == texts(objects, entries.take(n)),
    decreases entries.len(),
{
    if n == entries.len() {
        assert(entries.take(n) =~= entries);
    } else {
        assert(entries.drop_last().take(n) =~= entries.take(n));
        lemma_texts_error_stays(objects, entries.drop_last(), n);
    }
}

/// Where no object is missing, each entry has its text.
pub proof fn lemma_texts(objects: Map<usize, Vec<Property>>, entries: Seq<(Seq<char>, Value)>)
    ensures
        match texts(objects, entries) {
            Ok(all) => all.len() == entries.len() && forall|i: int|
                0 <= i < entries.len() ==> crate::value::format_value(
                    objects,
                    (#[trigger] entries[i]).1,
                    Set::<usize>::empty(),
                ) == Ok::<Seq<char>, usize>(all[i]),
            Err(id) => exists|i: int|
                0 <= i < entries.len() && crate::value::format_value(
                    objects,
                    (#[trigger] entries[i]).1,
                    Set::<usize>::empty(),
                ) == Err::<Seq<char>, usize>(id),
        },
    decreases entries.len(),
{
    if entries.len() > 0 {
        let head = entries.drop_last();
        lemma_texts(objects, head);
        match texts(objects, head) {
            Ok(all) => {
                match texts(objects, entries) {
                    Ok(more) => {
                        assert forall|i: int|
                            0 <= i < entries.len() implies crate::value::format_value(
                            objects,
                            (#[trigger] entries[i]).1,
                            Set::<usize>::empty(),
                        ) == Ok::<Seq<char>, usize>(more[i]) by {
                            if i < head.len() {
                                assert(head[i] == entries[i]);
                            }
                        }
                    },
                    Err(id) => {
                        assert(entries[entries.len() - 1] == entries.last());
                    },
                }
            },
            Err(id) => {
                let i = choose|i: int|
                    0 <= i < head.len() && crate::value::format_value(
                        objects,
                        (#[trigger] head[i]).1,
                        Set::<usize>::empty(),
                    ) == Err::<Seq<char>, usize>(id);
                assert(entries[i] == head[i]);
            },
        }
    }
}

/// The views of some entries.
pub open spec fn entry_views(entries: Seq<Entry>) -> Seq<(Seq<char>, Value)> {
    entries.map_values(|e: Entry| e@)
}

/// Lists properties by their names. Where `held_only` is set, those that do not lie in the object
/// itself are left out.
fn named_variables<'a>(properties: &'a Vec<Property>, held_only: bool) -> (r: Vec<Entry<'a>>)
    ensures
        entry_views(r@) == named_entries(
            if held_only {
                crate::value::held(properties@)
            } else {
                properties@
            },
        ),
{
    let mut r: Vec<Entry<'a>> = Vec::new();
    let mut i: usize = 0;
    proof {
        reveal(Seq::filter);
        assert(properties@.take(0) =~= Seq::<Property>::empty());
        assert(entry_views(r@) =~= named_entries(Seq::<Property>::empty()));
        assert(crate::value::held(Seq::<Property>::empty()) =~= Seq::<Property>::empty());
    }
    while i < properties.len()
        invariant
            i <= properties@.len(),
            entry_views(r@) == named_entries(
                if held_only {
                    crate::value::held(properties@.take(i as int))
                } else {
                    properties@.take(i as int)
                },
            ),
        decreases properties@.len() - i,
    {
        let property = &properties[i];
        let ghost head = properties@.take(i as int);
        let ghost before = r@;
        proof {
            reveal(Seq::filter);
            assert(properties@.take(i + 1) =~= head.push(*property));
            assert(head.push(*property).drop_last() =~= head);
        }
        if !held_only || property.in_value_holder {
            r.push(Entry { name: property.name.clone(), value: &property.value });
            proof {
                let kept = if held_only {
                    crate::value::held(head)
                } else {
                    head
                };
                assert(entry_views(r@) =~= entry_views(before).push(
                    (property.name@, property.value),
                ));
                assert(named_entries(kept.push(*property)) =~= named_entries(kept).push(
                    (property.name@, property.value),
                ));
            }
        }
        i = i + 1;
    }
    assert(properties@.take(i as int) =~= properties@);
    r
}

/// Lists the elements of an array by their positions.
fn array_variables<'a>(elements: &'a Vec<Property>) -> (r: Vec<Entry<'a>>)
    ensures
        entry_views(r@) == array_entries(elements@),
{
    let mut r: Vec<Entry<'a>> = Vec::new();
    let mut i: usize = 0;
    while i < elements.len()
        invariant
            i <= elements@.len(),
            r@.len() == i,
            forall|j: int|
                0 <= j < i ==> (#[trigger] r@[j])@ == (
                    crate::text::digits(j as nat),
                    elements@[j].value,
                ),
        decreases elements@.len() - i,
    {
        r.push(Entry { name: decimal(i as u64), value: &elements[i].value });
        i = i + 1;
    }
    assert(entry_views(r@) =~= array_entries(elements@));
    r
}

/// Lists what is in a scope.
fn list_entries<'a>(scope: Scope, properties: &'a Vec<Property>) -> (r: Vec<Entry<'a>>)
    ensures
        entry_views(r@) == entries(scope, properties@),
{
    match scope {
        Scope::Array(_, _) => array_variables(properties),
        Scope::Object(_, _) => named_variables(properties, true),
        _ => named_variables(properties, false),
    }
}

/// The number of variables of a scope.
pub fn count_variables(scope: Scope, contents: &ScopeContents) -> (r: usize)
    requires
        contents.properties@.len() < usize::MAX,
    ensures
        r == listed_len(scope, *contents),
{
    let entries = list_entries(scope, &contents.properties);
    assert(entries@.len() == entry_views(entries@).len());
    proof {
        contents.properties@.lemma_filter_len(|p: Property| p.in_value_holder);
    }
    if this_of(scope, contents).is_some() {
        entries.len() + 1
    } else {
        entries.len()
    }
}

fn this_of(scope: Scope, contents: &ScopeContents) -> (r: Option<Scope>)
    ensures
        r == this_scope(scope, *contents),
{
    match (scope, contents.this) {
        (Scope::Locals(_), Some(inst)) => {
            if contents.is_static {
                None
            } else {
                Some(Scope::Object(inst.fields, inst.class))
            }
        },
        _ => None,
    }
}

/// The texts of some entries, or the first object that is missing for one of them.
fn write_entries(entries: &Vec<Entry>, objects: &Snapshot) -> (r: Result<Vec<String>, usize>)
    ensures
        match r {
            Ok(all) => texts(objects@, entry_views(entries@)) == Ok::<Seq<Seq<char>>, usize>(
                all@.map_values(|text: String| text@),
            ),
            Err(id) => texts(objects@, entry_views(entries@)) == Err::<Seq<Seq<char>>, usize>(id),
        },
{
    let mut r: Vec<String> = Vec::new();
    let mut i: usize = 0;
    let ghost views = entry_views(entries@);
    assert(views.take(0) =~= Seq::<(Seq<char>, Value)>::empty());
    assert(r@.map_values(|text: String| text@) =~= Seq::<Seq<char>>::empty());
    while i < entries.len()
        invariant
            i <= entries@.len(),
            views == entry_views(entries@),
            texts(objects@, views.take(i as int)) == Ok::<Seq<Seq<char>>, usize>(
                r@.map_values(|text: String| text@),
            ),
        decreases entries@.len() - i,
    {
        let ghost before = r@;
        proof {
            assert(views.take(i + 1).drop_last() =~= views.take(i as int));
            assert(views.take(i + 1).last() == entries@[i as int]@);
        }
        let mut formatter = ValueFormatter::new(entries[i].value);
        match formatter.fmt(objects) {
            Err(id) => {
                proof {
                    lemma_texts_error_stays(objects@, views, i + 1);
                }
                return Err(id);
            },
            Ok(text) => {
                r.push(text);
                assert(r@.map_values(|text: String| text@) =~= before.map_values(
                    |text: String| text@,
                ).push(text@));
            },
        }
        i = i + 1;
    }
    assert(views.take(i as int) =~= views);
    Ok(r)
}

/// Shows one entry as a variable, and hands out the scope that lists what it consists of.
fn variable(state: &mut DebugState, entry: &Entry, text: String) -> (r: Variable)
    requires
        old(state).wf(),
        old(state)@.scopes.len() < crate::state::max_scopes(),
    ensures
        final(state).wf(),
        r@ == variable_of(entry@, text@, old(state)@.scopes.len() as int),
        final(state)@ == (crate::state::StateView {
            scopes: match scope_for(*entry.value) {
                Some(scope) => old(state)@.scopes.push(scope),
                None => old(state)@.scopes,
            },
            ..old(state)@
        }),
{
    let name = text_before(entry.name.as_str(), '$');
    let scope: Option<Scope> = match entry.value {
        Value::Struct { container, class, .. } => Some(Scope::Struct(*container, *class)),
        Value::Ref(Some(inst)) => Some(Scope::Object(inst.fields, inst.class)),
        Value::Ref(None) => None,
        Value::Array { ptr, typ, .. } => Some(Scope::Array(*ptr, *typ)),
        Value::Other(_) => None,
    };
    let variables_reference: i64 = match scope {
        Some(scope) => state.add_scope(scope),
        None => 0,
    };
    Variable { name, value: text, variables_reference }
}

/// Lists the variables of a scope, and hands out the scopes that list what they consist of. If an
/// object is missing to show one of them, nothing is handed out and the object is the error.
pub fn list_variables(
    state: &mut DebugState,
    scope: Scope,
    contents: &ScopeContents,
    objects: &Snapshot,
) -> (r: Result<Vec<Variable>, usize>)
    requires
        old(state).wf(),
        old(state)@.scopes.len() + contents.properties@.len() < crate::state::max_scopes(),
    ensures
        final(state).wf(),
        match texts(objects@, entries(scope, contents.properties@)) {
            Ok(texts) => {
                &&& r matches Ok(variables) && variables@.map_values(|v: Variable| v@) == listed(
                    scope,
                    *contents,
                    texts,
                    old(state)@.scopes.len() as int,
                )
                &&& final(state)@ == (crate::state::StateView {
                    scopes: old(state)@.scopes + listed_scopes(scope, *contents),
                    ..old(state)@
                })
            },
            Err(id) => r == Err::<Vec<Variable>, usize>(id) && final(state)@ == old(state)@,
        },
{
    let entries = list_entries(scope, &contents.properties);
    let ghost views = entry_views(entries@);
    let ghost before = state@;
    proof {
        contents.properties@.lemma_filter_len(|p: Property| p.in_value_holder);
        assert(views.len() == entries@.len());
        assert(views.len() <= contents.properties@.len());
    }
    let all: Vec<String> = match write_entries(&entries, objects) {
        Err(id) => {
            return Err(id);
        },
        Ok(all) => all,
    };
    let ghost written = all@.map_values(|text: String| text@);
    let mut variables: Vec<Variable> = Vec::new();
    let this = this_of(scope, contents);
    if let Some(this) = this {
        let variables_reference: i64 = state.add_scope(this);
        variables.push(Variable { name: "this".to_owned(), value: String::new(), variables_reference });
    }
    let ghost front = variables@;
    let ghost base = state@.scopes;
    proof {
        lemma_texts(objects@, views);
        assert(front.map_values(|v: Variable| v@) =~= this_variables(
            this,
            before.scopes.len() as int,
        ));
        assert(opened(views.take(0)) =~= Seq::<Scope>::empty());
        assert(base =~= base + opened(views.take(0)));
        assert(variables@.map_values(|v: Variable| v@) =~= front.map_values(|v: Variable| v@)
            + variables_of(views, written, base.len() as int).take(0));
    }
    let mut i: usize = 0;
    while i < entries.len()
        invariant
            state.wf(),
            i <= entries@.len(),
            views == entry_views(entries@),
            all@.len() == entries@.len(),
            written.len() == entries@.len(),
            forall|j: int| i <= j < all@.len() ==> (#[trigger] all@[j])@ == written[j],
            base.len() + views.len() <= crate::state::max_scopes(),
            state@ == (crate::state::StateView {
                scopes: base + opened(views.take(i as int)),
                ..before
            }),
            variables@.map_values(|v: Variable| v@) == front.map_values(|v: Variable| v@)
                + variables_of(views, written, base.len() as int).take(i as int),
        decreases entries@.len() - i,
    {
        let ghost shown = variables@;
        let ghost head = views.take(i as int);
        proof {
            assert(views.take(i + 1).drop_last() =~= head);
            assert(views.take(i + 1).last() == entries@[i as int]@);
            lemma_opened_bound(head);
        }
        let text = all[i].clone();
        let v = variable(state, &entries[i], text);
        proof {
            let expected = variables_of(views, written, base.len() as int);
            assert(v@ == expected[i as int]);
            assert(expected.take(i + 1) =~= expected.take(i as int).push(v@));
        }
        variables.push(v);
        proof {
            assert(variables@.map_values(|v: Variable| v@) =~= shown.map_values(
                |v: Variable| v@,
            ).push(v@));
            assert(state@.scopes =~= base + opened(views.take(i + 1)));
        }
        i = i + 1;
    }
    proof {
        let expected = variables_of(views, written, base.len() as int);
        assert(views.take(i as int) =~= views);
        assert(expected.take(i as int) =~= expected);
        assert(state@.scopes =~= before.scopes + listed_scopes(scope, *contents));
    }
    Ok(variables)
}

} // verus!
