//! Values of the game, and how they are shown as text.
use std::collections::BTreeMap;
use vstd::prelude::*;

verus! {

/// An object of the game: its address, the address of its fields, and its class.
#[derive(Debug, Clone, Copy, PartialEq, Eq, Structural)]
pub struct Instance {
    pub id: usize,
    pub fields: usize,
    pub class: u64,
}

/// A value of the game, by the kind of its type. All but references carry the text that the game
/// shows them as.
#[derive(Debug)]
pub enum Value {
    /// A struct: the address of its fields, and its class.
    Struct { container: usize, class: u64, text: String },
    /// A reference, strong or weak, and the object that it leads to.
    Ref(Option<Instance>),
    /// An array of any kind: its address, and its type.
    Array { ptr: usize, typ: usize, text: String },
    /// Any other value.
    Other(String),
}

/// A property of a class, with its value in one object.
#[derive(Debug)]
pub struct Property {
    pub name: String,
    /// Whether the value lies in the object itself.
    pub in_value_holder: bool,
    pub value: Value,
}

/// How many fields of an object are shown.
pub const MAX_FIELDS: usize = 8;

/// The properties of an object that lie in the object itself.
pub open spec fn held(properties: Seq<Property>) -> Seq<Property> {
    properties.filter(|p: Property| p.in_value_holder)
}

/// The properties of an object that are shown: the first few of those that lie in it.
pub open spec fn shown(properties: Seq<Property>) -> Seq<Property> {
    if held(properties).len() <= MAX_FIELDS {
        held(properties)
    } else {
        held(properties).take(MAX_FIELDS as int)
    }
}

/// `value` as text. The objects in `visited` are being shown already, and are not shown again
/// inside of themselves. Where an object is needed that `objects` does not hold, it is the error.
pub open spec fn format_value(
    objects: Map<usize, Vec<Property>>,
    value: Value,
    visited: Set<usize>,
) -> Result<Seq<char>, usize>
    decreases objects.dom().difference(visited).len(), 0nat,
    when objects.dom().finite()
{
    match value {
        Value::Struct { text, .. } => Ok(text@),
        Value::Array { text, .. } => Ok(text@),
        Value::Other(text) => Ok(text@),
        Value::Ref(None) => Ok("null"@),
        Value::Ref(Some(inst)) => {
            if visited.contains(inst.id) {
                Ok("<cyclic>"@)
            } else if !objects.contains_key(inst.id) {
                Err(inst.id)
            } else {
                proof {
                    lemma_fewer_left(objects, visited, inst.id);
                }
                let properties = objects[inst.id]@;
                match format_fields(objects, shown(properties), visited.insert(inst.id)) {
                    Ok(fields) => Ok(
                        "{"@ + fields + (if held(properties).len() > MAX_FIELDS {
                            "..."@
                        } else {
                            Seq::<char>::empty()
                        }) + "}"@,
                    ),
                    Err(id) => Err(id),
                }
            }
        },
    }
}

/// `fields` as text: each name with its value.
pub open spec fn format_fields(
    objects: Map<usize, Vec<Property>>,
    fields: Seq<Property>,
    visited: Set<usize>,
) -> Result<Seq<char>, usize>
    decreases objects.dom().difference(visited).len(), fields.len() + 1,
    when objects.dom().finite()
{
    if fields.len() == 0 {
        Ok(Seq::<char>::empty())
    } else {
        match format_fields(objects, fields.drop_last(), visited) {
            Ok(head) => match format_value(objects, fields.last().value, visited) {
                Ok(text) => Ok(head + fields.last().name@ + ": "@ + text + ", "@),
                Err(id) => Err(id),
            },
            Err(id) => Err(id),
        }
    }
}

/// Showing one more object leaves fewer that can still be shown.
pub proof fn lemma_fewer_left(objects: Map<usize, Vec<Property>>, visited: Set<usize>, id: usize)
    requires
        objects.dom().finite(),
        objects.contains_key(id),
        !visited.contains(id),
    ensures
        objects.dom().difference(visited.insert(id)).len() < objects.dom().difference(visited).len(),
{
    assert(objects.dom().difference(visited.insert(id)) =~= objects.dom().difference(
        visited,
    ).remove(id));
}

/// Objects that were read from the game, with their properties.
#[derive(Debug)]
pub struct Snapshot {
    objects: BTreeMap<usize, Vec<Property>>,
}

impl View for Snapshot {
    type V = Map<usize, Vec<Property>>;

    closed spec fn view(&self) -> Map<usize, Vec<Property>> {
        self.objects@
    }
}

impl Snapshot {
    /// No objects.
    pub fn new() -> (r: Self)
        ensures
            r@ == Map::<usize, Vec<Property>>::empty(),
    {
        Snapshot { objects: BTreeMap::new() }
    }

    /// There are finitely many objects.
    pub proof fn lemma_finite(&self)
        ensures
            self@.dom().finite(),
    {
    }

    /// The properties of the object `id`.
    pub fn get(&self, id: usize) -> (r: Option<&Vec<Property>>)
        ensures
            r == (if self@.contains_key(id) {
                Some(&self@[id])
            } else {
                None
            }),
    {
        self.objects.get(&id)
    }

    /// Takes up the object `id`.
    pub fn insert(&mut self, id: usize, properties: Vec<Property>)
        ensures
            final(self)@ == old(self)@.insert(id, properties),
    {
        self.objects.insert(id, properties);
    }
}

fn is_visited(visited: &Vec<usize>, id: usize) -> (r: bool)
    ensures
        r == visited@.contains(id),
{
    let mut i: usize = 0;
    while i < visited.len()
        invariant
            i <= visited@.len(),
            forall|j: int| 0 <= j < i ==> visited@[j] != id,
        decreases visited@.len() - i,
    {
        if visited[i] == id {
            return true;
        }
        i = i + 1;
    }
    false
}

fn write_value(objects: &Snapshot, value: &Value, visited: &mut Vec<usize>) -> (r: Result<
    String,
    usize,
>)
    ensures
        final(visited)@ == old(visited)@,
        match r {
            Ok(text) => format_value(objects@, *value, old(visited)@.to_set()) == Ok::<
                Seq<char>,
                usize,
            >(text@),
            Err(id) => format_value(objects@, *value, old(visited)@.to_set()) == Err::<
                Seq<char>,
                usize,
            >(id),
        },
    decreases objects@.dom().difference(old(visited)@.to_set()).len(), 0nat,
{
    proof {
        objects.lemma_finite();
    }
    match value {
        Value::Struct { text, .. } => Ok(text.clone()),
        Value::Array { text, .. } => Ok(text.clone()),
        Value::Other(text) => Ok(text.clone()),
        Value::Ref(None) => Ok("null".to_owned()),
        Value::Ref(Some(inst)) => {
            if is_visited(visited, inst.id) {
                return Ok("<cyclic>".to_owned());
            }
            match objects.get(inst.id) {
                None => Err(inst.id),
                Some(properties) => {
                    let ghost before = visited@;
                    visited.push(inst.id);
                    proof {
                        lemma_fewer_left(objects@, before.to_set(), inst.id);
                        assert(visited@.to_set() =~= before.to_set().insert(inst.id)) by {
                            before.lemma_push_to_set_commute(inst.id);
                        }
                    }
                    let fields = write_fields(objects, properties, visited);
                    visited.pop();
                    assert(visited@ =~= before);
                    match fields {
                        Err(id) => Err(id),
                        Ok((fields, more)) => {
                            let mut text = "{".to_owned();
                            text.append(fields.as_str());
                            if more {
                                text.append("...");
                            } else {
                                assert(text@ =~= text@ + Seq::<char>::empty());
                            }
                            text.append("}");
                            Ok(text)
                        },
                    }
                },
            }
        },
    }
}

fn write_fields(objects: &Snapshot, properties: &Vec<Property>, visited: &mut Vec<usize>) -> (r:
    Result<(String, bool), usize>)
    ensures
        final(visited)@ == old(visited)@,
        match r {
            Ok((text, more)) => {
                &&& format_fields(objects@, shown(properties@), old(visited)@.to_set()) == Ok::<
                    Seq<char>,
                    usize,
                >(text@)
                &&& more == (held(properties@).len() > MAX_FIELDS)
            },
            Err(id) => format_fields(objects@, shown(properties@), old(visited)@.to_set())
                == Err::<Seq<char>, usize>(id),
        },
    decreases objects@.dom().difference(old(visited)@.to_set()).len(), MAX_FIELDS + 2,
{
    let mut text = String::new();
    let mut count: usize = 0;
    let mut i: usize = 0;
    let ghost seen = visited@.to_set();
    proof {
        objects.lemma_finite();
        reveal(Seq::filter);
        assert(properties@.take(0) =~= Seq::<Property>::empty());
    }
    while i < properties.len()
        invariant
            i <= properties@.len(),
            visited@ == old(visited)@,
            seen == visited@.to_set(),
            objects@.dom().finite(),
            count == held(properties@.take(i as int)).len(),
            count <= MAX_FIELDS,
            format_fields(objects@, held(properties@.take(i as int)), seen) == Ok::<
                Seq<char>,
                usize,
            >(text@),
        decreases properties@.len() - i,
    {
        let property = &properties[i];
        let ghost head = properties@.take(i as int);
        proof {
            reveal(Seq::filter);
            assert(properties@.take(i + 1) =~= head.push(properties@[i as int]));
            assert(head.push(properties@[i as int]).drop_last() =~= head);
        }
        if property.in_value_holder {
            let ghost fields = held(properties@.take(i + 1));
            proof {
                assert(fields == held(head).push(*property));
                assert(fields.drop_last() =~= held(head));
                lemma_held_prefix(properties@, i + 1);
            }
            if count == MAX_FIELDS {
                proof {
                    assert(held(properties@).take(MAX_FIELDS as int) =~= held(head));
                }
                return Ok((text, true));
            }
            match write_value(objects, &property.value, visited) {
                Err(id) => {
                    proof {
                        assert(format_fields(objects@, fields, seen) == Err::<Seq<char>, usize>(id));
                        lemma_error_stays(objects@, shown(properties@), fields.len() as int, seen);
                        assert(shown(properties@).take(fields.len() as int) =~= fields);
                    }
                    return Err(id);
                },
                Ok(shown) => {
                    text.append(property.name.as_str());
                    text.append(": ");
                    text.append(shown.as_str());
                    text.append(", ");
                },
            }
            count = count + 1;
        }
        i = i + 1;
    }
    assert(properties@.take(i as int) =~= properties@);
    Ok((text, false))
}

/// What lies in the object among its first properties comes first among all that lies in it.
proof fn lemma_held_prefix(properties: Seq<Property>, i: int)
    requires
        0 <= i <= properties.len(),
    ensures
        held(properties.take(i)).len() <= held(properties).len(),
        held(properties).take(held(properties.take(i)).len() as int) == held(properties.take(i)),
{
    let pred = |p: Property| p.in_value_holder;
    assert(properties =~= properties.take(i) + properties.skip(i));
    Seq::filter_distributes_over_add(properties.take(i), properties.skip(i), pred);
    assert(held(properties).take(held(properties.take(i)).len() as int) =~= held(
        properties.take(i),
    ));
}

/// An object that is missing for the first fields is missing for all.
proof fn lemma_error_stays(
    objects: Map<usize, Vec<Property>>,
    fields: Seq<Property>,
    n: int,
    visited: Set<usize>,
)
    requires
        objects.dom().finite(),
        0 <= n <= fields.len(),
        format_fields(objects, fields.take(n), visited) is Err,
    ensures
        format_fields(objects, fields, visited) == format_fields(objects, fields.take(n), visited),
    decreases fields.len(),
{
    if n == fields.len() {
        assert(fields.take(n) =~= fields);
    } else {
        assert(fields.drop_last().take(n) =~= fields.take(n));
        lemma_error_stays(objects, fields.drop_last(), n, visited);
    }
}

/// Whether `value` can be shown without reading any object that is not among `known`.
pub open spec fn leads_into(value: Value, known: Set<usize>) -> bool {
    match value {
        Value::Ref(Some(inst)) => known.contains(inst.id),
        _ => true,
    }
}

/// Whether every object that is shown inside of one of `objects` is among `known`.
pub open spec fn stays_within(objects: Map<usize, Vec<Property>>, known: Set<usize>) -> bool {
    forall|id: usize, i: int| #[trigger]
        objects.contains_key(id) && 0 <= i < shown(objects[id]@).len() ==> leads_into(
            (#[trigger] shown(objects[id]@)[i]).value,
            known,
        )
}

/// Whether `value` leads to the object `id`.
pub open spec fn leads_to(value: Value, id: usize) -> bool {
    value matches Value::Ref(Some(inst)) && inst.id == id
}

/// The objects that the values of `fields` lead to.
pub open spec fn led_to(fields: Seq<Property>) -> Set<usize> {
    Set::new(
        |id: usize|
            exists|i: int|
                0 <= i < fields.len() && leads_to((#[trigger] fields[i]).value, id),
    )
}

proof fn lemma_led_to_push(fields: Seq<Property>, property: Property)
    ensures
        led_to(fields.push(property)) == (match property.value {
            Value::Ref(Some(inst)) => led_to(fields).insert(inst.id),
            _ => led_to(fields),
        }),
{
    let more = fields.push(property);
    let expected = match property.value {
        Value::Ref(Some(inst)) => led_to(fields).insert(inst.id),
        _ => led_to(fields),
    };
    assert forall|id: usize| led_to(more).contains(id) == expected.contains(id) by {
        if led_to(fields).contains(id) {
            let i = choose|i: int|
                0 <= i < fields.len() && leads_to((#[trigger] fields[i]).value, id);
            assert(more[i] == fields[i]);
        }
        if led_to(more).contains(id) {
            let i = choose|i: int|
                0 <= i < more.len() && leads_to((#[trigger] more[i]).value, id);
            if i < fields.len() {
                assert(more[i] == fields[i]);
            }
        }
        assert(more[fields.len() as int] == property);
    }
    assert(led_to(more) =~= expected);
}

/// A value can be shown as text as soon as all objects are there that can be reached from it
/// through fields that are shown.
pub proof fn law_complete_snapshot_shows(
    objects: Map<usize, Vec<Property>>,
    value: Value,
    visited: Set<usize>,
)
    requires
        objects.dom().finite(),
        stays_within(objects, objects.dom()),
        leads_into(value, objects.dom()),
    ensures
        format_value(objects, value, visited) is Ok,
    decreases objects.dom().difference(visited).len(), 0nat,
{
    if let Value::Ref(Some(inst)) = value {
        if !visited.contains(inst.id) {
            lemma_fewer_left(objects, visited, inst.id);
            let fields = shown(objects[inst.id]@);
            assert forall|i: int| 0 <= i < fields.len() implies leads_into(
                (#[trigger] fields[i]).value,
                objects.dom(),
            ) by {
                assert(objects.contains_key(inst.id));
                assert(shown(objects[inst.id]@)[i] == fields[i]);
            }
            lemma_fields_show(objects, fields, visited.insert(inst.id));
        }
    }
}

proof fn lemma_fields_show(
    objects: Map<usize, Vec<Property>>,
    fields: Seq<Property>,
    visited: Set<usize>,
)
    requires
        objects.dom().finite(),
        stays_within(objects, objects.dom()),
        forall|i: int|
            0 <= i < fields.len() ==> leads_into((#[trigger] fields[i]).value, objects.dom()),
    ensures
        format_fields(objects, fields, visited) is Ok,
    decreases objects.dom().difference(visited).len(), fields.len() + 1,
{
    if fields.len() > 0 {
        let head = fields.drop_last();
        assert forall|i: int| 0 <= i < head.len() implies leads_into(
            (#[trigger] head[i]).value,
            objects.dom(),
        ) by {
            assert(head[i] == fields[i]);
        }
        lemma_fields_show(objects, head, visited);
        assert(fields[fields.len() - 1] == fields.last());
        law_complete_snapshot_shows(objects, fields.last().value, visited);
    }
}

/// An object that is being shown is not shown again inside of itself.
pub proof fn law_no_object_inside_itself(
    objects: Map<usize, Vec<Property>>,
    inst: Instance,
    visited: Set<usize>,
)
    requires
        objects.dom().finite(),
        visited.contains(inst.id),
    ensures
        format_value(objects, Value::Ref(Some(inst)), visited) == Ok::<Seq<char>, usize>("<cyclic>"@),
{
}

/// Collects the objects that are needed to show some values. What is not there yet is asked for
/// one object at a time.
#[derive(Debug)]
pub struct ObjectReader {
    objects: Snapshot,
    queue: Vec<usize>,
}

impl ObjectReader {
    /// The objects that have been collected.
    pub closed spec fn objects(&self) -> Map<usize, Vec<Property>> {
        self.objects@
    }

    /// The objects that may still have to be asked for.
    pub closed spec fn queue(&self) -> Set<usize> {
        self.queue@.to_set()
    }

    /// Every object that is needed has been collected or will be asked for.
    pub open spec fn wf(&self) -> bool {
        stays_within(self.objects(), self.objects().dom().union(self.queue()))
    }

    /// Once nothing is left to ask for, every value that leads to a collected object, or to none,
    /// can be shown.
    pub proof fn law_finished_reader_shows(&self, value: Value)
        requires
            self.wf(),
            self.queue() == Set::<usize>::empty(),
            leads_into(value, self.objects().dom()),
        ensures
            format_value(self.objects(), value, Set::<usize>::empty()) is Ok,
    {
        self.objects.lemma_finite();
        assert(self.objects().dom().union(self.queue()) =~= self.objects().dom());
        law_complete_snapshot_shows(self.objects(), value, Set::<usize>::empty());
    }

    /// A reader that has collected nothing.
    pub fn new() -> (r: Self)
        ensures
            r.wf(),
            r.objects() == Map::<usize, Vec<Property>>::empty(),
            r.queue() == Set::<usize>::empty(),
    {
        let r = ObjectReader { objects: Snapshot::new(), queue: Vec::new() };
        assert(r.queue() =~= Set::<usize>::empty());
        r
    }

    /// Makes sure that the object that `value` leads to is asked for.
    pub fn want(&mut self, value: &Value)
        requires
            old(self).wf(),
        ensures
            final(self).wf(),
            final(self).objects() == old(self).objects(),
            final(self).queue() == (match *value {
                Value::Ref(Some(inst)) => old(self).queue().insert(inst.id),
                _ => old(self).queue(),
            }),
    {
        if let Value::Ref(Some(inst)) = value {
            let ghost before = self.queue@;
            self.queue.push(inst.id);
            assert(self.queue() =~= before.to_set().insert(inst.id)) by {
                before.lemma_push_to_set_commute(inst.id);
            }
        }
    }

    /// An object to read: one that is needed and has not been collected, if there is one.
    pub fn next(&mut self) -> (r: Option<usize>)
        requires
            old(self).wf(),
        ensures
            final(self).wf(),
            final(self).objects() == old(self).objects(),
            final(self).queue().subset_of(old(self).queue()),
            forall|id: usize| #[trigger]
                old(self).queue().contains(id) ==> old(self).objects().contains_key(id)
                    || final(self).queue().contains(id),
            match r {
                Some(id) => final(self).queue().contains(id) && !old(self).objects().contains_key(
                    id,
                ),
                None => final(self).queue() == Set::<usize>::empty(),
            },
    {
        let ghost queued = self.queue();
        while self.queue.len() > 0
            invariant
                self.wf(),
                self.objects() == old(self).objects(),
                queued == old(self).queue(),
                self.queue().subset_of(queued),
                forall|other: usize| #[trigger]
                    queued.contains(other) ==> self.objects().contains_key(other)
                        || self.queue().contains(other),
            decreases self.queue@.len(),
        {
            let ghost before = *self;
            let id: usize = self.queue[self.queue.len() - 1];
            match self.objects.get(id) {
                Some(_) => {},
                None => {
                    assert(self.queue@.contains(id));
                    return Some(id);
                },
            }
            self.queue.pop();
            proof {
                assert(before.queue@ =~= self.queue@.push(id));
                self.queue@.lemma_push_to_set_commute(id);
                assert(before.queue() == self.queue().insert(id));
                assert(before.objects().dom().union(before.queue()) =~= self.objects().dom().union(
                    self.queue(),
                ));
            }
        }
        assert(self.queue() =~= Set::<usize>::empty());
        None
    }

    /// Takes up the object `id`, and makes sure that the objects shown inside of it are asked for.
    pub fn provide(&mut self, id: usize, properties: Vec<Property>)
        requires
            old(self).wf(),
        ensures
            final(self).wf(),
            final(self).objects() == old(self).objects().insert(id, properties),
            final(self).queue() == old(self).queue().union(led_to(shown(properties@))),
    {
        let ghost before = *self;
        let mut count: usize = 0;
        let mut i: usize = 0;
        proof {
            reveal(Seq::filter);
            assert(properties@.take(0) =~= Seq::<Property>::empty());
            assert(self.queue() =~= before.queue().union(led_to(held(properties@.take(0)))));
        }
        while i < properties.len() && count < MAX_FIELDS
            invariant
                i <= properties@.len(),
                self.objects() == before.objects(),
                count == held(properties@.take(i as int)).len(),
                count <= MAX_FIELDS,
                self.queue() == before.queue().union(led_to(held(properties@.take(i as int)))),
            decreases properties@.len() - i,
        {
            let ghost head = properties@.take(i as int);
            let ghost queued = self.queue@;
            proof {
                reveal(Seq::filter);
                assert(properties@.take(i + 1) =~= head.push(properties@[i as int]));
                assert(head.push(properties@[i as int]).drop_last() =~= head);
            }
            if properties[i].in_value_holder {
                let ghost property = properties@[i as int];
                assert(held(properties@.take(i + 1)) == held(head).push(property));
                proof {
                    lemma_led_to_push(held(head), property);
                }
                if let Value::Ref(Some(inst)) = &properties[i].value {
                    self.queue.push(inst.id);
                    assert(self.queue() =~= queued.to_set().insert(inst.id)) by {
                        queued.lemma_push_to_set_commute(inst.id);
                    }
                }
                assert(self.queue() =~= before.queue().union(
                    led_to(held(properties@.take(i + 1))),
                ));
                count = count + 1;
            }
            i = i + 1;
        }
        proof {
            lemma_held_prefix(properties@, i as int);
            if i == properties@.len() {
                assert(properties@.take(i as int) =~= properties@);
            }
            assert(shown(properties@) =~= held(properties@.take(i as int)));
        }
        self.objects.insert(id, properties);
        proof {
            assert forall|o: usize, j: int| #[trigger]
                self.objects().contains_key(o) && 0 <= j < shown(
                    self.objects()[o]@,
                ).len() implies leads_into(
                (#[trigger] shown(self.objects()[o]@)[j]).value,
                self.objects().dom().union(self.queue()),
            ) by {
                if o != id {
                    assert(before.objects().contains_key(o));
                    assert(leads_into(
                        shown(before.objects()[o]@)[j].value,
                        before.objects().dom().union(before.queue()),
                    ));
                } else {
                    assert(shown(properties@)[j] == shown(self.objects()[o]@)[j]);
                }
            }
        }
    }

    /// The objects that have been collected.
    pub fn snapshot(&self) -> (r: &Snapshot)
        ensures
            r@ == self.objects(),
    {
        &self.objects
    }
}

/// Shows one value as text. An object that has been shown once is not shown again.
#[derive(Debug)]
pub struct ValueFormatter<'a> {
    value: &'a Value,
    visited: Vec<usize>,
}

impl<'a> ValueFormatter<'a> {
    pub closed spec fn value(&self) -> Value {
        *self.value
    }

    /// The objects that have been shown.
    pub closed spec fn visited(&self) -> Set<usize> {
        self.visited@.to_set()
    }

    pub fn new(value: &'a Value) -> (r: Self)
        ensures
            r.value() == *value,
            r.visited() == Set::<usize>::empty(),
    {
        let r = ValueFormatter { value, visited: Vec::new() };
        assert(r.visited() =~= Set::<usize>::empty());
        r
    }

    /// The value as text, or the first object that is missing for it.
    pub fn fmt(&mut self, objects: &Snapshot) -> (r: Result<String, usize>)
        ensures
            match r {
                Ok(text) => format_value(objects@, old(self).value(), old(self).visited()) == Ok::<
                    Seq<char>,
                    usize,
                >(text@),
                Err(id) => format_value(objects@, old(self).value(), old(self).visited()) == Err::<
                    Seq<char>,
                    usize,
                >(id),
            },
            final(self).value() == old(self).value(),
            final(self).visited() == (match (old(self).value(), r) {
                (Value::Ref(Some(inst)), Ok(_)) => old(self).visited().insert(inst.id),
                _ => old(self).visited(),
            }),
    {
        let ghost before = self.visited@;
        let text = match write_value(objects, self.value, &mut self.visited) {
            Err(id) => {
                return Err(id);
            },
            Ok(text) => text,
        };
        if let Value::Ref(Some(inst)) = self.value {
            self.visited.push(inst.id);
            assert(self.visited() =~= before.to_set().insert(inst.id)) by {
                before.lemma_push_to_set_commute(inst.id);
            }
        }
        Ok(text)
    }
}

} // verus!
