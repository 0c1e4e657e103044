//! The data that crosses the boundary between the store and a sink.

use crate::text::{
    precedes, precedes_irreflexive, precedes_total, precedes_transitive, text_precedes,
};
use vstd::prelude::*;

verus! {

/// The id of a deployment (the `Qm…` hash).
#[derive(Clone, Debug)]
pub struct DeploymentHash {
    pub id: String,
}

impl View for DeploymentHash {
    type V = Seq<char>;

    open spec fn view(&self) -> Seq<char> {
        self.id@
    }
}

impl DeploymentHash {
    /// The id as text.
    pub fn as_str(&self) -> (id: &str)
        ensures
            id@ == self@,
            id@ == self.id@,
    {
        self.id.as_str()
    }
}

/// An entity type of a deployment, known by its name.
#[derive(Clone, Debug)]
pub struct EntityType {
    pub name: String,
}

impl View for EntityType {
    type V = Seq<char>;

    open spec fn view(&self) -> Seq<char> {
        self.name@
    }
}

impl EntityType {
    /// The name of the type.
    pub fn as_str(&self) -> (name: &str)
        ensures
            name@ == self@,
            name@ == self.name@,
    {
        self.name.as_str()
    }
}

/// A block, known by its number.
#[derive(Clone, Copy, Debug)]
pub struct BlockPtr {
    pub number: i32,
}

/// The time of a block, in whole seconds since the Unix epoch.
#[derive(Clone, Copy, Debug)]
pub struct BlockTime {
    pub seconds: i64,
}

/// Nanoseconds in a second.
pub const NANOS_PER_SECOND: i64 = 1_000_000_000;

impl BlockTime {
    /// The time in nanoseconds since the Unix epoch.
    pub open spec fn nanos(self) -> int {
        self.seconds * NANOS_PER_SECOND
    }

    /// Whether the time in nanoseconds is an `i64`.
    pub open spec fn in_range(self) -> bool {
        i64::MIN <= self.nanos() <= i64::MAX
    }

    /// Tells whether the time in nanoseconds is an `i64`.
    pub fn fits_nanos(&self) -> (fits: bool)
        ensures
            fits == self.in_range(),
    {
        -9_223_372_036 <= self.seconds && self.seconds <= 9_223_372_036
    }

    /// The time in nanoseconds since the Unix epoch.
    pub fn as_nanos(&self) -> (nanos: i64)
        requires
            self.in_range(),
        ensures
            nanos == self.nanos(),
    {
        self.seconds * NANOS_PER_SECOND
    }
}

/// A decimal number as the exporter sees it.
#[derive(Clone, Debug)]
pub struct Decimal {
    /// The number in decimal notation.
    pub text: String,
    /// The IEEE 754 bits of the double that `text` reads as, if it reads as one.
    pub double: Option<u64>,
}

/// Whether IEEE 754 bits stand for a finite double: without the sign they stay below the bits of
/// infinity.
pub open spec fn finite_bits(bits: u64) -> bool {
    bits % 0x8000_0000_0000_0000 < 0x7ff0_0000_0000_0000
}

/// Tells whether IEEE 754 bits stand for a finite double.
pub fn is_finite(bits: u64) -> (finite: bool)
    ensures
        finite == finite_bits(bits),
{
    bits % 0x8000_0000_0000_0000 < 0x7ff0_0000_0000_0000
}

/// The value of an entity field.
///
/// Numbers that do not fit a machine word, byte strings and timestamps are held as the text that
/// is exported for them, a list as the texts of its elements.
#[derive(Clone, Debug)]
pub enum Value {
    String(String),
    Int(i32),
    Int8(i64),
    Timestamp(String),
    BigDecimal(Decimal),
    Bool(bool),
    List(Vec<String>),
    Bytes(String),
    BigInt(String),
    Null,
}

/// The value of the field with the name.
pub open spec fn field_value(fields: Seq<(String, Value)>, name: Seq<char>) -> Value {
    fields[field_position(fields, name)].1
}

/// Among sorted fields a name has one position.
proof fn lemma_position(fields: Seq<(String, Value)>, i: int)
    requires
        sorted_by_name(fields),
        0 <= i < fields.len(),
    ensures
        has_field(fields, fields[i].0@),
        field_position(fields, fields[i].0@) == i,
{
    let name = fields[i].0@;
    assert(has_field(fields, name));
    let j = field_position(fields, name);
    precedes_irreflexive(name);
    if j < i {
        assert(precedes(fields[j].0@, fields[i].0@));
    } else if i < j {
        assert(precedes(fields[i].0@, fields[j].0@));
    }
}

/// A field in place of one with the same name leaves the order as it is.
proof fn lemma_replaced(fields: Seq<(String, Value)>, at: int, field: (String, Value))
    requires
        sorted_by_name(fields),
        0 <= at < fields.len(),
        fields[at].0@ == field.0@,
    ensures
        sorted_by_name(fields.update(at, field)),
{
    let after = fields.update(at, field);
    assert forall|i: int, j: int| 0 <= i < j < after.len() implies precedes(
        #[trigger] after[i].0@,
        #[trigger] after[j].0@,
    ) by {
        assert(precedes(fields[i].0@, fields[j].0@));
    }
}

/// A field between those before it and those after it leaves the fields in order.
proof fn lemma_inserted(fields: Seq<(String, Value)>, at: int, field: (String, Value))
    requires
        sorted_by_name(fields),
        0 <= at <= fields.len(),
        forall|i: int| 0 <= i < at ==> precedes(#[trigger] fields[i].0@, field.0@),
        at < fields.len() ==> !precedes(fields[at].0@, field.0@),
        at < fields.len() ==> fields[at].0@ != field.0@,
    ensures
        sorted_by_name(fields.insert(at, field)),
{
    let after = fields.insert(at, field);
    assert forall|j: int| at <= j < fields.len() implies precedes(
        field.0@,
        #[trigger] fields[j].0@,
    ) by {
        precedes_total(fields[at].0@, field.0@);
        if at < j {
            assert(precedes(fields[at].0@, fields[j].0@));
            precedes_transitive(field.0@, fields[at].0@, fields[j].0@);
        }
    }
    assert forall|i: int, j: int| 0 <= i < j < after.len() implies precedes(
        #[trigger] after[i].0@,
        #[trigger] after[j].0@,
    ) by {
        let left = if i < at { i } else { i - 1 };
        let right = if j < at { j } else { j - 1 };
        if i != at && j != at {
            assert(precedes(fields[left].0@, fields[right].0@));
        } else if i == at {
            assert(precedes(field.0@, fields[right].0@));
        } else {
            assert(precedes(fields[left].0@, field.0@));
        }
    }
}

/// Looking a name up after a field was set finds the new value under its name and the earlier
/// value under every other name.
proof fn lemma_same_map(
    before: Seq<(String, Value)>,
    after: Seq<(String, Value)>,
    name: Seq<char>,
    value: Value,
    at: int,
)
    requires
        sorted_by_name(before),
        sorted_by_name(after),
        0 <= at < after.len(),
        after[at].0@ == name,
        after[at].1 == value,
        ({
            ||| after == before.insert(at, after[at]) && at <= before.len()
            ||| after == before.update(at, after[at]) && at < before.len() && before[at].0@ == name
        }),
    ensures
        has_field(after, name),
        field_value(after, name) == value,
        forall|other: Seq<char>| #![trigger has_field(after, other)]
            other != name ==> has_field(after, other) == has_field(before, other),
        forall|other: Seq<char>| #![trigger field_value(after, other)]
            other != name && has_field(before, other) ==> field_value(after, other) == field_value(
                before,
                other,
            ),
{
    lemma_position(after, at);
    let grown = after.len() > before.len();
    assert forall|other: Seq<char>| other != name && #[trigger] has_field(after, other) implies has_field(
        before,
        other,
    ) by {
        let i = field_position(after, other);
        assert(after[i] == before[if grown && i > at { i - 1 } else { i }]);
    }
    assert forall|other: Seq<char>| other != name && #[trigger] has_field(before, other) implies has_field(
        after,
        other,
    ) && field_value(after, other) == field_value(before, other) by {
        let j = field_position(before, other);
        let i = if grown && j >= at { j + 1 } else { j };
        assert(after[i] == before[j]);
        lemma_position(after, i);
    }
}

/// Setting a field keeps the fields with other names and brings no others.
proof fn lemma_same_fields(
    before: Seq<(String, Value)>,
    after: Seq<(String, Value)>,
    field: (String, Value),
    at: int,
)
    requires
        ({
            ||| 0 <= at <= before.len() && after == before.insert(at, field)
            ||| 0 <= at < before.len() && after == before.update(at, field) && before[at].0@
                == field.0@
        }),
    ensures
        after.contains(field),
        forall|i: int|
            0 <= i < before.len() && (#[trigger] before[i]).0@ != field.0@ ==> after.contains(before[i]),
        forall|i: int|
            0 <= i < after.len() && (#[trigger] after[i]).0@ != field.0@ ==> before.contains(after[i]),
{
    let grown = after.len() > before.len();
    assert(after[at] == field);
    assert forall|i: int| 0 <= i < before.len() && (#[trigger] before[i]).0@ != field.0@ implies after.contains(
        before[i],
    ) by {
        assert(after[if grown && i >= at { i + 1 } else { i }] == before[i]);
    }
    assert forall|i: int| 0 <= i < after.len() && (#[trigger] after[i]).0@ != field.0@ implies before.contains(
        after[i],
    ) by {
        assert(before[if grown && i > at { i - 1 } else { i }] == after[i]);
    }
}

/// An entity: its fields, each known by its name, in the order of the names.
#[derive(Debug)]
pub struct Entity {
    fields: Vec<(String, Value)>,
}

/// Whether each field's name comes before the names of all later fields.
pub open spec fn sorted_by_name(fields: Seq<(String, Value)>) -> bool {
    forall|i: int, j: int|
        0 <= i < j < fields.len() ==> precedes(#[trigger] fields[i].0@, #[trigger] fields[j].0@)
}

/// Whether one of the fields has the name.
pub open spec fn has_field(fields: Seq<(String, Value)>, name: Seq<char>) -> bool {
    exists|i: int| 0 <= i < fields.len() && #[trigger] fields[i].0@ == name
}

/// The position of a field with the name.
pub open spec fn field_position(fields: Seq<(String, Value)>, name: Seq<char>) -> int {
    choose|i: int| 0 <= i < fields.len() && #[trigger] fields[i].0@ == name
}

impl View for Entity {
    type V = Map<Seq<char>, Value>;

    open spec fn view(&self) -> Map<Seq<char>, Value> {
        Map::new(
            |name: Seq<char>| has_field(self.fields(), name),
            |name: Seq<char>| field_value(self.fields(), name),
        )
    }
}

impl Entity {
    /// The fields in their stored order.
    pub closed spec fn fields(&self) -> Seq<(String, Value)> {
        self.fields@
    }

    /// The fields are in the order of their names, so no name occurs twice.
    #[verifier::type_invariant]
    spec fn well_formed(&self) -> bool {
        sorted_by_name(self.fields@)
    }

    /// An entity without fields.
    pub fn new() -> (entity: Entity)
        ensures
            entity.fields() == Seq::<(String, Value)>::empty(),
            entity@ == Map::<Seq<char>, Value>::empty(),
    {
        let entity = Entity { fields: Vec::new() };
        assert(entity@ =~= Map::<Seq<char>, Value>::empty());
        entity
    }

    /// Sets the field `name`, in place of a value that it had.
    pub fn insert(&mut self, name: String, value: Value)
        ensures
            sorted_by_name(final(self).fields()),
            final(self)@ == old(self)@.insert(name@, value),
            final(self).fields().contains((name, value)),
            forall|i: int|
                0 <= i < old(self).fields().len() && (#[trigger] old(self).fields()[i]).0@ != name@
                    ==> final(self).fields().contains(old(self).fields()[i]),
            forall|i: int|
                0 <= i < final(self).fields().len() && (#[trigger] final(self).fields()[i]).0@ != name@
                    ==> old(self).fields().contains(final(self).fields()[i]),
    {
        proof {
            use_type_invariant(&*self);
        }
        let ghost before = self.fields@;
        let mut fields: Vec<(String, Value)> = Vec::new();
        std::mem::swap(&mut fields, &mut self.fields);
        let mut at: usize = 0;
        while at < fields.len() && text_precedes(fields[at].0.as_str(), name.as_str())
            invariant
                at <= fields@.len(),
                fields@ == before,
                forall|i: int| 0 <= i < at ==> precedes(#[trigger] before[i].0@, name@),
            ensures
                at <= fields@.len(),
                fields@ == before,
                forall|i: int| 0 <= i < at ==> precedes(#[trigger] before[i].0@, name@),
                at < before.len() ==> !precedes(before[at as int].0@, name@),
            decreases fields@.len() - at,
        {
            at = at + 1;
        }
        let ghost key = name@;
        let ghost field = (name, value);
        if at < fields.len() && fields[at].0 == name {
            fields.set(at, (name, value));
            proof {
                lemma_replaced(before, at as int, field);
            }
        } else {
            fields.insert(at, (name, value));
            proof {
                lemma_inserted(before, at as int, field);
            }
        }
        proof {
            lemma_same_map(before, fields@, key, value, at as int);
            lemma_same_fields(before, fields@, field, at as int);
        }
        self.fields = fields;
        assert(self@ =~= old(self)@.insert(key, value));
    }

    /// The fields in the order of their names.
    pub fn sorted_ref(&self) -> (fields: &Vec<(String, Value)>)
        ensures
            fields@ == self.fields(),
            sorted_by_name(fields@),
    {
        proof {
            use_type_invariant(self);
        }
        &self.fields
    }
}

impl Clone for Entity {
    fn clone(&self) -> (copy: Entity)
        ensures
            copy.fields().len() == self.fields().len(),
            forall|i: int|
                0 <= i < self.fields().len() ==> (#[trigger] copy.fields()[i]).0 == self.fields()[i].0
                    && cloned(self.fields()[i].1, copy.fields()[i].1),
    {
        proof {
            use_type_invariant(self);
        }
        let mut fields: Vec<(String, Value)> = Vec::new();
        for i in 0..self.fields.len()
            invariant
                fields@.len() == i,
                forall|j: int|
                    0 <= j < i ==> (#[trigger] fields@[j]).0 == self.fields@[j].0 && cloned(
                        self.fields@[j].1,
                        fields@[j].1,
                    ),
        {
            let field = &self.fields[i];
            fields.push((field.0.clone(), field.1.clone()));
        }
        assert forall|i: int, j: int| 0 <= i < j < fields@.len() implies precedes(
            #[trigger] fields@[i].0@,
            #[trigger] fields@[j].0@,
        ) by {
            assert(precedes(self.fields@[i].0@, self.fields@[j].0@));
        }
        Entity { fields }
    }
}

/// A double is finite unless all eleven bits of its exponent are set.
pub proof fn finite_unless_the_exponent_is_full(bits: u64, finite: bool)
    requires
        call_ensures(is_finite, (bits,), finite),
    ensures
        finite <==> (bits / 0x10_0000_0000_0000) % 0x800 != 0x7ff,
{
    assert((bits % 0x8000_0000_0000_0000 < 0x7ff0_0000_0000_0000) == ((bits / 0x10_0000_0000_0000)
        % 0x800 != 0x7ff)) by (bit_vector);
}

/// A second has a thousand million nanoseconds, and a time is in range as long as they are an `i64`.
pub proof fn seconds_make_nanoseconds(time: BlockTime, fits: bool, nanos: i64)
    requires
        call_ensures(BlockTime::fits_nanos, (&time,), fits),
        call_ensures(BlockTime::as_nanos, (&time,), nanos),
    ensures
        fits <==> i64::MIN <= time.seconds * 1_000_000_000 <= i64::MAX,
        fits ==> nanos == time.seconds * 1_000_000_000,
        fits ==> call_requires(BlockTime::as_nanos, (&time,)),
{
}

/// Ids and types are the texts that they were made of.
pub proof fn texts_are_handed_out_whole(
    deployment: DeploymentHash,
    id: &str,
    entity_type: EntityType,
    name: &str,
)
    requires
        call_ensures(DeploymentHash::as_str, (&deployment,), id),
        call_ensures(EntityType::as_str, (&entity_type,), name),
    ensures
        id@ == deployment.id@,
        name@ == entity_type.name@,
{
}

/// The fields that an entity hands out are in the strict order of their names.
pub proof fn fields_come_in_the_order_of_their_names(
    entity: Entity,
    fields: &Vec<(String, Value)>,
    i: int,
    j: int,
)
    requires
        call_ensures(Entity::sorted_ref, (&entity,), fields),
        0 <= i < j < fields@.len(),
    ensures
        precedes(fields@[i].0@, fields@[j].0@),
        fields@[i].0@ != fields@[j].0@,
{
    precedes_irreflexive(fields@[i].0@);
}

/// A field that was set is read back, the other fields are read back as they were, and there are no
/// others.
pub proof fn fields_are_read_back(
    entity: &mut Entity,
    name: String,
    value: Value,
    before: &Vec<(String, Value)>,
    after: &Vec<(String, Value)>,
)
    requires
        call_ensures(Entity::sorted_ref, (&*old(entity),), before),
        call_ensures(Entity::insert, (entity, name, value), ()),
        call_ensures(Entity::sorted_ref, (&*final(entity),), after),
    ensures
        after@.contains((name, value)),
        forall|i: int|
            0 <= i < before@.len() && (#[trigger] before@[i]).0@ != name@ ==> after@.contains(before@[i]),
        forall|i: int|
            0 <= i < after@.len() ==> (#[trigger] after@[i]).1 == value && after@[i].0@ == name@
                || before@.contains(after@[i]) && after@[i].0@ != name@,
{
    let at = choose|k: int| 0 <= k < after@.len() && after@[k] == (name, value);
    assert forall|i: int| 0 <= i < after@.len() && (#[trigger] after@[i]).0@ == name@ implies i == at by {
        fields_come_in_one_place(*after, i, at);
    }
}

/// Among sorted fields no two have one name.
proof fn fields_come_in_one_place(fields: Vec<(String, Value)>, i: int, j: int)
    requires
        sorted_by_name(fields@),
        0 <= i < fields@.len(),
        0 <= j < fields@.len(),
        fields@[i].0@ == fields@[j].0@,
    ensures
        i == j,
{
    lemma_position(fields@, i);
    lemma_position(fields@, j);
}

} // verus!
