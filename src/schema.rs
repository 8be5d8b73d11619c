use vstd::prelude::*;
use crate::field_name::{is_valid_field_name, valid_field_name};
use crate::options::{TextOptions, U32Options};

verus! {

/// Handle of a field: its position in the schema that produced it.
#[derive(Clone, Copy, Debug, PartialEq, Eq, Structural, Hash)]
pub struct Field(pub u32);

/// The type of a field, with its options; it decides which kind of value the
/// field accepts.
#[derive(Clone, Copy, Debug, PartialEq, Eq, Structural)]
pub enum FieldType {
    Text(TextOptions),
    U32(U32Options),
}

/// Failures of schema construction and document validation.
#[derive(Clone, Copy, Debug, PartialEq, Eq, Structural)]
pub enum SchemaError {
    /// The name is empty or holds a character other than an ASCII letter,
    /// an ASCII digit or `_`.
    InvalidFieldName,
    /// The schema already has a field of that name.
    DuplicateField,
    /// The handle names no field of the schema.
    UnknownField(Field),
    /// The value's kind differs from the declared type of the field.
    FieldTypeMismatch(Field),
    /// The bytes are not the encoding of any schema.
    InvalidEncoding,
}

/// A field's name bound to its type.
#[derive(Clone, Debug, PartialEq, Eq)]
pub struct FieldEntry {
    pub name: String,
    pub field_type: FieldType,
}

impl FieldEntry {
    pub open spec fn spec_name(&self) -> Seq<char> {
        self.name@
    }

    pub open spec fn spec_field_type(&self) -> FieldType {
        self.field_type
    }

    pub fn name(&self) -> (r: &str)
        ensures
            r@ == self.spec_name(),
    {
        self.name.as_str()
    }

    pub fn field_type(&self) -> (r: FieldType)
        ensures
            r == self.spec_field_type(),
    {
        self.field_type
    }

    /// Whether the field's values are kept for retrieval.
    pub fn is_stored(&self) -> (r: bool)
        ensures
            r == match self.spec_field_type() {
                FieldType::Text(o) => o.stored,
                FieldType::U32(o) => o.stored,
            },
    {
        match self.field_type {
            FieldType::Text(o) => o.stored,
            FieldType::U32(o) => o.stored,
        }
    }

    /// Whether the field's values go into the inverted index.
    pub fn is_indexed(&self) -> (r: bool)
        ensures
            r == match self.spec_field_type() {
                FieldType::Text(o) => o.indexing.rank() > 0,
                FieldType::U32(o) => o.indexed,
            },
    {
        match self.field_type {
            FieldType::Text(o) => o.indexing.is_indexed(),
            FieldType::U32(o) => o.indexed,
        }
    }

    /// Whether the field is a `u32` field kept in a fast column.
    pub fn is_u32_fast(&self) -> (r: bool)
        ensures
            r == match self.spec_field_type() {
                FieldType::Text(_) => false,
                FieldType::U32(o) => o.fast,
            },
    {
        match self.field_type {
            FieldType::Text(_) => false,
            FieldType::U32(o) => o.fast,
        }
    }
}

/// The ordered registry of a schema's fields.
#[derive(Clone, Debug)]
pub struct Schema {
    fields: Vec<FieldEntry>,
}

/// The names of a sequence of entries, in order.
pub open spec fn names_of(entries: Seq<FieldEntry>) -> Seq<Seq<char>> {
    entries.map_values(|e: FieldEntry| e.spec_name())
}

/// Whether some entry bears `name`.
pub open spec fn has_name(entries: Seq<FieldEntry>, name: Seq<char>) -> bool {
    exists|i: int| 0 <= i < entries.len() && #[trigger] entries[i].spec_name() == name
}

/// A list of names and types that a schema can have: every name is well
/// formed, no two share a name, and every handle fits in a `u32`.
pub open spec fn view_wf(fields: Seq<(Seq<char>, FieldType)>) -> bool {
    &&& fields.len() <= u32::MAX
    &&& forall|i: int| 0 <= i < fields.len() ==> valid_field_name(#[trigger] fields[i].0)
    &&& forall|i: int, j: int|
        0 <= i < fields.len() && 0 <= j < fields.len() && i != j ==> #[trigger] fields[i].0
            != #[trigger] fields[j].0
}

/// Every name is well formed, no two entries share a name, and every handle
/// fits in a `u32`.
pub open spec fn entries_wf(entries: Seq<FieldEntry>) -> bool {
    &&& entries.len() <= u32::MAX
    &&& forall|i: int| 0 <= i < entries.len() ==> valid_field_name(#[trigger] entries[i].spec_name())
    &&& forall|i: int, j: int|
        0 <= i < entries.len() && 0 <= j < entries.len() && i != j ==> #[trigger] entries[i].spec_name()
            != #[trigger] entries[j].spec_name()
}

impl Schema {
    /// The schema's entries in order; the entry of `Field(i)` is the `i`-th.
    pub closed spec fn entries(&self) -> Seq<FieldEntry> {
        self.fields@
    }

    pub open spec fn wf(&self) -> bool {
        entries_wf(self.entries())
    }

    /// The schema as an ordered list of names and types.
    pub open spec fn view(&self) -> Seq<(Seq<char>, FieldType)> {
        self.entries().map_values(|e: FieldEntry| (e.spec_name(), e.spec_field_type()))
    }

    /// An empty schema.
    pub fn new() -> (r: Self)
        ensures
            r.wf(),
            r.entries().len() == 0,
    {
        Schema { fields: Vec::new() }
    }

    /// Number of fields.
    pub fn num_fields(&self) -> (r: usize)
        ensures
            r == self.entries().len(),
    {
        self.fields.len()
    }

    /// The entries in order.
    pub fn fields(&self) -> (r: &Vec<FieldEntry>)
        ensures
            r@ == self.entries(),
    {
        &self.fields
    }

    /// The handle of the field named `name`, if there is one.
    pub fn get_field(&self, name: &str) -> (r: Option<Field>)
        requires
            self.wf(),
        ensures
            r is None <==> !has_name(self.entries(), name@),
            r matches Some(f) ==> f.0 < self.entries().len() && self.entries()[f.0 as int].spec_name() == name@,
    {
        let key = name.to_owned();
        let mut i: usize = 0;
        while i < self.fields.len()
            invariant
                self.wf(),
                key@ == name@,
                i <= self.fields@.len(),
                forall|k: int| 0 <= k < i ==> #[trigger] self.fields@[k].spec_name() != name@,
            decreases self.fields@.len() - i,
        {
            if self.fields[i].name == key {
                assert(self.fields@[i as int].spec_name() == name@);
                return Some(Field(i as u32));
            }
            i = i + 1;
        }
        None
    }

    /// The entry of `field`; the handle must come from this schema.
    pub fn get_field_entry(&self, field: Field) -> (r: &FieldEntry)
        requires
            field.0 < self.entries().len(),
        ensures
            *r == self.entries()[field.0 as int],
    {
        &self.fields[field.0 as usize]
    }

    /// Appends a field of the given type and returns its handle, or fails
    /// without change when the name is malformed or already taken.
    pub fn add_field(&mut self, name: &str, field_type: FieldType) -> (r: Result<Field, SchemaError>)
        requires
            old(self).wf(),
            old(self).entries().len() < u32::MAX,
        ensures
            final(self).wf(),
            !valid_field_name(name@) ==> r == Err::<Field, SchemaError>(SchemaError::InvalidFieldName),
            valid_field_name(name@) && has_name(old(self).entries(), name@) ==> r == Err::<Field, SchemaError>(
                SchemaError::DuplicateField,
            ),
            r is Err ==> final(self).entries() == old(self).entries(),
            valid_field_name(name@) && !has_name(old(self).entries(), name@) ==> {
                &&& r == Ok::<Field, SchemaError>(Field(old(self).entries().len() as u32))
                &&& final(self).entries().len() == old(self).entries().len() + 1
                &&& final(self).entries().take(old(self).entries().len() as int) == old(self).entries()
                &&& final(self).entries().last().spec_name() == name@
                &&& final(self).entries().last().spec_field_type() == field_type
            },
    {
        if !is_valid_field_name(name) {
            return Err(SchemaError::InvalidFieldName);
        }
        if let Some(_) = self.get_field(name) {
            return Err(SchemaError::DuplicateField);
        }
        let ghost before = self.fields@;
        let n = self.fields.len();
        let entry = FieldEntry { name: name.to_owned(), field_type };
        self.fields.push(entry);
        proof {
            assert(self.fields@.take(n as int) =~= before);
            assert forall|i: int, j: int|
                0 <= i < self.fields@.len() && 0 <= j < self.fields@.len() && i != j implies
                #[trigger] self.fields@[i].spec_name() != #[trigger] self.fields@[j].spec_name() by {
                if i == n as int {
                    assert(before[j].spec_name() == self.fields@[j].spec_name());
                } else if j == n as int {
                    assert(before[i].spec_name() == self.fields@[i].spec_name());
                }
            }
        }
        Ok(Field(n as u32))
    }

    /// Appends a text field; see `add_field`.
    pub fn add_text_field(&mut self, name: &str, options: TextOptions) -> (r: Result<Field, SchemaError>)
        requires
            old(self).wf(),
            old(self).entries().len() < u32::MAX,
        ensures
            final(self).wf(),
            !valid_field_name(name@) ==> r == Err::<Field, SchemaError>(SchemaError::InvalidFieldName),
            valid_field_name(name@) && has_name(old(self).entries(), name@) ==> r == Err::<Field, SchemaError>(
                SchemaError::DuplicateField,
            ),
            r is Err ==> final(self).entries() == old(self).entries(),
            valid_field_name(name@) && !has_name(old(self).entries(), name@) ==> {
                &&& r == Ok::<Field, SchemaError>(Field(old(self).entries().len() as u32))
                &&& final(self).entries().len() == old(self).entries().len() + 1
                &&& final(self).entries().take(old(self).entries().len() as int) == old(self).entries()
                &&& final(self).entries().last().spec_name() == name@
                &&& final(self).entries().last().spec_field_type() == FieldType::Text(options)
            },
    {
        self.add_field(name, FieldType::Text(options))
    }

    /// Appends a `u32` field; see `add_field`.
    pub fn add_u32_field(&mut self, name: &str, options: U32Options) -> (r: Result<Field, SchemaError>)
        requires
            old(self).wf(),
            old(self).entries().len() < u32::MAX,
        ensures
            final(self).wf(),
            !valid_field_name(name@) ==> r == Err::<Field, SchemaError>(SchemaError::InvalidFieldName),
            valid_field_name(name@) && has_name(old(self).entries(), name@) ==> r == Err::<Field, SchemaError>(
                SchemaError::DuplicateField,
            ),
            r is Err ==> final(self).entries() == old(self).entries(),
            valid_field_name(name@) && !has_name(old(self).entries(), name@) ==> {
                &&& r == Ok::<Field, SchemaError>(Field(old(self).entries().len() as u32))
                &&& final(self).entries().len() == old(self).entries().len() + 1
                &&& final(self).entries().take(old(self).entries().len() as int) == old(self).entries()
                &&& final(self).entries().last().spec_name() == name@
                &&& final(self).entries().last().spec_field_type() == FieldType::U32(options)
            },
    {
        self.add_field(name, FieldType::U32(options))
    }
}

} // verus!

verus! {

/// Once `name` has been registered under `f`, the name counts as taken, so
/// registering it again fails with `DuplicateField` and leaves the entries,
/// and with them the entry that `f` designates, unchanged.
pub proof fn lemma_registered_name_is_taken(entries: Seq<FieldEntry>, f: Field, name: Seq<char>)
    requires
        entries_wf(entries),
        f.0 < entries.len(),
        entries[f.0 as int].spec_name() == name,
    ensures
        valid_field_name(name),
        has_name(entries, name),
{
}

} // verus!

verus! {

/// A well-formed schema's list of names and types is one that a schema can
/// have.
pub proof fn lemma_view_wf(s: Schema)
    requires
        s.wf(),
    ensures
        view_wf(s.view()),
{
    assert forall|i: int, j: int|
        0 <= i < s.view().len() && 0 <= j < s.view().len() && i != j implies #[trigger] s.view()[i].0
        != #[trigger] s.view()[j].0 by {
        assert(s.view()[i].0 == s.entries()[i].spec_name());
        assert(s.view()[j].0 == s.entries()[j].spec_name());
    }
    assert forall|i: int| 0 <= i < s.view().len() implies valid_field_name(#[trigger] s.view()[i].0) by {
        assert(s.view()[i].0 == s.entries()[i].spec_name());
    }
}

} // verus!
