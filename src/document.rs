use vstd::prelude::*;
use crate::schema::{Field, FieldType, Schema, SchemaError};

verus! {

/// A concrete value of a field.
#[derive(Clone, Debug, PartialEq, Eq)]
pub enum Value {
    Str(String),
    U32(u32),
}

/// A value bound to the field it belongs to.
#[derive(Clone, Debug, PartialEq, Eq)]
pub struct FieldValue {
    pub field: Field,
    pub value: Value,
}

/// Whether a value's kind is the one that a field type accepts.
pub open spec fn value_matches(field_type: FieldType, value: Value) -> bool {
    match (field_type, value) {
        (FieldType::Text(_), Value::Str(_)) => true,
        (FieldType::U32(_), Value::U32(_)) => true,
        _ => false,
    }
}

/// What is wrong with one field value against a schema's entries, if anything.
pub open spec fn field_value_error(schema: Schema, fv: FieldValue) -> Option<SchemaError> {
    if fv.field.0 >= schema.entries().len() {
        Some(SchemaError::UnknownField(fv.field))
    } else if !value_matches(schema.entries()[fv.field.0 as int].spec_field_type(), fv.value) {
        Some(SchemaError::FieldTypeMismatch(fv.field))
    } else {
        None
    }
}

/// A string value for a field declared `u32` is a type mismatch naming that
/// field, and so is a `u32` value for a text field; a document holding such a
/// value fails validation.
pub proof fn lemma_kind_mismatch(schema: Schema, fv: FieldValue)
    requires
        fv.field.0 < schema.entries().len(),
        match (schema.entries()[fv.field.0 as int].spec_field_type(), fv.value) {
            (FieldType::U32(_), Value::Str(_)) => true,
            (FieldType::Text(_), Value::U32(_)) => true,
            _ => false,
        },
    ensures
        field_value_error(schema, fv) == Some(SchemaError::FieldTypeMismatch(fv.field)),
{
}

impl FieldValue {
    pub fn new(field: Field, value: Value) -> (r: Self)
        ensures
            r == (FieldValue { field, value }),
    {
        FieldValue { field, value }
    }

    pub fn field(&self) -> (r: Field)
        ensures
            r == self.field,
    {
        self.field
    }

    pub fn value(&self) -> (r: &Value)
        ensures
            *r == self.value,
    {
        &self.value
    }

    /// Checks the value against the declared type of its field.
    pub fn validate(&self, schema: &Schema) -> (r: Result<(), SchemaError>)
        ensures
            r is Ok <==> field_value_error(*schema, *self) is None,
            r matches Err(e) ==> field_value_error(*schema, *self) == Some(e),
    {
        if self.field.0 as usize >= schema.num_fields() {
            return Err(SchemaError::UnknownField(self.field));
        }
        let ok = match (schema.get_field_entry(self.field).field_type, &self.value) {
            (FieldType::Text(_), Value::Str(_)) => true,
            (FieldType::U32(_), Value::U32(_)) => true,
            _ => false,
        };
        if ok {
            Ok(())
        } else {
            Err(SchemaError::FieldTypeMismatch(self.field))
        }
    }
}

/// An ordered collection of field values; a field may carry several values.
#[derive(Clone, Debug)]
pub struct Document {
    field_values: Vec<FieldValue>,
}

impl Document {
    /// The document's field values in order.
    pub closed spec fn values(&self) -> Seq<FieldValue> {
        self.field_values@
    }

    /// An empty document.
    pub fn new() -> (r: Self)
        ensures
            r.values().len() == 0,
    {
        Document { field_values: Vec::new() }
    }

    /// Number of field values.
    pub fn len(&self) -> (r: usize)
        ensures
            r == self.values().len(),
    {
        self.field_values.len()
    }

    /// The field values in order.
    pub fn field_values(&self) -> (r: &Vec<FieldValue>)
        ensures
            r@ == self.values(),
    {
        &self.field_values
    }

    /// Appends a field value.
    pub fn add(&mut self, field_value: FieldValue)
        ensures
            final(self).values() == old(self).values().push(field_value),
    {
        self.field_values.push(field_value);
    }

    /// Appends a text value for `field`.
    pub fn add_text(&mut self, field: Field, text: &str)
        ensures
            final(self).values().len() == old(self).values().len() + 1,
            final(self).values().take(old(self).values().len() as int) == old(self).values(),
            final(self).values().last().field == field,
            final(self).values().last().value matches Value::Str(s) && s@ == text@,
    {
        let v = FieldValue { field, value: Value::Str(text.to_owned()) };
        self.field_values.push(v);
        assert(self.field_values@.take(old(self).values().len() as int) =~= old(self).values());
    }

    /// Appends a `u32` value for `field`.
    pub fn add_u32(&mut self, field: Field, value: u32)
        ensures
            final(self).values() == old(self).values().push(FieldValue { field, value: Value::U32(value) }),
    {
        self.field_values.push(FieldValue { field, value: Value::U32(value) });
    }

    /// Checks every value against the declared type of its field, and
    /// reports the first one that fails.
    pub fn validate(&self, schema: &Schema) -> (r: Result<(), SchemaError>)
        ensures
            r is Ok <==> forall|i: int|
                0 <= i < self.values().len() ==> (#[trigger] field_value_error(*schema, self.values()[i])) is None,
            r matches Err(e) ==> exists|i: int|
                0 <= i < self.values().len() && (forall|j: int|
                    0 <= j < i ==> (#[trigger] field_value_error(*schema, self.values()[j])) is None)
                    && field_value_error(*schema, #[trigger] self.values()[i]) == Some(e),
    {
        let mut i: usize = 0;
        while i < self.field_values.len()
            invariant
                i <= self.values().len(),
                forall|j: int| 0 <= j < i ==> (#[trigger] field_value_error(*schema, self.values()[j])) is None,
            decreases self.values().len() - i,
        {
            match self.field_values[i].validate(schema) {
                Ok(()) => {},
                Err(e) => {
                    return Err(e);
                },
            }
            i = i + 1;
        }
        Ok(())
    }
}

} // verus!
