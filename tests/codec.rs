use schema_model::{Field, FieldType, Schema, SchemaError, TextIndexingOptions, TextOptions, U32Options};

fn sample_schema() -> Schema {
    let mut schema = Schema::new();
    schema.add_text_field("title", TextOptions::text() | TextOptions::stored()).unwrap();
    schema.add_u32_field("num_stars", U32Options::new().set_stored().set_indexed()).unwrap();
    schema.add_text_field("id", TextOptions::string()).unwrap();
    schema.add_u32_field("year", U32Options::fast()).unwrap();
    schema
        .add_text_field(
            "body",
            TextOptions::new().set_indexing_options(TextIndexingOptions::TokenizedWithFreq),
        )
        .unwrap();
    schema
}

#[test]
fn serialize_then_deserialize_keeps_fields_and_handles() {
    let schema = sample_schema();
    let bytes = schema.serialize();
    let back = Schema::deserialize(&bytes).unwrap();
    assert_eq!(back.num_fields(), schema.num_fields());
    for (a, b) in schema.fields().iter().zip(back.fields().iter()) {
        assert_eq!(a, b);
    }
    for name in ["title", "num_stars", "id", "year", "body"] {
        assert_eq!(back.get_field(name), schema.get_field(name));
    }
    assert_eq!(back.get_field("year"), Some(Field(3)));
    assert_eq!(back.serialize(), bytes);
}

#[test]
fn serialized_bytes_layout() {
    let mut schema = Schema::new();
    schema.add_text_field("ab", TextOptions::text() | TextOptions::stored()).unwrap();
    schema.add_u32_field("n", U32Options::fast().set_indexed()).unwrap();
    assert_eq!(
        schema.serialize(),
        vec![b'a', b'b', 0, 0, 1, 4, b'n', 0, 1, 0, 1, 1]
    );
    assert_eq!(Schema::new().serialize(), Vec::<u8>::new());
}

#[test]
fn empty_bytes_give_empty_schema() {
    let schema = Schema::deserialize(&[]).unwrap();
    assert_eq!(schema.num_fields(), 0);
}

#[test]
fn malformed_bytes_are_refused() {
    assert_eq!(Schema::deserialize(b"ab").unwrap_err(), SchemaError::InvalidEncoding);
    assert_eq!(Schema::deserialize(&[b'a', 0, 0, 1]).unwrap_err(), SchemaError::InvalidEncoding);
    assert_eq!(Schema::deserialize(&[b'a', 0, 0, 2, 0]).unwrap_err(), SchemaError::InvalidEncoding);
    assert_eq!(Schema::deserialize(&[b'a', 0, 0, 0, 5]).unwrap_err(), SchemaError::InvalidEncoding);
    assert_eq!(Schema::deserialize(&[b'a', 0, 2, 0, 0]).unwrap_err(), SchemaError::InvalidEncoding);
    assert_eq!(Schema::deserialize(&[0xff, 0, 1, 0, 0, 0]).unwrap_err(), SchemaError::InvalidEncoding);
}

#[test]
fn encoded_duplicate_or_bad_name_is_refused() {
    let dup = [b'a', 0, 1, 0, 0, 0, b'a', 0, 0, 0, 1];
    assert_eq!(Schema::deserialize(&dup).unwrap_err(), SchemaError::DuplicateField);
    let bad = [b'a', b'-', 0, 1, 0, 0, 0];
    assert_eq!(Schema::deserialize(&bad).unwrap_err(), SchemaError::InvalidFieldName);
    let empty_name = [0, 1, 0, 0, 0];
    assert_eq!(Schema::deserialize(&empty_name).unwrap_err(), SchemaError::InvalidFieldName);
}

#[test]
fn deserialized_types() {
    let bytes = [b'x', 0, 0, 1, 2, b'y', 0, 1, 1, 0, 1];
    let schema = Schema::deserialize(&bytes).unwrap();
    let x = schema.get_field_entry(Field(0));
    assert_eq!(x.name(), "x");
    assert_eq!(
        x.field_type(),
        FieldType::Text(TextOptions { stored: true, indexing: TextIndexingOptions::TokenizedNoFreq })
    );
    let y = schema.get_field_entry(Field(1));
    assert_eq!(y.name(), "y");
    assert_eq!(y.field_type(), FieldType::U32(U32Options { stored: true, indexed: false, fast: true }));
}

#[test]
fn bitor_is_union() {
    let a = TextOptions::string();
    let b = TextOptions::stored();
    assert_eq!(a | b, a.union(b));
    assert_eq!(
        TextOptions::text() | TextOptions::stored(),
        TextOptions { stored: true, indexing: TextIndexingOptions::TokenizedWithFreqAndPosition }
    );
    assert_eq!(U32Options::fast() | U32Options::new().set_stored(), U32Options::fast().set_stored());
    assert_eq!((a | b) | TextOptions::text(), a | (b | TextOptions::text()));
}
