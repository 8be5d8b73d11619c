use schema_model::{
    is_valid_field_name, Document, Field, FieldType, FieldValue, Schema, SchemaError, Term,
    TextIndexingOptions, TextOptions, U32Options, Value,
};

#[test]
fn field_names_of_word_characters_are_valid() {
    assert!(is_valid_field_name("title"));
    assert!(is_valid_field_name("num_stars"));
    assert!(is_valid_field_name("A_9"));
    assert!(is_valid_field_name("_"));
    assert!(is_valid_field_name("0123456789"));
}

#[test]
fn field_names_with_other_characters_are_invalid() {
    assert!(!is_valid_field_name(""));
    assert!(!is_valid_field_name("a-b"));
    assert!(!is_valid_field_name("title "));
    assert!(!is_valid_field_name(" title"));
    assert!(!is_valid_field_name("na.me"));
    assert!(!is_valid_field_name("ab\n"));
    assert!(!is_valid_field_name("é"));
}

#[test]
fn text_union_laws_on_values() {
    let a = TextOptions::text();
    let b = TextOptions::stored();
    let c = TextOptions::string().set_stored();
    assert_eq!(a.union(b).union(c), a.union(b.union(c)));
    assert_eq!(a.union(b), b.union(a));
    assert_eq!(c.union(c), c);
    let d = TextOptions::new().set_indexing_options(TextIndexingOptions::TokenizedNoFreq);
    let e = TextOptions::new().set_indexing_options(TextIndexingOptions::TokenizedWithFreq);
    assert_eq!(d.union(e).indexing, TextIndexingOptions::TokenizedWithFreq);
    assert_eq!(e.union(d), d.union(e));
}

#[test]
fn u32_union_laws_on_values() {
    let a = U32Options::fast();
    let b = U32Options::new().set_stored();
    let c = U32Options::new().set_indexed().set_stored();
    assert_eq!(a.union(b).union(c), a.union(b.union(c)));
    assert_eq!(a.union(c), c.union(a));
    assert_eq!(b.union(b), b);
    assert_eq!(
        a.union(c),
        U32Options { stored: true, indexed: true, fast: true }
    );
    assert_eq!(U32Options::fast().set_stored(), U32Options::fast().union(U32Options::new().set_stored()));
}

#[test]
fn shortcut_options() {
    assert_eq!(
        TextOptions::text().union(TextOptions::stored()),
        TextOptions { stored: true, indexing: TextIndexingOptions::TokenizedWithFreqAndPosition }
    );
    assert_eq!(
        TextOptions::string(),
        TextOptions { stored: false, indexing: TextIndexingOptions::Untokenized }
    );
    assert_eq!(
        TextOptions::stored(),
        TextOptions { stored: true, indexing: TextIndexingOptions::Unindexed }
    );
    assert_eq!(U32Options::fast(), U32Options { stored: false, indexed: false, fast: true });
}

#[test]
fn indexing_levels_are_ordered() {
    let levels = [
        TextIndexingOptions::Unindexed,
        TextIndexingOptions::Untokenized,
        TextIndexingOptions::TokenizedNoFreq,
        TextIndexingOptions::TokenizedWithFreq,
        TextIndexingOptions::TokenizedWithFreqAndPosition,
    ];
    for i in 0..levels.len() {
        assert_eq!(levels[i].rank_of() as usize, i);
        for j in 0..levels.len() {
            assert_eq!(levels[i].max(levels[j]), levels[i.max(j)]);
        }
    }
    assert!(!TextIndexingOptions::Unindexed.is_indexed());
    assert!(TextIndexingOptions::Untokenized.is_indexed());
    assert!(!TextIndexingOptions::Untokenized.is_tokenized());
    assert!(TextIndexingOptions::TokenizedNoFreq.is_tokenized());
}

#[test]
fn duplicate_field_is_refused_and_first_handle_kept() {
    let mut schema = Schema::new();
    let first = schema.add_text_field("title", TextOptions::text()).unwrap();
    assert_eq!(first, Field(0));
    let again = schema.add_u32_field("title", U32Options::fast());
    assert_eq!(again, Err(SchemaError::DuplicateField));
    assert_eq!(schema.num_fields(), 1);
    assert_eq!(schema.get_field("title"), Some(first));
    assert_eq!(schema.get_field_entry(first).name(), "title");
    assert_eq!(schema.get_field_entry(first).field_type(), FieldType::Text(TextOptions::text()));
}

#[test]
fn invalid_field_name_is_refused() {
    let mut schema = Schema::new();
    assert_eq!(schema.add_text_field("", TextOptions::text()), Err(SchemaError::InvalidFieldName));
    assert_eq!(schema.add_u32_field("num stars", U32Options::new()), Err(SchemaError::InvalidFieldName));
    assert_eq!(schema.num_fields(), 0);
}

#[test]
fn fields_get_dense_handles() {
    let mut schema = Schema::new();
    let a = schema.add_text_field("a", TextOptions::string()).unwrap();
    let b = schema.add_u32_field("b", U32Options::new().set_indexed()).unwrap();
    let c = schema.add_text_field("c", TextOptions::stored()).unwrap();
    assert_eq!((a, b, c), (Field(0), Field(1), Field(2)));
    assert_eq!(schema.get_field("b"), Some(Field(1)));
    assert_eq!(schema.get_field("d"), None);
    let names: Vec<&str> = schema.fields().iter().map(|e| e.name()).collect();
    assert_eq!(names, vec!["a", "b", "c"]);
}

#[test]
fn field_entry_flags() {
    let mut schema = Schema::new();
    let t = schema.add_text_field("t", TextOptions::string()).unwrap();
    let s = schema.add_text_field("s", TextOptions::stored()).unwrap();
    let n = schema.add_u32_field("n", U32Options::fast().set_stored()).unwrap();
    let te = schema.get_field_entry(t);
    assert!(te.is_indexed() && !te.is_stored() && !te.is_u32_fast());
    let se = schema.get_field_entry(s);
    assert!(!se.is_indexed() && se.is_stored());
    let ne = schema.get_field_entry(n);
    assert!(!ne.is_indexed() && ne.is_stored() && ne.is_u32_fast());
}

#[test]
fn str_value_for_u32_field_is_a_mismatch() {
    let mut schema = Schema::new();
    let title = schema.add_text_field("title", TextOptions::text()).unwrap();
    let stars = schema.add_u32_field("num_stars", U32Options::new().set_indexed()).unwrap();
    let mut doc = Document::new();
    doc.add_text(title, "hello");
    doc.add_text(stars, "five");
    assert_eq!(doc.validate(&schema), Err(SchemaError::FieldTypeMismatch(stars)));
    let mut doc2 = Document::new();
    doc2.add_u32(title, 3);
    assert_eq!(doc2.validate(&schema), Err(SchemaError::FieldTypeMismatch(title)));
}

#[test]
fn unknown_field_in_document() {
    let mut schema = Schema::new();
    schema.add_u32_field("n", U32Options::new()).unwrap();
    let mut doc = Document::new();
    doc.add_u32(Field(0), 1);
    doc.add(FieldValue::new(Field(7), Value::U32(1)));
    doc.add_text(Field(0), "x");
    assert_eq!(doc.validate(&schema), Err(SchemaError::UnknownField(Field(7))));
    assert_eq!(doc.len(), 3);
}

#[test]
fn multi_valued_document_validates() {
    let mut schema = Schema::new();
    let tag = schema.add_text_field("tag", TextOptions::string()).unwrap();
    let mut doc = Document::new();
    doc.add_text(tag, "a");
    doc.add_text(tag, "a");
    assert_eq!(doc.validate(&schema), Ok(()));
    assert_eq!(doc.field_values().len(), 2);
    assert_eq!(doc.field_values()[1].value(), &Value::Str("a".to_string()));
}

#[test]
fn end_to_end_schema_document_term() {
    let mut schema = Schema::new();
    let title = schema
        .add_text_field("title", TextOptions::text().union(TextOptions::stored()))
        .unwrap();
    let stars = schema
        .add_u32_field("num_stars", U32Options::new().set_stored().set_indexed())
        .unwrap();
    assert_eq!(title, Field(0));
    assert_eq!(stars, Field(1));
    let mut doc = Document::new();
    doc.add_text(Field(0), "hello");
    doc.add_u32(Field(1), 5);
    assert_eq!(doc.validate(&schema), Ok(()));
    let term = Term::from_field_value(Field(1), &Value::U32(5));
    assert_eq!(term.as_bytes(), &[0u8, 0, 0, 1, 0, 0, 0, 5][..]);
}

#[test]
fn text_term_bytes() {
    let term = Term::from_field_value(Field(258), &Value::Str("hé".to_string()));
    assert_eq!(term.as_bytes(), &[0u8, 0, 1, 2, b'h', 0xc3, 0xa9][..]);
    let empty = Term::from_field_value(Field(0), &Value::Str(String::new()));
    assert_eq!(empty.as_bytes(), &[0u8, 0, 0, 0][..]);
}

#[test]
fn u32_terms_keep_numeric_order() {
    let values = [0u32, 1, 255, 256, 65535, 65536, 16777215, 16777216, 4294967294, 4294967295];
    for i in 0..values.len() {
        for j in 0..values.len() {
            let a = Term::from_field_value(Field(3), &Value::U32(values[i]));
            let b = Term::from_field_u32(Field(3), values[j]);
            assert_eq!(a.lt(&b), values[i] < values[j]);
            assert_eq!(a.as_bytes() < b.as_bytes(), values[i] < values[j]);
        }
    }
    assert_eq!(
        Term::from_field_u32(Field(2), 0x01020304).as_bytes(),
        &[0u8, 0, 0, 2, 1, 2, 3, 4][..]
    );
}

#[test]
fn term_order_is_byte_order() {
    let a = Term::from_field_value(Field(0), &Value::Str("ab".to_string()));
    let b = Term::from_field_value(Field(0), &Value::Str("abc".to_string()));
    let c = Term::from_field_value(Field(1), &Value::Str("a".to_string()));
    assert!(a.lt(&b));
    assert!(!b.lt(&a));
    assert!(b.lt(&c));
    assert!(!a.lt(&a));
}
