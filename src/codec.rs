use vstd::prelude::*;
use vstd::utf8::{encode_utf8, valid_utf8, encode_utf8_valid_utf8, encode_utf8_decode_utf8, is_ascii_chars, is_ascii_chars_encode_utf8};
use crate::field_name::{valid_field_name, is_name_char};
use crate::options::{TextIndexingOptions, TextOptions, U32Options};
use crate::schema::{lemma_view_wf, view_wf, FieldType, Schema, SchemaError};

verus! {

/// The byte of a flag.
pub open spec fn flag_byte(b: bool) -> u8 {
    if b { 1 } else { 0 }
}

/// The bytes of a field type: a tag (`0` text, `1` `u32`) followed by its
/// options, one byte each; a text indexing level is written as its rank.
pub open spec fn encode_field_type(ft: FieldType) -> Seq<u8> {
    match ft {
        FieldType::Text(o) => seq![0u8, flag_byte(o.stored), o.indexing.rank() as u8],
        FieldType::U32(o) => seq![1u8, flag_byte(o.stored), flag_byte(o.indexed), flag_byte(o.fast)],
    }
}

/// The bytes of one field: its name in UTF-8, a zero byte, then its type.
pub open spec fn encode_field(f: (Seq<char>, FieldType)) -> Seq<u8> {
    encode_utf8(f.0) + seq![0u8] + encode_field_type(f.1)
}

/// The bytes of a schema: its fields one after another, in order.
pub open spec fn encode_schema(fields: Seq<(Seq<char>, FieldType)>) -> Seq<u8>
    decreases fields.len(),
{
    if fields.len() == 0 {
        Seq::empty()
    } else {
        encode_schema(fields.drop_last()) + encode_field(fields.last())
    }
}

/// Relies on `String::from_utf8`: it accepts exactly the valid UTF-8 byte
/// sequences, and the string it returns holds those bytes.
#[verifier::external_body]
fn string_from_utf8(v: Vec<u8>) -> (r: Option<String>)
    ensures
        valid_utf8(v@) ==> r is Some,
        r matches Some(s) ==> encode_utf8(s@) == v@,
{
    String::from_utf8(v).ok()
}

/// The encoding of a concatenation is the concatenation of the encodings.
proof fn lemma_encode_concat(a: Seq<(Seq<char>, FieldType)>, b: Seq<(Seq<char>, FieldType)>)
    ensures
        encode_schema(a + b) == encode_schema(a) + encode_schema(b),
    decreases b.len(),
{
    if b.len() == 0 {
        assert(a + b =~= a);
        assert(encode_schema(a) + encode_schema(b) =~= encode_schema(a));
    } else {
        assert((a + b).drop_last() =~= a + b.drop_last());
        assert((a + b).last() == b.last());
        lemma_encode_concat(a, b.drop_last());
        assert(encode_schema(a + b) =~= encode_schema(a) + encode_schema(b));
    }
}

/// The UTF-8 bytes of a well-formed name are its characters, none of them zero.
proof fn lemma_name_bytes(n: Seq<char>)
    requires
        valid_field_name(n),
    ensures
        encode_utf8(n).len() == n.len(),
        forall|i: int| 0 <= i < encode_utf8(n).len() ==> #[trigger] encode_utf8(n)[i] != 0,
{
    assert(is_ascii_chars(n)) by {
        assert forall|i: int| 0 <= i < n.len() implies '\0' <= #[trigger] n[i] <= '\u{7f}' by {
            assert(is_name_char(n[i]));
        }
    }
    is_ascii_chars_encode_utf8(n);
    assert forall|i: int| 0 <= i < encode_utf8(n).len() implies #[trigger] encode_utf8(n)[i] != 0 by {
        assert(is_name_char(n[i]));
        assert(n[i] as u8 == encode_utf8(n)[i]);
    }
}

/// Appends the bytes of a field type.
fn push_field_type(out: &mut Vec<u8>, ft: FieldType)
    ensures
        final(out)@ == old(out)@ + encode_field_type(ft),
{
    match ft {
        FieldType::Text(o) => {
            out.push(0u8);
            out.push(if o.stored { 1u8 } else { 0u8 });
            out.push(o.indexing.rank_of());
        },
        FieldType::U32(o) => {
            out.push(1u8);
            out.push(if o.stored { 1u8 } else { 0u8 });
            out.push(if o.indexed { 1u8 } else { 0u8 });
            out.push(if o.fast { 1u8 } else { 0u8 });
        },
    }
    assert(final(out)@ =~= old(out)@ + encode_field_type(ft));
}

/// Appends the bytes of `s`.
fn push_bytes(out: &mut Vec<u8>, s: &[u8])
    ensures
        final(out)@ == old(out)@ + s@,
{
    let mut i: usize = 0;
    while i < s.len()
        invariant
            i <= s@.len(),
            out@ == old(out)@ + s@.take(i as int),
        decreases s@.len() - i,
    {
        out.push(s[i]);
        i = i + 1;
        assert(out@ =~= old(out)@ + s@.take(i as int));
    }
    assert(s@.take(i as int) =~= s@);
}

/// The flag that a byte stands for, if it is `0` or `1`.
fn decode_flag(b: u8) -> (r: Option<bool>)
    ensures
        r matches Some(x) ==> flag_byte(x) == b,
        (b == 0 || b == 1) ==> r is Some,
{
    if b == 0 {
        Some(false)
    } else if b == 1 {
        Some(true)
    } else {
        None
    }
}

/// The indexing level of a given rank, if there is one.
fn decode_level(b: u8) -> (r: Option<TextIndexingOptions>)
    ensures
        r matches Some(l) ==> l.rank() == b,
        b < 5 ==> r is Some,
{
    if b == 0 {
        Some(TextIndexingOptions::Unindexed)
    } else if b == 1 {
        Some(TextIndexingOptions::Untokenized)
    } else if b == 2 {
        Some(TextIndexingOptions::TokenizedNoFreq)
    } else if b == 3 {
        Some(TextIndexingOptions::TokenizedWithFreq)
    } else if b == 4 {
        Some(TextIndexingOptions::TokenizedWithFreqAndPosition)
    } else {
        None
    }
}

/// Whether the bytes at `at` are those of `ft`.
pub open spec fn field_type_at(bytes: Seq<u8>, at: int, ft: FieldType) -> bool {
    at + encode_field_type(ft).len() <= bytes.len() && bytes.subrange(at, at + encode_field_type(ft).len())
        == encode_field_type(ft)
}

/// Reads the field type whose bytes start at `at`, and the position just
/// past them; when `expected` is a type whose bytes stand there, that type is
/// read.
fn decode_field_type(bytes: &[u8], at: usize, Ghost(expected): Ghost<Option<FieldType>>) -> (r: Option<(FieldType, usize)>)
    requires
        at <= bytes@.len(),
        expected matches Some(ft) ==> field_type_at(bytes@, at as int, ft),
    ensures
        r matches Some((ft, e)) ==> e == at + encode_field_type(ft).len() && field_type_at(bytes@, at as int, ft),
        expected matches Some(ft) ==> r == Some((ft, (at + encode_field_type(ft).len()) as usize)),
{
    if at == bytes.len() {
        return None;
    }
    proof {
        if let Some(g) = expected {
            let sub = bytes@.subrange(at as int, at + encode_field_type(g).len());
            assert(sub[0] == bytes@[at as int]);
            if sub.len() > 1 {
                assert(sub[1] == bytes@[at + 1]);
            }
            if sub.len() > 2 {
                assert(sub[2] == bytes@[at + 2]);
            }
            if sub.len() > 3 {
                assert(sub[3] == bytes@[at + 3]);
            }
        }
    }
    let tag = bytes[at];
    if tag == 0 && bytes.len() - at >= 3 {
        let stored = decode_flag(bytes[at + 1]);
        let level = decode_level(bytes[at + 2]);
        match (stored, level) {
            (Some(stored), Some(indexing)) => {
                let ft = FieldType::Text(TextOptions { stored, indexing });
                assert(bytes@.subrange(at as int, at + 3) =~= encode_field_type(ft));
                Some((ft, at + 3))
            },
            _ => None,
        }
    } else if tag == 1 && bytes.len() - at >= 4 {
        let stored = decode_flag(bytes[at + 1]);
        let indexed = decode_flag(bytes[at + 2]);
        let fast = decode_flag(bytes[at + 3]);
        match (stored, indexed, fast) {
            (Some(stored), Some(indexed), Some(fast)) => {
                let ft = FieldType::U32(U32Options { stored, indexed, fast });
                assert(bytes@.subrange(at as int, at + 4) =~= encode_field_type(ft));
                Some((ft, at + 4))
            },
            _ => None,
        }
    } else {
        None
    }
}

/// The bytes of `bytes` from `from` up to `to`.
fn copy_range(bytes: &[u8], from: usize, to: usize) -> (r: Vec<u8>)
    requires
        from <= to <= bytes@.len(),
    ensures
        r@ == bytes@.subrange(from as int, to as int),
{
    let mut out: Vec<u8> = Vec::new();
    let mut i: usize = from;
    while i < to
        invariant
            from <= i <= to <= bytes@.len(),
            out@ == bytes@.subrange(from as int, i as int),
        decreases to - i,
    {
        out.push(bytes[i]);
        i = i + 1;
        assert(out@ =~= bytes@.subrange(from as int, i as int));
    }
    out
}

/// A one-field list encodes as that field.
proof fn lemma_encode_single(x: (Seq<char>, FieldType))
    ensures
        encode_schema(seq![x]) == encode_field(x),
{
    assert(seq![x].drop_last() =~= Seq::<(Seq<char>, FieldType)>::empty());
    assert(encode_schema(Seq::<(Seq<char>, FieldType)>::empty()) + encode_field(x) =~= encode_field(x));
}

/// Where `fields` encode as `bytes` and the first `k` of them as the first
/// `pos` bytes, the next field's bytes follow at `pos`.
proof fn lemma_next_field(fields: Seq<(Seq<char>, FieldType)>, bytes: Seq<u8>, k: int, pos: int)
    requires
        encode_schema(fields) == bytes,
        0 <= k < fields.len(),
        0 <= pos <= bytes.len(),
        bytes.take(pos) == encode_schema(fields.take(k)),
    ensures
        pos + encode_field(fields[k]).len() <= bytes.len(),
        bytes.subrange(pos, pos + encode_field(fields[k]).len()) == encode_field(fields[k]),
{
    let x = fields[k];
    assert(fields =~= fields.take(k) + (seq![x] + fields.skip(k + 1)));
    lemma_encode_concat(fields.take(k), seq![x] + fields.skip(k + 1));
    lemma_encode_concat(seq![x], fields.skip(k + 1));
    lemma_encode_single(x);
    let head = encode_schema(fields.take(k));
    assert(head.len() == pos);
    assert(bytes == head + (encode_field(x) + encode_schema(fields.skip(k + 1))));
    assert(bytes.subrange(pos, pos + encode_field(x).len()) =~= encode_field(x));
}

impl Schema {
    /// The persisted form of the schema: its fields in order, each as its
    /// name, a zero byte, a type tag and its option flags.
    pub fn serialize(&self) -> (r: Vec<u8>)
        ensures
            r@ == encode_schema(self.view()),
    {
        let fields = self.fields();
        let mut out: Vec<u8> = Vec::new();
        let mut i: usize = 0;
        assert(self.view().take(0) =~= Seq::<(Seq<char>, FieldType)>::empty());
        while i < fields.len()
            invariant
                fields@ == self.entries(),
                i <= fields@.len(),
                out@ == encode_schema(self.view().take(i as int)),
            decreases fields@.len() - i,
        {
            let e = &fields[i];
            push_bytes(&mut out, e.name.as_str().as_bytes());
            out.push(0u8);
            push_field_type(&mut out, e.field_type);
            proof {
                let v = self.view().take(i + 1);
                assert(v.drop_last() =~= self.view().take(i as int));
                assert(v.last() == (e.spec_name(), e.spec_field_type()));
                assert(out@ =~= encode_schema(v));
            }
            i = i + 1;
        }
        assert(self.view().take(i as int) =~= self.view());
        out
    }
}

/// Reads the field whose bytes start at `pos`: its name, its type and the
/// position just past it. When `expected` is a field with a well-formed name
/// whose bytes stand there, that field is read.
fn decode_field(bytes: &[u8], pos: usize, Ghost(expected): Ghost<Option<(Seq<char>, FieldType)>>) -> (r: Option<
    (String, FieldType, usize),
>)
    requires
        pos <= bytes@.len(),
        expected matches Some(x) ==> valid_field_name(x.0) && pos + encode_field(x).len() <= bytes@.len()
            && bytes@.subrange(pos as int, pos + encode_field(x).len()) == encode_field(x),
    ensures
        r matches Some((n, ft, next)) ==> pos < next <= bytes@.len() && bytes@.subrange(pos as int, next as int)
            == encode_field((n@, ft)),
        expected matches Some(x) ==> r matches Some((n, ft, next)) && n@ == x.0 && ft == x.1 && next == pos
            + encode_field(x).len(),
{
    let ghost name_len: int = 0;
    proof {
        if let Some(x) = expected {
            lemma_name_bytes(x.0);
            name_len = encode_utf8(x.0).len() as int;
            let sub = bytes@.subrange(pos as int, pos + encode_field(x).len());
            assert forall|m: int| pos <= m < pos + name_len implies bytes@[m] != 0 by {
                assert(sub[m - pos] == bytes@[m]);
                assert(sub[m - pos] == encode_utf8(x.0)[m - pos]);
            }
            assert(sub[name_len] == bytes@[pos + name_len]);
        }
    }
    let mut j: usize = pos;
    while j < bytes.len() && bytes[j] != 0
        invariant
            pos <= j <= bytes@.len(),
            expected is Some ==> j <= pos + name_len,
            expected is Some ==> pos + name_len < bytes@.len() && bytes@[pos + name_len] == 0,
            expected is Some ==> forall|m: int| pos <= m < pos + name_len ==> bytes@[m] != 0,
        decreases bytes@.len() - j,
    {
        j = j + 1;
    }
    if j == bytes.len() {
        return None;
    }
    let name_bytes = copy_range(bytes, pos, j);
    proof {
        if let Some(x) = expected {
            assert(j == pos + name_len);
            let sub = bytes@.subrange(pos as int, pos + encode_field(x).len());
            assert(name_bytes@ =~= encode_utf8(x.0)) by {
                assert forall|m: int| 0 <= m < name_len implies name_bytes@[m] == encode_utf8(x.0)[m] by {
                    assert(sub[m] == bytes@[pos + m]);
                }
            }
            encode_utf8_valid_utf8(x.0);
        }
    }
    let name = match string_from_utf8(name_bytes) {
        Some(s) => s,
        None => {
            return None;
        },
    };
    proof {
        if let Some(x) = expected {
            encode_utf8_decode_utf8(name@);
            encode_utf8_decode_utf8(x.0);
            assert(name@ == x.0);
            let sub = bytes@.subrange(pos as int, pos + encode_field(x).len());
            let tb = encode_field_type(x.1);
            assert(bytes@.subrange(j + 1, j + 1 + tb.len()) =~= tb) by {
                assert forall|m: int| 0 <= m < tb.len() implies bytes@[j + 1 + m] == tb[m] by {
                    assert(sub[name_len + 1 + m] == bytes@[j + 1 + m]);
                }
            }
        }
    }
    let decoded = decode_field_type(
        bytes,
        j + 1,
        Ghost(
            match expected {
                Some(x) => Some(x.1),
                None => None,
            },
        ),
    );
    match decoded {
        Some((ft, next)) => {
            assert(bytes@.subrange(pos as int, next as int) =~= bytes@.subrange(pos as int, j as int) + seq![0u8]
                + bytes@.subrange(j + 1, next as int));
            Some((name, ft, next))
        },
        None => None,
    }
}

impl Schema {
    /// Reads a schema from its persisted form. It succeeds exactly when the
    /// bytes are those of some schema, and then returns that schema.
    pub fn deserialize(bytes: &[u8]) -> (r: Result<Schema, SchemaError>)
        ensures
            r matches Ok(s) ==> s.wf() && encode_schema(s.view()) == bytes@,
            r is Ok <==> exists|fields: Seq<(Seq<char>, FieldType)>|
                view_wf(fields) && #[trigger] encode_schema(fields) == bytes@,
    {
        let ghost has_target = exists|fields: Seq<(Seq<char>, FieldType)>|
            view_wf(fields) && #[trigger] encode_schema(fields) == bytes@;
        let ghost target = if has_target {
            choose|fields: Seq<(Seq<char>, FieldType)>| view_wf(fields) && #[trigger] encode_schema(fields) == bytes@
        } else {
            Seq::empty()
        };
        let mut schema = Schema::new();
        let mut pos: usize = 0;
        assert(bytes@.take(0) =~= encode_schema(schema.view()));
        while pos < bytes.len()
            invariant
                schema.wf(),
                pos <= bytes@.len(),
                bytes@.take(pos as int) == encode_schema(schema.view()),
                has_target == exists|fields: Seq<(Seq<char>, FieldType)>|
                    view_wf(fields) && #[trigger] encode_schema(fields) == bytes@,
                has_target ==> view_wf(target) && encode_schema(target) == bytes@,
                has_target ==> schema.view().len() <= target.len() && schema.view() == target.take(
                    schema.view().len() as int,
                ),
            decreases bytes@.len() - pos,
        {
            let ghost k = schema.view().len() as int;
            proof {
                if has_target {
                    if k == target.len() {
                        assert(schema.view() =~= target);
                        assert(bytes@.take(pos as int).len() == bytes@.len());
                    }
                    lemma_next_field(target, bytes@, k, pos as int);
                }
            }
            let decoded = decode_field(bytes, pos, Ghost(if has_target { Some(target[k]) } else { None }));
            let (name, ft, next) = match decoded {
                Some(d) => d,
                None => {
                    return Err(SchemaError::InvalidEncoding);
                },
            };
            if schema.num_fields() >= 0xffff_ffffusize {
                return Err(SchemaError::InvalidEncoding);
            }
            proof {
                if has_target {
                    assert forall|i: int| 0 <= i < schema.entries().len() implies #[trigger] schema.entries()[i].spec_name()
                        != name@ by {
                        assert(schema.view()[i].0 == schema.entries()[i].spec_name());
                        assert(target[i].0 != target[k].0);
                    }
                }
            }
            let ghost old_view = schema.view();
            match schema.add_field(name.as_str(), ft) {
                Ok(_) => {},
                Err(e) => {
                    return Err(e);
                },
            }
            proof {
                let nv = schema.view();
                assert(nv.drop_last() =~= old_view) by {
                    assert forall|i: int| 0 <= i < old_view.len() implies nv[i] == old_view[i] by {
                        assert(schema.entries().take(old_view.len() as int)[i] == schema.entries()[i]);
                    }
                }
                assert(nv.last() == (name@, ft));
                assert(bytes@.take(next as int) =~= bytes@.take(pos as int) + bytes@.subrange(pos as int, next as int));
                assert(encode_schema(nv) =~= encode_schema(old_view) + encode_field((name@, ft)));
                if has_target {
                    assert(nv =~= target.take(nv.len() as int));
                }
            }
            pos = next;
        }
        proof {
            assert(bytes@.take(pos as int) =~= bytes@);
            lemma_view_wf(schema);
            assert(view_wf(schema.view()) && encode_schema(schema.view()) == bytes@);
        }
        Ok(schema)
    }
}

/// Two fields with well-formed names whose bytes start two equal sequences
/// are equal, and so are the bytes that follow them.
proof fn lemma_field_prefix(x: (Seq<char>, FieldType), y: (Seq<char>, FieldType), ra: Seq<u8>, rb: Seq<u8>)
    requires
        valid_field_name(x.0),
        valid_field_name(y.0),
        encode_field(x) + ra == encode_field(y) + rb,
    ensures
        x == y,
        ra == rb,
{
    let s = encode_field(x) + ra;
    let nx = encode_utf8(x.0);
    let ny = encode_utf8(y.0);
    lemma_name_bytes(x.0);
    lemma_name_bytes(y.0);
    if nx.len() < ny.len() {
        assert(s[nx.len() as int] == 0u8);
        assert(s[nx.len() as int] == ny[nx.len() as int]);
    }
    if ny.len() < nx.len() {
        assert(s[ny.len() as int] == 0u8);
        assert(s[ny.len() as int] == nx[ny.len() as int]);
    }
    assert(nx.len() == ny.len());
    let l = nx.len() as int;
    assert(nx =~= ny) by {
        assert forall|m: int| 0 <= m < l implies nx[m] == ny[m] by {
            assert(s[m] == nx[m]);
            assert(s[m] == ny[m]);
        }
    }
    encode_utf8_decode_utf8(x.0);
    encode_utf8_decode_utf8(y.0);
    let tx = encode_field_type(x.1);
    let ty = encode_field_type(y.1);
    assert(s[l + 1] == tx[0]);
    assert(s[l + 1] == ty[0]);
    assert(tx.len() == ty.len());
    assert forall|m: int| 0 <= m < tx.len() implies tx[m] == ty[m] by {
        assert(s[l + 1 + m] == tx[m]);
        assert(s[l + 1 + m] == ty[m]);
    }
    match (x.1, y.1) {
        (FieldType::Text(a), FieldType::Text(b)) => {
            assert(tx[1] == ty[1] && tx[2] == ty[2]);
        },
        (FieldType::U32(a), FieldType::U32(b)) => {
            assert(tx[1] == ty[1] && tx[2] == ty[2] && tx[3] == ty[3]);
        },
        _ => {},
    }
    let n = encode_field(x).len() as int;
    assert(x == y);
    assert(encode_field(x) == encode_field(y));
    assert((encode_field(x) + ra).len() == encode_field(x).len() + ra.len());
    assert((encode_field(y) + rb).len() == encode_field(y).len() + rb.len());
    assert(ra.len() == rb.len());
    assert(ra =~= rb) by {
        assert forall|m: int| 0 <= m < ra.len() implies ra[m] == rb[m] by {
            assert(s[n + m] == ra[m]);
            assert((encode_field(y) + rb)[n + m] == rb[m]);
        }
    }
}

/// The encoding of lists of fields with well-formed names is one to one.
proof fn lemma_encode_injective(a: Seq<(Seq<char>, FieldType)>, b: Seq<(Seq<char>, FieldType)>)
    requires
        forall|i: int| 0 <= i < a.len() ==> valid_field_name(#[trigger] a[i].0),
        forall|i: int| 0 <= i < b.len() ==> valid_field_name(#[trigger] b[i].0),
        encode_schema(a) == encode_schema(b),
    ensures
        a == b,
    decreases a.len(),
{
    if a.len() == 0 || b.len() == 0 {
        if a.len() > 0 {
            assert(a =~= seq![a[0]] + a.drop_first());
            lemma_encode_concat(seq![a[0]], a.drop_first());
            lemma_encode_single(a[0]);
            assert(encode_schema(a).len() > 0);
        }
        if b.len() > 0 {
            assert(b =~= seq![b[0]] + b.drop_first());
            lemma_encode_concat(seq![b[0]], b.drop_first());
            lemma_encode_single(b[0]);
            assert(encode_schema(b).len() > 0);
        }
        assert(a =~= b);
    } else {
        assert(a =~= seq![a[0]] + a.drop_first());
        assert(b =~= seq![b[0]] + b.drop_first());
        lemma_encode_concat(seq![a[0]], a.drop_first());
        lemma_encode_concat(seq![b[0]], b.drop_first());
        lemma_encode_single(a[0]);
        lemma_encode_single(b[0]);
        lemma_field_prefix(a[0], b[0], encode_schema(a.drop_first()), encode_schema(b.drop_first()));
        assert forall|i: int| 0 <= i < a.drop_first().len() implies valid_field_name(#[trigger] a.drop_first()[i].0) by {
            assert(a.drop_first()[i] == a[i + 1]);
        }
        assert forall|i: int| 0 <= i < b.drop_first().len() implies valid_field_name(#[trigger] b.drop_first()[i].0) by {
            assert(b.drop_first()[i] == b[i + 1]);
        }
        lemma_encode_injective(a.drop_first(), b.drop_first());
    }
}

/// Round trip: the bytes of a well-formed schema are those of a schema, so
/// `deserialize` accepts them, and any well-formed schema with the same bytes
/// has the same fields, names and types in the same order, hence the same
/// handle for each name.
pub proof fn lemma_round_trip(schema: Schema, decoded: Schema)
    requires
        schema.wf(),
        decoded.wf(),
        encode_schema(decoded.view()) == encode_schema(schema.view()),
    ensures
        view_wf(schema.view()),
        decoded.view() == schema.view(),
{
    lemma_view_wf(schema);
    lemma_view_wf(decoded);
    lemma_encode_injective(decoded.view(), schema.view());
}

} // verus!
