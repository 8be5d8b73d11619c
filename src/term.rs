use vstd::prelude::*;
use vstd::utf8::encode_utf8;
use crate::document::Value;
use crate::schema::Field;

verus! {

/// The four bytes of `v`, most significant first.
pub open spec fn u32_be(v: u32) -> Seq<u8> {
    seq![(v >> 24u32) as u8, ((v >> 16u32) & 0xffu32) as u8, ((v >> 8u32) & 0xffu32) as u8, (v & 0xffu32) as u8]
}

/// The canonical encoding of a field and a value: the field handle in four
/// big-endian bytes, then the value, a `u32` in four big-endian bytes and a
/// string as its UTF-8 bytes.
pub open spec fn encode_term(field: Field, value: Value) -> Seq<u8> {
    u32_be(field.0) + match value {
        Value::Str(s) => encode_utf8(s@),
        Value::U32(n) => u32_be(n),
    }
}

/// Strict byte-lexicographic order: a proper prefix comes first.
pub open spec fn lex_lt(a: Seq<u8>, b: Seq<u8>) -> bool
    decreases a.len(),
{
    if a.len() == 0 {
        b.len() > 0
    } else if b.len() == 0 {
        false
    } else if a[0] != b[0] {
        a[0] < b[0]
    } else {
        lex_lt(a.drop_first(), b.drop_first())
    }
}

/// A field and a value reduced to the byte key that the inverted index is
/// ordered by.
#[derive(Clone, Debug, PartialEq, Eq, Hash)]
pub struct Term {
    data: Vec<u8>,
}

/// Appends the four big-endian bytes of `v`.
fn push_u32_be(out: &mut Vec<u8>, v: u32)
    ensures
        final(out)@ == old(out)@ + u32_be(v),
{
    out.push((v >> 24u32) as u8);
    out.push(((v >> 16u32) & 0xffu32) as u8);
    out.push(((v >> 8u32) & 0xffu32) as u8);
    out.push((v & 0xffu32) as u8);
    assert(final(out)@ =~= old(out)@ + u32_be(v));
}

impl Term {
    /// The term's bytes.
    pub closed spec fn bytes(&self) -> Seq<u8> {
        self.data@
    }

    /// The term of `field` and `value`.
    pub fn from_field_value(field: Field, value: &Value) -> (r: Term)
        ensures
            r.bytes() == encode_term(field, *value),
    {
        let mut data: Vec<u8> = Vec::new();
        push_u32_be(&mut data, field.0);
        match value {
            Value::Str(s) => {
                let b = s.as_str().as_bytes();
                let ghost start = data@;
                let mut i: usize = 0;
                while i < b.len()
                    invariant
                        i <= b@.len(),
                        data@ == start + b@.take(i as int),
                    decreases b@.len() - i,
                {
                    data.push(b[i]);
                    i = i + 1;
                    assert(data@ =~= start + b@.take(i as int));
                }
                assert(b@.take(i as int) =~= b@);
            },
            Value::U32(n) => {
                push_u32_be(&mut data, *n);
            },
        }
        Term { data }
    }

    /// The term of `field` and the `u32` value `value`.
    pub fn from_field_u32(field: Field, value: u32) -> (r: Term)
        ensures
            r.bytes() == encode_term(field, Value::U32(value)),
    {
        let mut data: Vec<u8> = Vec::new();
        push_u32_be(&mut data, field.0);
        push_u32_be(&mut data, value);
        Term { data }
    }

    /// The term's bytes.
    pub fn as_bytes(&self) -> (r: &[u8])
        ensures
            r@ == self.bytes(),
    {
        self.data.as_slice()
    }

    /// Whether `self` sorts strictly before `other`.
    pub fn lt(&self, other: &Term) -> (r: bool)
        ensures
            r == lex_lt(self.bytes(), other.bytes()),
    {
        let a = &self.data;
        let b = &other.data;
        let mut i: usize = 0;
        assert(a@.skip(0) =~= a@);
        assert(b@.skip(0) =~= b@);
        while i < a.len() && i < b.len()
            invariant
                a@ == self.bytes(),
                b@ == other.bytes(),
                i <= a@.len(),
                i <= b@.len(),
                lex_lt(a@, b@) == lex_lt(a@.skip(i as int), b@.skip(i as int)),
            decreases a@.len() - i,
        {
            assert(a@.skip(i as int)[0] == a@[i as int]);
            assert(b@.skip(i as int)[0] == b@[i as int]);
            if a[i] != b[i] {
                proof {
                    lemma_lex_lt_step(a@.skip(i as int), b@.skip(i as int));
                }
                return a[i] < b[i];
            }
            proof {
                lemma_lex_lt_step(a@.skip(i as int), b@.skip(i as int));
                assert(a@.skip(i as int).drop_first() =~= a@.skip(i + 1));
                assert(b@.skip(i as int).drop_first() =~= b@.skip(i + 1));
            }
            i = i + 1;
        }
        proof {
            lemma_lex_lt_step(a@.skip(i as int), b@.skip(i as int));
        }
        i < b.len()
    }
}

/// One unfolding of the order.
proof fn lemma_lex_lt_step(a: Seq<u8>, b: Seq<u8>)
    ensures
        lex_lt(a, b) == if a.len() == 0 {
            b.len() > 0
        } else if b.len() == 0 {
            false
        } else if a[0] != b[0] {
            a[0] < b[0]
        } else {
            lex_lt(a.drop_first(), b.drop_first())
        },
{
}

/// A common prefix does not change the order.
proof fn lemma_lex_lt_common_prefix(p: Seq<u8>, x: Seq<u8>, y: Seq<u8>)
    ensures
        lex_lt(p + x, p + y) == lex_lt(x, y),
    decreases p.len(),
{
    if p.len() > 0 {
        assert((p + x).drop_first() =~= p.drop_first() + x);
        assert((p + y).drop_first() =~= p.drop_first() + y);
        lemma_lex_lt_common_prefix(p.drop_first(), x, y);
    } else {
        assert(p + x =~= x);
        assert(p + y =~= y);
    }
}

/// Big-endian bytes order as the numbers do.
proof fn lemma_u32_be_order(a: u32, b: u32)
    requires
        a < b,
    ensures
        lex_lt(u32_be(a), u32_be(b)),
{
    assert(a < b ==> (a >> 24u32) < (b >> 24u32) || ((a >> 24u32) == (b >> 24u32) && (((a >> 16u32)
        & 0xffu32) < ((b >> 16u32) & 0xffu32) || (((a >> 16u32) & 0xffu32) == ((b >> 16u32) & 0xffu32) && (((a
        >> 8u32) & 0xffu32) < ((b >> 8u32) & 0xffu32) || (((a >> 8u32) & 0xffu32) == ((b >> 8u32) & 0xffu32)
        && (a & 0xffu32) < (b & 0xffu32))))))) by (bit_vector);
    assert((a >> 24u32) < 256 && (b >> 24u32) < 256 && ((a >> 16u32) & 0xffu32) < 256 && ((b >> 16u32)
        & 0xffu32) < 256 && ((a >> 8u32) & 0xffu32) < 256 && ((b >> 8u32) & 0xffu32) < 256 && (a & 0xffu32)
        < 256 && (b & 0xffu32) < 256) by (bit_vector);
    let x = u32_be(a);
    let y = u32_be(b);
    assert(x.drop_first() =~= seq![x[1], x[2], x[3]]);
    assert(y.drop_first() =~= seq![y[1], y[2], y[3]]);
    assert(x.drop_first().drop_first() =~= seq![x[2], x[3]]);
    assert(y.drop_first().drop_first() =~= seq![y[2], y[3]]);
    assert(x.drop_first().drop_first().drop_first() =~= seq![x[3]]);
    assert(y.drop_first().drop_first().drop_first() =~= seq![y[3]]);
    assert(x.drop_first().drop_first().drop_first().drop_first() =~= Seq::<u8>::empty());
    assert(y.drop_first().drop_first().drop_first().drop_first() =~= Seq::<u8>::empty());
    reveal_with_fuel(lex_lt, 5);
}

/// For a fixed field, the terms of `u32` values order as the values do.
pub proof fn lemma_u32_terms_preserve_order(field: Field, a: u32, b: u32)
    requires
        a < b,
    ensures
        lex_lt(encode_term(field, Value::U32(a)), encode_term(field, Value::U32(b))),
{
    lemma_u32_be_order(a, b);
    lemma_lex_lt_common_prefix(u32_be(field.0), u32_be(a), u32_be(b));
}

} // verus!
