use vstd::prelude::*;
use vstd::utf8::{decode_utf8, valid_utf8};

use crate::object::{
    lemma_view_elements, lemma_view_entries, lemma_view_field_map, lemma_view_fields,
    lemma_view_tuple_struct, option_view, Object, Text, Value,
};
use crate::text::{
    bool_text, bool_to_text, char_to_string, from_utf8, int_text, int_to_text, uint_to_text,
    utf8_chars,
};

verus! {

broadcast use vstd::std_specs::vec::axiom_vec_index_decreases;

/// A text encoding that a byte string may be read in.
#[derive(Clone, Copy, Debug, PartialEq, Eq)]
pub enum Encoding {
    Utf8,
}

/// The characters that `bytes` read as under `encoding`, if they do.
pub open spec fn decoded(encoding: Encoding, bytes: Seq<u8>) -> Option<Seq<char>> {
    match encoding {
        Encoding::Utf8 => utf8_chars(bytes),
    }
}

/// A byte string made text where it reads as text under `encoding`.
pub open spec fn bytes_as_text(encoding: Encoding, bytes: Seq<u8>) -> Value {
    match decoded(encoding, bytes) {
        Some(t) => Value::Text(t),
        None => Value::ByteArray(bytes),
    }
}

/// A value that stands where a format wants text (a key, an alternative's identifier), made text
/// as far as it can be: a scalar by its canonical text, a byte string where it reads as text
/// under `encoding`, the content of an option in the same way. Anything else stays as it is; a
/// dual tag key is left for the encoder to pick its index or its name.
pub open spec fn key_text(v: Value, encoding: Encoding) -> Value
    decreases v,
{
    match v {
        Value::Bool(b) => Value::Text(bool_text(b)),
        Value::I8(n) => Value::Text(int_text(n as int)),
        Value::I16(n) => Value::Text(int_text(n as int)),
        Value::I32(n) => Value::Text(int_text(n as int)),
        Value::I64(n) => Value::Text(int_text(n as int)),
        Value::I128(n) => Value::Text(int_text(n as int)),
        Value::U8(n) => Value::Text(int_text(n as int)),
        Value::U16(n) => Value::Text(int_text(n as int)),
        Value::U32(n) => Value::Text(int_text(n as int)),
        Value::U64(n) => Value::Text(int_text(n as int)),
        Value::U128(n) => Value::Text(int_text(n as int)),
        Value::F32 { text, .. } => Value::Text(text),
        Value::F64 { text, .. } => Value::Text(text),
        Value::Char(c) => Value::Text(seq![c]),
        Value::ByteArray(b) => bytes_as_text(encoding, b),
        Value::Optional(Some(x)) => Value::Optional(Some(Box::new(key_text(*x, encoding)))),
        _ => v,
    }
}

pub open spec fn option_stringified(o: Option<Value>, encoding: Encoding) -> Option<Value>
    decreases o,
{
    match o {
        Some(x) => Some(stringified(x, encoding)),
        None => None,
    }
}

/// One stringification pass over the tree: every key and every alternative's identifier goes
/// through `key_text`, and a byte string that stands as a value becomes text where it reads as
/// text under `encoding`. All other values, and the order of all children, stay as they are.
pub open spec fn stringified(v: Value, encoding: Encoding) -> Value
    decreases v,
{
    match v {
        Value::ByteArray(b) => bytes_as_text(encoding, b),
        Value::Optional(Some(x)) => Value::Optional(Some(Box::new(stringified(*x, encoding)))),
        Value::UnitVariant { name, variant } => Value::UnitVariant {
            name,
            variant: Box::new(key_text(*variant, encoding)),
        },
        Value::NewtypeStruct { name, value } => Value::NewtypeStruct {
            name,
            value: Box::new(stringified(*value, encoding)),
        },
        Value::NewtypeVariant { name, variant, value } => Value::NewtypeVariant {
            name,
            variant: Box::new(key_text(*variant, encoding)),
            value: Box::new(stringified(*value, encoding)),
        },
        Value::Sequence(s) => Value::Sequence(
            Seq::new(
                s.len(),
                |i: int| if 0 <= i < s.len() { stringified(s[i], encoding) } else { Value::Unit },
            ),
        ),
        Value::Tuple(s) => Value::Tuple(
            Seq::new(
                s.len(),
                |i: int| if 0 <= i < s.len() { stringified(s[i], encoding) } else { Value::Unit },
            ),
        ),
        Value::TupleStruct { name, fields } => Value::TupleStruct {
            name,
            fields: Seq::new(
                fields.len(),
                |i: int|
                    if 0 <= i < fields.len() {
                        stringified(fields[i], encoding)
                    } else {
                        Value::Unit
                    },
            ),
        },
        Value::TupleVariant { name, variant, fields } => Value::TupleVariant {
            name,
            variant: Box::new(key_text(*variant, encoding)),
            fields: Box::new(stringified(*fields, encoding)),
        },
        Value::Mapping(m) => Value::Mapping(
            Seq::new(
                m.len(),
                |i: int|
                    if 0 <= i < m.len() {
                        (key_text(m[i].0, encoding), stringified(m[i].1, encoding))
                    } else {
                        (Value::Unit, Value::Unit)
                    },
            ),
        ),
        Value::Struct { name, fields } => Value::Struct {
            name,
            fields: Seq::new(
                fields.len(),
                |i: int|
                    if 0 <= i < fields.len() {
                        (fields[i].0, option_stringified(fields[i].1, encoding))
                    } else {
                        (Seq::empty(), None)
                    },
            ),
        },
        Value::StructVariant { name, variant, fields } => Value::StructVariant {
            name,
            variant: Box::new(key_text(*variant, encoding)),
            fields: Box::new(stringified(*fields, encoding)),
        },
        Value::FieldMap(m) => Value::FieldMap(
            Seq::new(
                m.len(),
                |i: int|
                    if 0 <= i < m.len() {
                        (key_text(m[i].0, encoding), option_stringified(m[i].1, encoding))
                    } else {
                        (Value::Unit, None)
                    },
            ),
        ),
        _ => v,
    }
}

/// Makes `object` text as `key_text` says.
pub fn stringify_value(object: &mut Object, encoding: Encoding)
    ensures
        final(object)@ == key_text(old(object)@, encoding),
    decreases *old(object),
{
    let replacement: Option<String> = match object {
        Object::Bool(b) => Some(bool_to_text(*b)),
        Object::I8(n) => Some(int_to_text(*n as i128)),
        Object::I16(n) => Some(int_to_text(*n as i128)),
        Object::I32(n) => Some(int_to_text(*n as i128)),
        Object::I64(n) => Some(int_to_text(*n as i128)),
        Object::I128(n) => Some(int_to_text(*n)),
        Object::U8(n) => Some(uint_to_text(*n as u128)),
        Object::U16(n) => Some(uint_to_text(*n as u128)),
        Object::U32(n) => Some(uint_to_text(*n as u128)),
        Object::U64(n) => Some(uint_to_text(*n as u128)),
        Object::U128(n) => Some(uint_to_text(*n)),
        Object::F32 { text, .. } => Some(text.clone()),
        Object::F64 { text, .. } => Some(text.clone()),
        Object::Char(c) => Some(char_to_string(*c)),
        Object::ByteArray(b) => match encoding {
            Encoding::Utf8 => from_utf8(b.as_slice()),
        },
        Object::Optional(Some(inner)) => {
            stringify_value(&mut **inner, encoding);
            None
        },
        _ => None,
    };
    if let Some(s) = replacement {
        *object = Object::Text(Text::Owned(s));
    }
}

/// One stringification pass over `object` (see `stringified`).
pub fn stringify(object: &mut Object, encoding: Encoding)
    ensures
        final(object)@ == stringified(old(object)@, encoding),
    decreases *old(object),
{
    if matches!(object, Object::ByteArray(_)) {
        stringify_value(object, encoding);
        return;
    }
    let mut taken = Object::Unit;
    std::mem::swap(object, &mut taken);
    let ghost before = taken;
    let result = match taken {
        Object::Optional(Some(mut inner)) => {
            stringify(&mut *inner, encoding);
            Object::Optional(Some(inner))
        },
        Object::UnitVariant { name, mut variant } => {
            stringify_value(&mut *variant, encoding);
            Object::UnitVariant { name, variant }
        },
        Object::NewtypeStruct { name, mut value } => {
            stringify(&mut *value, encoding);
            Object::NewtypeStruct { name, value }
        },
        Object::NewtypeVariant { name, mut variant, mut value } => {
            stringify_value(&mut *variant, encoding);
            stringify(&mut *value, encoding);
            Object::NewtypeVariant { name, variant, value }
        },
        Object::Sequence(mut list) => {
            let ghost old_list = list;
            stringify_keys_iter(&mut list, encoding);
            proof {
                lemma_view_elements(old_list);
                lemma_view_elements(list);
                assert(Object::Sequence(list)@->Sequence_0 =~= stringified(before@, encoding)->Sequence_0);
            }
            Object::Sequence(list)
        },
        Object::Tuple(mut list) => {
            let ghost old_list = list;
            stringify_keys_iter(&mut list, encoding);
            proof {
                lemma_view_elements(old_list);
                lemma_view_elements(list);
                assert(Object::Tuple(list)@->Tuple_0 =~= stringified(before@, encoding)->Tuple_0);
            }
            Object::Tuple(list)
        },
        Object::TupleStruct { name, mut fields } => {
            let ghost old_fields = fields;
            stringify_keys_iter(&mut fields, encoding);
            proof {
                lemma_view_tuple_struct(name, old_fields);
                lemma_view_tuple_struct(name, fields);
                assert((Object::TupleStruct { name, fields })@->TupleStruct_fields
                    =~= stringified(before@, encoding)->TupleStruct_fields);
            }
            Object::TupleStruct { name, fields }
        },
        Object::TupleVariant { name, mut variant, mut fields } => {
            stringify_value(&mut *variant, encoding);
            stringify(&mut *fields, encoding);
            Object::TupleVariant { name, variant, fields }
        },
        Object::Mapping(mut map) => {
            let ghost old_map = map;
            stringify_entries(&mut map, encoding);
            proof {
                lemma_view_entries(old_map);
                lemma_view_entries(map);
                assert(Object::Mapping(map)@->Mapping_0 =~= stringified(before@, encoding)->Mapping_0);
            }
            Object::Mapping(map)
        },
        Object::Struct { name, mut fields } => {
            let ghost old_fields = fields;
            stringify_fields(&mut fields, encoding);
            proof {
                lemma_view_fields(name, old_fields);
                lemma_view_fields(name, fields);
                assert((Object::Struct { name, fields })@->Struct_fields
                    =~= stringified(before@, encoding)->Struct_fields);
            }
            Object::Struct { name, fields }
        },
        Object::StructVariant { name, mut variant, mut fields } => {
            stringify_value(&mut *variant, encoding);
            stringify(&mut *fields, encoding);
            Object::StructVariant { name, variant, fields }
        },
        Object::FieldMap(mut map) => {
            let ghost old_map = map;
            stringify_field_map(&mut map, encoding);
            proof {
                lemma_view_field_map(old_map);
                lemma_view_field_map(map);
                assert(Object::FieldMap(map)@->FieldMap_0 =~= stringified(before@, encoding)->FieldMap_0);
            }
            Object::FieldMap(map)
        },
        other => other,
    };
    *object = result;
}

/// Runs `stringify` on each element in turn.
pub fn stringify_keys_iter(items: &mut Vec<Object>, encoding: Encoding)
    ensures
        final(items).len() == old(items).len(),
        forall|i: int|
            0 <= i < old(items).len() ==> (#[trigger] final(items)[i])@ == stringified(
                old(items)[i]@,
                encoding,
            ),
    decreases *old(items),
{
    let mut i: usize = 0;
    while i < items.len()
        invariant
            items.len() == old(items).len(),
            i <= items.len(),
            forall|j: int| 0 <= j < i ==> (#[trigger] items[j])@ == stringified(old(items)[j]@, encoding),
            forall|j: int| i <= j < items.len() ==> #[trigger] items[j] == old(items)[j],
        decreases items.len() - i,
    {
        proof {
            assert(decreases_to!(*old(items) => old(items)[i as int]));
        }
        stringify(&mut items[i], encoding);
        i += 1;
    }
}

fn stringify_option(o: &mut Option<Object>, encoding: Encoding)
    ensures
        option_view(*final(o)) == option_stringified(option_view(*old(o)), encoding),
    decreases *old(o),
{
    if let Some(x) = o {
        stringify(x, encoding);
    }
}

fn stringify_entries(items: &mut Vec<(Object, Object)>, encoding: Encoding)
    ensures
        final(items).len() == old(items).len(),
        forall|i: int|
            0 <= i < old(items).len() ==> (#[trigger] final(items)[i]).0@ == key_text(old(items)[i].0@, encoding)
                && final(items)[i].1@ == stringified(old(items)[i].1@, encoding),
    decreases *old(items),
{
    let mut i: usize = 0;
    while i < items.len()
        invariant
            items.len() == old(items).len(),
            i <= items.len(),
            forall|j: int|
                0 <= j < i ==> (#[trigger] items[j]).0@ == key_text(old(items)[j].0@, encoding)
                    && items[j].1@ == stringified(old(items)[j].1@, encoding),
            forall|j: int| i <= j < items.len() ==> #[trigger] items[j] == old(items)[j],
        decreases items.len() - i,
    {
        proof {
            assert(decreases_to!(*old(items) => old(items)[i as int].1));
        }
        let entry = &mut items[i];
        stringify_value(&mut entry.0, encoding);
        stringify(&mut entry.1, encoding);
        i += 1;
    }
}

fn stringify_fields(items: &mut Vec<(Text, Option<Object>)>, encoding: Encoding)
    ensures
        final(items).len() == old(items).len(),
        forall|i: int|
            0 <= i < old(items).len() ==> (#[trigger] final(items)[i]).0@ == old(items)[i].0@
                && option_view(final(items)[i].1) == option_stringified(option_view(old(items)[i].1), encoding),
    decreases *old(items),
{
    let mut i: usize = 0;
    while i < items.len()
        invariant
            items.len() == old(items).len(),
            i <= items.len(),
            forall|j: int|
                0 <= j < i ==> (#[trigger] items[j]).0@ == old(items)[j].0@
                    && option_view(items[j].1) == option_stringified(option_view(old(items)[j].1), encoding),
            forall|j: int| i <= j < items.len() ==> #[trigger] items[j] == old(items)[j],
        decreases items.len() - i,
    {
        proof {
            assert(decreases_to!(*old(items) => old(items)[i as int].1));
        }
        let entry = &mut items[i];
        stringify_option(&mut entry.1, encoding);
        i += 1;
    }
}

fn stringify_field_map(items: &mut Vec<(Object, Option<Object>)>, encoding: Encoding)
    ensures
        final(items).len() == old(items).len(),
        forall|i: int|
            0 <= i < old(items).len() ==> (#[trigger] final(items)[i]).0@ == key_text(old(items)[i].0@, encoding)
                && option_view(final(items)[i].1) == option_stringified(option_view(old(items)[i].1), encoding),
    decreases *old(items),
{
    let mut i: usize = 0;
    while i < items.len()
        invariant
            items.len() == old(items).len(),
            i <= items.len(),
            forall|j: int|
                0 <= j < i ==> (#[trigger] items[j]).0@ == key_text(old(items)[j].0@, encoding)
                    && option_view(items[j].1) == option_stringified(option_view(old(items)[j].1), encoding),
            forall|j: int| i <= j < items.len() ==> #[trigger] items[j] == old(items)[j],
        decreases items.len() - i,
    {
        proof {
            assert(decreases_to!(*old(items) => old(items)[i as int].1));
        }
        let entry = &mut items[i];
        stringify_value(&mut entry.0, encoding);
        stringify_option(&mut entry.1, encoding);
        i += 1;
    }
}

/// The tree after one stringification pass per encoding, in the order given.
pub open spec fn stringified_all(v: Value, encodings: Seq<Encoding>) -> Value
    decreases encodings.len(),
{
    if encodings.len() == 0 {
        v
    } else {
        stringified(stringified_all(v, encodings.drop_last()), encodings.last())
    }
}

/// Stringifies `object` once per encoding of `encodings`, in that order, each pass over the
/// whole tree before the next begins.
pub fn stringify_with(object: &mut Object, encodings: &[Encoding])
    ensures
        final(object)@ == stringified_all(old(object)@, encodings@),
{
    let mut i: usize = 0;
    while i < encodings.len()
        invariant
            i <= encodings@.len(),
            object@ == stringified_all(old(object)@, encodings@.take(i as int)),
        decreases encodings.len() - i,
    {
        stringify(object, encodings[i]);
        proof {
            assert(encodings@.take(i + 1).drop_last() =~= encodings@.take(i as int));
        }
        i += 1;
    }
    assert(encodings@.take(i as int) =~= encodings@);
}

/// A key or identifier that `key_text` leaves as it is: no scalar but text, no byte string,
/// also inside an option.
pub open spec fn is_plain_key(k: Value) -> bool
    decreases k,
{
    match k {
        Value::Optional(Some(x)) => is_plain_key(*x),
        Value::Bool(_) | Value::I8(_) | Value::I16(_) | Value::I32(_) | Value::I64(_)
        | Value::I128(_) | Value::U8(_) | Value::U16(_) | Value::U32(_) | Value::U64(_)
        | Value::U128(_) | Value::F32 { .. } | Value::F64 { .. } | Value::Char(_)
        | Value::ByteArray(_) => false,
        _ => true,
    }
}

/// A tree that is text already where stringification looks: no byte string stands as a value,
/// and every key and alternative's identifier is a plain key.
pub open spec fn is_text_tree(v: Value) -> bool
    decreases v,
{
    match v {
        Value::ByteArray(_) => false,
        Value::Optional(Some(x)) => is_text_tree(*x),
        Value::UnitVariant { variant, .. } => is_plain_key(*variant),
        Value::NewtypeStruct { value, .. } => is_text_tree(*value),
        Value::NewtypeVariant { variant, value, .. } => is_plain_key(*variant) && is_text_tree(*value),
        Value::Sequence(s) => forall|i: int| 0 <= i < s.len() ==> is_text_tree(#[trigger] s[i]),
        Value::Tuple(s) => forall|i: int| 0 <= i < s.len() ==> is_text_tree(#[trigger] s[i]),
        Value::TupleStruct { fields, .. } => forall|i: int|
            0 <= i < fields.len() ==> is_text_tree(#[trigger] fields[i]),
        Value::TupleVariant { variant, fields, .. } => is_plain_key(*variant) && is_text_tree(*fields),
        Value::Mapping(m) => forall|i: int|
            0 <= i < m.len() ==> is_plain_key((#[trigger] m[i]).0) && is_text_tree(m[i].1),
        Value::Struct { fields, .. } => forall|i: int|
            0 <= i < fields.len() ==> match (#[trigger] fields[i]).1 {
                Some(x) => is_text_tree(x),
                None => true,
            },
        Value::StructVariant { variant, fields, .. } => is_plain_key(*variant) && is_text_tree(*fields),
        Value::FieldMap(m) => forall|i: int|
            0 <= i < m.len() ==> is_plain_key((#[trigger] m[i]).0) && match m[i].1 {
                Some(x) => is_text_tree(x),
                None => true,
            },
        _ => true,
    }
}

proof fn lemma_plain_key_unchanged(k: Value, encoding: Encoding)
    requires
        is_plain_key(k),
    ensures
        key_text(k, encoding) == k,
    decreases k,
{
    if let Value::Optional(Some(x)) = k {
        lemma_plain_key_unchanged(*x, encoding);
    }
}

/// Stringifying a tree that is text already, in every place the pass looks, gives it back
/// unchanged, under any encoding.
pub proof fn lemma_stringify_text_tree(v: Value, encoding: Encoding)
    requires
        is_text_tree(v),
    ensures
        stringified(v, encoding) == v,
    decreases v,
{
    match v {
        Value::Optional(Some(x)) => lemma_stringify_text_tree(*x, encoding),
        Value::UnitVariant { variant, .. } => lemma_plain_key_unchanged(*variant, encoding),
        Value::NewtypeStruct { value, .. } => lemma_stringify_text_tree(*value, encoding),
        Value::NewtypeVariant { variant, value, .. } => {
            lemma_plain_key_unchanged(*variant, encoding);
            lemma_stringify_text_tree(*value, encoding);
        },
        Value::Sequence(s) => {
            assert forall|i: int| 0 <= i < s.len() implies stringified(s[i], encoding) == s[i] by {
                lemma_stringify_text_tree(s[i], encoding);
            }
            assert(stringified(v, encoding)->Sequence_0 =~= s);
        },
        Value::Tuple(s) => {
            assert forall|i: int| 0 <= i < s.len() implies stringified(s[i], encoding) == s[i] by {
                lemma_stringify_text_tree(s[i], encoding);
            }
            assert(stringified(v, encoding)->Tuple_0 =~= s);
        },
        Value::TupleStruct { fields, .. } => {
            assert forall|i: int| 0 <= i < fields.len() implies stringified(fields[i], encoding)
                == fields[i] by {
                lemma_stringify_text_tree(fields[i], encoding);
            }
            assert(stringified(v, encoding)->TupleStruct_fields =~= fields);
        },
        Value::TupleVariant { variant, fields, .. } => {
            lemma_plain_key_unchanged(*variant, encoding);
            lemma_stringify_text_tree(*fields, encoding);
        },
        Value::Mapping(m) => {
            assert forall|i: int| 0 <= i < m.len() implies (key_text(m[i].0, encoding), stringified(
                m[i].1,
                encoding,
            )) == m[i] by {
                lemma_plain_key_unchanged(m[i].0, encoding);
                lemma_stringify_text_tree(m[i].1, encoding);
            }
            assert(stringified(v, encoding)->Mapping_0 =~= m);
        },
        Value::Struct { fields, .. } => {
            assert forall|i: int| 0 <= i < fields.len() implies option_stringified(fields[i].1, encoding)
                == fields[i].1 by {
                if let Some(x) = fields[i].1 {
                    lemma_stringify_text_tree(x, encoding);
                }
            }
            assert(stringified(v, encoding)->Struct_fields =~= fields);
        },
        Value::StructVariant { variant, fields, .. } => {
            lemma_plain_key_unchanged(*variant, encoding);
            lemma_stringify_text_tree(*fields, encoding);
        },
        Value::FieldMap(m) => {
            assert forall|i: int| 0 <= i < m.len() implies (key_text(m[i].0, encoding), option_stringified(
                m[i].1,
                encoding,
            )) == m[i] by {
                lemma_plain_key_unchanged(m[i].0, encoding);
                if let Some(x) = m[i].1 {
                    lemma_stringify_text_tree(x, encoding);
                }
            }
            assert(stringified(v, encoding)->FieldMap_0 =~= m);
        },
        _ => {},
    }
}

/// Stringifying a text tree with any list of encodings gives it back unchanged.
pub proof fn lemma_stringify_all_text_tree(v: Value, encodings: Seq<Encoding>)
    requires
        is_text_tree(v),
    ensures
        stringified_all(v, encodings) == v,
    decreases encodings.len(),
{
    if encodings.len() > 0 {
        lemma_stringify_all_text_tree(v, encodings.drop_last());
        lemma_stringify_text_tree(v, encodings.last());
    }
}

proof fn lemma_key_text_converges(k: Value, encoding: Encoding)
    ensures
        key_text(key_text(k, encoding), encoding) == key_text(k, encoding),
    decreases k,
{
    if let Value::Optional(Some(x)) = k {
        lemma_key_text_converges(*x, encoding);
    }
}

/// A second stringification pass under the same encoding changes nothing: every leaf that the
/// first could make text is text already.
pub proof fn lemma_stringify_converges(v: Value, encoding: Encoding)
    ensures
        stringified(stringified(v, encoding), encoding) == stringified(v, encoding),
    decreases v,
{
    let w = stringified(v, encoding);
    match v {
        Value::Optional(Some(x)) => lemma_stringify_converges(*x, encoding),
        Value::UnitVariant { variant, .. } => lemma_key_text_converges(*variant, encoding),
        Value::NewtypeStruct { value, .. } => lemma_stringify_converges(*value, encoding),
        Value::NewtypeVariant { variant, value, .. } => {
            lemma_key_text_converges(*variant, encoding);
            lemma_stringify_converges(*value, encoding);
        },
        Value::Sequence(s) => {
            assert forall|i: int| 0 <= i < s.len() implies stringified(w->Sequence_0[i], encoding)
                == w->Sequence_0[i] by {
                lemma_stringify_converges(s[i], encoding);
            }
            assert(stringified(w, encoding)->Sequence_0 =~= w->Sequence_0);
        },
        Value::Tuple(s) => {
            assert forall|i: int| 0 <= i < s.len() implies stringified(w->Tuple_0[i], encoding)
                == w->Tuple_0[i] by {
                lemma_stringify_converges(s[i], encoding);
            }
            assert(stringified(w, encoding)->Tuple_0 =~= w->Tuple_0);
        },
        Value::TupleStruct { fields, .. } => {
            assert forall|i: int| 0 <= i < fields.len() implies stringified(
                w->TupleStruct_fields[i],
                encoding,
            ) == w->TupleStruct_fields[i] by {
                lemma_stringify_converges(fields[i], encoding);
            }
            assert(stringified(w, encoding)->TupleStruct_fields =~= w->TupleStruct_fields);
        },
        Value::TupleVariant { variant, fields, .. } => {
            lemma_key_text_converges(*variant, encoding);
            lemma_stringify_converges(*fields, encoding);
        },
        Value::Mapping(m) => {
            assert forall|i: int| 0 <= i < m.len() implies (key_text(w->Mapping_0[i].0, encoding), stringified(
                w->Mapping_0[i].1,
                encoding,
            )) == w->Mapping_0[i] by {
                lemma_key_text_converges(m[i].0, encoding);
                lemma_stringify_converges(m[i].1, encoding);
            }
            assert(stringified(w, encoding)->Mapping_0 =~= w->Mapping_0);
        },
        Value::Struct { fields, .. } => {
            assert forall|i: int| 0 <= i < fields.len() implies option_stringified(
                w->Struct_fields[i].1,
                encoding,
            ) == w->Struct_fields[i].1 by {
                assert(w->Struct_fields[i].1 == option_stringified(fields[i].1, encoding));
                if let Some(x) = fields[i].1 {
                    lemma_stringify_converges(x, encoding);
                    assert(option_stringified(fields[i].1, encoding) == Some(stringified(x, encoding)));
                }
            }
            assert(stringified(w, encoding)->Struct_fields =~= w->Struct_fields);
        },
        Value::StructVariant { variant, fields, .. } => {
            lemma_key_text_converges(*variant, encoding);
            lemma_stringify_converges(*fields, encoding);
        },
        Value::FieldMap(m) => {
            assert forall|i: int| 0 <= i < m.len() implies (key_text(w->FieldMap_0[i].0, encoding), option_stringified(
                w->FieldMap_0[i].1,
                encoding,
            )) == w->FieldMap_0[i] by {
                lemma_key_text_converges(m[i].0, encoding);
                assert(w->FieldMap_0[i].1 == option_stringified(m[i].1, encoding));
                if let Some(x) = m[i].1 {
                    lemma_stringify_converges(x, encoding);
                    assert(option_stringified(m[i].1, encoding) == Some(stringified(x, encoding)));
                }
            }
            assert(stringified(w, encoding)->FieldMap_0 =~= w->FieldMap_0);
        },
        _ => {},
    }
}

/// Stringifying with the list `[utf8]` twice in a row gives what stringifying with it once gives.
pub proof fn lemma_stringify_utf8_twice(v: Value)
    ensures
        stringified_all(stringified_all(v, seq![Encoding::Utf8]), seq![Encoding::Utf8])
            == stringified_all(v, seq![Encoding::Utf8]),
{
    let once = seq![Encoding::Utf8];
    assert(once.drop_last() =~= Seq::<Encoding>::empty());
    assert(once.last() == Encoding::Utf8);
    let w = stringified(v, Encoding::Utf8);
    assert(stringified_all(v, once.drop_last()) == v);
    assert(stringified_all(w, once.drop_last()) == w);
    assert(stringified_all(v, once) == w);
    assert(stringified_all(w, once) == stringified(w, Encoding::Utf8));
    lemma_stringify_converges(v, Encoding::Utf8);
}

/// A byte string that stands as a value reads as text under UTF-8 exactly when it is
/// well-formed UTF-8: then it becomes text with the characters it encodes, else it stays as it is.
pub proof fn lemma_byte_string_utf8(bytes: Seq<u8>)
    ensures
        valid_utf8(bytes) ==> stringified(Value::ByteArray(bytes), Encoding::Utf8) == Value::Text(
            decode_utf8(bytes),
        ),
        !valid_utf8(bytes) ==> stringified(Value::ByteArray(bytes), Encoding::Utf8)
            == Value::ByteArray(bytes),
{
}

} // verus!
