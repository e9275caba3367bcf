use vstd::prelude::*;

use crate::object::{
    lemma_view_elements, lemma_view_entries, lemma_view_field_map, lemma_view_fields,
    lemma_view_tuple_struct, option_view, Object, Value,
};
use crate::text::{bytes_eq_ignore_ascii_case, bytes_match_word, eq_ignore_ascii_case, text_matches_word};

verus! {

broadcast use vstd::std_specs::vec::axiom_vec_index_decreases;

pub open spec fn true_chars() -> Seq<char> {
    seq!['t', 'r', 'u', 'e']
}

pub open spec fn false_chars() -> Seq<char> {
    seq!['f', 'a', 'l', 's', 'e']
}

pub open spec fn true_bytes() -> Seq<u8> {
    seq![116u8, 114u8, 117u8, 101u8]
}

pub open spec fn false_bytes() -> Seq<u8> {
    seq![102u8, 97u8, 108u8, 115u8, 101u8]
}

/// The truth value that an alternative's identifier names: text or a byte string that reads
/// `true` or `false`, ASCII case set aside.
pub open spec fn truth_of(v: Value) -> Option<bool> {
    match v {
        Value::Text(s) => if eq_ignore_ascii_case(s, true_chars()) {
            Some(true)
        } else if eq_ignore_ascii_case(s, false_chars()) {
            Some(false)
        } else {
            None
        },
        Value::ByteArray(b) => if bytes_eq_ignore_ascii_case(b, true_bytes()) {
            Some(true)
        } else if bytes_eq_ignore_ascii_case(b, false_bytes()) {
            Some(false)
        } else {
            None
        },
        _ => None,
    }
}

pub open spec fn option_bools_converted(o: Option<Value>) -> Option<Value>
    decreases o,
{
    match o {
        Some(x) => Some(bools_converted(x)),
        None => None,
    }
}

/// The tree with every unit variant whose identifier (once converted itself) names a truth value
/// replaced by that boolean. Every other node, and the order of all children, stays as it is.
pub open spec fn bools_converted(v: Value) -> Value
    decreases v,
{
    match v {
        Value::Optional(Some(x)) => Value::Optional(Some(Box::new(bools_converted(*x)))),
        Value::UnitVariant { name, variant } => {
            let w = bools_converted(*variant);
            match truth_of(w) {
                Some(b) => Value::Bool(b),
                None => Value::UnitVariant { name, variant: Box::new(w) },
            }
        },
        Value::NewtypeStruct { name, value } => Value::NewtypeStruct {
            name,
            value: Box::new(bools_converted(*value)),
        },
        Value::NewtypeVariant { name, variant, value } => Value::NewtypeVariant {
            name,
            variant: Box::new(bools_converted(*variant)),
            value: Box::new(bools_converted(*value)),
        },
        Value::Sequence(s) => Value::Sequence(
            Seq::new(s.len(), |i: int| if 0 <= i < s.len() { bools_converted(s[i]) } else { Value::Unit }),
        ),
        Value::Tuple(s) => Value::Tuple(
            Seq::new(s.len(), |i: int| if 0 <= i < s.len() { bools_converted(s[i]) } else { Value::Unit }),
        ),
        Value::TupleStruct { name, fields } => Value::TupleStruct {
            name,
            fields: Seq::new(
                fields.len(),
                |i: int| if 0 <= i < fields.len() { bools_converted(fields[i]) } else { Value::Unit },
            ),
        },
        Value::TupleVariant { name, variant, fields } => Value::TupleVariant {
            name,
            variant: Box::new(bools_converted(*variant)),
            fields: Box::new(bools_converted(*fields)),
        },
        Value::Mapping(m) => Value::Mapping(
            Seq::new(
                m.len(),
                |i: int|
                    if 0 <= i < m.len() {
                        (bools_converted(m[i].0), bools_converted(m[i].1))
                    } else {
                        (Value::Unit, Value::Unit)
                    },
            ),
        ),
        Value::Struct { name, fields } => Value::Struct {
            name,
            fields: Seq::new(
                fields.len(),
                |i: int|
                    if 0 <= i < fields.len() {
                        (fields[i].0, option_bools_converted(fields[i].1))
                    } else {
                        (Seq::empty(), None)
                    },
            ),
        },
        Value::StructVariant { name, variant, fields } => Value::StructVariant {
            name,
            variant: Box::new(bools_converted(*variant)),
            fields: Box::new(bools_converted(*fields)),
        },
        Value::FieldMap(m) => Value::FieldMap(
            Seq::new(
                m.len(),
                |i: int|
                    if 0 <= i < m.len() {
                        (bools_converted(m[i].0), option_bools_converted(m[i].1))
                    } else {
                        (Value::Unit, None)
                    },
            ),
        ),
        _ => v,
    }
}

/// The truth value that `object` names, as `truth_of` says.
pub fn truth(object: &Object) -> (r: Option<bool>)
    ensures
        r == truth_of(object@),
{
    match object {
        Object::Text(t) => {
            let s = t.as_str();
            proof {
                reveal_strlit("true");
                reveal_strlit("false");
            }
            assert("true"@ =~= true_chars());
            assert("false"@ =~= false_chars());
            if text_matches_word(s, "true") {
                Some(true)
            } else if text_matches_word(s, "false") {
                Some(false)
            } else {
                None
            }
        },
        Object::ByteArray(b) => {
            let s = b.as_slice();
            let t: Vec<u8> = vec![116u8, 114u8, 117u8, 101u8];
            let f: Vec<u8> = vec![102u8, 97u8, 108u8, 115u8, 101u8];
            assert(t@ =~= true_bytes());
            assert(f@ =~= false_bytes());
            if bytes_match_word(s, t.as_slice()) {
                Some(true)
            } else if bytes_match_word(s, f.as_slice()) {
                Some(false)
            } else {
                None
            }
        },
        _ => None,
    }
}

/// Replaces each unit variant that names `true` or `false`, ASCII case set aside, by that
/// boolean (see `bools_converted`).
pub fn convert_bool_variants(object: &mut Object)
    ensures
        final(object)@ == bools_converted(old(object)@),
    decreases *old(object),
{
    let mut taken = Object::Unit;
    std::mem::swap(object, &mut taken);
    let ghost before = taken;
    let result = match taken {
        Object::Optional(Some(mut inner)) => {
            convert_bool_variants(&mut *inner);
            Object::Optional(Some(inner))
        },
        Object::UnitVariant { name, mut variant } => {
            convert_bool_variants(&mut *variant);
            match truth(&*variant) {
                Some(b) => Object::Bool(b),
                None => Object::UnitVariant { name, variant },
            }
        },
        Object::NewtypeStruct { name, mut value } => {
            convert_bool_variants(&mut *value);
            Object::NewtypeStruct { name, value }
        },
        Object::NewtypeVariant { name, mut variant, mut value } => {
            convert_bool_variants(&mut *variant);
            convert_bool_variants(&mut *value);
            Object::NewtypeVariant { name, variant, value }
        },
        Object::Sequence(mut list) => {
            let ghost old_list = list;
            convert_bool_variants_iter(&mut list);
            proof {
                lemma_view_elements(old_list);
                lemma_view_elements(list);
                assert(Object::Sequence(list)@->Sequence_0 =~= bools_converted(before@)->Sequence_0);
            }
            Object::Sequence(list)
        },
        Object::Tuple(mut list) => {
            let ghost old_list = list;
            convert_bool_variants_iter(&mut list);
            proof {
                lemma_view_elements(old_list);
                lemma_view_elements(list);
                assert(Object::Tuple(list)@->Tuple_0 =~= bools_converted(before@)->Tuple_0);
            }
            Object::Tuple(list)
        },
        Object::TupleStruct { name, mut fields } => {
            let ghost old_fields = fields;
            convert_bool_variants_iter(&mut fields);
            proof {
                lemma_view_tuple_struct(name, old_fields);
                lemma_view_tuple_struct(name, fields);
                assert((Object::TupleStruct { name, fields })@->TupleStruct_fields
                    =~= bools_converted(before@)->TupleStruct_fields);
            }
            Object::TupleStruct { name, fields }
        },
        Object::TupleVariant { name, mut variant, mut fields } => {
            convert_bool_variants(&mut *variant);
            convert_bool_variants(&mut *fields);
            Object::TupleVariant { name, variant, fields }
        },
        Object::Mapping(mut map) => {
            let ghost old_map = map;
            convert_entries(&mut map);
            proof {
                lemma_view_entries(old_map);
                lemma_view_entries(map);
                assert(Object::Mapping(map)@->Mapping_0 =~= bools_converted(before@)->Mapping_0);
            }
            Object::Mapping(map)
        },
        Object::Struct { name, mut fields } => {
            let ghost old_fields = fields;
            convert_fields(&mut fields);
            proof {
                lemma_view_fields(name, old_fields);
                lemma_view_fields(name, fields);
                assert((Object::Struct { name, fields })@->Struct_fields
                    =~= bools_converted(before@)->Struct_fields);
            }
            Object::Struct { name, fields }
        },
        Object::StructVariant { name, mut variant, mut fields } => {
            convert_bool_variants(&mut *variant);
            convert_bool_variants(&mut *fields);
            Object::StructVariant { name, variant, fields }
        },
        Object::FieldMap(mut map) => {
            let ghost old_map = map;
            convert_field_map(&mut map);
            proof {
                lemma_view_field_map(old_map);
                lemma_view_field_map(map);
                assert(Object::FieldMap(map)@->FieldMap_0 =~= bools_converted(before@)->FieldMap_0);
            }
            Object::FieldMap(map)
        },
        other => other,
    };
    *object = result;
}

/// Runs `convert_bool_variants` on each element in turn.
pub fn convert_bool_variants_iter(items: &mut Vec<Object>)
    ensures
        final(items).len() == old(items).len(),
        forall|i: int|
            0 <= i < old(items).len() ==> (#[trigger] final(items)[i])@ == bools_converted(old(items)[i]@),
    decreases *old(items),
{
    let mut i: usize = 0;
    while i < items.len()
        invariant
            items.len() == old(items).len(),
            i <= items.len(),
            forall|j: int| 0 <= j < i ==> (#[trigger] items[j])@ == bools_converted(old(items)[j]@),
            forall|j: int| i <= j < items.len() ==> #[trigger] items[j] == old(items)[j],
        decreases items.len() - i,
    {
        proof {
            assert(decreases_to!(*old(items) => old(items)[i as int]));
        }
        convert_bool_variants(&mut items[i]);
        i += 1;
    }
}

fn convert_option(o: &mut Option<Object>)
    ensures
        option_view(*final(o)) == option_bools_converted(option_view(*old(o))),
    decreases *old(o),
{
    if let Some(x) = o {
        convert_bool_variants(x);
    }
}

fn convert_entries(items: &mut Vec<(Object, Object)>)
    ensures
        final(items).len() == old(items).len(),
        forall|i: int|
            0 <= i < old(items).len() ==> (#[trigger] final(items)[i]).0@ == bools_converted(old(items)[i].0@)
                && final(items)[i].1@ == bools_converted(old(items)[i].1@),
    decreases *old(items),
{
    let mut i: usize = 0;
    while i < items.len()
        invariant
            items.len() == old(items).len(),
            i <= items.len(),
            forall|j: int|
                0 <= j < i ==> (#[trigger] items[j]).0@ == bools_converted(old(items)[j].0@)
                    && items[j].1@ == bools_converted(old(items)[j].1@),
            forall|j: int| i <= j < items.len() ==> #[trigger] items[j] == old(items)[j],
        decreases items.len() - i,
    {
        proof {
            assert(decreases_to!(*old(items) => old(items)[i as int].0));
            assert(decreases_to!(*old(items) => old(items)[i as int].1));
        }
        let entry = &mut items[i];
        convert_bool_variants(&mut entry.0);
        convert_bool_variants(&mut entry.1);
        i += 1;
    }
}

fn convert_fields(items: &mut Vec<(crate::object::Text, Option<Object>)>)
    ensures
        final(items).len() == old(items).len(),
        forall|i: int|
            0 <= i < old(items).len() ==> (#[trigger] final(items)[i]).0@ == old(items)[i].0@
                && option_view(final(items)[i].1) == option_bools_converted(option_view(old(items)[i].1)),
    decreases *old(items),
{
    let mut i: usize = 0;
    while i < items.len()
        invariant
            items.len() == old(items).len(),
            i <= items.len(),
            forall|j: int|
                0 <= j < i ==> (#[trigger] items[j]).0@ == old(items)[j].0@
                    && option_view(items[j].1) == option_bools_converted(option_view(old(items)[j].1)),
            forall|j: int| i <= j < items.len() ==> #[trigger] items[j] == old(items)[j],
        decreases items.len() - i,
    {
        proof {
            assert(decreases_to!(*old(items) => old(items)[i as int].1));
        }
        let entry = &mut items[i];
        convert_option(&mut entry.1);
        i += 1;
    }
}

fn convert_field_map(items: &mut Vec<(Object, Option<Object>)>)
    ensures
        final(items).len() == old(items).len(),
        forall|i: int|
            0 <= i < old(items).len() ==> (#[trigger] final(items)[i]).0@ == bools_converted(old(items)[i].0@)
                && option_view(final(items)[i].1) == option_bools_converted(option_view(old(items)[i].1)),
    decreases *old(items),
{
    let mut i: usize = 0;
    while i < items.len()
        invariant
            items.len() == old(items).len(),
            i <= items.len(),
            forall|j: int|
                0 <= j < i ==> (#[trigger] items[j]).0@ == bools_converted(old(items)[j].0@)
                    && option_view(items[j].1) == option_bools_converted(option_view(old(items)[j].1)),
            forall|j: int| i <= j < items.len() ==> #[trigger] items[j] == old(items)[j],
        decreases items.len() - i,
    {
        proof {
            assert(decreases_to!(*old(items) => old(items)[i as int].0));
            assert(decreases_to!(*old(items) => old(items)[i as int].1));
        }
        let entry = &mut items[i];
        convert_bool_variants(&mut entry.0);
        convert_option(&mut entry.1);
        i += 1;
    }
}

/// A unit variant whose identifier is the text `s`.
pub open spec fn text_variant(name: Seq<char>, s: Seq<char>) -> Value {
    Value::UnitVariant { name, variant: Box::new(Value::Text(s)) }
}

/// A unit variant whose identifier is text reading `true` or `false`, ASCII case set aside,
/// becomes that boolean; with any other text it stays as it is.
pub proof fn lemma_text_variant_truth(name: Seq<char>, s: Seq<char>)
    ensures
        eq_ignore_ascii_case(s, true_chars()) ==> bools_converted(text_variant(name, s))
            == Value::Bool(true),
        eq_ignore_ascii_case(s, false_chars()) ==> bools_converted(text_variant(name, s))
            == Value::Bool(false),
        !eq_ignore_ascii_case(s, true_chars()) && !eq_ignore_ascii_case(s, false_chars())
            ==> bools_converted(text_variant(name, s)) == text_variant(name, s),
{
    assert(bools_converted(Value::Text(s)) == Value::Text(s));
    if eq_ignore_ascii_case(s, true_chars()) {
        assert(!eq_ignore_ascii_case(s, false_chars()));
    }
}

} // verus!
