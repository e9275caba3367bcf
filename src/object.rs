use vstd::prelude::*;

verus! {

broadcast use vstd::std_specs::vec::axiom_vec_index_decreases;

/// A piece of text that either points into a decoder's input buffer or owns its characters.
#[derive(Clone, Debug, PartialEq)]
pub enum Text<'a> {
    Borrowed(&'a str),
    Owned(String),
}

/// A byte string that either points into a decoder's input buffer or owns its bytes.
#[derive(Clone, Debug, PartialEq)]
pub enum Bytes<'a> {
    Borrowed(&'a [u8]),
    Owned(Vec<u8>),
}

impl<'a> View for Text<'a> {
    type V = Seq<char>;

    open spec fn view(&self) -> Seq<char> {
        match self {
            Text::Borrowed(s) => s@,
            Text::Owned(s) => s@,
        }
    }
}

impl<'a> View for Bytes<'a> {
    type V = Seq<u8>;

    open spec fn view(&self) -> Seq<u8> {
        match self {
            Bytes::Borrowed(b) => b@,
            Bytes::Owned(b) => b@,
        }
    }
}

impl<'a> Text<'a> {
    pub open spec fn is_owned(&self) -> bool {
        self is Owned
    }

    /// A copy of the text with storage of its own.
    pub fn detach(&self) -> (r: Text<'static>)
        ensures
            r@ == self@,
            r.is_owned(),
    {
        match self {
            Text::Borrowed(s) => Text::Owned((*s).to_owned()),
            Text::Owned(s) => Text::Owned(s.clone()),
        }
    }

    pub fn as_str(&self) -> (r: &str)
        ensures
            r@ == self@,
    {
        match self {
            Text::Borrowed(s) => *s,
            Text::Owned(s) => s.as_str(),
        }
    }
}

impl<'a> Bytes<'a> {
    pub open spec fn is_owned(&self) -> bool {
        self is Owned
    }

    /// A copy of the byte string with storage of its own.
    pub fn detach(&self) -> (r: Bytes<'static>)
        ensures
            r@ == self@,
            r.is_owned(),
    {
        match self {
            Bytes::Borrowed(b) => Bytes::Owned(vstd::slice::slice_to_vec(*b)),
            Bytes::Owned(b) => Bytes::Owned(vstd::slice::slice_to_vec(b.as_slice())),
        }
    }

    pub fn as_slice(&self) -> (r: &[u8])
        ensures
            r@ == self@,
    {
        match self {
            Bytes::Borrowed(b) => *b,
            Bytes::Owned(b) => b.as_slice(),
        }
    }
}

/// A structured value as any self-describing format can express it.
///
/// A float is carried as its IEEE 754 bit pattern together with its shortest decimal
/// rendering, which is produced where the value is decoded.
///
/// Every pass over a tree recurses once per level, so the depth of the tree bounds the stack
/// they use; a decoder that accepts untrusted input should bound the nesting it accepts.
#[derive(Debug, PartialEq)]
pub enum Object<'a> {
    Bool(bool),
    I8(i8),
    I16(i16),
    I32(i32),
    I64(i64),
    I128(i128),
    U8(u8),
    U16(u16),
    U32(u32),
    U64(u64),
    U128(u128),
    F32 { bits: u32, text: String },
    F64 { bits: u64, text: String },
    Char(char),
    Text(Text<'a>),
    ByteArray(Bytes<'a>),
    Optional(Option<Box<Object<'a>>>),
    Unit,
    UnitStruct { name: Text<'a> },
    UnitVariant { name: Text<'a>, variant: Box<Object<'a>> },
    NewtypeStruct { name: Text<'a>, value: Box<Object<'a>> },
    NewtypeVariant { name: Text<'a>, variant: Box<Object<'a>>, value: Box<Object<'a>> },
    Sequence(Vec<Object<'a>>),
    Tuple(Vec<Object<'a>>),
    TupleStruct { name: Text<'a>, fields: Vec<Object<'a>> },
    TupleVariant { name: Text<'a>, variant: Box<Object<'a>>, fields: Box<Object<'a>> },
    /// Entries in their stored order; keys may repeat.
    Mapping(Vec<(Object<'a>, Object<'a>)>),
    /// Fields in declaration order; a field without a value was left out by its producer.
    Struct { name: Text<'a>, fields: Vec<(Text<'a>, Option<Object<'a>>)> },
    StructVariant { name: Text<'a>, variant: Box<Object<'a>>, fields: Box<Object<'a>> },
    /// An enumeration alternative known both by its index and by its name.
    DualVariantKey { index: u32, name: Text<'a> },
    /// Like `Mapping`, but a value may be absent.
    FieldMap(Vec<(Object<'a>, Option<Object<'a>>)>),
}

/// The content of an `Object`: what remains once it no longer matters where its text lives.
pub enum Value {
    Bool(bool),
    I8(i8),
    I16(i16),
    I32(i32),
    I64(i64),
    I128(i128),
    U8(u8),
    U16(u16),
    U32(u32),
    U64(u64),
    U128(u128),
    F32 { bits: u32, text: Seq<char> },
    F64 { bits: u64, text: Seq<char> },
    Char(char),
    Text(Seq<char>),
    ByteArray(Seq<u8>),
    Optional(Option<Box<Value>>),
    Unit,
    UnitStruct { name: Seq<char> },
    UnitVariant { name: Seq<char>, variant: Box<Value> },
    NewtypeStruct { name: Seq<char>, value: Box<Value> },
    NewtypeVariant { name: Seq<char>, variant: Box<Value>, value: Box<Value> },
    Sequence(Seq<Value>),
    Tuple(Seq<Value>),
    TupleStruct { name: Seq<char>, fields: Seq<Value> },
    TupleVariant { name: Seq<char>, variant: Box<Value>, fields: Box<Value> },
    Mapping(Seq<(Value, Value)>),
    Struct { name: Seq<char>, fields: Seq<(Seq<char>, Option<Value>)> },
    StructVariant { name: Seq<char>, variant: Box<Value>, fields: Box<Value> },
    DualVariantKey { index: u32, name: Seq<char> },
    FieldMap(Seq<(Value, Option<Value>)>),
}

impl<'a> Object<'a> {
    /// The content of the tree.
    pub open spec fn value(&self) -> Value
        decreases self,
    {
        match self {
            Object::Bool(b) => Value::Bool(*b),
            Object::I8(n) => Value::I8(*n),
            Object::I16(n) => Value::I16(*n),
            Object::I32(n) => Value::I32(*n),
            Object::I64(n) => Value::I64(*n),
            Object::I128(n) => Value::I128(*n),
            Object::U8(n) => Value::U8(*n),
            Object::U16(n) => Value::U16(*n),
            Object::U32(n) => Value::U32(*n),
            Object::U64(n) => Value::U64(*n),
            Object::U128(n) => Value::U128(*n),
            Object::F32 { bits, text } => Value::F32 { bits: *bits, text: text@ },
            Object::F64 { bits, text } => Value::F64 { bits: *bits, text: text@ },
            Object::Char(c) => Value::Char(*c),
            Object::Text(t) => Value::Text(t@),
            Object::ByteArray(b) => Value::ByteArray(b@),
            Object::Optional(o) => Value::Optional(
                match o {
                    Some(b) => Some(Box::new((**b).value())),
                    None => None,
                },
            ),
            Object::Unit => Value::Unit,
            Object::UnitStruct { name } => Value::UnitStruct { name: name@ },
            Object::UnitVariant { name, variant } => Value::UnitVariant {
                name: name@,
                variant: Box::new((**variant).value()),
            },
            Object::NewtypeStruct { name, value } => Value::NewtypeStruct {
                name: name@,
                value: Box::new((**value).value()),
            },
            Object::NewtypeVariant { name, variant, value } => Value::NewtypeVariant {
                name: name@,
                variant: Box::new((**variant).value()),
                value: Box::new((**value).value()),
            },
            Object::Sequence(v) => Value::Sequence(
                Seq::new(v.len() as nat, |i: int| if 0 <= i < v.len() { v[i].value() } else { Value::Unit }),
            ),
            Object::Tuple(t) => Value::Tuple(
                Seq::new(t.len() as nat, |i: int| if 0 <= i < t.len() { t[i].value() } else { Value::Unit }),
            ),
            Object::TupleStruct { name, fields } => Value::TupleStruct {
                name: name@,
                fields: Seq::new(
                    fields.len() as nat,
                    |i: int| if 0 <= i < fields.len() { fields[i].value() } else { Value::Unit },
                ),
            },
            Object::TupleVariant { name, variant, fields } => Value::TupleVariant {
                name: name@,
                variant: Box::new((**variant).value()),
                fields: Box::new((**fields).value()),
            },
            Object::Mapping(m) => Value::Mapping(
                Seq::new(
                    m.len() as nat,
                    |i: int|
                        if 0 <= i < m.len() {
                            (m[i].0.value(), m[i].1.value())
                        } else {
                            (Value::Unit, Value::Unit)
                        },
                ),
            ),
            Object::Struct { name, fields } => Value::Struct {
                name: name@,
                fields: Seq::new(
                    fields.len() as nat,
                    |i: int|
                        if 0 <= i < fields.len() {
                            (
                                fields[i].0@,
                                match fields[i].1 {
                                    Some(x) => Some(x.value()),
                                    None => None,
                                },
                            )
                        } else {
                            (Seq::empty(), None)
                        },
                ),
            },
            Object::StructVariant { name, variant, fields } => Value::StructVariant {
                name: name@,
                variant: Box::new((**variant).value()),
                fields: Box::new((**fields).value()),
            },
            Object::DualVariantKey { index, name } => Value::DualVariantKey {
                index: *index,
                name: name@,
            },
            Object::FieldMap(m) => Value::FieldMap(
                Seq::new(
                    m.len() as nat,
                    |i: int|
                        if 0 <= i < m.len() {
                            (
                                m[i].0.value(),
                                match m[i].1 {
                                    Some(x) => Some(x.value()),
                                    None => None,
                                },
                            )
                        } else {
                            (Value::Unit, None)
                        },
                ),
            ),
        }
    }
}

impl<'a> View for Object<'a> {
    type V = Value;

    open spec fn view(&self) -> Value {
        self.value()
    }
}

impl<'a> Object<'a> {
    /// Every text, byte string and name in the tree owns its storage.
    pub open spec fn is_owned(&self) -> bool
        decreases self,
    {
        match self {
            Object::Text(t) => t.is_owned(),
            Object::ByteArray(b) => b.is_owned(),
            Object::Optional(o) => match o {
                Some(b) => (**b).is_owned(),
                None => true,
            },
            Object::UnitStruct { name } => name.is_owned(),
            Object::UnitVariant { name, variant } => name.is_owned() && (**variant).is_owned(),
            Object::NewtypeStruct { name, value } => name.is_owned() && (**value).is_owned(),
            Object::NewtypeVariant { name, variant, value } => {
                name.is_owned() && (**variant).is_owned() && (**value).is_owned()
            },
            Object::Sequence(v) => forall|i: int| 0 <= i < v.len() ==> #[trigger] v[i].is_owned(),
            Object::Tuple(v) => forall|i: int| 0 <= i < v.len() ==> #[trigger] v[i].is_owned(),
            Object::TupleStruct { name, fields } => {
                &&& name.is_owned()
                &&& forall|i: int| 0 <= i < fields.len() ==> #[trigger] fields[i].is_owned()
            },
            Object::TupleVariant { name, variant, fields } => {
                name.is_owned() && (**variant).is_owned() && (**fields).is_owned()
            },
            Object::Mapping(m) => forall|i: int|
                0 <= i < m.len() ==> (#[trigger] m[i]).0.is_owned() && m[i].1.is_owned(),
            Object::Struct { name, fields } => {
                &&& name.is_owned()
                &&& forall|i: int|
                    0 <= i < fields.len() ==> (#[trigger] fields[i]).0.is_owned() && match fields[i].1 {
                        Some(x) => x.is_owned(),
                        None => true,
                    }
            },
            Object::StructVariant { name, variant, fields } => {
                name.is_owned() && (**variant).is_owned() && (**fields).is_owned()
            },
            Object::DualVariantKey { name, .. } => name.is_owned(),
            Object::FieldMap(m) => forall|i: int|
                0 <= i < m.len() ==> (#[trigger] m[i]).0.is_owned() && match m[i].1 {
                    Some(x) => x.is_owned(),
                    None => true,
                },
            _ => true,
        }
    }
}

/// Copies `o` into storage of its own: the result has the same content as `o` and
/// borrows from nothing.
pub fn detach<'a>(o: &Object<'a>) -> (r: Object<'static>)
    ensures
        r@ == o@,
        r.is_owned(),
    decreases o,
{
    match o {
        Object::Bool(b) => Object::Bool(*b),
        Object::I8(n) => Object::I8(*n),
        Object::I16(n) => Object::I16(*n),
        Object::I32(n) => Object::I32(*n),
        Object::I64(n) => Object::I64(*n),
        Object::I128(n) => Object::I128(*n),
        Object::U8(n) => Object::U8(*n),
        Object::U16(n) => Object::U16(*n),
        Object::U32(n) => Object::U32(*n),
        Object::U64(n) => Object::U64(*n),
        Object::U128(n) => Object::U128(*n),
        Object::F32 { bits, text } => Object::F32 { bits: *bits, text: text.clone() },
        Object::F64 { bits, text } => Object::F64 { bits: *bits, text: text.clone() },
        Object::Char(c) => Object::Char(*c),
        Object::Text(t) => Object::Text(t.detach()),
        Object::ByteArray(b) => Object::ByteArray(b.detach()),
        Object::Optional(inner) => match inner {
            Some(b) => Object::Optional(Some(Box::new(detach(b)))),
            None => Object::Optional(None),
        },
        Object::Unit => Object::Unit,
        Object::UnitStruct { name } => Object::UnitStruct { name: name.detach() },
        Object::UnitVariant { name, variant } => Object::UnitVariant {
            name: name.detach(),
            variant: Box::new(detach(variant)),
        },
        Object::NewtypeStruct { name, value } => Object::NewtypeStruct {
            name: name.detach(),
            value: Box::new(detach(value)),
        },
        Object::NewtypeVariant { name, variant, value } => Object::NewtypeVariant {
            name: name.detach(),
            variant: Box::new(detach(variant)),
            value: Box::new(detach(value)),
        },
        Object::Sequence(v) => {
            let r = detach_all(v);
            proof {
                lemma_view_elements(*v);
                lemma_view_elements(r);
                assert(Object::Sequence(r)@->Sequence_0 =~= o@->Sequence_0);
            }
            Object::Sequence(r)
        },
        Object::Tuple(v) => {
            let r = detach_all(v);
            proof {
                lemma_view_elements(*v);
                lemma_view_elements(r);
                assert(Object::Tuple(r)@->Tuple_0 =~= o@->Tuple_0);
            }
            Object::Tuple(r)
        },
        Object::TupleStruct { name, fields } => {
            let r = detach_all(fields);
            let n = name.detach();
            proof {
                lemma_view_tuple_struct(*name, *fields);
                lemma_view_tuple_struct(n, r);
                assert((Object::TupleStruct { name: n, fields: r })@->TupleStruct_fields
                    =~= o@->TupleStruct_fields);
            }
            Object::TupleStruct { name: n, fields: r }
        },
        Object::TupleVariant { name, variant, fields } => Object::TupleVariant {
            name: name.detach(),
            variant: Box::new(detach(variant)),
            fields: Box::new(detach(fields)),
        },
        Object::Mapping(m) => {
            let r = detach_entries(m);
            proof {
                lemma_view_entries(*m);
                lemma_view_entries(r);
                assert(Object::Mapping(r)@->Mapping_0 =~= o@->Mapping_0);
            }
            Object::Mapping(r)
        },
        Object::Struct { name, fields } => {
            let r = detach_fields(fields);
            let n = name.detach();
            proof {
                lemma_view_fields(*name, *fields);
                lemma_view_fields(n, r);
                assert((Object::Struct { name: n, fields: r })@->Struct_fields =~= o@->Struct_fields);
            }
            Object::Struct { name: n, fields: r }
        },
        Object::StructVariant { name, variant, fields } => Object::StructVariant {
            name: name.detach(),
            variant: Box::new(detach(variant)),
            fields: Box::new(detach(fields)),
        },
        Object::DualVariantKey { index, name } => Object::DualVariantKey {
            index: *index,
            name: name.detach(),
        },
        Object::FieldMap(m) => {
            let r = detach_field_map(m);
            proof {
                lemma_view_field_map(*m);
                lemma_view_field_map(r);
                assert(Object::FieldMap(r)@->FieldMap_0 =~= o@->FieldMap_0);
            }
            Object::FieldMap(r)
        },
    }
}

/// What the view of a node with a vector of children is made of.
#[verifier::spinoff_prover]
pub proof fn lemma_view_elements<'p>(w: Vec<Object<'p>>)
    ensures
        Object::Sequence(w)@->Sequence_0.len() == w.len(),
        Object::Tuple(w)@->Tuple_0.len() == w.len(),
        forall|i: int|
            0 <= i < w.len() ==> {
                &&& Object::Sequence(w)@->Sequence_0[i] == (#[trigger] w[i])@
                &&& Object::Tuple(w)@->Tuple_0[i] == w[i]@
            },
{
    let a = Object::Sequence(w)@;
    assert(a is Sequence);
    assert(a->Sequence_0.len() == w.len());
    let a = Object::Tuple(w)@;
    assert(a is Tuple);
    assert(a->Tuple_0.len() == w.len());
}

#[verifier::spinoff_prover]
pub proof fn lemma_view_tuple_struct<'p>(n: Text<'p>, w: Vec<Object<'p>>)
    ensures
        (Object::TupleStruct { name: n, fields: w })@->TupleStruct_name == n@,
        (Object::TupleStruct { name: n, fields: w })@->TupleStruct_fields.len() == w.len(),
        forall|i: int|
            0 <= i < w.len() ==> (Object::TupleStruct { name: n, fields: w })@->TupleStruct_fields[i]
                == (#[trigger] w[i])@,
{
    let a = (Object::TupleStruct { name: n, fields: w })@;
    assert(a is TupleStruct);
    assert(a->TupleStruct_fields.len() == w.len());
}

#[verifier::spinoff_prover]
pub proof fn lemma_view_entries<'p>(w: Vec<(Object<'p>, Object<'p>)>)
    ensures
        Object::Mapping(w)@->Mapping_0.len() == w.len(),
        forall|i: int|
            0 <= i < w.len() ==> Object::Mapping(w)@->Mapping_0[i] == ((#[trigger] w[i]).0@, w[i].1@),
{
    let a = Object::Mapping(w)@;
    assert(a is Mapping);
    assert(a->Mapping_0.len() == w.len());
}

#[verifier::spinoff_prover]
pub proof fn lemma_view_fields<'p>(n: Text<'p>, w: Vec<(Text<'p>, Option<Object<'p>>)>)
    ensures
        (Object::Struct { name: n, fields: w })@->Struct_name == n@,
        (Object::Struct { name: n, fields: w })@->Struct_fields.len() == w.len(),
        forall|i: int|
            0 <= i < w.len() ==> (Object::Struct { name: n, fields: w })@->Struct_fields[i] == (
                (#[trigger] w[i]).0@,
                option_view(w[i].1),
            ),
{
    let a = (Object::Struct { name: n, fields: w })@;
    assert(a is Struct);
    assert(a->Struct_fields.len() == w.len());
}

#[verifier::spinoff_prover]
pub proof fn lemma_view_field_map<'p>(w: Vec<(Object<'p>, Option<Object<'p>>)>)
    ensures
        Object::FieldMap(w)@->FieldMap_0.len() == w.len(),
        forall|i: int|
            0 <= i < w.len() ==> Object::FieldMap(w)@->FieldMap_0[i] == (
                (#[trigger] w[i]).0@,
                option_view(w[i].1),
            ),
{
    let a = Object::FieldMap(w)@;
    assert(a is FieldMap);
    assert(a->FieldMap_0.len() == w.len());
}

pub open spec fn option_view<'p>(o: Option<Object<'p>>) -> Option<Value> {
    match o {
        Some(x) => Some(x@),
        None => None,
    }
}

fn detach_option<'a>(o: &Option<Object<'a>>) -> (r: Option<Object<'static>>)
    ensures
        option_view(r) == option_view(*o),
        r matches Some(x) ==> x.is_owned(),
    decreases o,
{
    match o {
        Some(x) => Some(detach(x)),
        None => None,
    }
}

fn detach_all<'a>(v: &Vec<Object<'a>>) -> (r: Vec<Object<'static>>)
    ensures
        r.len() == v.len(),
        forall|i: int| 0 <= i < v.len() ==> (#[trigger] r[i])@ == v[i]@ && r[i].is_owned(),
    decreases v,
{
    let mut r: Vec<Object<'static>> = Vec::new();
    let mut i: usize = 0;
    while i < v.len()
        invariant
            i <= v.len(),
            r.len() == i,
            forall|j: int| 0 <= j < i ==> (#[trigger] r[j])@ == v[j]@ && r[j].is_owned(),
        decreases v.len() - i,
    {
        proof { assert(decreases_to!(*v => v[i as int])); }
        r.push(detach(&v[i]));
        i += 1;
    }
    r
}

fn detach_entries<'a>(m: &Vec<(Object<'a>, Object<'a>)>) -> (r: Vec<(Object<'static>, Object<'static>)>)
    ensures
        r.len() == m.len(),
        forall|i: int|
            0 <= i < m.len() ==> (#[trigger] r[i]).0@ == m[i].0@ && r[i].1@ == m[i].1@
                && r[i].0.is_owned() && r[i].1.is_owned(),
    decreases m,
{
    let mut r: Vec<(Object<'static>, Object<'static>)> = Vec::new();
    let mut i: usize = 0;
    while i < m.len()
        invariant
            i <= m.len(),
            r.len() == i,
            forall|j: int|
                0 <= j < i ==> (#[trigger] r[j]).0@ == m[j].0@ && r[j].1@ == m[j].1@
                    && r[j].0.is_owned() && r[j].1.is_owned(),
        decreases m.len() - i,
    {
        proof { assert(decreases_to!(*m => m[i as int].0)); assert(decreases_to!(*m => m[i as int].1)); }
        let k = detach(&m[i].0);
        let x = detach(&m[i].1);
        r.push((k, x));
        i += 1;
    }
    r
}

fn detach_fields<'a>(f: &Vec<(Text<'a>, Option<Object<'a>>)>) -> (r: Vec<(Text<'static>, Option<Object<'static>>)>)
    ensures
        r.len() == f.len(),
        forall|i: int|
            0 <= i < f.len() ==> (#[trigger] r[i]).0@ == f[i].0@ && r[i].0.is_owned()
                && option_view(r[i].1) == option_view(f[i].1)
                && (r[i].1 matches Some(x) ==> x.is_owned()),
    decreases f,
{
    let mut r: Vec<(Text<'static>, Option<Object<'static>>)> = Vec::new();
    let mut i: usize = 0;
    while i < f.len()
        invariant
            i <= f.len(),
            r.len() == i,
            forall|j: int|
                0 <= j < i ==> (#[trigger] r[j]).0@ == f[j].0@ && r[j].0.is_owned()
                    && option_view(r[j].1) == option_view(f[j].1)
                    && (r[j].1 matches Some(x) ==> x.is_owned()),
        decreases f.len() - i,
    {
        proof { assert(decreases_to!(*f => f[i as int].1)); }
        let n = f[i].0.detach();
        let x = detach_option(&f[i].1);
        r.push((n, x));
        i += 1;
    }
    r
}

fn detach_field_map<'a>(m: &Vec<(Object<'a>, Option<Object<'a>>)>) -> (r: Vec<(Object<'static>, Option<Object<'static>>)>)
    ensures
        r.len() == m.len(),
        forall|i: int|
            0 <= i < m.len() ==> (#[trigger] r[i]).0@ == m[i].0@ && r[i].0.is_owned()
                && option_view(r[i].1) == option_view(m[i].1)
                && (r[i].1 matches Some(x) ==> x.is_owned()),
    decreases m,
{
    let mut r: Vec<(Object<'static>, Option<Object<'static>>)> = Vec::new();
    let mut i: usize = 0;
    while i < m.len()
        invariant
            i <= m.len(),
            r.len() == i,
            forall|j: int|
                0 <= j < i ==> (#[trigger] r[j]).0@ == m[j].0@ && r[j].0.is_owned()
                    && option_view(r[j].1) == option_view(m[j].1)
                    && (r[j].1 matches Some(x) ==> x.is_owned()),
        decreases m.len() - i,
    {
        proof { assert(decreases_to!(*m => m[i as int].0)); assert(decreases_to!(*m => m[i as int].1)); }
        let k = detach(&m[i].0);
        let x = detach_option(&m[i].1);
        r.push((k, x));
        i += 1;
    }
    r
}

} // verus!
