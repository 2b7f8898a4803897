//! The values that an entry can hold, and the types that can be stored.
//!
//! An entry holds a [`Value`], a closed sum of the supported types. A Rust
//! type is stored and read back through [`Storable`], which says into which
//! variant it goes; reading a value as a type that it was not stored as fails.

use vstd::prelude::*;

verus! {

/// Bytes of a type that the board does not know. The caller chooses a token
/// for each such type, and the token is part of the Rust type: bytes that
/// were stored under one token are read back and replaced under that token
/// only.
#[derive(Debug)]
pub struct Opaque<const TOKEN: u64> {
    /// The bytes of the value.
    pub content: Vec<u8>,
}

/// What an entry holds: a value of one of the types that the board knows, or
/// the bytes of a type that it does not know.
#[derive(Debug)]
pub enum Value {
    Bool(bool),
    I32(i32),
    I64(i64),
    U32(u32),
    U64(u64),
    I8(i8),
    I16(i16),
    U8(u8),
    U16(u16),
    Usize(usize),
    Isize(isize),
    Char(char),
    Text(String),
    /// Bytes under the token of the caller's type.
    Opaque { type_token: u64, content: Vec<u8> },
}

/// A [`Value`] with its strings and vectors as sequences.
pub enum ValueView {
    Bool(bool),
    I32(i32),
    I64(i64),
    U32(u32),
    U64(u64),
    I8(i8),
    I16(i16),
    U8(u8),
    U16(u16),
    Usize(usize),
    Isize(isize),
    Char(char),
    Text(Seq<char>),
    Opaque { type_token: u64, content: Seq<u8> },
}

impl View for Value {
    type V = ValueView;

    open spec fn view(&self) -> ValueView {
        match self {
            Value::Bool(b) => ValueView::Bool(*b),
            Value::I32(n) => ValueView::I32(*n),
            Value::I64(n) => ValueView::I64(*n),
            Value::U32(n) => ValueView::U32(*n),
            Value::U64(n) => ValueView::U64(*n),
            Value::I8(n) => ValueView::I8(*n),
            Value::I16(n) => ValueView::I16(*n),
            Value::U8(n) => ValueView::U8(*n),
            Value::U16(n) => ValueView::U16(*n),
            Value::Usize(n) => ValueView::Usize(*n),
            Value::Isize(n) => ValueView::Isize(*n),
            Value::Char(n) => ValueView::Char(*n),
            Value::Text(s) => ValueView::Text(s@),
            Value::Opaque { type_token, content } => ValueView::Opaque {
                type_token: *type_token,
                content: content@,
            },
        }
    }
}

impl Value {
    /// A copy of the value.
    pub fn duplicate(&self) -> (r: Value)
        ensures
            r@ == self@,
    {
        match self {
            Value::Bool(b) => Value::Bool(*b),
            Value::I32(n) => Value::I32(*n),
            Value::I64(n) => Value::I64(*n),
            Value::U32(n) => Value::U32(*n),
            Value::U64(n) => Value::U64(*n),
            Value::I8(n) => Value::I8(*n),
            Value::I16(n) => Value::I16(*n),
            Value::U8(n) => Value::U8(*n),
            Value::U16(n) => Value::U16(*n),
            Value::Usize(n) => Value::Usize(*n),
            Value::Isize(n) => Value::Isize(*n),
            Value::Char(n) => Value::Char(*n),
            Value::Text(s) => Value::Text(s.clone()),
            Value::Opaque { type_token, content } => Value::Opaque {
                type_token: *type_token,
                content: copy_of(content),
            },
        }
    }
}

/// A copy of the bytes.
fn copy_of(bytes: &Vec<u8>) -> (r: Vec<u8>)
    ensures
        r@ == bytes@,
{
    let mut r: Vec<u8> = Vec::new();
    let mut i: usize = 0;
    while i < bytes.len()
        invariant
            i <= bytes.len(),
            r@ == bytes@.take(i as int),
        decreases bytes.len() - i,
    {
        r.push(bytes[i]);
        assert(bytes@.take(i + 1) == bytes@.take(i as int).push(bytes@[i as int]));
        i += 1;
    }
    assert(bytes@.take(i as int) == bytes@);
    r
}

impl<const TOKEN: u64> Opaque<TOKEN> {
    /// A copy of the bytes, under the same token.
    pub fn duplicate(&self) -> (r: Opaque<TOKEN>)
        ensures
            r.content@ == self.content@,
    {
        Opaque { content: copy_of(&self.content) }
    }
}

/// A type whose values an entry can hold.
pub trait Storable: Sized {
    /// The value as an entry holds it.
    spec fn stored(&self) -> ValueView;

    /// Whether `v` was stored as this type.
    spec fn holds(v: ValueView) -> bool;

    /// What is stored of this type is read back as this type.
    proof fn lemma_stored_holds(&self)
        ensures
            Self::holds(self.stored()),
    ;

    /// The two are the same value: equal, and for text and bytes made of the
    /// same characters or bytes.
    spec fn same(&self, other: &Self) -> bool;

    /// Values that are stored alike are the same value, and the other way
    /// round: what is read back after it was stored is the value that was
    /// stored.
    proof fn lemma_stored_one_to_one(&self, other: &Self)
        ensures
            self.stored() == other.stored() <==> self.same(other),
    ;

    /// Whether `v` was stored as this type.
    fn accepts(v: &Value) -> (r: bool)
        ensures
            r == Self::holds(v@),
    ;

    /// Turns the value into what an entry holds.
    fn into_value(self) -> (v: Value)
        ensures
            v@ == self.stored(),
    ;

    /// Reads a copy of `v` as this type; `None` if `v` was stored as another.
    fn from_value(v: &Value) -> (r: Option<Self>)
        ensures
            match r {
                Some(t) => Self::holds(v@) && t.stored() == v@,
                None => !Self::holds(v@),
            },
    ;
}

impl Storable for bool {
    open spec fn stored(&self) -> ValueView {
        ValueView::Bool(*self)
    }

    open spec fn holds(v: ValueView) -> bool {
        v is Bool
    }

    proof fn lemma_stored_holds(&self) {
    }

    open spec fn same(&self, other: &Self) -> bool {
        *self == *other
    }

    proof fn lemma_stored_one_to_one(&self, other: &Self) {
    }

    fn accepts(v: &Value) -> (r: bool) {
        match v {
            Value::Bool(_) => true,
            _ => false,
        }
    }

    fn into_value(self) -> (v: Value) {
        Value::Bool(self)
    }

    fn from_value(v: &Value) -> (r: Option<Self>) {
        match v {
            Value::Bool(b) => Some(*b),
            _ => None,
        }
    }
}

impl Storable for i32 {
    open spec fn stored(&self) -> ValueView {
        ValueView::I32(*self)
    }

    open spec fn holds(v: ValueView) -> bool {
        v is I32
    }

    proof fn lemma_stored_holds(&self) {
    }

    open spec fn same(&self, other: &Self) -> bool {
        *self == *other
    }

    proof fn lemma_stored_one_to_one(&self, other: &Self) {
    }

    fn accepts(v: &Value) -> (r: bool) {
        match v {
            Value::I32(_) => true,
            _ => false,
        }
    }

    fn into_value(self) -> (v: Value) {
        Value::I32(self)
    }

    fn from_value(v: &Value) -> (r: Option<Self>) {
        match v {
            Value::I32(n) => Some(*n),
            _ => None,
        }
    }
}

impl Storable for i64 {
    open spec fn stored(&self) -> ValueView {
        ValueView::I64(*self)
    }

    open spec fn holds(v: ValueView) -> bool {
        v is I64
    }

    proof fn lemma_stored_holds(&self) {
    }

    open spec fn same(&self, other: &Self) -> bool {
        *self == *other
    }

    proof fn lemma_stored_one_to_one(&self, other: &Self) {
    }

    fn accepts(v: &Value) -> (r: bool) {
        match v {
            Value::I64(_) => true,
            _ => false,
        }
    }

    fn into_value(self) -> (v: Value) {
        Value::I64(self)
    }

    fn from_value(v: &Value) -> (r: Option<Self>) {
        match v {
            Value::I64(n) => Some(*n),
            _ => None,
        }
    }
}

impl Storable for u32 {
    open spec fn stored(&self) -> ValueView {
        ValueView::U32(*self)
    }

    open spec fn holds(v: ValueView) -> bool {
        v is U32
    }

    proof fn lemma_stored_holds(&self) {
    }

    open spec fn same(&self, other: &Self) -> bool {
        *self == *other
    }

    proof fn lemma_stored_one_to_one(&self, other: &Self) {
    }

    fn accepts(v: &Value) -> (r: bool) {
        match v {
            Value::U32(_) => true,
            _ => false,
        }
    }

    fn into_value(self) -> (v: Value) {
        Value::U32(self)
    }

    fn from_value(v: &Value) -> (r: Option<Self>) {
        match v {
            Value::U32(n) => Some(*n),
            _ => None,
        }
    }
}

impl Storable for u64 {
    open spec fn stored(&self) -> ValueView {
        ValueView::U64(*self)
    }

    open spec fn holds(v: ValueView) -> bool {
        v is U64
    }

    proof fn lemma_stored_holds(&self) {
    }

    open spec fn same(&self, other: &Self) -> bool {
        *self == *other
    }

    proof fn lemma_stored_one_to_one(&self, other: &Self) {
    }

    fn accepts(v: &Value) -> (r: bool) {
        match v {
            Value::U64(_) => true,
            _ => false,
        }
    }

    fn into_value(self) -> (v: Value) {
        Value::U64(self)
    }

    fn from_value(v: &Value) -> (r: Option<Self>) {
        match v {
            Value::U64(n) => Some(*n),
            _ => None,
        }
    }
}

impl Storable for i8 {
    open spec fn stored(&self) -> ValueView {
        ValueView::I8(*self)
    }

    open spec fn holds(v: ValueView) -> bool {
        v is I8
    }

    proof fn lemma_stored_holds(&self) {
    }

    open spec fn same(&self, other: &Self) -> bool {
        *self == *other
    }

    proof fn lemma_stored_one_to_one(&self, other: &Self) {
    }

    fn accepts(v: &Value) -> (r: bool) {
        match v {
            Value::I8(_) => true,
            _ => false,
        }
    }

    fn into_value(self) -> (v: Value) {
        Value::I8(self)
    }

    fn from_value(v: &Value) -> (r: Option<Self>) {
        match v {
            Value::I8(n) => Some(*n),
            _ => None,
        }
    }
}

impl Storable for i16 {
    open spec fn stored(&self) -> ValueView {
        ValueView::I16(*self)
    }

    open spec fn holds(v: ValueView) -> bool {
        v is I16
    }

    proof fn lemma_stored_holds(&self) {
    }

    open spec fn same(&self, other: &Self) -> bool {
        *self == *other
    }

    proof fn lemma_stored_one_to_one(&self, other: &Self) {
    }

    fn accepts(v: &Value) -> (r: bool) {
        match v {
            Value::I16(_) => true,
            _ => false,
        }
    }

    fn into_value(self) -> (v: Value) {
        Value::I16(self)
    }

    fn from_value(v: &Value) -> (r: Option<Self>) {
        match v {
            Value::I16(n) => Some(*n),
            _ => None,
        }
    }
}

impl Storable for u8 {
    open spec fn stored(&self) -> ValueView {
        ValueView::U8(*self)
    }

    open spec fn holds(v: ValueView) -> bool {
        v is U8
    }

    proof fn lemma_stored_holds(&self) {
    }

    open spec fn same(&self, other: &Self) -> bool {
        *self == *other
    }

    proof fn lemma_stored_one_to_one(&self, other: &Self) {
    }

    fn accepts(v: &Value) -> (r: bool) {
        match v {
            Value::U8(_) => true,
            _ => false,
        }
    }

    fn into_value(self) -> (v: Value) {
        Value::U8(self)
    }

    fn from_value(v: &Value) -> (r: Option<Self>) {
        match v {
            Value::U8(n) => Some(*n),
            _ => None,
        }
    }
}

impl Storable for u16 {
    open spec fn stored(&self) -> ValueView {
        ValueView::U16(*self)
    }

    open spec fn holds(v: ValueView) -> bool {
        v is U16
    }

    proof fn lemma_stored_holds(&self) {
    }

    open spec fn same(&self, other: &Self) -> bool {
        *self == *other
    }

    proof fn lemma_stored_one_to_one(&self, other: &Self) {
    }

    fn accepts(v: &Value) -> (r: bool) {
        match v {
            Value::U16(_) => true,
            _ => false,
        }
    }

    fn into_value(self) -> (v: Value) {
        Value::U16(self)
    }

    fn from_value(v: &Value) -> (r: Option<Self>) {
        match v {
            Value::U16(n) => Some(*n),
            _ => None,
        }
    }
}

impl Storable for usize {
    open spec fn stored(&self) -> ValueView {
        ValueView::Usize(*self)
    }

    open spec fn holds(v: ValueView) -> bool {
        v is Usize
    }

    proof fn lemma_stored_holds(&self) {
    }

    open spec fn same(&self, other: &Self) -> bool {
        *self == *other
    }

    proof fn lemma_stored_one_to_one(&self, other: &Self) {
    }

    fn accepts(v: &Value) -> (r: bool) {
        match v {
            Value::Usize(_) => true,
            _ => false,
        }
    }

    fn into_value(self) -> (v: Value) {
        Value::Usize(self)
    }

    fn from_value(v: &Value) -> (r: Option<Self>) {
        match v {
            Value::Usize(n) => Some(*n),
            _ => None,
        }
    }
}

impl Storable for isize {
    open spec fn stored(&self) -> ValueView {
        ValueView::Isize(*self)
    }

    open spec fn holds(v: ValueView) -> bool {
        v is Isize
    }

    proof fn lemma_stored_holds(&self) {
    }

    open spec fn same(&self, other: &Self) -> bool {
        *self == *other
    }

    proof fn lemma_stored_one_to_one(&self, other: &Self) {
    }

    fn accepts(v: &Value) -> (r: bool) {
        match v {
            Value::Isize(_) => true,
            _ => false,
        }
    }

    fn into_value(self) -> (v: Value) {
        Value::Isize(self)
    }

    fn from_value(v: &Value) -> (r: Option<Self>) {
        match v {
            Value::Isize(n) => Some(*n),
            _ => None,
        }
    }
}

impl Storable for char {
    open spec fn stored(&self) -> ValueView {
        ValueView::Char(*self)
    }

    open spec fn holds(v: ValueView) -> bool {
        v is Char
    }

    proof fn lemma_stored_holds(&self) {
    }

    open spec fn same(&self, other: &Self) -> bool {
        *self == *other
    }

    proof fn lemma_stored_one_to_one(&self, other: &Self) {
    }

    fn accepts(v: &Value) -> (r: bool) {
        match v {
            Value::Char(_) => true,
            _ => false,
        }
    }

    fn into_value(self) -> (v: Value) {
        Value::Char(self)
    }

    fn from_value(v: &Value) -> (r: Option<Self>) {
        match v {
            Value::Char(n) => Some(*n),
            _ => None,
        }
    }
}

impl Storable for String {
    open spec fn stored(&self) -> ValueView {
        ValueView::Text(self@)
    }

    open spec fn holds(v: ValueView) -> bool {
        v is Text
    }

    proof fn lemma_stored_holds(&self) {
    }

    open spec fn same(&self, other: &Self) -> bool {
        self@ == other@
    }

    proof fn lemma_stored_one_to_one(&self, other: &Self) {
    }

    fn accepts(v: &Value) -> (r: bool) {
        match v {
            Value::Text(_) => true,
            _ => false,
        }
    }

    fn into_value(self) -> (v: Value) {
        Value::Text(self)
    }

    fn from_value(v: &Value) -> (r: Option<Self>) {
        match v {
            Value::Text(s) => Some(s.clone()),
            _ => None,
        }
    }
}

impl<const TOKEN: u64> Storable for Opaque<TOKEN> {
    open spec fn stored(&self) -> ValueView {
        ValueView::Opaque { type_token: TOKEN, content: self.content@ }
    }

    open spec fn holds(v: ValueView) -> bool {
        v matches ValueView::Opaque { type_token, .. } && type_token == TOKEN
    }

    proof fn lemma_stored_holds(&self) {
    }

    open spec fn same(&self, other: &Self) -> bool {
        self.content@ == other.content@
    }

    proof fn lemma_stored_one_to_one(&self, other: &Self) {
    }

    fn accepts(v: &Value) -> (r: bool) {
        match v {
            Value::Opaque { type_token, .. } => *type_token == TOKEN,
            _ => false,
        }
    }

    fn into_value(self) -> (v: Value) {
        Value::Opaque { type_token: TOKEN, content: self.content }
    }

    fn from_value(v: &Value) -> (r: Option<Self>) {
        match v {
            Value::Opaque { type_token, content } => if *type_token == TOKEN {
                Some(Opaque { content: copy_of(content) })
            } else {
                None
            },
            _ => None,
        }
    }
}

} // verus!
