//! Type-erased state values.
//!
//! The store keeps values of many types in one table, so a cell holds a
//! tagged value. A binding knows at compile time which type it expects and
//! recovers it through `StateType`; the tag is checked when the cell is
//! opened.
//!
//! The types that can be kept are the ones listed here. State of any other
//! type is kept in its encoded form, as bytes or as text.

use vstd::prelude::*;

verus! {

/// Which kind of value a cell holds.
#[derive(Clone, Copy, Debug, PartialEq, Eq, Structural)]
pub enum TypeTag {
    Bool,
    I32,
    I64,
    U64,
    Text,
    Bytes,
}

/// A value of one of the types that can be kept as state, together with its
/// tag.
#[derive(Debug, PartialEq, Eq)]
pub enum AnyValue {
    Bool(bool),
    I32(i32),
    I64(i64),
    U64(u64),
    Text(String),
    Bytes(Vec<u8>),
}

impl AnyValue {
    /// The tag of the value.
    pub open spec fn tag(self) -> TypeTag {
        match self {
            AnyValue::Bool(_) => TypeTag::Bool,
            AnyValue::I32(_) => TypeTag::I32,
            AnyValue::I64(_) => TypeTag::I64,
            AnyValue::U64(_) => TypeTag::U64,
            AnyValue::Text(_) => TypeTag::Text,
            AnyValue::Bytes(_) => TypeTag::Bytes,
        }
    }

    /// The tag of the value.
    pub fn type_tag(&self) -> (t: TypeTag)
        ensures
            t == self.tag(),
    {
        match self {
            AnyValue::Bool(_) => TypeTag::Bool,
            AnyValue::I32(_) => TypeTag::I32,
            AnyValue::I64(_) => TypeTag::I64,
            AnyValue::U64(_) => TypeTag::U64,
            AnyValue::Text(_) => TypeTag::Text,
            AnyValue::Bytes(_) => TypeTag::Bytes,
        }
    }
}

/// A type whose values can be kept in a state cell.
///
/// `erased` and `recovered` are inverse to each other on the values that carry
/// the type's tag: what is put into a cell is what comes out of it.
pub trait StateType: Sized {
    /// The tag under which values of this type are stored.
    spec fn type_tag() -> TypeTag;

    /// The tagged form of a value.
    spec fn erased(self) -> AnyValue;

    /// The value inside a tagged value that carries this type's tag.
    spec fn recovered(v: AnyValue) -> Self;

    /// A value survives being stored.
    proof fn lemma_erased(s: Self)
        ensures
            s.erased().tag() == Self::type_tag(),
            Self::recovered(s.erased()) == s,
    ;

    /// A tagged value of this type is the tagged form of what it holds.
    proof fn lemma_recovered(v: AnyValue)
        requires
            v.tag() == Self::type_tag(),
        ensures
            Self::recovered(v).erased() == v,
    ;

    /// Tags the value.
    fn into_any(self) -> (v: AnyValue)
        ensures
            v == self.erased(),
    ;

    /// The value inside `v` if `v` carries this type's tag, `None` if it
    /// carries another.
    fn downcast_ref(v: &AnyValue) -> (r: Option<&Self>)
        ensures
            r is Some <==> v.tag() == Self::type_tag(),
            r matches Some(s) ==> *s == Self::recovered(*v),
    ;

    /// As `downcast_ref`, for writing: what is written through the reference
    /// becomes the content of `v`, under the same tag.
    fn downcast_mut(v: &mut AnyValue) -> (r: Option<&mut Self>)
        ensures
            r is Some <==> old(v).tag() == Self::type_tag(),
            r matches Some(s) ==> *s == Self::recovered(*old(v)) && *final(v) == (*final(s)).erased(),
            r is None ==> *final(v) == *old(v),
    ;
}

impl StateType for bool {
    open spec fn type_tag() -> TypeTag {
        TypeTag::Bool
    }

    open spec fn erased(self) -> AnyValue {
        AnyValue::Bool(self)
    }

    open spec fn recovered(v: AnyValue) -> bool {
        match v {
            AnyValue::Bool(b) => b,
            _ => false,
        }
    }

    proof fn lemma_erased(s: bool) {
    }

    proof fn lemma_recovered(v: AnyValue) {
    }

    fn into_any(self) -> (v: AnyValue) {
        AnyValue::Bool(self)
    }

    fn downcast_ref(v: &AnyValue) -> (r: Option<&bool>) {
        match v {
            AnyValue::Bool(b) => Some(b),
            _ => None,
        }
    }

    fn downcast_mut(v: &mut AnyValue) -> (r: Option<&mut bool>) {
        match v {
            AnyValue::Bool(b) => Some(b),
            _ => None,
        }
    }
}

impl StateType for i32 {
    open spec fn type_tag() -> TypeTag {
        TypeTag::I32
    }

    open spec fn erased(self) -> AnyValue {
        AnyValue::I32(self)
    }

    open spec fn recovered(v: AnyValue) -> i32 {
        match v {
            AnyValue::I32(n) => n,
            _ => 0,
        }
    }

    proof fn lemma_erased(s: i32) {
    }

    proof fn lemma_recovered(v: AnyValue) {
    }

    fn into_any(self) -> (v: AnyValue) {
        AnyValue::I32(self)
    }

    fn downcast_ref(v: &AnyValue) -> (r: Option<&i32>) {
        match v {
            AnyValue::I32(n) => Some(n),
            _ => None,
        }
    }

    fn downcast_mut(v: &mut AnyValue) -> (r: Option<&mut i32>) {
        match v {
            AnyValue::I32(n) => Some(n),
            _ => None,
        }
    }
}

impl StateType for i64 {
    open spec fn type_tag() -> TypeTag {
        TypeTag::I64
    }

    open spec fn erased(self) -> AnyValue {
        AnyValue::I64(self)
    }

    open spec fn recovered(v: AnyValue) -> i64 {
        match v {
            AnyValue::I64(n) => n,
            _ => 0,
        }
    }

    proof fn lemma_erased(s: i64) {
    }

    proof fn lemma_recovered(v: AnyValue) {
    }

    fn into_any(self) -> (v: AnyValue) {
        AnyValue::I64(self)
    }

    fn downcast_ref(v: &AnyValue) -> (r: Option<&i64>) {
        match v {
            AnyValue::I64(n) => Some(n),
            _ => None,
        }
    }

    fn downcast_mut(v: &mut AnyValue) -> (r: Option<&mut i64>) {
        match v {
            AnyValue::I64(n) => Some(n),
            _ => None,
        }
    }
}

impl StateType for u64 {
    open spec fn type_tag() -> TypeTag {
        TypeTag::U64
    }

    open spec fn erased(self) -> AnyValue {
        AnyValue::U64(self)
    }

    open spec fn recovered(v: AnyValue) -> u64 {
        match v {
            AnyValue::U64(n) => n,
            _ => 0,
        }
    }

    proof fn lemma_erased(s: u64) {
    }

    proof fn lemma_recovered(v: AnyValue) {
    }

    fn into_any(self) -> (v: AnyValue) {
        AnyValue::U64(self)
    }

    fn downcast_ref(v: &AnyValue) -> (r: Option<&u64>) {
        match v {
            AnyValue::U64(n) => Some(n),
            _ => None,
        }
    }

    fn downcast_mut(v: &mut AnyValue) -> (r: Option<&mut u64>) {
        match v {
            AnyValue::U64(n) => Some(n),
            _ => None,
        }
    }
}

impl StateType for String {
    open spec fn type_tag() -> TypeTag {
        TypeTag::Text
    }

    open spec fn erased(self) -> AnyValue {
        AnyValue::Text(self)
    }

    open spec fn recovered(v: AnyValue) -> String {
        match v {
            AnyValue::Text(s) => s,
            _ => arbitrary(),
        }
    }

    proof fn lemma_erased(s: String) {
    }

    proof fn lemma_recovered(v: AnyValue) {
    }

    fn into_any(self) -> (v: AnyValue) {
        AnyValue::Text(self)
    }

    fn downcast_ref(v: &AnyValue) -> (r: Option<&String>) {
        match v {
            AnyValue::Text(s) => Some(s),
            _ => None,
        }
    }

    fn downcast_mut(v: &mut AnyValue) -> (r: Option<&mut String>) {
        match v {
            AnyValue::Text(s) => Some(s),
            _ => None,
        }
    }
}

impl StateType for Vec<u8> {
    open spec fn type_tag() -> TypeTag {
        TypeTag::Bytes
    }

    open spec fn erased(self) -> AnyValue {
        AnyValue::Bytes(self)
    }

    open spec fn recovered(v: AnyValue) -> Vec<u8> {
        match v {
            AnyValue::Bytes(b) => b,
            _ => arbitrary(),
        }
    }

    proof fn lemma_erased(s: Vec<u8>) {
    }

    proof fn lemma_recovered(v: AnyValue) {
    }

    fn into_any(self) -> (v: AnyValue) {
        AnyValue::Bytes(self)
    }

    fn downcast_ref(v: &AnyValue) -> (r: Option<&Vec<u8>>) {
        match v {
            AnyValue::Bytes(b) => Some(b),
            _ => None,
        }
    }

    fn downcast_mut(v: &mut AnyValue) -> (r: Option<&mut Vec<u8>>) {
        match v {
            AnyValue::Bytes(b) => Some(b),
            _ => None,
        }
    }
}

} // verus!
