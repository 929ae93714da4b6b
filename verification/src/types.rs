//! The resolved form of a class: its members with their types.
//!
//! The types themselves belong to the type checker that calls this
//! library. A [`Type`] holds what the class rules read of one, and the
//! handle under which the checker finds the rest.

use crate::syntax::Accessibility;
use crate::syntax::NameKind;
use crate::syntax::PatKind;
use crate::syntax::PrivateName;
use crate::syntax::PropName;
use crate::syntax::Span;
use vstd::prelude::*;

verus! {

/// What sort of type a [`Type`] stands for, as far as the class rules
/// tell types apart.
#[derive(Clone, Copy, Debug, PartialEq, Eq, Structural, Hash)]
pub enum TypeKind {
    Any,
    Unknown,
    Void,
    Never,
    Null,
    Undefined,
    String,
    Number,
    Boolean,
    BigInt,
    /// The type `symbol`.
    Symbol,
    /// A `unique symbol`.
    Unique,
    Object,
    /// A literal type such as `"a"` or `1`.
    Lit,
    Function,
    /// A class as a value: what a class declaration introduces.
    ClassDef,
    /// An instance of a class.
    Class,
    Interface,
    Intersection,
    Union,
    /// A reference to a named type that has not been looked up.
    Ref,
    /// Anything else.
    Other,
}

/// A type, as far as the class rules read it.
#[derive(Clone, Copy, Debug, PartialEq, Eq, Structural, Hash)]
pub struct Type {
    /// The handle under which the type checker knows the type.
    pub id: u64,
    pub kind: TypeKind,
    pub span: Span,
    /// Whether literal types in it are kept as they are where they would
    /// otherwise be widened to their base types.
    pub keeps_literals: bool,
    /// Whether literal types in it are to be widened to their base types.
    pub widened: bool,
}

/// How the key of a member is formed.
#[derive(Clone, Copy, Debug, PartialEq, Eq, Structural, Hash)]
pub enum KeyKind {
    /// A private name: `#a`.
    Private,
    /// An identifier or a string literal.
    Normal,
    /// A numeric literal.
    Num,
    /// A big integer literal.
    BigInt,
    /// A computed key.
    Computed,
}

/// The key of a member.
///
/// `text` is the key in identifier form. Two keys are the same key if they
/// are formed alike and have the same text, wherever they stand.
#[derive(Clone, Debug, PartialEq, Eq)]
pub struct Key {
    pub kind: KeyKind,
    pub text: String,
    pub span: Span,
}

impl Key {
    /// Whether two keys are the same key, whatever their positions.
    pub open spec fn type_eq(self, other: Key) -> bool {
        self.kind == other.kind && self.text@ == other.text@
    }

    /// Compares two keys, whatever their positions.
    pub fn is_type_eq(&self, other: &Key) -> (same: bool)
        ensures
            same == self.type_eq(*other),
    {
        self.kind == other.kind && self.text == other.text
    }

    /// How the key of a member with a name written in this way is formed:
    /// identifiers and string literals give the same keys.
    pub open spec fn kind_of(kind: NameKind) -> KeyKind {
        match kind {
            NameKind::Ident | NameKind::Str => KeyKind::Normal,
            NameKind::Num => KeyKind::Num,
            NameKind::BigInt => KeyKind::BigInt,
            NameKind::Computed => KeyKind::Computed,
        }
    }

    /// The key of a member with the public name `name`.
    pub fn from_name(name: &PropName) -> (key: Key)
        ensures
            key == (Key { kind: Key::kind_of(name.kind), text: name.text, span: name.span }),
    {
        let kind = match name.kind {
            NameKind::Ident | NameKind::Str => KeyKind::Normal,
            NameKind::Num => KeyKind::Num,
            NameKind::BigInt => KeyKind::BigInt,
            NameKind::Computed => KeyKind::Computed,
        };
        Key { kind, text: name.text.clone(), span: name.span }
    }

    /// The key of a member with the private name `name`.
    pub fn from_private_name(name: &PrivateName) -> (key: Key)
        ensures
            key == (Key { kind: KeyKind::Private, text: name.text, span: name.span }),
    {
        Key { kind: KeyKind::Private, text: name.text.clone(), span: name.span }
    }

    /// A copy of the key.
    pub fn copy(&self) -> (key: Key)
        ensures
            key == *self,
    {
        Key { kind: self.kind, text: self.text.clone(), span: self.span }
    }
}

/// Whether a property is read through a getter and written through a
/// setter.
#[derive(Clone, Copy, Debug, PartialEq, Eq, Structural, Hash)]
pub struct Accessor {
    pub getter: bool,
    pub setter: bool,
}

/// A property of a class, or an accessor in the shape of one.
#[derive(Clone, Debug, PartialEq, Eq)]
pub struct ClassProperty {
    pub span: Span,
    pub key: Key,
    pub value: Option<Type>,
    pub is_static: bool,
    pub accessibility: Option<Accessibility>,
    pub is_abstract: bool,
    pub is_optional: bool,
    pub readonly: bool,
    pub definite: bool,
    pub accessor: Accessor,
}

/// A parameter of a method, a constructor or an index signature.
#[derive(Clone, Copy, Debug, PartialEq, Eq, Structural, Hash)]
pub struct FnParam {
    pub span: Span,
    pub pat: PatKind,
    pub required: bool,
    pub ty: Type,
}

/// A method of a class.
#[derive(Clone, Debug, PartialEq, Eq)]
pub struct Method {
    pub span: Span,
    pub key: Key,
    pub accessibility: Option<Accessibility>,
    pub is_static: bool,
    pub is_abstract: bool,
    pub is_optional: bool,
    pub has_type_params: bool,
    pub params: Vec<FnParam>,
    pub ret_ty: Type,
}

/// A constructor of a class. It has no name and no declared return type.
#[derive(Clone, Debug, PartialEq, Eq)]
pub struct ConstructorSignature {
    pub span: Span,
    pub accessibility: Option<Accessibility>,
    pub params: Vec<FnParam>,
    pub ret_ty: Option<Type>,
    pub has_type_params: bool,
}

/// An index signature of a class.
#[derive(Clone, Debug, PartialEq, Eq)]
pub struct IndexSignature {
    pub span: Span,
    pub params: Vec<FnParam>,
    pub type_ann: Option<Type>,
    pub readonly: bool,
    pub is_static: bool,
}

/// A member of a resolved class.
#[derive(Clone, Debug, PartialEq, Eq)]
pub enum ClassMember {
    Constructor(ConstructorSignature),
    Method(Method),
    Property(ClassProperty),
    IndexSignature(IndexSignature),
}

impl ClassMember {
    /// Whether the member has a key. Methods and properties do.
    pub open spec fn has_key(self) -> bool {
        self is Method || self is Property
    }

    /// The key of a method or a property.
    pub open spec fn key_spec(self) -> Key
        recommends
            self.has_key(),
    {
        match self {
            ClassMember::Method(m) => m.key,
            ClassMember::Property(p) => p.key,
            _ => arbitrary(),
        }
    }

    /// The key of the member, if it has one.
    pub fn key(&self) -> (key: Option<&Key>)
        ensures
            key is Some == self.has_key(),
            key is Some ==> *key->0 == self.key_spec(),
    {
        match self {
            ClassMember::Method(m) => Some(&m.key),
            ClassMember::Property(p) => Some(&p.key),
            _ => None,
        }
    }
}

/// A resolved class.
#[derive(Clone, Debug, PartialEq, Eq)]
pub struct ClassDef {
    pub span: Span,
    pub name: Option<String>,
    pub is_abstract: bool,
    pub super_class: Option<Type>,
    pub has_type_params: bool,
    pub body: Vec<ClassMember>,
    /// The interfaces that the class says it implements.
    pub implements: Vec<Type>,
}

} // verus!
