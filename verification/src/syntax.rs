//! The parts of a class declaration that the class rules read.
//!
//! A parser hands over each class as a [`ClassNode`]: the members in
//! declaration order, each with its name, its modifiers and the facts about
//! its parameters and body that the rules depend on. Expressions and type
//! annotations stay with the caller.

use vstd::prelude::*;

verus! {

/// A range of source text, by byte offsets.
#[derive(Clone, Copy, Debug, PartialEq, Eq, Structural, Hash)]
pub struct Span {
    pub lo: u32,
    pub hi: u32,
}

/// How the name of a member is written.
#[derive(Clone, Copy, Debug, PartialEq, Eq, Structural, Hash)]
pub enum NameKind {
    /// An identifier: `foo`.
    Ident,
    /// A string literal: `"foo"`.
    Str,
    /// A numeric literal: `1`.
    Num,
    /// A big integer literal: `1n`.
    BigInt,
    /// A computed name: `[expr]`.
    Computed,
}

/// The name of a member that is not private.
///
/// `text` is the name in identifier form: the identifier itself, the value of
/// a string literal, a number as it prints, and for a computed name the text
/// of its expression without positions.
#[derive(Clone, Debug, PartialEq, Eq)]
pub struct PropName {
    pub kind: NameKind,
    pub text: String,
    /// Whether the name carries the `?` mark. Only identifiers can.
    pub optional: bool,
    pub span: Span,
}

impl PropName {
    /// Whether two names are written alike, whatever their positions.
    pub open spec fn same_written(self, other: PropName) -> bool {
        self.kind == other.kind && self.text@ == other.text@ && self.optional == other.optional
    }

    /// Whether two names denote the same member name. Computed names denote
    /// none that could be compared.
    pub open spec fn same_name(self, other: PropName) -> bool {
        self.kind != NameKind::Computed && other.kind != NameKind::Computed && self.text@
            == other.text@
    }

    /// Whether two names denote the same member name, or are computed names
    /// written alike.
    pub open spec fn same_name_or_computation(self, other: PropName) -> bool {
        ||| self.kind == NameKind::Computed && other.kind == NameKind::Computed
            && self.same_written(other)
        ||| self.same_name(other)
    }

    /// Whether the name is the identifier `word`.
    pub open spec fn is_word(self, word: Seq<char>) -> bool {
        self.kind == NameKind::Ident && self.text@ == word
    }

    /// Compares two names as written, whatever their positions.
    pub fn is_same_written(&self, other: &PropName) -> (same: bool)
        ensures
            same == self.same_written(*other),
    {
        self.kind == other.kind && self.text == other.text && self.optional == other.optional
    }

    /// Compares the member names that two names denote.
    pub fn is_same_name(&self, other: &PropName) -> (same: bool)
        ensures
            same == self.same_name(*other),
    {
        self.kind != NameKind::Computed && other.kind != NameKind::Computed && self.text
            == other.text
    }

    /// Compares the member names that two names denote, and computed names
    /// as written.
    pub fn is_same_name_or_computation(&self, other: &PropName) -> (same: bool)
        ensures
            same == self.same_name_or_computation(*other),
    {
        if self.kind == NameKind::Computed && other.kind == NameKind::Computed
            && self.is_same_written(other) {
            true
        } else {
            self.is_same_name(other)
        }
    }

    /// Whether a member with this name may leave out its body.
    pub fn is_key_optional(&self) -> (optional: bool)
        ensures
            optional == (self.kind == NameKind::Ident && self.optional),
    {
        self.kind == NameKind::Ident && self.optional
    }
}

/// The name of a private member: `#text`.
#[derive(Clone, Debug, PartialEq, Eq)]
pub struct PrivateName {
    pub text: String,
    pub span: Span,
}

impl PrivateName {
    /// Whether two private names are the same, whatever their positions.
    pub open spec fn same_name(self, other: PrivateName) -> bool {
        self.text@ == other.text@
    }

    /// Compares two private names, whatever their positions.
    pub fn is_same_name(&self, other: &PrivateName) -> (same: bool)
        ensures
            same == self.same_name(*other),
    {
        self.text == other.text
    }
}

/// What a method-shaped member is.
#[derive(Clone, Copy, Debug, PartialEq, Eq, Structural, Hash)]
pub enum MethodKind {
    Method,
    Getter,
    Setter,
}

/// The accessibility modifier of a member.
#[derive(Clone, Copy, Debug, PartialEq, Eq, Structural, Hash)]
pub enum Accessibility {
    Public,
    Protected,
    Private,
}

/// The shape of a parameter's binding pattern.
#[derive(Clone, Copy, Debug, PartialEq, Eq, Structural, Hash)]
pub enum PatKind {
    /// A plain name: `a`.
    Ident,
    /// An array pattern: `[a, b]`.
    Array,
    /// A rest parameter: `...a`.
    Rest,
    /// An object pattern: `{ a, b }`.
    Object,
    /// A parameter with a default value: `a = 1`.
    Assign,
    /// Anything that is no binding pattern.
    Invalid,
}

/// A parameter of a method or a constructor.
#[derive(Clone, Copy, Debug, PartialEq, Eq, Structural, Hash)]
pub struct ParamNode {
    pub span: Span,
    pub pat: PatKind,
    /// Whether the parameter is a plain name marked with `?`.
    pub optional: bool,
}

/// A constructor parameter that also declares a property: one that carries
/// an accessibility modifier or `readonly`.
#[derive(Clone, Debug, PartialEq, Eq)]
pub struct ParamPropNode {
    pub span: Span,
    /// `Ident` for `private a`, `Assign` for `private a = 1`.
    pub pat: PatKind,
    pub name: String,
    pub name_span: Span,
    pub optional: bool,
    pub accessibility: Option<Accessibility>,
    pub readonly: bool,
}

/// One entry of a constructor's parameter list.
#[derive(Clone, Debug, PartialEq, Eq)]
pub enum ParamOrParamProp {
    Param(ParamNode),
    ParamProp(ParamPropNode),
}

impl ParamOrParamProp {
    /// The source range of the entry.
    pub open spec fn span(self) -> Span {
        match self {
            ParamOrParamProp::Param(p) => p.span,
            ParamOrParamProp::ParamProp(p) => p.span,
        }
    }
}

/// A constructor.
#[derive(Clone, Debug, PartialEq, Eq)]
pub struct ConstructorNode {
    pub span: Span,
    /// The name as written, in most cases the identifier `constructor`.
    pub key: PropName,
    pub params: Vec<ParamOrParamProp>,
    pub has_body: bool,
    pub accessibility: Option<Accessibility>,
}

/// A method, a getter or a setter with a name that is not private.
#[derive(Clone, Debug, PartialEq, Eq)]
pub struct MethodNode {
    pub span: Span,
    pub key: PropName,
    pub kind: MethodKind,
    pub params: Vec<ParamNode>,
    pub has_body: bool,
    pub has_type_params: bool,
    pub has_return_type: bool,
    pub is_static: bool,
    pub is_abstract: bool,
    pub is_optional: bool,
    pub is_override: bool,
    pub accessibility: Option<Accessibility>,
}

/// A method, a getter or a setter with a private name.
#[derive(Clone, Debug, PartialEq, Eq)]
pub struct PrivateMethodNode {
    pub span: Span,
    pub key: PrivateName,
    pub kind: MethodKind,
    pub params: Vec<ParamNode>,
    pub has_body: bool,
    pub has_type_params: bool,
    pub has_return_type: bool,
    pub is_static: bool,
    pub is_abstract: bool,
    pub is_optional: bool,
    pub accessibility: Option<Accessibility>,
}

/// A property with a name that is not private.
#[derive(Clone, Debug, PartialEq, Eq)]
pub struct ClassPropNode {
    pub span: Span,
    pub key: PropName,
    pub has_value: bool,
    pub has_type_ann: bool,
    pub is_static: bool,
    pub is_abstract: bool,
    pub is_optional: bool,
    pub readonly: bool,
    pub definite: bool,
    pub accessibility: Option<Accessibility>,
}

/// A property with a private name.
#[derive(Clone, Debug, PartialEq, Eq)]
pub struct PrivatePropNode {
    pub span: Span,
    pub key: PrivateName,
    pub has_value: bool,
    pub has_type_ann: bool,
    pub is_static: bool,
    pub is_optional: bool,
    pub readonly: bool,
    pub definite: bool,
    pub accessibility: Option<Accessibility>,
}

/// The name of an auto-accessor, which may be private or not.
#[derive(Clone, Debug, PartialEq, Eq)]
pub enum KeyNode {
    Private(PrivateName),
    Public(PropName),
}

/// An auto-accessor: `accessor x = 1`.
#[derive(Clone, Debug, PartialEq, Eq)]
pub struct AutoAccessorNode {
    pub span: Span,
    pub key: KeyNode,
    pub has_value: bool,
    pub has_type_ann: bool,
    pub is_static: bool,
    pub accessibility: Option<Accessibility>,
}

/// An index signature: `[key: string]: number`.
#[derive(Clone, Copy, Debug, PartialEq, Eq, Structural, Hash)]
pub struct IndexSignatureNode {
    pub span: Span,
    pub is_static: bool,
    pub readonly: bool,
}

/// One member of a class body.
#[derive(Clone, Debug, PartialEq, Eq)]
pub enum MemberNode {
    Constructor(ConstructorNode),
    Method(MethodNode),
    PrivateMethod(PrivateMethodNode),
    ClassProp(ClassPropNode),
    PrivateProp(PrivatePropNode),
    TsIndexSignature(IndexSignatureNode),
    Empty,
    StaticBlock,
    AutoAccessor(AutoAccessorNode),
}

/// A class declaration or class expression.
#[derive(Clone, Debug, PartialEq, Eq)]
pub struct ClassNode {
    pub span: Span,
    pub body: Vec<MemberNode>,
    pub is_abstract: bool,
    pub has_super_class: bool,
}

} // verus!
