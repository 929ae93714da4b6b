//! The diagnostics that the class rules report.

use crate::syntax::Span;
use crate::types::Key;
use vstd::prelude::*;

verus! {

/// What a diagnostic says.
#[derive(Clone, Copy, Debug, PartialEq, Eq, Structural, Hash)]
pub enum ErrorCode {
    /// A member name is declared twice.
    DuplicateNameWithoutName,
    /// A private name is declared both as a static and as an instance member.
    DuplicatePrivateStaticInstance,
    /// A property name is declared twice.
    DuplicateProperty,
    /// More than one constructor has a body.
    DuplicateConstructor,
    /// An overload is static where the others are instance methods.
    ShouldBeInstanceMethod,
    /// An overload is an instance method where the others are static.
    ShouldBeStaticMethod,
    /// Overloads of one name are partly abstract and partly not.
    AbstractAndConcreteIsMixed,
    /// Overloads of an abstract method are interrupted by another member.
    AbstractClassMethodShouldBeSequential,
    /// A constructor signature is not followed by its implementation.
    ConstructorImplMissingOrNotFollowedByDecl,
    /// A method signature is not followed by its implementation.
    FnImplMissingOrNotFollowedByDecl,
    /// A constructor parameter declares a property although the
    /// constructor has no body.
    ParamPropIsNotAllowedInAmbientConstructor,
    /// The class name is the name of a built-in type.
    InvalidClassName,
    /// The class is named `Object` although the target has no classes and a
    /// module system wraps the file.
    ClassNameCannotBeObjectWhenTargetingEs5WithModule,
    /// The super class is a literal or a primitive type.
    InvalidSuperClass,
    /// The super class names the class itself.
    SelfReferentialSuperClass,
    /// The super class is a function type.
    NotConstructorType,
    /// The super class has a private constructor.
    InvalidExtendDueToConstructorPrivate,
    /// The super class expression names something that is only a type.
    CannotExtendTypeOnlyItem,
    /// A name that is only a type was used as a value.
    TypeUsedAsVar,
    /// A type name could not be resolved.
    TypeNotFound,
    /// An interface extends something that could not be resolved.
    NotExtendableType,
    /// A static property is named `prototype`.
    StaticPropertyCannotBeNamedPrototype,
    /// A private member is named `constructor`.
    ConstructorIsKeyword,
    /// A member has neither a type annotation nor a value to infer from.
    ImplicitAny,
    /// A constructor of a derived class does not call `super`.
    SuperNotCalled,
    /// `super` is called inside a nested function.
    SuperInNestedFunction,
    /// A required parameter follows an optional one.
    TS1016,
    /// An accessor declares type parameters.
    TS1094,
    /// A setter declares a return type.
    TS1095,
    /// A computed name is neither a literal nor a symbol.
    TS1166,
    /// An abstract method has a body.
    TS1318,
    /// A getter returns no value.
    TS2378,
    /// `Symbol` is used as a value where the target has none.
    TS2585,
    /// A parameter property has an initializer in an ambient context.
    InitializerDisallowedInAmbientContext,
    /// A member marked `override` has nothing to override.
    NotDeclaredInSuperClass,
    /// A member is an accessor in the super class and a property here, or
    /// the other way round.
    DefinedWithAccessorInSuper,
    /// A property that is private in the super class is not private here.
    PrivatePropertyIsDifferent,
    /// A property does not fit the numeric index signature of its class.
    ClassMemberNotCompatibleWithNumericIndexSignature,
    /// A property does not fit the string index signature of its class.
    ClassMemberNotCompatibleWithStringIndexSignature,
    /// A constructor signature does not fit the implementation.
    WrongOverloadSignature,
    /// A class lacks members of an interface that it implements.
    ClassIncorrectlyImplementsInterface,
}

/// A diagnostic: what is wrong, and where.
#[derive(Clone, Copy, Debug, PartialEq, Eq, Structural, Hash)]
pub struct Diagnostic {
    pub code: ErrorCode,
    pub span: Span,
}

/// The number under which a failed assignment is known.
pub const ASSIGN_FAILED: u32 = 2322;

/// The number under which missing members are known.
pub const MISSING_FIELDS: u32 = 2741;

/// An error of the type checker, as far as the class rules look into it.
#[derive(Debug, PartialEq, Eq)]
pub enum ErrorKind {
    /// One of the diagnostics of the class rules.
    Plain(Diagnostic),
    /// A class lacks a member that its abstract super class declares.
    ClassDoesNotImplementMember { span: Span, key: Key },
    /// A value lacks members that its target type requires.
    MissingFields { span: Span },
    /// A value is not assignable to its target type. `left` is the position
    /// of the target, `right_ident` that of the name being assigned, if
    /// there is one.
    AssignFailed { span: Span, left: Span, right_ident: Option<Span> },
    /// A member of a class does not fit the interface that the class
    /// implements.
    InvalidImplOfInterface { span: Span, cause: Box<ErrorKind> },
    /// Several errors found at one place.
    Errors { span: Span, errors: Vec<ErrorKind> },
    /// Any other error, by its number.
    Other { code: u32, span: Span },
}

impl ErrorKind {
    /// Where the error is reported.
    pub open spec fn span_spec(self) -> Span {
        match self {
            ErrorKind::Plain(d) => d.span,
            ErrorKind::ClassDoesNotImplementMember { span, .. } => span,
            ErrorKind::MissingFields { span } => span,
            ErrorKind::AssignFailed { span, .. } => span,
            ErrorKind::InvalidImplOfInterface { span, .. } => span,
            ErrorKind::Errors { span, .. } => span,
            ErrorKind::Other { span, .. } => span,
        }
    }

    /// Where the error is reported.
    pub fn span(&self) -> (span: Span)
        ensures
            span == self.span_spec(),
    {
        match self {
            ErrorKind::Plain(d) => d.span,
            ErrorKind::ClassDoesNotImplementMember { span, .. } => *span,
            ErrorKind::MissingFields { span } => *span,
            ErrorKind::AssignFailed { span, .. } => *span,
            ErrorKind::InvalidImplOfInterface { span, .. } => *span,
            ErrorKind::Errors { span, .. } => *span,
            ErrorKind::Other { span, .. } => *span,
        }
    }

    /// Whether the error says that a value is not assignable.
    pub open spec fn is_assign_failure(self) -> bool {
        self is AssignFailed || (self matches ErrorKind::Other { code, .. } && code
            == ASSIGN_FAILED)
    }

    /// Whether the error says that members are missing.
    pub open spec fn is_missing_fields(self) -> bool {
        self is MissingFields || (self matches ErrorKind::Other { code, .. } && code
            == MISSING_FIELDS)
    }
}

} // verus!
