//! The rules on single members of a class: what each kind of member is
//! reported for, and what it becomes in the resolved class.
//!
//! Expressions and type annotations are resolved by the type checker that
//! calls this library. Each function here takes what was resolved and
//! decides the rest.

use crate::class::generalize;
use crate::class::widen;
use crate::errors::Diagnostic;
use crate::errors::ErrorCode;
use crate::errors::ErrorKind;
use crate::seq_facts::positions;
use crate::syntax::Accessibility;
use crate::syntax::AutoAccessorNode;
use crate::syntax::ClassPropNode;
use crate::syntax::ConstructorNode;
use crate::syntax::MethodKind;
use crate::syntax::MethodNode;
use crate::syntax::NameKind;
use crate::syntax::ParamNode;
use crate::syntax::ParamOrParamProp;
use crate::syntax::ParamPropNode;
use crate::syntax::PatKind;
use crate::syntax::PrivateMethodNode;
use crate::syntax::PrivatePropNode;
use crate::syntax::Span;
use crate::types::Accessor;
use crate::types::ClassMember;
use crate::types::ClassProperty;
use crate::types::ConstructorSignature;
use crate::types::FnParam;
use crate::types::Key;
use crate::types::KeyKind;
use crate::types::Method;
use crate::types::Type;
use crate::types::TypeKind;
use vstd::prelude::*;
use vstd::string::StringExecFns;

verus! {

/// The type `any` at `span`.
pub open spec fn any_at(span: Span) -> Type {
    Type { id: 0, kind: TypeKind::Any, span, keeps_literals: false, widened: false }
}

/// The keyword type of `kind` at `span`.
pub open spec fn keyword_at(kind: TypeKind, span: Span) -> Type {
    Type { id: 0, kind, span, keeps_literals: false, widened: false }
}

/// Makes the keyword type of `kind` at `span`.
fn keyword(kind: TypeKind, span: Span) -> (ty: Type)
    ensures
        ty == keyword_at(kind, span),
{
    Type { id: 0, kind, span, keeps_literals: false, widened: false }
}

// ---------------------------------------------------------------------
// Computed keys
// ---------------------------------------------------------------------
/// What the type checker found of the expression of a computed key.
#[derive(Debug, PartialEq, Eq)]
pub enum KeyTyping {
    /// The expression has a type.
    Typed {
        /// Whether the type is a literal type.
        is_literal: bool,
        /// Whether the type is `symbol` or a unique symbol.
        is_symbol_like: bool,
    },
    /// The expression could not be typed.
    Failed(ErrorKind),
}

/// Whether the error says that `Symbol` is used where the target has none.
pub open spec fn is_missing_symbol(err: ErrorKind) -> bool {
    err matches ErrorKind::Plain(d) && d.code == ErrorCode::TS2585
}

/// Whether `result` is what the check of a computed key comes to.
///
/// The key of a member of the built-in library is never reported. A key
/// that could not be typed because `Symbol` is missing is reported as
/// that alone. Otherwise the errors are collected under the position of
/// the key: the error of typing, if there was one, and that the key is
/// neither a literal nor a symbol, unless the expression reads a property
/// of `Symbol`. Without errors the key is accepted.
pub open spec fn is_computed_key_verdict(
    span: Span,
    is_builtin: bool,
    is_symbol_access: bool,
    typing: KeyTyping,
    result: Result<(), ErrorKind>,
) -> bool {
    if is_builtin {
        result is Ok
    } else {
        match typing {
            KeyTyping::Typed { is_literal, is_symbol_like } => if is_literal || is_symbol_access
                || is_symbol_like {
                result is Ok
            } else {
                &&& result matches Err(ErrorKind::Errors { span: at, errors })
                &&& at == span
                &&& errors@ == seq![
                    ErrorKind::Plain(Diagnostic { code: ErrorCode::TS1166, span }),
                ]
            },
            KeyTyping::Failed(err) => if is_missing_symbol(err) {
                result == Err::<(), ErrorKind>(err)
            } else {
                &&& result matches Err(ErrorKind::Errors { span: at, errors })
                &&& at == span
                &&& errors@ == if is_symbol_access {
                    seq![err]
                } else {
                    seq![err, ErrorKind::Plain(Diagnostic { code: ErrorCode::TS1166, span })]
                }
            },
        }
    }
}

/// Decides whether a computed key is allowed: it has to be a literal or a
/// symbol.
pub fn validate_computed_prop_key(
    span: Span,
    is_builtin: bool,
    is_symbol_access: bool,
    typing: KeyTyping,
) -> (result: Result<(), ErrorKind>)
    ensures
        is_computed_key_verdict(span, is_builtin, is_symbol_access, typing, result),
{
    if is_builtin {
        return Ok(());
    }
    let mut errors: Vec<ErrorKind> = Vec::new();
    match typing {
        KeyTyping::Typed { is_literal, is_symbol_like } => {
            if is_literal || is_symbol_access || is_symbol_like {
                Ok(())
            } else {
                errors.push(ErrorKind::Plain(Diagnostic { code: ErrorCode::TS1166, span }));
                assert(errors@ =~= seq![
                    ErrorKind::Plain(Diagnostic { code: ErrorCode::TS1166, span }),
                ]);
                Err(ErrorKind::Errors { span, errors })
            }
        },
        KeyTyping::Failed(err) => {
            let missing_symbol = match &err {
                ErrorKind::Plain(d) => d.code == ErrorCode::TS2585,
                _ => false,
            };
            if missing_symbol {
                return Err(err);
            }
            errors.push(err);
            if !is_symbol_access {
                errors.push(ErrorKind::Plain(Diagnostic { code: ErrorCode::TS1166, span }));
            }
            assert(errors@ =~= if is_symbol_access {
                seq![err]
            } else {
                seq![err, ErrorKind::Plain(Diagnostic { code: ErrorCode::TS1166, span })]
            });
            Err(ErrorKind::Errors { span, errors })
        },
    }
}

// ---------------------------------------------------------------------
// Properties
// ---------------------------------------------------------------------
/// The type with its literal types kept as they are.
pub open spec fn keep_literals(ty: Type) -> Type {
    Type { keeps_literals: true, ..ty }
}

/// A declared or inferred type as a property takes it: a `readonly`
/// property keeps its literal types.
pub open spec fn as_property_type(ty: Option<Type>, readonly: bool) -> Option<Type> {
    match ty {
        Some(t) => Some(
            if readonly {
                keep_literals(t)
            } else {
                t
            },
        ),
        None => None,
    }
}

/// The type of a property: the declared type, or else the type of its
/// value. A `readonly` property keeps its literal types, and a static
/// `readonly` property of type `symbol` is a unique symbol.
pub open spec fn class_property_type(
    readonly: bool,
    is_static: bool,
    declared: Option<Type>,
    inferred: Option<Type>,
) -> Option<Type> {
    let chosen = if declared is Some {
        as_property_type(declared, readonly)
    } else {
        as_property_type(inferred, readonly)
    };
    match chosen {
        Some(ty) => Some(
            if ty.kind == TypeKind::Symbol && readonly && is_static {
                Type { kind: TypeKind::Unique, ..ty }
            } else {
                ty
            },
        ),
        None => None,
    }
}

/// What the rules say of the type of a property.
#[derive(Debug, PartialEq, Eq)]
pub struct PropertyType {
    /// The type of the property, if it has one.
    pub value: Option<Type>,
    /// The types that are to be resolved so that a type that does not
    /// exist is reported: the declared type and the type of the value,
    /// but nothing in the built-in library.
    pub to_resolve: Vec<Type>,
}

/// The types that are resolved for their errors.
pub open spec fn types_to_resolve(
    is_builtin: bool,
    declared: Option<Type>,
    inferred: Option<Type>,
) -> Seq<Type> {
    if is_builtin {
        Seq::empty()
    } else {
        (match declared {
            Some(ty) => seq![ty],
            None => Seq::empty(),
        }) + (match inferred {
            Some(ty) => seq![ty],
            None => Seq::empty(),
        })
    }
}

/// Decides the type of a property from its declared type and the type of
/// its value.
pub fn validate_type_of_class_property(
    readonly: bool,
    is_static: bool,
    is_builtin: bool,
    declared: Option<Type>,
    inferred: Option<Type>,
) -> (found: PropertyType)
    ensures
        found.value == class_property_type(readonly, is_static, declared, inferred),
        found.to_resolve@ == types_to_resolve(is_builtin, declared, inferred),
{
    let mut to_resolve: Vec<Type> = Vec::new();
    if !is_builtin {
        match declared {
            Some(ty) => {
                to_resolve.push(ty);
            },
            None => {},
        }
        match inferred {
            Some(ty) => {
                to_resolve.push(ty);
            },
            None => {},
        }
    }
    assert(to_resolve@ =~= types_to_resolve(is_builtin, declared, inferred));
    let chosen = match declared {
        Some(ty) => Some(ty),
        None => inferred,
    };
    let value = match chosen {
        Some(ty) => {
            let kept = Type {
                id: ty.id,
                kind: ty.kind,
                span: ty.span,
                keeps_literals: readonly || ty.keeps_literals,
                widened: ty.widened,
            };
            if kept.kind == TypeKind::Symbol && readonly && is_static {
                Some(
                    Type {
                        id: kept.id,
                        kind: TypeKind::Unique,
                        span: kept.span,
                        keeps_literals: kept.keeps_literals,
                        widened: kept.widened,
                    },
                )
            } else {
                Some(kept)
            }
        },
        None => None,
    };
    PropertyType { value, to_resolve }
}

/// The type that a declaration file shows for a property without a type
/// annotation that is not private: the type of the property with its
/// literal types widened. For any other property nothing is noted.
pub open spec fn emitted_annotation(
    accessibility: Option<Accessibility>,
    has_type_ann: bool,
    value: Option<Type>,
) -> Option<Option<Type>> {
    if accessibility == Some(Accessibility::Private) || has_type_ann {
        None
    } else {
        Some(
            match value {
                Some(ty) => Some(widen(ty)),
                None => None,
            },
        )
    }
}

/// Decides which type a declaration file shows for a property.
fn annotation_to_emit(
    accessibility: Option<Accessibility>,
    has_type_ann: bool,
    value: Option<Type>,
) -> (noted: Option<Option<Type>>)
    ensures
        noted == emitted_annotation(accessibility, has_type_ann, value),
{
    let private = match accessibility {
        Some(Accessibility::Private) => true,
        _ => false,
    };
    if private || has_type_ann {
        None
    } else {
        Some(
            match value {
                Some(ty) => Some(generalize(ty)),
                None => None,
            },
        )
    }
}

/// What a property of a class comes to.
#[derive(Debug, PartialEq, Eq)]
pub struct PropertyOutcome {
    /// What is reported.
    pub errors: Vec<Diagnostic>,
    /// The property of the resolved class.
    pub property: ClassProperty,
    /// The type that a declaration file shows for the property, where one
    /// is noted.
    pub annotation: Option<Option<Type>>,
}

/// What a property with a public name is reported for: a static property
/// cannot be named `prototype`.
pub open spec fn class_prop_errors(p: ClassPropNode) -> Seq<Diagnostic> {
    if p.is_static && p.key.is_word("prototype"@) {
        seq![
            Diagnostic { code: ErrorCode::StaticPropertyCannotBeNamedPrototype, span: p.key.span },
        ]
    } else {
        Seq::empty()
    }
}

/// Resolves a property with a public name, given its key and its type.
pub fn validate_class_prop(p: &ClassPropNode, key: Key, value: Option<Type>) -> (found:
    PropertyOutcome)
    ensures
        found.errors@ == class_prop_errors(*p),
        found.property == (ClassProperty {
            span: p.span,
            key,
            value,
            is_static: p.is_static,
            accessibility: p.accessibility,
            is_abstract: p.is_abstract,
            is_optional: p.is_optional,
            readonly: p.readonly,
            definite: p.definite,
            accessor: Accessor { getter: false, setter: false },
        }),
        found.annotation == emitted_annotation(p.accessibility, p.has_type_ann, value),
{
    let mut errors: Vec<Diagnostic> = Vec::new();
    if p.is_static && p.key.kind == NameKind::Ident {
        let word = String::from_str("prototype");
        if p.key.text == word {
            errors.push(
                Diagnostic {
                    code: ErrorCode::StaticPropertyCannotBeNamedPrototype,
                    span: p.key.span,
                },
            );
        }
    }
    assert(errors@ =~= class_prop_errors(*p));
    PropertyOutcome {
        errors,
        property: ClassProperty {
            span: p.span,
            key,
            value,
            is_static: p.is_static,
            accessibility: p.accessibility,
            is_abstract: p.is_abstract,
            is_optional: p.is_optional,
            readonly: p.readonly,
            definite: p.definite,
            accessor: Accessor { getter: false, setter: false },
        },
        annotation: annotation_to_emit(p.accessibility, p.has_type_ann, value),
    }
}

/// Resolves an auto-accessor, given its key and its type: a property that
/// is neither abstract nor optional nor `readonly`.
pub fn validate_auto_accessor(p: &AutoAccessorNode, key: Key, value: Option<Type>) -> (found:
    PropertyOutcome)
    ensures
        found.errors@.len() == 0,
        found.property == (ClassProperty {
            span: p.span,
            key,
            value,
            is_static: p.is_static,
            accessibility: p.accessibility,
            is_abstract: false,
            is_optional: false,
            readonly: false,
            definite: false,
            accessor: Accessor { getter: false, setter: false },
        }),
        found.annotation == emitted_annotation(p.accessibility, p.has_type_ann, value),
{
    PropertyOutcome {
        errors: Vec::new(),
        property: ClassProperty {
            span: p.span,
            key,
            value,
            is_static: p.is_static,
            accessibility: p.accessibility,
            is_abstract: false,
            is_optional: false,
            readonly: false,
            definite: false,
            accessor: Accessor { getter: false, setter: false },
        },
        annotation: annotation_to_emit(p.accessibility, p.has_type_ann, value),
    }
}

/// The diagnostic for a private member named `constructor`.
pub open spec fn constructor_name_errors(name: Seq<char>, span: Span) -> Seq<Diagnostic> {
    if name == "constructor"@ {
        seq![Diagnostic { code: ErrorCode::ConstructorIsKeyword, span }]
    } else {
        Seq::empty()
    }
}

/// What a property with a private name is reported for: the name
/// `constructor`, and a missing type where implicit `any` is not allowed.
pub open spec fn private_prop_errors(
    p: PrivatePropNode,
    value: Option<Type>,
    in_declare: bool,
    no_implicit_any: bool,
) -> Seq<Diagnostic> {
    constructor_name_errors(p.key.text@, p.key.span) + if !in_declare && no_implicit_any && value is None {
        seq![Diagnostic { code: ErrorCode::ImplicitAny, span: p.key.span }]
    } else {
        Seq::empty()
    }
}

/// Whether `name` is the word `constructor`.
fn is_constructor_name(name: &String) -> (is: bool)
    ensures
        is == (name@ == "constructor"@),
{
    let word = String::from_str("constructor");
    *name == word
}

/// Resolves a property with a private name, given its type.
pub fn validate_private_prop(
    p: &PrivatePropNode,
    value: Option<Type>,
    in_declare: bool,
    no_implicit_any: bool,
) -> (found: PropertyOutcome)
    ensures
        found.errors@ == private_prop_errors(*p, value, in_declare, no_implicit_any),
        found.property == (ClassProperty {
            span: p.span,
            key: Key { kind: KeyKind::Private, text: p.key.text, span: p.key.span },
            value,
            is_static: p.is_static,
            accessibility: p.accessibility,
            is_abstract: false,
            is_optional: p.is_optional,
            readonly: p.readonly,
            definite: p.definite,
            accessor: Accessor { getter: false, setter: false },
        }),
        found.annotation is None,
{
    let mut errors: Vec<Diagnostic> = Vec::new();
    if is_constructor_name(&p.key.text) {
        errors.push(Diagnostic { code: ErrorCode::ConstructorIsKeyword, span: p.key.span });
    }
    if !in_declare && no_implicit_any && value.is_none() {
        errors.push(Diagnostic { code: ErrorCode::ImplicitAny, span: p.key.span });
    }
    assert(errors@ =~= private_prop_errors(*p, value, in_declare, no_implicit_any));
    PropertyOutcome {
        errors,
        property: ClassProperty {
            span: p.span,
            key: Key { kind: KeyKind::Private, text: p.key.text.clone(), span: p.key.span },
            value,
            is_static: p.is_static,
            accessibility: p.accessibility,
            is_abstract: false,
            is_optional: p.is_optional,
            readonly: p.readonly,
            definite: p.definite,
            accessor: Accessor { getter: false, setter: false },
        },
        annotation: None,
    }
}

// ---------------------------------------------------------------------
// Parameters
// ---------------------------------------------------------------------
/// Whether a parameter of this shape has to be given: a plain name unless
/// it is marked optional, and a pattern, but no rest parameter.
pub open spec fn is_required(pat: PatKind, optional: bool) -> bool {
    match pat {
        PatKind::Ident => !optional,
        PatKind::Rest => false,
        _ => true,
    }
}

/// Resolves a parameter of a method or an index signature, given its
/// type; one without a type is of type `any`.
pub fn validate_fn_param(p: &ParamNode, ty: Option<Type>) -> (param: FnParam)
    ensures
        param == (FnParam {
            span: p.span,
            pat: p.pat,
            required: is_required(p.pat, p.optional),
            ty: match ty {
                Some(t) => t,
                None => any_at(p.span),
            },
        }),
{
    let required = match p.pat {
        PatKind::Ident => !p.optional,
        PatKind::Rest => false,
        _ => true,
    };
    FnParam {
        span: p.span,
        pat: p.pat,
        required,
        ty: match ty {
            Some(t) => t,
            None => keyword(TypeKind::Any, p.span),
        },
    }
}

/// What a parameter property comes to as a parameter.
#[derive(Debug, PartialEq, Eq)]
pub struct ParamPropOutcome {
    /// What is reported.
    pub errors: Vec<Diagnostic>,
    /// The parameter of the constructor.
    pub param: FnParam,
}

/// Resolves a constructor parameter that declares a property, given its
/// declared type. A default value is reported in a declaration without
/// bodies. The parameter is a plain name, required unless marked optional,
/// of the declared type or else of type `any` at its name.
pub fn validate_param_prop(p: &ParamPropNode, ty: Option<Type>, in_declare: bool) -> (found:
    ParamPropOutcome)
    ensures
        found.errors@ == if in_declare && p.pat == PatKind::Assign {
            seq![
                Diagnostic { code: ErrorCode::InitializerDisallowedInAmbientContext, span: p.span },
            ]
        } else {
            Seq::<Diagnostic>::empty()
        },
        found.param == (FnParam {
            span: p.span,
            pat: PatKind::Ident,
            required: !p.optional,
            ty: match ty {
                Some(t) => t,
                None => any_at(p.name_span),
            },
        }),
{
    let mut errors: Vec<Diagnostic> = Vec::new();
    if in_declare && p.pat == PatKind::Assign {
        errors.push(
            Diagnostic { code: ErrorCode::InitializerDisallowedInAmbientContext, span: p.span },
        );
    }
    ParamPropOutcome {
        errors,
        param: FnParam {
            span: p.span,
            pat: PatKind::Ident,
            required: !p.optional,
            ty: match ty {
                Some(t) => t,
                None => keyword(TypeKind::Any, p.name_span),
            },
        },
    }
}

/// Whether a parameter may follow an optional one: it is optional itself,
/// or a rest parameter.
pub open spec fn may_follow_optional(p: ParamNode) -> bool {
    (p.pat == PatKind::Ident && p.optional) || p.pat == PatKind::Rest
}

/// Whether a parameter is a plain name marked optional.
pub open spec fn is_optional_name(p: ParamNode) -> bool {
    p.pat == PatKind::Ident && p.optional
}

/// Whether a plain name marked optional stands before position `k`.
pub open spec fn optional_before(params: Seq<ParamNode>, k: int) -> bool {
    exists|i: int| 0 <= i < k && i < params.len() && is_optional_name(#[trigger] params[i])
}

/// The diagnostic for parameter `k`: a required parameter cannot follow
/// an optional one.
pub open spec fn misplaced_param_error(params: Seq<ParamNode>, k: int) -> Option<Diagnostic> {
    if optional_before(params, k) && !may_follow_optional(params[k]) {
        Some(Diagnostic { code: ErrorCode::TS1016, span: params[k].span })
    } else {
        None
    }
}

/// The diagnostics for required parameters that follow optional ones.
pub open spec fn misplaced_param_errors(params: Seq<ParamNode>) -> Seq<Diagnostic> {
    positions(params.len()).filter_map(|k: int| misplaced_param_error(params, k))
}

/// Reports each required parameter that follows an optional one.
pub fn report_misplaced_params(params: &Vec<ParamNode>) -> (errors: Vec<Diagnostic>)
    ensures
        errors@ == misplaced_param_errors(params@),
{
    let ghost all = positions(params@.len());
    let ghost pick = |k: int| misplaced_param_error(params@, k);
    let mut errors: Vec<Diagnostic> = Vec::new();
    let mut has_optional = false;
    let mut k: usize = 0;
    while k < params.len()
        invariant
            k <= params.len(),
            all == positions(params@.len()),
            pick == |k: int| misplaced_param_error(params@, k),
            has_optional == optional_before(params@, k as int),
            errors@ == all.take(k as int).filter_map(pick),
        decreases params.len() - k,
    {
        proof {
            all.lemma_filter_map_take_succ(pick, k as int);
        }
        let p = params[k];
        let follows = (p.pat == PatKind::Ident && p.optional) || p.pat == PatKind::Rest;
        if has_optional && !follows {
            errors.push(Diagnostic { code: ErrorCode::TS1016, span: p.span });
        }
        proof {
            if optional_before(params@, k as int) {
                let w = choose|i: int|
                    0 <= i < k && i < params@.len() && is_optional_name(#[trigger] params@[i]);
                assert(is_optional_name(params@[w]) && w < k + 1);
            }
            if is_optional_name(params@[k as int]) {
                assert(optional_before(params@, k + 1));
            }
            if optional_before(params@, k + 1) && !is_optional_name(params@[k as int]) {
                let w = choose|i: int|
                    0 <= i < k + 1 && i < params@.len() && is_optional_name(
                        #[trigger] params@[i],
                    );
                assert(w < k);
            }
        }
        if p.pat == PatKind::Ident && p.optional {
            has_optional = true;
        }
        k += 1;
    }
    assert(all.take(k as int) =~= all);
    errors
}

// ---------------------------------------------------------------------
// Constructors
// ---------------------------------------------------------------------
/// What was found of the `super` calls in the body of a constructor.
#[derive(Debug, PartialEq, Eq)]
pub struct SuperCalls {
    /// Whether the body calls `super` where every path runs through.
    pub has_valid_super_call: bool,
    /// The positions of the calls of `super` inside nested functions.
    pub nested_super_calls: Vec<Span>,
}

/// Where a constructor stands.
#[derive(Clone, Copy, Debug, PartialEq, Eq, Structural)]
pub struct ConstructorContext {
    pub is_builtin: bool,
    pub ignore_errors: bool,
    /// Whether the class of the constructor has a super class.
    pub in_class_with_super: bool,
}

/// Whether the constructor owes a call of `super`: it has a body, in a
/// class whose super class is neither `null` nor `undefined`, outside the
/// built-in library, and errors are not ignored.
pub open spec fn owes_super_call(
    c: ConstructorNode,
    ctx: ConstructorContext,
    super_kind: Option<TypeKind>,
) -> bool {
    !ctx.is_builtin && !ctx.ignore_errors && ctx.in_class_with_super && c.has_body && !(
    super_kind == Some(TypeKind::Null) || super_kind == Some(TypeKind::Undefined))
}

/// One diagnostic for each call of `super` inside a nested function.
pub open spec fn nested_super_errors(spans: Seq<Span>) -> Seq<Diagnostic> {
    Seq::new(
        spans.len(),
        |k: int| Diagnostic { code: ErrorCode::SuperInNestedFunction, span: spans[k] },
    )
}

/// What a constructor is reported for on account of `super`.
pub open spec fn super_call_errors(
    c: ConstructorNode,
    ctx: ConstructorContext,
    super_kind: Option<TypeKind>,
    calls: SuperCalls,
) -> Seq<Diagnostic> {
    if owes_super_call(c, ctx, super_kind) {
        (if calls.has_valid_super_call {
            Seq::empty()
        } else {
            seq![Diagnostic { code: ErrorCode::SuperNotCalled, span: c.span }]
        }) + nested_super_errors(calls.nested_super_calls@)
    } else {
        Seq::empty()
    }
}

/// Whether the entry is an ordinary parameter that is a plain name marked
/// optional.
pub open spec fn is_optional_entry(entry: ParamOrParamProp) -> bool {
    entry matches ParamOrParamProp::Param(p) && is_optional_name(p)
}

/// Whether an optional entry stands before position `k`.
pub open spec fn optional_entry_before(params: Seq<ParamOrParamProp>, k: int) -> bool {
    exists|i: int| 0 <= i < k && i < params.len() && is_optional_entry(#[trigger] params[i])
}

/// The diagnostic for entry `k` of a constructor's parameters: an ordinary
/// parameter that is required cannot follow an optional one.
pub open spec fn misplaced_entry_error(params: Seq<ParamOrParamProp>, k: int) -> Option<
    Diagnostic,
> {
    match params[k] {
        ParamOrParamProp::Param(p) => if optional_entry_before(params, k) && !may_follow_optional(
            p,
        ) {
            Some(Diagnostic { code: ErrorCode::TS1016, span: p.span })
        } else {
            None
        },
        _ => None,
    }
}

/// The diagnostics for the required parameters of a constructor that
/// follow optional ones.
pub open spec fn misplaced_entry_errors(params: Seq<ParamOrParamProp>) -> Seq<Diagnostic> {
    positions(params.len()).filter_map(|k: int| misplaced_entry_error(params, k))
}

/// Appends the diagnostics for the required parameters of a constructor
/// that follow optional ones.
fn push_misplaced_entries(errors: &mut Vec<Diagnostic>, params: &Vec<ParamOrParamProp>)
    ensures
        final(errors)@ == old(errors)@ + misplaced_entry_errors(params@),
{
    let ghost all = positions(params@.len());
    let ghost pick = |k: int| misplaced_entry_error(params@, k);
    let mut has_optional = false;
    let mut k: usize = 0;
    while k < params.len()
        invariant
            k <= params.len(),
            all == positions(params@.len()),
            pick == |k: int| misplaced_entry_error(params@, k),
            has_optional == optional_entry_before(params@, k as int),
            errors@ == old(errors)@ + all.take(k as int).filter_map(pick),
        decreases params.len() - k,
    {
        proof {
            all.lemma_filter_map_take_succ(pick, k as int);
        }
        let ghost was = has_optional;
        match &params[k] {
            ParamOrParamProp::Param(p) => {
                let follows = (p.pat == PatKind::Ident && p.optional) || p.pat == PatKind::Rest;
                if has_optional && !follows {
                    errors.push(Diagnostic { code: ErrorCode::TS1016, span: p.span });
                }
                if p.pat == PatKind::Ident && p.optional {
                    has_optional = true;
                }
            },
            _ => {},
        }
        proof {
            if optional_entry_before(params@, k as int) {
                let w = choose|i: int|
                    0 <= i < k && i < params@.len() && is_optional_entry(#[trigger] params@[i]);
                assert(is_optional_entry(params@[w]) && w < k + 1);
            }
            if is_optional_entry(params@[k as int]) {
                assert(optional_entry_before(params@, k + 1));
            }
            if optional_entry_before(params@, k + 1) && !is_optional_entry(params@[k as int]) {
                let w = choose|i: int|
                    0 <= i < k + 1 && i < params@.len() && is_optional_entry(
                        #[trigger] params@[i],
                    );
                assert(w < k);
            }
        }
        k += 1;
    }
    assert(all.take(k as int) =~= all);
}

/// What a constructor comes to.
#[derive(Debug, PartialEq, Eq)]
pub struct ConstructorOutcome {
    /// What is reported.
    pub errors: Vec<Diagnostic>,
    /// Whether `this` may only be used after the call of `super`: the
    /// constructor owes the call and makes it.
    pub need_super_call: bool,
    /// The constructor of the resolved class.
    pub signature: ConstructorSignature,
}

/// Resolves a constructor, given its resolved parameters.
///
/// `super_kind` is the kind of the resolved super class, if the class has
/// one. A constructor that owes a call of `super` is reported if it makes
/// none, and for each call inside a nested function. Required parameters
/// that follow optional ones are reported after that.
pub fn validate_constructor(
    c: &ConstructorNode,
    ctx: ConstructorContext,
    super_kind: Option<TypeKind>,
    calls: &SuperCalls,
    params: Vec<FnParam>,
) -> (found: ConstructorOutcome)
    ensures
        found.errors@ == super_call_errors(*c, ctx, super_kind, *calls) + misplaced_entry_errors(
            c.params@,
        ),
        found.need_super_call == (owes_super_call(*c, ctx, super_kind)
            && calls.has_valid_super_call),
        found.signature == (ConstructorSignature {
            span: c.span,
            accessibility: c.accessibility,
            params,
            ret_ty: None,
            has_type_params: false,
        }),
{
    let mut errors: Vec<Diagnostic> = Vec::new();
    let mut need_super_call = false;
    let exempt = match super_kind {
        Some(TypeKind::Null) | Some(TypeKind::Undefined) => true,
        _ => false,
    };
    if !ctx.is_builtin && !ctx.ignore_errors && ctx.in_class_with_super && c.has_body && !exempt {
        if !calls.has_valid_super_call {
            errors.push(Diagnostic { code: ErrorCode::SuperNotCalled, span: c.span });
        } else {
            need_super_call = true;
        }
        let ghost first = errors@;
        let nested = &calls.nested_super_calls;
        let mut k: usize = 0;
        while k < nested.len()
            invariant
                k <= nested.len(),
                errors@ == first + nested_super_errors(nested@.take(k as int)),
            decreases nested.len() - k,
        {
            errors.push(Diagnostic { code: ErrorCode::SuperInNestedFunction, span: nested[k] });
            assert(nested_super_errors(nested@.take(k + 1)) =~= nested_super_errors(
                nested@.take(k as int),
            ).push(Diagnostic { code: ErrorCode::SuperInNestedFunction, span: nested@[k as int] }));
            k += 1;
        }
        assert(nested@.take(k as int) =~= nested@);
    }
    assert(errors@ =~= super_call_errors(*c, ctx, super_kind, *calls));
    push_misplaced_entries(&mut errors, &c.params);
    ConstructorOutcome {
        errors,
        need_super_call,
        signature: ConstructorSignature {
            span: c.span,
            accessibility: c.accessibility,
            params,
            ret_ty: None,
            has_type_params: false,
        },
    }
}

// ---------------------------------------------------------------------
// Methods and accessors
// ---------------------------------------------------------------------
/// What the type checker found of a method or accessor.
#[derive(Debug, PartialEq, Eq)]
pub struct MethodTyping {
    /// The resolved parameters.
    pub params: Vec<FnParam>,
    /// The declared return type, if there is one.
    pub declared_ret: Option<Type>,
    /// The type inferred from the `return` statements of the body, if the
    /// body returns a value.
    pub inferred_ret: Option<Type>,
}

/// What a method or accessor comes to.
#[derive(Debug, PartialEq, Eq)]
pub struct MethodOutcome {
    /// What is reported.
    pub errors: Vec<Diagnostic>,
    /// The member of the resolved class: a method, or a property for a
    /// getter or a setter.
    pub member: ClassMember,
    /// The return type that a declaration file shows, where one is noted.
    pub emitted_return: Option<Type>,
}

/// Whether the method is a getter or a setter.
pub open spec fn is_accessor_kind(kind: MethodKind) -> bool {
    kind == MethodKind::Getter || kind == MethodKind::Setter
}

/// The return type of a method with a public name: the declared type, or
/// else the widened type inferred from the body, or else `void` for a
/// method with a body and `any` for one without.
pub open spec fn method_return_type(c: MethodNode, typing: MethodTyping) -> Type {
    match typing.declared_ret {
        Some(ty) => ty,
        None => match typing.inferred_ret {
            Some(ty) => widen(ty),
            None => keyword_at(
                if c.has_body {
                    TypeKind::Void
                } else {
                    TypeKind::Any
                },
                c.span,
            ),
        },
    }
}

/// What a method with a public name is reported for, apart from its
/// parameters: an abstract method with a body, an accessor with type
/// parameters, a setter with a return type.
pub open spec fn method_header_errors(c: MethodNode) -> Seq<Diagnostic> {
    (if c.is_abstract && c.has_body {
        seq![Diagnostic { code: ErrorCode::TS1318, span: c.key.span }]
    } else {
        Seq::empty()
    }) + misplaced_param_errors(c.params@) + (if is_accessor_kind(c.kind) && c.has_type_params {
        seq![Diagnostic { code: ErrorCode::TS1094, span: c.key.span }]
    } else {
        Seq::empty()
    }) + (if c.kind == MethodKind::Setter && c.has_return_type {
        seq![Diagnostic { code: ErrorCode::TS1095, span: c.key.span }]
    } else {
        Seq::empty()
    })
}

/// What a method with a public name is reported for: what its header is
/// reported for, and a getter with a body that returns no value.
pub open spec fn method_errors(c: MethodNode, typing: MethodTyping) -> Seq<Diagnostic> {
    method_header_errors(c) + (if c.kind == MethodKind::Getter && c.has_body
        && typing.inferred_ret is None {
        seq![Diagnostic { code: ErrorCode::TS2378, span: c.key.span }]
    } else {
        Seq::empty()
    })
}

/// The property that an accessor becomes.
pub open spec fn accessor_property(
    span: Span,
    key: Key,
    value: Option<Type>,
    is_static: bool,
    accessibility: Option<Accessibility>,
    is_abstract: bool,
    is_optional: bool,
    getter: bool,
) -> ClassProperty {
    ClassProperty {
        span,
        key,
        value,
        is_static,
        accessibility,
        is_abstract,
        is_optional,
        readonly: false,
        definite: false,
        accessor: Accessor { getter, setter: !getter },
    }
}

/// The member that a method with a public name becomes: a method; for a
/// getter a property of the return type; for a setter a property of the
/// type of its one parameter, or of type `any` at the name if it has not
/// exactly one.
pub open spec fn method_member(c: MethodNode, key: Key, typing: MethodTyping) -> ClassMember {
    let ret_ty = method_return_type(c, typing);
    match c.kind {
        MethodKind::Method => ClassMember::Method(
            Method {
                span: c.span,
                key,
                accessibility: c.accessibility,
                is_static: c.is_static,
                is_abstract: c.is_abstract,
                is_optional: c.is_optional,
                has_type_params: c.has_type_params,
                params: typing.params,
                ret_ty,
            },
        ),
        MethodKind::Getter => ClassMember::Property(
            accessor_property(
                c.span,
                key,
                Some(ret_ty),
                c.is_static,
                c.accessibility,
                c.is_abstract,
                c.is_optional,
                true,
            ),
        ),
        MethodKind::Setter => ClassMember::Property(
            accessor_property(
                c.span,
                key,
                Some(
                    if typing.params@.len() == 1 {
                        typing.params@[0].ty
                    } else {
                        any_at(c.key.span)
                    },
                ),
                c.is_static,
                c.accessibility,
                c.is_abstract,
                c.is_optional,
                false,
            ),
        ),
    }
}

/// Resolves a method, a getter or a setter with a public name, given its
/// key and what the type checker found of it.
///
/// `declared_in_super` says whether the super class declares the key, if
/// the class has a super class. A member marked `override` whose super
/// class does not declare it is not resolved at all.
pub fn validate_class_method(
    c: &MethodNode,
    key: Key,
    typing: MethodTyping,
    declared_in_super: Option<bool>,
) -> (result: Result<MethodOutcome, Diagnostic>)
    ensures
        match result {
            Err(e) => c.is_override && declared_in_super == Some(false) && e == (Diagnostic {
                code: ErrorCode::NotDeclaredInSuperClass,
                span: c.key.span,
            }),
            Ok(found) => {
                &&& !(c.is_override && declared_in_super == Some(false))
                &&& found.errors@ == method_errors(*c, typing)
                &&& found.member == method_member(*c, key, typing)
                &&& found.emitted_return == if c.kind == MethodKind::Setter {
                    None
                } else {
                    Some(widen(method_return_type(*c, typing)))
                }
            },
        },
{
    let key_span = c.key.span;
    if c.is_override {
        match declared_in_super {
            Some(false) => {
                return Err(Diagnostic { code: ErrorCode::NotDeclaredInSuperClass, span: key_span });
            },
            _ => {},
        }
    }
    let is_accessor = match c.kind {
        MethodKind::Getter | MethodKind::Setter => true,
        MethodKind::Method => false,
    };
    let mut errors: Vec<Diagnostic> = Vec::new();
    if c.is_abstract && c.has_body {
        errors.push(Diagnostic { code: ErrorCode::TS1318, span: key_span });
    }
    let ghost first = errors@;
    let mut misplaced = report_misplaced_params(&c.params);
    errors.append(&mut misplaced);
    if is_accessor && c.has_type_params {
        errors.push(Diagnostic { code: ErrorCode::TS1094, span: key_span });
    }
    if c.kind == MethodKind::Setter && c.has_return_type {
        errors.push(Diagnostic { code: ErrorCode::TS1095, span: key_span });
    }
    assert(errors@ =~= method_header_errors(*c));
    if c.kind == MethodKind::Getter && c.has_body && typing.inferred_ret.is_none() {
        errors.push(Diagnostic { code: ErrorCode::TS2378, span: key_span });
    }
    assert(errors@ =~= method_errors(*c, typing));
    let ret_ty = match typing.declared_ret {
        Some(ty) => ty,
        None => match typing.inferred_ret {
            Some(ty) => generalize(ty),
            None => keyword(
                if c.has_body {
                    TypeKind::Void
                } else {
                    TypeKind::Any
                },
                c.span,
            ),
        },
    };
    let emitted_return = if c.kind == MethodKind::Setter {
        None
    } else {
        Some(generalize(ret_ty))
    };
    let MethodTyping { params, declared_ret: _, inferred_ret: _ } = typing;
    let member = match c.kind {
        MethodKind::Method => ClassMember::Method(
            Method {
                span: c.span,
                key,
                accessibility: c.accessibility,
                is_static: c.is_static,
                is_abstract: c.is_abstract,
                is_optional: c.is_optional,
                has_type_params: c.has_type_params,
                params,
                ret_ty,
            },
        ),
        MethodKind::Getter => ClassMember::Property(
            ClassProperty {
                span: c.span,
                key,
                value: Some(ret_ty),
                is_static: c.is_static,
                accessibility: c.accessibility,
                is_abstract: c.is_abstract,
                is_optional: c.is_optional,
                readonly: false,
                definite: false,
                accessor: Accessor { getter: true, setter: false },
            },
        ),
        MethodKind::Setter => {
            let value = if params.len() == 1 {
                params[0].ty
            } else {
                keyword(TypeKind::Any, key_span)
            };
            ClassMember::Property(
                ClassProperty {
                    span: c.span,
                    key,
                    value: Some(value),
                    is_static: c.is_static,
                    accessibility: c.accessibility,
                    is_abstract: c.is_abstract,
                    is_optional: c.is_optional,
                    readonly: false,
                    definite: false,
                    accessor: Accessor { getter: false, setter: true },
                },
            )
        },
    };
    Ok(MethodOutcome { errors, member, emitted_return })
}

/// The return type of a method with a private name: the declared type, or
/// else the type inferred from the body, or else `any` at the name.
pub open spec fn private_method_return_type(c: PrivateMethodNode, typing: MethodTyping) -> Type {
    match typing.declared_ret {
        Some(ty) => ty,
        None => match typing.inferred_ret {
            Some(ty) => ty,
            None => any_at(c.key.span),
        },
    }
}

/// What a method with a private name is reported for: the name
/// `constructor`, and an accessor with type parameters.
pub open spec fn private_method_errors(c: PrivateMethodNode) -> Seq<Diagnostic> {
    constructor_name_errors(c.key.text@, c.key.span) + (if is_accessor_kind(c.kind)
        && c.has_type_params {
        seq![Diagnostic { code: ErrorCode::TS1094, span: c.key.span }]
    } else {
        Seq::empty()
    })
}

/// The member that a method with a private name becomes: a method
/// without accessibility, or for a getter or a setter a property of the
/// return type.
pub open spec fn private_method_member(c: PrivateMethodNode, typing: MethodTyping) -> ClassMember {
    let key = Key { kind: KeyKind::Private, text: c.key.text, span: c.key.span };
    let ret_ty = private_method_return_type(c, typing);
    match c.kind {
        MethodKind::Method => ClassMember::Method(
            Method {
                span: c.span,
                key,
                accessibility: None,
                is_static: c.is_static,
                is_abstract: c.is_abstract,
                is_optional: c.is_optional,
                has_type_params: c.has_type_params,
                params: typing.params,
                ret_ty,
            },
        ),
        MethodKind::Getter => ClassMember::Property(
            accessor_property(
                c.span,
                key,
                Some(ret_ty),
                c.is_static,
                c.accessibility,
                c.is_abstract,
                c.is_optional,
                true,
            ),
        ),
        MethodKind::Setter => ClassMember::Property(
            accessor_property(
                c.span,
                key,
                Some(ret_ty),
                c.is_static,
                c.accessibility,
                c.is_abstract,
                c.is_optional,
                false,
            ),
        ),
    }
}

/// Resolves a method, a getter or a setter with a private name, given
/// what the type checker found of it.
pub fn validate_private_method(c: &PrivateMethodNode, typing: MethodTyping) -> (found:
    MethodOutcome)
    ensures
        found.errors@ == private_method_errors(*c),
        found.member == private_method_member(*c, typing),
        found.emitted_return is None,
{
    let mut errors: Vec<Diagnostic> = Vec::new();
    if is_constructor_name(&c.key.text) {
        errors.push(Diagnostic { code: ErrorCode::ConstructorIsKeyword, span: c.key.span });
    }
    let is_accessor = match c.kind {
        MethodKind::Getter | MethodKind::Setter => true,
        MethodKind::Method => false,
    };
    if is_accessor && c.has_type_params {
        errors.push(Diagnostic { code: ErrorCode::TS1094, span: c.key.span });
    }
    assert(errors@ =~= private_method_errors(*c));
    let ret_ty = match typing.declared_ret {
        Some(ty) => ty,
        None => match typing.inferred_ret {
            Some(ty) => ty,
            None => keyword(TypeKind::Any, c.key.span),
        },
    };
    let key = Key { kind: KeyKind::Private, text: c.key.text.clone(), span: c.key.span };
    let MethodTyping { params, declared_ret: _, inferred_ret: _ } = typing;
    let member = match c.kind {
        MethodKind::Method => ClassMember::Method(
            Method {
                span: c.span,
                key,
                accessibility: None,
                is_static: c.is_static,
                is_abstract: c.is_abstract,
                is_optional: c.is_optional,
                has_type_params: c.has_type_params,
                params,
                ret_ty,
            },
        ),
        MethodKind::Getter => ClassMember::Property(
            ClassProperty {
                span: c.span,
                key,
                value: Some(ret_ty),
                is_static: c.is_static,
                accessibility: c.accessibility,
                is_abstract: c.is_abstract,
                is_optional: c.is_optional,
                readonly: false,
                definite: false,
                accessor: Accessor { getter: true, setter: false },
            },
        ),
        MethodKind::Setter => ClassMember::Property(
            ClassProperty {
                span: c.span,
                key,
                value: Some(ret_ty),
                is_static: c.is_static,
                accessibility: c.accessibility,
                is_abstract: c.is_abstract,
                is_optional: c.is_optional,
                readonly: false,
                definite: false,
                accessor: Accessor { getter: false, setter: true },
            },
        ),
    };
    MethodOutcome { errors, member, emitted_return: None }
}

} // verus!
