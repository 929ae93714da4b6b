//! The rules on a class as a whole: its name, its super class, its
//! constructors, and the order in which its members are resolved.

use crate::errors::Diagnostic;
use crate::errors::ErrorCode;
use crate::errors::ErrorKind;
use crate::merge::combine_class_properties;
use crate::merge::combined;
use crate::merge::not_yet_combined;
use crate::merge::Placed;
use crate::shape::ambient_method_errors;
use crate::shape::duplicate_member_errors;
use crate::shape::overload_implementations;
use crate::shape::overloads_are_checked;
use crate::shape::report_errors_for_duplicate_class_members;
use crate::shape::report_errors_for_statics_mixed_with_instances;
use crate::shape::report_errors_for_wrong_ambient_methods_of_class;
use crate::seq_facts::lemma_concat_contains;
use crate::seq_facts::lemma_concat_no_duplicates;
use crate::seq_facts::lemma_flatten_contains;
use crate::seq_facts::lemma_flatten_no_duplicates;
use crate::seq_facts::lemma_picked_contains;
use crate::seq_facts::lemma_picked_no_duplicates;
use crate::seq_facts::positions;
use crate::shape::static_instance_errors;
use crate::syntax::ClassNode;
use crate::syntax::Accessibility;
use crate::syntax::ClassPropNode;
use crate::syntax::MemberNode;
use crate::syntax::NameKind;
use crate::syntax::ParamOrParamProp;
use crate::syntax::ParamPropNode;
use crate::syntax::PatKind;
use crate::syntax::PropName;
use crate::syntax::Span;
use crate::types::Accessor;
use crate::types::ClassDef;
use crate::types::ClassMember;
use crate::types::ClassProperty;
use crate::types::Key;
use crate::types::KeyKind;
use crate::types::Type;
use crate::types::TypeKind;
use vstd::prelude::*;
use vstd::string::StringExecFns;

verus! {

// ---------------------------------------------------------------------
// The name of the class
// ---------------------------------------------------------------------
/// The module system that wraps the compiled file.
#[derive(Clone, Copy, Debug, PartialEq, Eq, Structural, Hash)]
pub enum ModuleConfig {
    /// No module system at all.
    Script,
    CommonJs,
    Umd,
    Amd,
    System,
    Es6,
    NodeNext,
}

/// Whether `name` is the name of a built-in type.
pub open spec fn is_type_keyword(name: Seq<char>) -> bool {
    name == "any"@ || name == "void"@ || name == "never"@ || name == "string"@ || name
        == "number"@ || name == "boolean"@ || name == "null"@ || name == "undefined"@ || name
        == "symbol"@
}

/// Whether a class named `Object` collides with the helpers of the module
/// system: every module system but those of the language itself emits
/// them, and without a module system only code with bodies does.
pub open spec fn object_collides(module: ModuleConfig, in_declare: bool) -> bool {
    match module {
        ModuleConfig::Script => !in_declare,
        ModuleConfig::Umd | ModuleConfig::System | ModuleConfig::Amd | ModuleConfig::CommonJs => true,
        _ => false,
    }
}

/// The diagnostic for the name of a class, if the name is not allowed.
pub open spec fn class_name_error(
    name: Seq<char>,
    span: Span,
    targets_es5: bool,
    module: ModuleConfig,
    in_declare: bool,
) -> Option<Diagnostic> {
    if is_type_keyword(name) {
        Some(Diagnostic { code: ErrorCode::InvalidClassName, span })
    } else if name == "Object"@ && targets_es5 && object_collides(module, in_declare) {
        Some(
            Diagnostic {
                code: ErrorCode::ClassNameCannotBeObjectWhenTargetingEs5WithModule,
                span,
            },
        )
    } else {
        None
    }
}

/// Whether `name` is the word `word`.
fn is_word(name: &String, word: &str) -> (same: bool)
    ensures
        same == (name@ == word@),
{
    let other = String::from_str(word);
    *name == other
}

/// Holds the name of a class against the names that a class cannot have.
///
/// `span` is the position of the class and `targets_es5` says whether the
/// compiled code targets a language version without classes. The names of
/// the built-in types are never allowed; `Object` is not allowed where the
/// target has no classes and the module system emits helpers of that name.
pub fn check_class_name(
    name: &String,
    span: Span,
    targets_es5: bool,
    module: ModuleConfig,
    in_declare: bool,
) -> (error: Option<Diagnostic>)
    ensures
        error == class_name_error(name@, span, targets_es5, module, in_declare),
{
    if is_word(name, "any") || is_word(name, "void") || is_word(name, "never") || is_word(
        name,
        "string",
    ) || is_word(name, "number") || is_word(name, "boolean") || is_word(name, "null")
        || is_word(name, "undefined") || is_word(name, "symbol") {
        return Some(Diagnostic { code: ErrorCode::InvalidClassName, span });
    }
    if is_word(name, "Object") && targets_es5 {
        let collides = match module {
            ModuleConfig::Script => !in_declare,
            ModuleConfig::Umd | ModuleConfig::System | ModuleConfig::Amd | ModuleConfig::CommonJs => true,
            _ => false,
        };
        if collides {
            return Some(
                Diagnostic {
                    code: ErrorCode::ClassNameCannotBeObjectWhenTargetingEs5WithModule,
                    span,
                },
            );
        }
    }
    None
}

// ---------------------------------------------------------------------
// The super class and the interfaces
// ---------------------------------------------------------------------
/// Whether a type of this kind can never be a super class: a literal, or
/// one of `string`, `number` and `boolean`.
pub open spec fn is_primitive_super(kind: TypeKind) -> bool {
    kind == TypeKind::Lit || kind == TypeKind::String || kind == TypeKind::Number || kind
        == TypeKind::Boolean
}

/// Holds the resolved super class against the kinds of type that no class
/// can extend.
pub fn check_super_class_kind(super_ty: Type) -> (error: Option<Diagnostic>)
    ensures
        error == if is_primitive_super(super_ty.kind) {
            Some(Diagnostic { code: ErrorCode::InvalidSuperClass, span: super_ty.span })
        } else {
            None
        },
{
    match super_ty.kind {
        TypeKind::Lit | TypeKind::String | TypeKind::Number | TypeKind::Boolean => Some(
            Diagnostic { code: ErrorCode::InvalidSuperClass, span: super_ty.span },
        ),
        _ => None,
    }
}

/// What an error found in the super class expression is reported as: a
/// name that is only a type cannot be extended; any other error stays as
/// it is.
pub open spec fn super_class_error(err: ErrorKind) -> ErrorKind {
    match err {
        ErrorKind::Plain(d) => if d.code == ErrorCode::TypeUsedAsVar {
            ErrorKind::Plain(Diagnostic { code: ErrorCode::CannotExtendTypeOnlyItem, span: d.span })
        } else {
            err
        },
        _ => err,
    }
}

/// Turns an error found in the super class expression into the error that
/// is reported.
pub fn relabel_super_class_error(err: ErrorKind) -> (out: ErrorKind)
    ensures
        out == super_class_error(err),
{
    match err {
        ErrorKind::Plain(d) => {
            if d.code == ErrorCode::TypeUsedAsVar {
                ErrorKind::Plain(
                    Diagnostic { code: ErrorCode::CannotExtendTypeOnlyItem, span: d.span },
                )
            } else {
                ErrorKind::Plain(d)
            }
        },
        other => other,
    }
}

/// What an error found in a parent of a class or an interface is reported
/// as: a parent of an interface that cannot be found is not extendable;
/// any other error stays as it is.
pub open spec fn parent_error(err: ErrorKind, is_for_interface: bool) -> ErrorKind {
    match err {
        ErrorKind::Plain(d) => if d.code == ErrorCode::TypeNotFound && is_for_interface {
            ErrorKind::Plain(Diagnostic { code: ErrorCode::NotExtendableType, span: d.span })
        } else {
            err
        },
        _ => err,
    }
}

/// Turns the error found when a parent of a class or of an interface was
/// looked up into the error that is reported. Nothing is reported for the
/// built-in library.
pub fn resolve_parent_interfaces(err: ErrorKind, is_for_interface: bool, is_builtin: bool) -> (out:
    Option<ErrorKind>)
    ensures
        out == if is_builtin {
            None
        } else {
            Some(parent_error(err, is_for_interface))
        },
{
    if is_builtin {
        return None;
    }
    match err {
        ErrorKind::Plain(d) => {
            if d.code == ErrorCode::TypeNotFound && is_for_interface {
                Some(
                    ErrorKind::Plain(
                        Diagnostic { code: ErrorCode::NotExtendableType, span: d.span },
                    ),
                )
            } else {
                Some(ErrorKind::Plain(d))
            }
        },
        other => Some(other),
    }
}

/// The diagnostic for a private constructor of the super class.
pub open spec fn private_constructor_error(member: ClassMember, class_span: Span) -> Option<
    Diagnostic,
> {
    match member {
        ClassMember::Constructor(c) => if c.accessibility == Some(Accessibility::Private) {
            Some(
                Diagnostic { code: ErrorCode::InvalidExtendDueToConstructorPrivate, span: class_span },
            )
        } else {
            None
        },
        _ => None,
    }
}

/// Reports a super class whose constructor is private: once for each
/// private constructor that it declares, at the position of the super
/// class.
pub fn private_constructor_errors(super_class: &ClassDef) -> (errors: Vec<Diagnostic>)
    ensures
        errors@ == super_class.body@.filter_map(
            |m: ClassMember| private_constructor_error(m, super_class.span),
        ),
{
    let ghost pick = |m: ClassMember| private_constructor_error(m, super_class.span);
    let body = &super_class.body;
    let mut errors: Vec<Diagnostic> = Vec::new();
    let mut k: usize = 0;
    while k < body.len()
        invariant
            k <= body.len(),
            body == &super_class.body,
            pick == |m: ClassMember| private_constructor_error(m, super_class.span),
            errors@ == body@.take(k as int).filter_map(pick),
        decreases body.len() - k,
    {
        proof {
            body@.lemma_filter_map_take_succ(pick, k as int);
        }
        match &body[k] {
            ClassMember::Constructor(c) => {
                match c.accessibility {
                    Some(Accessibility::Private) => {
                        errors.push(
                            Diagnostic {
                                code: ErrorCode::InvalidExtendDueToConstructorPrivate,
                                span: super_class.span,
                            },
                        );
                    },
                    _ => {},
                }
            },
            _ => {},
        }
        k += 1;
    }
    assert(body@.take(k as int) =~= body@);
    errors
}

/// The stand-in for a super class that is an intersection of types.
#[derive(Debug, PartialEq, Eq)]
pub struct MixinBase {
    /// The name under which the intersection is declared beside the class.
    pub name: String,
    /// Whether it is declared as a constant, as opposed to a type alias:
    /// it is where one of the types is an instance of a class.
    pub is_value: bool,
}

/// Whether one of the types is an instance of a class.
pub open spec fn any_class(operands: Seq<Type>) -> bool {
    exists|k: int| 0 <= k < operands.len() && (#[trigger] operands[k]).kind == TypeKind::Class
}

/// Decides whether the super class gets a stand-in, and which.
///
/// A class whose super class is an intersection of types, written as
/// anything but a plain name, extends a stand-in that is declared beside
/// it: `<class name>_base`, or `__class_base` for a class without a name.
pub fn mixin_base(
    class_name: Option<&String>,
    super_ty: Type,
    operands: &Vec<Type>,
    super_is_plain_name: bool,
) -> (base: Option<MixinBase>)
    ensures
        base is Some == (super_ty.kind == TypeKind::Intersection && !super_is_plain_name),
        base is Some ==> base->0.is_value == any_class(operands@) && base->0.name@ == (
        match class_name {
            Some(name) => name@,
            None => "__class"@,
        }) + "_base"@,
{
    if super_ty.kind != TypeKind::Intersection || super_is_plain_name {
        return None;
    }
    let stem = match class_name {
        Some(name) => name.clone(),
        None => String::from_str("__class"),
    };
    let mut is_value = false;
    let mut k: usize = 0;
    while k < operands.len()
        invariant
            k <= operands.len(),
            is_value == any_class(operands@.take(k as int)),
        decreases operands.len() - k,
    {
        if operands[k].kind == TypeKind::Class {
            is_value = true;
        }
        proof {
            let before = operands@.take(k as int);
            let after = operands@.take(k + 1);
            if any_class(before) {
                let w = choose|w: int| 0 <= w < before.len() && (#[trigger] before[w]).kind == TypeKind::Class;
                assert(after[w].kind == TypeKind::Class);
            }
            if operands@[k as int].kind == TypeKind::Class {
                assert(after[k as int].kind == TypeKind::Class);
            }
            if any_class(after) {
                let w = choose|w: int| 0 <= w < after.len() && (#[trigger] after[w]).kind == TypeKind::Class;
                if w < k {
                    assert(before[w].kind == TypeKind::Class);
                }
            }
        }
        k += 1;
    }
    assert(operands@.take(k as int) =~= operands@);
    Some(MixinBase { name: stem.concat("_base"), is_value })
}

/// What a class declaration stands for after its check: the class, or
/// `any` at the position of the declaration if the check failed; a failed
/// check has its error reported.
pub fn visit_class_decl_inner(checked: Result<Type, ErrorKind>, span: Span) -> (outcome: (
    Type,
    Option<ErrorKind>,
))
    ensures
        outcome == match checked {
            Ok(ty) => (ty, None::<ErrorKind>),
            Err(err) => (
                Type { id: 0, kind: TypeKind::Any, span, keeps_literals: false, widened: false },
                Some(err),
            ),
        },
{
    match checked {
        Ok(ty) => (ty, None),
        Err(err) => (
            Type { id: 0, kind: TypeKind::Any, span, keeps_literals: false, widened: false },
            Some(err),
        ),
    }
}

// ---------------------------------------------------------------------
// Constructors
// ---------------------------------------------------------------------
/// The position of a constructor that has a body.
pub open spec fn constructor_with_body(member: MemberNode) -> Option<Span> {
    match member {
        MemberNode::Constructor(c) => if c.has_body {
            Some(c.span)
        } else {
            None
        },
        _ => None,
    }
}

/// One diagnostic at each position.
pub open spec fn duplicate_constructors_at(spans: Seq<Span>) -> Seq<Diagnostic> {
    Seq::new(
        spans.len(),
        |k: int| Diagnostic { code: ErrorCode::DuplicateConstructor, span: spans[k] },
    )
}

/// The diagnostics for constructors with a body: where there are two or
/// more, each is reported.
pub open spec fn duplicate_constructor_errors(body: Seq<MemberNode>) -> Seq<Diagnostic> {
    let spans = body.filter_map(|m: MemberNode| constructor_with_body(m));
    if spans.len() >= 2 {
        duplicate_constructors_at(spans)
    } else {
        Seq::empty()
    }
}

/// The diagnostic for a parameter of a constructor without a body that
/// declares a property.
pub open spec fn ambient_param_prop_error(param: ParamOrParamProp) -> Option<Diagnostic> {
    match param {
        ParamOrParamProp::ParamProp(p) => Some(
            Diagnostic { code: ErrorCode::ParamPropIsNotAllowedInAmbientConstructor, span: p.span },
        ),
        _ => None,
    }
}

/// The diagnostics for one member: those for the parameters of a
/// constructor without a body that declare properties.
pub open spec fn ambient_param_prop_errors(member: MemberNode) -> Seq<Diagnostic> {
    match member {
        MemberNode::Constructor(c) => if c.has_body {
            Seq::empty()
        } else {
            c.params@.filter_map(|p: ParamOrParamProp| ambient_param_prop_error(p))
        },
        _ => Seq::empty(),
    }
}

/// The diagnostics for the constructors of a class body: first those for
/// constructors with a body, then those for parameters that declare
/// properties, constructor by constructor.
pub open spec fn constructor_errors(body: Seq<MemberNode>) -> Seq<Diagnostic> {
    duplicate_constructor_errors(body) + Seq::new(
        body.len(),
        |k: int| ambient_param_prop_errors(body[k]),
    ).flatten()
}

/// Reports what is wrong with the constructors of a class body: more than
/// one constructor with a body, and parameters that declare properties in
/// a constructor without a body.
pub fn report_errors_for_constructors(body: &Vec<MemberNode>) -> (errors: Vec<Diagnostic>)
    ensures
        errors@ == constructor_errors(body@),
{
    let ghost with_body = |m: MemberNode| constructor_with_body(m);
    let mut spans: Vec<Span> = Vec::new();
    let mut k: usize = 0;
    while k < body.len()
        invariant
            k <= body.len(),
            with_body == |m: MemberNode| constructor_with_body(m),
            spans@ == body@.take(k as int).filter_map(with_body),
        decreases body.len() - k,
    {
        proof {
            body@.lemma_filter_map_take_succ(with_body, k as int);
        }
        match &body[k] {
            MemberNode::Constructor(c) => {
                if c.has_body {
                    spans.push(c.span);
                }
            },
            _ => {},
        }
        k += 1;
    }
    assert(body@.take(k as int) =~= body@);
    let mut errors: Vec<Diagnostic> = Vec::new();
    if spans.len() >= 2 {
        let mut s: usize = 0;
        while s < spans.len()
            invariant
                s <= spans.len(),
                errors@ == duplicate_constructors_at(spans@.take(s as int)),
            decreases spans.len() - s,
        {
            errors.push(Diagnostic { code: ErrorCode::DuplicateConstructor, span: spans[s] });
            assert(duplicate_constructors_at(spans@.take(s + 1)) =~= duplicate_constructors_at(
                spans@.take(s as int),
            ).push(Diagnostic { code: ErrorCode::DuplicateConstructor, span: spans@[s as int] }));
            s += 1;
        }
        assert(spans@.take(s as int) =~= spans@);
    }
    let ghost duplicates = errors@;
    let ghost rows = Seq::new(body@.len(), |k: int| ambient_param_prop_errors(body@[k]));
    let mut m: usize = 0;
    assert(rows.take(0).flatten() =~= Seq::<Diagnostic>::empty());
    while m < body.len()
        invariant
            m <= body.len(),
            rows == Seq::new(body@.len(), |k: int| ambient_param_prop_errors(body@[k])),
            errors@ == duplicates + rows.take(m as int).flatten(),
        decreases body.len() - m,
    {
        let ghost before = errors@;
        proof {
            assert(rows.take(m + 1) =~= rows.take(m as int).push(rows[m as int]));
            rows.take(m as int).lemma_flatten_push(rows[m as int]);
        }
        match &body[m] {
            MemberNode::Constructor(c) => {
                if !c.has_body {
                    let ghost pick = |p: ParamOrParamProp| ambient_param_prop_error(p);
                    let mut p: usize = 0;
                    while p < c.params.len()
                        invariant
                            p <= c.params.len(),
                            pick == |p: ParamOrParamProp| ambient_param_prop_error(p),
                            errors@ == before + c.params@.take(p as int).filter_map(pick),
                        decreases c.params.len() - p,
                    {
                        proof {
                            c.params@.lemma_filter_map_take_succ(pick, p as int);
                        }
                        match &c.params[p] {
                            ParamOrParamProp::ParamProp(prop) => {
                                errors.push(
                                    Diagnostic {
                                        code: ErrorCode::ParamPropIsNotAllowedInAmbientConstructor,
                                        span: prop.span,
                                    },
                                );
                            },
                            _ => {},
                        }
                        p += 1;
                    }
                    assert(c.params@.take(p as int) =~= c.params@);
                }
            },
            _ => {},
        }
        m += 1;
    }
    assert(rows.take(m as int) =~= rows);
    errors
}

/// Which constructors are signatures, and which is the implementation
/// that they are held against.
pub struct ConstructorOverloads {
    /// The positions in the body of the constructors without a body.
    pub signatures: Vec<usize>,
    /// The position of the constructor with a body; the last, if there
    /// are several.
    pub implementation: Option<usize>,
}

/// The position `k`, if a constructor without a body stands there.
pub open spec fn signature_at(body: Seq<MemberNode>, k: int) -> Option<usize> {
    match body[k] {
        MemberNode::Constructor(c) => if c.has_body {
            None
        } else {
            Some(k as usize)
        },
        _ => None,
    }
}

/// Whether a constructor with a body stands at `k` and none stands later.
pub open spec fn is_implementation(body: Seq<MemberNode>, k: int) -> bool {
    &&& 0 <= k < body.len()
    &&& constructor_with_body(body[k]) is Some
    &&& forall|i: int| k < i < body.len() ==> constructor_with_body(#[trigger] body[i]) is None
}

/// Tells the constructor signatures of a class body from the constructor
/// that implements them.
pub fn constructor_overloads(body: &Vec<MemberNode>) -> (found: ConstructorOverloads)
    ensures
        found.signatures@ == positions(body@.len()).filter_map(|k: int| signature_at(body@, k)),
        match found.implementation {
            Some(k) => is_implementation(body@, k as int),
            None => forall|i: int|
                0 <= i < body@.len() ==> constructor_with_body(#[trigger] body@[i]) is None,
        },
{
    let ghost all = positions(body@.len());
    let ghost pick = |k: int| signature_at(body@, k);
    let mut signatures: Vec<usize> = Vec::new();
    let mut implementation: Option<usize> = None;
    let mut k: usize = 0;
    while k < body.len()
        invariant
            k <= body.len(),
            all == positions(body@.len()),
            pick == |k: int| signature_at(body@, k),
            signatures@ == all.take(k as int).filter_map(pick),
            match implementation {
                Some(at) => at < k && constructor_with_body(body@[at as int]) is Some && forall|
                    i: int,
                |
                    at < i < k ==> constructor_with_body(#[trigger] body@[i]) is None,
                None => forall|i: int|
                    0 <= i < k ==> constructor_with_body(#[trigger] body@[i]) is None,
            },
        decreases body.len() - k,
    {
        proof {
            all.lemma_filter_map_take_succ(pick, k as int);
        }
        match &body[k] {
            MemberNode::Constructor(c) => {
                if c.has_body {
                    implementation = Some(k);
                } else {
                    signatures.push(k);
                }
            },
            _ => {},
        }
        k += 1;
    }
    assert(all.take(k as int) =~= all);
    ConstructorOverloads { signatures, implementation }
}

// ---------------------------------------------------------------------
// The order in which members are resolved
// ---------------------------------------------------------------------
/// A stage of resolving the members of a class.
#[derive(Clone, Copy, Debug, PartialEq, Eq, Structural, Hash)]
pub enum Phase {
    IndexSignatures,
    StaticProperties,
    InstanceProperties,
    Constructors,
}

/// Whether the member is a property or an auto-accessor, and static or
/// not as `is_static` says.
pub open spec fn is_property_node(member: MemberNode, is_static: bool) -> bool {
    match member {
        MemberNode::ClassProp(p) => p.is_static == is_static,
        MemberNode::PrivateProp(p) => p.is_static == is_static,
        MemberNode::AutoAccessor(a) => a.is_static == is_static,
        _ => false,
    }
}

/// Whether the member is resolved in `phase`.
pub open spec fn in_phase(member: MemberNode, phase: Phase) -> bool {
    match phase {
        Phase::IndexSignatures => member is TsIndexSignature,
        Phase::StaticProperties => is_property_node(member, true),
        Phase::InstanceProperties => is_property_node(member, false),
        Phase::Constructors => member is Constructor,
    }
}

/// Whether the member is resolved after all phases, in dependency order:
/// methods, static blocks and empty members.
pub open spec fn is_scheduled(member: MemberNode) -> bool {
    member is Method || member is PrivateMethod || member is StaticBlock || member is Empty
}

/// One thing to resolve.
#[derive(Clone, Copy, Debug, PartialEq, Eq, Structural, Hash)]
pub enum Step {
    /// The member at `index` of the body.
    Member { index: usize, phase: Phase },
    /// The property that parameter `param` of the constructor at `index`
    /// declares.
    ParamProp { index: usize, param: usize },
}

/// The step for position `k`, if the member there is resolved in `phase`.
pub open spec fn member_step(body: Seq<MemberNode>, phase: Phase, k: int) -> Option<Step> {
    if in_phase(body[k], phase) {
        Some(Step::Member { index: k as usize, phase })
    } else {
        None
    }
}

/// The steps of one phase, in declaration order.
pub open spec fn member_steps(body: Seq<MemberNode>, phase: Phase) -> Seq<Step> {
    positions(body.len()).filter_map(|k: int| member_step(body, phase, k))
}

/// The step for parameter `j` of the constructor at `index`, if it
/// declares a property.
pub open spec fn param_prop_step(params: Seq<ParamOrParamProp>, index: usize, j: int) -> Option<
    Step,
> {
    if params[j] is ParamProp {
        Some(Step::ParamProp { index, param: j as usize })
    } else {
        None
    }
}

/// The steps for the parameter properties of the member at `k`.
pub open spec fn param_prop_steps(body: Seq<MemberNode>, k: int) -> Seq<Step> {
    match body[k] {
        MemberNode::Constructor(c) => positions(c.params@.len()).filter_map(
            |j: int| param_prop_step(c.params@, k as usize, j),
        ),
        _ => Seq::empty(),
    }
}

/// The steps for the parameter properties of all constructors,
/// constructor by constructor.
pub open spec fn all_param_prop_steps(body: Seq<MemberNode>) -> Seq<Step> {
    Seq::new(body.len(), |k: int| param_prop_steps(body, k)).flatten()
}

/// The steps before the scheduled members, in the order in which they are
/// taken: index signatures, static properties, the properties that
/// constructor parameters declare, instance properties, constructors.
pub open spec fn plan_of(body: Seq<MemberNode>) -> Seq<Step> {
    member_steps(body, Phase::IndexSignatures) + member_steps(body, Phase::StaticProperties)
        + all_param_prop_steps(body) + member_steps(body, Phase::InstanceProperties)
        + member_steps(body, Phase::Constructors)
}

/// The position `k`, if the member there is scheduled.
pub open spec fn scheduled_at(body: Seq<MemberNode>, k: int) -> Option<usize> {
    if is_scheduled(body[k]) {
        Some(k as usize)
    } else {
        None
    }
}

/// The positions of the scheduled members, in declaration order.
pub open spec fn scheduled_of(body: Seq<MemberNode>) -> Seq<usize> {
    positions(body.len()).filter_map(|k: int| scheduled_at(body, k))
}

/// Tells whether a member is resolved in `phase`.
fn is_in_phase(member: &MemberNode, phase: Phase) -> (found: bool)
    ensures
        found == in_phase(*member, phase),
{
    match phase {
        Phase::IndexSignatures => match member {
            MemberNode::TsIndexSignature(_) => true,
            _ => false,
        },
        Phase::StaticProperties => match member {
            MemberNode::ClassProp(p) => p.is_static,
            MemberNode::PrivateProp(p) => p.is_static,
            MemberNode::AutoAccessor(a) => a.is_static,
            _ => false,
        },
        Phase::InstanceProperties => match member {
            MemberNode::ClassProp(p) => !p.is_static,
            MemberNode::PrivateProp(p) => !p.is_static,
            MemberNode::AutoAccessor(a) => !a.is_static,
            _ => false,
        },
        Phase::Constructors => match member {
            MemberNode::Constructor(_) => true,
            _ => false,
        },
    }
}

/// Appends the steps of `phase`.
fn push_member_steps(steps: &mut Vec<Step>, body: &Vec<MemberNode>, phase: Phase)
    ensures
        final(steps)@ == old(steps)@ + member_steps(body@, phase),
{
    let ghost all = positions(body@.len());
    let ghost pick = |k: int| member_step(body@, phase, k);
    let mut k: usize = 0;
    while k < body.len()
        invariant
            k <= body.len(),
            all == positions(body@.len()),
            pick == |k: int| member_step(body@, phase, k),
            steps@ == old(steps)@ + all.take(k as int).filter_map(pick),
        decreases body.len() - k,
    {
        proof {
            all.lemma_filter_map_take_succ(pick, k as int);
        }
        if is_in_phase(&body[k], phase) {
            steps.push(Step::Member { index: k, phase });
        }
        k += 1;
    }
    assert(all.take(k as int) =~= all);
}

/// Appends the steps for the parameter properties of all constructors.
fn push_param_prop_steps(steps: &mut Vec<Step>, body: &Vec<MemberNode>)
    ensures
        final(steps)@ == old(steps)@ + all_param_prop_steps(body@),
{
    let ghost rows = Seq::new(body@.len(), |k: int| param_prop_steps(body@, k));
    let mut k: usize = 0;
    assert(rows.take(0).flatten() =~= Seq::<Step>::empty());
    while k < body.len()
        invariant
            k <= body.len(),
            rows == Seq::new(body@.len(), |k: int| param_prop_steps(body@, k)),
            steps@ == old(steps)@ + rows.take(k as int).flatten(),
        decreases body.len() - k,
    {
        let ghost before = steps@;
        proof {
            assert(rows.take(k + 1) =~= rows.take(k as int).push(rows[k as int]));
            rows.take(k as int).lemma_flatten_push(rows[k as int]);
        }
        match &body[k] {
            MemberNode::Constructor(c) => {
                let ghost all = positions(c.params@.len());
                let ghost pick = |j: int| param_prop_step(c.params@, k, j);
                let mut j: usize = 0;
                while j < c.params.len()
                    invariant
                        j <= c.params.len(),
                        all == positions(c.params@.len()),
                        pick == |j: int| param_prop_step(c.params@, k, j),
                        steps@ == before + all.take(j as int).filter_map(pick),
                    decreases c.params.len() - j,
                {
                    proof {
                        all.lemma_filter_map_take_succ(pick, j as int);
                    }
                    match &c.params[j] {
                        ParamOrParamProp::ParamProp(_) => {
                            steps.push(Step::ParamProp { index: k, param: j });
                        },
                        _ => {},
                    }
                    j += 1;
                }
                assert(all.take(j as int) =~= all);
            },
            _ => {},
        }
        k += 1;
    }
    assert(rows.take(k as int) =~= rows);
}

/// Lays out the order in which the members of a class are resolved before
/// the scheduled ones.
///
/// Index signatures come first, then static properties, then the
/// properties that constructor parameters declare, then instance
/// properties, then constructors; within each stage the members keep their
/// declaration order.
pub fn plan(body: &Vec<MemberNode>) -> (steps: Vec<Step>)
    ensures
        steps@ == plan_of(body@),
{
    let mut steps: Vec<Step> = Vec::new();
    push_member_steps(&mut steps, body, Phase::IndexSignatures);
    push_member_steps(&mut steps, body, Phase::StaticProperties);
    push_param_prop_steps(&mut steps, body);
    push_member_steps(&mut steps, body, Phase::InstanceProperties);
    push_member_steps(&mut steps, body, Phase::Constructors);
    steps
}

/// Lists the members that are resolved last, in dependency order:
/// methods, static blocks and empty members, by their positions.
pub fn scheduled_members(body: &Vec<MemberNode>) -> (remaining: Vec<usize>)
    ensures
        remaining@ == scheduled_of(body@),
{
    let ghost all = positions(body@.len());
    let ghost pick = |k: int| scheduled_at(body@, k);
    let mut remaining: Vec<usize> = Vec::new();
    let mut k: usize = 0;
    while k < body.len()
        invariant
            k <= body.len(),
            all == positions(body@.len()),
            pick == |k: int| scheduled_at(body@, k),
            remaining@ == all.take(k as int).filter_map(pick),
        decreases body.len() - k,
    {
        proof {
            all.lemma_filter_map_take_succ(pick, k as int);
        }
        match &body[k] {
            MemberNode::Method(_) | MemberNode::PrivateMethod(_) | MemberNode::StaticBlock | MemberNode::Empty => {
                remaining.push(k);
            },
            _ => {},
        }
        k += 1;
    }
    assert(all.take(k as int) =~= all);
    remaining
}

/// Every member has exactly one place in the order of resolution.
///
/// A member of a class body is resolved in exactly one of the four phases,
/// or it is scheduled: never both, and never in two phases.
pub proof fn every_member_has_one_place(member: MemberNode)
    ensures
        is_scheduled(member) != (in_phase(member, Phase::IndexSignatures) || in_phase(
            member,
            Phase::StaticProperties,
        ) || in_phase(member, Phase::InstanceProperties) || in_phase(member, Phase::Constructors)),
        forall|p: Phase, q: Phase| in_phase(member, p) && in_phase(member, q) ==> p == q,
{
}

/// The steps of one phase hold no step twice, and hold the step for a
/// position iff the member there is resolved in that phase.
proof fn lemma_member_steps(body: Seq<MemberNode>, phase: Phase)
    requires
        body.len() <= usize::MAX,
    ensures
        member_steps(body, phase).no_duplicates(),
        forall|step: Step| #[trigger]
            member_steps(body, phase).contains(step) <==> exists|k: int|
                0 <= k < body.len() && #[trigger] member_step(body, phase, k) == Some(step),
{
    let pick = |k: int| member_step(body, phase, k);
    lemma_picked_no_duplicates(body.len(), pick);
    assert forall|step: Step| #[trigger]
        member_steps(body, phase).contains(step) <==> exists|k: int|
            0 <= k < body.len() && #[trigger] member_step(body, phase, k) == Some(step) by {
        lemma_picked_contains(body.len(), pick, step);
        if exists|k: int| 0 <= k < body.len() && #[trigger] pick(k) == Some(step) {
            let k = choose|k: int| 0 <= k < body.len() && #[trigger] pick(k) == Some(step);
            assert(member_step(body, phase, k) == Some(step));
        }
        if exists|k: int|
            0 <= k < body.len() && #[trigger] member_step(body, phase, k) == Some(step) {
            let k = choose|k: int|
                0 <= k < body.len() && #[trigger] member_step(body, phase, k) == Some(step);
            assert(pick(k) == Some(step));
        }
    }
}

/// The steps for parameter properties hold no step twice, and no step for
/// a member.
proof fn lemma_param_prop_steps(body: Seq<MemberNode>)
    requires
        body.len() <= usize::MAX,
    ensures
        all_param_prop_steps(body).no_duplicates(),
        forall|step: Step| #[trigger] all_param_prop_steps(body).contains(step) ==> step is ParamProp,
{
    let rows = Seq::new(body.len(), |k: int| param_prop_steps(body, k));
    assert forall|g: int, step: Step| 0 <= g < rows.len() && #[trigger] rows[g].contains(
        step,
    ) implies step is ParamProp && step->ParamProp_index == g by {
        match body[g] {
            MemberNode::Constructor(c) => {
                let pick = |j: int| param_prop_step(c.params@, g as usize, j);
                lemma_picked_contains(c.params@.len(), pick, step);
            },
            _ => {},
        }
    }
    assert forall|g: int| 0 <= g < rows.len() implies (#[trigger] rows[g]).no_duplicates() by {
        match body[g] {
            MemberNode::Constructor(c) => {
                let pick = |j: int| param_prop_step(c.params@, g as usize, j);
                assert(c.params@.len() == c.params.len());
                lemma_picked_no_duplicates(c.params@.len(), pick);
            },
            _ => {},
        }
    }
    lemma_flatten_no_duplicates(rows);
    assert forall|step: Step| #[trigger] rows.flatten().contains(step) implies step is ParamProp by {
        lemma_flatten_contains(rows, step);
    }
}

/// No member is resolved twice, and none is left out.
///
/// The plan of a class body holds no step twice, and the list of the
/// scheduled members holds no position twice. The plan holds the step for
/// a position and a phase exactly if the member there is resolved in that
/// phase, and the list holds a position exactly if the member there is
/// scheduled. With [`every_member_has_one_place`], each member is thus
/// resolved exactly once.
pub proof fn every_member_is_resolved_once(body: Seq<MemberNode>)
    requires
        body.len() <= usize::MAX,
    ensures
        plan_of(body).no_duplicates(),
        scheduled_of(body).no_duplicates(),
        forall|i: usize, phase: Phase| #[trigger]
            plan_of(body).contains(Step::Member { index: i, phase }) <==> i < body.len()
                && in_phase(body[i as int], phase),
        forall|i: usize| #[trigger]
            scheduled_of(body).contains(i) <==> i < body.len() && is_scheduled(body[i as int]),
{
    let pick = |k: int| scheduled_at(body, k);
    lemma_picked_no_duplicates(body.len(), pick);
    assert forall|i: usize| #[trigger]
        scheduled_of(body).contains(i) <==> i < body.len() && is_scheduled(body[i as int]) by {
        lemma_picked_contains(body.len(), pick, i);
        if i < body.len() && is_scheduled(body[i as int]) {
            assert(pick(i as int) == Some(i));
        }
    }
    let a = member_steps(body, Phase::IndexSignatures);
    let b = member_steps(body, Phase::StaticProperties);
    let c = all_param_prop_steps(body);
    let d = member_steps(body, Phase::InstanceProperties);
    let e = member_steps(body, Phase::Constructors);
    lemma_member_steps(body, Phase::IndexSignatures);
    lemma_member_steps(body, Phase::StaticProperties);
    lemma_param_prop_steps(body);
    lemma_member_steps(body, Phase::InstanceProperties);
    lemma_member_steps(body, Phase::Constructors);
    assert forall|x: Step| a.contains(x) implies !b.contains(x) by {}
    lemma_concat_no_duplicates(a, b);
    assert forall|x: Step| (a + b).contains(x) implies !c.contains(x) by {
        lemma_concat_contains(a, b, x);
    }
    lemma_concat_no_duplicates(a + b, c);
    assert forall|x: Step| (a + b + c).contains(x) implies !d.contains(x) by {
        lemma_concat_contains(a + b, c, x);
        lemma_concat_contains(a, b, x);
    }
    lemma_concat_no_duplicates(a + b + c, d);
    assert forall|x: Step| (a + b + c + d).contains(x) implies !e.contains(x) by {
        lemma_concat_contains(a + b + c, d, x);
        lemma_concat_contains(a + b, c, x);
        lemma_concat_contains(a, b, x);
    }
    lemma_concat_no_duplicates(a + b + c + d, e);
    assert(plan_of(body) == a + b + c + d + e);
    assert forall|i: usize, phase: Phase| #[trigger]
        plan_of(body).contains(Step::Member { index: i, phase }) <==> i < body.len() && in_phase(
            body[i as int],
            phase,
        ) by {
        let x = Step::Member { index: i, phase };
        lemma_concat_contains(a + b + c + d, e, x);
        lemma_concat_contains(a + b + c, d, x);
        lemma_concat_contains(a + b, c, x);
        lemma_concat_contains(a, b, x);
        if i < body.len() && in_phase(body[i as int], phase) {
            assert(member_step(body, phase, i as int) == Some(x));
            assert(member_steps(body, phase).contains(x));
        }
    }
}

// ---------------------------------------------------------------------
// Properties that constructor parameters declare
// ---------------------------------------------------------------------
/// The type with its literal types marked for widening, unless it keeps
/// them.
pub open spec fn widen(ty: Type) -> Type {
    if ty.keeps_literals {
        ty
    } else {
        Type { widened: true, ..ty }
    }
}

/// Marks the literal types of a type for widening, unless it keeps them.
pub fn generalize(ty: Type) -> (wide: Type)
    ensures
        wide == widen(ty),
{
    if ty.keeps_literals {
        ty
    } else {
        Type {
            id: ty.id,
            kind: ty.kind,
            span: ty.span,
            keeps_literals: ty.keeps_literals,
            widened: true,
        }
    }
}

/// The type of the property that a constructor parameter declares: the
/// declared type, and for a parameter with a default value that declares
/// none, the widened type of that value.
pub fn parameter_property_type(
    pat: PatKind,
    declared: Option<Type>,
    initializer: Option<Type>,
) -> (ty: Option<Type>)
    ensures
        ty == if declared is Some {
            declared
        } else if pat == PatKind::Assign && initializer is Some {
            Some(widen(initializer->0))
        } else {
            None
        },
{
    match declared {
        Some(ty) => Some(ty),
        None => match (pat, initializer) {
            (PatKind::Assign, Some(value)) => Some(generalize(value)),
            _ => None,
        },
    }
}

/// The property that a constructor parameter declares, given its type.
pub open spec fn parameter_property_of(p: ParamPropNode, ty: Option<Type>) -> ClassProperty {
    ClassProperty {
        span: p.span,
        key: Key { kind: KeyKind::Normal, text: p.name, span: p.name_span },
        value: ty,
        is_static: false,
        accessibility: p.accessibility,
        is_abstract: false,
        is_optional: false,
        readonly: p.readonly,
        definite: false,
        accessor: Accessor { getter: false, setter: false },
    }
}

/// Builds the property that a constructor parameter declares: an instance
/// property of the parameter's name, accessibility and `readonly` mark.
pub fn parameter_property(p: &ParamPropNode, ty: Option<Type>) -> (property: ClassProperty)
    ensures
        property == parameter_property_of(*p, ty),
{
    ClassProperty {
        span: p.span,
        key: Key { kind: KeyKind::Normal, text: p.name.clone(), span: p.name_span },
        value: ty,
        is_static: false,
        accessibility: p.accessibility,
        is_abstract: false,
        is_optional: false,
        readonly: p.readonly,
        definite: false,
        accessor: Accessor { getter: false, setter: false },
    }
}

/// The member that a declaration file shows in place of a private
/// parameter property: a private property without type and value. A
/// parameter that is not private stands for none.
pub open spec fn additional_member_of(p: ParamPropNode) -> Option<ClassPropNode> {
    if p.accessibility == Some(Accessibility::Private) {
        Some(
            ClassPropNode {
                span: p.span,
                key: PropName {
                    kind: NameKind::Ident,
                    text: p.name,
                    optional: p.optional,
                    span: p.name_span,
                },
                has_value: false,
                has_type_ann: false,
                is_static: false,
                is_abstract: false,
                is_optional: p.pat == PatKind::Assign,
                readonly: p.readonly,
                definite: false,
                accessibility: Some(Accessibility::Private),
            },
        )
    } else {
        None
    }
}

/// Builds the member that a declaration file shows in place of a private
/// parameter property.
pub fn additional_member(p: &ParamPropNode) -> (member: Option<ClassPropNode>)
    ensures
        member == additional_member_of(*p),
{
    match p.accessibility {
        Some(Accessibility::Private) => Some(
            ClassPropNode {
                span: p.span,
                key: PropName {
                    kind: NameKind::Ident,
                    text: p.name.clone(),
                    optional: p.optional,
                    span: p.name_span,
                },
                has_value: false,
                has_type_ann: false,
                is_static: false,
                is_abstract: false,
                is_optional: p.pat == PatKind::Assign,
                readonly: p.readonly,
                definite: false,
                accessibility: Some(Accessibility::Private),
            },
        ),
        _ => None,
    }
}

// ---------------------------------------------------------------------
// The members found so far
// ---------------------------------------------------------------------
/// The members of a class that have been resolved so far.
pub struct ClassBody {
    /// The members, each with its position in the declaration, in the
    /// order in which they were resolved.
    pub members: Vec<Placed>,
    /// The keys of the static properties among them.
    pub static_keys: Vec<Key>,
    /// The keys of the instance properties among them.
    pub instance_keys: Vec<Key>,
}

/// Whether one of `keys` is the key `key`.
pub open spec fn is_declared(keys: Seq<Key>, key: Key) -> bool {
    exists|k: int| 0 <= k < keys.len() && (#[trigger] keys[k]).type_eq(key)
}

/// The property with the literal types of its value marked for widening.
pub open spec fn widened_property(p: ClassProperty) -> ClassProperty {
    ClassProperty {
        value: match p.value {
            Some(ty) => Some(widen(ty)),
            None => None,
        },
        ..p
    }
}

/// Tells whether one of `keys` is the key `key`.
fn declared(keys: &Vec<Key>, key: &Key) -> (found: bool)
    ensures
        found == is_declared(keys@, *key),
{
    let mut k: usize = 0;
    while k < keys.len()
        invariant
            k <= keys.len(),
            forall|i: int| 0 <= i < k ==> !(#[trigger] keys@[i]).type_eq(*key),
        decreases keys.len() - k,
    {
        if keys[k].is_type_eq(key) {
            return true;
        }
        k += 1;
    }
    false
}

impl ClassBody {
    /// A class body without members.
    pub fn new() -> (body: ClassBody)
        ensures
            body.members@.len() == 0,
            body.static_keys@.len() == 0,
            body.instance_keys@.len() == 0,
    {
        ClassBody { members: Vec::new(), static_keys: Vec::new(), instance_keys: Vec::new() }
    }

    /// Takes in the member resolved for position `index`.
    pub fn record(&mut self, index: usize, member: ClassMember)
        ensures
            final(self).members@ == old(self).members@.push((index, member)),
            final(self).static_keys@ == old(self).static_keys@,
            final(self).instance_keys@ == old(self).instance_keys@,
    {
        self.members.push((index, member));
    }

    /// Takes in the property resolved for position `index`.
    ///
    /// The property is reported at its key if a property of the same key
    /// and the same staticness was taken in before. It is taken in either
    /// way, with the literal types of its value marked for widening.
    pub fn record_property(&mut self, index: usize, property: ClassProperty) -> (duplicate: Option<
        Diagnostic,
    >)
        ensures
            final(self).members@ == old(self).members@.push(
                (index, ClassMember::Property(widened_property(property))),
            ),
            final(self).static_keys@ == if property.is_static {
                old(self).static_keys@.push(property.key)
            } else {
                old(self).static_keys@
            },
            final(self).instance_keys@ == if property.is_static {
                old(self).instance_keys@
            } else {
                old(self).instance_keys@.push(property.key)
            },
            duplicate == if is_declared(
                if property.is_static {
                    old(self).static_keys@
                } else {
                    old(self).instance_keys@
                },
                property.key,
            ) {
                Some(Diagnostic { code: ErrorCode::DuplicateProperty, span: property.key.span })
            } else {
                None
            },
    {
        let seen = if property.is_static {
            declared(&self.static_keys, &property.key)
        } else {
            declared(&self.instance_keys, &property.key)
        };
        let duplicate = if seen {
            Some(Diagnostic { code: ErrorCode::DuplicateProperty, span: property.key.span })
        } else {
            None
        };
        if property.is_static {
            self.static_keys.push(property.key.copy());
        } else {
            self.instance_keys.push(property.key.copy());
        }
        let ClassProperty {
            span,
            key,
            value,
            is_static,
            accessibility,
            is_abstract,
            is_optional,
            readonly,
            definite,
            accessor,
        } = property;
        let value = match value {
            Some(ty) => Some(generalize(ty)),
            None => None,
        };
        self.members.push(
            (
                index,
                ClassMember::Property(
                    ClassProperty {
                        span,
                        key,
                        value,
                        is_static,
                        accessibility,
                        is_abstract,
                        is_optional,
                        readonly,
                        definite,
                        accessor,
                    },
                ),
            ),
        );
        duplicate
    }

    /// The members of the finished class: getters and setters merged, in
    /// the order in which the members were resolved.
    pub fn finish(self) -> (body: Vec<ClassMember>)
        requires
            not_yet_combined(self.members@),
        ensures
            body@.len() == combined(self.members@).len(),
            forall|k: int| 0 <= k < body@.len() ==> body@[k] == combined(self.members@)[k].1,
    {
        let merged = combine_class_properties(self.members);
        let ghost all = merged@;
        let mut body: Vec<ClassMember> = Vec::new();
        for entry in it: merged.into_iter()
            invariant
                all == it.seq(),
                body@.len() == it.index(),
                forall|k: int| 0 <= k < it.index() ==> body@[k] == all[k].1,
        {
            body.push(entry.1);
        }
        body
    }
}

// ---------------------------------------------------------------------
// The class as a whole
// ---------------------------------------------------------------------
/// The member that a declaration file shows for a parameter of a
/// constructor, if it shows one.
pub open spec fn additional_member_for(param: ParamOrParamProp) -> Option<ClassPropNode> {
    match param {
        ParamOrParamProp::ParamProp(p) => additional_member_of(p),
        _ => None,
    }
}

/// The members that a declaration file shows for the parameters of the
/// member at `k`.
pub open spec fn additional_members_at(body: Seq<MemberNode>, k: int) -> Seq<ClassPropNode> {
    match body[k] {
        MemberNode::Constructor(c) => c.params@.filter_map(
            |p: ParamOrParamProp| additional_member_for(p),
        ),
        _ => Seq::empty(),
    }
}

/// The members that a declaration file shows in place of the private
/// parameter properties of a class, constructor by constructor.
pub open spec fn additional_members_of(body: Seq<MemberNode>) -> Seq<ClassPropNode> {
    Seq::new(body.len(), |k: int| additional_members_at(body, k)).flatten()
}

/// Lists the members that a declaration file shows in place of the
/// private parameter properties of a class.
pub fn additional_members(body: &Vec<MemberNode>) -> (members: Vec<ClassPropNode>)
    ensures
        members@ == additional_members_of(body@),
{
    let ghost rows = Seq::new(body@.len(), |k: int| additional_members_at(body@, k));
    let mut members: Vec<ClassPropNode> = Vec::new();
    let mut k: usize = 0;
    assert(rows.take(0).flatten() =~= Seq::<ClassPropNode>::empty());
    while k < body.len()
        invariant
            k <= body.len(),
            rows == Seq::new(body@.len(), |k: int| additional_members_at(body@, k)),
            members@ == rows.take(k as int).flatten(),
        decreases body.len() - k,
    {
        let ghost before = members@;
        proof {
            assert(rows.take(k + 1) =~= rows.take(k as int).push(rows[k as int]));
            rows.take(k as int).lemma_flatten_push(rows[k as int]);
        }
        match &body[k] {
            MemberNode::Constructor(c) => {
                let ghost pick = |p: ParamOrParamProp| additional_member_for(p);
                let mut j: usize = 0;
                while j < c.params.len()
                    invariant
                        j <= c.params.len(),
                        pick == |p: ParamOrParamProp| additional_member_for(p),
                        members@ == before + c.params@.take(j as int).filter_map(pick),
                    decreases c.params.len() - j,
                {
                    proof {
                        c.params@.lemma_filter_map_take_succ(pick, j as int);
                    }
                    match &c.params[j] {
                        ParamOrParamProp::ParamProp(p) => {
                            match additional_member(p) {
                                Some(member) => {
                                    members.push(member);
                                },
                                None => {},
                            }
                        },
                        _ => {},
                    }
                    j += 1;
                }
                assert(c.params@.take(j as int) =~= c.params@);
            },
            _ => {},
        }
        k += 1;
    }
    assert(rows.take(k as int) =~= rows);
    members
}

/// What the member list of a class says before any type is known.
pub struct ClassShape {
    /// What is reported for the shape of the class.
    pub errors: Vec<Diagnostic>,
    /// The positions of the implementations that follow signatures of
    /// their name.
    pub implementations: Vec<usize>,
    /// The steps in which the members are resolved, before the scheduled
    /// ones.
    pub steps: Vec<Step>,
    /// The positions of the members that are resolved last, in dependency
    /// order.
    pub scheduled: Vec<usize>,
    /// The members that a declaration file shows in place of private
    /// parameter properties.
    pub additional_members: Vec<ClassPropNode>,
}

/// What is reported for the shape of a class: the overloads and their
/// implementations, then the overloads that are partly static, then the
/// duplicate names, then the constructors.
pub open spec fn shape_errors(class: ClassNode, in_declare: bool, is_builtin: bool) -> Seq<
    Diagnostic,
> {
    (if overloads_are_checked(in_declare, is_builtin, false) {
        ambient_method_errors(class.body@, class.is_abstract)
    } else {
        Seq::empty()
    }) + static_instance_errors(class.body@, in_declare) + duplicate_member_errors(class.body@)
        + constructor_errors(class.body@)
}

/// Reads the member list of a class: what its shape is reported for, and
/// the order in which its members are to be resolved.
///
/// This is all that is decided before the first type is resolved. The
/// caller resolves the members step by step, collects them in a
/// [`ClassBody`], and hands the scheduled members to
/// [`crate::order::calc_order`] together with what they depend on.
pub fn validate_class_shape(class: &ClassNode, in_declare: bool, is_builtin: bool) -> (shape:
    ClassShape)
    ensures
        shape.errors@ == shape_errors(*class, in_declare, is_builtin),
        shape.implementations@ == if overloads_are_checked(in_declare, is_builtin, false) {
            overload_implementations(class.body@, class.is_abstract)
        } else {
            Seq::empty()
        },
        shape.steps@ == plan_of(class.body@),
        shape.scheduled@ == scheduled_of(class.body@),
        shape.additional_members@ == additional_members_of(class.body@),
{
    let ambient = report_errors_for_wrong_ambient_methods_of_class(
        &class.body,
        class.is_abstract,
        in_declare,
        is_builtin,
        false,
    );
    let mut errors = ambient.errors;
    let implementations = ambient.implementations;
    proof {
        if !overloads_are_checked(in_declare, is_builtin, false) {
            assert(errors@ =~= Seq::empty());
            assert(implementations@ =~= Seq::empty());
        }
    }
    let mut mixed = report_errors_for_statics_mixed_with_instances(&class.body, in_declare);
    errors.append(&mut mixed);
    let mut duplicates = report_errors_for_duplicate_class_members(&class.body);
    errors.append(&mut duplicates);
    let mut constructors = report_errors_for_constructors(&class.body);
    errors.append(&mut constructors);
    ClassShape {
        errors,
        implementations,
        steps: plan(&class.body),
        scheduled: scheduled_members(&class.body),
        additional_members: additional_members(&class.body),
    }
}

/// Puts the resolved class together.
///
/// The members are those that were collected, in the order in which they
/// were resolved, with each getter merged with the setter of its key.
pub fn assemble_class(
    class: &ClassNode,
    name: Option<String>,
    super_class: Option<Type>,
    has_type_params: bool,
    body: ClassBody,
    implements: Vec<Type>,
) -> (def: ClassDef)
    requires
        not_yet_combined(body.members@),
    ensures
        def.span == class.span,
        def.name == name,
        def.is_abstract == class.is_abstract,
        def.super_class == super_class,
        def.has_type_params == has_type_params,
        def.implements == implements,
        def.body@.len() == combined(body.members@).len(),
        forall|k: int| 0 <= k < def.body@.len() ==> def.body@[k] == combined(body.members@)[k].1,
{
    ClassDef {
        span: class.span,
        name,
        is_abstract: class.is_abstract,
        super_class,
        has_type_params,
        body: body.finish(),
        implements,
    }
}

} // verus!
