//! Rules that hold a class against its super class, the interfaces it
//! implements and its own index signature.

use crate::errors::Diagnostic;
use crate::errors::ErrorCode;
use crate::errors::ErrorKind;
use crate::errors::ASSIGN_FAILED;
use crate::errors::MISSING_FIELDS;
use crate::syntax::Accessibility;
use crate::syntax::Span;
use crate::types::Accessor;
use crate::types::ClassDef;
use crate::types::ClassMember;
use crate::types::ClassProperty;
use crate::types::Key;
use crate::types::Method;
use crate::types::Type;
use crate::types::TypeKind;
use vstd::prelude::*;

verus! {

/// What the rules on inheritance read of a method or property.
#[derive(Debug, PartialEq, Eq)]
pub struct Heritable {
    /// Whether the member is a method, as opposed to a property.
    pub is_method: bool,
    pub key: Key,
    pub is_static: bool,
    pub accessor: Accessor,
    pub accessibility: Option<Accessibility>,
}

/// What the rules on inheritance read of a member: something of methods
/// and properties, nothing of constructors and index signatures.
pub open spec fn heritable(member: ClassMember) -> Option<Heritable> {
    match member {
        ClassMember::Method(m) => Some(
            Heritable {
                is_method: true,
                key: m.key,
                is_static: m.is_static,
                accessor: Accessor { getter: false, setter: false },
                accessibility: m.accessibility,
            },
        ),
        ClassMember::Property(p) => Some(
            Heritable {
                is_method: false,
                key: p.key,
                is_static: p.is_static,
                accessor: p.accessor,
                accessibility: p.accessibility,
            },
        ),
        _ => None,
    }
}

/// The methods and properties of a class body, as the rules on
/// inheritance read them.
pub open spec fn heritables(body: Seq<ClassMember>) -> Seq<Heritable> {
    body.filter_map(|m: ClassMember| heritable(m))
}

/// Reads the methods and properties of a class body.
pub fn heritable_members(body: &Vec<ClassMember>) -> (members: Vec<Heritable>)
    ensures
        members@ == heritables(body@),
{
    let ghost pick = |m: ClassMember| heritable(m);
    let mut members: Vec<Heritable> = Vec::new();
    let mut k: usize = 0;
    while k < body.len()
        invariant
            k <= body.len(),
            pick == |m: ClassMember| heritable(m),
            members@ == body@.take(k as int).filter_map(pick),
        decreases body.len() - k,
    {
        proof {
            body@.lemma_filter_map_take_succ(pick, k as int);
        }
        match &body[k] {
            ClassMember::Method(m) => {
                members.push(
                    Heritable {
                        is_method: true,
                        key: m.key.copy(),
                        is_static: m.is_static,
                        accessor: Accessor { getter: false, setter: false },
                        accessibility: m.accessibility,
                    },
                );
            },
            ClassMember::Property(p) => {
                members.push(
                    Heritable {
                        is_method: false,
                        key: p.key.copy(),
                        is_static: p.is_static,
                        accessor: p.accessor,
                        accessibility: p.accessibility,
                    },
                );
            },
            _ => {},
        }
        k += 1;
    }
    assert(body@.take(k as int) =~= body@);
    members
}

/// Whether entry `k` is the first property of `members` with the key
/// `key`.
pub open spec fn is_first_property(members: Seq<Heritable>, key: Key, k: int) -> bool {
    &&& 0 <= k < members.len()
    &&& !members[k].is_method
    &&& members[k].key.type_eq(key)
    &&& forall|i: int|
        0 <= i < k ==> !(!(#[trigger] members[i]).is_method && members[i].key.type_eq(key))
}

/// Whether `members` holds a method with the key `key`.
pub open spec fn has_method(members: Seq<Heritable>, key: Key) -> bool {
    exists|k: int| 0 <= k < members.len() && (#[trigger] members[k]).is_method && members[k].key.type_eq(key)
}

/// What a property is reported for that redeclares the property `over` of
/// the super class: that one of them is an accessor and the other is not
/// or is another, and that it gave up being private.
pub open spec fn redeclaration_errors(own: Heritable, over: ClassProperty, super_span: Span) -> Seq<
    ErrorKind,
> {
    let kind = if !own.is_static && !over.is_static && own.accessor != over.accessor && (
    over.accessor.getter || over.accessor.setter) {
        seq![
            ErrorKind::Plain(
                Diagnostic { code: ErrorCode::DefinedWithAccessorInSuper, span: own.key.span },
            ),
        ]
    } else {
        Seq::empty()
    };
    let privacy = if over.accessibility == Some(Accessibility::Private) && own.accessibility
        != Some(Accessibility::Private) {
        seq![
            ErrorKind::Plain(
                Diagnostic { code: ErrorCode::PrivatePropertyIsDifferent, span: super_span },
            ),
        ]
    } else {
        Seq::empty()
    };
    kind + privacy
}

/// What the member `over` of the super class has reported at once: for a
/// property, what the first property of the same key is reported for.
pub open spec fn clash_errors(members: Seq<Heritable>, over: ClassMember, super_span: Span) -> Seq<
    ErrorKind,
> {
    match over {
        ClassMember::Property(p) => if exists|k: int| is_first_property(members, p.key, k) {
            redeclaration_errors(
                members[choose|k: int| is_first_property(members, p.key, k)],
                p,
                super_span,
            )
        } else {
            Seq::empty()
        },
        _ => Seq::empty(),
    }
}

/// Whether the class has to declare the method `over` of the super class:
/// it is abstract and not optional.
pub open spec fn must_implement(over: Method) -> bool {
    over.is_abstract && !over.is_optional
}

/// The error for the member `over` of the super class that the class
/// lacks: an abstract method that is not optional and that no method of
/// the class has the key of.
pub open spec fn lack_error(members: Seq<Heritable>, over: ClassMember, span: Span) -> Option<
    ErrorKind,
> {
    match over {
        ClassMember::Method(m) => if must_implement(m) && !has_method(members, m.key) {
            Some(ErrorKind::ClassDoesNotImplementMember { span, key: m.key })
        } else {
            None
        },
        _ => None,
    }
}

/// What a class inherits from the member `over` for the check against the
/// next super class: a method that is not abstract.
pub open spec fn handed_down(over: ClassMember) -> Option<Heritable> {
    match over {
        ClassMember::Method(m) => if m.is_abstract {
            None
        } else {
            heritable(over)
        },
        _ => None,
    }
}

/// What the check of a class against one super class finds.
pub struct SuperClassCheck {
    /// What is reported at once, member by member of the super class.
    pub clashes: Vec<ErrorKind>,
    /// What is reported after the super class of the super class has been
    /// checked: the members that the class lacks.
    pub lacks: Vec<ErrorKind>,
    /// Whether the super class of the super class is to be checked too, and
    /// if so, the members to check against it: the methods of the super
    /// class that are not abstract, then those of the class.
    pub next: Option<Vec<Heritable>>,
}

/// Whether the super class of `over` is to be checked too: `over` is
/// abstract and has one.
pub open spec fn climbs(over: ClassDef) -> bool {
    over.is_abstract && over.super_class is Some
}

/// Finds the first property of `members` with the key `key`.
fn first_property(members: &Vec<Heritable>, key: &Key) -> (found: Option<usize>)
    ensures
        match found {
            Some(k) => is_first_property(members@, *key, k as int),
            None => !exists|k: int| is_first_property(members@, *key, k),
        },
{
    let mut k: usize = 0;
    while k < members.len()
        invariant
            k <= members.len(),
            forall|i: int|
                0 <= i < k ==> !(!(#[trigger] members@[i]).is_method && members@[i].key.type_eq(
                    *key,
                )),
        decreases members.len() - k,
    {
        if !members[k].is_method && members[k].key.is_type_eq(key) {
            return Some(k);
        }
        k += 1;
    }
    None
}

/// Tells whether `members` holds a method with the key `key`.
fn find_method(members: &Vec<Heritable>, key: &Key) -> (found: bool)
    ensures
        found == has_method(members@, *key),
{
    let mut k: usize = 0;
    while k < members.len()
        invariant
            k <= members.len(),
            forall|i: int|
                0 <= i < k ==> !((#[trigger] members@[i]).is_method && members@[i].key.type_eq(*key)),
        decreases members.len() - k,
    {
        if members[k].is_method && members[k].key.is_type_eq(key) {
            return true;
        }
        k += 1;
    }
    false
}

/// Only one entry is the first property with a key.
proof fn lemma_first_property_unique(members: Seq<Heritable>, key: Key, k: int)
    requires
        is_first_property(members, key, k),
    ensures
        (choose|f: int| is_first_property(members, key, f)) == k,
{
    let f = choose|f: int| is_first_property(members, key, f);
    if f < k {
        assert(!(!members[f].is_method && members[f].key.type_eq(key)));
    }
    if k < f {
        assert(!(!members[k].is_method && members[k].key.type_eq(key)));
    }
}

/// A copy of what was read of a member.
fn copy_heritable(h: &Heritable) -> (copy: Heritable)
    ensures
        copy == *h,
{
    Heritable {
        is_method: h.is_method,
        key: h.key.copy(),
        is_static: h.is_static,
        accessor: h.accessor,
        accessibility: h.accessibility,
    }
}

/// Checks the members of a class against one class of its super class
/// chain.
///
/// For each property of the super class, the first property of the same
/// key among `members` is held against it. For each abstract method of the
/// super class that is not optional, `members` must hold a method of the
/// same key. Where the super class is abstract and has a super class
/// itself, the result names the members to check against that one.
pub fn report_error_for_wrong_super_class_inheritance(
    span: Span,
    members: &Vec<Heritable>,
    super_class: &ClassDef,
    super_span: Span,
) -> (found: SuperClassCheck)
    ensures
        found.clashes@ == Seq::new(
            super_class.body@.len(),
            |k: int| clash_errors(members@, super_class.body@[k], super_span),
        ).flatten(),
        found.lacks@ == super_class.body@.filter_map(
            |over: ClassMember| lack_error(members@, over, span),
        ),
        found.next is Some == climbs(*super_class),
        found.next is Some ==> found.next->0@ == super_class.body@.filter_map(
            |over: ClassMember| handed_down(over),
        ) + members@,
{
    let body = &super_class.body;
    let ghost rows = Seq::new(
        body@.len(),
        |k: int| clash_errors(members@, body@[k], super_span),
    );
    let ghost lack = |over: ClassMember| lack_error(members@, over, span);
    let ghost down = |over: ClassMember| handed_down(over);
    let mut clashes: Vec<ErrorKind> = Vec::new();
    let mut lacks: Vec<ErrorKind> = Vec::new();
    let mut inherited: Vec<Heritable> = Vec::new();
    let mut k: usize = 0;
    assert(rows.take(0).flatten() =~= Seq::<ErrorKind>::empty());
    while k < body.len()
        invariant
            k <= body.len(),
            body == &super_class.body,
            rows == Seq::new(body@.len(), |k: int| clash_errors(members@, body@[k], super_span)),
            lack == |over: ClassMember| lack_error(members@, over, span),
            down == |over: ClassMember| handed_down(over),
            clashes@ == rows.take(k as int).flatten(),
            lacks@ == body@.take(k as int).filter_map(lack),
            inherited@ == body@.take(k as int).filter_map(down),
        decreases body.len() - k,
    {
        proof {
            body@.lemma_filter_map_take_succ(lack, k as int);
            body@.lemma_filter_map_take_succ(down, k as int);
            assert(rows.take(k + 1) =~= rows.take(k as int).push(rows[k as int]));
            rows.take(k as int).lemma_flatten_push(rows[k as int]);
        }
        match &body[k] {
            ClassMember::Property(over) => {
                match first_property(members, &over.key) {
                    Some(at) => {
                        proof {
                            lemma_first_property_unique(members@, over.key, at as int);
                        }
                        let own = &members[at];
                        let ghost before = clashes@;
                        if !own.is_static && !over.is_static && !(own.accessor.getter
                            == over.accessor.getter && own.accessor.setter
                            == over.accessor.setter) && (over.accessor.getter
                            || over.accessor.setter) {
                            clashes.push(
                                ErrorKind::Plain(
                                    Diagnostic {
                                        code: ErrorCode::DefinedWithAccessorInSuper,
                                        span: own.key.span,
                                    },
                                ),
                            );
                        }
                        let over_private = match over.accessibility {
                            Some(Accessibility::Private) => true,
                            _ => false,
                        };
                        let own_private = match own.accessibility {
                            Some(Accessibility::Private) => true,
                            _ => false,
                        };
                        if over_private && !own_private {
                            clashes.push(
                                ErrorKind::Plain(
                                    Diagnostic {
                                        code: ErrorCode::PrivatePropertyIsDifferent,
                                        span: super_span,
                                    },
                                ),
                            );
                        }
                        assert(clashes@ =~= before + redeclaration_errors(
                            *own,
                            *over,
                            super_span,
                        ));
                    },
                    None => {},
                }
            },
            ClassMember::Method(over) => {
                if !over.is_abstract {
                    inherited.push(
                        Heritable {
                            is_method: true,
                            key: over.key.copy(),
                            is_static: over.is_static,
                            accessor: Accessor { getter: false, setter: false },
                            accessibility: over.accessibility,
                        },
                    );
                } else if !over.is_optional && !find_method(members, &over.key) {
                    lacks.push(
                        ErrorKind::ClassDoesNotImplementMember { span, key: over.key.copy() },
                    );
                }
            },
            _ => {},
        }
        k += 1;
    }
    proof {
        assert(rows.take(k as int) =~= rows);
        assert(body@.take(k as int) =~= body@);
    }
    let next = if super_class.is_abstract && super_class.super_class.is_some() {
        let mut m: usize = 0;
        let ghost base = inherited@;
        while m < members.len()
            invariant
                m <= members.len(),
                inherited@ == base + members@.take(m as int),
            decreases members.len() - m,
        {
            inherited.push(copy_heritable(&members[m]));
            assert(members@.take(m + 1) =~= members@.take(m as int).push(members@[m as int]));
            m += 1;
        }
        assert(members@.take(m as int) =~= members@);
        Some(inherited)
    } else {
        None
    };
    SuperClassCheck { clashes, lacks, next }
}

/// One class of the super class chain, as the type checker resolved it.
#[derive(Debug, PartialEq, Eq)]
pub enum SuperLink {
    /// The super class could not be resolved.
    Failed(ErrorKind),
    /// The super class is resolved, and is no class.
    NotAClass,
    /// The super class, and the position of the type that names it.
    Class { def: ClassDef, span: Span },
}

/// What is reported at once when `members` are held against `over`.
pub open spec fn all_clash_errors(members: Seq<Heritable>, over: ClassDef, super_span: Span) -> Seq<
    ErrorKind,
> {
    Seq::new(over.body@.len(), |k: int| clash_errors(members, over.body@[k], super_span)).flatten()
}

/// The members that `members` lack of `over`.
pub open spec fn all_lack_errors(members: Seq<Heritable>, over: ClassDef, span: Span) -> Seq<
    ErrorKind,
> {
    over.body@.filter_map(|m: ClassMember| lack_error(members, m, span))
}

/// The members that are held against the super class of `over`: the
/// methods of `over` that are not abstract, then `members`.
pub open spec fn climbing_members(members: Seq<Heritable>, over: ClassDef) -> Seq<Heritable> {
    over.body@.filter_map(|m: ClassMember| handed_down(m)) + members
}

/// What is reported when `members` are held against a super class chain.
///
/// A super class that could not be resolved is reported as that and ends
/// the check, and one that is no class ends it silently. For a class, what
/// is found at once comes first, then what the rest of the chain gives if
/// the class is abstract and has a super class, and last the members that
/// are lacking.
pub open spec fn chain_errors(span: Span, members: Seq<Heritable>, chain: Seq<SuperLink>) -> Seq<
    ErrorKind,
>
    decreases chain.len(),
{
    if chain.len() == 0 {
        Seq::empty()
    } else {
        match chain.first() {
            SuperLink::Failed(err) => seq![err],
            SuperLink::NotAClass => Seq::empty(),
            SuperLink::Class { def, span: super_span } => all_clash_errors(
                members,
                def,
                super_span,
            ) + (if climbs(def) {
                chain_errors(span, climbing_members(members, def), chain.drop_first())
            } else {
                Seq::empty()
            }) + all_lack_errors(members, def, span),
        }
    }
}

/// Holds the members of a class against its super class chain.
///
/// `chain` holds the super class, then the super class of that one, and so
/// on, each as the type checker resolved it. The chain is followed while
/// the classes in it are abstract; what stands behind a class that is not
/// is not looked at.
pub fn report_errors_for_super_class_chain(
    span: Span,
    members: Vec<Heritable>,
    chain: Vec<SuperLink>,
) -> (errors: Vec<ErrorKind>)
    ensures
        errors@ == chain_errors(span, members@, chain@),
{
    let ghost all = chain@;
    let ghost whole = chain_errors(span, members@, chain@);
    let mut members = members;
    let mut head: Vec<ErrorKind> = Vec::new();
    let mut tail: Vec<ErrorKind> = Vec::new();
    let mut climbing = true;
    assert(all.skip(0) =~= all);
    for link in it: chain.into_iter()
        invariant
            all == it.seq(),
            whole == if climbing {
                head@ + chain_errors(span, members@, all.skip(it.index() as int)) + tail@
            } else {
                head@ + tail@
            },
    {
        let ghost rest = all.skip(it.index() as int);
        assert(rest.first() == link);
        assert(rest.drop_first() =~= all.skip(it.index() + 1));
        if climbing {
            match link {
                SuperLink::Failed(err) => {
                    head.push(err);
                    climbing = false;
                },
                SuperLink::NotAClass => {
                    climbing = false;
                },
                SuperLink::Class { def, span: super_span } => {
                    let SuperClassCheck { mut clashes, mut lacks, next } =
                        report_error_for_wrong_super_class_inheritance(
                        span,
                        &members,
                        &def,
                        super_span,
                    );
                    head.append(&mut clashes);
                    lacks.append(&mut tail);
                    tail = lacks;
                    match next {
                        Some(inherited) => {
                            members = inherited;
                        },
                        None => {
                            climbing = false;
                        },
                    }
                },
            }
        }
    }
    assert(all.skip(all.len() as int) =~= Seq::<SuperLink>::empty());
    head.append(&mut tail);
    head
}

/// Decides whether a class is held against its super class, and under
/// which position the findings are reported: that of the class name if
/// there is one, else that of the class. Abstract classes and
/// declarations without bodies are not held against theirs.
pub fn validate_inherited_members_from_super_class(
    name: Option<Span>,
    class: &ClassDef,
    in_declare: bool,
) -> (check: Option<(Span, Type)>)
    ensures
        check == if class.is_abstract || in_declare || class.super_class is None {
            None
        } else {
            Some(
                (
                    match name {
                        Some(span) => span,
                        None => class.span,
                    },
                    class.super_class->0,
                ),
            )
        },
{
    if class.is_abstract || in_declare {
        return None;
    }
    let span = match name {
        Some(span) => span,
        None => class.span,
    };
    match class.super_class {
        Some(super_ty) => Some((span, super_ty)),
        None => None,
    }
}

/// What is to be done about the super class of a class.
#[derive(Clone, Copy, Debug, PartialEq, Eq, Structural)]
pub enum SuperClassVerdict {
    /// Nothing: the class belongs to the built-in library.
    Skip,
    /// The super class is the class itself.
    Report(Diagnostic),
    /// The super class is to be resolved and judged by
    /// [`judge_resolved_super_class`].
    Resolve,
}

/// Decides what is to be done about the super class of a class.
///
/// `this_class_name` is the name of the class that is being checked.
/// `super_name` is the name of the super class where it is given by a
/// plain name, and `super_span` the position of that name. A class that
/// names itself as its super class is reported at that position.
pub fn validate_super_class(
    is_builtin: bool,
    this_class_name: Option<&String>,
    super_name: Option<&String>,
    super_span: Span,
) -> (verdict: SuperClassVerdict)
    ensures
        verdict == if is_builtin {
            SuperClassVerdict::Skip
        } else if this_class_name is Some && super_name is Some && this_class_name->0@
            == super_name->0@ {
            SuperClassVerdict::Report(
                Diagnostic { code: ErrorCode::SelfReferentialSuperClass, span: super_span },
            )
        } else {
            SuperClassVerdict::Resolve
        },
{
    if is_builtin {
        return SuperClassVerdict::Skip;
    }
    match (this_class_name, super_name) {
        (Some(name), Some(super_name)) => {
            if *name == *super_name {
                return SuperClassVerdict::Report(
                    Diagnostic { code: ErrorCode::SelfReferentialSuperClass, span: super_span },
                );
            }
        },
        _ => {},
    }
    SuperClassVerdict::Resolve
}

/// Judges the resolved super class: a function type is no constructor.
pub fn judge_resolved_super_class(super_ty: Type) -> (error: Option<Diagnostic>)
    ensures
        error == if super_ty.kind == TypeKind::Function {
            Some(Diagnostic { code: ErrorCode::NotConstructorType, span: super_ty.span })
        } else {
            None
        },
{
    if super_ty.kind == TypeKind::Function {
        Some(Diagnostic { code: ErrorCode::NotConstructorType, span: super_ty.span })
    } else {
        None
    }
}

/// Turns a class as a value into the type of its instances, positioned at
/// `span`; any other type stays as it is.
pub fn instantiate_class(span: Span, ty: Type) -> (instance: Type)
    ensures
        instance == if ty.kind == TypeKind::ClassDef {
            Type { kind: TypeKind::Class, span, ..ty }
        } else {
            ty
        },
{
    if ty.kind == TypeKind::ClassDef {
        Type {
            id: ty.id,
            kind: TypeKind::Class,
            span,
            keeps_literals: ty.keeps_literals,
            widened: ty.widened,
        }
    } else {
        ty
    }
}

// ---------------------------------------------------------------------
// Interfaces that a class implements
// ---------------------------------------------------------------------
/// The number of an error. Several errors found at one place count as the
/// first of them.
pub open spec fn code_of(err: ErrorKind) -> u32
    decreases err,
{
    match err {
        ErrorKind::AssignFailed { .. } => ASSIGN_FAILED,
        ErrorKind::MissingFields { .. } => MISSING_FIELDS,
        ErrorKind::Other { code, .. } => code,
        ErrorKind::Errors { errors, .. } => if errors@.len() > 0 {
            code_of(errors@[0])
        } else {
            0
        },
        _ => 0,
    }
}

/// Computes the number of an error.
pub fn code(err: &ErrorKind) -> (code: u32)
    ensures
        code == code_of(*err),
    decreases *err,
{
    match err {
        ErrorKind::AssignFailed { .. } => ASSIGN_FAILED,
        ErrorKind::MissingFields { .. } => MISSING_FIELDS,
        ErrorKind::Other { code, .. } => *code,
        ErrorKind::Errors { errors, .. } => {
            if errors.len() > 0 {
                code(&errors[0])
            } else {
                0
            }
        },
        _ => 0,
    }
}

/// Where a member that does not fit its interface is reported: at the
/// name being assigned if the cause names one, else at the target of the
/// failed assignment, and for any other cause where the cause is reported.
pub open spec fn blamed_span(cause: ErrorKind) -> Span {
    match cause {
        ErrorKind::AssignFailed { right_ident: Some(s), .. } => s,
        ErrorKind::AssignFailed { left, .. } => left,
        _ => cause.span_spec(),
    }
}

/// Whether `out` is `err` with every error in it, at whatever depth below
/// lists of errors, wrapped as the cause of a member that does not fit its
/// interface.
pub open spec fn is_wrapped(err: ErrorKind, out: ErrorKind) -> bool
    decreases err,
{
    match err {
        ErrorKind::Errors { span, errors } => {
            &&& out matches ErrorKind::Errors { span: out_span, errors: out_errors }
            &&& out_span == span
            &&& out_errors@.len() == errors@.len()
            &&& forall|k: int|
                0 <= k < errors@.len() ==> is_wrapped(errors@[k], #[trigger] out_errors@[k])
        },
        _ => {
            &&& out matches ErrorKind::InvalidImplOfInterface { span, cause }
            &&& span == blamed_span(err)
            &&& *cause == err
        },
    }
}

/// Wraps every error in `err` as the cause of a member that does not fit
/// its interface.
fn wrap_cause(err: ErrorKind) -> (out: ErrorKind)
    ensures
        is_wrapped(err, out),
    decreases err,
{
    match err {
        ErrorKind::Errors { span, errors } => {
            let ghost all = errors@;
            let mut wrapped: Vec<ErrorKind> = Vec::new();
            for cause in it: errors.into_iter()
                invariant
                    all == it.seq(),
                    wrapped@.len() == it.index(),
                    forall|k: int|
                        0 <= k < it.index() ==> is_wrapped(all[k], #[trigger] wrapped@[k]),
                    forall|k: int| 0 <= k < all.len() ==> decreases_to!(err => all[k]),
            {
                wrapped.push(wrap_cause(cause));
            }
            ErrorKind::Errors { span, errors: wrapped }
        },
        other => {
            let span = match &other {
                ErrorKind::AssignFailed { right_ident: Some(s), .. } => *s,
                ErrorKind::AssignFailed { left, .. } => *left,
                _ => other.span(),
            };
            ErrorKind::InvalidImplOfInterface { span, cause: Box::new(other) }
        },
    }
}

/// Whether one of `errors` says that members are missing.
pub open spec fn any_missing_fields(errors: Seq<ErrorKind>) -> bool {
    exists|k: int| 0 <= k < errors.len() && (#[trigger] errors[k]) is MissingFields
}

/// Tells whether one of `errors` says that members are missing.
fn has_missing_fields(errors: &Vec<ErrorKind>) -> (found: bool)
    ensures
        found == any_missing_fields(errors@),
{
    let mut k: usize = 0;
    while k < errors.len()
        invariant
            k <= errors.len(),
            forall|i: int| 0 <= i < k ==> !((#[trigger] errors@[i]) is MissingFields),
        decreases errors.len() - k,
    {
        match &errors[k] {
            ErrorKind::MissingFields { .. } => {
                return true;
            },
            _ => {},
        }
        k += 1;
    }
    false
}

/// Whether `out` is what the error `err`, found when a class was assigned
/// to the interface at `parent_span`, is reported as.
///
/// A failed assignment becomes a list of its causes, each wrapped as the
/// cause of a member that does not fit its interface. Missing members,
/// alone or in a list, become one diagnostic at the interface. Any other
/// error stays as it is.
pub open spec fn is_relabeled(err: ErrorKind, parent_span: Span, out: ErrorKind) -> bool {
    if code_of(err) == ASSIGN_FAILED {
        &&& out matches ErrorKind::Errors { span, errors }
        &&& span == err.span_spec()
        &&& match err {
            ErrorKind::Errors { errors: causes, .. } => {
                &&& errors@.len() == causes@.len()
                &&& forall|k: int|
                    0 <= k < causes@.len() ==> is_wrapped(causes@[k], #[trigger] errors@[k])
            },
            _ => errors@.len() == 1 && is_wrapped(err, errors@[0]),
        }
    } else if err is MissingFields || (err matches ErrorKind::Errors { errors, .. }
        && any_missing_fields(errors@)) {
        out == ErrorKind::Plain(
            Diagnostic { code: ErrorCode::ClassIncorrectlyImplementsInterface, span: parent_span },
        )
    } else {
        out == err
    }
}

/// Decides whether a class is held against the interfaces that it
/// implements: not the built-in library, not an abstract class, and not a
/// declaration without bodies.
pub fn report_errors_for_wrong_implementations_of_class(
    class: &ClassDef,
    is_builtin: bool,
    in_declare: bool,
) -> (checked: bool)
    ensures
        checked == (!is_builtin && !class.is_abstract && !in_declare),
{
    !is_builtin && !class.is_abstract && !in_declare
}

/// Turns the error found when a class was assigned to an interface that it
/// implements into the error that is reported.
pub fn relabel_implements_error(err: ErrorKind, parent_span: Span) -> (out: ErrorKind)
    ensures
        is_relabeled(err, parent_span, out),
{
    let span = err.span();
    if code(&err) == ASSIGN_FAILED {
        match err {
            ErrorKind::Errors { span: _, errors } => {
                let ghost all = errors@;
                let mut wrapped: Vec<ErrorKind> = Vec::new();
                for cause in it: errors.into_iter()
                    invariant
                        all == it.seq(),
                        wrapped@.len() == it.index(),
                        forall|k: int|
                            0 <= k < it.index() ==> is_wrapped(all[k], #[trigger] wrapped@[k]),
                {
                    wrapped.push(wrap_cause(cause));
                }
                ErrorKind::Errors { span, errors: wrapped }
            },
            other => {
                let mut wrapped: Vec<ErrorKind> = Vec::new();
                wrapped.push(wrap_cause(other));
                ErrorKind::Errors { span, errors: wrapped }
            },
        }
    } else {
        let missing = match &err {
            ErrorKind::Errors { errors, .. } => has_missing_fields(errors),
            ErrorKind::MissingFields { .. } => true,
            _ => false,
        };
        if missing {
            ErrorKind::Plain(
                Diagnostic {
                    code: ErrorCode::ClassIncorrectlyImplementsInterface,
                    span: parent_span,
                },
            )
        } else {
            err
        }
    }
}

// ---------------------------------------------------------------------
// Index signatures and constructor overloads
// ---------------------------------------------------------------------
/// How a property with a value type stands to the index signature of its
/// class, as the assignability check found it.
#[derive(Clone, Copy, Debug, PartialEq, Eq, Structural)]
pub struct PropertyFit {
    /// The position of the property's key.
    pub span: Span,
    /// Whether the type of the key is assignable to the key type of the
    /// index signature.
    pub key_fits: bool,
    /// Whether the type of the value is assignable to the value type of the
    /// index signature.
    pub value_fits: bool,
}

/// Whether the index signature speaks of the property: its key type is
/// `string`, or the key of the property fits its key type.
pub open spec fn is_indexed(index_key: TypeKind, fit: PropertyFit) -> bool {
    index_key == TypeKind::String || fit.key_fits
}

/// Whether entry `k` is the first property that the index signature speaks
/// of and whose value does not fit.
pub open spec fn is_first_misfit(index_key: TypeKind, fits: Seq<PropertyFit>, k: int) -> bool {
    &&& 0 <= k < fits.len()
    &&& is_indexed(index_key, fits[k]) && !fits[k].value_fits
    &&& forall|i: int|
        0 <= i < k ==> !(is_indexed(index_key, #[trigger] fits[i]) && !fits[i].value_fits)
}

/// The diagnostic for a property whose value does not fit the index
/// signature: by whether the signature is keyed by numbers.
pub open spec fn misfit_error(index_key: TypeKind, span: Span) -> Diagnostic {
    Diagnostic {
        code: if index_key == TypeKind::Number {
            ErrorCode::ClassMemberNotCompatibleWithNumericIndexSignature
        } else {
            ErrorCode::ClassMemberNotCompatibleWithStringIndexSignature
        },
        span,
    }
}

/// Holds the properties of a class against its index signature.
///
/// `index_key` is the key type of the signature and `has_value_type` says
/// whether the signature names a value type; one that names none admits
/// every value. `fits` lists the properties that have a value type, in
/// declaration order. The first property that the signature speaks of and
/// whose value does not fit is the error; there is none if all fit.
pub fn report_errors_for_class_member_incompatible_with_index_signature(
    index_key: TypeKind,
    has_value_type: bool,
    fits: &Vec<PropertyFit>,
) -> (result: Result<(), Diagnostic>)
    ensures
        match result {
            Ok(_) => !has_value_type || forall|k: int| !is_first_misfit(index_key, fits@, k),
            Err(e) => has_value_type && exists|k: int|
                is_first_misfit(index_key, fits@, k) && e == misfit_error(
                    index_key,
                    fits@[k].span,
                ),
        },
{
    if !has_value_type {
        return Ok(());
    }
    let keyed_by_string = index_key == TypeKind::String;
    let mut k: usize = 0;
    while k < fits.len()
        invariant
            k <= fits.len(),
            has_value_type,
            keyed_by_string == (index_key == TypeKind::String),
            forall|i: int|
                0 <= i < k ==> !(is_indexed(index_key, #[trigger] fits@[i])
                    && !fits@[i].value_fits),
        decreases fits.len() - k,
    {
        let fit = fits[k];
        if (keyed_by_string || fit.key_fits) && !fit.value_fits {
            assert(is_first_misfit(index_key, fits@, k as int));
            let code = if index_key == TypeKind::Number {
                ErrorCode::ClassMemberNotCompatibleWithNumericIndexSignature
            } else {
                ErrorCode::ClassMemberNotCompatibleWithStringIndexSignature
            };
            return Err(Diagnostic { code, span: fit.span });
        }
        k += 1;
    }
    Ok(())
}

/// Whether entry `k` is the first signature that does not fit the
/// implementation.
pub open spec fn is_first_wrong_overload(fits: Seq<Option<Span>>, k: int) -> bool {
    &&& 0 <= k < fits.len()
    &&& fits[k] is Some
    &&& forall|i: int| 0 <= i < k ==> (#[trigger] fits[i]) is None
}

/// Holds the constructor signatures of a class against the constructor
/// that has the body.
///
/// `has_implementation` says whether a constructor with a body exists.
/// `fits` holds, for each constructor signature in declaration order, the
/// position of the error that the assignability check found when it held
/// the signature against the implementation, if it found one. The first
/// such position is reported; without an implementation nothing is.
pub fn report_errors_for_wrong_constructor_overloads(
    has_implementation: bool,
    fits: &Vec<Option<Span>>,
) -> (result: Result<(), Diagnostic>)
    ensures
        match result {
            Ok(_) => !has_implementation || forall|k: int| !is_first_wrong_overload(fits@, k),
            Err(e) => has_implementation && exists|k: int|
                is_first_wrong_overload(fits@, k) && e == (Diagnostic {
                    code: ErrorCode::WrongOverloadSignature,
                    span: fits@[k]->0,
                }),
        },
{
    if !has_implementation {
        return Ok(());
    }
    let mut k: usize = 0;
    while k < fits.len()
        invariant
            k <= fits.len(),
            has_implementation,
            forall|i: int| 0 <= i < k ==> (#[trigger] fits@[i]) is None,
        decreases fits.len() - k,
    {
        match fits[k] {
            Some(span) => {
                assert(is_first_wrong_overload(fits@, k as int));
                return Err(Diagnostic { code: ErrorCode::WrongOverloadSignature, span });
            },
            None => {},
        }
        k += 1;
    }
    Ok(())
}

} // verus!
