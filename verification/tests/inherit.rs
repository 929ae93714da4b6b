use class_members::errors::Diagnostic;
use class_members::errors::ErrorCode;
use class_members::errors::ErrorKind;
use class_members::inherit::code;
use class_members::inherit::heritable_members;
use class_members::inherit::instantiate_class;
use class_members::inherit::judge_resolved_super_class;
use class_members::inherit::relabel_implements_error;
use class_members::inherit::report_error_for_wrong_super_class_inheritance;
use class_members::inherit::report_errors_for_class_member_incompatible_with_index_signature;
use class_members::inherit::report_errors_for_super_class_chain;
use class_members::inherit::report_errors_for_wrong_constructor_overloads;
use class_members::inherit::report_errors_for_wrong_implementations_of_class;
use class_members::inherit::validate_inherited_members_from_super_class;
use class_members::inherit::validate_super_class;
use class_members::inherit::Heritable;
use class_members::inherit::PropertyFit;
use class_members::inherit::SuperClassVerdict;
use class_members::inherit::SuperLink;
use class_members::syntax::Accessibility;
use class_members::syntax::Span;
use class_members::types::Accessor;
use class_members::types::ClassDef;
use class_members::types::ClassMember;
use class_members::types::ClassProperty;
use class_members::types::ConstructorSignature;
use class_members::types::Key;
use class_members::types::KeyKind;
use class_members::types::Method;
use class_members::types::Type;
use class_members::types::TypeKind;

fn sp(lo: u32) -> Span {
    Span { lo, hi: lo + 1 }
}

fn ty(kind: TypeKind, at: u32) -> Type {
    Type { id: 1, kind, span: sp(at), keeps_literals: false, widened: false }
}

fn key(text: &str, at: u32) -> Key {
    Key { kind: KeyKind::Normal, text: text.to_string(), span: sp(at) }
}

fn property(text: &str, at: u32) -> ClassProperty {
    ClassProperty {
        span: sp(at),
        key: key(text, at),
        value: Some(ty(TypeKind::Number, at)),
        is_static: false,
        accessibility: None,
        is_abstract: false,
        is_optional: false,
        readonly: false,
        definite: false,
        accessor: Accessor { getter: false, setter: false },
    }
}

fn method(text: &str, at: u32, is_abstract: bool) -> Method {
    Method {
        span: sp(at),
        key: key(text, at),
        accessibility: None,
        is_static: false,
        is_abstract,
        is_optional: false,
        has_type_params: false,
        params: vec![],
        ret_ty: ty(TypeKind::Void, at),
    }
}

fn class(body: Vec<ClassMember>, is_abstract: bool, super_class: Option<Type>) -> ClassDef {
    ClassDef {
        span: sp(100),
        name: Some("Base".to_string()),
        is_abstract,
        super_class,
        has_type_params: false,
        body,
        implements: vec![],
    }
}

fn plain(code: ErrorCode, at: u32) -> ErrorKind {
    ErrorKind::Plain(Diagnostic { code, span: sp(at) })
}

#[test]
fn members_are_read_for_inheritance() {
    let body = vec![
        ClassMember::Method(method("m", 1, false)),
        ClassMember::Constructor(ConstructorSignature {
            span: sp(2),
            accessibility: None,
            params: vec![],
            ret_ty: None,
            has_type_params: false,
        }),
        ClassMember::Property(property("p", 3)),
    ];
    assert_eq!(
        heritable_members(&body),
        vec![
            Heritable {
                is_method: true,
                key: key("m", 1),
                is_static: false,
                accessor: Accessor { getter: false, setter: false },
                accessibility: None,
            },
            Heritable {
                is_method: false,
                key: key("p", 3),
                is_static: false,
                accessor: Accessor { getter: false, setter: false },
                accessibility: None,
            },
        ]
    );
}

#[test]
fn missing_abstract_method_is_reported() {
    let own = heritable_members(&vec![ClassMember::Method(method("a", 1, false))]);
    let base = class(
        vec![
            ClassMember::Method(method("a", 10, true)),
            ClassMember::Method(method("b", 20, true)),
        ],
        true,
        None,
    );
    let found = report_error_for_wrong_super_class_inheritance(sp(5), &own, &base, sp(50));
    assert_eq!(found.clashes, vec![]);
    assert_eq!(
        found.lacks,
        vec![ErrorKind::ClassDoesNotImplementMember { span: sp(5), key: key("b", 20) }]
    );
    assert_eq!(found.next, None);
}

#[test]
fn optional_abstract_method_may_be_left_out() {
    let mut optional = method("a", 10, true);
    optional.is_optional = true;
    let base = class(vec![ClassMember::Method(optional)], true, None);
    let found = report_error_for_wrong_super_class_inheritance(sp(5), &vec![], &base, sp(50));
    assert_eq!(found.lacks, vec![]);
}

#[test]
fn property_does_not_stand_in_for_a_method() {
    let own = heritable_members(&vec![ClassMember::Property(property("a", 1))]);
    let base = class(vec![ClassMember::Method(method("a", 10, true))], true, None);
    let found = report_error_for_wrong_super_class_inheritance(sp(5), &own, &base, sp(50));
    assert_eq!(
        found.lacks,
        vec![ErrorKind::ClassDoesNotImplementMember { span: sp(5), key: key("a", 10) }]
    );
}

#[test]
fn accessor_redeclared_as_property_is_reported() {
    let own = heritable_members(&vec![ClassMember::Property(property("x", 1))]);
    let mut getter = property("x", 10);
    getter.accessor = Accessor { getter: true, setter: false };
    let base = class(vec![ClassMember::Property(getter)], false, None);
    let found = report_error_for_wrong_super_class_inheritance(sp(5), &own, &base, sp(50));
    assert_eq!(found.clashes, vec![plain(ErrorCode::DefinedWithAccessorInSuper, 1)]);
    assert_eq!(found.lacks, vec![]);
}

#[test]
fn private_property_made_public_is_reported_at_the_super_class() {
    let own = heritable_members(&vec![ClassMember::Property(property("x", 1))]);
    let mut hidden = property("x", 10);
    hidden.accessibility = Some(Accessibility::Private);
    let base = class(vec![ClassMember::Property(hidden)], false, None);
    let found = report_error_for_wrong_super_class_inheritance(sp(5), &own, &base, sp(50));
    assert_eq!(found.clashes, vec![plain(ErrorCode::PrivatePropertyIsDifferent, 50)]);
}

#[test]
fn only_the_first_property_of_a_key_is_held_against_the_super_class() {
    let mut first = property("x", 1);
    first.accessibility = Some(Accessibility::Private);
    let own = heritable_members(&vec![
        ClassMember::Property(first),
        ClassMember::Property(property("x", 2)),
    ]);
    let mut hidden = property("x", 10);
    hidden.accessibility = Some(Accessibility::Private);
    let base = class(vec![ClassMember::Property(hidden)], false, None);
    let found = report_error_for_wrong_super_class_inheritance(sp(5), &own, &base, sp(50));
    assert_eq!(found.clashes, vec![]);
}

#[test]
fn abstract_super_class_hands_its_concrete_methods_down() {
    let own = heritable_members(&vec![ClassMember::Method(method("a", 1, false))]);
    let base = class(
        vec![
            ClassMember::Method(method("a", 10, true)),
            ClassMember::Method(method("b", 20, false)),
            ClassMember::Property(property("p", 30)),
        ],
        true,
        Some(ty(TypeKind::Ref, 60)),
    );
    let found = report_error_for_wrong_super_class_inheritance(sp(5), &own, &base, sp(50));
    assert_eq!(found.lacks, vec![]);
    let next = found.next.unwrap();
    assert_eq!(next.len(), 2);
    assert_eq!(next[0].key, key("b", 20));
    assert!(next[0].is_method);
    assert_eq!(next[1].key, key("a", 1));
}

#[test]
fn concrete_super_class_ends_the_climb() {
    let base = class(vec![], false, Some(ty(TypeKind::Ref, 60)));
    let found = report_error_for_wrong_super_class_inheritance(sp(5), &vec![], &base, sp(50));
    assert_eq!(found.next, None);
}

#[test]
fn concrete_class_is_held_against_its_super_class() {
    let def = class(vec![], false, Some(ty(TypeKind::Ref, 60)));
    assert_eq!(
        validate_inherited_members_from_super_class(None, &def, false),
        Some((sp(100), ty(TypeKind::Ref, 60)))
    );
    assert_eq!(
        validate_inherited_members_from_super_class(Some(sp(7)), &def, false),
        Some((sp(7), ty(TypeKind::Ref, 60)))
    );
    assert_eq!(validate_inherited_members_from_super_class(None, &def, true), None);
    let abstract_def = class(vec![], true, Some(ty(TypeKind::Ref, 60)));
    assert_eq!(validate_inherited_members_from_super_class(None, &abstract_def, false), None);
    let alone = class(vec![], false, None);
    assert_eq!(validate_inherited_members_from_super_class(None, &alone, false), None);
}

#[test]
fn class_that_extends_itself_is_reported() {
    let this = "A".to_string();
    let other = "B".to_string();
    assert_eq!(
        validate_super_class(false, Some(&this), Some(&this), sp(9)),
        SuperClassVerdict::Report(Diagnostic {
            code: ErrorCode::SelfReferentialSuperClass,
            span: sp(9)
        })
    );
    assert_eq!(
        validate_super_class(false, Some(&this), Some(&other), sp(9)),
        SuperClassVerdict::Resolve
    );
    assert_eq!(validate_super_class(false, None, Some(&other), sp(9)), SuperClassVerdict::Resolve);
    assert_eq!(validate_super_class(true, Some(&this), Some(&this), sp(9)), SuperClassVerdict::Skip);
}

#[test]
fn function_type_is_no_super_class() {
    assert_eq!(
        judge_resolved_super_class(ty(TypeKind::Function, 4)),
        Some(Diagnostic { code: ErrorCode::NotConstructorType, span: sp(4) })
    );
    assert_eq!(judge_resolved_super_class(ty(TypeKind::ClassDef, 4)), None);
}

#[test]
fn class_as_a_value_is_instantiated() {
    let def = ty(TypeKind::ClassDef, 4);
    let instance = instantiate_class(sp(9), def);
    assert_eq!(instance.kind, TypeKind::Class);
    assert_eq!(instance.span, sp(9));
    assert_eq!(instance.id, def.id);
    assert_eq!(instantiate_class(sp(9), ty(TypeKind::Interface, 4)), ty(TypeKind::Interface, 4));
}

#[test]
fn abstract_classes_are_not_held_against_interfaces() {
    let concrete = class(vec![], false, None);
    let abstract_def = class(vec![], true, None);
    assert!(report_errors_for_wrong_implementations_of_class(&concrete, false, false));
    assert!(!report_errors_for_wrong_implementations_of_class(&concrete, true, false));
    assert!(!report_errors_for_wrong_implementations_of_class(&concrete, false, true));
    assert!(!report_errors_for_wrong_implementations_of_class(&abstract_def, false, false));
}

#[test]
fn code_of_an_error() {
    let failed = ErrorKind::AssignFailed { span: sp(1), left: sp(2), right_ident: None };
    assert_eq!(code(&failed), 2322);
    assert_eq!(code(&ErrorKind::MissingFields { span: sp(1) }), 2741);
    assert_eq!(code(&ErrorKind::Other { code: 2300, span: sp(1) }), 2300);
    assert_eq!(code(&ErrorKind::Errors { span: sp(1), errors: vec![] }), 0);
    assert_eq!(code(&ErrorKind::Errors { span: sp(1), errors: vec![failed] }), 2322);
    assert_eq!(code(&plain(ErrorCode::TS1166, 1)), 0);
}

#[test]
fn failed_assignment_is_relabeled_as_invalid_implementation() {
    let err = ErrorKind::AssignFailed { span: sp(1), left: sp(2), right_ident: Some(sp(3)) };
    assert_eq!(
        relabel_implements_error(err, sp(40)),
        ErrorKind::Errors {
            span: sp(1),
            errors: vec![ErrorKind::InvalidImplOfInterface {
                span: sp(3),
                cause: Box::new(ErrorKind::AssignFailed {
                    span: sp(1),
                    left: sp(2),
                    right_ident: Some(sp(3))
                }),
            }],
        }
    );
}

#[test]
fn causes_of_a_failed_assignment_are_wrapped_one_by_one() {
    let first = ErrorKind::AssignFailed { span: sp(1), left: sp(2), right_ident: None };
    let second = ErrorKind::Other { code: 2300, span: sp(5) };
    let nested = ErrorKind::Errors {
        span: sp(6),
        errors: vec![ErrorKind::MissingFields { span: sp(7) }],
    };
    let err = ErrorKind::Errors { span: sp(9), errors: vec![first, second, nested] };
    assert_eq!(
        relabel_implements_error(err, sp(40)),
        ErrorKind::Errors {
            span: sp(9),
            errors: vec![
                ErrorKind::InvalidImplOfInterface {
                    span: sp(2),
                    cause: Box::new(ErrorKind::AssignFailed {
                        span: sp(1),
                        left: sp(2),
                        right_ident: None
                    }),
                },
                ErrorKind::InvalidImplOfInterface {
                    span: sp(5),
                    cause: Box::new(ErrorKind::Other { code: 2300, span: sp(5) }),
                },
                ErrorKind::Errors {
                    span: sp(6),
                    errors: vec![ErrorKind::InvalidImplOfInterface {
                        span: sp(7),
                        cause: Box::new(ErrorKind::MissingFields { span: sp(7) }),
                    }],
                },
            ],
        }
    );
}

#[test]
fn missing_fields_are_relabeled_at_the_interface() {
    assert_eq!(
        relabel_implements_error(ErrorKind::MissingFields { span: sp(1) }, sp(40)),
        plain(ErrorCode::ClassIncorrectlyImplementsInterface, 40)
    );
    let listed = ErrorKind::Errors {
        span: sp(2),
        errors: vec![
            ErrorKind::Other { code: 2300, span: sp(3) },
            ErrorKind::MissingFields { span: sp(4) },
        ],
    };
    assert_eq!(
        relabel_implements_error(listed, sp(40)),
        plain(ErrorCode::ClassIncorrectlyImplementsInterface, 40)
    );
}

#[test]
fn other_errors_are_not_relabeled() {
    assert_eq!(
        relabel_implements_error(ErrorKind::Other { code: 2300, span: sp(1) }, sp(40)),
        ErrorKind::Other { code: 2300, span: sp(1) }
    );
    let listed = ErrorKind::Errors {
        span: sp(2),
        errors: vec![ErrorKind::Other { code: 2300, span: sp(3) }],
    };
    assert_eq!(
        relabel_implements_error(listed, sp(40)),
        ErrorKind::Errors {
            span: sp(2),
            errors: vec![ErrorKind::Other { code: 2300, span: sp(3) }]
        }
    );
}

fn fit(at: u32, key_fits: bool, value_fits: bool) -> PropertyFit {
    PropertyFit { span: sp(at), key_fits, value_fits }
}

#[test]
fn property_that_does_not_fit_a_string_index_is_reported() {
    let fits = vec![fit(1, false, true), fit(2, false, false), fit(3, true, false)];
    assert_eq!(
        report_errors_for_class_member_incompatible_with_index_signature(
            TypeKind::String,
            true,
            &fits
        ),
        Err(Diagnostic {
            code: ErrorCode::ClassMemberNotCompatibleWithStringIndexSignature,
            span: sp(2)
        })
    );
}

#[test]
fn numeric_index_speaks_of_fitting_keys_only() {
    let fits = vec![fit(1, false, false), fit(2, true, false)];
    assert_eq!(
        report_errors_for_class_member_incompatible_with_index_signature(
            TypeKind::Number,
            true,
            &fits
        ),
        Err(Diagnostic {
            code: ErrorCode::ClassMemberNotCompatibleWithNumericIndexSignature,
            span: sp(2)
        })
    );
}

#[test]
fn index_signature_without_value_type_admits_everything() {
    let fits = vec![fit(1, true, false)];
    assert_eq!(
        report_errors_for_class_member_incompatible_with_index_signature(
            TypeKind::String,
            false,
            &fits
        ),
        Ok(())
    );
    assert_eq!(
        report_errors_for_class_member_incompatible_with_index_signature(
            TypeKind::String,
            true,
            &vec![fit(1, true, true)]
        ),
        Ok(())
    );
}

#[test]
fn first_wrong_constructor_overload_is_reported() {
    let fits = vec![None, Some(sp(8)), Some(sp(9))];
    assert_eq!(
        report_errors_for_wrong_constructor_overloads(true, &fits),
        Err(Diagnostic { code: ErrorCode::WrongOverloadSignature, span: sp(8) })
    );
    assert_eq!(report_errors_for_wrong_constructor_overloads(false, &fits), Ok(()));
    assert_eq!(report_errors_for_wrong_constructor_overloads(true, &vec![None, None]), Ok(()));
}

fn lack(text: &str, at: u32) -> ErrorKind {
    ErrorKind::ClassDoesNotImplementMember { span: sp(5), key: key(text, at) }
}

#[test]
fn chain_of_abstract_classes_is_followed_to_its_end() {
    // class C extends B { x; }   abstract class B extends A { abstract b(); a() {} get x() }
    // abstract class A { abstract a(); abstract c(); }
    let own = heritable_members(&vec![ClassMember::Property(property("x", 1))]);
    let mut getter = property("x", 10);
    getter.accessor = Accessor { getter: true, setter: false };
    let b = class(
        vec![
            ClassMember::Method(method("b", 11, true)),
            ClassMember::Method(method("a", 12, false)),
            ClassMember::Property(getter),
        ],
        true,
        Some(ty(TypeKind::Ref, 60)),
    );
    let a = class(
        vec![
            ClassMember::Method(method("a", 21, true)),
            ClassMember::Method(method("c", 22, true)),
        ],
        true,
        None,
    );
    let chain = vec![
        SuperLink::Class { def: b, span: sp(50) },
        SuperLink::Class { def: a, span: sp(60) },
        SuperLink::Failed(ErrorKind::Other { code: 1, span: sp(70) }),
    ];
    assert_eq!(
        report_errors_for_super_class_chain(sp(5), own, chain),
        vec![plain(ErrorCode::DefinedWithAccessorInSuper, 1), lack("c", 22), lack("b", 11)]
    );
}

#[test]
fn chain_ends_at_a_class_that_is_not_abstract() {
    let base = class(vec![], false, Some(ty(TypeKind::Ref, 60)));
    let above = class(vec![ClassMember::Method(method("a", 21, true))], true, None);
    let chain = vec![
        SuperLink::Class { def: base, span: sp(50) },
        SuperLink::Class { def: above, span: sp(60) },
    ];
    assert_eq!(report_errors_for_super_class_chain(sp(5), vec![], chain), vec![]);
}

#[test]
fn unresolved_super_class_is_reported_between_the_findings() {
    let base = class(
        vec![ClassMember::Method(method("a", 21, true))],
        true,
        Some(ty(TypeKind::Ref, 60)),
    );
    let chain = vec![
        SuperLink::Class { def: base, span: sp(50) },
        SuperLink::Failed(ErrorKind::Other { code: 2304, span: sp(60) }),
    ];
    assert_eq!(
        report_errors_for_super_class_chain(sp(5), vec![], chain),
        vec![ErrorKind::Other { code: 2304, span: sp(60) }, lack("a", 21)]
    );
    assert_eq!(
        report_errors_for_super_class_chain(sp(5), vec![], vec![SuperLink::NotAClass]),
        vec![]
    );
    assert_eq!(report_errors_for_super_class_chain(sp(5), vec![], vec![]), vec![]);
}
