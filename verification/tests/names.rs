use class_members::errors::Diagnostic;
use class_members::errors::ErrorCode;
use class_members::errors::ErrorKind;
use class_members::syntax::NameKind;
use class_members::syntax::PrivateName;
use class_members::syntax::PropName;
use class_members::syntax::Span;
use class_members::types::Accessor;
use class_members::types::ClassMember;
use class_members::types::ClassProperty;
use class_members::types::ConstructorSignature;
use class_members::types::Key;
use class_members::types::KeyKind;

fn sp(lo: u32) -> Span {
    Span { lo, hi: lo + 1 }
}

fn name(kind: NameKind, text: &str, optional: bool, at: u32) -> PropName {
    PropName { kind, text: text.to_string(), optional, span: sp(at) }
}

#[test]
fn names_written_alike_ignore_positions() {
    let a = name(NameKind::Ident, "foo", false, 1);
    assert!(a.is_same_written(&name(NameKind::Ident, "foo", false, 9)));
    assert!(!a.is_same_written(&name(NameKind::Str, "foo", false, 1)));
    assert!(!a.is_same_written(&name(NameKind::Ident, "foo", true, 1)));
    assert!(!a.is_same_written(&name(NameKind::Ident, "bar", false, 1)));
}

#[test]
fn names_denote_the_same_member_by_text() {
    let a = name(NameKind::Ident, "1", false, 1);
    assert!(a.is_same_name(&name(NameKind::Num, "1", false, 9)));
    assert!(a.is_same_name(&name(NameKind::Str, "1", false, 9)));
    assert!(a.is_same_name(&name(NameKind::Ident, "1", true, 9)));
    assert!(!a.is_same_name(&name(NameKind::Ident, "2", false, 9)));
    assert!(!a.is_same_name(&name(NameKind::Computed, "1", false, 9)));
    assert!(!name(NameKind::Computed, "1", false, 1).is_same_name(&a));
}

#[test]
fn computed_names_are_compared_as_written() {
    let a = name(NameKind::Computed, "a.b", false, 1);
    assert!(a.is_same_name_or_computation(&name(NameKind::Computed, "a.b", false, 9)));
    assert!(!a.is_same_name_or_computation(&name(NameKind::Computed, "a.c", false, 9)));
    assert!(!a.is_same_name_or_computation(&name(NameKind::Ident, "a.b", false, 9)));
    let foo = name(NameKind::Ident, "foo", false, 1);
    assert!(foo.is_same_name_or_computation(&name(NameKind::Str, "foo", false, 9)));
}

#[test]
fn only_identifiers_can_be_optional() {
    assert!(name(NameKind::Ident, "foo", true, 1).is_key_optional());
    assert!(!name(NameKind::Ident, "foo", false, 1).is_key_optional());
    assert!(!name(NameKind::Str, "foo", true, 1).is_key_optional());
}

#[test]
fn private_names_are_compared_by_text() {
    let a = PrivateName { text: "x".to_string(), span: sp(1) };
    assert!(a.is_same_name(&PrivateName { text: "x".to_string(), span: sp(9) }));
    assert!(!a.is_same_name(&PrivateName { text: "y".to_string(), span: sp(1) }));
}

#[test]
fn every_error_has_a_position() {
    let errors = vec![
        (ErrorKind::Plain(Diagnostic { code: ErrorCode::TS1016, span: sp(1) }), sp(1)),
        (
            ErrorKind::ClassDoesNotImplementMember {
                span: sp(2),
                key: Key { kind: KeyKind::Normal, text: "a".to_string(), span: sp(20) },
            },
            sp(2),
        ),
        (ErrorKind::MissingFields { span: sp(3) }, sp(3)),
        (ErrorKind::AssignFailed { span: sp(4), left: sp(40), right_ident: Some(sp(41)) }, sp(4)),
        (
            ErrorKind::InvalidImplOfInterface {
                span: sp(5),
                cause: Box::new(ErrorKind::MissingFields { span: sp(50) }),
            },
            sp(5),
        ),
        (ErrorKind::Errors { span: sp(6), errors: vec![] }, sp(6)),
        (ErrorKind::Other { code: 2300, span: sp(7) }, sp(7)),
    ];
    for (error, span) in errors {
        assert_eq!(error.span(), span);
    }
}

#[test]
fn methods_and_properties_have_keys() {
    let key = Key { kind: KeyKind::Normal, text: "x".to_string(), span: sp(1) };
    let property = ClassMember::Property(ClassProperty {
        span: sp(0),
        key: key.clone(),
        value: None,
        is_static: false,
        accessibility: None,
        is_abstract: false,
        is_optional: false,
        readonly: false,
        definite: false,
        accessor: Accessor { getter: false, setter: false },
    });
    assert_eq!(property.key(), Some(&key));
    let constructor = ClassMember::Constructor(ConstructorSignature {
        span: sp(0),
        accessibility: None,
        params: vec![],
        ret_ty: None,
        has_type_params: false,
    });
    assert_eq!(constructor.key(), None);
}
