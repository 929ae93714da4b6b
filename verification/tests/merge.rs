use class_members::merge::combine_class_properties;
use class_members::syntax::Span;
use class_members::types::Accessor;
use class_members::types::ClassMember;
use class_members::types::ClassProperty;
use class_members::types::Key;
use class_members::types::KeyKind;
use class_members::types::Method;
use class_members::types::Type;
use class_members::types::TypeKind;

fn sp(lo: u32) -> Span {
    Span { lo, hi: lo + 1 }
}

fn number(at: u32) -> Type {
    Type { id: 7, kind: TypeKind::Number, span: sp(at), keeps_literals: false, widened: false }
}

fn key(text: &str, at: u32) -> Key {
    Key { kind: KeyKind::Normal, text: text.to_string(), span: sp(at) }
}

fn property(text: &str, at: u32, getter: bool, setter: bool) -> ClassProperty {
    ClassProperty {
        span: sp(at),
        key: key(text, at),
        value: Some(number(at)),
        is_static: false,
        accessibility: None,
        is_abstract: false,
        is_optional: false,
        readonly: false,
        definite: false,
        accessor: Accessor { getter, setter },
    }
}

fn method(text: &str, at: u32) -> ClassMember {
    ClassMember::Method(Method {
        span: sp(at),
        key: key(text, at),
        accessibility: None,
        is_static: false,
        is_abstract: false,
        is_optional: false,
        has_type_params: false,
        params: vec![],
        ret_ty: number(at),
    })
}

#[test]
fn getter_and_setter_are_merged_into_the_getter() {
    let body = vec![
        (0, ClassMember::Property(property("x", 10, true, false))),
        (1, ClassMember::Property(property("x", 20, false, true))),
    ];
    assert_eq!(
        combine_class_properties(body),
        vec![(0, ClassMember::Property(property("x", 10, true, true)))]
    );
}

#[test]
fn setter_before_getter_is_merged_too() {
    let body = vec![
        (0, ClassMember::Property(property("x", 10, false, true))),
        (1, ClassMember::Property(property("x", 20, true, false))),
    ];
    assert_eq!(
        combine_class_properties(body),
        vec![(1, ClassMember::Property(property("x", 20, true, true)))]
    );
}

#[test]
fn lone_getter_stays_a_getter() {
    let body = vec![(0, ClassMember::Property(property("x", 10, true, false)))];
    assert_eq!(
        combine_class_properties(body),
        vec![(0, ClassMember::Property(property("x", 10, true, false)))]
    );
}

#[test]
fn lone_setter_stays_a_setter() {
    let body = vec![
        (0, ClassMember::Property(property("x", 10, false, true))),
        (1, ClassMember::Property(property("y", 20, true, false))),
    ];
    assert_eq!(
        combine_class_properties(body),
        vec![
            (0, ClassMember::Property(property("x", 10, false, true))),
            (1, ClassMember::Property(property("y", 20, true, false))),
        ]
    );
}

#[test]
fn body_without_accessors_is_unchanged() {
    let body = vec![
        (2, method("m", 10)),
        (0, ClassMember::Property(property("x", 20, false, false))),
    ];
    assert_eq!(
        combine_class_properties(body),
        vec![
            (2, method("m", 10)),
            (0, ClassMember::Property(property("x", 20, false, false))),
        ]
    );
}

#[test]
fn keys_of_different_kind_are_not_merged() {
    let mut private = property("x", 20, false, true);
    private.key.kind = KeyKind::Private;
    let body = vec![
        (0, ClassMember::Property(property("x", 10, true, false))),
        (1, ClassMember::Property(private.clone())),
    ];
    assert_eq!(
        combine_class_properties(body),
        vec![
            (0, ClassMember::Property(property("x", 10, true, false))),
            (1, ClassMember::Property(private)),
        ]
    );
}

#[test]
fn other_members_keep_their_places_around_a_merge() {
    let body = vec![
        (3, method("a", 1)),
        (0, ClassMember::Property(property("x", 10, false, true))),
        (4, method("b", 2)),
        (1, ClassMember::Property(property("x", 20, true, false))),
        (5, method("c", 3)),
    ];
    assert_eq!(
        combine_class_properties(body),
        vec![
            (3, method("a", 1)),
            (4, method("b", 2)),
            (1, ClassMember::Property(property("x", 20, true, true))),
            (5, method("c", 3)),
        ]
    );
}
