use class_members::class::additional_member;
use class_members::class::additional_members;
use class_members::class::assemble_class;
use class_members::class::check_class_name;
use class_members::class::check_super_class_kind;
use class_members::class::constructor_overloads;
use class_members::class::generalize;
use class_members::class::mixin_base;
use class_members::class::parameter_property;
use class_members::class::parameter_property_type;
use class_members::class::plan;
use class_members::class::private_constructor_errors;
use class_members::class::relabel_super_class_error;
use class_members::class::report_errors_for_constructors;
use class_members::class::resolve_parent_interfaces;
use class_members::class::scheduled_members;
use class_members::class::validate_class_shape;
use class_members::class::visit_class_decl_inner;
use class_members::class::ClassBody;
use class_members::class::MixinBase;
use class_members::class::ModuleConfig;
use class_members::class::Phase;
use class_members::class::Step;
use class_members::errors::Diagnostic;
use class_members::errors::ErrorCode;
use class_members::errors::ErrorKind;
use class_members::syntax::Accessibility;
use class_members::syntax::AutoAccessorNode;
use class_members::syntax::ClassNode;
use class_members::syntax::ClassPropNode;
use class_members::syntax::ConstructorNode;
use class_members::syntax::IndexSignatureNode;
use class_members::syntax::KeyNode;
use class_members::syntax::MemberNode;
use class_members::syntax::MethodKind;
use class_members::syntax::MethodNode;
use class_members::syntax::NameKind;
use class_members::syntax::ParamNode;
use class_members::syntax::ParamOrParamProp;
use class_members::syntax::ParamPropNode;
use class_members::syntax::PatKind;
use class_members::syntax::PrivateName;
use class_members::syntax::PrivatePropNode;
use class_members::syntax::PropName;
use class_members::syntax::Span;
use class_members::types::Accessor;
use class_members::types::ClassDef;
use class_members::types::ClassMember;
use class_members::types::ClassProperty;
use class_members::types::ConstructorSignature;
use class_members::types::Key;
use class_members::types::KeyKind;
use class_members::types::Type;
use class_members::types::TypeKind;

fn sp(lo: u32) -> Span {
    Span { lo, hi: lo + 1 }
}

fn ty(kind: TypeKind, at: u32) -> Type {
    Type { id: 3, kind, span: sp(at), keeps_literals: false, widened: false }
}

fn name(text: &str, at: u32) -> PropName {
    PropName { kind: NameKind::Ident, text: text.to_string(), optional: false, span: sp(at) }
}

fn diag(code: ErrorCode, at: u32) -> Diagnostic {
    Diagnostic { code, span: sp(at) }
}

fn method(text: &str, at: u32, has_body: bool) -> MemberNode {
    MemberNode::Method(MethodNode {
        span: sp(at),
        key: name(text, at),
        kind: MethodKind::Method,
        params: vec![],
        has_body,
        has_type_params: false,
        has_return_type: false,
        is_static: false,
        is_abstract: false,
        is_optional: false,
        is_override: false,
        accessibility: None,
    })
}

fn prop(text: &str, at: u32, is_static: bool) -> MemberNode {
    MemberNode::ClassProp(ClassPropNode {
        span: sp(at),
        key: name(text, at),
        has_value: false,
        has_type_ann: true,
        is_static,
        is_abstract: false,
        is_optional: false,
        readonly: false,
        definite: false,
        accessibility: None,
    })
}

fn private_prop(text: &str, at: u32, is_static: bool) -> MemberNode {
    MemberNode::PrivateProp(PrivatePropNode {
        span: sp(at),
        key: PrivateName { text: text.to_string(), span: sp(at) },
        has_value: false,
        has_type_ann: true,
        is_static,
        is_optional: false,
        readonly: false,
        definite: false,
        accessibility: None,
    })
}

fn auto_accessor(text: &str, at: u32, is_static: bool) -> MemberNode {
    MemberNode::AutoAccessor(AutoAccessorNode {
        span: sp(at),
        key: KeyNode::Public(name(text, at)),
        has_value: false,
        has_type_ann: true,
        is_static,
        accessibility: None,
    })
}

fn index_signature(at: u32) -> MemberNode {
    MemberNode::TsIndexSignature(IndexSignatureNode { span: sp(at), is_static: false, readonly: false })
}

fn param(at: u32) -> ParamOrParamProp {
    ParamOrParamProp::Param(ParamNode { span: sp(at), pat: PatKind::Ident, optional: false })
}

fn param_prop_node(text: &str, at: u32, accessibility: Option<Accessibility>) -> ParamPropNode {
    ParamPropNode {
        span: sp(at),
        pat: PatKind::Ident,
        name: text.to_string(),
        name_span: sp(at + 1),
        optional: false,
        accessibility,
        readonly: false,
    }
}

fn param_prop(text: &str, at: u32, accessibility: Option<Accessibility>) -> ParamOrParamProp {
    ParamOrParamProp::ParamProp(param_prop_node(text, at, accessibility))
}

fn constructor(at: u32, has_body: bool, params: Vec<ParamOrParamProp>) -> MemberNode {
    MemberNode::Constructor(ConstructorNode {
        span: sp(at),
        key: name("constructor", at),
        params,
        has_body,
        accessibility: None,
    })
}

fn class_node(body: Vec<MemberNode>) -> ClassNode {
    ClassNode { span: sp(0), body, is_abstract: false, has_super_class: false }
}

fn key(text: &str, at: u32) -> Key {
    Key { kind: KeyKind::Normal, text: text.to_string(), span: sp(at) }
}

fn property(text: &str, at: u32, is_static: bool) -> ClassProperty {
    ClassProperty {
        span: sp(at),
        key: key(text, at),
        value: Some(ty(TypeKind::Lit, at)),
        is_static,
        accessibility: None,
        is_abstract: false,
        is_optional: false,
        readonly: false,
        definite: false,
        accessor: Accessor { getter: false, setter: false },
    }
}

// ----------------------------------------------------------------- class name

#[test]
fn names_of_built_in_types_are_no_class_names() {
    for word in ["any", "void", "never", "string", "number", "boolean", "null", "undefined", "symbol"] {
        assert_eq!(
            check_class_name(&word.to_string(), sp(3), false, ModuleConfig::Es6, false),
            Some(diag(ErrorCode::InvalidClassName, 3))
        );
    }
    assert_eq!(check_class_name(&"Any".to_string(), sp(3), true, ModuleConfig::CommonJs, false), None);
    assert_eq!(check_class_name(&"object".to_string(), sp(3), true, ModuleConfig::CommonJs, false), None);
}

#[test]
fn class_named_object_collides_with_module_helpers() {
    let object = "Object".to_string();
    let collision = Some(diag(ErrorCode::ClassNameCannotBeObjectWhenTargetingEs5WithModule, 3));
    for module in [ModuleConfig::CommonJs, ModuleConfig::Umd, ModuleConfig::Amd, ModuleConfig::System] {
        assert_eq!(check_class_name(&object, sp(3), true, module, false), collision);
        assert_eq!(check_class_name(&object, sp(3), true, module, true), collision);
        assert_eq!(check_class_name(&object, sp(3), false, module, false), None);
    }
    assert_eq!(check_class_name(&object, sp(3), true, ModuleConfig::Script, false), collision);
    assert_eq!(check_class_name(&object, sp(3), true, ModuleConfig::Script, true), None);
    assert_eq!(check_class_name(&object, sp(3), true, ModuleConfig::Es6, false), None);
    assert_eq!(check_class_name(&object, sp(3), true, ModuleConfig::NodeNext, false), None);
}

// ---------------------------------------------------------------- super class

#[test]
fn primitive_types_are_no_super_classes() {
    for kind in [TypeKind::Lit, TypeKind::String, TypeKind::Number, TypeKind::Boolean] {
        assert_eq!(check_super_class_kind(ty(kind, 5)), Some(diag(ErrorCode::InvalidSuperClass, 5)));
    }
    for kind in [TypeKind::ClassDef, TypeKind::Any, TypeKind::Null, TypeKind::Intersection] {
        assert_eq!(check_super_class_kind(ty(kind, 5)), None);
    }
}

#[test]
fn type_used_as_super_class_is_relabeled() {
    assert_eq!(
        relabel_super_class_error(ErrorKind::Plain(diag(ErrorCode::TypeUsedAsVar, 4))),
        ErrorKind::Plain(diag(ErrorCode::CannotExtendTypeOnlyItem, 4))
    );
    assert_eq!(
        relabel_super_class_error(ErrorKind::Plain(diag(ErrorCode::TypeNotFound, 4))),
        ErrorKind::Plain(diag(ErrorCode::TypeNotFound, 4))
    );
    assert_eq!(
        relabel_super_class_error(ErrorKind::MissingFields { span: sp(4) }),
        ErrorKind::MissingFields { span: sp(4) }
    );
}

#[test]
fn unresolved_parent_of_an_interface_is_not_extendable() {
    let not_found = || ErrorKind::Plain(diag(ErrorCode::TypeNotFound, 4));
    assert_eq!(
        resolve_parent_interfaces(not_found(), true, false),
        Some(ErrorKind::Plain(diag(ErrorCode::NotExtendableType, 4)))
    );
    assert_eq!(resolve_parent_interfaces(not_found(), false, false), Some(not_found()));
    assert_eq!(resolve_parent_interfaces(not_found(), true, true), None);
    assert_eq!(
        resolve_parent_interfaces(ErrorKind::Other { code: 1, span: sp(2) }, true, false),
        Some(ErrorKind::Other { code: 1, span: sp(2) })
    );
}

fn constructor_member(accessibility: Option<Accessibility>) -> ClassMember {
    ClassMember::Constructor(ConstructorSignature {
        span: sp(1),
        accessibility,
        params: vec![],
        ret_ty: None,
        has_type_params: false,
    })
}

#[test]
fn private_constructor_of_the_super_class_is_reported() {
    let base = ClassDef {
        span: sp(70),
        name: None,
        is_abstract: false,
        super_class: None,
        has_type_params: false,
        body: vec![
            constructor_member(Some(Accessibility::Private)),
            constructor_member(Some(Accessibility::Protected)),
            ClassMember::Property(property("x", 3, false)),
            constructor_member(Some(Accessibility::Private)),
        ],
        implements: vec![],
    };
    assert_eq!(
        private_constructor_errors(&base),
        vec![
            diag(ErrorCode::InvalidExtendDueToConstructorPrivate, 70),
            diag(ErrorCode::InvalidExtendDueToConstructorPrivate, 70)
        ]
    );
}

#[test]
fn intersection_super_class_gets_a_stand_in() {
    let class_name = "Point".to_string();
    let operands = vec![ty(TypeKind::Interface, 1), ty(TypeKind::Class, 2)];
    assert_eq!(
        mixin_base(Some(&class_name), ty(TypeKind::Intersection, 9), &operands, false),
        Some(MixinBase { name: "Point_base".to_string(), is_value: true })
    );
    assert_eq!(
        mixin_base(None, ty(TypeKind::Intersection, 9), &vec![ty(TypeKind::Interface, 1)], false),
        Some(MixinBase { name: "__class_base".to_string(), is_value: false })
    );
    assert_eq!(mixin_base(Some(&class_name), ty(TypeKind::Intersection, 9), &operands, true), None);
    assert_eq!(mixin_base(Some(&class_name), ty(TypeKind::ClassDef, 9), &operands, false), None);
}

#[test]
fn failed_class_stands_for_any() {
    assert_eq!(visit_class_decl_inner(Ok(ty(TypeKind::ClassDef, 4)), sp(9)), (ty(TypeKind::ClassDef, 4), None));
    assert_eq!(
        visit_class_decl_inner(Err(ErrorKind::MissingFields { span: sp(1) }), sp(9)),
        (
            Type { id: 0, kind: TypeKind::Any, span: sp(9), keeps_literals: false, widened: false },
            Some(ErrorKind::MissingFields { span: sp(1) })
        )
    );
}

// --------------------------------------------------------------- constructors

#[test]
fn one_constructor_with_a_body_is_fine() {
    let body = vec![constructor(1, false, vec![]), constructor(2, true, vec![])];
    assert_eq!(report_errors_for_constructors(&body), vec![]);
}

#[test]
fn two_constructors_with_bodies_are_both_reported() {
    let body = vec![
        constructor(1, true, vec![]),
        method("m", 2, true),
        constructor(3, true, vec![]),
    ];
    assert_eq!(
        report_errors_for_constructors(&body),
        vec![diag(ErrorCode::DuplicateConstructor, 1), diag(ErrorCode::DuplicateConstructor, 3)]
    );
}

#[test]
fn parameter_property_in_a_signature_is_reported() {
    let body = vec![
        constructor(1, false, vec![param(2), param_prop("a", 3, None), param_prop("b", 5, None)]),
        constructor(10, true, vec![param_prop("c", 11, None)]),
    ];
    assert_eq!(
        report_errors_for_constructors(&body),
        vec![
            diag(ErrorCode::ParamPropIsNotAllowedInAmbientConstructor, 3),
            diag(ErrorCode::ParamPropIsNotAllowedInAmbientConstructor, 5)
        ]
    );
}

#[test]
fn duplicate_constructors_come_before_parameter_properties() {
    let body = vec![
        constructor(1, false, vec![param_prop("a", 3, None)]),
        constructor(10, true, vec![]),
        constructor(20, true, vec![]),
    ];
    assert_eq!(
        report_errors_for_constructors(&body),
        vec![
            diag(ErrorCode::DuplicateConstructor, 10),
            diag(ErrorCode::DuplicateConstructor, 20),
            diag(ErrorCode::ParamPropIsNotAllowedInAmbientConstructor, 3)
        ]
    );
}

#[test]
fn signatures_are_told_from_the_implementation() {
    let body = vec![
        constructor(1, false, vec![]),
        method("m", 2, true),
        constructor(3, true, vec![]),
        constructor(4, false, vec![]),
    ];
    let found = constructor_overloads(&body);
    assert_eq!(found.signatures, vec![0, 3]);
    assert_eq!(found.implementation, Some(2));
    let none = constructor_overloads(&vec![constructor(1, false, vec![])]);
    assert_eq!(none.signatures, vec![0]);
    assert_eq!(none.implementation, None);
}

// ----------------------------------------------------------------------- plan

#[test]
fn members_are_resolved_in_the_order_of_the_phases() {
    let body = vec![
        method("m", 0, true),                                          // 0
        prop("a", 1, false),                                           // 1
        constructor(2, true, vec![param(3), param_prop("p", 4, None)]), // 2
        prop("s", 5, true),                                            // 3
        index_signature(6),                                            // 4
        private_prop("q", 7, true),                                    // 5
        MemberNode::StaticBlock,                                       // 6
        auto_accessor("acc", 8, false),                                // 7
        MemberNode::Empty,                                             // 8
    ];
    assert_eq!(
        plan(&body),
        vec![
            Step::Member { index: 4, phase: Phase::IndexSignatures },
            Step::Member { index: 3, phase: Phase::StaticProperties },
            Step::Member { index: 5, phase: Phase::StaticProperties },
            Step::ParamProp { index: 2, param: 1 },
            Step::Member { index: 1, phase: Phase::InstanceProperties },
            Step::Member { index: 7, phase: Phase::InstanceProperties },
            Step::Member { index: 2, phase: Phase::Constructors },
        ]
    );
    assert_eq!(scheduled_members(&body), vec![0, 6, 8]);
}

#[test]
fn empty_class_has_nothing_to_resolve() {
    assert_eq!(plan(&vec![]), vec![]);
    assert_eq!(scheduled_members(&vec![]), Vec::<usize>::new());
}

// ------------------------------------------------------- parameter properties

#[test]
fn parameter_property_becomes_an_instance_property() {
    let mut node = param_prop_node("x", 10, Some(Accessibility::Protected));
    node.readonly = true;
    assert_eq!(
        parameter_property(&node, Some(ty(TypeKind::Number, 12))),
        ClassProperty {
            span: sp(10),
            key: key("x", 11),
            value: Some(ty(TypeKind::Number, 12)),
            is_static: false,
            accessibility: Some(Accessibility::Protected),
            is_abstract: false,
            is_optional: false,
            readonly: true,
            definite: false,
            accessor: Accessor { getter: false, setter: false },
        }
    );
}

#[test]
fn type_of_a_parameter_property() {
    let declared = ty(TypeKind::Number, 1);
    let value = ty(TypeKind::Lit, 2);
    assert_eq!(parameter_property_type(PatKind::Ident, Some(declared), None), Some(declared));
    assert_eq!(parameter_property_type(PatKind::Ident, None, Some(value)), None);
    assert_eq!(parameter_property_type(PatKind::Assign, Some(declared), Some(value)), Some(declared));
    assert_eq!(
        parameter_property_type(PatKind::Assign, None, Some(value)),
        Some(Type { widened: true, ..value })
    );
    assert_eq!(parameter_property_type(PatKind::Assign, None, None), None);
}

#[test]
fn widening_respects_kept_literals() {
    let plain = ty(TypeKind::Lit, 1);
    assert_eq!(generalize(plain), Type { widened: true, ..plain });
    let kept = Type { keeps_literals: true, ..plain };
    assert_eq!(generalize(kept), kept);
}

#[test]
fn private_parameter_property_is_shown_as_a_bare_property() {
    let mut node = param_prop_node("x", 10, Some(Accessibility::Private));
    node.pat = PatKind::Assign;
    node.readonly = true;
    assert_eq!(
        additional_member(&node),
        Some(ClassPropNode {
            span: sp(10),
            key: name("x", 11),
            has_value: false,
            has_type_ann: false,
            is_static: false,
            is_abstract: false,
            is_optional: true,
            readonly: true,
            definite: false,
            accessibility: Some(Accessibility::Private),
        })
    );
    assert_eq!(additional_member(&param_prop_node("y", 20, Some(Accessibility::Public))), None);
    assert_eq!(additional_member(&param_prop_node("y", 20, None)), None);
}

#[test]
fn additional_members_of_all_constructors_are_listed() {
    let body = vec![
        constructor(
            1,
            true,
            vec![
                param_prop("a", 2, Some(Accessibility::Private)),
                param(4),
                param_prop("b", 5, Some(Accessibility::Public)),
            ],
        ),
        prop("z", 8, false),
        constructor(10, false, vec![param_prop("c", 11, Some(Accessibility::Private))]),
    ];
    let found = additional_members(&body);
    assert_eq!(found.len(), 2);
    assert_eq!(found[0].key, name("a", 3));
    assert_eq!(found[1].key, name("c", 12));
}

// ----------------------------------------------------------------- class body

#[test]
fn second_property_of_a_key_is_reported_and_kept() {
    let mut body = ClassBody::new();
    assert_eq!(body.record_property(0, property("x", 10, false)), None);
    assert_eq!(body.record_property(1, property("y", 20, false)), None);
    assert_eq!(
        body.record_property(2, property("x", 30, false)),
        Some(diag(ErrorCode::DuplicateProperty, 30))
    );
    assert_eq!(body.members.len(), 3);
}

#[test]
fn static_and_instance_properties_are_told_apart() {
    let mut body = ClassBody::new();
    assert_eq!(body.record_property(0, property("x", 10, true)), None);
    assert_eq!(body.record_property(1, property("x", 20, false)), None);
    assert_eq!(
        body.record_property(2, property("x", 30, true)),
        Some(diag(ErrorCode::DuplicateProperty, 30))
    );
    assert_eq!(body.static_keys, vec![key("x", 10), key("x", 30)]);
    assert_eq!(body.instance_keys, vec![key("x", 20)]);
}

#[test]
fn recorded_properties_are_widened() {
    let mut body = ClassBody::new();
    body.record_property(4, property("x", 10, false));
    let mut expected = property("x", 10, false);
    expected.value = Some(Type { widened: true, ..ty(TypeKind::Lit, 10) });
    assert_eq!(body.members, vec![(4, ClassMember::Property(expected))]);
}

#[test]
fn other_members_are_recorded_as_they_are() {
    let mut body = ClassBody::new();
    body.record(1, constructor_member(None));
    assert_eq!(body.members, vec![(1, constructor_member(None))]);
    assert_eq!(body.static_keys, vec![]);
    assert_eq!(body.instance_keys, vec![]);
}

#[test]
fn finished_body_has_its_accessors_merged() {
    let mut getter = property("x", 10, false);
    getter.accessor = Accessor { getter: true, setter: false };
    let mut setter = property("x", 20, false);
    setter.accessor = Accessor { getter: false, setter: true };
    let mut body = ClassBody::new();
    body.record(0, ClassMember::Property(getter.clone()));
    body.record(1, ClassMember::Property(setter));
    body.record(2, constructor_member(None));
    getter.accessor = Accessor { getter: true, setter: true };
    assert_eq!(body.finish(), vec![ClassMember::Property(getter), constructor_member(None)]);
}

// ---------------------------------------------------------------- whole class

#[test]
fn shape_of_a_class_is_read_in_one_pass() {
    let class = class_node(vec![
        method("foo", 10, false),
        method("bar", 20, true),
        prop("bar", 30, false),
        constructor(40, true, vec![param_prop("p", 41, Some(Accessibility::Private))]),
        constructor(50, true, vec![]),
    ]);
    let shape = validate_class_shape(&class, false, false);
    assert_eq!(
        shape.errors,
        vec![
            diag(ErrorCode::FnImplMissingOrNotFollowedByDecl, 10),
            diag(ErrorCode::DuplicateNameWithoutName, 20),
            diag(ErrorCode::DuplicateNameWithoutName, 30),
            diag(ErrorCode::DuplicateConstructor, 40),
            diag(ErrorCode::DuplicateConstructor, 50),
        ]
    );
    assert_eq!(shape.implementations, Vec::<usize>::new());
    assert_eq!(
        shape.steps,
        vec![
            Step::ParamProp { index: 3, param: 0 },
            Step::Member { index: 2, phase: Phase::InstanceProperties },
            Step::Member { index: 3, phase: Phase::Constructors },
            Step::Member { index: 4, phase: Phase::Constructors },
        ]
    );
    assert_eq!(shape.scheduled, vec![0, 1]);
    assert_eq!(shape.additional_members.len(), 1);
}

#[test]
fn shape_of_a_declaration_skips_the_overload_rules() {
    let class = class_node(vec![method("foo", 10, false), method("foo", 20, true)]);
    let declared = validate_class_shape(&class, true, false);
    assert_eq!(declared.errors, vec![]);
    assert_eq!(declared.implementations, Vec::<usize>::new());
    let checked = validate_class_shape(&class, false, false);
    assert_eq!(checked.errors, vec![]);
    assert_eq!(checked.implementations, vec![1]);
}

#[test]
fn class_is_assembled_from_what_was_collected() {
    let mut node = class_node(vec![]);
    node.span = sp(77);
    node.is_abstract = true;
    let mut body = ClassBody::new();
    body.record_property(0, property("x", 10, false));
    let def = assemble_class(
        &node,
        Some("C".to_string()),
        Some(ty(TypeKind::ClassDef, 5)),
        true,
        body,
        vec![ty(TypeKind::Interface, 6)],
    );
    let mut expected = property("x", 10, false);
    expected.value = Some(Type { widened: true, ..ty(TypeKind::Lit, 10) });
    assert_eq!(
        def,
        ClassDef {
            span: sp(77),
            name: Some("C".to_string()),
            is_abstract: true,
            super_class: Some(ty(TypeKind::ClassDef, 5)),
            has_type_params: true,
            body: vec![ClassMember::Property(expected)],
            implements: vec![ty(TypeKind::Interface, 6)],
        }
    );
}

#[test]
fn keys_are_formed_from_names() {
    let quoted = PropName { kind: NameKind::Str, text: "a b".to_string(), optional: false, span: sp(4) };
    assert_eq!(Key::from_name(&name("x", 2)), key("x", 2));
    assert_eq!(Key::from_name(&quoted), key("a b", 4));
    let number = PropName { kind: NameKind::Num, text: "1".to_string(), optional: false, span: sp(5) };
    assert_eq!(
        Key::from_name(&number),
        Key { kind: KeyKind::Num, text: "1".to_string(), span: sp(5) }
    );
    let computed = PropName { kind: NameKind::Computed, text: "a.b".to_string(), optional: false, span: sp(6) };
    assert_eq!(Key::from_name(&computed).kind, KeyKind::Computed);
    let private = PrivateName { text: "x".to_string(), span: sp(7) };
    assert_eq!(
        Key::from_private_name(&private),
        Key { kind: KeyKind::Private, text: "x".to_string(), span: sp(7) }
    );
    assert!(!Key::from_private_name(&private).is_type_eq(&key("x", 7)));
    assert!(key("x", 1).is_type_eq(&key("x", 9)));
    assert_eq!(key("x", 1).copy(), key("x", 1));
}
