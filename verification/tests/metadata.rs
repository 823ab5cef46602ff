use carcosa::ident::Identifier;
use carcosa::nodes::{
    Columns, ContainerNode, FieldNode, NodePos, NumberField, SingleSelect, Switch,
    TemplateContainer, TemplateField, TextField,
};
use carcosa::types::{PackageId, Parent};
use carcosa::values::{Value, ValueType};

fn pos() -> NodePos {
    NodePos {
        id: Identifier::new(),
        parent: Parent::Root,
        previous: None,
        next: None,
    }
}

#[test]
fn columns_own_numbered_collections() {
    let c = ContainerNode::Columns(Columns { pos: pos(), columns: 12 });
    let names = c.collections();
    assert_eq!(names.len(), 12);
    assert_eq!(names[0], "col-0");
    assert_eq!(names[9], "col-9");
    assert_eq!(names[10], "col-10");
    assert_eq!(names[11], "col-11");
}

#[test]
fn single_collection_containers_own_children() {
    let c = ContainerNode::Wrapper(carcosa::nodes::Wrapper { pos: pos() });
    assert_eq!(c.collections(), vec!["children".to_string()]);
}

#[test]
fn field_metadata_and_declared_types() {
    let f = FieldNode::TextField(TextField {
        pos: pos(),
        key: "nickname".to_string(),
        label: Some("Nickname".to_string()),
        icon: None,
        help_text: Some("shown in lists".to_string()),
        placeholder: None,
        default_value: Some("anon".to_string()),
    });
    assert_eq!(f.key(), "nickname");
    assert_eq!(f.label(), Some("Nickname".to_string()));
    assert_eq!(f.icon(), None);
    assert_eq!(f.help_text(), Some("shown in lists".to_string()));
    assert!(matches!(f.value_type(), ValueType::String));
    match f.default_value() {
        Value::String(s) => assert_eq!(s, "anon"),
        _ => panic!("text fields default to a string"),
    }
}

#[test]
fn field_defaults_follow_their_kind() {
    let n = FieldNode::NumberField(NumberField {
        pos: pos(),
        key: "age".to_string(),
        label: None,
        icon: None,
        help_text: None,
        placeholder: None,
        allow_negatives: false,
        allow_decimals: false,
        minimum: None,
        maximum: None,
        default_value: None,
    });
    assert!(matches!(n.default_value(), Value::Number(0)));
    assert!(matches!(n.value_type(), ValueType::Number));

    let sw = FieldNode::Switch(Switch {
        pos: pos(),
        key: "active".to_string(),
        label: None,
        icon: None,
        help_text: None,
        on_icon: None,
        off_icon: None,
        default_value: Some(true),
    });
    assert!(matches!(sw.default_value(), Value::Bool(true)));

    let sel = FieldNode::SingleSelect(SingleSelect {
        pos: pos(),
        key: "class".to_string(),
        label: None,
        icon: None,
        help_text: None,
        placeholder: None,
        default_value: None,
        options: vec!["bard".to_string(), "rogue".to_string()],
    });
    assert!(matches!(sel.default_value(), Value::Null));
    match sel.value_type() {
        ValueType::Optional { contained } => assert!(matches!(*contained, ValueType::String)),
        _ => panic!("single select declares an optional string"),
    }
}

#[test]
fn placement_key_text_is_stable() {
    assert_eq!(Parent::Root.key_text(), "root::root/root");
    let id = Identifier::from_text("abc".to_string());
    let p = Parent::Child { parent: id, collection: "children".to_string() };
    assert_eq!(p.key_text(), "child::abc/children");
}

#[test]
fn package_ids_round_trip_through_text() {
    assert_eq!(PackageId::project().text(), "::project");
    assert_eq!(PackageId::internal().text(), "::internal");
    assert_eq!(PackageId::package("atlas".to_string()).text(), "atlas");
    assert!(matches!(
        PackageId::from("::project".to_string()),
        PackageId::Project(_)
    ));
    assert!(matches!(
        PackageId::from("::internal".to_string()),
        PackageId::Internal(_)
    ));
    match PackageId::from("atlas".to_string()) {
        PackageId::Package(s) => assert_eq!(s, "atlas"),
        _ => panic!("plain names are external packages"),
    }
}
