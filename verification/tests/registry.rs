use carcosa::error::Error;
use carcosa::ident::Identifier;
use carcosa::store::Store;
use carcosa::template::derive_friendly_id;
use carcosa::types::{LayoutKind, PackageId};

#[test]
fn friendly_id_is_a_restricted_snake_slug() {
    assert_eq!(derive_friendly_id(&"My Template".to_string()), "my_template");
    assert_eq!(derive_friendly_id(&"My Template!".to_string()), "my_template");
    assert_eq!(derive_friendly_id(&"SomeCamelCase".to_string()), "some_camel_case");
}

#[test]
fn create_template_fills_every_field() {
    let mut s = Store::new();
    let t = s
        .create_template(
            "World Atlas".to_string(),
            PackageId::internal(),
            LayoutKind::RichDocument,
            Some("maps".to_string()),
            Some("globe".to_string()),
            None,
        )
        .unwrap();
    assert_eq!(t.name, "World Atlas");
    assert_eq!(t.friendly_id, "world_atlas");
    assert!(matches!(t.package, PackageId::Internal(_)));
    assert!(matches!(t.layout, LayoutKind::RichDocument));
    assert_eq!(t.description.as_deref(), Some("maps"));
    assert_eq!(t.icon.as_deref(), Some("globe"));
    assert!(t.inherit.is_none());
}

#[test]
fn duplicate_names_and_slugs_are_rejected() {
    let mut s = Store::new();
    s.create_template(
        "My Template".to_string(),
        PackageId::project(),
        LayoutKind::Form,
        None,
        None,
        None,
    )
    .unwrap();
    let again = s.create_template(
        "My Template".to_string(),
        PackageId::project(),
        LayoutKind::Form,
        None,
        None,
        None,
    );
    assert!(matches!(again, Err(Error::DuplicateName { .. })));
    // a different name with the same derived friendly id collides too
    let slug_clash = s.create_template(
        "my template".to_string(),
        PackageId::project(),
        LayoutKind::Form,
        None,
        None,
        None,
    );
    assert!(matches!(slug_clash, Err(Error::DuplicateName { .. })));
}

#[test]
fn lookup_by_id_and_friendly_id() {
    let mut s = Store::new();
    let t = s
        .create_template(
            "Alpha".to_string(),
            PackageId::project(),
            LayoutKind::Form,
            None,
            None,
            None,
        )
        .unwrap();
    assert_eq!(s.get_template_by_id(&t.id).unwrap().name, "Alpha");
    assert_eq!(
        s.get_template_by_friendly_id(&"alpha".to_string()).unwrap().id,
        t.id
    );
    assert!(s.get_template_by_friendly_id(&"beta".to_string()).is_none());
    let missing = Identifier::new();
    assert!(s.get_template_by_id(&missing).is_none());
}

#[test]
fn listing_filters_by_package_inherit_and_layout() {
    let mut s = Store::new();
    let base = s
        .create_template(
            "Base".to_string(),
            PackageId::project(),
            LayoutKind::Form,
            None,
            None,
            None,
        )
        .unwrap();
    let _child = s
        .create_template(
            "Child".to_string(),
            PackageId::project(),
            LayoutKind::Calendar,
            None,
            None,
            Some(base.id.clone()),
        )
        .unwrap();
    let _ext = s
        .create_template(
            "Shipped".to_string(),
            PackageId::package("atlas.pack".to_string()),
            LayoutKind::Form,
            None,
            None,
            None,
        )
        .unwrap();

    assert_eq!(s.all_templates().len(), 3);
    assert_eq!(s.all_in_package(&PackageId::project()).len(), 2);
    assert_eq!(
        s.all_in_package(&PackageId::package("atlas.pack".to_string())).len(),
        1
    );
    let inheritors = s.all_inherit(&Some(base.id.clone()));
    assert_eq!(inheritors.len(), 1);
    assert_eq!(inheritors[0].name, "Child");
    assert_eq!(s.all_inherit(&None).len(), 2);
    assert_eq!(s.all_with_layout(LayoutKind::Form).len(), 2);
    assert_eq!(s.all_with_layout(LayoutKind::Calendar).len(), 1);
    assert_eq!(s.all_with_layout(LayoutKind::Timeline).len(), 0);
}

#[test]
fn save_template_updates_in_place_and_respects_uniqueness() {
    let mut s = Store::new();
    let mut t = s
        .create_template(
            "First".to_string(),
            PackageId::project(),
            LayoutKind::Form,
            None,
            None,
            None,
        )
        .unwrap();
    let other = s
        .create_template(
            "Second".to_string(),
            PackageId::project(),
            LayoutKind::Form,
            None,
            None,
            None,
        )
        .unwrap();
    t.description = Some("edited".to_string());
    s.save_template(&t).unwrap();
    assert_eq!(
        s.get_template_by_id(&t.id).unwrap().description.as_deref(),
        Some("edited")
    );
    // renaming over another template's name is refused
    t.name = other.name.clone();
    t.friendly_id = other.friendly_id.clone();
    assert!(matches!(s.save_template(&t), Err(Error::DuplicateName { .. })));
}

#[test]
fn delete_template_returns_the_record() {
    let mut s = Store::new();
    let t = s
        .create_template(
            "Gone".to_string(),
            PackageId::project(),
            LayoutKind::Form,
            None,
            None,
            None,
        )
        .unwrap();
    let removed = s.delete_template(&t.id).unwrap();
    assert_eq!(removed.id, t.id);
    assert!(s.get_template_by_id(&t.id).is_none());
    assert!(matches!(s.delete_template(&t.id), Err(Error::NotFound { .. })));
}

#[test]
fn fresh_identifiers_differ_and_serialize_to_plain_text() {
    let a = Identifier::new();
    let b = Identifier::new();
    assert_ne!(a.text(), b.text());
    let copied = Identifier::from_text(a.text().clone());
    assert_eq!(copied, a);
}
