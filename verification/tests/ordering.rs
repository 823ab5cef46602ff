use carcosa::error::Error;
use carcosa::ident::Identifier;
use carcosa::nodes::{
    Columns, ContainerNode, FieldNode, Node, NodeDesc, NodePos, TextField,
};
use carcosa::store::Store;
use carcosa::template::NodePlacement;
use carcosa::types::{LayoutKind, PackageId, Parent};

fn blank_pos() -> NodePos {
    NodePos {
        id: Identifier::new(),
        parent: Parent::Root,
        previous: None,
        next: None,
    }
}

fn field(key: &str) -> NodeDesc {
    NodeDesc::Field(FieldNode::TextField(TextField {
        pos: blank_pos(),
        key: key.to_string(),
        label: None,
        icon: None,
        help_text: None,
        placeholder: None,
        default_value: None,
    }))
}

fn columns(n: usize) -> NodeDesc {
    NodeDesc::Container(ContainerNode::Columns(Columns {
        pos: blank_pos(),
        columns: n,
    }))
}

fn store_with_template() -> (Store, Identifier) {
    let mut s = Store::new();
    let t = s
        .create_template(
            "Sample".to_string(),
            PackageId::project(),
            LayoutKind::Form,
            None,
            None,
            None,
        )
        .unwrap();
    (s, t.id)
}

fn links(s: &Store, id: &Identifier) -> (Option<Identifier>, Option<Identifier>) {
    let n: &Node = s.get_node(id).unwrap();
    (n.previous.clone(), n.next.clone())
}

/// Follows `next` from the head of the root collection and returns the ids in
/// order, checking the reverse walk along `previous` on the way.
fn root_sequence(s: &Store, tpl: &Identifier) -> Vec<Identifier> {
    let members = s.in_root(tpl);
    let mut head: Option<Identifier> = None;
    for m in &members {
        if m.previous.is_none() {
            assert!(head.is_none(), "two heads in one collection");
            head = Some(m.id.clone());
        }
    }
    let mut order = Vec::new();
    let mut cur = head;
    let mut hops = 0;
    while let Some(id) = cur {
        hops += 1;
        assert!(hops <= members.len(), "walk does not terminate");
        let n: &Node = s.get_node(&id).unwrap();
        if let Some(prev) = &n.previous {
            let p: &Node = s.get_node(prev).unwrap();
            assert_eq!(p.next.as_ref().unwrap(), &id, "previous/next disagree");
        }
        order.push(id);
        cur = n.next.clone();
    }
    assert_eq!(order.len(), members.len(), "walk misses members");
    order
}

#[test]
fn create_and_link_three_siblings() {
    let (mut s, tpl) = store_with_template();
    let a = s
        .create_node(&tpl, &NodePlacement::Into(Parent::Root), field("a"))
        .unwrap();
    let b = s
        .create_node(&tpl, &NodePlacement::After(a.clone()), field("b"))
        .unwrap();
    let c = s
        .create_node(&tpl, &NodePlacement::Before(b.clone()), field("c"))
        .unwrap();
    let order = root_sequence(&s, &tpl);
    assert_eq!(order, vec![a.clone(), c.clone(), b.clone()]);
    assert_eq!(links(&s, &a), (None, Some(c.clone())));
    assert_eq!(links(&s, &c), (Some(a.clone()), Some(b.clone())));
    assert_eq!(links(&s, &b), (Some(c.clone()), None));
}

#[test]
fn delete_middle_node_repairs_the_chain() {
    let (mut s, tpl) = store_with_template();
    let a = s
        .create_node(&tpl, &NodePlacement::Into(Parent::Root), field("a"))
        .unwrap();
    let b = s
        .create_node(&tpl, &NodePlacement::After(a.clone()), field("b"))
        .unwrap();
    let c = s
        .create_node(&tpl, &NodePlacement::Before(b.clone()), field("c"))
        .unwrap();
    // chain is a -> c -> b; delete the middle node c
    s.delete_node(&c).unwrap();
    assert!(s.get_node(&c).is_none());
    assert_eq!(root_sequence(&s, &tpl), vec![a.clone(), b.clone()]);
    assert_eq!(links(&s, &a), (None, Some(b.clone())));
    assert_eq!(links(&s, &b), (Some(a.clone()), None));
}

#[test]
fn move_across_collections() {
    let (mut s, tpl) = store_with_template();
    let container = s
        .create_node(&tpl, &NodePlacement::Into(Parent::Root), columns(2))
        .unwrap();
    let col0 = Parent::Child {
        parent: container.clone(),
        collection: "col-0".to_string(),
    };
    let col1 = Parent::Child {
        parent: container.clone(),
        collection: "col-1".to_string(),
    };
    let x = s
        .create_node(&tpl, &NodePlacement::Into(col0.clone()), field("x"))
        .unwrap();
    assert_eq!(s.in_container(&tpl, &container, &"col-0".to_string()).len(), 1);
    assert_eq!(s.in_container(&tpl, &container, &"col-1".to_string()).len(), 0);

    s.move_into(&x, col1).unwrap();

    assert_eq!(s.in_container(&tpl, &container, &"col-0".to_string()).len(), 0);
    let col1_members = s.in_container(&tpl, &container, &"col-1".to_string());
    assert_eq!(col1_members.len(), 1);
    assert_eq!(col1_members[0].id, x);
    assert_eq!(links(&s, &x), (None, None));
}

#[test]
fn into_occupied_collection_is_rejected() {
    let (mut s, tpl) = store_with_template();
    let a = s
        .create_node(&tpl, &NodePlacement::Into(Parent::Root), field("a"))
        .unwrap();
    // a second Into on the now-occupied root must fail
    let r = s.create_node(&tpl, &NodePlacement::Into(Parent::Root), field("b"));
    assert!(matches!(r, Err(Error::NonEmptyParent { .. })));
    // and so must a move into it
    let container = s
        .create_node(&tpl, &NodePlacement::After(a.clone()), columns(1))
        .unwrap();
    let slot = Parent::Child {
        parent: container.clone(),
        collection: "col-0".to_string(),
    };
    let y = s
        .create_node(&tpl, &NodePlacement::Into(slot.clone()), field("y"))
        .unwrap();
    let r2 = s.move_into(&a, slot);
    assert!(matches!(r2, Err(Error::NonEmptyParent { .. })));
    let _ = y;
}

#[test]
fn failed_move_leaves_the_store_unchanged() {
    let (mut s, tpl) = store_with_template();
    let a = s
        .create_node(&tpl, &NodePlacement::Into(Parent::Root), field("a"))
        .unwrap();
    let b = s
        .create_node(&tpl, &NodePlacement::After(a.clone()), field("b"))
        .unwrap();
    let before_a = links(&s, &a);
    let before_b = links(&s, &b);
    // moving b into the occupied root collection must fail atomically
    let r = s.move_into(&b, Parent::Root);
    assert!(matches!(r, Err(Error::NonEmptyParent { .. })));
    assert_eq!(links(&s, &a), before_a);
    assert_eq!(links(&s, &b), before_b);
    assert_eq!(root_sequence(&s, &tpl), vec![a, b]);
}

#[test]
fn update_preserves_identity_and_position() {
    let (mut s, tpl) = store_with_template();
    let a = s
        .create_node(&tpl, &NodePlacement::Into(Parent::Root), field("a"))
        .unwrap();
    let b = s
        .create_node(&tpl, &NodePlacement::After(a.clone()), field("b"))
        .unwrap();
    // the payload claims a foreign identity and position; all of it must be
    // ignored in favour of the stored record's own
    let mut junk = field("renamed");
    if let NodeDesc::Field(FieldNode::TextField(f)) = &mut junk {
        f.pos = NodePos {
            id: Identifier::new(),
            parent: Parent::Child {
                parent: Identifier::new(),
                collection: "elsewhere".to_string(),
            },
            previous: Some(Identifier::new()),
            next: None,
        };
        f.label = Some("Renamed".to_string());
    }
    s.update_node(&b, junk).unwrap();
    let n = s.get_node(&b).unwrap();
    assert_eq!(n.id, b);
    assert_eq!(n.previous.as_ref(), Some(&a));
    assert_eq!(n.next, None);
    assert!(matches!(n.parent, Parent::Root));
    match &n.node {
        NodeDesc::Field(FieldNode::TextField(f)) => {
            assert_eq!(f.key, "renamed");
            assert_eq!(f.label.as_deref(), Some("Renamed"));
            // the embedded position mirrors the record, not the junk
            assert_eq!(f.pos.id, b);
            assert_eq!(f.pos.previous.as_ref(), Some(&a));
            assert_eq!(f.pos.next, None);
            assert!(matches!(f.pos.parent, Parent::Root));
        },
        _ => panic!("payload variant changed"),
    }
}

#[test]
fn update_rejects_changed_kind_or_category() {
    let (mut s, tpl) = store_with_template();
    let a = s
        .create_node(&tpl, &NodePlacement::Into(Parent::Root), field("a"))
        .unwrap();
    let r = s.update_node(&a, columns(1));
    match r {
        Err(Error::Immutable { attribute }) => assert_eq!(attribute, "node_category"),
        _ => panic!("expected Immutable"),
    }
    let mut other_kind = NodeDesc::Field(FieldNode::TextField(TextField {
        pos: blank_pos(),
        key: "k".to_string(),
        label: None,
        icon: None,
        help_text: None,
        placeholder: None,
        default_value: None,
    }));
    if true {
        other_kind = NodeDesc::Field(FieldNode::RichText(carcosa::nodes::RichText {
            pos: blank_pos(),
            key: "k".to_string(),
            label: None,
            icon: None,
            help_text: None,
        }));
    }
    let r2 = s.update_node(&a, other_kind);
    match r2 {
        Err(Error::Immutable { attribute }) => assert_eq!(attribute, "node_kind"),
        _ => panic!("expected Immutable"),
    }
}

#[test]
fn reordering_with_moves_keeps_one_chain() {
    let (mut s, tpl) = store_with_template();
    let a = s
        .create_node(&tpl, &NodePlacement::Into(Parent::Root), field("a"))
        .unwrap();
    let b = s
        .create_node(&tpl, &NodePlacement::After(a.clone()), field("b"))
        .unwrap();
    let c = s
        .create_node(&tpl, &NodePlacement::After(b.clone()), field("c"))
        .unwrap();
    let d = s
        .create_node(&tpl, &NodePlacement::After(c.clone()), field("d"))
        .unwrap();
    assert_eq!(root_sequence(&s, &tpl), vec![a.clone(), b.clone(), c.clone(), d.clone()]);

    s.move_after(&a, &d).unwrap();
    assert_eq!(root_sequence(&s, &tpl), vec![b.clone(), c.clone(), d.clone(), a.clone()]);

    s.move_before(&d, &b).unwrap();
    assert_eq!(root_sequence(&s, &tpl), vec![d.clone(), b.clone(), c.clone(), a.clone()]);

    s.move_after(&c, &d).unwrap();
    assert_eq!(root_sequence(&s, &tpl), vec![d.clone(), c.clone(), b.clone(), a.clone()]);
}

#[test]
fn move_errors_are_typed() {
    let (mut s, tpl) = store_with_template();
    let a = s
        .create_node(&tpl, &NodePlacement::Into(Parent::Root), field("a"))
        .unwrap();
    let missing_id = Identifier::new();
    assert!(matches!(
        s.move_after(&missing_id, &a),
        Err(Error::NotFound { .. })
    ));
    assert!(matches!(
        s.move_after(&a, &missing_id),
        Err(Error::NotFound { .. })
    ));
    assert!(matches!(
        s.move_after(&a, &a),
        Err(Error::SelfReference { .. })
    ));

    // a reference node of another template is refused
    let t2 = s
        .create_template(
            "Other".to_string(),
            PackageId::project(),
            LayoutKind::Form,
            None,
            None,
            None,
        )
        .unwrap();
    let z = s
        .create_node(&t2.id, &NodePlacement::Into(Parent::Root), field("z"))
        .unwrap();
    assert!(matches!(
        s.move_after(&a, &z),
        Err(Error::TemplateMismatch { .. })
    ));
}

#[test]
fn create_errors_are_typed() {
    let (mut s, tpl) = store_with_template();
    let missing_tpl = Identifier::new();
    let r = s.create_node(&missing_tpl, &NodePlacement::Into(Parent::Root), field("a"));
    assert!(matches!(r, Err(Error::NotFound { .. })));

    let ghost_ref = Identifier::new();
    let r2 = s.create_node(&tpl, &NodePlacement::After(ghost_ref), field("a"));
    assert!(matches!(r2, Err(Error::NotFound { .. })));

    let a = s
        .create_node(&tpl, &NodePlacement::Into(Parent::Root), field("a"))
        .unwrap();
    let r3 = s.create_node_with_id(
        a.clone(),
        &tpl,
        &NodePlacement::After(a.clone()),
        field("dup"),
    );
    assert!(matches!(r3, Err(Error::DuplicateIdentifier { .. })));

    // a reference node under a different template is refused
    let t2 = s
        .create_template(
            "Other".to_string(),
            PackageId::project(),
            LayoutKind::Form,
            None,
            None,
            None,
        )
        .unwrap();
    let r4 = s.create_node(&t2.id, &NodePlacement::After(a), field("w"));
    assert!(matches!(r4, Err(Error::TemplateMismatch { .. })));
}

#[test]
fn delete_missing_node_is_not_found() {
    let (mut s, _tpl) = store_with_template();
    let missing_id = Identifier::new();
    assert!(matches!(s.delete_node(&missing_id), Err(Error::NotFound { .. })));
}

#[test]
fn neighbour_accessors_follow_links() {
    let (mut s, tpl) = store_with_template();
    let a = s
        .create_node(&tpl, &NodePlacement::Into(Parent::Root), field("a"))
        .unwrap();
    let b = s
        .create_node(&tpl, &NodePlacement::After(a.clone()), field("b"))
        .unwrap();
    assert_eq!(s.next_node(&a).unwrap().unwrap().id, b);
    assert!(s.next_node(&b).unwrap().is_none());
    assert_eq!(s.previous_node(&b).unwrap().unwrap().id, a);
    assert!(s.previous_node(&a).unwrap().is_none());
}

#[test]
fn template_of_resolves_or_reports_an_orphan() {
    let (mut s, tpl) = store_with_template();
    let a = s
        .create_node(&tpl, &NodePlacement::Into(Parent::Root), field("a"))
        .unwrap();
    assert_eq!(s.template_of(&a).unwrap().id, tpl);
    s.delete_template(&tpl).unwrap();
    assert!(matches!(s.template_of(&a), Err(Error::OrphanedNode { .. })));
}

#[test]
fn in_template_lists_every_node_of_the_template() {
    let (mut s, tpl) = store_with_template();
    let container = s
        .create_node(&tpl, &NodePlacement::Into(Parent::Root), columns(1))
        .unwrap();
    let slot = Parent::Child {
        parent: container.clone(),
        collection: "col-0".to_string(),
    };
    let _inner = s
        .create_node(&tpl, &NodePlacement::Into(slot), field("inner"))
        .unwrap();
    assert_eq!(s.in_template(&tpl).len(), 2);
    assert_eq!(s.in_root(&tpl).len(), 1);
}

#[test]
fn parent_of_resolves_the_container_and_collection() {
    let (mut s, tpl) = store_with_template();
    let container = s
        .create_node(&tpl, &NodePlacement::Into(Parent::Root), columns(1))
        .unwrap();
    let slot = Parent::Child {
        parent: container.clone(),
        collection: "col-0".to_string(),
    };
    let inner = s
        .create_node(&tpl, &NodePlacement::Into(slot), field("inner"))
        .unwrap();
    assert!(s.parent_of(&container).unwrap().is_none());
    let (p, c) = s.parent_of(&inner).unwrap().unwrap();
    assert_eq!(p.id, container);
    assert_eq!(c, "col-0");
    let missing_id = Identifier::new();
    assert!(matches!(s.parent_of(&missing_id), Err(Error::NotFound { .. })));
}
