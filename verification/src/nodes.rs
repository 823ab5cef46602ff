//! The tree elements: field, container and decorative node variants, and the
//! shared polymorphic contract they all satisfy.

use vstd::prelude::*;
use vstd::string::StringExecFns;
use crate::ident::Identifier;
use crate::types::Parent;
use crate::values::{Value, ValueType};

verus! {

/// The three capability families of nodes.
#[derive(Clone, Copy, PartialEq, Eq, Structural)]
pub enum NodeCategory {
    Field,
    Container,
    Other,
}

/// The position attributes every node variant carries: identity, the owning
/// collection slot, and the doubly-linked sibling pointers.
pub struct NodePos {
    pub id: Identifier,
    pub parent: Parent,
    pub previous: Option<Identifier>,
    pub next: Option<Identifier>,
}

impl Clone for NodePos {
    fn clone(&self) -> (r: Self)
        ensures
            r == *self,
    {
        let r = NodePos {
            id: self.id.clone(),
            parent: self.parent.clone(),
            previous: match &self.previous {
                Some(p) => Some(p.clone()),
                None => None,
            },
            next: match &self.next {
                Some(n) => Some(n.clone()),
                None => None,
            },
        };
        proof {
            assert(r.previous == self.previous);
            assert(r.next == self.next);
        }
        r
    }
}

// Field variants: each carries a data key, presentation metadata, and a
// kind-specific default.

pub struct TextField {
    pub pos: NodePos,
    pub key: String,
    pub label: Option<String>,
    pub icon: Option<String>,
    pub help_text: Option<String>,
    pub placeholder: Option<String>,
    pub default_value: Option<String>,
}

pub struct NumberField {
    pub pos: NodePos,
    pub key: String,
    pub label: Option<String>,
    pub icon: Option<String>,
    pub help_text: Option<String>,
    pub placeholder: Option<String>,
    pub allow_negatives: bool,
    pub allow_decimals: bool,
    pub minimum: Option<i64>,
    pub maximum: Option<i64>,
    pub default_value: Option<i64>,
}

pub struct Switch {
    pub pos: NodePos,
    pub key: String,
    pub label: Option<String>,
    pub icon: Option<String>,
    pub help_text: Option<String>,
    pub on_icon: Option<String>,
    pub off_icon: Option<String>,
    pub default_value: Option<bool>,
}

pub struct SingleSelect {
    pub pos: NodePos,
    pub key: String,
    pub label: Option<String>,
    pub icon: Option<String>,
    pub help_text: Option<String>,
    pub placeholder: Option<String>,
    pub default_value: Option<String>,
    pub options: Vec<String>,
}

pub struct MultiSelect {
    pub pos: NodePos,
    pub key: String,
    pub label: Option<String>,
    pub icon: Option<String>,
    pub help_text: Option<String>,
    pub placeholder: Option<String>,
    pub default_value: Option<Vec<String>>,
    pub options: Vec<String>,
    pub max_selections: Option<usize>,
}

pub struct MultiLine {
    pub pos: NodePos,
    pub key: String,
    pub label: Option<String>,
    pub icon: Option<String>,
    pub help_text: Option<String>,
    pub placeholder: Option<String>,
    pub default_value: Option<String>,
    pub lines: Option<usize>,
}

pub struct RichText {
    pub pos: NodePos,
    pub key: String,
    pub label: Option<String>,
    pub icon: Option<String>,
    pub help_text: Option<String>,
}

/// Constrains which documents a link field may reference.
pub enum MatchCriteria {
    TemplateAndValue { template_id: Identifier, key: String, value: Value },
    Template { template_id: Identifier },
}

pub struct LinkedDocument {
    pub pos: NodePos,
    pub key: String,
    pub label: Option<String>,
    pub icon: Option<String>,
    pub help_text: Option<String>,
    pub constraints: Option<Vec<MatchCriteria>>,
}

pub struct MultiLinkedDocuments {
    pub pos: NodePos,
    pub key: String,
    pub label: Option<String>,
    pub icon: Option<String>,
    pub help_text: Option<String>,
    pub constraints: Option<Vec<MatchCriteria>>,
    pub max_selections: Option<usize>,
}

// Container variants: each declares the named collections it owns.

pub struct Columns {
    pub pos: NodePos,
    pub columns: usize,
}

pub struct Collapsible {
    pub pos: NodePos,
    pub default_collapsed: bool,
    pub title: String,
    pub icon: Option<String>,
}

pub struct LabelledGroup {
    pub pos: NodePos,
    pub label: String,
    pub icon: Option<String>,
}

pub struct Wrapper {
    pub pos: NodePos,
}

// Decorative variants: no children, no field semantics.

pub struct Text {
    pub pos: NodePos,
    pub content: String,
}

#[derive(Clone, Copy, PartialEq, Eq, Structural)]
pub enum AlertLevel {
    Default,
    Info,
    Success,
    Warning,
    Error,
}

pub struct Alert {
    pub pos: NodePos,
    pub content: String,
    pub level: AlertLevel,
    pub title: Option<String>,
}

pub enum FieldNode {
    TextField(TextField),
    NumberField(NumberField),
    Switch(Switch),
    SingleSelect(SingleSelect),
    MultiSelect(MultiSelect),
    MultiLine(MultiLine),
    RichText(RichText),
    LinkedDocument(LinkedDocument),
    MultiLinkedDocuments(MultiLinkedDocuments),
}

pub enum ContainerNode {
    Columns(Columns),
    Collapsible(Collapsible),
    LabelledGroup(LabelledGroup),
    Wrapper(Wrapper),
}

pub enum OtherNode {
    Text(Text),
    Alert(Alert),
}

/// A node's payload: a closed polymorphic value over the three categories.
pub enum NodeDesc {
    Other(OtherNode),
    Container(ContainerNode),
    Field(FieldNode),
}

/// The position attributes embedded in a payload.
pub open spec fn pos_of(d: NodeDesc) -> NodePos {
    match d {
        NodeDesc::Field(FieldNode::TextField(f)) => f.pos,
        NodeDesc::Field(FieldNode::NumberField(f)) => f.pos,
        NodeDesc::Field(FieldNode::Switch(f)) => f.pos,
        NodeDesc::Field(FieldNode::SingleSelect(f)) => f.pos,
        NodeDesc::Field(FieldNode::MultiSelect(f)) => f.pos,
        NodeDesc::Field(FieldNode::MultiLine(f)) => f.pos,
        NodeDesc::Field(FieldNode::RichText(f)) => f.pos,
        NodeDesc::Field(FieldNode::LinkedDocument(f)) => f.pos,
        NodeDesc::Field(FieldNode::MultiLinkedDocuments(f)) => f.pos,
        NodeDesc::Container(ContainerNode::Columns(c)) => c.pos,
        NodeDesc::Container(ContainerNode::Collapsible(c)) => c.pos,
        NodeDesc::Container(ContainerNode::LabelledGroup(c)) => c.pos,
        NodeDesc::Container(ContainerNode::Wrapper(c)) => c.pos,
        NodeDesc::Other(OtherNode::Text(o)) => o.pos,
        NodeDesc::Other(OtherNode::Alert(o)) => o.pos,
    }
}

/// The stable discriminant string of a payload's kind.
pub open spec fn kind_of(d: NodeDesc) -> Seq<char> {
    match d {
        NodeDesc::Field(FieldNode::TextField(_)) => "text_field"@,
        NodeDesc::Field(FieldNode::NumberField(_)) => "number_field"@,
        NodeDesc::Field(FieldNode::Switch(_)) => "switch"@,
        NodeDesc::Field(FieldNode::SingleSelect(_)) => "single_select"@,
        NodeDesc::Field(FieldNode::MultiSelect(_)) => "multi_select"@,
        NodeDesc::Field(FieldNode::MultiLine(_)) => "multi_line"@,
        NodeDesc::Field(FieldNode::RichText(_)) => "rich_text"@,
        NodeDesc::Field(FieldNode::LinkedDocument(_)) => "linked_document"@,
        NodeDesc::Field(FieldNode::MultiLinkedDocuments(_)) => "multi_linked_document"@,
        NodeDesc::Container(ContainerNode::Columns(_)) => "columns"@,
        NodeDesc::Container(ContainerNode::Collapsible(_)) => "collapsible"@,
        NodeDesc::Container(ContainerNode::LabelledGroup(_)) => "labelled_group"@,
        NodeDesc::Container(ContainerNode::Wrapper(_)) => "wrapper"@,
        NodeDesc::Other(OtherNode::Text(_)) => "text"@,
        NodeDesc::Other(OtherNode::Alert(_)) => "alert"@,
    }
}

/// The capability family of a payload.
pub open spec fn category_of(d: NodeDesc) -> NodeCategory {
    match d {
        NodeDesc::Field(_) => NodeCategory::Field,
        NodeDesc::Container(_) => NodeCategory::Container,
        NodeDesc::Other(_) => NodeCategory::Other,
    }
}

/// Whether two payloads are the same variant with identical content apart from
/// their position attributes.
pub open spec fn payload_same(a: NodeDesc, b: NodeDesc) -> bool {
    match (a, b) {
        (
            NodeDesc::Field(FieldNode::TextField(x)),
            NodeDesc::Field(FieldNode::TextField(y)),
        ) => x == (TextField { pos: x.pos, ..y }),
        (
            NodeDesc::Field(FieldNode::NumberField(x)),
            NodeDesc::Field(FieldNode::NumberField(y)),
        ) => x == (NumberField { pos: x.pos, ..y }),
        (NodeDesc::Field(FieldNode::Switch(x)), NodeDesc::Field(FieldNode::Switch(y))) => x == (
            Switch { pos: x.pos, ..y }
        ),
        (
            NodeDesc::Field(FieldNode::SingleSelect(x)),
            NodeDesc::Field(FieldNode::SingleSelect(y)),
        ) => x == (SingleSelect { pos: x.pos, ..y }),
        (
            NodeDesc::Field(FieldNode::MultiSelect(x)),
            NodeDesc::Field(FieldNode::MultiSelect(y)),
        ) => x == (MultiSelect { pos: x.pos, ..y }),
        (
            NodeDesc::Field(FieldNode::MultiLine(x)),
            NodeDesc::Field(FieldNode::MultiLine(y)),
        ) => x == (MultiLine { pos: x.pos, ..y }),
        (
            NodeDesc::Field(FieldNode::RichText(x)),
            NodeDesc::Field(FieldNode::RichText(y)),
        ) => x == (RichText { pos: x.pos, ..y }),
        (
            NodeDesc::Field(FieldNode::LinkedDocument(x)),
            NodeDesc::Field(FieldNode::LinkedDocument(y)),
        ) => x == (LinkedDocument { pos: x.pos, ..y }),
        (
            NodeDesc::Field(FieldNode::MultiLinkedDocuments(x)),
            NodeDesc::Field(FieldNode::MultiLinkedDocuments(y)),
        ) => x == (MultiLinkedDocuments { pos: x.pos, ..y }),
        (
            NodeDesc::Container(ContainerNode::Columns(x)),
            NodeDesc::Container(ContainerNode::Columns(y)),
        ) => x == (Columns { pos: x.pos, ..y }),
        (
            NodeDesc::Container(ContainerNode::Collapsible(x)),
            NodeDesc::Container(ContainerNode::Collapsible(y)),
        ) => x == (Collapsible { pos: x.pos, ..y }),
        (
            NodeDesc::Container(ContainerNode::LabelledGroup(x)),
            NodeDesc::Container(ContainerNode::LabelledGroup(y)),
        ) => x == (LabelledGroup { pos: x.pos, ..y }),
        (
            NodeDesc::Container(ContainerNode::Wrapper(x)),
            NodeDesc::Container(ContainerNode::Wrapper(y)),
        ) => x == (Wrapper { pos: x.pos, ..y }),
        (NodeDesc::Other(OtherNode::Text(x)), NodeDesc::Other(OtherNode::Text(y))) => x == (
            Text { pos: x.pos, ..y }
        ),
        (NodeDesc::Other(OtherNode::Alert(x)), NodeDesc::Other(OtherNode::Alert(y))) => x == (
            Alert { pos: x.pos, ..y }
        ),
        _ => false,
    }
}

/// A payload's content is the same as its own.
pub proof fn lemma_payload_same_refl(a: NodeDesc)
    ensures
        payload_same(a, a),
{
}

/// Sharing content is transitive.
pub proof fn lemma_payload_same_trans(a: NodeDesc, b: NodeDesc, c: NodeDesc)
    requires
        payload_same(a, b),
        payload_same(b, c),
    ensures
        payload_same(a, c),
{
}

impl NodeDesc {
    /// A borrow of the payload's embedded position attributes.
    pub fn position(&self) -> (r: &NodePos)
        ensures
            *r == pos_of(*self),
    {
        match self {
            NodeDesc::Field(FieldNode::TextField(f)) => &f.pos,
            NodeDesc::Field(FieldNode::NumberField(f)) => &f.pos,
            NodeDesc::Field(FieldNode::Switch(f)) => &f.pos,
            NodeDesc::Field(FieldNode::SingleSelect(f)) => &f.pos,
            NodeDesc::Field(FieldNode::MultiSelect(f)) => &f.pos,
            NodeDesc::Field(FieldNode::MultiLine(f)) => &f.pos,
            NodeDesc::Field(FieldNode::RichText(f)) => &f.pos,
            NodeDesc::Field(FieldNode::LinkedDocument(f)) => &f.pos,
            NodeDesc::Field(FieldNode::MultiLinkedDocuments(f)) => &f.pos,
            NodeDesc::Container(ContainerNode::Columns(c)) => &c.pos,
            NodeDesc::Container(ContainerNode::Collapsible(c)) => &c.pos,
            NodeDesc::Container(ContainerNode::LabelledGroup(c)) => &c.pos,
            NodeDesc::Container(ContainerNode::Wrapper(c)) => &c.pos,
            NodeDesc::Other(OtherNode::Text(o)) => &o.pos,
            NodeDesc::Other(OtherNode::Alert(o)) => &o.pos,
        }
    }

    /// Replaces the payload's position attributes, leaving its content alone.
    pub fn set_position(&mut self, p: NodePos)
        ensures
            pos_of(*final(self)) == p,
            payload_same(*old(self), *final(self)),
            kind_of(*final(self)) == kind_of(*old(self)),
            category_of(*final(self)) == category_of(*old(self)),
    {
        match self {
            NodeDesc::Field(FieldNode::TextField(f)) => f.pos = p,
            NodeDesc::Field(FieldNode::NumberField(f)) => f.pos = p,
            NodeDesc::Field(FieldNode::Switch(f)) => f.pos = p,
            NodeDesc::Field(FieldNode::SingleSelect(f)) => f.pos = p,
            NodeDesc::Field(FieldNode::MultiSelect(f)) => f.pos = p,
            NodeDesc::Field(FieldNode::MultiLine(f)) => f.pos = p,
            NodeDesc::Field(FieldNode::RichText(f)) => f.pos = p,
            NodeDesc::Field(FieldNode::LinkedDocument(f)) => f.pos = p,
            NodeDesc::Field(FieldNode::MultiLinkedDocuments(f)) => f.pos = p,
            NodeDesc::Container(ContainerNode::Columns(c)) => c.pos = p,
            NodeDesc::Container(ContainerNode::Collapsible(c)) => c.pos = p,
            NodeDesc::Container(ContainerNode::LabelledGroup(c)) => c.pos = p,
            NodeDesc::Container(ContainerNode::Wrapper(c)) => c.pos = p,
            NodeDesc::Other(OtherNode::Text(o)) => o.pos = p,
            NodeDesc::Other(OtherNode::Alert(o)) => o.pos = p,
        }
    }

    /// The stable discriminant string of this payload's kind.
    pub fn kind_text(&self) -> (r: &'static str)
        ensures
            r@ == kind_of(*self),
    {
        match self {
            NodeDesc::Field(FieldNode::TextField(_)) => "text_field",
            NodeDesc::Field(FieldNode::NumberField(_)) => "number_field",
            NodeDesc::Field(FieldNode::Switch(_)) => "switch",
            NodeDesc::Field(FieldNode::SingleSelect(_)) => "single_select",
            NodeDesc::Field(FieldNode::MultiSelect(_)) => "multi_select",
            NodeDesc::Field(FieldNode::MultiLine(_)) => "multi_line",
            NodeDesc::Field(FieldNode::RichText(_)) => "rich_text",
            NodeDesc::Field(FieldNode::LinkedDocument(_)) => "linked_document",
            NodeDesc::Field(FieldNode::MultiLinkedDocuments(_)) => "multi_linked_document",
            NodeDesc::Container(ContainerNode::Columns(_)) => "columns",
            NodeDesc::Container(ContainerNode::Collapsible(_)) => "collapsible",
            NodeDesc::Container(ContainerNode::LabelledGroup(_)) => "labelled_group",
            NodeDesc::Container(ContainerNode::Wrapper(_)) => "wrapper",
            NodeDesc::Other(OtherNode::Text(_)) => "text",
            NodeDesc::Other(OtherNode::Alert(_)) => "alert",
        }
    }
}

/// The contract every node payload satisfies: identity, a stable kind, a
/// category, and position attributes with their setters. The identity setter
/// exists only so creation can assign a fresh id once; it is not a general
/// mutation.
pub trait TemplateNode {
    spec fn spec_pos(&self) -> NodePos;

    spec fn spec_kind(&self) -> Seq<char>;

    spec fn spec_category(&self) -> NodeCategory;

    spec fn content_same(&self, other: &Self) -> bool;

    fn id(&self) -> (r: Identifier)
        ensures
            r == self.spec_pos().id,
    ;

    fn node_kind(&self) -> (r: String)
        ensures
            r@ == self.spec_kind(),
    ;

    fn node_category(&self) -> (r: NodeCategory)
        ensures
            r == self.spec_category(),
    ;

    fn parent(&self) -> (r: Parent)
        ensures
            r == self.spec_pos().parent,
    ;

    fn previous(&self) -> (r: Option<Identifier>)
        ensures
            r == self.spec_pos().previous,
    ;

    fn next(&self) -> (r: Option<Identifier>)
        ensures
            r == self.spec_pos().next,
    ;

    fn set_parent(&mut self, parent: Parent)
        ensures
            final(self).spec_pos() == (NodePos { parent, ..old(self).spec_pos() }),
            old(self).content_same(final(self)),
    ;

    fn set_previous(&mut self, previous: Option<Identifier>)
        ensures
            final(self).spec_pos() == (NodePos { previous, ..old(self).spec_pos() }),
            old(self).content_same(final(self)),
    ;

    fn set_next(&mut self, next: Option<Identifier>)
        ensures
            final(self).spec_pos() == (NodePos { next, ..old(self).spec_pos() }),
            old(self).content_same(final(self)),
    ;

    fn set_id(&mut self, id: Identifier)
        ensures
            final(self).spec_pos() == (NodePos { id, ..old(self).spec_pos() }),
            old(self).content_same(final(self)),
    ;
}

impl TemplateNode for NodeDesc {
    open spec fn spec_pos(&self) -> NodePos {
        pos_of(*self)
    }

    open spec fn spec_kind(&self) -> Seq<char> {
        kind_of(*self)
    }

    open spec fn spec_category(&self) -> NodeCategory {
        category_of(*self)
    }

    open spec fn content_same(&self, other: &Self) -> bool {
        payload_same(*self, *other)
    }

    fn id(&self) -> (r: Identifier) {
        self.position().id.clone()
    }

    fn node_kind(&self) -> (r: String) {
        String::from_str(self.kind_text())
    }

    fn node_category(&self) -> (r: NodeCategory) {
        match self {
            NodeDesc::Field(_) => NodeCategory::Field,
            NodeDesc::Container(_) => NodeCategory::Container,
            NodeDesc::Other(_) => NodeCategory::Other,
        }
    }

    fn parent(&self) -> (r: Parent) {
        self.position().parent.clone()
    }

    fn previous(&self) -> (r: Option<Identifier>) {
        match &self.position().previous {
            Some(p) => Some(p.clone()),
            None => None,
        }
    }

    fn next(&self) -> (r: Option<Identifier>) {
        match &self.position().next {
            Some(n) => Some(n.clone()),
            None => None,
        }
    }

    fn set_parent(&mut self, parent: Parent) {
        let mut p = self.position().clone();
        p.parent = parent;
        self.set_position(p);
    }

    fn set_previous(&mut self, previous: Option<Identifier>) {
        let mut p = self.position().clone();
        p.previous = previous;
        self.set_position(p);
    }

    fn set_next(&mut self, next: Option<Identifier>) {
        let mut p = self.position().clone();
        p.next = next;
        self.set_position(p);
    }

    fn set_id(&mut self, id: Identifier) {
        let mut p = self.position().clone();
        p.id = id;
        self.set_position(p);
    }
}

/// The decimal digit character for `d`.
pub open spec fn digit_char(d: nat) -> char {
    if d == 0 {
        '0'
    } else if d == 1 {
        '1'
    } else if d == 2 {
        '2'
    } else if d == 3 {
        '3'
    } else if d == 4 {
        '4'
    } else if d == 5 {
        '5'
    } else if d == 6 {
        '6'
    } else if d == 7 {
        '7'
    } else if d == 8 {
        '8'
    } else {
        '9'
    }
}

/// The decimal digits of `n`, most significant first.
pub open spec fn dec_digits(n: nat) -> Seq<char>
    decreases n,
{
    if n < 10 {
        seq![digit_char(n)]
    } else {
        dec_digits(n / 10).push(digit_char(n % 10))
    }
}

/// The name of the `i`-th column collection of a `Columns` container.
pub open spec fn spec_col_name(i: nat) -> Seq<char> {
    "col-"@ + dec_digits(i)
}

fn digit_to_char(d: usize) -> (c: char)
    requires
        d < 10,
    ensures
        c == digit_char(d as nat),
{
    if d == 0 {
        '0'
    } else if d == 1 {
        '1'
    } else if d == 2 {
        '2'
    } else if d == 3 {
        '3'
    } else if d == 4 {
        '4'
    } else if d == 5 {
        '5'
    } else if d == 6 {
        '6'
    } else if d == 7 {
        '7'
    } else if d == 8 {
        '8'
    } else {
        '9'
    }
}

/// The decimal text of a number.
fn usize_text(n: usize) -> (r: String)
    ensures
        r@ == dec_digits(n as nat),
{
    let mut digits: Vec<char> = Vec::new();
    let mut m = n;
    proof {
        assert(dec_digits(n as nat) =~= dec_digits(m as nat) + digits@.reverse());
    }
    while m >= 10
        invariant
            dec_digits(n as nat) == dec_digits(m as nat) + digits@.reverse(),
        decreases m,
    {
        let ghost before = digits@;
        digits.push(digit_to_char(m % 10));
        proof {
            assert(digits@.reverse() =~= seq![digit_char((m % 10) as nat)] + before.reverse());
            assert(dec_digits(m as nat) == dec_digits((m / 10) as nat).push(
                digit_char((m % 10) as nat),
            ));
            assert(dec_digits((m / 10) as nat).push(digit_char((m % 10) as nat))
                + before.reverse() =~= dec_digits((m / 10) as nat) + digits@.reverse());
        }
        m = m / 10;
    }
    let ghost before = digits@;
    digits.push(digit_to_char(m));
    proof {
        assert(digits@.reverse() =~= seq![digit_char(m as nat)] + before.reverse());
        assert(dec_digits(m as nat) == seq![digit_char(m as nat)]);
        assert(dec_digits(n as nat) =~= digits@.reverse());
    }
    let mut out = String::new();
    let mut i = digits.len();
    while i > 0
        invariant
            i <= digits@.len(),
            out@.len() == digits@.len() - i,
            forall|j: int|
                0 <= j < out@.len() ==> out@[j] == digits@[digits@.len() - 1 - j],
        decreases i,
    {
        i = i - 1;
        out.push(digits[i]);
    }
    proof {
        assert(out@ =~= digits@.reverse());
    }
    out
}

/// The name of the `i`-th column collection.
fn col_name(i: usize) -> (r: String)
    ensures
        r@ == spec_col_name(i as nat),
{
    let mut out = <String as StringExecFns>::from_str("col-");
    let digits = usize_text(i);
    out.append(digits.as_str());
    out
}

fn clone_opt_text(o: &Option<String>) -> (r: Option<String>)
    ensures
        r == *o,
{
    match o {
        Some(s) => Some(s.clone()),
        None => None,
    }
}

/// The capability of container payloads: they own one or more named
/// collections that children attach to.
pub trait TemplateContainer {
    spec fn spec_collections(&self) -> Seq<Seq<char>>;

    fn collections(&self) -> (r: Vec<String>)
        ensures
            r.deep_view() == self.spec_collections(),
    ;
}

impl TemplateContainer for ContainerNode {
    open spec fn spec_collections(&self) -> Seq<Seq<char>> {
        match self {
            ContainerNode::Columns(c) => Seq::new(c.columns as nat, |i: int| spec_col_name(i as nat)),
            _ => seq!["children"@],
        }
    }

    fn collections(&self) -> (r: Vec<String>) {
        match self {
            ContainerNode::Columns(c) => {
                let mut out: Vec<String> = Vec::new();
                let mut i: usize = 0;
                while i < c.columns
                    invariant
                        i <= c.columns,
                        out@.len() == i,
                        forall|j: int| 0 <= j < i ==> (#[trigger] out@[j])@ == spec_col_name(
                            j as nat,
                        ),
                    decreases c.columns - i,
                {
                    out.push(col_name(i));
                    i += 1;
                }
                proof {
                    assert(out.deep_view() =~= Seq::new(
                        c.columns as nat,
                        |i: int| spec_col_name(i as nat),
                    ));
                }
                out
            },
            _ => {
                let out = vec![<String as StringExecFns>::from_str("children")];
                proof {
                    assert(out.deep_view() =~= seq!["children"@]);
                }
                out
            },
        }
    }
}

/// The capability of field payloads: a data key, a declared value type, a
/// kind-specific default, and presentation metadata.
pub trait TemplateField {
    spec fn spec_key(&self) -> Seq<char>;

    spec fn spec_label(&self) -> Option<Seq<char>>;

    spec fn spec_icon(&self) -> Option<Seq<char>>;

    spec fn spec_help_text(&self) -> Option<Seq<char>>;

    /// Whether `t` is exactly the value type this field kind declares.
    spec fn declares_type(&self, t: ValueType) -> bool;

    /// Whether `v` is exactly this field's default value.
    spec fn declares_default(&self, v: Value) -> bool;

    fn key(&self) -> (r: String)
        ensures
            r@ == self.spec_key(),
    ;

    fn value_type(&self) -> (r: ValueType)
        ensures
            self.declares_type(r),
    ;

    fn default_value(&self) -> (r: Value)
        ensures
            self.declares_default(r),
    ;

    fn label(&self) -> (r: Option<String>)
        ensures
            r.deep_view() == self.spec_label(),
    ;

    fn icon(&self) -> (r: Option<String>)
        ensures
            r.deep_view() == self.spec_icon(),
    ;

    fn help_text(&self) -> (r: Option<String>)
        ensures
            r.deep_view() == self.spec_help_text(),
    ;
}

impl TemplateField for FieldNode {
    open spec fn spec_key(&self) -> Seq<char> {
        match self {
            FieldNode::TextField(f) => f.key@,
            FieldNode::NumberField(f) => f.key@,
            FieldNode::Switch(f) => f.key@,
            FieldNode::SingleSelect(f) => f.key@,
            FieldNode::MultiSelect(f) => f.key@,
            FieldNode::MultiLine(f) => f.key@,
            FieldNode::RichText(f) => f.key@,
            FieldNode::LinkedDocument(f) => f.key@,
            FieldNode::MultiLinkedDocuments(f) => f.key@,
        }
    }

    open spec fn spec_label(&self) -> Option<Seq<char>> {
        match self {
            FieldNode::TextField(f) => f.label.deep_view(),
            FieldNode::NumberField(f) => f.label.deep_view(),
            FieldNode::Switch(f) => f.label.deep_view(),
            FieldNode::SingleSelect(f) => f.label.deep_view(),
            FieldNode::MultiSelect(f) => f.label.deep_view(),
            FieldNode::MultiLine(f) => f.label.deep_view(),
            FieldNode::RichText(f) => f.label.deep_view(),
            FieldNode::LinkedDocument(f) => f.label.deep_view(),
            FieldNode::MultiLinkedDocuments(f) => f.label.deep_view(),
        }
    }

    open spec fn spec_icon(&self) -> Option<Seq<char>> {
        match self {
            FieldNode::TextField(f) => f.icon.deep_view(),
            FieldNode::NumberField(f) => f.icon.deep_view(),
            FieldNode::Switch(f) => f.icon.deep_view(),
            FieldNode::SingleSelect(f) => f.icon.deep_view(),
            FieldNode::MultiSelect(f) => f.icon.deep_view(),
            FieldNode::MultiLine(f) => f.icon.deep_view(),
            FieldNode::RichText(f) => f.icon.deep_view(),
            FieldNode::LinkedDocument(f) => f.icon.deep_view(),
            FieldNode::MultiLinkedDocuments(f) => f.icon.deep_view(),
        }
    }

    open spec fn spec_help_text(&self) -> Option<Seq<char>> {
        match self {
            FieldNode::TextField(f) => f.help_text.deep_view(),
            FieldNode::NumberField(f) => f.help_text.deep_view(),
            FieldNode::Switch(f) => f.help_text.deep_view(),
            FieldNode::SingleSelect(f) => f.help_text.deep_view(),
            FieldNode::MultiSelect(f) => f.help_text.deep_view(),
            FieldNode::MultiLine(f) => f.help_text.deep_view(),
            FieldNode::RichText(f) => f.help_text.deep_view(),
            FieldNode::LinkedDocument(f) => f.help_text.deep_view(),
            FieldNode::MultiLinkedDocuments(f) => f.help_text.deep_view(),
        }
    }

    open spec fn declares_type(&self, t: ValueType) -> bool {
        match self {
            FieldNode::TextField(_) => t == ValueType::String,
            FieldNode::NumberField(_) => t == ValueType::Number,
            FieldNode::Switch(_) => t == ValueType::Boolean,
            FieldNode::SingleSelect(_) => t matches ValueType::Optional { contained } && *contained
                == ValueType::String,
            FieldNode::MultiSelect(_) => t matches ValueType::Array { elements } && *elements
                == ValueType::String,
            FieldNode::MultiLine(_) => t == ValueType::String,
            FieldNode::RichText(_) => t matches ValueType::Optional { contained } && *contained
                == ValueType::Opaque,
            FieldNode::LinkedDocument(_) => t matches ValueType::Optional { contained }
                && *contained == ValueType::Identifier,
            FieldNode::MultiLinkedDocuments(_) => t matches ValueType::Array { elements }
                && *elements == ValueType::Identifier,
        }
    }

    open spec fn declares_default(&self, v: Value) -> bool {
        match self {
            FieldNode::TextField(f) => match f.default_value {
                Some(s) => v == Value::String(s),
                None => v matches Value::String(s2) && s2@ == Seq::<char>::empty(),
            },
            FieldNode::NumberField(f) => match f.default_value {
                Some(x) => v == Value::Number(x),
                None => v == Value::Number(0),
            },
            FieldNode::Switch(f) => match f.default_value {
                Some(b) => v == Value::Bool(b),
                None => v == Value::Bool(false),
            },
            FieldNode::SingleSelect(f) => match f.default_value {
                Some(s) => v == Value::String(s),
                None => v is Null,
            },
            FieldNode::MultiSelect(f) => match f.default_value {
                Some(xs) => v matches Value::Array(items) && items@.len() == xs@.len() && (forall|
                    i: int,
                |
                    0 <= i < items@.len() ==> #[trigger] items@[i] == Value::String(xs@[i])),
                None => v matches Value::Array(items) && items@.len() == 0,
            },
            FieldNode::MultiLine(f) => match f.default_value {
                Some(s) => v == Value::String(s),
                None => v matches Value::String(s2) && s2@ == Seq::<char>::empty(),
            },
            FieldNode::RichText(_) => v is Null,
            FieldNode::LinkedDocument(_) => v is Null,
            FieldNode::MultiLinkedDocuments(_) => v matches Value::Array(items) && items@.len()
                == 0,
        }
    }

    fn key(&self) -> (r: String) {
        match self {
            FieldNode::TextField(f) => f.key.clone(),
            FieldNode::NumberField(f) => f.key.clone(),
            FieldNode::Switch(f) => f.key.clone(),
            FieldNode::SingleSelect(f) => f.key.clone(),
            FieldNode::MultiSelect(f) => f.key.clone(),
            FieldNode::MultiLine(f) => f.key.clone(),
            FieldNode::RichText(f) => f.key.clone(),
            FieldNode::LinkedDocument(f) => f.key.clone(),
            FieldNode::MultiLinkedDocuments(f) => f.key.clone(),
        }
    }

    fn value_type(&self) -> (r: ValueType) {
        match self {
            FieldNode::TextField(_) => ValueType::string(),
            FieldNode::NumberField(_) => ValueType::number(),
            FieldNode::Switch(_) => ValueType::boolean(),
            FieldNode::SingleSelect(_) => ValueType::optional(ValueType::string()),
            FieldNode::MultiSelect(_) => ValueType::array(ValueType::string()),
            FieldNode::MultiLine(_) => ValueType::string(),
            FieldNode::RichText(_) => ValueType::optional(ValueType::opaque()),
            FieldNode::LinkedDocument(_) => ValueType::optional(ValueType::identifier()),
            FieldNode::MultiLinkedDocuments(_) => ValueType::array(ValueType::identifier()),
        }
    }

    fn default_value(&self) -> (r: Value) {
        match self {
            FieldNode::TextField(f) => match &f.default_value {
                Some(s) => Value::String(s.clone()),
                None => Value::String(String::new()),
            },
            FieldNode::NumberField(f) => match &f.default_value {
                Some(x) => Value::Number(*x),
                None => Value::Number(0),
            },
            FieldNode::Switch(f) => match &f.default_value {
                Some(b) => Value::Bool(*b),
                None => Value::Bool(false),
            },
            FieldNode::SingleSelect(f) => match &f.default_value {
                Some(s) => Value::String(s.clone()),
                None => Value::Null,
            },
            FieldNode::MultiSelect(f) => match &f.default_value {
                Some(xs) => {
                    let mut items: Vec<Value> = Vec::new();
                    let mut i: usize = 0;
                    while i < xs.len()
                        invariant
                            i <= xs@.len(),
                            items@.len() == i,
                            forall|j: int|
                                0 <= j < i ==> #[trigger] items@[j] == Value::String(xs@[j]),
                        decreases xs@.len() - i,
                    {
                        items.push(Value::String(xs[i].clone()));
                        i += 1;
                    }
                    Value::Array(items)
                },
                None => Value::Array(Vec::new()),
            },
            FieldNode::MultiLine(f) => match &f.default_value {
                Some(s) => Value::String(s.clone()),
                None => Value::String(String::new()),
            },
            FieldNode::RichText(_) => Value::Null,
            FieldNode::LinkedDocument(_) => Value::Null,
            FieldNode::MultiLinkedDocuments(_) => Value::Array(Vec::new()),
        }
    }

    fn label(&self) -> (r: Option<String>) {
        match self {
            FieldNode::TextField(f) => clone_opt_text(&f.label),
            FieldNode::NumberField(f) => clone_opt_text(&f.label),
            FieldNode::Switch(f) => clone_opt_text(&f.label),
            FieldNode::SingleSelect(f) => clone_opt_text(&f.label),
            FieldNode::MultiSelect(f) => clone_opt_text(&f.label),
            FieldNode::MultiLine(f) => clone_opt_text(&f.label),
            FieldNode::RichText(f) => clone_opt_text(&f.label),
            FieldNode::LinkedDocument(f) => clone_opt_text(&f.label),
            FieldNode::MultiLinkedDocuments(f) => clone_opt_text(&f.label),
        }
    }

    fn icon(&self) -> (r: Option<String>) {
        match self {
            FieldNode::TextField(f) => clone_opt_text(&f.icon),
            FieldNode::NumberField(f) => clone_opt_text(&f.icon),
            FieldNode::Switch(f) => clone_opt_text(&f.icon),
            FieldNode::SingleSelect(f) => clone_opt_text(&f.icon),
            FieldNode::MultiSelect(f) => clone_opt_text(&f.icon),
            FieldNode::MultiLine(f) => clone_opt_text(&f.icon),
            FieldNode::RichText(f) => clone_opt_text(&f.icon),
            FieldNode::LinkedDocument(f) => clone_opt_text(&f.icon),
            FieldNode::MultiLinkedDocuments(f) => clone_opt_text(&f.icon),
        }
    }

    fn help_text(&self) -> (r: Option<String>) {
        match self {
            FieldNode::TextField(f) => clone_opt_text(&f.help_text),
            FieldNode::NumberField(f) => clone_opt_text(&f.help_text),
            FieldNode::Switch(f) => clone_opt_text(&f.help_text),
            FieldNode::SingleSelect(f) => clone_opt_text(&f.help_text),
            FieldNode::MultiSelect(f) => clone_opt_text(&f.help_text),
            FieldNode::MultiLine(f) => clone_opt_text(&f.help_text),
            FieldNode::RichText(f) => clone_opt_text(&f.help_text),
            FieldNode::LinkedDocument(f) => clone_opt_text(&f.help_text),
            FieldNode::MultiLinkedDocuments(f) => clone_opt_text(&f.help_text),
        }
    }
}

/// The flat stored record of a node: its payload plus the indexed position
/// attributes, which always mirror the payload's embedded ones.
pub struct Node {
    pub id: Identifier,
    pub template: Identifier,
    pub parent: Parent,
    pub previous: Option<Identifier>,
    pub next: Option<Identifier>,
    pub node: NodeDesc,
}

impl Node {
    /// Assembles the stored record for a payload under the given template,
    /// lifting the payload's embedded position into the indexed fields.
    pub fn create(template: Identifier, node: NodeDesc) -> (r: Node)
        ensures
            r.id == pos_of(node).id,
            r.template == template,
            r.parent == pos_of(node).parent,
            r.previous == pos_of(node).previous,
            r.next == pos_of(node).next,
            r.node == node,
    {
        let p = node.position().clone();
        Node { id: p.id, template, parent: p.parent, previous: p.previous, next: p.next, node }
    }
}

} // verus!
