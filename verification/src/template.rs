//! Template entities: named schemas owning a root namespace of nodes.

use vstd::prelude::*;
use convert_case::Casing;
use crate::ident::Identifier;
use crate::nodes::{Node, NodeDesc, pos_of};
use crate::types::{LayoutKind, PackageId, Parent};

verus! {

/// Relies on `String::push`: appends the given character to the end of the
/// string.
pub assume_specification[ std::string::String::push ](s: &mut String, c: char)
    ensures
        final(s)@ == old(s)@.push(c),
;

/// What `convert_case` turns a name into under its snake-case rule: a function
/// of the input characters alone.
pub uninterp spec fn snake_of(s: Seq<char>) -> Seq<char>;

/// Relies on `convert_case::Casing::to_case` with `convert_case::Case::Snake`:
/// the result depends on the input characters alone.
#[verifier::external_body]
fn to_snake_case(s: &String) -> (r: String)
    ensures
        r@ == snake_of(s@),
{
    s.as_str().to_case(convert_case::Case::Snake)
}

/// Whether a character survives into a friendly id: the restricted set
/// `[a-z0-9_.-]`.
pub open spec fn slug_char(c: char) -> bool {
    ('a' <= c && c <= 'z') || ('0' <= c && c <= '9') || c == '_' || c == '.' || c == '-'
}

/// The characters of `s` that survive into a friendly id, in order.
pub open spec fn slug_of(s: Seq<char>) -> Seq<char>
    decreases s.len(),
{
    if s.len() == 0 {
        Seq::empty()
    } else if slug_char(s.last()) {
        slug_of(s.drop_last()).push(s.last())
    } else {
        slug_of(s.drop_last())
    }
}

/// The friendly id a template name slugs to: its snake-case form restricted to
/// the characters `[a-z0-9_.-]`.
pub open spec fn friendly_id_of(name: Seq<char>) -> Seq<char> {
    slug_of(snake_of(name))
}

fn is_slug_char(c: char) -> (r: bool)
    ensures
        r == slug_char(c),
{
    ('a' <= c && c <= 'z') || ('0' <= c && c <= '9') || c == '_' || c == '.' || c == '-'
}

/// Derives the unique friendly id for a template name.
pub fn derive_friendly_id(name: &String) -> (r: String)
    ensures
        r@ == friendly_id_of(name@),
{
    let snake = to_snake_case(name);
    let snake_str = snake.as_str();
    let n = snake_str.unicode_len();
    let mut out = String::new();
    let mut i: usize = 0;
    while i < n
        invariant
            n == snake@.len(),
            snake_str@ == snake@,
            0 <= i <= n,
            out@ == slug_of(snake@.subrange(0, i as int)),
        decreases n - i,
    {
        let c = snake_str.get_char(i);
        proof {
            let pre = snake@.subrange(0, i as int);
            let ext = snake@.subrange(0, i + 1);
            assert(ext.drop_last() =~= pre);
            assert(ext.last() == snake@[i as int]);
        }
        if is_slug_char(c) {
            out.push(c);
        }
        i += 1;
    }
    proof {
        assert(snake@.subrange(0, snake@.len() as int) =~= snake@);
    }
    out
}

/// A named schema: the root of a tree of nodes.
pub struct Template {
    pub id: Identifier,
    pub friendly_id: String,
    pub name: String,
    pub package: PackageId,
    pub inherit: Option<Identifier>,
    pub icon: Option<String>,
    pub description: Option<String>,
    pub layout: LayoutKind,
}

impl Clone for Template {
    fn clone(&self) -> (r: Self)
        ensures
            r == *self,
    {
        let r = Template {
            id: self.id.clone(),
            friendly_id: self.friendly_id.clone(),
            name: self.name.clone(),
            package: self.package.clone(),
            inherit: match &self.inherit {
                Some(t) => Some(t.clone()),
                None => None,
            },
            icon: match &self.icon {
                Some(t) => Some(t.clone()),
                None => None,
            },
            description: match &self.description {
                Some(t) => Some(t.clone()),
                None => None,
            },
            layout: self.layout,
        };
        proof {
            assert(r.inherit == self.inherit);
            assert(r.icon == self.icon);
            assert(r.description == self.description);
        }
        r
    }
}

impl Template {
    /// Assembles the stored record linking a payload to this template.
    pub fn link_node(&self, node: NodeDesc) -> (r: Node)
        ensures
            r.id == pos_of(node).id,
            r.template == self.id,
            r.parent == pos_of(node).parent,
            r.previous == pos_of(node).previous,
            r.next == pos_of(node).next,
            r.node == node,
    {
        Node::create(self.id.clone(), node)
    }
}

/// The caller-supplied description of a template to create.
pub struct CreateTemplateModel {
    pub icon: Option<String>,
    pub name: String,
    pub description: Option<String>,
    pub layout: LayoutKind,
    pub inherit: Option<Identifier>,
}

/// The caller-specified target position for a create or move operation.
pub enum NodePlacement {
    After(Identifier),
    Before(Identifier),
    Into(Parent),
}

} // verus!
