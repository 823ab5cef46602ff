//! Placement, package and layout types shared by templates and nodes.

use vstd::prelude::*;
use crate::ident::Identifier;

verus! {

/// Where a node sits: directly under the template (`Root`) or inside a named
/// collection slot of a container node.
#[derive(Debug)]
pub enum Parent {
    Root,
    Child { parent: Identifier, collection: String },
}

/// The mathematical shape of a `Parent` value.
pub ghost enum ParentV {
    Root,
    Child { parent: Seq<char>, collection: Seq<char> },
}

impl View for Parent {
    type V = ParentV;

    open spec fn view(&self) -> ParentV {
        match self {
            Parent::Root => ParentV::Root,
            Parent::Child { parent, collection } => ParentV::Child {
                parent: parent@,
                collection: collection@,
            },
        }
    }
}

impl Clone for Parent {
    fn clone(&self) -> (r: Self)
        ensures
            r == *self,
    {
        match self {
            Parent::Root => Parent::Root,
            Parent::Child { parent, collection } => Parent::Child {
                parent: parent.clone(),
                collection: collection.clone(),
            },
        }
    }
}

impl Default for Parent {
    fn default() -> (r: Self)
        ensures
            r == Parent::Root,
    {
        Parent::Root
    }
}

impl Parent {
    /// The stable textual index key of this placement.
    pub fn key_text(&self) -> (r: String)
        ensures
            r@ == self.spec_key_text(),
    {
        match self {
            Parent::Root => <String as vstd::string::StringExecFns>::from_str("root::root/root"),
            Parent::Child { parent, collection } => {
                let mut out = <String as vstd::string::StringExecFns>::from_str("child::");
                out.append(parent.text().as_str());
                out.append("/");
                out.append(collection.as_str());
                out
            },
        }
    }

    pub open spec fn spec_key_text(self) -> Seq<char> {
        match self {
            Parent::Root => "root::root/root"@,
            Parent::Child { parent, collection } => "child::"@ + parent@ + "/"@ + collection@,
        }
    }

    /// Whether two placements denote the same collection slot.
    pub fn same_slot(&self, other: &Parent) -> (r: bool)
        ensures
            r == (self@ == other@),
    {
        match (self, other) {
            (Parent::Root, Parent::Root) => true,
            (
                Parent::Child { parent: p1, collection: c1 },
                Parent::Child { parent: p2, collection: c2 },
            ) => *p1 == *p2 && *c1 == *c2,
            _ => false,
        }
    }
}

/// Scopes template ownership: the open project, the application itself, or an
/// externally supplied package.
#[derive(Clone, Copy, PartialEq, Eq, Structural, Debug)]
pub enum InnerPackageId {
    Project,
    Internal,
}

#[derive(Debug)]
pub enum PackageId {
    Project(InnerPackageId),
    Internal(InnerPackageId),
    Package(String),
}

/// The mathematical shape of a `PackageId` value.
pub ghost enum PackageIdV {
    Project,
    Internal,
    Package(Seq<char>),
}

impl View for PackageId {
    type V = PackageIdV;

    open spec fn view(&self) -> PackageIdV {
        match self {
            PackageId::Project(_) => PackageIdV::Project,
            PackageId::Internal(_) => PackageIdV::Internal,
            PackageId::Package(name) => PackageIdV::Package(name@),
        }
    }
}

impl Clone for PackageId {
    fn clone(&self) -> (r: Self)
        ensures
            r == *self,
    {
        match self {
            PackageId::Project(inner) => PackageId::Project(*inner),
            PackageId::Internal(inner) => PackageId::Internal(*inner),
            PackageId::Package(name) => PackageId::Package(name.clone()),
        }
    }
}

impl PackageId {
    /// The stable textual form of this package id; package ids round-trip
    /// through it.
    pub fn text(&self) -> (r: String)
        ensures
            r@ == self.spec_text(),
    {
        match self {
            PackageId::Project(_) => <String as vstd::string::StringExecFns>::from_str(
                "::project",
            ),
            PackageId::Internal(_) => <String as vstd::string::StringExecFns>::from_str(
                "::internal",
            ),
            PackageId::Package(package_id) => package_id.clone(),
        }
    }

    pub open spec fn spec_text(self) -> Seq<char> {
        match self {
            PackageId::Project(_) => "::project"@,
            PackageId::Internal(_) => "::internal"@,
            PackageId::Package(package_id) => package_id@,
        }
    }

    pub fn project() -> (r: Self)
        ensures
            r@ == PackageIdV::Project,
    {
        PackageId::Project(InnerPackageId::Project)
    }

    pub fn internal() -> (r: Self)
        ensures
            r@ == PackageIdV::Internal,
    {
        PackageId::Internal(InnerPackageId::Internal)
    }

    pub fn package(id: String) -> (r: Self)
        ensures
            r@ == PackageIdV::Package(id@),
    {
        PackageId::Package(id)
    }

    /// Whether two package identifiers denote the same package.
    pub fn same_package(&self, other: &PackageId) -> (r: bool)
        ensures
            r == (self@ == other@),
    {
        match (self, other) {
            (PackageId::Project(_), PackageId::Project(_)) => true,
            (PackageId::Internal(_), PackageId::Internal(_)) => true,
            (PackageId::Package(a), PackageId::Package(b)) => *a == *b,
            _ => false,
        }
    }
}

impl From<String> for PackageId {
    /// The inverse of `text`: the two reserved forms map back to the project
    /// and internal scopes, anything else names an external package.
    fn from(value: String) -> (r: Self) {
        if value == <String as vstd::string::StringExecFns>::from_str("::project") {
            proof {
                reveal_strlit("::project");
                reveal_strlit("::internal");
            }
            PackageId::Project(InnerPackageId::Project)
        } else if value == <String as vstd::string::StringExecFns>::from_str("::internal") {
            PackageId::Internal(InnerPackageId::Internal)
        } else {
            PackageId::Package(value)
        }
    }
}

impl vstd::std_specs::convert::FromSpecImpl<String> for PackageId {
    open spec fn obeys_from_spec() -> bool {
        true
    }

    open spec fn from_spec(v: String) -> Self {
        if v@ == "::project"@ {
            PackageId::Project(InnerPackageId::Project)
        } else if v@ == "::internal"@ {
            PackageId::Internal(InnerPackageId::Internal)
        } else {
            PackageId::Package(v)
        }
    }
}

impl Default for PackageId {
    fn default() -> (r: Self)
        ensures
            r@ == PackageIdV::Project,
    {
        PackageId::Project(InnerPackageId::Project)
    }
}

/// How a template's form is laid out.
#[derive(Clone, Copy, PartialEq, Eq, Structural, Debug)]
pub enum LayoutKind {
    Form,
    RichDocument,
    InteractableMap,
    Calendar,
    Timeline,
}

impl LayoutKind {
    /// The stable textual key of this layout kind.
    pub fn key_text(&self) -> (r: &'static str)
        ensures
            r@ == self.spec_key_text(),
    {
        match self {
            LayoutKind::Form => "form",
            LayoutKind::RichDocument => "rich_document",
            LayoutKind::InteractableMap => "interactable_map",
            LayoutKind::Calendar => "calendar",
            LayoutKind::Timeline => "timeline",
        }
    }

    pub open spec fn spec_key_text(self) -> Seq<char> {
        match self {
            LayoutKind::Form => "form"@,
            LayoutKind::RichDocument => "rich_document"@,
            LayoutKind::InteractableMap => "interactable_map"@,
            LayoutKind::Calendar => "calendar"@,
            LayoutKind::Timeline => "timeline"@,
        }
    }
}

} // verus!
