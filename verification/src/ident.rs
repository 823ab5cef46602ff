//! Opaque unique identifiers for templates and nodes.

use vstd::prelude::*;

verus! {

/// What `uuid::Uuid::parse_str` accepts: a function of the characters alone.
pub uninterp spec fn uuid_accepts(s: Seq<char>) -> bool;

/// Relies on `uuid::Uuid::new_v4` and `uuid::fmt::Hyphenated`: the textual form
/// of a freshly generated identifier is accepted back by `uuid::Uuid::parse_str`.
#[verifier::external_body]
fn fresh_uuid_string() -> (r: String)
    ensures
        uuid_accepts(r@),
{
    uuid::Uuid::new_v4().to_string()
}

/// Relies on `uuid::Uuid::parse_str`: acceptance depends on the characters alone.
#[verifier::external_body]
pub fn uuid_parse_ok(s: &str) -> (r: bool)
    ensures
        r == uuid_accepts(s@),
{
    uuid::Uuid::parse_str(s).is_ok()
}

/// An opaque string-backed unique token; the primary key of every stored entity.
#[derive(Debug)]
pub struct Identifier(String);

impl View for Identifier {
    type V = Seq<char>;

    closed spec fn view(&self) -> Seq<char> {
        self.0@
    }
}

impl DeepView for Identifier {
    type V = Seq<char>;

    open spec fn deep_view(&self) -> Seq<char> {
        self@
    }
}

impl Clone for Identifier {
    fn clone(&self) -> (r: Self)
        ensures
            r == *self,
    {
        Identifier(self.0.clone())
    }
}

impl PartialEq for Identifier {
    fn eq(&self, other: &Identifier) -> (r: bool) {
        self.0 == other.0
    }
}

impl vstd::std_specs::cmp::PartialEqSpecImpl for Identifier {
    open spec fn obeys_eq_spec() -> bool {
        true
    }

    open spec fn eq_spec(&self, other: &Identifier) -> bool {
        self@ == other@
    }
}

impl From<String> for Identifier {
    fn from(value: String) -> (r: Self) {
        Identifier(value)
    }
}

impl vstd::std_specs::convert::FromSpecImpl<String> for Identifier {
    open spec fn obeys_from_spec() -> bool {
        true
    }

    closed spec fn from_spec(v: String) -> Self {
        Identifier(v)
    }
}

impl Default for Identifier {
    /// A fresh identifier.
    fn default() -> (r: Self)
        ensures
            uuid_accepts(r@),
    {
        Identifier::new()
    }
}

impl Identifier {
    /// A fresh, statistically-unique token.
    pub fn new() -> (r: Identifier)
        ensures
            uuid_accepts(r@),
    {
        Identifier(fresh_uuid_string())
    }

    /// Wraps an existing textual form as an identifier.
    pub fn from_text(s: String) -> (r: Identifier)
        ensures
            r@ == s@,
    {
        Identifier(s)
    }

    /// The plain string form; identifiers serialize to exactly this.
    pub fn text(&self) -> (r: &String)
        ensures
            r@ == self@,
    {
        &self.0
    }
}

} // verus!
