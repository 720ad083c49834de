use vstd::prelude::*;

verus! {

/// An opaque principal: the admin, a claimant, or a token.
///
/// An identity is known by its name alone. Two identities are the same
/// principal exactly when their names are equal; nothing else about a name
/// is interpreted.
#[derive(Debug)]
pub struct Identity {
    name: String,
}

impl View for Identity {
    type V = Seq<char>;

    closed spec fn view(&self) -> Seq<char> {
        self.name@
    }
}

impl Identity {
    /// The identity that goes by `name`.
    pub fn new(name: String) -> (id: Identity)
        ensures
            id@ == name@,
    {
        Identity { name }
    }

    /// The name this identity goes by.
    pub fn name(&self) -> (name: &String)
        ensures
            name@ == self@,
    {
        &self.name
    }
}

impl Clone for Identity {
    fn clone(&self) -> (id: Identity)
        ensures
            id == *self,
    {
        Identity { name: self.name.clone() }
    }
}

impl PartialEq for Identity {
    fn eq(&self, other: &Identity) -> (same: bool) {
        self.name == other.name
    }
}

impl Eq for Identity {}

impl vstd::std_specs::cmp::PartialEqSpecImpl for Identity {
    open spec fn obeys_eq_spec() -> bool {
        true
    }

    open spec fn eq_spec(&self, other: &Identity) -> bool {
        self@ == other@
    }
}

} // verus!
