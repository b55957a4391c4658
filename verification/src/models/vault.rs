//! A named vault.

use vstd::prelude::*;

verus! {

/// A vault: a named set of files. `id` is assigned by the server and is
/// `None` only in a request that has not been stored yet.
#[derive(Debug)]
pub struct Vault {
    pub id: Option<i32>,
    pub name: String,
}

/// The mathematical value of a [`Vault`].
pub struct VaultView {
    pub id: Option<i32>,
    pub name: Seq<char>,
}

impl View for Vault {
    type V = VaultView;

    open spec fn view(&self) -> VaultView {
        VaultView { id: self.id, name: self.name@ }
    }
}

impl Vault {
    /// A request for the vault called `name`, not yet stored.
    pub fn named(name: String) -> (v: Vault)
        ensures
            v@ == (VaultView { id: None, name: name@ }),
    {
        Vault { id: None, name }
    }

    /// An independent copy with the same value.
    pub fn duplicate(&self) -> (v: Vault)
        ensures
            v@ == self@,
    {
        Vault { id: self.id, name: self.name.clone() }
    }
}

} // verus!
