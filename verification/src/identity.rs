//! Identities of the parties that act on the treasury.

use vstd::prelude::*;

verus! {

/// A party known to the ledger, named by its address in text form.
///
/// Two identities denote the same party exactly when their addresses hold the
/// same characters. Authentication is the caller's business: an `Identity`
/// handed to the treasury is taken to be verified.
#[derive(Debug, PartialEq, Eq)]
pub struct Identity {
    pub address: String,
}

impl View for Identity {
    type V = Seq<char>;

    open spec fn view(&self) -> Seq<char> {
        self.address@
    }
}

/// The view of an identity that may be missing.
pub open spec fn optional_identity(who: Option<Identity>) -> Option<Seq<char>> {
    match who {
        Some(who) => Some(who@),
        None => None,
    }
}

/// The views of the identities in a vector, in order.
pub open spec fn identity_models(identities: Seq<Identity>) -> Seq<Seq<char>> {
    identities.map_values(|who: Identity| who@)
}

impl Clone for Identity {
    fn clone(&self) -> (r: Self)
        ensures
            r == *self,
    {
        Identity { address: self.address.clone() }
    }
}

impl Identity {
    /// The identity with the given address.
    pub fn new(address: &str) -> (r: Self)
        ensures
            r@ == address@,
    {
        Identity { address: address.to_owned() }
    }

    /// The address in text form.
    pub fn as_str(&self) -> (r: &str)
        ensures
            r@ == self@,
    {
        self.address.as_str()
    }

    /// Whether both identities denote the same party.
    pub fn same_as(&self, other: &Identity) -> (r: bool)
        ensures
            r == (self@ == other@),
    {
        self.address == other.address
    }

    /// Whether `self` is among `identities`.
    pub fn is_among(&self, identities: &Vec<Identity>) -> (found: bool)
        ensures
            found == identity_models(identities@).contains(self@),
    {
        let mut i: usize = 0;
        while i < identities.len()
            invariant
                i <= identities.len(),
                forall|j: int| 0 <= j < i ==> #[trigger] identity_models(identities@)[j] != self@,
            decreases identities.len() - i,
        {
            if identities[i].same_as(self) {
                proof {
                    assert(identity_models(identities@)[i as int] == self@);
                }
                return true;
            }
            i = i + 1;
        }
        false
    }
}

/// A copy of `identities`.
pub fn clone_identities(identities: &Vec<Identity>) -> (copy: Vec<Identity>)
    ensures
        identity_models(copy@) == identity_models(identities@),
{
    let mut copy: Vec<Identity> = Vec::new();
    let mut i: usize = 0;
    while i < identities.len()
        invariant
            i <= identities.len(),
            identity_models(copy@) == identity_models(identities@).take(i as int),
        decreases identities.len() - i,
    {
        let ghost copied = identity_models(copy@);
        let who = identities[i].clone();
        copy.push(who);
        proof {
            assert(identity_models(copy@) =~= copied.push(who@));
            assert(identity_models(copy@) =~= identity_models(identities@).take(i + 1));
        }
        i = i + 1;
    }
    proof {
        assert(identity_models(identities@).take(i as int) =~= identity_models(identities@));
    }
    copy
}

} // verus!
