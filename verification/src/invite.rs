//! Invitations: the record by which a service introduces itself to a new
//! client, carrying its name, its address and the two keys they will share.

use vstd::prelude::*;
use crate::crypto::Key;

verus! {

/// An invitation as a value.
pub struct InviteView {
    pub name: Seq<char>,
    pub url: Seq<char>,
    pub inner_key: Seq<u8>,
    pub outer_key: Seq<u8>,
}

/// What a service hands to a client so that the client can connect to it.
#[derive(PartialEq, Eq)]
pub struct Invite {
    name: String,
    url: String,
    inner_key: Key,
    outer_key: Key,
}

impl View for Invite {
    type V = InviteView;

    closed spec fn view(&self) -> InviteView {
        InviteView {
            name: self.name@,
            url: self.url@,
            inner_key: self.inner_key.data@,
            outer_key: self.outer_key.data@,
        }
    }
}

impl Clone for Invite {
    fn clone(&self) -> (r: Self)
        ensures
            r@ == self@,
    {
        Invite {
            name: self.name.clone(),
            url: self.url.clone(),
            inner_key: self.inner_key.clone(),
            outer_key: self.outer_key.clone(),
        }
    }
}

impl Invite {
    /// The invitation of the service `name` at `url`, with the two keys.
    pub fn new(name: &str, url: &str, inner_key: &Key, outer_key: &Key) -> (r: Self)
        ensures
            r@ == (InviteView {
                name: name@,
                url: url@,
                inner_key: inner_key.data@,
                outer_key: outer_key.data@,
            }),
    {
        Invite {
            name: name.to_owned(),
            url: url.to_owned(),
            inner_key: inner_key.clone(),
            outer_key: outer_key.clone(),
        }
    }

    pub fn name(&self) -> (r: String)
        ensures
            r@ == self@.name,
    {
        self.name.clone()
    }

    pub fn url(&self) -> (r: String)
        ensures
            r@ == self@.url,
    {
        self.url.clone()
    }

    /// The key that protects what the two ends say to each other.
    pub fn inner_key(&self) -> (r: Key)
        ensures
            r.data@ == self@.inner_key,
    {
        self.inner_key.clone()
    }

    /// The key that protects the hop between the two.
    pub fn outer_key(&self) -> (r: Key)
        ensures
            r.data@ == self@.outer_key,
    {
        self.outer_key.clone()
    }
}

} // verus!
