use vstd::prelude::*;

use crate::account::AccountId;
use crate::decimal::{dec_digits, push_decimal};
use crate::error::Error;
use crate::nft::ArtNft;

verus! {

/// Collection-metadata operations of the token standard: configuring the
/// base URI and deriving each token's metadata location from it.
pub trait Psp34Traits: Sized {
    /// Well-formedness carried through every operation.
    spec fn pt_wf(&self) -> bool;

    /// The privileged account that may configure the collection.
    spec fn pt_owner(&self) -> AccountId;

    /// Whether a base URI is configured.
    spec fn pt_has_base_uri(&self) -> bool;

    /// The configured base URI (meaningful when one is configured).
    spec fn pt_base_uri(&self) -> Seq<char>;

    /// Everything except the base URI agrees between the two states.
    spec fn pt_same_but_base_uri(&self, post: &Self) -> bool;

    /// Changes the collection's base URI: the location prefix of the
    /// metadata files when the collection keeps its artwork on an
    /// external source. Only the collection owner may perform this; an
    /// attempt by anyone else fails `CallerIsNotOwner` and changes
    /// nothing. Overwriting is idempotent.
    fn set_base_uri(&mut self, caller: AccountId, uri: String) -> (r: Result<(), Error>)
        requires
            old(self).pt_wf(),
        ensures
            final(self).pt_wf(),
            caller != old(self).pt_owner() ==> r == Err::<(), Error>(Error::CallerIsNotOwner)
                && *final(self) == *old(self),
            caller == old(self).pt_owner() ==> r == Ok::<(), Error>(())
                && final(self).pt_has_base_uri() && final(self).pt_base_uri() == uri@
                && old(self).pt_same_but_base_uri(final(self)),
    ;

    /// The metadata location of token `token_id`: the base URI, the
    /// decimal representation of the identifier, and the literal suffix
    /// `.json`, concatenated — whether or not the token is minted. Fails
    /// `BaseUriNotSet` when no base URI is configured (unreachable after
    /// ordinary construction, which always sets a default).
    fn token_uri(&self, token_id: u64) -> (r: Result<String, Error>)
        requires
            self.pt_wf(),
        ensures
            self.pt_has_base_uri() ==> (r matches Ok(s) && s@ == self.pt_base_uri() + dec_digits(
                token_id as nat,
            ) + ".json"@),
            !self.pt_has_base_uri() ==> r == Err::<String, Error>(Error::BaseUriNotSet),
    ;
}

impl Psp34Traits for ArtNft {
    open spec fn pt_wf(&self) -> bool {
        self.wf()
    }

    open spec fn pt_owner(&self) -> AccountId {
        self.contract_owner
    }

    open spec fn pt_has_base_uri(&self) -> bool {
        self.spec_base_uri() is Some
    }

    open spec fn pt_base_uri(&self) -> Seq<char> {
        match self.spec_base_uri() {
            Some(v) => v,
            None => Seq::<char>::empty(),
        }
    }

    open spec fn pt_same_but_base_uri(&self, post: &Self) -> bool {
        &&& post.contract_owner == self.contract_owner
        &&& post.registry == self.registry
        &&& post.nonce == self.nonce
        &&& post.collection_loc_id == self.collection_loc_id
        &&& post.cert_host == self.cert_host
        &&& forall|k: Seq<char>|
            k != "baseURI"@ ==> #[trigger] post.attributes.spec_get(k)
                == self.attributes.spec_get(k)
    }

    fn set_base_uri(&mut self, caller: AccountId, uri: String) -> (r: Result<(), Error>) {
        if !(caller == self.contract_owner) {
            return Err(Error::CallerIsNotOwner);
        }
        let key = String::from_str("baseURI");
        self.attributes.set_attribute(key, uri);
        Ok(())
    }

    fn token_uri(&self, token_id: u64) -> (r: Result<String, Error>) {
        let key = String::from_str("baseURI");
        match self.attributes.get_attribute(&key) {
            Some(base) => {
                let mut s = base;
                push_decimal(&mut s, token_id);
                s.append(".json");
                proof {
                    assert(s@ =~= self.pt_base_uri() + dec_digits(token_id as nat) + ".json"@);
                }
                Ok(s)
            },
            None => Err(Error::BaseUriNotSet),
        }
    }
}

} // verus!
