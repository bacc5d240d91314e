use vstd::prelude::*;

use crate::account::AccountId;
use crate::attributes::AttributeStore;
use crate::error::Error;
use crate::registry::{transfer_updates, Registry};

verus! {

/// The identifiers a batch mint hands to `a`: for each position `k` of
/// `accounts` holding `a`, the identifier `t + k`, in input order, where
/// `t` is the total supply when the batch starts.
pub open spec fn minted_ids(accounts: Seq<AccountId>, t: int, a: AccountId) -> Seq<u64>
    decreases accounts.len(),
{
    if accounts.len() == 0 {
        Seq::<u64>::empty()
    } else {
        let rest = minted_ids(accounts.drop_last(), t, a);
        if accounts.last() == a {
            rest.push(((t + accounts.len() - 1) as u64))
        } else {
            rest
        }
    }
}

/// The collection: ownership registry with enumerations, single-owner
/// access control, collection metadata, and the opaque certification
/// fields that an external notarization service consumes verbatim.
pub struct ArtNft {
    /// The privileged account, set once at construction: the only one
    /// allowed to mint and to configure the base URI.
    pub contract_owner: AccountId,
    /// Canonical ownership, approvals and enumerations.
    pub registry: Registry,
    /// Collection metadata, including the base URI.
    pub attributes: AttributeStore,
    /// Opaque certification field, stored unvalidated and exposed verbatim.
    pub nonce: String,
    /// Opaque certification field, stored unvalidated and exposed verbatim.
    pub collection_loc_id: u128,
    /// Opaque certification field, stored unvalidated and exposed verbatim.
    pub cert_host: String,
}

impl ArtNft {
    /// Well-formedness of the whole collection state.
    pub open spec fn wf(self) -> bool {
        &&& self.registry.wf()
        &&& self.attributes.wf()
    }

    /// Total number of minted tokens.
    pub open spec fn spec_supply(self) -> int {
        self.registry.supply()
    }

    /// Whether `id` has been minted.
    pub open spec fn spec_minted(self, id: u64) -> bool {
        self.registry.minted(id)
    }

    /// The current owner of a minted token.
    pub open spec fn spec_token_owner(self, id: u64) -> AccountId {
        self.registry.token_owner(id)
    }

    /// The ordered enumeration of the tokens `a` holds.
    pub open spec fn spec_tokens_of(self, a: AccountId) -> Seq<u64> {
        self.registry.tokens_of(a)
    }

    /// Number of tokens `a` holds.
    pub open spec fn spec_balance(self, a: AccountId) -> int {
        self.registry.balance(a)
    }

    /// The configured base URI, if any.
    pub open spec fn spec_base_uri(self) -> Option<Seq<char>> {
        self.attributes.spec_get("baseURI"@)
    }

    /// Creates the collection: the caller becomes the collection owner,
    /// nothing is minted, the certification fields are stored verbatim,
    /// and the base URI is set to its default value. The default write is
    /// the first write to an empty store, so construction cannot fail.
    pub fn new(caller: AccountId, nonce: String, collection_loc_id: u128, cert_host: String) -> (c:
        ArtNft)
        ensures
            c.wf(),
            c.contract_owner == caller,
            c.spec_supply() == 0,
            forall|a: AccountId| #[trigger] c.spec_balance(a) == 0,
            forall|id: u64| !c.spec_minted(id),
            c.spec_base_uri() == Some("undefined"@),
            c.nonce == nonce,
            c.collection_loc_id == collection_loc_id,
            c.cert_host == cert_host,
    {
        let mut attributes = AttributeStore::new();
        attributes.set_attribute(String::from_str("baseURI"), String::from_str("undefined"));
        ArtNft {
            contract_owner: caller,
            registry: Registry::new(),
            attributes,
            nonce,
            collection_loc_id,
            cert_host,
        }
    }

    /// Mints one token for each given account, in input order. With `t`
    /// the total supply at call time, the `k`-th account receives the
    /// identifier `t + k`, and the returned pairs mirror the input order.
    /// Only the collection owner may mint; a batch that would push the
    /// supply past the largest representable identifier fails `Overflow`.
    /// Validation happens entirely before mutation, so any failure leaves
    /// the state unchanged.
    pub fn mint(&mut self, caller: AccountId, accounts: Vec<AccountId>) -> (r: Result<
        Vec<(AccountId, u64)>,
        Error,
    >)
        requires
            old(self).wf(),
        ensures
            final(self).wf(),
            caller != old(self).contract_owner ==> r == Err::<Vec<(AccountId, u64)>, Error>(
                Error::CallerIsNotOwner,
            ) && *final(self) == *old(self),
            caller == old(self).contract_owner && old(self).spec_supply() + accounts@.len()
                > u64::MAX ==> r == Err::<Vec<(AccountId, u64)>, Error>(Error::Overflow)
                && *final(self) == *old(self),
            caller == old(self).contract_owner && old(self).spec_supply() + accounts@.len()
                <= u64::MAX ==> (r matches Ok(v) && v@.len() == accounts@.len() && forall|k: int|
                0 <= k < accounts@.len() ==> v@[k] == (
                accounts@[k],
                ((old(self).spec_supply() + k) as u64),
            )),
            caller == old(self).contract_owner && old(self).spec_supply() + accounts@.len()
                <= u64::MAX ==> final(self).spec_supply() == old(self).spec_supply()
                + accounts@.len(),
            caller == old(self).contract_owner && old(self).spec_supply() + accounts@.len()
                <= u64::MAX ==> forall|k: int|
                0 <= k < accounts@.len() ==> final(self).spec_token_owner(
                    ((old(self).spec_supply() + k) as u64),
                ) == accounts@[k],
            caller == old(self).contract_owner && old(self).spec_supply() + accounts@.len()
                <= u64::MAX ==> forall|k: int|
                0 <= k < accounts@.len() ==> #[trigger] final(self).registry.approval(
                    ((old(self).spec_supply() + k) as u64),
                ) == None::<AccountId>,
            caller == old(self).contract_owner && old(self).spec_supply() + accounts@.len()
                <= u64::MAX ==> forall|j: u64|
                #[trigger] old(self).spec_minted(j) ==> final(self).spec_token_owner(j) == old(
                    self,
                ).spec_token_owner(j) && final(self).registry.approval(j) == old(
                    self,
                ).registry.approval(j),
            caller == old(self).contract_owner && old(self).spec_supply() + accounts@.len()
                <= u64::MAX ==> forall|a: AccountId|
                #[trigger] final(self).spec_tokens_of(a) == old(self).spec_tokens_of(a)
                    + minted_ids(accounts@, old(self).spec_supply(), a),
            caller == old(self).contract_owner && old(self).spec_supply() + accounts@.len()
                <= u64::MAX ==> forall|a: AccountId|
                #[trigger] final(self).spec_balance(a) == old(self).spec_balance(a) + minted_ids(
                    accounts@,
                    old(self).spec_supply(),
                    a,
                ).len(),
            final(self).contract_owner == old(self).contract_owner,
            final(self).attributes == old(self).attributes,
            final(self).nonce == old(self).nonce,
            final(self).collection_loc_id == old(self).collection_loc_id,
            final(self).cert_host == old(self).cert_host,
    {
        if !(caller == self.contract_owner) {
            return Err(Error::CallerIsNotOwner);
        }
        let t = self.registry.total_supply();
        let len = accounts.len();
        if (t as u128) + (len as u128) > (u64::MAX as u128) {
            return Err(Error::Overflow);
        }
        let ghost pre = *old(self);
        let mut result: Vec<(AccountId, u64)> = Vec::new();
        let mut k: usize = 0;
        while k < len
            invariant
                len == accounts@.len(),
                k <= len,
                t as int == pre.spec_supply(),
                t as int + len as int <= u64::MAX as int,
                self.contract_owner == pre.contract_owner,
                self.attributes == pre.attributes,
                self.nonce == pre.nonce,
                self.collection_loc_id == pre.collection_loc_id,
                self.cert_host == pre.cert_host,
                self.registry.wf(),
                self.registry.supply() == t as int + k as int,
                result@.len() == k as int,
                forall|q: int|
                    0 <= q < k ==> result@[q] == (accounts@[q], ((t as int + q) as u64)),
                forall|q: int|
                    0 <= q < k ==> self.registry.token_owner(((t as int + q) as u64))
                        == accounts@[q] && self.registry.approval(((t as int + q) as u64))
                        == None::<AccountId>,
                forall|j: u64|
                    #[trigger] pre.registry.minted(j) ==> self.registry.token_owner(j)
                        == pre.registry.token_owner(j) && self.registry.approval(j)
                        == pre.registry.approval(j),
                forall|a: AccountId|
                    #[trigger] self.registry.tokens_of(a) == pre.registry.tokens_of(a)
                        + minted_ids(accounts@.take(k as int), t as int, a),
            decreases len - k,
        {
            let account = accounts[k];
            let id = t + (k as u64);
            let ghost snap = self.registry;
            let res = self.registry.mint_to(account, id);
            proof {
                let u = accounts@.take(k as int + 1);
                assert(u.drop_last() =~= accounts@.take(k as int));
                assert(u.last() == accounts@[k as int]);
                assert forall|j: u64| #[trigger] pre.registry.minted(j) implies self.registry.token_owner(
                    j,
                ) == pre.registry.token_owner(j) && self.registry.approval(j)
                    == pre.registry.approval(j) by {
                    assert(snap.minted(j));
                }
                assert forall|q: int|
                    0 <= q < k as int + 1 implies self.registry.token_owner(
                    ((t as int + q) as u64),
                ) == accounts@[q] && self.registry.approval(((t as int + q) as u64))
                    == None::<AccountId> by {
                    if q < k as int {
                        assert(snap.minted(((t as int + q) as u64)));
                    } else {
                        assert(((t as int + q) as u64) == id);
                    }
                }
                assert forall|a: AccountId| #[trigger] self.registry.tokens_of(a)
                    == pre.registry.tokens_of(a) + minted_ids(u, t as int, a) by {
                    if a == account {
                        assert(self.registry.tokens_of(a) == snap.tokens_of(a).push(id));
                        assert(minted_ids(u, t as int, a) == minted_ids(
                            accounts@.take(k as int),
                            t as int,
                            a,
                        ).push(id));
                        assert((pre.registry.tokens_of(a) + minted_ids(
                            accounts@.take(k as int),
                            t as int,
                            a,
                        )).push(id) =~= pre.registry.tokens_of(a) + minted_ids(u, t as int, a));
                    } else {
                        assert(self.registry.tokens_of(a) == snap.tokens_of(a));
                        assert(minted_ids(u, t as int, a) == minted_ids(
                            accounts@.take(k as int),
                            t as int,
                            a,
                        ));
                    }
                }
            }
            result.push((account, id));
            k += 1;
        }
        proof {
            assert(accounts@.take(len as int) =~= accounts@);
            assert forall|q: int|
                0 <= q < accounts@.len() implies #[trigger] self.registry.approval(
                ((pre.spec_supply() + q) as u64),
            ) == None::<AccountId> by {
                assert(self.registry.token_owner(((t as int + q) as u64)) == accounts@[q]);
                assert(self.registry.approval(((t as int + q) as u64)) == None::<AccountId>);
            }
        }
        Ok(result)
    }

    /// Moves token `id` to `to`, provided `caller` is its current owner
    /// or its approved operator; the payload `_data` is carried for the
    /// caller's benefit and ignored by the core. Any failure leaves all
    /// state unchanged; success reassigns ownership, clears the token's
    /// approval, swap-removes `id` from the old owner's enumeration
    /// (reordering it; the documented trade-off for constant-time
    /// removal) and appends it to the new owner's.
    pub fn transfer(&mut self, caller: AccountId, to: AccountId, id: u64, _data: Vec<u8>) -> (r:
        Result<(), Error>)
        requires
            old(self).wf(),
        ensures
            final(self).wf(),
            !old(self).spec_minted(id) ==> r == Err::<(), Error>(Error::TokenNotExists)
                && *final(self) == *old(self),
            old(self).spec_minted(id) && !old(self).registry.may_transfer(caller, id) ==> r
                == Err::<(), Error>(Error::NotApproved) && *final(self) == *old(self),
            old(self).spec_minted(id) && old(self).registry.may_transfer(caller, id) ==> r
                == Ok::<(), Error>(()) && transfer_updates(
                old(self).registry,
                final(self).registry,
                to,
                id,
            ),
            final(self).contract_owner == old(self).contract_owner,
            final(self).attributes == old(self).attributes,
            final(self).nonce == old(self).nonce,
            final(self).collection_loc_id == old(self).collection_loc_id,
            final(self).cert_host == old(self).cert_host,
    {
        self.registry.transfer(caller, to, id)
    }

    /// Delegates the right to move token `id` to `operator`; only the
    /// token's current owner may do so.
    pub fn approve(&mut self, caller: AccountId, id: u64, operator: AccountId) -> (r: Result<
        (),
        Error,
    >)
        requires
            old(self).wf(),
        ensures
            final(self).wf(),
            !old(self).spec_minted(id) ==> r == Err::<(), Error>(Error::TokenNotExists)
                && *final(self) == *old(self),
            old(self).spec_minted(id) && caller != old(self).spec_token_owner(id) ==> r == Err::<
                (),
                Error,
            >(Error::NotApproved) && *final(self) == *old(self),
            old(self).spec_minted(id) && caller == old(self).spec_token_owner(id) ==> r == Ok::<
                (),
                Error,
            >(()) && final(self).registry.approval(id) == Some(operator),
    {
        self.registry.approve(caller, id, operator)
    }

    /// The owner of `id`, or `None` while `id` is unminted.
    pub fn owner_of(&self, id: u64) -> (r: Option<AccountId>)
        ensures
            r == if self.spec_minted(id) {
                Some(self.spec_token_owner(id))
            } else {
                None::<AccountId>
            },
    {
        self.registry.owner_of(id)
    }

    /// Number of tokens `a` currently holds.
    pub fn balance_of(&self, a: AccountId) -> (n: usize)
        requires
            self.wf(),
        ensures
            n as int == self.spec_balance(a),
    {
        self.registry.balance_of(a)
    }

    /// Total number of minted tokens.
    pub fn total_supply(&self) -> (n: u64)
        ensures
            n as int == self.spec_supply(),
    {
        self.registry.total_supply()
    }

    /// The token at position `index` of `a`'s enumeration; positions
    /// `0 .. balance_of(a)` are valid, anything beyond is `TokenNotExists`.
    pub fn owners_token_by_index(&self, a: AccountId, index: u64) -> (r: Result<u64, Error>)
        requires
            self.wf(),
        ensures
            (index as int) < self.spec_balance(a) ==> r == Ok::<u64, Error>(
                self.spec_tokens_of(a)[index as int],
            ),
            (index as int) >= self.spec_balance(a) ==> r == Err::<u64, Error>(
                Error::TokenNotExists,
            ),
    {
        self.registry.owners_token_by_index(a, index)
    }

    /// The stored certification nonce, verbatim.
    pub fn get_nonce(&self) -> (r: &String)
        ensures
            r@ == self.nonce@,
    {
        &self.nonce
    }

    /// The stored certification collection identifier, verbatim.
    pub fn get_collection_loc_id(&self) -> (r: u128)
        ensures
            r == self.collection_loc_id,
    {
        self.collection_loc_id
    }

    /// The stored certificate host, verbatim.
    pub fn get_cert_host(&self) -> (r: &String)
        ensures
            r@ == self.cert_host@,
    {
        &self.cert_host
    }
}

} // verus!
