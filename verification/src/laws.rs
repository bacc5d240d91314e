use vstd::prelude::*;

use crate::account::AccountId;
use crate::registry::{transfer_updates, Registry};

verus! {

/// After a mint that appends token `id` to `owner`'s enumeration, the
/// owner's balance has grown by exactly one and the new token is the
/// last entry of that enumeration — the one `owners_token_by_index`
/// returns at position `balance - 1`.
pub proof fn lemma_minted_token_is_last(pre: Registry, post: Registry, owner: AccountId, id: u64)
    requires
        post.tokens_of(owner) == pre.tokens_of(owner).push(id),
    ensures
        post.balance(owner) == pre.balance(owner) + 1,
        post.tokens_of(owner)[post.balance(owner) - 1] == id,
{
}

/// After a successful transfer of `id` away from its owner to a
/// different account `to`: the token now belongs to `to`, it is no
/// longer enumerable under the old owner, the old owner's balance shrank
/// by one, and the recipient's balance grew by one.
pub proof fn lemma_transfer_moves_token(pre: Registry, post: Registry, to: AccountId, id: u64)
    requires
        pre.minted(id),
        transfer_updates(pre, post, to, id),
        pre.token_owner(id) != to,
    ensures
        post.token_owner(id) == to,
        !post.tokens_of(pre.token_owner(id)).contains(id),
        post.balance(pre.token_owner(id)) == pre.balance(pre.token_owner(id)) - 1,
        post.balance(to) == pre.balance(to) + 1,
{
}

} // verus!
