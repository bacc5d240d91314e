use vstd::prelude::*;

use crate::account::AccountId;
use crate::error::Error;

verus! {

/// One owner's enumeration entry: the ordered, index-addressable list of
/// the tokens that the account currently holds.
pub struct OwnerTokens {
    pub account: AccountId,
    pub tokens: Vec<u64>,
}

/// Canonical ownership state of the collection, together with the
/// enumeration indices over it. The two are kept in one structure because
/// mint and transfer must update both atomically.
///
/// Token identifiers are allocated sequentially starting at 0, one per
/// mint, and are never reused, so the set of minted identifiers is always
/// `0 .. supply` and the global enumeration is the identity sequence over
/// it (append-only: there is no burn path).
pub struct Registry {
    /// Owner of each minted token; the index is the token identifier.
    pub owners: Vec<AccountId>,
    /// Per-token approved operator, cleared on transfer; the index is the
    /// token identifier.
    pub approvals: Vec<Option<AccountId>>,
    /// Per-owner ordered enumerations; at most one entry per account.
    pub owned: Vec<OwnerTokens>,
}

/// The position of `v` in `s` (the position, when `s` has no duplicates).
pub open spec fn token_pos(s: Seq<u64>, v: u64) -> int {
    choose|k: int| 0 <= k < s.len() && s[k] == v
}

/// The sequence `s` with the element at `p` removed by moving the last
/// element into its place and shrinking by one. This reorders the
/// remaining elements; that is the documented, permanent trade-off for
/// constant-time removal from a per-owner enumeration.
pub open spec fn swap_removed(s: Seq<u64>, p: int) -> Seq<u64> {
    s.update(p, s.last()).drop_last()
}

/// The state relation of a successful transfer of `id` to `to`: ownership
/// reassigned, approval cleared, `id` swap-removed from the old owner's
/// enumeration and appended to the new owner's, everything else untouched.
/// A self-transfer keeps balances and moves the token to the end of the
/// owner's enumeration.
pub open spec fn transfer_updates(pre: Registry, post: Registry, to: AccountId, id: u64) -> bool {
    let from = pre.token_owner(id);
    let p = token_pos(pre.tokens_of(from), id);
    &&& post.supply() == pre.supply()
    &&& post.token_owner(id) == to
    &&& post.approval(id) == None::<AccountId>
    &&& forall|j: u64|
        j != id && #[trigger] pre.minted(j) ==> post.token_owner(j) == pre.token_owner(j)
            && post.approval(j) == pre.approval(j)
    &&& (from == to ==> post.tokens_of(from) == swap_removed(pre.tokens_of(from), p).push(id)
        && post.balance(from) == pre.balance(from))
    &&& (from != to ==> post.tokens_of(from) == swap_removed(pre.tokens_of(from), p)
        && post.tokens_of(to) == pre.tokens_of(to).push(id) && !post.tokens_of(from).contains(id)
        && post.balance(from) == pre.balance(from) - 1 && post.balance(to) == pre.balance(to) + 1)
    &&& forall|x: AccountId|
        x != from && x != to ==> #[trigger] post.tokens_of(x) == pre.tokens_of(x)
}

/// Facts about swap-removal from a duplicate-free sequence: the length
/// shrinks by one, the removed value is gone, no duplicates appear, and
/// every other value survives.
pub proof fn lemma_swap_removed(s: Seq<u64>, id: u64, p: int)
    requires
        s.no_duplicates(),
        0 <= p < s.len(),
        s[p] == id,
    ensures
        swap_removed(s, p).len() == s.len() - 1,
        !swap_removed(s, p).contains(id),
        forall|k: int|
            0 <= k < swap_removed(s, p).len() ==> s.contains(#[trigger] swap_removed(s, p)[k]),
        swap_removed(s, p).no_duplicates(),
        forall|v: u64| v != id && s.contains(v) ==> swap_removed(s, p).contains(v),
{
    let t = swap_removed(s, p);
    assert forall|k: int| 0 <= k < t.len() implies s.contains(#[trigger] t[k]) by {
        if k == p {
            assert(t[k] == s[s.len() - 1]);
        } else {
            assert(t[k] == s[k]);
        }
    }
    assert forall|k: int| 0 <= k < t.len() implies t[k] != id by {
        if k == p {
            assert(t[k] == s[s.len() - 1]);
            if s[s.len() - 1] == id {
                assert(s.len() - 1 == p);
            }
        } else {
            assert(t[k] == s[k]);
        }
    }
    assert(!t.contains(id));
    assert forall|k1: int, k2: int|
        0 <= k1 < t.len() && 0 <= k2 < t.len() && k1 != k2 implies t[k1] != t[k2] by {
        if k1 == p {
            assert(t[k1] == s[s.len() - 1] && t[k2] == s[k2]);
        } else if k2 == p {
            assert(t[k2] == s[s.len() - 1] && t[k1] == s[k1]);
        } else {
            assert(t[k1] == s[k1] && t[k2] == s[k2]);
        }
    }
    assert(t.no_duplicates());
    assert forall|v: u64| v != id && s.contains(v) implies t.contains(v) by {
        let q = choose|q: int| 0 <= q < s.len() && s[q] == v;
        assert(q != p);
        if q == s.len() - 1 {
            assert(t[p] == v);
        } else {
            assert(t[q] == v);
        }
    }
}

/// Appending keeps every element, and adds the appended one.
pub proof fn lemma_push_contains(s: Seq<u64>, v: u64, x: u64)
    requires
        s.contains(x) || x == v,
    ensures
        s.push(v).contains(x),
{
    if x == v {
        assert(s.push(v)[s.len() as int] == v);
    } else {
        let q = choose|q: int| 0 <= q < s.len() && s[q] == x;
        assert(s.push(v)[q] == x);
    }
}

impl Registry {
    /// Total number of minted tokens; also one past the largest assigned
    /// token identifier.
    pub open spec fn supply(self) -> int {
        self.owners@.len() as int
    }

    /// Whether `id` has been minted.
    pub open spec fn minted(self, id: u64) -> bool {
        (id as int) < self.supply()
    }

    /// The current owner of a minted token.
    pub open spec fn token_owner(self, id: u64) -> AccountId {
        self.owners@[id as int]
    }

    /// The approved operator of a minted token, if any.
    pub open spec fn approval(self, id: u64) -> Option<AccountId> {
        self.approvals@[id as int]
    }

    /// Whether `a` has a per-owner enumeration entry.
    pub open spec fn has_entry(self, a: AccountId) -> bool {
        exists|i: int| 0 <= i < self.owned@.len() && (#[trigger] self.owned@[i]).account == a
    }

    /// The index of `a`'s enumeration entry (meaningful when `has_entry`).
    pub open spec fn entry_pos(self, a: AccountId) -> int {
        choose|i: int| 0 <= i < self.owned@.len() && (#[trigger] self.owned@[i]).account == a
    }

    /// The ordered enumeration of the tokens `a` holds.
    pub open spec fn tokens_of(self, a: AccountId) -> Seq<u64> {
        if self.has_entry(a) {
            self.owned@[self.entry_pos(a)].tokens@
        } else {
            Seq::<u64>::empty()
        }
    }

    /// Number of tokens `a` holds.
    pub open spec fn balance(self, a: AccountId) -> int {
        self.tokens_of(a).len() as int
    }

    /// Whether `caller` may move token `id`: it is the current owner or
    /// the token's approved operator.
    pub open spec fn may_transfer(self, caller: AccountId, id: u64) -> bool {
        caller == self.token_owner(id) || self.approval(id) == Some(caller)
    }

    /// No two enumeration entries belong to the same account.
    pub open spec fn entries_distinct(self) -> bool {
        forall|i: int, j: int|
            0 <= i < j < self.owned@.len() ==> (#[trigger] self.owned@[i]).account != (
            #[trigger] self.owned@[j]).account
    }

    /// Entry `i` lists only minted tokens of its own account, each once.
    pub open spec fn entry_wf(self, i: int) -> bool {
        let e = self.owned@[i];
        &&& forall|k: int|
            0 <= k < e.tokens@.len() ==> self.minted(#[trigger] e.tokens@[k])
                && self.token_owner(e.tokens@[k]) == e.account
        &&& e.tokens@.no_duplicates()
    }

    /// Well-formedness: balances and enumerations agree exactly with the
    /// ownership map. Every minted token appears once in its current
    /// owner's enumeration and nowhere else, and the approval slots run
    /// parallel to the ownership map.
    pub open spec fn wf(self) -> bool {
        &&& self.approvals@.len() == self.owners@.len()
        &&& self.entries_distinct()
        &&& forall|i: int| 0 <= i < self.owned@.len() ==> #[trigger] self.entry_wf(i)
        &&& forall|id: u64|
            #[trigger] self.minted(id) ==> self.tokens_of(self.token_owner(id)).contains(id)
    }

    /// With distinct entries, the entry at index `i` is the one that
    /// `entry_pos` and `tokens_of` denote for its account.
    pub proof fn lemma_entry_at(self, i: int)
        requires
            self.entries_distinct(),
            0 <= i < self.owned@.len(),
        ensures
            self.has_entry(self.owned@[i].account),
            self.entry_pos(self.owned@[i].account) == i,
            self.tokens_of(self.owned@[i].account) == self.owned@[i].tokens@,
    {
        let a = self.owned@[i].account;
        assert(self.has_entry(a));
        let j = self.entry_pos(a);
        assert(0 <= j < self.owned@.len() && self.owned@[j].account == a);
        if j < i {
            assert(self.owned@[j].account != self.owned@[i].account);
        } else if i < j {
            assert(self.owned@[i].account != self.owned@[j].account);
        }
    }

    /// An account with no entry holds no tokens.
    pub proof fn lemma_no_entry(self, a: AccountId)
        requires
            !self.has_entry(a),
        ensures
            self.tokens_of(a) == Seq::<u64>::empty(),
            self.balance(a) == 0,
    {
    }

    /// When two states have entries for the same accounts at the same
    /// positions and `x`'s token lists are untouched, `x` enumerates the
    /// same tokens in both.
    pub proof fn lemma_tokens_of_eq(pre: Registry, post: Registry, x: AccountId)
        requires
            pre.entries_distinct(),
            post.entries_distinct(),
            pre.owned@.len() <= post.owned@.len(),
            forall|k: int|
                0 <= k < pre.owned@.len() ==> (#[trigger] post.owned@[k]).account
                    == pre.owned@[k].account,
            forall|k: int|
                0 <= k < pre.owned@.len() && pre.owned@[k].account == x
                    ==> (#[trigger] post.owned@[k]).tokens@ == pre.owned@[k].tokens@,
            forall|k: int|
                pre.owned@.len() <= k < post.owned@.len() ==> (#[trigger] post.owned@[k]).account
                    != x,
        ensures
            post.tokens_of(x) == pre.tokens_of(x),
    {
        if pre.has_entry(x) {
            let j = pre.entry_pos(x);
            assert(0 <= j < pre.owned@.len() && pre.owned@[j].account == x);
            pre.lemma_entry_at(j);
            post.lemma_entry_at(j);
        } else {
            if post.has_entry(x) {
                let j = post.entry_pos(x);
                assert(0 <= j < post.owned@.len() && post.owned@[j].account == x);
                if j < pre.owned@.len() {
                    assert(pre.has_entry(x));
                }
                assert(false);
            }
        }
    }

    /// In every well-formed state, an account's balance equals the
    /// number of minted tokens it owns: its enumeration lists exactly
    /// the tokens mapped to it, each exactly once.
    pub proof fn lemma_balance_counts_ownership(self, a: AccountId)
        requires
            self.wf(),
        ensures
            self.tokens_of(a).no_duplicates(),
            self.tokens_of(a).to_set() == Set::new(
                |id: u64| self.minted(id) && self.token_owner(id) == a,
            ),
            self.balance(a) == Set::new(
                |id: u64| self.minted(id) && self.token_owner(id) == a,
            ).len(),
    {
        Self::lemma_listed_no_dup(self, a);
        let s = self.tokens_of(a);
        let owned_set = Set::new(|id: u64| self.minted(id) && self.token_owner(id) == a);
        assert forall|id: u64| s.to_set().contains(id) implies owned_set.contains(id) by {
            Self::lemma_contained_token_owned(self, a, id);
        }
        assert forall|id: u64| owned_set.contains(id) implies s.to_set().contains(id) by {
            assert(self.minted(id));
            assert(self.tokens_of(self.token_owner(id)).contains(id));
        }
        assert(s.to_set() =~= owned_set);
        s.unique_seq_to_set();
    }

    /// A fresh, empty registry: nothing minted, nobody holds anything.
    pub fn new() -> (r: Registry)
        ensures
            r.wf(),
            r.supply() == 0,
            r.owned@.len() == 0,
            forall|a: AccountId| #[trigger] r.tokens_of(a) == Seq::<u64>::empty(),
            forall|a: AccountId| #[trigger] r.balance(a) == 0,
    {
        let r = Registry { owners: Vec::new(), approvals: Vec::new(), owned: Vec::new() };
        proof {
            assert(forall|a: AccountId| !r.has_entry(a));
        }
        r
    }

    /// The owner of `id`, or `None` while `id` is unminted.
    pub fn owner_of(&self, id: u64) -> (r: Option<AccountId>)
        ensures
            r == if self.minted(id) {
                Some(self.token_owner(id))
            } else {
                None::<AccountId>
            },
    {
        if (id as u128) < (self.owners.len() as u128) {
            Some(self.owners[id as usize])
        } else {
            None
        }
    }

    /// Total number of minted tokens. The count fits in `u64` because
    /// identifiers are `u64` and are assigned one per mint from 0 up.
    pub fn total_supply(&self) -> (n: u64)
        ensures
            n as int == self.supply(),
    {
        self.owners.len() as u64
    }

    /// The index of `a`'s enumeration entry, if `a` has one.
    fn find_entry(&self, a: AccountId) -> (r: Option<usize>)
        requires
            self.entries_distinct(),
        ensures
            match r {
                Some(i) => {
                    &&& (i as int) < self.owned@.len()
                    &&& self.owned@[i as int].account == a
                    &&& self.has_entry(a)
                    &&& self.entry_pos(a) == i as int
                    &&& self.tokens_of(a) == self.owned@[i as int].tokens@
                },
                None => !self.has_entry(a),
            },
    {
        let n = self.owned.len();
        let mut i: usize = 0;
        while i < n
            invariant
                n == self.owned@.len(),
                i <= n,
                self.entries_distinct(),
                forall|j: int| 0 <= j < i ==> (#[trigger] self.owned@[j]).account != a,
            decreases n - i,
        {
            if self.owned[i].account == a {
                proof {
                    self.lemma_entry_at(i as int);
                }
                return Some(i);
            }
            i += 1;
        }
        proof {
            if self.has_entry(a) {
                let j = self.entry_pos(a);
                assert(0 <= j < self.owned@.len() && self.owned@[j].account == a);
                assert(false);
            }
        }
        None
    }

    /// Number of tokens `a` currently holds.
    pub fn balance_of(&self, a: AccountId) -> (n: usize)
        requires
            self.wf(),
        ensures
            n as int == self.balance(a),
    {
        match self.find_entry(a) {
            Some(i) => self.owned[i].tokens.len(),
            None => 0,
        }
    }

    /// Records a freshly allocated token as owned by `a`: sets the owner,
    /// appends `id` to `a`'s enumeration (position = balance before the
    /// mint) and to the global enumeration (position = supply before the
    /// mint), and leaves the new token unapproved. Fails `DuplicateToken`,
    /// changing nothing, if `id` is already owned. Identifiers are
    /// allocated sequentially, so the next free identifier always equals
    /// the current supply; an id above it cannot exist yet and is ruled
    /// out by the precondition.
    pub fn mint_to(&mut self, a: AccountId, id: u64) -> (r: Result<(), Error>)
        requires
            old(self).wf(),
            id as int <= old(self).supply(),
        ensures
            final(self).wf(),
            (id as int) < old(self).supply() ==> r == Err::<(), Error>(Error::DuplicateToken)
                && *final(self) == *old(self),
            (id as int) == old(self).supply() ==> r == Ok::<(), Error>(()),
            (id as int) == old(self).supply() ==> final(self).supply() == old(self).supply() + 1,
            (id as int) == old(self).supply() ==> final(self).token_owner(id) == a
                && final(self).approval(id) == None::<AccountId>,
            (id as int) == old(self).supply() ==> forall|j: u64|
                #[trigger] old(self).minted(j) ==> final(self).token_owner(j)
                    == old(self).token_owner(j) && final(self).approval(j) == old(self).approval(j),
            (id as int) == old(self).supply() ==> final(self).tokens_of(a)
                == old(self).tokens_of(a).push(id),
            (id as int) == old(self).supply() ==> forall|x: AccountId|
                x != a ==> #[trigger] final(self).tokens_of(x) == old(self).tokens_of(x),
    {
        let ghost pre = *old(self);
        let next = self.owners.len();
        if (id as u128) < (next as u128) {
            return Err(Error::DuplicateToken);
        }
        self.owners.push(a);
        self.approvals.push(None);
        proof {
            assert(self.owned@ == pre.owned@);
            assert(self.entries_distinct());
        }
        match self.find_entry(a) {
            Some(i) => {
                proof {
                    assert(self.tokens_of(a) == pre.tokens_of(a));
                    assert(pre.has_entry(a) && pre.entry_pos(a) == i as int);
                }
                self.owned[i].tokens.push(id);
                proof {
                    let post = *self;
                    assert(post.owned@[i as int].account == a);
                    assert(post.owned@[i as int].tokens@ == pre.owned@[i as int].tokens@.push(id));
                    assert(forall|k: int|
                        0 <= k < post.owned@.len() ==> (#[trigger] post.owned@[k]).account
                            == pre.owned@[k].account);
                    assert(post.entries_distinct());
                    post.lemma_entry_at(i as int);
                    assert(post.tokens_of(a) == pre.tokens_of(a).push(id));
                    assert forall|x: AccountId| x != a implies #[trigger] post.tokens_of(x)
                        == pre.tokens_of(x) by {
                        Registry::lemma_tokens_of_eq(pre, post, x);
                    }
                    Self::lemma_mint_wf(pre, post, a, id);
                }
            },
            None => {
                proof {
                    pre.lemma_no_entry(a);
                }
                let mut ts: Vec<u64> = Vec::new();
                ts.push(id);
                self.owned.push(OwnerTokens { account: a, tokens: ts });
                proof {
                    let post = *self;
                    let n = pre.owned@.len() as int;
                    assert(post.owned@[n].account == a);
                    assert(post.owned@[n].tokens@ == Seq::<u64>::empty().push(id));
                    assert(forall|k: int|
                        0 <= k < n ==> (#[trigger] post.owned@[k]).account == pre.owned@[k].account
                            && post.owned@[k].tokens@ == pre.owned@[k].tokens@);
                    assert(forall|k: int| 0 <= k < n ==> pre.owned@[k].account != a);
                    assert(post.entries_distinct());
                    post.lemma_entry_at(n);
                    assert(post.tokens_of(a) == pre.tokens_of(a).push(id));
                    assert forall|x: AccountId| x != a implies #[trigger] post.tokens_of(x)
                        == pre.tokens_of(x) by {
                        Registry::lemma_tokens_of_eq(pre, post, x);
                    }
                    Self::lemma_mint_wf(pre, post, a, id);
                }
            },
        }
        Ok(())
    }

    /// The post-state of a mint is well-formed again: the new token sits
    /// at the end of its owner's enumeration, everything else is as it
    /// was.
    proof fn lemma_mint_wf(pre: Registry, post: Registry, a: AccountId, id: u64)
        requires
            pre.wf(),
            id as int == pre.supply(),
            post.owners@ == pre.owners@.push(a),
            post.approvals@ == pre.approvals@.push(None::<AccountId>),
            post.entries_distinct(),
            post.owned@.len() >= pre.owned@.len(),
            post.tokens_of(a) == pre.tokens_of(a).push(id),
            forall|x: AccountId| x != a ==> #[trigger] post.tokens_of(x) == pre.tokens_of(x),
        ensures
            post.wf(),
    {
        assert(post.approvals@.len() == post.owners@.len());
        assert forall|i: int| 0 <= i < post.owned@.len() implies #[trigger] post.entry_wf(i) by {
            let e = post.owned@[i];
            let x = e.account;
            post.lemma_entry_at(i);
            assert(post.tokens_of(x) == e.tokens@);
            if x == a {
                assert(e.tokens@ == pre.tokens_of(a).push(id));
                assert forall|k: int|
                    0 <= k < e.tokens@.len() implies post.minted(#[trigger] e.tokens@[k])
                    && post.token_owner(e.tokens@[k]) == x by {
                    if k < pre.tokens_of(a).len() {
                        assert(e.tokens@[k] == pre.tokens_of(a)[k]);
                        Self::lemma_listed_token_owned(pre, a, k);
                    } else {
                        assert(e.tokens@[k] == id);
                    }
                }
                assert(e.tokens@.no_duplicates()) by {
                    assert forall|k1: int, k2: int|
                        0 <= k1 < e.tokens@.len() && 0 <= k2 < e.tokens@.len() && k1
                            != k2 implies e.tokens@[k1] != e.tokens@[k2] by {
                        if k1 < pre.tokens_of(a).len() && k2 < pre.tokens_of(a).len() {
                            Self::lemma_listed_no_dup(pre, a);
                        } else if k1 < pre.tokens_of(a).len() {
                            Self::lemma_listed_token_owned(pre, a, k1);
                            assert((e.tokens@[k1] as int) < pre.supply());
                        } else {
                            Self::lemma_listed_token_owned(pre, a, k2);
                            assert((e.tokens@[k2] as int) < pre.supply());
                        }
                    }
                }
            } else {
                assert(e.tokens@ == pre.tokens_of(x));
                assert forall|k: int|
                    0 <= k < e.tokens@.len() implies post.minted(#[trigger] e.tokens@[k])
                    && post.token_owner(e.tokens@[k]) == x by {
                    Self::lemma_listed_token_owned(pre, x, k);
                }
                assert(e.tokens@.no_duplicates()) by {
                    Self::lemma_listed_no_dup(pre, x);
                }
            }
        }
        assert forall|id2: u64| #[trigger] post.minted(id2) implies post.tokens_of(
            post.token_owner(id2),
        ).contains(id2) by {
            if (id2 as int) < pre.supply() {
                assert(pre.minted(id2));
                let o = pre.token_owner(id2);
                assert(pre.tokens_of(o).contains(id2));
                assert(post.token_owner(id2) == o);
                let k = choose|k: int|
                    0 <= k < pre.tokens_of(o).len() && pre.tokens_of(o)[k] == id2;
                if o == a {
                    assert(post.tokens_of(a)[k] == id2);
                } else {
                    assert(post.tokens_of(o)[k] == id2);
                }
            } else {
                assert(id2 == id);
                assert(post.token_owner(id) == a);
                assert(post.tokens_of(a)[pre.tokens_of(a).len() as int] == id);
            }
        }
    }

    /// Every token listed in `a`'s pre-state enumeration is minted and
    /// owned by `a`.
    proof fn lemma_listed_token_owned(pre: Registry, a: AccountId, k: int)
        requires
            pre.wf(),
            0 <= k < pre.tokens_of(a).len(),
        ensures
            pre.minted(pre.tokens_of(a)[k]),
            pre.token_owner(pre.tokens_of(a)[k]) == a,
    {
        assert(pre.has_entry(a));
        let i = pre.entry_pos(a);
        assert(0 <= i < pre.owned@.len() && pre.owned@[i].account == a);
        assert(pre.entry_wf(i));
    }

    /// A token listed under `a` is minted and owned by `a`.
    proof fn lemma_contained_token_owned(pre: Registry, a: AccountId, v: u64)
        requires
            pre.wf(),
            pre.tokens_of(a).contains(v),
        ensures
            pre.minted(v),
            pre.token_owner(v) == a,
    {
        let k = choose|k: int| 0 <= k < pre.tokens_of(a).len() && pre.tokens_of(a)[k] == v;
        Self::lemma_listed_token_owned(pre, a, k);
    }

    /// Appending a fresh value keeps a sequence duplicate-free.
    proof fn lemma_push_no_dup(s: Seq<u64>, v: u64)
        requires
            s.no_duplicates(),
            !s.contains(v),
        ensures
            s.push(v).no_duplicates(),
    {
        let t = s.push(v);
        assert forall|k1: int, k2: int|
            0 <= k1 < t.len() && 0 <= k2 < t.len() && k1 != k2 implies t[k1] != t[k2] by {
            if k1 < s.len() && k2 < s.len() {
                assert(t[k1] == s[k1] && t[k2] == s[k2]);
            } else if k1 < s.len() {
                assert(t[k2] == v && t[k1] == s[k1]);
                if s[k1] == v {
                    assert(s.contains(v));
                }
            } else {
                assert(t[k1] == v && t[k2] == s[k2]);
                if s[k2] == v {
                    assert(s.contains(v));
                }
            }
        }
    }

    /// The post-state of a successful transfer is well-formed again and
    /// satisfies the full transfer relation.
    proof fn lemma_transfer_wf(
        pre: Registry,
        post: Registry,
        from: AccountId,
        p: int,
        to: AccountId,
        id: u64,
    )
        requires
            pre.wf(),
            pre.minted(id),
            from == pre.token_owner(id),
            p == token_pos(pre.tokens_of(from), id),
            post.owners@ == pre.owners@.update(id as int, to),
            post.approvals@ == pre.approvals@.update(id as int, None::<AccountId>),
            post.entries_distinct(),
            pre.owned@.len() <= post.owned@.len(),
            from == to ==> post.tokens_of(from) == swap_removed(pre.tokens_of(from), p).push(id),
            from != to ==> post.tokens_of(from) == swap_removed(pre.tokens_of(from), p),
            from != to ==> post.tokens_of(to) == pre.tokens_of(to).push(id),
            forall|x: AccountId|
                x != from && x != to ==> #[trigger] post.tokens_of(x) == pre.tokens_of(x),
        ensures
            post.wf(),
            transfer_updates(pre, post, to, id),
    {
        let s = pre.tokens_of(from);
        assert(s.contains(id));
        Self::lemma_listed_no_dup(pre, from);
        assert(0 <= p < s.len() && s[p] == id);
        lemma_swap_removed(s, id, p);
        if from != to {
            assert(!pre.tokens_of(to).contains(id)) by {
                if pre.tokens_of(to).contains(id) {
                    Self::lemma_contained_token_owned(pre, to, id);
                }
            }
            Self::lemma_listed_no_dup(pre, to);
        }
        assert forall|i: int| 0 <= i < post.owned@.len() implies #[trigger] post.entry_wf(i) by {
            let e = post.owned@[i];
            let x = e.account;
            post.lemma_entry_at(i);
            assert(post.tokens_of(x) == e.tokens@);
            if x == from && from == to {
                assert(e.tokens@ == swap_removed(s, p).push(id));
                assert forall|k: int|
                    0 <= k < e.tokens@.len() implies post.minted(#[trigger] e.tokens@[k])
                    && post.token_owner(e.tokens@[k]) == x by {
                    if k < swap_removed(s, p).len() {
                        let v = e.tokens@[k];
                        assert(v == swap_removed(s, p)[k]);
                        assert(s.contains(v) && v != id);
                        Self::lemma_contained_token_owned(pre, from, v);
                    } else {
                        assert(e.tokens@[k] == id);
                    }
                }
                Self::lemma_push_no_dup(swap_removed(s, p), id);
            } else if x == from {
                assert(e.tokens@ == swap_removed(s, p));
                assert forall|k: int|
                    0 <= k < e.tokens@.len() implies post.minted(#[trigger] e.tokens@[k])
                    && post.token_owner(e.tokens@[k]) == x by {
                    let v = e.tokens@[k];
                    assert(s.contains(v) && v != id);
                    Self::lemma_contained_token_owned(pre, from, v);
                }
            } else if x == to {
                assert(e.tokens@ == pre.tokens_of(to).push(id));
                assert forall|k: int|
                    0 <= k < e.tokens@.len() implies post.minted(#[trigger] e.tokens@[k])
                    && post.token_owner(e.tokens@[k]) == x by {
                    if k < pre.tokens_of(to).len() {
                        let v = e.tokens@[k];
                        assert(v == pre.tokens_of(to)[k]);
                        assert(pre.tokens_of(to).contains(v));
                        Self::lemma_contained_token_owned(pre, to, v);
                    } else {
                        assert(e.tokens@[k] == id);
                    }
                }
                Self::lemma_push_no_dup(pre.tokens_of(to), id);
            } else {
                assert(e.tokens@ == pre.tokens_of(x));
                assert forall|k: int|
                    0 <= k < e.tokens@.len() implies post.minted(#[trigger] e.tokens@[k])
                    && post.token_owner(e.tokens@[k]) == x by {
                    let v = e.tokens@[k];
                    assert(pre.tokens_of(x).contains(v));
                    Self::lemma_contained_token_owned(pre, x, v);
                }
                Self::lemma_listed_no_dup(pre, x);
            }
        }
        assert forall|id2: u64| #[trigger] post.minted(id2) implies post.tokens_of(
            post.token_owner(id2),
        ).contains(id2) by {
            if id2 == id {
                assert(post.token_owner(id) == to);
                if from == to {
                    lemma_push_contains(swap_removed(s, p), id, id);
                } else {
                    lemma_push_contains(pre.tokens_of(to), id, id);
                }
            } else {
                assert(pre.minted(id2));
                let o = pre.token_owner(id2);
                assert(pre.tokens_of(o).contains(id2));
                assert(post.token_owner(id2) == o);
                if o == from {
                    assert(swap_removed(s, p).contains(id2));
                    if from == to {
                        lemma_push_contains(swap_removed(s, p), id, id2);
                    }
                } else if o == to {
                    lemma_push_contains(pre.tokens_of(to), id, id2);
                }
            }
        }
        assert(post.wf());
        assert(transfer_updates(pre, post, to, id));
    }

    /// An account's enumeration never lists a token twice.
    proof fn lemma_listed_no_dup(pre: Registry, a: AccountId)
        requires
            pre.wf(),
        ensures
            pre.tokens_of(a).no_duplicates(),
    {
        if pre.has_entry(a) {
            let i = pre.entry_pos(a);
            assert(0 <= i < pre.owned@.len() && pre.owned@[i].account == a);
            assert(pre.entry_wf(i));
        }
    }

    /// The position of `id` inside a token list, if present.
    fn find_token(tokens: &Vec<u64>, id: u64) -> (r: Option<usize>)
        ensures
            match r {
                Some(p) => (p as int) < tokens@.len() && tokens@[p as int] == id,
                None => !tokens@.contains(id),
            },
    {
        let n = tokens.len();
        let mut k: usize = 0;
        while k < n
            invariant
                n == tokens@.len(),
                k <= n,
                forall|q: int| 0 <= q < k ==> tokens@[q] != id,
            decreases n - k,
        {
            if tokens[k] == id {
                return Some(k);
            }
            k += 1;
        }
        proof {
            if tokens@.contains(id) {
                let q = choose|q: int| 0 <= q < tokens@.len() && tokens@[q] == id;
                assert(false);
            }
        }
        None
    }

    /// Moves token `id` to `to`, provided `caller` is its current owner
    /// or its approved operator. On success the ownership map is
    /// reassigned, the token's approval is cleared, `id` is removed from
    /// the old owner's enumeration by swap-with-last (reordering that
    /// enumeration; the documented trade-off for constant-time removal)
    /// and appended to the new owner's. Any failure leaves all state
    /// unchanged. A self-transfer is permitted: balances are untouched,
    /// any approval is still cleared, and the token moves to the end of
    /// the owner's enumeration.
    pub fn transfer(&mut self, caller: AccountId, to: AccountId, id: u64) -> (r: Result<
        (),
        Error,
    >)
        requires
            old(self).wf(),
        ensures
            final(self).wf(),
            !old(self).minted(id) ==> r == Err::<(), Error>(Error::TokenNotExists)
                && *final(self) == *old(self),
            old(self).minted(id) && !old(self).may_transfer(caller, id) ==> r == Err::<(), Error>(
                Error::NotApproved,
            ) && *final(self) == *old(self),
            old(self).minted(id) && old(self).may_transfer(caller, id) ==> r == Ok::<(), Error>(())
                && transfer_updates(*old(self), *final(self), to, id),
    {
        let ghost pre = *old(self);
        let n = self.owners.len();
        if !((id as u128) < (n as u128)) {
            return Err(Error::TokenNotExists);
        }
        let idx = id as usize;
        let from = self.owners[idx];
        let authorized = if caller == from {
            true
        } else {
            match self.approvals[idx] {
                Some(op) => op == caller,
                None => false,
            }
        };
        if !authorized {
            return Err(Error::NotApproved);
        }
        proof {
            assert(pre.minted(id));
            assert(from == pre.token_owner(id));
            assert(pre.tokens_of(from).contains(id));
            if !pre.has_entry(from) {
                assert(false);
            }
        }
        let i = match self.find_entry(from) {
            Some(i) => i,
            None => {
                proof {
                    assert(false);
                }
                return Err(Error::TokenNotExists);
            },
        };
        let ghost s = pre.tokens_of(from);
        let p = match Self::find_token(&self.owned[i].tokens, id) {
            Some(p) => p,
            None => {
                proof {
                    assert(false);
                }
                return Err(Error::TokenNotExists);
            },
        };
        proof {
            Self::lemma_listed_no_dup(pre, from);
            assert(s[p as int] == id);
            let k = token_pos(s, id);
            assert(0 <= k < s.len() && s[k] == id);
            assert(k == p as int);
        }
        let _removed: u64 = self.owned[i].tokens.swap_remove(p);
        self.owners[idx] = to;
        self.approvals[idx] = None;
        proof {
            assert(forall|k: int|
                0 <= k < pre.owned@.len() ==> (#[trigger] self.owned@[k]).account
                    == pre.owned@[k].account);
            assert(self.entries_distinct());
            assert(self.owned@[i as int].account == from);
            assert(self.owned@[i as int].tokens@ == swap_removed(s, p as int));
        }
        match self.find_entry(to) {
            Some(j) => {
                proof {
                    if from == to {
                        if j != i {
                            assert(self.owned@[i as int].account != self.owned@[j as int].account);
                        }
                        assert(j == i);
                    } else {
                        assert(j != i);
                        assert(pre.owned@[j as int].account == to);
                        pre.lemma_entry_at(j as int);
                        assert(self.owned@[j as int].tokens@ == pre.tokens_of(to));
                    }
                }
                self.owned[j].tokens.push(id);
                proof {
                    let post = *self;
                    assert(forall|k: int|
                        0 <= k < pre.owned@.len() ==> (#[trigger] post.owned@[k]).account
                            == pre.owned@[k].account);
                    assert(post.entries_distinct());
                    post.lemma_entry_at(i as int);
                    post.lemma_entry_at(j as int);
                    if from == to {
                        assert(post.tokens_of(from) == swap_removed(s, token_pos(s, id)).push(id));
                    } else {
                        assert(post.owned@[i as int].tokens@ == swap_removed(s, p as int));
                        assert(post.tokens_of(from) == swap_removed(s, token_pos(s, id)));
                        assert(post.tokens_of(to) == pre.tokens_of(to).push(id));
                    }
                    assert forall|x: AccountId| x != from && x != to implies #[trigger] post.tokens_of(
                        x,
                    ) == pre.tokens_of(x) by {
                        Registry::lemma_tokens_of_eq(pre, post, x);
                    }
                    Self::lemma_transfer_wf(pre, post, from, token_pos(s, id), to, id);
                }
            },
            None => {
                proof {
                    assert(!pre.has_entry(to)) by {
                        if pre.has_entry(to) {
                            let j = pre.entry_pos(to);
                            assert(0 <= j < pre.owned@.len() && pre.owned@[j].account == to);
                            assert(self.owned@[j].account == to);
                            assert(self.has_entry(to));
                        }
                    }
                    pre.lemma_no_entry(to);
                    assert(from != to);
                }
                let mut ts: Vec<u64> = Vec::new();
                ts.push(id);
                self.owned.push(OwnerTokens { account: to, tokens: ts });
                proof {
                    let post = *self;
                    let m = pre.owned@.len() as int;
                    assert(forall|k: int|
                        0 <= k < m ==> (#[trigger] post.owned@[k]).account
                            == pre.owned@[k].account);
                    assert(forall|k: int| 0 <= k < m ==> pre.owned@[k].account != to);
                    assert(post.owned@[m].account == to);
                    assert(post.entries_distinct());
                    post.lemma_entry_at(i as int);
                    assert(post.tokens_of(from) == swap_removed(s, token_pos(s, id)));
                    post.lemma_entry_at(m);
                    assert(post.owned@[m].tokens@ == Seq::<u64>::empty().push(id));
                    assert(post.tokens_of(to) == pre.tokens_of(to).push(id));
                    assert forall|x: AccountId| x != from && x != to implies #[trigger] post.tokens_of(
                        x,
                    ) == pre.tokens_of(x) by {
                        Registry::lemma_tokens_of_eq(pre, post, x);
                    }
                    Self::lemma_transfer_wf(pre, post, from, token_pos(s, id), to, id);
                }
            },
        }
        Ok(())
    }

    /// Delegates the right to move token `id` to `operator`. Only the
    /// token's current owner may do so; the delegation is cleared again by
    /// the next transfer of the token.
    pub fn approve(&mut self, caller: AccountId, id: u64, operator: AccountId) -> (r: Result<
        (),
        Error,
    >)
        requires
            old(self).wf(),
        ensures
            final(self).wf(),
            !old(self).minted(id) ==> r == Err::<(), Error>(Error::TokenNotExists)
                && *final(self) == *old(self),
            old(self).minted(id) && caller != old(self).token_owner(id) ==> r == Err::<(), Error>(
                Error::NotApproved,
            ) && *final(self) == *old(self),
            old(self).minted(id) && caller == old(self).token_owner(id) ==> r == Ok::<(), Error>(
                (),
            ) && final(self).approval(id) == Some(operator),
            old(self).minted(id) && caller == old(self).token_owner(id) ==> final(self).owners@
                == old(self).owners@ && final(self).owned@ == old(self).owned@,
            old(self).minted(id) && caller == old(self).token_owner(id) ==> forall|j: u64|
                j != id && #[trigger] old(self).minted(j) ==> final(self).approval(j) == old(
                    self,
                ).approval(j),
    {
        let ghost pre = *old(self);
        let n = self.owners.len();
        if !((id as u128) < (n as u128)) {
            return Err(Error::TokenNotExists);
        }
        let idx = id as usize;
        if !(caller == self.owners[idx]) {
            return Err(Error::NotApproved);
        }
        self.approvals[idx] = Some(operator);
        proof {
            let post = *self;
            assert(post.owned@ == pre.owned@);
            assert(post.entries_distinct());
            assert forall|i: int| 0 <= i < post.owned@.len() implies #[trigger] post.entry_wf(
                i,
            ) by {
                assert(pre.entry_wf(i));
            }
            assert forall|id2: u64| #[trigger] post.minted(id2) implies post.tokens_of(
                post.token_owner(id2),
            ).contains(id2) by {
                assert(pre.minted(id2));
                assert(pre.tokens_of(pre.token_owner(id2)).contains(id2));
                Registry::lemma_tokens_of_eq(pre, post, pre.token_owner(id2));
            }
        }
        Ok(())
    }

    /// The token at position `index` of `a`'s enumeration; positions
    /// `0 .. balance_of(a)` are valid, anything beyond is `TokenNotExists`.
    pub fn owners_token_by_index(&self, a: AccountId, index: u64) -> (r: Result<u64, Error>)
        requires
            self.wf(),
        ensures
            (index as int) < self.balance(a) ==> r == Ok::<u64, Error>(
                self.tokens_of(a)[index as int],
            ),
            (index as int) >= self.balance(a) ==> r == Err::<u64, Error>(Error::TokenNotExists),
    {
        match self.find_entry(a) {
            Some(i) => {
                let len = self.owned[i].tokens.len();
                if (index as u128) < (len as u128) {
                    Ok(self.owned[i].tokens[index as usize])
                } else {
                    Err(Error::TokenNotExists)
                }
            },
            None => Err(Error::TokenNotExists),
        }
    }
}

} // verus!
