use vstd::prelude::*;

verus! {

/// One collection-level metadata entry.
pub struct Attribute {
    pub key: String,
    pub value: String,
}

/// Collection metadata: a mapping from string keys to string values with
/// idempotent overwrite. One well-known key holds the base URI from which
/// each token's metadata location is derived.
pub struct AttributeStore {
    /// The entries; at most one per key.
    pub attrs: Vec<Attribute>,
}

impl AttributeStore {
    /// Whether a value is stored under `k`.
    pub open spec fn has_key(self, k: Seq<char>) -> bool {
        exists|i: int| 0 <= i < self.attrs@.len() && (#[trigger] self.attrs@[i]).key@ == k
    }

    /// The index of the entry for `k` (meaningful when `has_key`).
    pub open spec fn key_pos(self, k: Seq<char>) -> int {
        choose|i: int| 0 <= i < self.attrs@.len() && (#[trigger] self.attrs@[i]).key@ == k
    }

    /// The value stored under `k`, if any.
    pub open spec fn spec_get(self, k: Seq<char>) -> Option<Seq<char>> {
        if self.has_key(k) {
            Some(self.attrs@[self.key_pos(k)].value@)
        } else {
            None
        }
    }

    /// No key is stored twice.
    pub open spec fn wf(self) -> bool {
        forall|i: int, j: int|
            0 <= i < j < self.attrs@.len() ==> (#[trigger] self.attrs@[i]).key@ != (
            #[trigger] self.attrs@[j]).key@
    }

    /// With distinct keys, the entry at index `i` is the one that
    /// `key_pos` and `spec_get` denote for its key.
    pub proof fn lemma_key_at(self, i: int)
        requires
            self.wf(),
            0 <= i < self.attrs@.len(),
        ensures
            self.has_key(self.attrs@[i].key@),
            self.key_pos(self.attrs@[i].key@) == i,
            self.spec_get(self.attrs@[i].key@) == Some(self.attrs@[i].value@),
    {
        let k = self.attrs@[i].key@;
        assert(self.has_key(k));
        let j = self.key_pos(k);
        assert(0 <= j < self.attrs@.len() && self.attrs@[j].key@ == k);
        if j < i {
            assert(self.attrs@[j].key@ != self.attrs@[i].key@);
        } else if i < j {
            assert(self.attrs@[i].key@ != self.attrs@[j].key@);
        }
    }

    /// When two stores have the same keys at the same positions and the
    /// entry for `k` is untouched, `k` maps to the same value in both.
    pub proof fn lemma_get_eq(pre: AttributeStore, post: AttributeStore, k: Seq<char>)
        requires
            pre.wf(),
            post.wf(),
            pre.attrs@.len() <= post.attrs@.len(),
            forall|q: int|
                0 <= q < pre.attrs@.len() ==> (#[trigger] post.attrs@[q]).key@
                    == pre.attrs@[q].key@,
            forall|q: int|
                0 <= q < pre.attrs@.len() && pre.attrs@[q].key@ == k
                    ==> (#[trigger] post.attrs@[q]).value@ == pre.attrs@[q].value@,
            forall|q: int|
                pre.attrs@.len() <= q < post.attrs@.len() ==> (#[trigger] post.attrs@[q]).key@
                    != k,
        ensures
            post.spec_get(k) == pre.spec_get(k),
    {
        if pre.has_key(k) {
            let j = pre.key_pos(k);
            assert(0 <= j < pre.attrs@.len() && pre.attrs@[j].key@ == k);
            pre.lemma_key_at(j);
            post.lemma_key_at(j);
        } else {
            if post.has_key(k) {
                let j = post.key_pos(k);
                assert(0 <= j < post.attrs@.len() && post.attrs@[j].key@ == k);
                if j < pre.attrs@.len() {
                    assert(pre.has_key(k));
                }
                assert(false);
            }
        }
    }

    /// An empty store: nothing is configured yet.
    pub fn new() -> (r: AttributeStore)
        ensures
            r.wf(),
            forall|k: Seq<char>| #[trigger] r.spec_get(k) == None::<Seq<char>>,
    {
        let r = AttributeStore { attrs: Vec::new() };
        proof {
            assert(forall|k: Seq<char>| !r.has_key(k));
        }
        r
    }

    /// The index of the entry for `key`, if one exists.
    fn find_key(&self, key: &String) -> (r: Option<usize>)
        requires
            self.wf(),
        ensures
            match r {
                Some(i) => {
                    &&& (i as int) < self.attrs@.len()
                    &&& self.attrs@[i as int].key@ == key@
                    &&& self.has_key(key@)
                    &&& self.key_pos(key@) == i as int
                },
                None => !self.has_key(key@),
            },
    {
        let n = self.attrs.len();
        let mut i: usize = 0;
        while i < n
            invariant
                n == self.attrs@.len(),
                i <= n,
                self.wf(),
                forall|j: int| 0 <= j < i ==> (#[trigger] self.attrs@[j]).key@ != key@,
            decreases n - i,
        {
            if self.attrs[i].key == *key {
                proof {
                    self.lemma_key_at(i as int);
                }
                return Some(i);
            }
            i += 1;
        }
        proof {
            if self.has_key(key@) {
                let j = self.key_pos(key@);
                assert(0 <= j < self.attrs@.len() && self.attrs@[j].key@ == key@);
                assert(false);
            }
        }
        None
    }

    /// The value stored under `key`, if any.
    pub fn get_attribute(&self, key: &String) -> (r: Option<String>)
        requires
            self.wf(),
        ensures
            match r {
                Some(v) => self.spec_get(key@) == Some(v@),
                None => self.spec_get(key@) == None::<Seq<char>>,
            },
    {
        match self.find_key(key) {
            Some(i) => Some(self.attrs[i].value.clone()),
            None => None,
        }
    }

    /// Stores `value` under `key`, overwriting any previous value for
    /// that key and touching nothing else. Overwriting is idempotent and
    /// never fails.
    pub fn set_attribute(&mut self, key: String, value: String)
        requires
            old(self).wf(),
        ensures
            final(self).wf(),
            final(self).spec_get(key@) == Some(value@),
            forall|k2: Seq<char>|
                k2 != key@ ==> #[trigger] final(self).spec_get(k2) == old(self).spec_get(k2),
    {
        let ghost pre = *old(self);
        match self.find_key(&key) {
            Some(i) => {
                self.attrs[i].value = value;
                proof {
                    let post = *self;
                    assert(forall|q: int|
                        0 <= q < post.attrs@.len() ==> (#[trigger] post.attrs@[q]).key@
                            == pre.attrs@[q].key@);
                    assert(post.wf());
                    post.lemma_key_at(i as int);
                    assert forall|k2: Seq<char>| k2 != key@ implies #[trigger] post.spec_get(k2)
                        == pre.spec_get(k2) by {
                        AttributeStore::lemma_get_eq(pre, post, k2);
                    }
                }
            },
            None => {
                self.attrs.push(Attribute { key, value });
                proof {
                    let post = *self;
                    let m = pre.attrs@.len() as int;
                    assert(forall|q: int|
                        0 <= q < m ==> (#[trigger] post.attrs@[q]).key@ == pre.attrs@[q].key@
                            && post.attrs@[q].value@ == pre.attrs@[q].value@);
                    assert(forall|q: int| 0 <= q < m ==> pre.attrs@[q].key@ != post.attrs@[m].key@);
                    assert(post.wf());
                    post.lemma_key_at(m);
                    assert forall|k2: Seq<char>| k2 != post.attrs@[m].key@ implies #[trigger] post.spec_get(
                        k2,
                    ) == pre.spec_get(k2) by {
                        AttributeStore::lemma_get_eq(pre, post, k2);
                    }
                }
            },
        }
    }
}

} // verus!
