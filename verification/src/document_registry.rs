//! The registry of the documents that the editor has open.
use vstd::prelude::*;
use std::time::Instant;

verus! {

/// `std::time::Instant`, carried through as an opaque value.
#[verifier::external_type_specification]
#[verifier::external_body]
pub struct ExInstant(Instant);

/// `anyhow::Error`, the error type of the registry's operations.
#[verifier::external_type_specification]
#[verifier::external_body]
pub struct ExAnyhowError(anyhow::Error);

/// Calls `Instant::now`. It reads the clock, so nothing is stated of the result.
#[verifier::external_body]
fn now() -> Instant {
    Instant::now()
}

/// Opening then closing a document that was not open leaves the open documents
/// as they were.
pub proof fn lemma_open_then_close(
    docs: Map<Seq<char>, DocumentState>,
    uri: Seq<char>,
    state: DocumentState,
)
    requires
        !docs.contains_key(uri),
    ensures
        docs.insert(uri, state).remove(uri) == docs,
{
    assert(docs.insert(uri, state).remove(uri) =~= docs);
}

/// Documents do not interfere: after registering `uri` it is open, after
/// closing it it is not, and in both cases every other document keeps its
/// status and its state.
pub proof fn lemma_no_interference(
    docs: Map<Seq<char>, DocumentState>,
    uri: Seq<char>,
    state: DocumentState,
    other: Seq<char>,
)
    requires
        other != uri,
    ensures
        docs.insert(uri, state).contains_key(uri),
        !docs.remove(uri).contains_key(uri),
        docs.insert(uri, state).contains_key(other) == docs.contains_key(other),
        docs.remove(uri).contains_key(other) == docs.contains_key(other),
        docs.contains_key(other) ==> docs.insert(uri, state)[other] == docs[other]
            && docs.remove(uri)[other] == docs[other],
{
}

/// Registering a document that is already open does not change which documents
/// are open.
pub proof fn lemma_register_twice(
    docs: Map<Seq<char>, DocumentState>,
    uri: Seq<char>,
    first: DocumentState,
    second: DocumentState,
)
    ensures
        docs.insert(uri, first).insert(uri, second).dom() == docs.insert(uri, first).dom(),
        docs.insert(uri, first).insert(uri, second).dom().len() == docs.insert(uri, first).dom().len(),
{
    assert(docs.insert(uri, first).insert(uri, second).dom() =~= docs.insert(uri, first).dom());
}

/// What the registry keeps about an open document.
pub struct DocumentState {
    pub uri: String,
    pub opened_at: Instant,
    pub content_hash: Option<u64>,
}

/// The open documents, each under its URI.
pub struct DocumentRegistry {
    documents: Vec<DocumentState>,
}

impl View for DocumentRegistry {
    type V = Map<Seq<char>, DocumentState>;

    /// Each open URI mapped to the state of its document.
    closed spec fn view(&self) -> Map<Seq<char>, DocumentState> {
        Map::new(
            |k: Seq<char>| exists|i: int| 0 <= i < self.documents@.len() && self.documents@[i].uri@ == k,
            |k: Seq<char>|
                self.documents@[choose|i: int|
                    0 <= i < self.documents@.len() && self.documents@[i].uri@ == k],
        )
    }
}

impl DocumentRegistry {
    /// No URI is registered twice.
    #[verifier::type_invariant]
    spec fn wf(&self) -> bool {
        forall|i: int, j: int|
            0 <= i < self.documents@.len() && 0 <= j < self.documents@.len() && i != j
                ==> self.documents@[i].uri@ != self.documents@[j].uri@
    }

    proof fn lemma_entry(&self, i: int)
        requires
            self.wf(),
            0 <= i < self.documents@.len(),
        ensures
            self@.contains_key(self.documents@[i].uri@),
            self@[self.documents@[i].uri@] == self.documents@[i],
    {
        let k = self.documents@[i].uri@;
        assert(self@.dom().contains(k));
        let j = choose|j: int| 0 <= j < self.documents@.len() && self.documents@[j].uri@ == k;
        assert(j == i);
    }

    /// The index of the entry of `uri`, if there is one.
    fn find(&self, uri: &String) -> (r: Option<usize>)
        ensures
            r matches Some(i) ==> i < self.documents@.len() && self.documents@[i as int].uri@
                == uri@,
            r is None ==> forall|i: int|
                0 <= i < self.documents@.len() ==> self.documents@[i].uri@ != uri@,
    {
        let mut i: usize = 0;
        while i < self.documents.len()
            invariant
                i <= self.documents@.len(),
                forall|j: int| 0 <= j < i ==> self.documents@[j].uri@ != uri@,
            decreases self.documents.len() - i,
        {
            if self.documents[i].uri == *uri {
                return Some(i);
            }
            i = i + 1;
        }
        None
    }

    /// An empty registry.
    pub fn new() -> (r: Self)
        ensures
            r@ == Map::<Seq<char>, DocumentState>::empty(),
    {
        let r = DocumentRegistry { documents: Vec::new() };
        assert(r@ =~= Map::<Seq<char>, DocumentState>::empty());
        r
    }

    /// Registers `uri` as open, with a fresh state (opened now, no content hash);
    /// a document already open gets a fresh state too.
    pub fn register(&mut self, uri: String) -> (r: Result<(), anyhow::Error>)
        ensures
            r is Ok,
            final(self)@ == old(self)@.insert(uri@, final(self)@[uri@]),
            final(self)@[uri@].uri == uri,
            final(self)@[uri@].content_hash is None,
    {
        let opened_at = now();
        self.register_at(uri, opened_at)
    }

    /// Registers `uri` as open with a fresh state opened at `opened_at` and no
    /// content hash; a document already open gets that fresh state too.
    pub fn register_at(&mut self, uri: String, opened_at: Instant) -> (r: Result<(), anyhow::Error>)
        ensures
            r is Ok,
            final(self)@ == old(self)@.insert(uri@, final(self)@[uri@]),
            final(self)@[uri@].uri == uri,
            final(self)@[uri@].opened_at == opened_at,
            final(self)@[uri@].content_hash is None,
    {
        proof {
            use_type_invariant(&*self);
        }
        let ghost before = *self;
        let state = DocumentState { uri: uri.clone(), opened_at, content_hash: None };
        let found = self.find(&uri);
        let mut docs: Vec<DocumentState> = Vec::new();
        std::mem::swap(&mut docs, &mut self.documents);
        let ghost old_docs = docs@;
        match found {
            Some(i) => {
                docs.set(i, state);
                let ghost idx = i as int;
                assert(docs@ == old_docs.update(idx, state));
                assert forall|a: int| 0 <= a < docs@.len() implies #[trigger] docs@[a].uri@
                    == old_docs[a].uri@ by {}
                self.documents = docs;
                proof {
                    use_type_invariant(&*self);
                    self.lemma_entry(idx);
                    assert forall|k: Seq<char>| k != uri@ implies (before@.dom().contains(k)
                        <==> #[trigger] self@.dom().contains(k)) && (self@.dom().contains(k) ==> self@[k]
                        == before@[k]) by {
                        if before@.dom().contains(k) {
                            let j = choose|j: int|
                                0 <= j < old_docs.len() && old_docs[j].uri@ == k;
                            before.lemma_entry(j);
                            self.lemma_entry(j);
                        }
                        if self@.dom().contains(k) {
                            let j = choose|j: int|
                                0 <= j < self.documents@.len() && self.documents@[j].uri@ == k;
                            before.lemma_entry(j);
                            self.lemma_entry(j);
                        }
                    }
                    assert(self@.dom().contains(uri@));
                    assert forall|k: Seq<char>| #[trigger] self@.dom().contains(k) <==> before@.dom().insert(uri@).contains(k) by {
                        if k != uri@ {
                            assert(before@.dom().contains(k) <==> self@.dom().contains(k));
                        }
                    }
                    assert(self@.dom() =~= before@.dom().insert(uri@));
                    assert(self@ =~= before@.insert(uri@, self@[uri@]));
                }
            },
            None => {
                docs.push(state);
                let ghost idx = old_docs.len() as int;
                assert(docs@ == old_docs.push(state));
                assert(docs@[idx].uri@ == uri@);
                self.documents = docs;
                proof {
                    use_type_invariant(&*self);
                    self.lemma_entry(idx);
                    assert forall|k: Seq<char>| k != uri@ implies (before@.dom().contains(k)
                        <==> #[trigger] self@.dom().contains(k)) && (self@.dom().contains(k) ==> self@[k]
                        == before@[k]) by {
                        if before@.dom().contains(k) {
                            let j = choose|j: int|
                                0 <= j < old_docs.len() && old_docs[j].uri@ == k;
                            before.lemma_entry(j);
                            self.lemma_entry(j);
                        }
                        if self@.dom().contains(k) {
                            let j = choose|j: int|
                                0 <= j < self.documents@.len() && self.documents@[j].uri@ == k;
                            if j < idx {
                                before.lemma_entry(j);
                            }
                            self.lemma_entry(j);
                        }
                    }
                    assert(self@.dom().contains(uri@));
                    assert forall|k: Seq<char>| #[trigger] self@.dom().contains(k) <==> before@.dom().insert(uri@).contains(k) by {
                        if k != uri@ {
                            assert(before@.dom().contains(k) <==> self@.dom().contains(k));
                        }
                    }
                    assert(self@.dom() =~= before@.dom().insert(uri@));
                    assert(self@ =~= before@.insert(uri@, self@[uri@]));
                }
            },
        }
        Ok(())
    }

    /// Removes `uri` from the open documents (nothing changes if it is not open).
    pub fn unregister(&mut self, uri: &String) -> (r: Result<(), anyhow::Error>)
        ensures
            r is Ok,
            final(self)@ == old(self)@.remove(uri@),
    {
        proof {
            use_type_invariant(&*self);
        }
        let ghost before = *self;
        let ghost old_docs = self.documents@;
        match self.find(uri) {
            Some(i) => {
                let mut docs: Vec<DocumentState> = Vec::new();
                std::mem::swap(&mut docs, &mut self.documents);
                let _removed = docs.remove(i);
                let ghost idx = i as int;
                assert(docs@ == old_docs.remove(idx));
                assert forall|a: int, b: int|
                    0 <= a < docs@.len() && 0 <= b < docs@.len() && a != b implies docs@[a].uri@
                        != docs@[b].uri@ by {
                    let oa = if a < idx { a } else { a + 1 };
                    let ob = if b < idx { b } else { b + 1 };
                    assert(docs@[a] == old_docs[oa]);
                    assert(docs@[b] == old_docs[ob]);
                }
                self.documents = docs;
                proof {
                    use_type_invariant(&*self);
                    assert forall|k: Seq<char>| k != uri@ implies (before@.dom().contains(k)
                        <==> #[trigger] self@.dom().contains(k)) && (self@.dom().contains(k) ==> self@[k]
                        == before@[k]) by {
                        if before@.dom().contains(k) {
                            let j = choose|j: int|
                                0 <= j < old_docs.len() && old_docs[j].uri@ == k;
                            before.lemma_entry(j);
                            let nj = if j < idx { j } else { j - 1 };
                            assert(self.documents@[nj] == old_docs[j]);
                            self.lemma_entry(nj);
                        }
                        if self@.dom().contains(k) {
                            let j = choose|j: int|
                                0 <= j < self.documents@.len() && self.documents@[j].uri@ == k;
                            let oj = if j < idx { j } else { j + 1 };
                            assert(self.documents@[j] == old_docs[oj]);
                            before.lemma_entry(oj);
                            self.lemma_entry(j);
                        }
                    }
                    assert forall|j: int| 0 <= j < self.documents@.len() implies self.documents@[j].uri@
                        != uri@ by {
                        let oj = if j < idx { j } else { j + 1 };
                        assert(self.documents@[j] == old_docs[oj]);
                    }
                    assert(!self@.contains_key(uri@));
                    assert(self@ =~= before@.remove(uri@));
                }
            },
            None => {
                proof {
                    assert(!before@.contains_key(uri@));
                    assert(self@ =~= before@.remove(uri@));
                }
            },
        }
        Ok(())
    }

    /// Whether `uri` is open.
    pub fn is_open(&self, uri: &String) -> (r: bool)
        ensures
            r == self@.contains_key(uri@),
    {
        proof {
            use_type_invariant(self);
        }
        match self.find(uri) {
            Some(i) => {
                proof {
                    self.lemma_entry(i as int);
                }
                true
            },
            None => false,
        }
    }

    /// The state kept for `uri`, if it is open.
    pub fn state_of(&self, uri: &String) -> (r: Option<&DocumentState>)
        ensures
            r is Some <==> self@.contains_key(uri@),
            r matches Some(d) ==> *d == self@[uri@],
    {
        proof {
            use_type_invariant(self);
        }
        match self.find(uri) {
            Some(i) => {
                proof {
                    self.lemma_entry(i as int);
                }
                Some(&self.documents[i])
            },
            None => None,
        }
    }

    /// The URIs of all open documents, each once.
    pub fn get_all_open(&self) -> (r: Vec<String>)
        ensures
            r@.map_values(|s: String| s@).no_duplicates(),
            r@.map_values(|s: String| s@).to_set() == self@.dom(),
            r@.len() == self@.dom().len(),
    {
        proof {
            use_type_invariant(self);
        }
        let mut out: Vec<String> = Vec::new();
        let mut i: usize = 0;
        while i < self.documents.len()
            invariant
                self.wf(),
                i <= self.documents@.len(),
                out@.len() == i,
                forall|j: int| 0 <= j < i ==> #[trigger] out@[j]@ == self.documents@[j].uri@,
            decreases self.documents.len() - i,
        {
            out.push(self.documents[i].uri.clone());
            i = i + 1;
        }
        let ghost uris = out@.map_values(|s: String| s@);
        proof {
            assert forall|a: int, b: int|
                0 <= a < uris.len() && 0 <= b < uris.len() && a != b implies uris[a] != uris[b] by {
                assert(uris[a] == out@[a]@);
                assert(uris[b] == out@[b]@);
            }
            assert forall|k: Seq<char>| uris.to_set().contains(k) <==> self@.dom().contains(k) by {
                if uris.to_set().contains(k) {
                    let j = choose|j: int| 0 <= j < uris.len() && uris[j] == k;
                    assert(out@[j]@ == uris[j]);
                    self.lemma_entry(j);
                }
                if self@.dom().contains(k) {
                    let j = choose|j: int|
                        0 <= j < self.documents@.len() && self.documents@[j].uri@ == k;
                    assert(uris[j] == out@[j]@);
                    assert(uris.contains(k));
                }
            }
            assert(uris.to_set() =~= self@.dom());
            uris.unique_seq_to_set();
        }
        out
    }
}

} // verus!
