use vstd::prelude::*;

use vstd::string::StrSliceExecFns;
use vstd::string::StringSliceAdditionalSpecFns;

use crate::error::StupidDbError;
use crate::hashing::ObjectId;
use crate::hashing::digest_bytes;
use crate::info::StupidRepositoryInfo;
use crate::models::StupidBlob;
use crate::models::StupidEntry;
use crate::models::TreeEntryV;
use crate::objects::ObjectV;
use crate::objects::StupidObject;
use crate::objects::copy_entries;
use crate::objects::encode_commit_bytes;
use crate::objects::encode_tree_bytes;
use crate::objects::entry_views;
use crate::objects::initial_message;
use crate::objects::initial_message_v;
use crate::objects::message_bytes;
use crate::objects::message_bytes_v;
use crate::objects::msg_view;
use crate::objects::object_eq;
use crate::objects::commit_id_of;
use crate::objects::service_author;
use crate::objects::service_author_v;
use crate::objects::tree_id_of;
use crate::order::bytes_eq;
use crate::order::lemma_lex_asymmetric;
use crate::order::lemma_lex_connected;
use crate::order::lemma_lex_transitive;
use crate::order::lex_less;
use crate::order::lex_lt;

verus! {

/// Whether the store holds an object under the given id.
pub open spec fn store_has(s: Seq<(Seq<u8>, ObjectV)>, id: Seq<u8>) -> bool {
    exists|i: int| 0 <= i < s.len() && s[i].0 == id
}

/// The position of the object stored under the given id.
pub open spec fn store_idx(s: Seq<(Seq<u8>, ObjectV)>, id: Seq<u8>) -> int {
    choose|i: int| 0 <= i < s.len() && s[i].0 == id
}

/// The object stored under the given id.
pub open spec fn store_at(s: Seq<(Seq<u8>, ObjectV)>, id: Seq<u8>) -> ObjectV {
    s[store_idx(s, id)].1
}

/// Each id keys at most one stored object: writes deduplicate by id.
pub open spec fn ids_distinct(s: Seq<(Seq<u8>, ObjectV)>) -> bool {
    forall|i: int, j: int| 0 <= i < j < s.len() ==> s[i].0 != s[j].0
}

/// The store after an idempotent write: unchanged when the id is already
/// present, extended by one object otherwise.
pub open spec fn store_put(s: Seq<(Seq<u8>, ObjectV)>, id: Seq<u8>, o: ObjectV) -> Seq<
    (Seq<u8>, ObjectV),
> {
    if store_has(s, id) {
        s
    } else {
        s.push((id, o))
    }
}

/// The staging index keeps its entries in strictly increasing path order,
/// so paths are unique within the index.
pub open spec fn index_sorted(es: Seq<TreeEntryV>) -> bool {
    forall|i: int, j: int| 0 <= i < j < es.len() ==> lex_lt(es[i].path, es[j].path)
}

/// Every entry references an object already present in the store.
pub open spec fn entries_in_store(es: Seq<TreeEntryV>, s: Seq<(Seq<u8>, ObjectV)>) -> bool {
    forall|i: int| 0 <= i < es.len() ==> store_has(s, #[trigger] es[i].oid)
}

/// One object's outgoing references all land on objects present in the
/// store; a commit's tree reference lands on a tree.
pub open spec fn obj_refs_ok(o: ObjectV, s: Seq<(Seq<u8>, ObjectV)>) -> bool {
    match o {
        ObjectV::Blob { .. } => true,
        ObjectV::Tree { entries } => entries_in_store(entries, s),
        ObjectV::Commit { tree, parent, .. } => store_has(s, tree) && store_at(s, tree) is Tree
            && (parent matches Some(p) ==> store_has(s, p)),
    }
}

/// No stored object references an unwritten object.
pub open spec fn store_closed(s: Seq<(Seq<u8>, ObjectV)>) -> bool {
    forall|i: int| 0 <= i < s.len() ==> obj_refs_ok(#[trigger] s[i].1, s)
}

/// The chain lists commit ids from the root to the tip; each commit's
/// parent is the id before it, and the root has none.
pub open spec fn chain_ok(c: Seq<Seq<u8>>, s: Seq<(Seq<u8>, ObjectV)>) -> bool {
    forall|i: int|
        0 <= i < c.len() ==> store_has(s, #[trigger] c[i]) && store_at(s, c[i]) is Commit
            && store_at(s, c[i]).commit_parent() == (if i == 0 {
            Option::<Seq<u8>>::None
        } else {
            Option::<Seq<u8>>::Some(c[i - 1])
        })
}

/// The store only grows: everything present stays present, unchanged.
pub open spec fn store_mono(a: Seq<(Seq<u8>, ObjectV)>, b: Seq<(Seq<u8>, ObjectV)>) -> bool {
    forall|x: Seq<u8>| #[trigger]
        store_has(a, x) ==> store_has(b, x) && store_at(b, x) == store_at(a, x)
}

/// A store grows monotonically onto itself.
pub proof fn lemma_mono_refl(s: Seq<(Seq<u8>, ObjectV)>)
    ensures
        store_mono(s, s),
{
    assert forall|x: Seq<u8>| #[trigger]
        store_has(s, x) implies store_has(s, x) && store_at(s, x) == store_at(s, x) by {
    }
}

/// Monotone growth composes.
pub proof fn lemma_mono_trans(
    a: Seq<(Seq<u8>, ObjectV)>,
    b: Seq<(Seq<u8>, ObjectV)>,
    c: Seq<(Seq<u8>, ObjectV)>,
)
    requires
        store_mono(a, b),
        store_mono(b, c),
    ensures
        store_mono(a, c),
{
    assert forall|x: Seq<u8>| #[trigger]
        store_has(a, x) implies store_has(c, x) && store_at(c, x) == store_at(a, x) by {
        assert(store_has(b, x) && store_at(b, x) == store_at(a, x));
    }
}

/// Extracts one lookup from monotone growth.
pub proof fn lemma_mono_at(a: Seq<(Seq<u8>, ObjectV)>, b: Seq<(Seq<u8>, ObjectV)>, x: Seq<u8>)
    requires
        store_mono(a, b),
        store_has(a, x),
    ensures
        store_has(b, x),
        store_at(b, x) == store_at(a, x),
{
}

/// The staging index after an entry is staged: the entry replaces the one
/// under the same path, or is inserted at its ordered position.
pub open spec fn index_put(es: Seq<TreeEntryV>, e: TreeEntryV) -> Seq<TreeEntryV>
    decreases es.len(),
{
    if es.len() == 0 {
        seq![e]
    } else if lex_lt(e.path, es[0].path) {
        seq![e] + es
    } else if e.path == es[0].path {
        seq![e] + es.drop_first()
    } else {
        seq![es[0]] + index_put(es.drop_first(), e)
    }
}

/// Appending a commit whose parent is the current tip keeps the chain
/// well-formed.
proof fn lemma_chain_push(c: Seq<Seq<u8>>, s: Seq<(Seq<u8>, ObjectV)>, cid: Seq<u8>, cobj: ObjectV)
    requires
        chain_ok(c, s),
        c.len() >= 1,
        store_has(s, cid),
        store_at(s, cid) == cobj,
        cobj is Commit,
        cobj.commit_parent() == Some(c.last()),
    ensures
        chain_ok(c.push(cid), s),
{
    let c2 = c.push(cid);
    assert forall|i: int|
        0 <= i < c2.len() implies store_has(s, #[trigger] c2[i]) && store_at(s, c2[i]) is Commit
        && store_at(s, c2[i]).commit_parent() == (if i == 0 {
        Option::<Seq<u8>>::None
    } else {
        Option::<Seq<u8>>::Some(c2[i - 1])
    }) by {
        if i < c.len() {
            assert(c2[i] == c[i]);
            if i > 0 {
                assert(c2[i - 1] == c[i - 1]);
            }
        } else {
            assert(c2[i] == cid);
            assert(c2[i - 1] == c[c.len() - 1]);
        }
    }
}

/// With distinct ids, the pair at any position is what lookup by its id
/// finds.
proof fn lemma_store_at_index(s: Seq<(Seq<u8>, ObjectV)>, i: int)
    requires
        ids_distinct(s),
        0 <= i < s.len(),
    ensures
        store_has(s, s[i].0),
        store_at(s, s[i].0) == s[i].1,
{
    assert(store_has(s, s[i].0));
    let j = store_idx(s, s[i].0);
    assert(0 <= j < s.len() && s[j].0 == s[i].0);
    if j < i {
        assert(s[j].0 != s[i].0);
    }
    if i < j {
        assert(s[i].0 != s[j].0);
    }
}

/// An idempotent write only grows the store.
pub proof fn lemma_store_put_mono(s: Seq<(Seq<u8>, ObjectV)>, id: Seq<u8>, o: ObjectV)
    requires
        ids_distinct(s),
    ensures
        store_mono(s, store_put(s, id, o)),
{
    if store_has(s, id) {
        lemma_mono_refl(s);
    } else {
        let s2 = s.push((id, o));
        assert forall|x: Seq<u8>| #[trigger]
            store_has(s, x) implies store_has(s2, x) && store_at(s2, x) == store_at(s, x) by {
            lemma_store_at_push_one(s, id, o, x);
        }
    }
}

proof fn lemma_store_at_push_one(s: Seq<(Seq<u8>, ObjectV)>, id: Seq<u8>, o: ObjectV, x: Seq<u8>)
    requires
        ids_distinct(s),
        !store_has(s, id),
    ensures
        store_has(s.push((id, o)), x) <==> (store_has(s, x) || x == id),
        store_has(s, x) ==> store_at(s.push((id, o)), x) == store_at(s, x),
        store_at(s.push((id, o)), id) == o,
        ids_distinct(s.push((id, o))),
{
    let s2 = s.push((id, o));
    assert forall|i: int, j: int| 0 <= i < j < s2.len() implies s2[i].0 != s2[j].0 by {
        if j == s.len() {
            assert(s2[i].0 == s[i].0);
            if s[i].0 == id {
                assert(store_has(s, id));
            }
        }
    }
    if store_has(s, x) {
        let i = store_idx(s, x);
        assert(0 <= i < s.len() && s[i].0 == x);
        assert(s2[i].0 == x);
        assert(store_has(s2, x));
        let j = store_idx(s2, x);
        assert(0 <= j < s2.len() && s2[j].0 == x);
        if j == s.len() {
            assert(x == id);
            assert(false);
        }
        if i < j {
            assert(s2[i].0 != s2[j].0);
            assert(false);
        }
        if j < i {
            assert(s2[j].0 == s[j].0);
            assert(s[j].0 != s[i].0);
            assert(false);
        }
        assert(store_at(s2, x) == store_at(s, x));
    }
    assert(s2[s.len() as int].0 == id);
    assert(store_has(s2, id));
    let k = store_idx(s2, id);
    assert(0 <= k < s2.len() && s2[k].0 == id);
    if k < s.len() {
        assert(s[k].0 == id);
        assert(store_has(s, id));
        assert(false);
    }
    assert(store_at(s2, id) == o);
    if store_has(s2, x) && x != id {
        let j = store_idx(s2, x);
        assert(0 <= j < s2.len() && s2[j].0 == x);
        assert(j != s.len());
        assert(s[j].0 == x);
        assert(store_has(s, x));
    }
}

proof fn lemma_refs_ok_extend(o: ObjectV, s: Seq<(Seq<u8>, ObjectV)>, id: Seq<u8>, no: ObjectV)
    requires
        ids_distinct(s),
        !store_has(s, id),
        obj_refs_ok(o, s),
    ensures
        obj_refs_ok(o, s.push((id, no))),
{
    let s2 = s.push((id, no));
    match o {
        ObjectV::Blob { .. } => {},
        ObjectV::Tree { entries } => {
            assert forall|j: int| 0 <= j < entries.len() implies store_has(
                s2,
                #[trigger] entries[j].oid,
            ) by {
                lemma_store_at_push_one(s, id, no, entries[j].oid);
            }
        },
        ObjectV::Commit { tree, parent, .. } => {
            lemma_store_at_push_one(s, id, no, tree);
            match parent {
                Some(p) => {
                    lemma_store_at_push_one(s, id, no, p);
                },
                None => {},
            }
        },
    }
}

/// Extending the store with a fresh, closed object preserves every
/// invariant and every existing lookup.
proof fn lemma_store_extend(
    s: Seq<(Seq<u8>, ObjectV)>,
    id: Seq<u8>,
    o: ObjectV,
    es: Seq<TreeEntryV>,
    c: Seq<Seq<u8>>,
)
    requires
        ids_distinct(s),
        !store_has(s, id),
        obj_refs_ok(o, s),
        store_closed(s),
        entries_in_store(es, s),
        chain_ok(c, s),
    ensures
        ids_distinct(s.push((id, o))),
        store_closed(s.push((id, o))),
        entries_in_store(es, s.push((id, o))),
        chain_ok(c, s.push((id, o))),
        store_has(s.push((id, o)), id),
        store_at(s.push((id, o)), id) == o,
        store_mono(s, s.push((id, o))),
        forall|x: Seq<u8>| #[trigger] store_has(s.push((id, o)), x) ==> store_has(s, x) || x == id,
{
    let s2 = s.push((id, o));
    lemma_store_at_push_one(s, id, o, id);
    assert forall|x: Seq<u8>| store_has(s, x) implies #[trigger] store_has(s2, x) && store_at(
        s2,
        x,
    ) == store_at(s, x) by {
        lemma_store_at_push_one(s, id, o, x);
    }
    assert(store_mono(s, s2));
    assert forall|x: Seq<u8>| #[trigger] store_has(s2, x) implies store_has(s, x) || x == id by {
        lemma_store_at_push_one(s, id, o, x);
    }
    assert forall|i: int| 0 <= i < s2.len() implies obj_refs_ok(#[trigger] s2[i].1, s2) by {
        if i < s.len() {
            assert(obj_refs_ok(s[i].1, s));
            lemma_refs_ok_extend(s[i].1, s, id, o);
            assert(s2[i].1 == s[i].1);
        } else {
            lemma_refs_ok_extend(o, s, id, o);
        }
    }
    assert forall|i: int| 0 <= i < es.len() implies store_has(s2, #[trigger] es[i].oid) by {
        lemma_store_at_push_one(s, id, o, es[i].oid);
    }
    assert forall|i: int|
        0 <= i < c.len() implies store_has(s2, #[trigger] c[i]) && store_at(s2, c[i]) is Commit
        && store_at(s2, c[i]).commit_parent() == (if i == 0 {
        Option::<Seq<u8>>::None
    } else {
        Option::<Seq<u8>>::Some(c[i - 1])
    }) by {
        lemma_store_at_push_one(s, id, o, c[i]);
    }
}

/// A durable repository: its storage path, its optional origin remote,
/// and the object graph, staging index and commit chain it owns. The
/// value of this struct models the repository's entire durable state.
pub struct StupidRepository {
    pub(crate) path: String,
    pub(crate) origin: Option<String>,
    pub(crate) initialized: bool,
    pub(crate) objects: Vec<(ObjectId, StupidObject)>,
    pub(crate) index: Vec<StupidEntry>,
    pub(crate) chain: Vec<ObjectId>,
}

impl StupidRepository {
    /// The abstract object store: id/object pairs in write order.
    pub closed spec fn store(&self) -> Seq<(Seq<u8>, ObjectV)> {
        self.objects@.map_values(|p: (ObjectId, StupidObject)| (p.0@, p.1@))
    }

    /// The abstract staging index, in path order.
    pub closed spec fn staged(&self) -> Seq<TreeEntryV> {
        entry_views(self.index@)
    }

    /// The abstract commit chain, root first.
    pub closed spec fn chain_v(&self) -> Seq<Seq<u8>> {
        self.chain@.map_values(|o: ObjectId| o@)
    }

    /// Whether the repository's storage has been opened or created.
    pub closed spec fn is_open(&self) -> bool {
        self.initialized
    }

    /// The repository's storage path.
    pub closed spec fn path_v(&self) -> Seq<char> {
        self.path@
    }

    /// The recorded origin URL, if any.
    pub closed spec fn origin_v(&self) -> Option<Seq<char>> {
        match self.origin {
            Some(ref s) => Some(s@),
            None => None,
        }
    }

    /// The chain tip: the most recent commit id, if any commit exists.
    pub open spec fn tip(&self) -> Option<Seq<u8>> {
        if self.chain_v().len() == 0 {
            None
        } else {
            Some(self.chain_v().last())
        }
    }

    /// The repository's well-formedness: ids key unique objects, the
    /// index is sorted and references written objects only, no stored
    /// object dangles, and the chain is linear with correct parents.
    pub open spec fn wf(&self) -> bool {
        &&& ids_distinct(self.store())
        &&& index_sorted(self.staged())
        &&& entries_in_store(self.staged(), self.store())
        &&& store_closed(self.store())
        &&& chain_ok(self.chain_v(), self.store())
    }

    /// Everything but the object graph, index and chain is unchanged.
    pub open spec fn same_identity(&self, other: &Self) -> bool {
        &&& self.path_v() == other.path_v()
        &&& self.origin_v() == other.origin_v()
        &&& self.is_open() == other.is_open()
    }

    /// Builds a handle on a storage path. Nothing exists there yet: the
    /// repository must be opened or created before it is used.
    pub fn new(path: String) -> (r: StupidRepository)
        ensures
            r.wf(),
            r.path_v() == path@,
            r.origin_v() is None,
            !r.is_open(),
            r.store() =~= Seq::<(Seq<u8>, ObjectV)>::empty(),
            r.staged() =~= Seq::<TreeEntryV>::empty(),
            r.chain_v() =~= Seq::<Seq<u8>>::empty(),
    {
        let r = StupidRepository {
            path,
            origin: None,
            initialized: false,
            objects: Vec::new(),
            index: Vec::new(),
            chain: Vec::new(),
        };
        proof {
            assert(r.store() =~= Seq::<(Seq<u8>, ObjectV)>::empty());
            assert(r.staged() =~= Seq::<TreeEntryV>::empty());
            assert(r.chain_v() =~= Seq::<Seq<u8>>::empty());
        }
        r
    }

    /// Whether this repository lives at the given path.
    pub fn path_matches(&self, p: &String) -> (r: bool)
        ensures
            r == (self.path_v() == p@),
    {
        self.path.eq(p)
    }

    /// Records the origin URL a fresh repository is seeded with.
    pub fn seed_origin(&mut self, origin: Option<String>)
        requires
            old(self).wf(),
        ensures
            final(self).wf(),
            final(self).path_v() == old(self).path_v(),
            final(self).is_open() == old(self).is_open(),
            final(self).store() == old(self).store(),
            final(self).staged() == old(self).staged(),
            final(self).chain_v() == old(self).chain_v(),
            final(self).origin_v() == (match origin {
                Some(ref o) => Some(o@),
                None => None::<Seq<char>>,
            }),
    {
        self.origin = origin;
    }

    /// Opens the repository: succeeds exactly when its storage exists.
    pub fn open(&self) -> (r: Result<(), StupidDbError>)
        ensures
            r is Ok <==> self.is_open(),
            (r matches Err(e) ==> e == StupidDbError::RepoPathInvalid),
    {
        if self.initialized {
            Ok(())
        } else {
            Err(StupidDbError::RepoPathInvalid)
        }
    }

    /// Creates the repository's storage. Idempotent: when the storage
    /// already exists this is a no-op that leaves all state in place.
    pub fn init(&mut self) -> (r: Result<(), StupidDbError>)
        requires
            old(self).wf(),
        ensures
            r is Ok,
            final(self).wf(),
            final(self).is_open(),
            final(self).path_v() == old(self).path_v(),
            final(self).origin_v() == old(self).origin_v(),
            final(self).store() == old(self).store(),
            final(self).staged() == old(self).staged(),
            final(self).chain_v() == old(self).chain_v(),
    {
        self.initialized = true;
        Ok(())
    }

    /// Looks an id up in the store.
    fn store_find(&self, id: &ObjectId) -> (r: Option<usize>)
        ensures
            (r matches Some(i) ==> i < self.store().len() && self.store()[i as int].0 == id@
                && store_has(self.store(), id@)),
            r is None ==> !store_has(self.store(), id@),
    {
        let mut i: usize = 0;
        while i < self.objects.len()
            invariant
                i <= self.objects@.len(),
                forall|j: int| 0 <= j < i ==> self.store()[j].0 != id@,
            decreases self.objects@.len() - i,
        {
            if self.objects[i].0.same(id) {
                proof {
                    assert(self.store()[i as int].0 == id@);
                }
                return Some(i);
            }
            i = i + 1;
        }
        proof {
            if store_has(self.store(), id@) {
                let j = store_idx(self.store(), id@);
                assert(0 <= j < self.store().len() && self.store()[j].0 == id@);
                assert(false);
            }
        }
        None
    }

    /// Whether an object with the given id has been written.
    pub fn has_object(&self, id: &ObjectId) -> (r: bool)
        ensures
            r == store_has(self.store(), id@),
    {
        self.store_find(id).is_some()
    }

    /// Writes one closed object under a caller-computed id, deduplicating
    /// by id. Returns true when the store afterwards holds exactly this
    /// object under this id; returns false, leaving the store unchanged,
    /// when the id is already taken by a different object.
    fn put_object(&mut self, id: ObjectId, obj: StupidObject) -> (r: bool)
        requires
            old(self).wf(),
            obj_refs_ok(obj@, old(self).store()),
        ensures
            final(self).wf(),
            final(self).same_identity(old(self)),
            final(self).staged() == old(self).staged(),
            final(self).chain_v() == old(self).chain_v(),
            r == (!store_has(old(self).store(), id@) || store_at(old(self).store(), id@) == obj@),
            r ==> final(self).store() == store_put(old(self).store(), id@, obj@) && store_has(
                final(self).store(),
                id@,
            ) && store_at(final(self).store(), id@) == obj@,
            !r ==> *final(self) == *old(self),
            store_mono(old(self).store(), final(self).store()),
            forall|x: Seq<u8>| #[trigger]
                store_has(final(self).store(), x) ==> store_has(old(self).store(), x) || x == id@,
    {
        let ghost idv = id@;
        let ghost objv = obj@;
        match self.store_find(&id) {
            Some(i) => {
                proof {
                    lemma_store_at_index(self.store(), i as int);
                    lemma_mono_refl(self.store());
                }
                object_eq(&self.objects[i].1, &obj)
            },
            None => {
                proof {
                    lemma_store_extend(
                        self.store(),
                        idv,
                        objv,
                        self.staged(),
                        self.chain_v(),
                    );
                }
                self.objects.push((id, obj));
                proof {
                    assert(self.store() =~= old(self).store().push((idv, objv)));
                }
                true
            },
        }
    }

    /// Writes raw content into the store. Computes the content's id via
    /// the hasher and persists the bytes under it when not already
    /// present; the id is returned in both cases, so the write is
    /// idempotent. Fails only when the repository is not open or the
    /// hasher reports a failure.
    pub fn blob(&mut self, data: &Vec<u8>) -> (r: Result<ObjectId, StupidDbError>)
        requires
            old(self).wf(),
        ensures
            final(self).wf(),
            final(self).same_identity(old(self)),
            final(self).staged() == old(self).staged(),
            final(self).chain_v() == old(self).chain_v(),
            (r matches Ok(id) ==> old(self).is_open() && id@ == crate::hashing::blob_oid_of(data@)
                && id.wf() && final(self).store() == store_put(
                old(self).store(),
                id@,
                ObjectV::Blob { data: data@ },
            )),
            (r matches Err(e) ==> *final(self) == *old(self) && ((e
                == StupidDbError::RepoNotInitialized && !old(self).is_open()) || (e
                == StupidDbError::BlobFailed && old(self).is_open()))),
            !old(self).is_open() ==> (r matches Err(e) && e == StupidDbError::RepoNotInitialized),
            store_mono(old(self).store(), final(self).store()),
    {
        if !self.initialized {
            return Err(StupidDbError::RepoNotInitialized);
        }
        let id = match digest_bytes(data) {
            None => {
                return Err(StupidDbError::BlobFailed);
            },
            Some(id) => id,
        };
        let ghost idv = id@;
        match self.store_find(&id) {
            Some(_) => {
                proof {
                    lemma_mono_refl(self.store());
                }
                Ok(id)
            },
            None => {
                let obj = StupidObject::Blob { data: crate::hashing::copy_bytes(data) };
                proof {
                    lemma_store_extend(
                        self.store(),
                        idv,
                        obj@,
                        self.staged(),
                        self.chain_v(),
                    );
                }
                let id2 = id.dup();
                self.objects.push((id2, obj));
                proof {
                    assert(self.store() =~= old(self).store().push((idv, ObjectV::Blob {
                        data: data@,
                    })));
                }
                Ok(id)
            },
        }
    }

    /// The staged entries, in path order. Fails only when the repository
    /// is not open.
    pub fn index(&self) -> (r: Result<Vec<StupidEntry>, StupidDbError>)
        ensures
            (r matches Ok(es) ==> self.is_open() && entry_views(es@) == self.staged()),
            (r matches Err(e) ==> e == StupidDbError::RepoNotInitialized && !self.is_open()),
            r is Ok <==> self.is_open(),
    {
        if !self.initialized {
            return Err(StupidDbError::RepoNotInitialized);
        }
        Ok(copy_entries(&self.index))
    }

    /// Stages an entry: inserts it at its ordered position, or replaces
    /// the entry already recorded under the same path. Succeeds exactly
    /// when the repository is open and the entry's object was already
    /// written.
    pub fn index_add(&mut self, entry: StupidEntry) -> (r: Result<(), StupidDbError>)
        requires
            old(self).wf(),
        ensures
            final(self).wf(),
            final(self).same_identity(old(self)),
            final(self).store() == old(self).store(),
            final(self).chain_v() == old(self).chain_v(),
            r is Ok <==> (old(self).is_open() && store_has(old(self).store(), entry@.oid)),
            (r is Ok ==> final(self).staged() == index_put(old(self).staged(), entry@)),
            (r matches Err(e) ==> *final(self) == *old(self) && ((e
                == StupidDbError::RepoNotInitialized && !old(self).is_open()) || (e
                == StupidDbError::IndexWriteFailed && old(self).is_open()))),
    {
        if !self.initialized {
            return Err(StupidDbError::RepoNotInitialized);
        }
        if self.store_find(&entry.oid).is_none() {
            return Err(StupidDbError::IndexWriteFailed);
        }
        let ghost ev = entry@;
        let ghost olds = self.staged();
        let k = find_insert_pos(&self.index, &entry.path);
        let ghost ki = k as int;
        if k < self.index.len() && bytes_eq(&self.index[k].path, &entry.path) {
            proof {
                lemma_index_put_at(olds, ev, ki);
            }
            self.index.remove(k);
            self.index.insert(k, entry);
            proof {
                assert(self.index@ =~= old(self).index@.update(ki, entry));
                assert(self.staged() =~= olds.update(ki, ev));
                lemma_update_sorted(olds, ev, ki);
                assert forall|i: int|
                    0 <= i < self.staged().len() implies store_has(
                    self.store(),
                    #[trigger] self.staged()[i].oid,
                ) by {
                    if i != ki {
                        assert(self.staged()[i] == olds[i]);
                    }
                }
            }
        } else {
            proof {
                if ki < olds.len() {
                    lemma_lex_connected(ev.path, olds[ki].path);
                }
                lemma_index_put_at(olds, ev, ki);
                lemma_insert_sorted(olds, ev, ki);
            }
            self.index.insert(k, entry);
            proof {
                assert(self.index@ =~= old(self).index@.insert(ki, entry));
                assert(self.staged() =~= olds.insert(ki, ev));
                assert forall|i: int|
                    0 <= i < self.staged().len() implies store_has(
                    self.store(),
                    #[trigger] self.staged()[i].oid,
                ) by {
                    if i < ki {
                        assert(self.staged()[i] == olds[i]);
                    } else if i > ki {
                        assert(self.staged()[i] == olds[i - 1]);
                    }
                }
            }
        }
        Ok(())
    }

    /// Snapshots the staged entries into a tree object and writes it.
    /// Trees with identical entries collapse to the same id, and the
    /// staged entries are left in place for further accumulation.
    pub fn write_tree(&mut self) -> (r: Result<ObjectId, StupidDbError>)
        requires
            old(self).wf(),
        ensures
            final(self).wf(),
            final(self).same_identity(old(self)),
            final(self).staged() == old(self).staged(),
            final(self).chain_v() == old(self).chain_v(),
            (r matches Ok(id) ==> old(self).is_open() && id@ == tree_id_of(old(self).staged())
                && id.wf() && final(self).store() == store_put(
                old(self).store(),
                id@,
                ObjectV::Tree { entries: old(self).staged() },
            ) && store_has(final(self).store(), id@) && store_at(final(self).store(), id@)
                == (ObjectV::Tree { entries: old(self).staged() })),
            (r matches Err(e) ==> *final(self) == *old(self) && ((e
                == StupidDbError::RepoNotInitialized && !old(self).is_open()) || (e
                == StupidDbError::WriteTreeFailed && old(self).is_open()))),
            !old(self).is_open() ==> (r matches Err(e) && e == StupidDbError::RepoNotInitialized),
            store_mono(old(self).store(), final(self).store()),
    {
        if !self.initialized {
            return Err(StupidDbError::RepoNotInitialized);
        }
        let enc = encode_tree_bytes(&self.index);
        let id = match digest_bytes(&enc) {
            None => {
                return Err(StupidDbError::WriteTreeFailed);
            },
            Some(id) => id,
        };
        let entries = copy_entries(&self.index);
        let obj = StupidObject::Tree { entries };
        proof {
            assert(obj@ =~~= (ObjectV::Tree { entries: old(self).staged() }));
        }
        let id2 = id.dup();
        if self.put_object(id2, obj) {
            Ok(id)
        } else {
            Err(StupidDbError::WriteTreeFailed)
        }
    }

    /// Reads the object stored under an id, or nothing when no object
    /// with that id was ever written.
    pub fn read(&self, id: &ObjectId) -> (r: Option<&StupidObject>)
        requires
            self.wf(),
        ensures
            (r matches Some(o) ==> store_has(self.store(), id@) && o@ == store_at(
                self.store(),
                id@,
            )),
            r is None <==> !store_has(self.store(), id@),
    {
        match self.store_find(id) {
            None => None,
            Some(i) => {
                proof {
                    lemma_store_at_index(self.store(), i as int);
                }
                Some(&self.objects[i].1)
            },
        }
    }

    /// The entries of the tree stored under the given id, or nothing when
    /// the repository is not open or the id does not name a stored tree.
    pub fn find_tree(&self, tree_oid: &ObjectId) -> (r: Option<Vec<StupidEntry>>)
        requires
            self.wf(),
        ensures
            (r matches Some(es) ==> self.is_open() && store_has(self.store(), tree_oid@)
                && store_at(self.store(), tree_oid@) is Tree && entry_views(es@) == store_at(
                self.store(),
                tree_oid@,
            ).tree_entries()),
            (r is None ==> !self.is_open() || !store_has(self.store(), tree_oid@) || !(store_at(
                self.store(),
                tree_oid@,
            ) is Tree)),
    {
        if !self.initialized {
            return None;
        }
        let i = match self.store_find(tree_oid) {
            None => {
                return None;
            },
            Some(i) => i,
        };
        proof {
            lemma_store_at_index(self.store(), i as int);
        }
        match &self.objects[i].1 {
            StupidObject::Tree { entries } => Some(copy_entries(entries)),
            _ => None,
        }
    }

    /// The chain tip's commit id, if the repository is open and any
    /// commit exists.
    pub fn find_last_commit(&self) -> (r: Option<ObjectId>)
        ensures
            (r matches Some(id) ==> self.is_open() && self.tip() == Some(id@)),
            (r is None ==> !self.is_open() || self.tip() is None),
    {
        if !self.initialized {
            return None;
        }
        if self.chain.len() == 0 {
            return None;
        }
        Some(self.chain[self.chain.len() - 1].dup())
    }

    /// Roots an empty chain: builds a tree from whatever is currently
    /// staged (possibly nothing) and commits it with the fixed root
    /// message and no parent.
    fn create_initial_commit(&mut self) -> (r: Result<(), StupidDbError>)
        requires
            old(self).wf(),
            old(self).is_open(),
            old(self).chain_v().len() == 0,
        ensures
            final(self).wf(),
            final(self).same_identity(old(self)),
            final(self).staged() == old(self).staged(),
            (r is Ok ==> final(self).chain_v().len() == 1 && store_has(
                final(self).store(),
                final(self).chain_v()[0],
            ) && store_at(final(self).store(), final(self).chain_v()[0]) is Commit && store_at(
                final(self).store(),
                final(self).chain_v()[0],
            ).commit_parent() is None && store_at(
                final(self).store(),
                final(self).chain_v()[0],
            ).commit_tree() == tree_id_of(old(self).staged()) && store_at(
                final(self).store(),
                final(self).chain_v()[0],
            ).commit_message() == initial_message_v() && store_at(
                final(self).store(),
                final(self).chain_v()[0],
            ).commit_author() == service_author_v()),
            (r is Err ==> final(self).chain_v().len() == 0),
            (r matches Err(e) ==> e == StupidDbError::WriteTreeFailed || e
                == StupidDbError::TreeFetchFailed || e == StupidDbError::CommitFailed),
            store_mono(old(self).store(), final(self).store()),
    {
        let ghost s0 = old(self).store();
        let tid = match self.write_tree() {
            Err(_) => {
                return Err(StupidDbError::WriteTreeFailed);
            },
            Ok(t) => t,
        };
        let ghost s1 = self.store();
        if self.store_find(&tid).is_none() {
            return Err(StupidDbError::TreeFetchFailed);
        }
        let msg = initial_message();
        let author = service_author();
        let parent_opt: Option<ObjectId> = None;
        let enc = encode_commit_bytes(&tid, &parent_opt, &msg, &author, 0);
        let cid = match digest_bytes(&enc) {
            None => {
                return Err(StupidDbError::CommitFailed);
            },
            Some(c) => c,
        };
        let ghost cidv = cid@;
        let cobj = StupidObject::Commit {
            tree: tid,
            parent: parent_opt,
            message: msg,
            author,
            timestamp: 0,
        };
        let ghost cobjv = cobj@;
        let cid2 = cid.dup();
        if !self.put_object(cid2, cobj) {
            proof {
                lemma_mono_trans(s0, s1, self.store());
            }
            return Err(StupidDbError::CommitFailed);
        }
        proof {
            lemma_mono_trans(s0, s1, self.store());
        }
        self.chain.push(cid);
        proof {
            assert(self.chain_v() =~= seq![cidv]);
            assert(store_at(self.store(), cidv) == cobjv);
            assert(cobjv.commit_parent() is None);
            assert forall|i: int|
                0 <= i < self.chain_v().len() implies store_has(
                self.store(),
                #[trigger] self.chain_v()[i],
            ) && store_at(self.store(), self.chain_v()[i]) is Commit && store_at(
                self.store(),
                self.chain_v()[i],
            ).commit_parent() == (if i == 0 {
                Option::<Seq<u8>>::None
            } else {
                Option::<Seq<u8>>::Some(self.chain_v()[i - 1])
            }) by {
                assert(i == 0);
                assert(self.chain_v()[0] == cidv);
            }
        }
        Ok(())
    }

    /// Appends a commit over the given tree to the chain. When the chain
    /// is empty a root commit is synthesized first, so the first explicit
    /// commit to a fresh repository yields a chain of two. The new
    /// commit's parent is the previous tip; the tip advances to the new
    /// commit.
    #[verifier::rlimit(100)]
    pub fn commit(&mut self, tree_oid: &ObjectId, blob: &StupidBlob) -> (r: Result<
        ObjectId,
        StupidDbError,
    >)
        requires
            old(self).wf(),
        ensures
            final(self).wf(),
            final(self).same_identity(old(self)),
            final(self).staged() == old(self).staged(),
            !old(self).is_open() ==> (r matches Err(e) && e == StupidDbError::RepoNotInitialized),
            (r matches Ok(id) ==> old(self).is_open() && {
                let c = final(self).chain_v();
                &&& c.len() >= 2
                &&& c.last() == id@
                &&& (old(self).chain_v().len() > 0 ==> c == old(self).chain_v().push(id@))
                &&& (old(self).chain_v().len() == 0 ==> c.len() == 2 && store_at(
                    final(self).store(),
                    c[0],
                ).commit_tree() == tree_id_of(old(self).staged()) && store_at(
                    final(self).store(),
                    c[0],
                ).commit_parent() is None && store_at(
                    final(self).store(),
                    c[0],
                ).commit_message() == initial_message_v() && store_at(
                    final(self).store(),
                    c[0],
                ).commit_author() == service_author_v())
                &&& (old(self).chain_v().len() > 0 ==> store_has(old(self).store(), tree_oid@)
                    && store_at(old(self).store(), tree_oid@) is Tree)
                &&& store_has(final(self).store(), id@)
                &&& store_at(final(self).store(), id@) is Commit
                &&& store_at(final(self).store(), id@).commit_tree() == tree_oid@
                &&& store_at(final(self).store(), id@).commit_parent() == Some(c[c.len() - 2])
                &&& store_at(final(self).store(), id@).commit_message() == message_bytes_v(
                    msg_view(blob.message),
                )
                &&& store_at(final(self).store(), id@).commit_author() == service_author_v()
                &&& id@ == commit_id_of(
                    tree_oid@,
                    Some(c[c.len() - 2]),
                    message_bytes_v(msg_view(blob.message)),
                    service_author_v(),
                    0,
                )
                &&& store_has(final(self).store(), tree_oid@)
                &&& store_at(final(self).store(), tree_oid@) is Tree
            }),
            (r matches Err(e) ==> e == StupidDbError::RepoNotInitialized || e
                == StupidDbError::CommitFetchFailed || e == StupidDbError::TreeFetchFailed || e
                == StupidDbError::CommitFailed),
            (r matches Err(e) && e == StupidDbError::RepoNotInitialized ==> !old(self).is_open()),
            (r matches Err(e) && e == StupidDbError::CommitFetchFailed ==> old(self).is_open()
                && old(self).chain_v().len() == 0),
            (old(self).is_open() && old(self).chain_v().len() > 0 && !(store_has(
                old(self).store(),
                tree_oid@,
            ) && store_at(old(self).store(), tree_oid@) is Tree) ==> (r matches Err(e) && e
                == StupidDbError::TreeFetchFailed)),
            (r matches Err(e) && e == StupidDbError::TreeFetchFailed ==> !(store_has(
                final(self).store(),
                tree_oid@,
            ) && store_at(final(self).store(), tree_oid@) is Tree)),
            (r is Err ==> final(self).chain_v() == old(self).chain_v() || (old(self).chain_v().len() == 0 && final(self).chain_v().len() == 1)),
            store_mono(old(self).store(), final(self).store()),
    {
        let ghost s0 = old(self).store();
        if !self.initialized {
            proof {
                lemma_mono_refl(self.store());
            }
            return Err(StupidDbError::RepoNotInitialized);
        }
        if self.chain.len() == 0 {
            match self.create_initial_commit() {
                Err(_) => {
                    return Err(StupidDbError::CommitFetchFailed);
                },
                Ok(()) => {},
            }
        } else {
            proof {
                lemma_mono_refl(self.store());
            }
        }
        let ghost s1 = self.store();
        let ti = match self.store_find(tree_oid) {
            None => {
                return Err(StupidDbError::TreeFetchFailed);
            },
            Some(i) => i,
        };
        proof {
            lemma_store_at_index(self.store(), ti as int);
        }
        let is_tree = match &self.objects[ti].1 {
            StupidObject::Tree { .. } => true,
            _ => false,
        };
        if !is_tree {
            return Err(StupidDbError::TreeFetchFailed);
        }
        let msg = message_bytes(&blob.message);
        let ghost msgv = msg@;
        let author = service_author();
        let tree_id = tree_oid.dup();
        let parent = self.chain[self.chain.len() - 1].dup();
        let ghost parentv = parent@;
        proof {
            assert(parentv == self.chain_v()[self.chain_v().len() - 1]);
        }
        let parent_opt = Some(parent);
        let enc = encode_commit_bytes(&tree_id, &parent_opt, &msg, &author, 0);
        let cid = match digest_bytes(&enc) {
            None => {
                return Err(StupidDbError::CommitFailed);
            },
            Some(c) => c,
        };
        let ghost cidv = cid@;
        let cobj = StupidObject::Commit {
            tree: tree_id,
            parent: parent_opt,
            message: msg,
            author,
            timestamp: 0,
        };
        let ghost cobjv = cobj@;
        let cid2 = cid.dup();
        if !self.put_object(cid2, cobj) {
            proof {
                lemma_mono_trans(s0, s1, self.store());
            }
            return Err(StupidDbError::CommitFailed);
        }
        proof {
            lemma_mono_trans(s0, s1, self.store());
            lemma_mono_at(s1, self.store(), tree_oid@);
            if old(self).chain_v().len() == 0 {
                lemma_mono_at(s1, self.store(), self.chain_v()[0]);
            }
            assert(chain_ok(self.chain_v(), self.store()));
        }
        let ghost midchain = self.chain_v();
        let ghost s2 = self.store();
        self.chain.push(cid.dup());
        proof {
            assert(self.chain_v() =~= midchain.push(cidv));
            assert(cobjv.commit_parent() == Some(parentv));
            assert(parentv == midchain.last());
            lemma_chain_push(midchain, s2, cidv, cobjv);
        }
        Ok(cid)
    }

    /// Updates the repository's one remote association. Only the remote
    /// named "origin" exists in this store; naming any other remote fails.
    pub fn set_remoteurl(&mut self, remote: &str, url: &str) -> (r: Result<(), StupidDbError>)
        requires
            old(self).wf(),
        ensures
            final(self).wf(),
            final(self).path_v() == old(self).path_v(),
            final(self).is_open() == old(self).is_open(),
            final(self).store() == old(self).store(),
            final(self).staged() == old(self).staged(),
            final(self).chain_v() == old(self).chain_v(),
            (!old(self).is_open() ==> (r matches Err(e) && e == StupidDbError::RepoNotInitialized
                && final(self).origin_v() == old(self).origin_v())),
            (old(self).is_open() && remote.spec_bytes() == "origin".spec_bytes() ==> r is Ok
                && final(self).origin_v() == Some(url@)),
            (old(self).is_open() && remote.spec_bytes() != "origin".spec_bytes() ==> (r matches Err(
                e,
            ) && e == StupidDbError::RemoteUrlFailed && final(self).origin_v() == old(self).origin_v())),
    {
        if !self.initialized {
            return Err(StupidDbError::RepoNotInitialized);
        }
        let rb = remote.as_bytes_vec();
        let ob = "origin".as_bytes_vec();
        if !bytes_eq(&rb, &ob) {
            return Err(StupidDbError::RemoteUrlFailed);
        }
        self.origin = Some(url.to_owned());
        Ok(())
    }

    /// The origin URL the chain would be pushed to: succeeds exactly when
    /// the repository is open and an origin remote is recorded.
    pub fn push_target(&self) -> (r: Result<String, StupidDbError>)
        ensures
            (r matches Ok(u) ==> self.is_open() && self.origin_v() == Some(u@)),
            (r matches Err(e) ==> (e == StupidDbError::RepoNotInitialized && !self.is_open()) || (
            e == StupidDbError::NoOriginRemote && self.is_open() && self.origin_v() is None)),
            r is Ok <==> (self.is_open() && self.origin_v() is Some),
    {
        if !self.initialized {
            return Err(StupidDbError::RepoNotInitialized);
        }
        match &self.origin {
            Some(u) => Ok(u.clone()),
            None => Err(StupidDbError::NoOriginRemote),
        }
    }

    /// The recorded origin URL, if any.
    pub fn origin_url(&self) -> (r: Option<String>)
        ensures
            (r matches Some(u) ==> self.origin_v() == Some(u@)),
            r is None <==> self.origin_v() is None,
    {
        match &self.origin {
            Some(u) => Some(u.clone()),
            None => None,
        }
    }

    /// How many distinct objects the store holds.
    pub fn object_count(&self) -> (r: usize)
        ensures
            r == self.store().len(),
    {
        self.objects.len()
    }

    /// Summarizes the repository: staged entry count and chain length.
    pub fn info(&self) -> (r: StupidRepositoryInfo)
        requires
            self.staged().len() <= 0x7fffffff,
            self.chain_v().len() <= 0x7fffffffffffffff,
        ensures
            r.index_length == self.staged().len(),
            r.commit_length == self.chain_v().len(),
    {
        StupidRepositoryInfo {
            index_length: self.index.len() as i32,
            commit_length: self.chain.len() as i64,
        }
    }
}

/// The ordered position at which a path belongs in the index: the first
/// position whose entry's path is not below the given one.
fn find_insert_pos(index: &Vec<StupidEntry>, path: &Vec<u8>) -> (k: usize)
    ensures
        k <= index@.len(),
        forall|j: int| 0 <= j < k ==> lex_lt(#[trigger] entry_views(index@)[j].path, path@),
        k < index@.len() ==> !lex_lt(entry_views(index@)[k as int].path, path@),
{
    let mut k: usize = 0;
    loop
        invariant
            k <= index@.len(),
            forall|j: int| 0 <= j < k ==> lex_lt(#[trigger] entry_views(index@)[j].path, path@),
        decreases index@.len() - k,
    {
        if k >= index.len() {
            return k;
        }
        if !lex_less(&index[k].path, path) {
            proof {
                assert(entry_views(index@)[k as int].path == index@[k as int].path@);
            }
            return k;
        }
        proof {
            assert(entry_views(index@)[k as int].path == index@[k as int].path@);
        }
        k = k + 1;
    }
}

proof fn lemma_index_put_at(es: Seq<TreeEntryV>, e: TreeEntryV, k: int)
    requires
        0 <= k <= es.len(),
        forall|j: int| 0 <= j < k ==> lex_lt(#[trigger] es[j].path, e.path),
        k < es.len() ==> !lex_lt(es[k].path, e.path),
    ensures
        index_put(es, e) == if k < es.len() && es[k].path == e.path {
            es.update(k, e)
        } else {
            es.insert(k, e)
        },
    decreases k,
{
    if k == 0 {
        if es.len() == 0 {
            assert(index_put(es, e) =~= es.insert(0, e));
        } else {
            lemma_lex_connected(e.path, es[0].path);
            if lex_lt(e.path, es[0].path) {
                assert(index_put(es, e) =~= es.insert(0, e));
            } else {
                assert(e.path == es[0].path);
                assert(index_put(es, e) =~= es.update(0, e));
            }
        }
    } else {
        assert(lex_lt(es[0].path, e.path));
        lemma_lex_asymmetric(es[0].path, e.path);
        assert(!lex_lt(e.path, es[0].path));
        if e.path == es[0].path {
            lemma_lex_asymmetric(es[0].path, es[0].path);
            assert(false);
        }
        let tail = es.drop_first();
        assert forall|j: int| 0 <= j < k - 1 implies lex_lt(#[trigger] tail[j].path, e.path) by {
            assert(tail[j] == es[j + 1]);
        }
        assert(k - 1 < tail.len() ==> !lex_lt(tail[k - 1].path, e.path));
        lemma_index_put_at(tail, e, k - 1);
        if k < es.len() && es[k].path == e.path {
            assert(index_put(es, e) == seq![es[0]] + tail.update(k - 1, e));
            assert(seq![es[0]] + tail.update(k - 1, e) =~= es.update(k, e));
        } else {
            assert(index_put(es, e) == seq![es[0]] + tail.insert(k - 1, e));
            assert(seq![es[0]] + tail.insert(k - 1, e) =~= es.insert(k, e));
        }
    }
}

proof fn lemma_update_sorted(es: Seq<TreeEntryV>, e: TreeEntryV, k: int)
    requires
        index_sorted(es),
        0 <= k < es.len(),
        es[k].path == e.path,
    ensures
        index_sorted(es.update(k, e)),
{
    let n = es.update(k, e);
    assert forall|i: int, j: int| 0 <= i < j < n.len() implies lex_lt(n[i].path, n[j].path) by {
        assert(lex_lt(es[i].path, es[j].path));
    }
}

proof fn lemma_insert_sorted(es: Seq<TreeEntryV>, e: TreeEntryV, k: int)
    requires
        index_sorted(es),
        0 <= k <= es.len(),
        forall|j: int| 0 <= j < k ==> lex_lt(#[trigger] es[j].path, e.path),
        k < es.len() ==> lex_lt(e.path, es[k].path),
    ensures
        index_sorted(es.insert(k, e)),
{
    let n = es.insert(k, e);
    assert forall|i: int, j: int| 0 <= i < j < n.len() implies lex_lt(n[i].path, n[j].path) by {
        if i < k && j < k {
            assert(n[i] == es[i] && n[j] == es[j]);
        } else if i < k && j == k {
            assert(n[i] == es[i]);
        } else if i < k && j > k {
            assert(n[i] == es[i] && n[j] == es[j - 1]);
            assert(lex_lt(es[i].path, es[j - 1].path));
        } else if i == k && j > k {
            assert(n[j] == es[j - 1]);
            if j - 1 == k {
                assert(lex_lt(e.path, es[k].path));
            } else {
                assert(lex_lt(e.path, es[k].path));
                assert(lex_lt(es[k].path, es[j - 1].path));
                lemma_lex_transitive(e.path, es[k].path, es[j - 1].path);
            }
        } else {
            assert(n[i] == es[i - 1] && n[j] == es[j - 1]);
            assert(lex_lt(es[i - 1].path, es[j - 1].path));
        }
    }
}

/// A well-formed repository's history is a single linear chain with no
/// cycles: the chain never holds the same commit id twice.
pub proof fn lemma_history_linear(r: StupidRepository)
    requires
        r.wf(),
    ensures
        forall|i: int, j: int| 0 <= i < j < r.chain_v().len() ==> r.chain_v()[i] != r.chain_v()[j],
{
    lemma_chain_linear(r.chain_v(), r.store());
}

/// The chain never holds the same commit id twice: parents force every
/// link to differ from all earlier ones, so the history is a single
/// linear chain with no cycles.
pub proof fn lemma_chain_linear(c: Seq<Seq<u8>>, s: Seq<(Seq<u8>, ObjectV)>)
    requires
        chain_ok(c, s),
    ensures
        forall|i: int, j: int| 0 <= i < j < c.len() ==> c[i] != c[j],
{
    assert forall|i: int, j: int| 0 <= i < j < c.len() implies c[i] != c[j] by {
        lemma_chain_distinct_pair(c, s, i, j);
    }
}

proof fn lemma_chain_distinct_pair(c: Seq<Seq<u8>>, s: Seq<(Seq<u8>, ObjectV)>, i: int, j: int)
    requires
        chain_ok(c, s),
        0 <= i < j < c.len(),
    ensures
        c[i] != c[j],
    decreases i,
{
    if c[i] == c[j] {
        assert(store_at(s, c[i]).commit_parent() == (if i == 0 {
            Option::<Seq<u8>>::None
        } else {
            Option::<Seq<u8>>::Some(c[i - 1])
        }));
        assert(store_at(s, c[j]).commit_parent() == Some(c[j - 1]));
        if i == 0 {
            assert(false);
        } else {
            assert(c[i - 1] == c[j - 1]);
            lemma_chain_distinct_pair(c, s, i - 1, j - 1);
            assert(false);
        }
    }
}

/// A just-written id is present in the store.
pub proof fn lemma_store_put_has(s: Seq<(Seq<u8>, ObjectV)>, id: Seq<u8>, o: ObjectV)
    ensures
        store_has(store_put(s, id, o), id),
{
    if !store_has(s, id) {
        assert(store_put(s, id, o)[s.len() as int].0 == id);
    }
}

/// A staged entry is found in the index afterwards.
pub proof fn lemma_index_put_has(es: Seq<TreeEntryV>, e: TreeEntryV)
    ensures
        exists|i: int| 0 <= i < index_put(es, e).len() && index_put(es, e)[i] == e,
    decreases es.len(),
{
    let n = index_put(es, e);
    if es.len() == 0 {
        assert(n[0] == e);
    } else if lex_lt(e.path, es[0].path) {
        assert(n[0] == e);
    } else if e.path == es[0].path {
        assert(n[0] == e);
    } else {
        lemma_index_put_has(es.drop_first(), e);
        let t = index_put(es.drop_first(), e);
        let j = choose|i: int| 0 <= i < t.len() && t[i] == e;
        assert(n[j + 1] == e);
    }
}

/// Writing the same content twice is idempotent: the second write finds
/// the id already present and leaves the store exactly as it was, so the
/// store holds one copy.
pub proof fn lemma_store_put_idempotent(s: Seq<(Seq<u8>, ObjectV)>, id: Seq<u8>, o: ObjectV)
    ensures
        store_put(store_put(s, id, o), id, o) == store_put(s, id, o),
{
    let s1 = store_put(s, id, o);
    if store_has(s, id) {
    } else {
        assert(s1[s.len() as int].0 == id);
        assert(store_has(s1, id));
    }
}

/// A store whose ids are distinct holds exactly one object under any
/// present id: the count of positions keyed by the id is one.
pub proof fn lemma_store_single_copy(s: Seq<(Seq<u8>, ObjectV)>, id: Seq<u8>)
    requires
        ids_distinct(s),
        store_has(s, id),
    ensures
        exists|i: int|
            0 <= i < s.len() && s[i].0 == id && (forall|j: int|
                0 <= j < s.len() && s[j].0 == id ==> j == i),
{
    let i = store_idx(s, id);
    assert(0 <= i < s.len() && s[i].0 == id);
    assert forall|j: int| 0 <= j < s.len() && s[j].0 == id implies j == i by {
        if j < i {
            assert(s[j].0 != s[i].0);
        }
        if i < j {
            assert(s[i].0 != s[j].0);
        }
    }
}

} // verus!
