use vstd::prelude::*;

use vstd::string::StrSliceExecFns;
use vstd::string::StringSliceAdditionalSpecFns;

use crate::hashing::ObjectId;
use crate::hashing::blob_oid_of;
use crate::models::StupidEntry;
use crate::models::TreeEntryV;
use crate::models::oid_view;
use crate::order::bytes_eq;

verus! {

/// The abstract value of one stored object.
#[verifier::ext_equal]
pub enum ObjectV {
    /// Raw content bytes.
    Blob { data: Seq<u8> },
    /// An ordered snapshot of path-keyed entries.
    Tree { entries: Seq<TreeEntryV> },
    /// A link of the history chain: one tree, at most one parent.
    Commit {
        tree: Seq<u8>,
        parent: Option<Seq<u8>>,
        message: Seq<u8>,
        author: Seq<u8>,
        timestamp: u64,
    },
}

impl ObjectV {
    /// The tree a commit references; meaningful only for commits.
    pub open spec fn commit_tree(self) -> Seq<u8> {
        match self {
            ObjectV::Commit { tree, .. } => tree,
            _ => Seq::empty(),
        }
    }

    /// The parent a commit references; meaningful only for commits.
    pub open spec fn commit_parent(self) -> Option<Seq<u8>> {
        match self {
            ObjectV::Commit { parent, .. } => parent,
            _ => None,
        }
    }

    /// The message a commit carries; meaningful only for commits.
    pub open spec fn commit_message(self) -> Seq<u8> {
        match self {
            ObjectV::Commit { message, .. } => message,
            _ => Seq::empty(),
        }
    }

    /// The identity a commit carries; meaningful only for commits.
    pub open spec fn commit_author(self) -> Seq<u8> {
        match self {
            ObjectV::Commit { author, .. } => author,
            _ => Seq::empty(),
        }
    }

    /// The entries a tree carries; meaningful only for trees.
    pub open spec fn tree_entries(self) -> Seq<TreeEntryV> {
        match self {
            ObjectV::Tree { entries, .. } => entries,
            _ => Seq::empty(),
        }
    }
}

/// One immutable object of the store.
pub enum StupidObject {
    Blob { data: Vec<u8> },
    Tree { entries: Vec<StupidEntry> },
    Commit {
        tree: ObjectId,
        parent: Option<ObjectId>,
        message: Vec<u8>,
        author: Vec<u8>,
        timestamp: u64,
    },
}

/// The abstract values of a sequence of entries.
pub open spec fn entry_views(es: Seq<StupidEntry>) -> Seq<TreeEntryV> {
    es.map_values(|e: StupidEntry| e@)
}

impl View for StupidObject {
    type V = ObjectV;

    open spec fn view(&self) -> ObjectV {
        match self {
            StupidObject::Blob { data } => ObjectV::Blob { data: data@ },
            StupidObject::Tree { entries } => ObjectV::Tree { entries: entry_views(entries@) },
            StupidObject::Commit { tree, parent, message, author, timestamp } => ObjectV::Commit {
                tree: tree@,
                parent: oid_view(*parent),
                message: message@,
                author: author@,
                timestamp: *timestamp,
            },
        }
    }
}

/// The little-endian eight-byte rendering of a machine word, used by the
/// canonical encodings below.
pub open spec fn le64(n: u64) -> Seq<u8> {
    seq![
        (n % 256) as u8,
        ((n / 256) % 256) as u8,
        ((n / 65536) % 256) as u8,
        ((n / 16777216) % 256) as u8,
        ((n / 4294967296) % 256) as u8,
        ((n / 1099511627776) % 256) as u8,
        ((n / 281474976710656) % 256) as u8,
        ((n / 72057594037927936) % 256) as u8,
    ]
}

/// The canonical byte encoding of one tree entry.
pub open spec fn encode_entry(e: TreeEntryV) -> Seq<u8> {
    le64(e.mode as u64) + e.path + seq![0u8] + e.oid
}

/// The canonical byte encoding of a sequence of tree entries, in order.
pub open spec fn encode_entries(es: Seq<TreeEntryV>) -> Seq<u8>
    decreases es.len(),
{
    if es.len() == 0 {
        Seq::empty()
    } else {
        encode_entry(es[0]) + encode_entries(es.drop_first())
    }
}

/// The canonical byte encoding of a tree object.
pub open spec fn encode_tree(es: Seq<TreeEntryV>) -> Seq<u8> {
    seq![1u8] + encode_entries(es)
}

/// The canonical byte encoding of a commit object.
pub open spec fn encode_commit(
    tree: Seq<u8>,
    parent: Option<Seq<u8>>,
    message: Seq<u8>,
    author: Seq<u8>,
    timestamp: u64,
) -> Seq<u8> {
    seq![2u8] + tree + (match parent {
        None => seq![0u8],
        Some(p) => seq![1u8] + p,
    }) + le64(timestamp) + author + seq![0u8] + message
}

/// The canonical byte encoding of any object. A blob's encoding is its
/// raw content, so a blob's id is the hash of the submitted bytes.
pub open spec fn encode_object(o: ObjectV) -> Seq<u8> {
    match o {
        ObjectV::Blob { data } => data,
        ObjectV::Tree { entries } => encode_tree(entries),
        ObjectV::Commit { tree, parent, message, author, timestamp } => encode_commit(
            tree,
            parent,
            message,
            author,
            timestamp,
        ),
    }
}

/// The id every tree with the given entries receives: trees with
/// identical entries collapse to the same id.
pub open spec fn tree_id_of(es: Seq<TreeEntryV>) -> Seq<u8> {
    blob_oid_of(encode_tree(es))
}

/// The id a commit with the given fields receives.
pub open spec fn commit_id_of(
    tree: Seq<u8>,
    parent: Option<Seq<u8>>,
    message: Seq<u8>,
    author: Seq<u8>,
    timestamp: u64,
) -> Seq<u8> {
    blob_oid_of(encode_commit(tree, parent, message, author, timestamp))
}

/// Tree construction is deterministic: two trees built from identical
/// entry sequences collapse to the same id.
pub proof fn lemma_tree_determinism(a: Seq<TreeEntryV>, b: Seq<TreeEntryV>)
    requires
        a == b,
    ensures
        tree_id_of(a) == tree_id_of(b),
{
}

/// Appends a byte vector to another.
pub fn push_bytes(dst: &mut Vec<u8>, src: &Vec<u8>)
    ensures
        final(dst)@ == old(dst)@ + src@,
{
    let mut i: usize = 0;
    proof {
        assert(dst@ =~= dst@ + src@.take(0));
    }
    while i < src.len()
        invariant
            i <= src@.len(),
            dst@ == old(dst)@ + src@.take(i as int),
        decreases src@.len() - i,
    {
        dst.push(src[i]);
        proof {
            assert(old(dst)@ + src@.take(i + 1) =~= (old(dst)@ + src@.take(i as int)).push(
                src@[i as int],
            ));
        }
        i = i + 1;
    }
    proof {
        assert(src@.take(src@.len() as int) =~= src@);
    }
}

/// Appends the eight-byte rendering of a machine word.
pub fn push_le64(dst: &mut Vec<u8>, n: u64)
    ensures
        final(dst)@ == old(dst)@ + le64(n),
{
    dst.push((n % 256) as u8);
    dst.push(((n / 256) % 256) as u8);
    dst.push(((n / 65536) % 256) as u8);
    dst.push(((n / 16777216) % 256) as u8);
    dst.push(((n / 4294967296) % 256) as u8);
    dst.push(((n / 1099511627776) % 256) as u8);
    dst.push(((n / 281474976710656) % 256) as u8);
    dst.push(((n / 72057594037927936) % 256) as u8);
    proof {
        assert(dst@ =~= old(dst)@ + le64(n));
    }
}

/// Appends the canonical encoding of one entry.
fn push_entry(dst: &mut Vec<u8>, e: &StupidEntry)
    ensures
        final(dst)@ == old(dst)@ + encode_entry(e@),
{
    push_le64(dst, e.mode as u64);
    push_bytes(dst, &e.path);
    dst.push(0u8);
    push_bytes(dst, e.oid.bytes());
    proof {
        assert(dst@ =~= old(dst)@ + encode_entry(e@));
    }
}

proof fn lemma_encode_entries_push(es: Seq<TreeEntryV>, e: TreeEntryV)
    ensures
        encode_entries(es.push(e)) == encode_entries(es) + encode_entry(e),
    decreases es.len(),
{
    let p = es.push(e);
    if es.len() == 0 {
        assert(p[0] == e);
        assert(p.drop_first() =~= Seq::<TreeEntryV>::empty());
        assert(encode_entries(p.drop_first()) == Seq::<u8>::empty());
        assert(encode_entries(p) == encode_entry(p[0]) + encode_entries(p.drop_first()));
        assert(encode_entries(es) == Seq::<u8>::empty());
        assert(encode_entries(p) =~= encode_entries(es) + encode_entry(e));
    } else {
        lemma_encode_entries_push(es.drop_first(), e);
        assert(p.drop_first() =~= es.drop_first().push(e));
        assert(p[0] == es[0]);
        assert(encode_entries(p) == encode_entry(p[0]) + encode_entries(p.drop_first()));
        assert(encode_entries(es) == encode_entry(es[0]) + encode_entries(es.drop_first()));
        assert(encode_entries(p) =~= encode_entries(es) + encode_entry(e));
    }
}

/// Builds the canonical encoding of a tree with the given entries.
pub fn encode_tree_bytes(entries: &Vec<StupidEntry>) -> (r: Vec<u8>)
    ensures
        r@ == encode_tree(entry_views(entries@)),
{
    let mut r: Vec<u8> = Vec::new();
    r.push(1u8);
    let mut i: usize = 0;
    proof {
        assert(r@ =~= seq![1u8] + encode_entries(entry_views(entries@).take(0)));
    }
    while i < entries.len()
        invariant
            i <= entries@.len(),
            r@ == seq![1u8] + encode_entries(entry_views(entries@).take(i as int)),
        decreases entries@.len() - i,
    {
        push_entry(&mut r, &entries[i]);
        proof {
            let vs = entry_views(entries@);
            lemma_encode_entries_push(vs.take(i as int), vs[i as int]);
            assert(vs.take(i + 1) =~= vs.take(i as int).push(vs[i as int]));
            assert(r@ =~= seq![1u8] + encode_entries(vs.take(i + 1)));
        }
        i = i + 1;
    }
    proof {
        assert(entry_views(entries@).take(entries@.len() as int) =~= entry_views(entries@));
    }
    r
}

/// Builds the canonical encoding of a commit with the given fields.
pub fn encode_commit_bytes(
    tree: &ObjectId,
    parent: &Option<ObjectId>,
    message: &Vec<u8>,
    author: &Vec<u8>,
    timestamp: u64,
) -> (r: Vec<u8>)
    ensures
        r@ == encode_commit(tree@, oid_view(*parent), message@, author@, timestamp),
{
    let mut r: Vec<u8> = Vec::new();
    r.push(2u8);
    push_bytes(&mut r, tree.bytes());
    match parent {
        None => {
            r.push(0u8);
        },
        Some(p) => {
            r.push(1u8);
            push_bytes(&mut r, p.bytes());
        },
    }
    push_le64(&mut r, timestamp);
    push_bytes(&mut r, author);
    r.push(0u8);
    push_bytes(&mut r, message);
    proof {
        assert(r@ =~= encode_commit(tree@, oid_view(*parent), message@, author@, timestamp));
    }
    r
}

/// Copies a vector of entries.
pub fn copy_entries(es: &Vec<StupidEntry>) -> (r: Vec<StupidEntry>)
    ensures
        entry_views(r@) == entry_views(es@),
{
    let mut r: Vec<StupidEntry> = Vec::new();
    let mut i: usize = 0;
    while i < es.len()
        invariant
            i <= es@.len(),
            r@.len() == i,
            forall|j: int| 0 <= j < i ==> r@[j]@ == es@[j]@,
        decreases es@.len() - i,
    {
        r.push(es[i].dup());
        i = i + 1;
    }
    proof {
        assert(entry_views(r@) =~= entry_views(es@));
    }
    r
}

/// The message recorded on the lazily created root commit.
pub open spec fn initial_message_v() -> Seq<u8> {
    "Initial commit".spec_bytes()
}

/// Builds the root commit's message bytes.
pub fn initial_message() -> (r: Vec<u8>)
    ensures
        r@ == initial_message_v(),
{
    "Initial commit".as_bytes_vec()
}

/// Decides whether two entry vectors carry the same entries in the same
/// order.
pub fn entries_same(a: &Vec<StupidEntry>, b: &Vec<StupidEntry>) -> (r: bool)
    ensures
        r == (entry_views(a@) == entry_views(b@)),
{
    if a.len() != b.len() {
        proof {
            assert(entry_views(a@).len() != entry_views(b@).len());
        }
        return false;
    }
    let mut i: usize = 0;
    while i < a.len()
        invariant
            i <= a@.len(),
            a@.len() == b@.len(),
            forall|j: int| 0 <= j < i ==> entry_views(a@)[j] == entry_views(b@)[j],
        decreases a@.len() - i,
    {
        if !a[i].same(&b[i]) {
            proof {
                assert(entry_views(a@)[i as int] != entry_views(b@)[i as int]);
            }
            return false;
        }
        i = i + 1;
    }
    proof {
        assert(entry_views(a@) =~= entry_views(b@));
    }
    true
}

/// Decides whether two stored objects have the same value.
pub fn object_eq(a: &StupidObject, b: &StupidObject) -> (r: bool)
    ensures
        r == (a@ == b@),
{
    match (a, b) {
        (StupidObject::Blob { data: d1 }, StupidObject::Blob { data: d2 }) => {
            let r = bytes_eq(d1, d2);
            proof {
                if r {
                    assert(a@ =~~= b@);
                }
            }
            r
        },
        (StupidObject::Tree { entries: e1 }, StupidObject::Tree { entries: e2 }) => {
            let r = entries_same(e1, e2);
            proof {
                if r {
                    assert(a@ =~~= b@);
                }
            }
            r
        },
        (
            StupidObject::Commit { tree: t1, parent: p1, message: m1, author: a1, timestamp: s1 },
            StupidObject::Commit { tree: t2, parent: p2, message: m2, author: a2, timestamp: s2 },
        ) => {
            let pe = match (p1, p2) {
                (None, None) => true,
                (Some(x), Some(y)) => x.same(y),
                _ => false,
            };
            let r = t1.same(t2) && pe && bytes_eq(m1, m2) && bytes_eq(a1, a2) && *s1 == *s2;
            proof {
                if r {
                    assert(a@ =~~= b@);
                }
            }
            r
        },
        _ => {
            proof {
                assert(a@ != b@);
            }
            false
        },
    }
}

/// The fixed service identity recorded as author and committer of every
/// commit this subsystem creates.
pub open spec fn service_author_v() -> Seq<u8> {
    "stupiddb service".spec_bytes()
}

/// Builds the fixed service identity.
pub fn service_author() -> (r: Vec<u8>)
    ensures
        r@ == service_author_v(),
{
    "stupiddb service".as_bytes_vec()
}

/// The byte form of a text value, as the staging index records paths.
pub open spec fn utf8_bytes(s: Seq<char>) -> Seq<u8> {
    vstd::utf8::encode_utf8(s)
}

/// The abstract value of an optional message.
pub open spec fn msg_view(m: Option<String>) -> Option<Seq<char>> {
    match m {
        Some(s) => Some(s@),
        None => None,
    }
}

/// The commit message recorded for a submission: the caller's message, or
/// the fixed placeholder when none was supplied.
pub open spec fn message_bytes_v(m: Option<Seq<char>>) -> Seq<u8> {
    match m {
        Some(s) => vstd::utf8::encode_utf8(s),
        None => "no message".spec_bytes(),
    }
}

/// Builds the commit message bytes for a submission.
pub fn message_bytes(m: &Option<String>) -> (r: Vec<u8>)
    ensures
        r@ == message_bytes_v(msg_view(*m)),
{
    match m {
        Some(s) => s.as_str().as_bytes_vec(),
        None => "no message".as_bytes_vec(),
    }
}

} // verus!
