use vstd::prelude::*;

use crate::hashing::ObjectId;
use crate::hashing::copy_bytes;
use crate::order::bytes_eq;

verus! {

/// Process-wide configuration: the root directory under which the
/// repositories' storage locations live.
pub struct StupidConfig {
    pub root_dir: String,
}

impl Default for StupidConfig {
    /// The stock root directory.
    fn default() -> (r: Self)
        ensures
            r.root_dir@ == "/var/lib/stupiddb/"@,
    {
        StupidConfig { root_dir: "/var/lib/stupiddb/".to_owned() }
    }
}

/// A request to create or ensure a repository: its name, and optionally
/// the origin URL to associate with it.
pub struct StupidDbRepositoryConfig {
    pub name: String,
    pub origin: Option<String>,
}

/// A content submission: a logical name, the content's canonical byte
/// form, an optional commit message, and, once hashed, the content's
/// object id together with its hexadecimal rendering.
pub struct StupidBlob {
    pub id: Option<String>,
    pub oid: Option<ObjectId>,
    pub message: Option<String>,
    pub name: String,
    pub content: Vec<u8>,
}

/// The abstract value of an optional object id.
pub open spec fn oid_view(o: Option<ObjectId>) -> Option<Seq<u8>> {
    match o {
        Some(id) => Some(id@),
        None => None,
    }
}

/// The id a hashed submission carries; meaningful only when one is set.
pub open spec fn oid_of(b: StupidBlob) -> Seq<u8> {
    match b.oid {
        Some(id) => id@,
        None => Seq::empty(),
    }
}

impl StupidBlob {
    /// Copies the submission.
    pub fn dup(&self) -> (r: StupidBlob)
        ensures
            r.id == self.id,
            oid_view(r.oid) == oid_view(self.oid),
            r.message == self.message,
            r.name == self.name,
            r.content@ == self.content@,
    {
        StupidBlob {
            id: match &self.id {
                Some(s) => Some(s.clone()),
                None => None,
            },
            oid: match &self.oid {
                Some(o) => Some(o.dup()),
                None => None,
            },
            message: match &self.message {
                Some(s) => Some(s.clone()),
                None => None,
            },
            name: self.name.clone(),
            content: copy_bytes(&self.content),
        }
    }
}

/// The abstract value of one staging-index or tree entry.
#[verifier::ext_equal]
pub struct TreeEntryV {
    pub path: Seq<u8>,
    pub oid: Seq<u8>,
    pub mode: u32,
}

/// One entry of the staging index and of a tree snapshot: a path, the id
/// of an already-written object, and a file mode.
pub struct StupidEntry {
    pub path: Vec<u8>,
    pub oid: ObjectId,
    pub mode: u32,
}

impl View for StupidEntry {
    type V = TreeEntryV;

    open spec fn view(&self) -> TreeEntryV {
        TreeEntryV { path: self.path@, oid: self.oid@, mode: self.mode }
    }
}

/// The file mode recorded for every staged entry: a regular file.
pub const ENTRY_MODE: u32 = 0o100644;

impl StupidEntry {
    /// Builds the index entry for an object id under a path.
    pub fn new(id: ObjectId, path: Vec<u8>) -> (r: StupidEntry)
        ensures
            r@.path == path@,
            r@.oid == id@,
            r@.mode == ENTRY_MODE,
    {
        StupidEntry { path, oid: id, mode: ENTRY_MODE }
    }

    /// Copies the entry.
    pub fn dup(&self) -> (r: StupidEntry)
        ensures
            r@ == self@,
    {
        let r = StupidEntry {
            path: copy_bytes(&self.path),
            oid: self.oid.dup(),
            mode: self.mode,
        };
        proof {
            assert(r@ =~= self@);
        }
        r
    }

    /// Decides whether two entries carry the same path, id and mode.
    pub fn same(&self, other: &StupidEntry) -> (r: bool)
        ensures
            r == (self@ == other@),
    {
        let r = bytes_eq(&self.path, &other.path) && self.oid.same(&other.oid) && self.mode
            == other.mode;
        proof {
            if r {
                assert(self@ =~= other@);
            }
        }
        r
    }
}

} // verus!
