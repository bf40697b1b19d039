use vstd::prelude::*;

use vstd::string::StrSliceExecFns;
use vstd::string::StringSliceAdditionalSpecFns;
use vstd::string::StringExecFns;

use crate::error::StupidDbError;
use crate::hashing::OID_LEN;
use crate::hashing::ObjectId;
use crate::hashing::blob_oid_of;
use crate::hashing::digest_bytes;
use crate::hashing::hex_of;
use crate::models::StupidBlob;
use crate::models::StupidDbRepositoryConfig;
use crate::models::StupidEntry;
use crate::models::TreeEntryV;
use crate::models::ENTRY_MODE;
use crate::models::oid_of;
use crate::objects::ObjectV;
use crate::objects::message_bytes_v;
use crate::objects::msg_view;
use crate::objects::tree_id_of;
use crate::objects::utf8_bytes;
use crate::repository::StupidRepository;
use crate::repository::index_put;
use crate::repository::store_at;
use crate::repository::store_has;
use crate::repository::store_mono;
use crate::repository::store_put;

verus! {

/// Whether some repository in the list lives at the given path.
pub open spec fn repo_with_path(rs: Seq<StupidRepository>, p: Seq<char>) -> bool {
    exists|i: int| 0 <= i < rs.len() && rs[i].path_v() == p
}

/// The position of the repository living at the given path.
pub open spec fn repo_path_idx(rs: Seq<StupidRepository>, p: Seq<char>) -> int {
    choose|i: int| 0 <= i < rs.len() && rs[i].path_v() == p
}

/// The root of the store: the set of repositories under one configured
/// root directory, plus the handle of the repository currently opened by
/// this instance. The value of this struct models the whole durable root.
pub struct StupidDb {
    pub(crate) instance_id: String,
    pub(crate) root_dir: String,
    pub(crate) repos: Vec<StupidRepository>,
    pub(crate) current: Option<usize>,
}

impl StupidDb {
    /// This instance's identifier.
    pub closed spec fn instance_id_v(&self) -> Seq<char> {
        self.instance_id@
    }

    /// The configured root directory.
    pub closed spec fn root_dir_v(&self) -> Seq<char> {
        self.root_dir@
    }

    /// The repositories, in creation order.
    pub closed spec fn repos_v(&self) -> Seq<StupidRepository> {
        self.repos@
    }

    /// The position of the opened repository, or a negative value when
    /// none is open.
    pub closed spec fn cur_i(&self) -> int {
        match self.current {
            Some(i) => i as int,
            None => -1,
        }
    }

    /// Whether a repository is open.
    pub open spec fn has_open(&self) -> bool {
        self.cur_i() >= 0
    }

    /// The opened repository.
    pub open spec fn cur(&self) -> StupidRepository {
        self.repos_v()[self.cur_i()]
    }

    /// Well-formedness: every repository is well-formed, open and at a
    /// distinct path, and the open handle is in range.
    pub open spec fn wf(&self) -> bool {
        &&& forall|i: int|
            0 <= i < self.repos_v().len() ==> (#[trigger] self.repos_v()[i]).wf()
                && self.repos_v()[i].is_open()
        &&& forall|i: int, j: int|
            0 <= i < j < self.repos_v().len() ==> self.repos_v()[i].path_v()
                != self.repos_v()[j].path_v()
        &&& (self.has_open() ==> self.cur_i() < self.repos_v().len())
    }

    /// Nothing observable changed: same repositories, same handle, same
    /// configuration.
    pub open spec fn unchanged_from(&self, other: &Self) -> bool {
        &&& self.repos_v() == other.repos_v()
        &&& self.cur_i() == other.cur_i()
        &&& self.instance_id_v() == other.instance_id_v()
        &&& self.root_dir_v() == other.root_dir_v()
    }

    /// Everything but the opened repository's state is unchanged.
    pub open spec fn same_frame(&self, other: &Self) -> bool {
        &&& self.instance_id_v() == other.instance_id_v()
        &&& self.root_dir_v() == other.root_dir_v()
        &&& self.cur_i() == other.cur_i()
        &&& self.repos_v().len() == other.repos_v().len()
        &&& forall|i: int|
            0 <= i < self.repos_v().len() && i != self.cur_i() ==> #[trigger] self.repos_v()[i]
                == other.repos_v()[i]
    }

    /// Builds an instance over a root directory. The identifier and the
    /// root come from the caller's configuration.
    pub fn new(instance_id: String, root_dir: String) -> (r: StupidDb)
        ensures
            r.wf(),
            !r.has_open(),
            r.instance_id_v() == instance_id@,
            r.root_dir_v() == root_dir@,
            r.repos_v().len() == 0,
    {
        StupidDb { instance_id, root_dir, repos: Vec::new(), current: None }
    }

    /// This instance's identifier.
    pub fn instance_id(&self) -> (r: &String)
        ensures
            r@ == self.instance_id_v(),
    {
        &self.instance_id
    }

    /// The configured root directory.
    pub fn root_dir(&self) -> (r: &String)
        ensures
            r@ == self.root_dir_v(),
    {
        &self.root_dir
    }

    /// The storage path of a named repository: the root directory with
    /// the name appended.
    pub fn get_repo_full_path(&self, name: &String) -> (s: String)
        ensures
            s@ == self.root_dir_v() + name@,
    {
        let mut s = self.root_dir.clone();
        s.append(name.as_str());
        s
    }

    fn find_by_path(&self, path: &String) -> (r: Option<usize>)
        ensures
            (r matches Some(i) ==> i < self.repos_v().len() && self.repos_v()[
                i as int
            ].path_v() == path@),
            r is None ==> !repo_with_path(self.repos_v(), path@),
    {
        let mut i: usize = 0;
        while i < self.repos.len()
            invariant
                i <= self.repos@.len(),
                forall|j: int| 0 <= j < i ==> (#[trigger] self.repos@[j]).path_v() != path@,
            decreases self.repos@.len() - i,
        {
            if self.repos[i].path_matches(path) {
                return Some(i);
            }
            i = i + 1;
        }
        proof {
            if repo_with_path(self.repos_v(), path@) {
                let j = repo_path_idx(self.repos_v(), path@);
                assert(0 <= j < self.repos_v().len() && self.repos_v()[j].path_v() == path@);
                assert(false);
            }
        }
        None
    }

    /// Opens a previously created repository, resolving it by name: the
    /// handle moves to the repository at the derived path, and the call
    /// fails exactly when none exists there.
    pub fn open(&mut self, name: &String) -> (r: Result<(), StupidDbError>)
        requires
            old(self).wf(),
        ensures
            final(self).wf(),
            final(self).repos_v() == old(self).repos_v(),
            final(self).instance_id_v() == old(self).instance_id_v(),
            final(self).root_dir_v() == old(self).root_dir_v(),
            (r is Ok <==> repo_with_path(
                old(self).repos_v(),
                old(self).root_dir_v() + name@,
            )),
            (r is Ok ==> final(self).has_open() && final(self).cur().path_v() == old(self).root_dir_v() + name@ && final(self).cur() == old(self).repos_v()[
                repo_path_idx(old(self).repos_v(), old(self).root_dir_v() + name@)
            ]),
            (r matches Err(e) ==> e == StupidDbError::RepoPathInvalid && *final(self) == *old(self)),
    {
        let path = self.get_repo_full_path(name);
        match self.find_by_path(&path) {
            Some(i) => {
                self.current = Some(i);
                proof {
                    let rs = self.repos_v();
                    let p = path@;
                    let j = repo_path_idx(rs, p);
                    assert(0 <= j < rs.len() && rs[j].path_v() == p);
                    if j < i as int {
                        assert(rs[j].path_v() != rs[i as int].path_v());
                    }
                    if (i as int) < j {
                        assert(rs[i as int].path_v() != rs[j].path_v());
                    }
                }
                Ok(())
            },
            None => Err(StupidDbError::RepoPathInvalid),
        }
    }

    /// Creates or ensures a repository named by the configuration, and
    /// opens it. Creation is idempotent: when the repository already
    /// exists it is opened as it stands, and its recorded origin is left
    /// in place; otherwise a fresh repository is created, seeded with the
    /// configuration's origin.
    pub fn init(&mut self, config: &StupidDbRepositoryConfig) -> (r: Result<(), StupidDbError>)
        requires
            old(self).wf(),
        ensures
            final(self).wf(),
            r is Ok,
            final(self).has_open(),
            final(self).instance_id_v() == old(self).instance_id_v(),
            final(self).root_dir_v() == old(self).root_dir_v(),
            final(self).cur().path_v() == old(self).root_dir_v() + config.name@,
            (repo_with_path(old(self).repos_v(), old(self).root_dir_v() + config.name@) ==> final(self).repos_v() == old(self).repos_v() && final(self).cur() == old(self).repos_v()[
                repo_path_idx(old(self).repos_v(), old(self).root_dir_v() + config.name@)
            ]),
            (!repo_with_path(old(self).repos_v(), old(self).root_dir_v() + config.name@) ==> {
                let c = final(self).cur();
                &&& final(self).repos_v().len() == old(self).repos_v().len() + 1
                &&& (forall|i: int|
                    0 <= i < old(self).repos_v().len() ==> #[trigger] final(self).repos_v()[i]
                        == old(self).repos_v()[i])
                &&& c == final(self).repos_v().last()
                &&& c.origin_v() == (match config.origin {
                    Some(ref o) => Some(o@),
                    None => None::<Seq<char>>,
                })
                &&& c.store().len() == 0
                &&& c.staged().len() == 0
                &&& c.chain_v().len() == 0
            }),
    {
        let path = self.get_repo_full_path(&config.name);
        match self.find_by_path(&path) {
            Some(i) => {
                self.current = Some(i);
                proof {
                    let rs = self.repos_v();
                    let p = path@;
                    let j = repo_path_idx(rs, p);
                    assert(0 <= j < rs.len() && rs[j].path_v() == p);
                    if j < i as int {
                        assert(rs[j].path_v() != rs[i as int].path_v());
                    }
                    if (i as int) < j {
                        assert(rs[i as int].path_v() != rs[j].path_v());
                    }
                }
                Ok(())
            },
            None => {
                let mut repo = StupidRepository::new(path);
                let origin = match &config.origin {
                    Some(o) => Some(o.clone()),
                    None => None,
                };
                repo.seed_origin(origin);
                match repo.init() {
                    Ok(()) => {},
                    Err(e) => {
                        return Err(e);
                    },
                }
                let n = self.repos.len();
                self.repos.push(repo);
                self.current = Some(n);
                proof {
                    assert(self.repos_v() =~= old(self).repos_v().push(self.repos_v().last()));
                }
                Ok(())
            },
        }
    }

    /// The opened repository, if any.
    pub fn repo(&self) -> (r: Option<&StupidRepository>)
        requires
            self.wf(),
        ensures
            (r matches Some(rep) ==> self.has_open() && *rep == self.cur()),
            r is None <==> !self.has_open(),
    {
        match self.current {
            Some(i) => Some(&self.repos[i]),
            None => None,
        }
    }

    /// Hashes a submission's content into an object id, without writing.
    /// Returns the submission with its id and the id's hexadecimal
    /// rendering filled in.
    pub fn hash_object(&self, blob: &StupidBlob) -> (r: Result<StupidBlob, StupidDbError>)
        ensures
            (!self.has_open() ==> (r matches Err(e) && e == StupidDbError::RepoNotInitialized)),
            (r matches Ok(b) ==> self.has_open() && b.oid is Some && oid_of(b) == blob_oid_of(
                blob.content@,
            ) && oid_of(b).len() == OID_LEN && (b.id matches Some(s) && s@ == hex_of(
                blob_oid_of(blob.content@),
            ) && s@.len() == 2 * OID_LEN) && b.name == blob.name && b.message == blob.message
                && b.content@ == blob.content@),
            (r matches Err(e) ==> (e == StupidDbError::RepoNotInitialized && !self.has_open()) || (
            e == StupidDbError::ObjectHashFailed && self.has_open())),
    {
        if self.current.is_none() {
            return Err(StupidDbError::RepoNotInitialized);
        }
        let id = match digest_bytes(&blob.content) {
            None => {
                return Err(StupidDbError::ObjectHashFailed);
            },
            Some(id) => id,
        };
        proof {
            crate::hashing::lemma_hex_of_len(id@);
        }
        let hex = id.to_hex();
        let mut nb = blob.dup();
        nb.id = Some(hex);
        nb.oid = Some(id);
        Ok(nb)
    }

    /// Hashes a submission's content and durably writes it as a blob.
    /// The returned submission carries the written object's id.
    pub fn hash_object_write(&mut self, blob: &StupidBlob) -> (r: Result<
        StupidBlob,
        StupidDbError,
    >)
        requires
            old(self).wf(),
        ensures
            final(self).wf(),
            final(self).same_frame(old(self)),
            (!old(self).has_open() ==> (r matches Err(e) && e
                == StupidDbError::RepoNotInitialized)),
            (r matches Ok(b) ==> old(self).has_open() && b.oid is Some && oid_of(b)
                == blob_oid_of(blob.content@) && oid_of(b).len() == OID_LEN && (
            b.id matches Some(s) && s@ == hex_of(blob_oid_of(blob.content@)) && s@.len() == 2
                * OID_LEN) && b.name == blob.name && b.message == blob.message && b.content@
                == blob.content@
                && final(self).cur().store() == store_put(
                old(self).cur().store(),
                blob_oid_of(blob.content@),
                ObjectV::Blob { data: blob.content@ },
            ) && final(self).cur().staged() == old(self).cur().staged() && final(self).cur().chain_v() == old(self).cur().chain_v() && final(self).cur().same_identity(
                &old(self).cur(),
            )),
            (r matches Err(e) ==> final(self).unchanged_from(old(self)) && (e
                == StupidDbError::RepoNotInitialized || e == StupidDbError::ObjectHashFailed || e
                == StupidDbError::BlobFailed)),
            (old(self).has_open() ==> (r matches Err(e) ==> e == StupidDbError::ObjectHashFailed
                || e == StupidDbError::BlobFailed)),
    {
        let hashed = match self.hash_object(blob) {
            Err(e) => {
                return Err(e);
            },
            Ok(b) => b,
        };
        let i = match self.current {
            None => {
                return Err(StupidDbError::RepoNotInitialized);
            },
            Some(i) => i,
        };
        let r = &mut self.repos[i];
        match r.blob(&blob.content) {
            Err(_) => {
                proof {
                    assert(self.repos@ =~= old(self).repos@);
                }
                Err(StupidDbError::BlobFailed)
            },
            Ok(_) => {
                proof {
                    self.lemma_frame_wf(old(self), i as int);
                }
                Ok(hashed)
            },
        }
    }

    /// One repository slot was updated by a well-formedness-preserving
    /// operation: the whole root stays well-formed.
    proof fn lemma_frame_wf(&self, prev: &Self, i: int)
        requires
            prev.wf(),
            0 <= i < prev.repos_v().len(),
            self.repos_v().len() == prev.repos_v().len(),
            self.cur_i() == prev.cur_i(),
            forall|k: int|
                0 <= k < self.repos_v().len() && k != i ==> #[trigger] self.repos_v()[k]
                    == prev.repos_v()[k],
            self.repos_v()[i].wf(),
            self.repos_v()[i].is_open() == prev.repos_v()[i].is_open(),
            self.repos_v()[i].path_v() == prev.repos_v()[i].path_v(),
        ensures
            self.wf(),
    {
        assert forall|k: int|
            0 <= k < self.repos_v().len() implies (#[trigger] self.repos_v()[k]).wf()
            && self.repos_v()[k].is_open() by {
            if k != i {
                assert(self.repos_v()[k] == prev.repos_v()[k]);
            }
        }
        assert forall|k: int, l: int|
            0 <= k < l < self.repos_v().len() implies self.repos_v()[k].path_v()
            != self.repos_v()[l].path_v() by {
            assert(self.repos_v()[k].path_v() == prev.repos_v()[k].path_v());
            assert(self.repos_v()[l].path_v() == prev.repos_v()[l].path_v());
        }
    }

    /// Stages a hashed submission into the opened repository's index
    /// under the submission's name: an insert, or a replacement when the
    /// path is already staged.
    pub fn update_index(&mut self, blob: &StupidBlob) -> (r: Result<(), StupidDbError>)
        requires
            old(self).wf(),
            blob.oid is Some,
        ensures
            final(self).wf(),
            final(self).same_frame(old(self)),
            (!old(self).has_open() ==> (r matches Err(e) && e
                == StupidDbError::RepoNotInitialized)),
            (old(self).has_open() ==> (r is Ok <==> store_has(
                old(self).cur().store(),
                oid_of(*blob),
            ))),
            (r is Ok ==> old(self).has_open() && final(self).cur().staged() == index_put(
                old(self).cur().staged(),
                TreeEntryV { path: utf8_bytes(blob.name@), oid: oid_of(*blob), mode: ENTRY_MODE },
            ) && final(self).cur().store() == old(self).cur().store() && final(self).cur().chain_v() == old(self).cur().chain_v() && final(self).cur().same_identity(
                &old(self).cur(),
            )),
            (r matches Err(e) ==> final(self).unchanged_from(old(self)) && (e
                == StupidDbError::RepoNotInitialized || e == StupidDbError::IndexWriteFailed)),
            (old(self).has_open() ==> (r matches Err(e) ==> e
                == StupidDbError::IndexWriteFailed)),
    {
        let i = match self.current {
            None => {
                return Err(StupidDbError::RepoNotInitialized);
            },
            Some(i) => i,
        };
        let id = match &blob.oid {
            Some(o) => o.dup(),
            None => {
                return Err(StupidDbError::RepoNotInitialized);
            },
        };
        let entry = StupidEntry::new(id, blob.name.as_str().as_bytes_vec());
        let r = &mut self.repos[i];
        match r.index_add(entry) {
            Ok(()) => {
                proof {
                    self.lemma_frame_wf(old(self), i as int);
                }
                Ok(())
            },
            Err(e) => {
                proof {
                    assert(self.repos@ =~= old(self).repos@);
                }
                Err(e)
            },
        }
    }

    /// Snapshots the opened repository's staged entries into a tree.
    pub fn write_tree(&mut self) -> (r: Result<ObjectId, StupidDbError>)
        requires
            old(self).wf(),
        ensures
            final(self).wf(),
            final(self).same_frame(old(self)),
            (!old(self).has_open() ==> (r matches Err(e) && e
                == StupidDbError::RepoNotInitialized)),
            (r matches Ok(id) ==> old(self).has_open() && id@ == tree_id_of(
                old(self).cur().staged(),
            ) && id.wf() && final(self).cur().store() == store_put(
                old(self).cur().store(),
                id@,
                ObjectV::Tree { entries: old(self).cur().staged() },
            ) && store_has(final(self).cur().store(), id@) && store_at(
                final(self).cur().store(),
                id@,
            ) == (ObjectV::Tree { entries: old(self).cur().staged() }) && final(self).cur().staged() == old(self).cur().staged() && final(self).cur().chain_v() == old(self).cur().chain_v() && final(self).cur().same_identity(&old(self).cur())),
            (r matches Err(e) ==> final(self).unchanged_from(old(self)) && (e
                == StupidDbError::RepoNotInitialized || e == StupidDbError::WriteTreeFailed)),
            (old(self).has_open() ==> (r matches Err(e) ==> e
                == StupidDbError::WriteTreeFailed)),
    {
        let i = match self.current {
            None => {
                return Err(StupidDbError::RepoNotInitialized);
            },
            Some(i) => i,
        };
        let r = &mut self.repos[i];
        match r.write_tree() {
            Ok(id) => {
                proof {
                    self.lemma_frame_wf(old(self), i as int);
                }
                Ok(id)
            },
            Err(e) => {
                proof {
                    assert(self.repos@ =~= old(self).repos@);
                }
                Err(e)
            },
        }
    }

    /// Commits a written tree to the opened repository's chain, with the
    /// submission's message. A fresh repository receives its root commit
    /// first.
    pub fn commit_tree(&mut self, tree_oid: &ObjectId, blob: &StupidBlob) -> (r: Result<
        ObjectId,
        StupidDbError,
    >)
        requires
            old(self).wf(),
        ensures
            final(self).wf(),
            final(self).same_frame(old(self)),
            (!old(self).has_open() ==> (r matches Err(e) && e
                == StupidDbError::RepoNotInitialized)),
            (r matches Ok(id) ==> old(self).has_open() && {
                let c = final(self).cur().chain_v();
                let s = final(self).cur().store();
                &&& c.len() >= 2
                &&& c.last() == id@
                &&& (old(self).cur().chain_v().len() > 0 ==> c == old(self).cur().chain_v().push(
                    id@,
                ))
                &&& (old(self).cur().chain_v().len() == 0 ==> c.len() == 2)
                &&& store_has(s, id@)
                &&& store_at(s, id@) is Commit
                &&& store_at(s, id@).commit_tree() == tree_oid@
                &&& store_at(s, id@).commit_parent() == Some(c[c.len() - 2])
                &&& store_at(s, id@).commit_message() == message_bytes_v(msg_view(blob.message))
                &&& store_at(s, id@).commit_author() == crate::objects::service_author_v()
                &&& final(self).cur().staged() == old(self).cur().staged()
                &&& store_mono(old(self).cur().store(), s)
                &&& final(self).cur().same_identity(&old(self).cur())
            }),
            (r matches Err(e) ==> e == StupidDbError::RepoNotInitialized || e
                == StupidDbError::CommitFetchFailed || e == StupidDbError::TreeFetchFailed || e
                == StupidDbError::CommitFailed),
            (old(self).has_open() ==> (r matches Err(e) ==> e
                == StupidDbError::CommitFetchFailed || e == StupidDbError::TreeFetchFailed || e
                == StupidDbError::CommitFailed)),
            (r matches Err(e) && e == StupidDbError::CommitFetchFailed ==> old(self).has_open()
                && old(self).cur().chain_v().len() == 0),
            (old(self).has_open() && old(self).cur().chain_v().len() > 0 && !(store_has(
                old(self).cur().store(),
                tree_oid@,
            ) && store_at(old(self).cur().store(), tree_oid@) is Tree) ==> (r matches Err(e) && e
                == StupidDbError::TreeFetchFailed)),
            (r matches Err(e) && e == StupidDbError::TreeFetchFailed ==> old(self).has_open()
                && !(store_has(final(self).cur().store(), tree_oid@) && store_at(
                final(self).cur().store(),
                tree_oid@,
            ) is Tree)),
            (old(self).has_open() ==> store_mono(
                old(self).cur().store(),
                final(self).cur().store(),
            )),
            (old(self).has_open() && r is Err ==> final(self).cur().chain_v() == old(self).cur().chain_v() || (old(self).cur().chain_v().len() == 0 && final(self).cur().chain_v().len() == 1)),
            (old(self).has_open() ==> final(self).cur().path_v() == old(self).cur().path_v()
                && final(self).cur().is_open() == old(self).cur().is_open() && final(self).cur().staged() == old(self).cur().staged()),
    {
        let i = match self.current {
            None => {
                return Err(StupidDbError::RepoNotInitialized);
            },
            Some(i) => i,
        };
        let r = &mut self.repos[i];
        match r.commit(tree_oid, blob) {
            Ok(id) => {
                proof {
                    self.lemma_frame_wf(old(self), i as int);
                }
                Ok(id)
            },
            Err(e) => {
                proof {
                    self.lemma_frame_wf(old(self), i as int);
                }
                Err(e)
            },
        }
    }

    /// Updates the opened repository's origin association.
    pub fn set_remoteurl(&mut self, remote: &str, url: &str) -> (r: Result<(), StupidDbError>)
        requires
            old(self).wf(),
        ensures
            final(self).wf(),
            final(self).same_frame(old(self)),
            (!old(self).has_open() ==> (r matches Err(e) && e
                == StupidDbError::RepoNotInitialized)),
            (old(self).has_open() && remote.spec_bytes() == "origin".spec_bytes() ==> r is Ok
                && final(self).cur().origin_v() == Some(url@) && final(self).cur().staged() == old(self).cur().staged() && final(self).cur().store() == old(self).cur().store() && final(self).cur().chain_v() == old(self).cur().chain_v() && final(self).cur().path_v() == old(self).cur().path_v() && final(self).cur().is_open() == old(self).cur().is_open()),
            (r matches Err(e) ==> e == StupidDbError::RepoNotInitialized || e
                == StupidDbError::RemoteUrlFailed),
    {
        let i = match self.current {
            None => {
                return Err(StupidDbError::RepoNotInitialized);
            },
            Some(i) => i,
        };
        let r = &mut self.repos[i];
        match r.set_remoteurl(remote, url) {
            Ok(()) => {
                proof {
                    self.lemma_frame_wf(old(self), i as int);
                }
                Ok(())
            },
            Err(e) => {
                proof {
                    self.lemma_frame_wf(old(self), i as int);
                }
                Err(e)
            },
        }
    }
}

} // verus!
