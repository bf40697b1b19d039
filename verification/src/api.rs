use vstd::prelude::*;

use crate::db::StupidDb;
use crate::db::repo_path_idx;
use crate::db::repo_with_path;
use crate::error::StupidDbError;
use crate::hashing::OID_LEN;
use crate::hashing::blob_oid_of;
use crate::hashing::hex_of;
use crate::models::ENTRY_MODE;
use crate::models::StupidBlob;
use crate::models::StupidDbRepositoryConfig;
use crate::models::TreeEntryV;
use crate::models::oid_of;
use crate::objects::ObjectV;
use crate::objects::message_bytes_v;
use crate::objects::msg_view;
use crate::objects::service_author_v;
use crate::objects::tree_id_of;
use crate::objects::utf8_bytes;
use crate::repository::lemma_index_put_has;
use crate::repository::lemma_mono_refl;
use crate::repository::lemma_mono_trans;
use crate::repository::lemma_store_put_has;
use crate::repository::lemma_store_put_mono;
use crate::repository::index_put;
use crate::repository::store_at;
use crate::repository::store_has;
use crate::repository::store_mono;
use crate::repository::store_put;

verus! {

/// The entry one submission stages: its name's bytes mapped to its
/// content's id, as a regular file.
pub open spec fn staged_entry_of(blob: StupidBlob) -> TreeEntryV {
    TreeEntryV {
        path: utf8_bytes(blob.name@),
        oid: blob_oid_of(blob.content@),
        mode: ENTRY_MODE,
    }
}

/// Accepts one content submission for a named repository: the content is
/// hashed and written as a blob, staged under the submission's name,
/// snapshotted into a tree, and committed to the repository's chain. The
/// returned submission carries the written object's id; the tip commit's
/// tree is the snapshot of the updated staging index. On failure the
/// repository keeps everything already written: objects are immutable and
/// content-addressed, so earlier steps are left in place, never rolled
/// back.
#[verifier::rlimit(100)]
pub fn post_data(db: &mut StupidDb, repository: &String, blob: &StupidBlob) -> (r: Result<
    StupidBlob,
    StupidDbError,
>)
    requires
        old(db).wf(),
    ensures
        final(db).wf(),
        final(db).instance_id_v() == old(db).instance_id_v(),
        final(db).root_dir_v() == old(db).root_dir_v(),
        (r matches Ok(b) ==> b.oid is Some && oid_of(b) == blob_oid_of(blob.content@) && oid_of(
            b,
        ).len() == OID_LEN && (b.id matches Some(s) && s@ == hex_of(blob_oid_of(blob.content@))
            && s@.len() == 2 * OID_LEN) && b.name == blob.name && b.content@ == blob.content@),
        ((r matches Err(e) && e == StupidDbError::RepoPathInvalid) <==> !repo_with_path(
            old(db).repos_v(),
            old(db).root_dir_v() + repository@,
        )),
        (!repo_with_path(old(db).repos_v(), old(db).root_dir_v() + repository@) ==> *final(db)
            == *old(db)),
        (r matches Err(e) ==> e == StupidDbError::RepoPathInvalid || e
            == StupidDbError::ObjectHashFailed || e == StupidDbError::BlobFailed || e
            == StupidDbError::IndexWriteFailed || e == StupidDbError::WriteTreeFailed || e
            == StupidDbError::CommitFetchFailed || e == StupidDbError::TreeFetchFailed || e
            == StupidDbError::CommitFailed),
        (repo_with_path(old(db).repos_v(), old(db).root_dir_v() + repository@) ==> {
            let orepo = old(db).repos_v()[repo_path_idx(
                old(db).repos_v(),
                old(db).root_dir_v() + repository@,
            )];
            let en = staged_entry_of(*blob);
            &&& final(db).has_open()
            &&& final(db).cur().path_v() == old(db).root_dir_v() + repository@
            &&& store_mono(orepo.store(), final(db).cur().store())
            &&& (r is Ok ==> {
                let c = final(db).cur();
                &&& c.staged() == index_put(orepo.staged(), en)
                &&& (orepo.chain_v().len() > 0 ==> c.chain_v().len() == orepo.chain_v().len()
                    + 1)
                &&& (orepo.chain_v().len() == 0 ==> c.chain_v().len() == 2)
                &&& store_has(c.store(), c.chain_v().last())
                &&& store_at(c.store(), c.chain_v().last()) is Commit
                &&& store_at(c.store(), c.chain_v().last()).commit_tree() == tree_id_of(
                    c.staged(),
                )
                &&& store_at(c.store(), c.chain_v().last()).commit_message() == message_bytes_v(
                    msg_view(blob.message),
                )
                &&& store_at(c.store(), c.chain_v().last()).commit_author()
                    == service_author_v()
            })
            &&& (r is Err ==> (final(db).cur().staged() == orepo.staged() || final(db).cur().staged() == index_put(orepo.staged(), en)) && (final(db).cur().chain_v()
                == orepo.chain_v() || (orepo.chain_v().len() == 0 && final(db).cur().chain_v().len() == 1)))
        }),
{
    match db.open(repository) {
        Err(e) => {
            return Err(e);
        },
        Ok(()) => {},
    }
    submit_to_open(db, blob)
}

/// The write path against the already-opened repository: write the blob,
/// stage it under the submission's name, snapshot the index into a tree,
/// and commit that tree to the chain. Each step short-circuits on the
/// first failure, leaving the partial state of earlier steps in place.
#[verifier::rlimit(100)]
fn submit_to_open(db: &mut StupidDb, blob: &StupidBlob) -> (r: Result<StupidBlob, StupidDbError>)
    requires
        old(db).wf(),
        old(db).has_open(),
    ensures
        final(db).wf(),
        final(db).has_open(),
        final(db).cur_i() == old(db).cur_i(),
        final(db).instance_id_v() == old(db).instance_id_v(),
        final(db).root_dir_v() == old(db).root_dir_v(),
        final(db).cur().path_v() == old(db).cur().path_v(),
        store_mono(old(db).cur().store(), final(db).cur().store()),
        (r matches Ok(b) ==> b.oid is Some && oid_of(b) == blob_oid_of(blob.content@) && oid_of(
            b,
        ).len() == OID_LEN && (b.id matches Some(s) && s@ == hex_of(blob_oid_of(blob.content@))
            && s@.len() == 2 * OID_LEN) && b.name == blob.name && b.content@ == blob.content@),
        (r is Ok ==> {
            let c = final(db).cur();
            let en = staged_entry_of(*blob);
            &&& c.staged() == index_put(old(db).cur().staged(), en)
            &&& (old(db).cur().chain_v().len() > 0 ==> c.chain_v().len() == old(db).cur().chain_v().len() + 1)
            &&& (old(db).cur().chain_v().len() == 0 ==> c.chain_v().len() == 2)
            &&& store_has(c.store(), c.chain_v().last())
            &&& store_at(c.store(), c.chain_v().last()) is Commit
            &&& store_at(c.store(), c.chain_v().last()).commit_tree() == tree_id_of(c.staged())
            &&& store_at(c.store(), c.chain_v().last()).commit_message() == message_bytes_v(
                msg_view(blob.message),
            )
            &&& store_at(c.store(), c.chain_v().last()).commit_author() == service_author_v()
            &&& exists|i: int| 0 <= i < c.staged().len() && c.staged()[i] == en
        }),
        (r matches Err(e) ==> e == StupidDbError::ObjectHashFailed || e
            == StupidDbError::BlobFailed || e == StupidDbError::IndexWriteFailed || e
            == StupidDbError::WriteTreeFailed || e == StupidDbError::CommitFetchFailed || e
            == StupidDbError::TreeFetchFailed || e == StupidDbError::CommitFailed),
        (r is Err ==> (final(db).cur().staged() == old(db).cur().staged() || final(db).cur().staged() == index_put(old(db).cur().staged(), staged_entry_of(*blob))) && (final(db).cur().chain_v() == old(db).cur().chain_v() || (old(db).cur().chain_v().len() == 0
            && final(db).cur().chain_v().len() == 1))),
{
    let ghost s0 = old(db).cur().store();
    let hashed = match db.hash_object_write(blob) {
        Err(e) => {
            proof {
                lemma_mono_refl(s0);
            }
            return Err(e);
        },
        Ok(b) => b,
    };
    proof {
        lemma_store_put_has(
            s0,
            blob_oid_of(blob.content@),
            ObjectV::Blob { data: blob.content@ },
        );
        lemma_store_put_mono(
            s0,
            blob_oid_of(blob.content@),
            ObjectV::Blob { data: blob.content@ },
        );
    }
    match stage_tree_commit(db, blob, &hashed) {
        Err(e) => {
            proof {
                lemma_mono_trans(s0, store_put(
                    s0,
                    blob_oid_of(blob.content@),
                    ObjectV::Blob { data: blob.content@ },
                ), db.cur().store());
            }
            Err(e)
        },
        Ok(()) => {
            proof {
                lemma_mono_trans(s0, store_put(
                    s0,
                    blob_oid_of(blob.content@),
                    ObjectV::Blob { data: blob.content@ },
                ), db.cur().store());
            }
            Ok(hashed)
        },
    }
}

/// Stages an already-written submission, snapshots the index into a tree
/// and commits that tree to the chain, short-circuiting on the first
/// failure.
#[verifier::rlimit(100)]
fn stage_tree_commit(db: &mut StupidDb, blob: &StupidBlob, hashed: &StupidBlob) -> (r: Result<
    (),
    StupidDbError,
>)
    requires
        old(db).wf(),
        old(db).has_open(),
        hashed.oid is Some,
        oid_of(*hashed) == blob_oid_of(blob.content@),
        hashed.name == blob.name,
        store_has(old(db).cur().store(), blob_oid_of(blob.content@)),
    ensures
        final(db).wf(),
        final(db).has_open(),
        final(db).cur_i() == old(db).cur_i(),
        final(db).instance_id_v() == old(db).instance_id_v(),
        final(db).root_dir_v() == old(db).root_dir_v(),
        final(db).cur().path_v() == old(db).cur().path_v(),
        store_mono(old(db).cur().store(), final(db).cur().store()),
        (r is Ok ==> {
            let c = final(db).cur();
            let en = staged_entry_of(*blob);
            &&& c.staged() == index_put(old(db).cur().staged(), en)
            &&& (old(db).cur().chain_v().len() > 0 ==> c.chain_v().len() == old(db).cur().chain_v().len() + 1)
            &&& (old(db).cur().chain_v().len() == 0 ==> c.chain_v().len() == 2)
            &&& store_has(c.store(), c.chain_v().last())
            &&& store_at(c.store(), c.chain_v().last()) is Commit
            &&& store_at(c.store(), c.chain_v().last()).commit_tree() == tree_id_of(c.staged())
            &&& store_at(c.store(), c.chain_v().last()).commit_message() == message_bytes_v(
                msg_view(blob.message),
            )
            &&& store_at(c.store(), c.chain_v().last()).commit_author() == service_author_v()
            &&& exists|i: int| 0 <= i < c.staged().len() && c.staged()[i] == en
        }),
        (r matches Err(e) ==> e == StupidDbError::IndexWriteFailed || e
            == StupidDbError::WriteTreeFailed || e == StupidDbError::CommitFetchFailed || e
            == StupidDbError::TreeFetchFailed || e == StupidDbError::CommitFailed),
        (r is Err ==> (final(db).cur().staged() == old(db).cur().staged() || final(db).cur().staged() == index_put(old(db).cur().staged(), staged_entry_of(*blob))) && (final(db).cur().chain_v() == old(db).cur().chain_v() || (old(db).cur().chain_v().len() == 0
            && final(db).cur().chain_v().len() == 1))),
{
    let ghost s1 = old(db).cur().store();
    match db.update_index(hashed) {
        Err(e) => {
            proof {
                lemma_mono_refl(s1);
            }
            return Err(e);
        },
        Ok(()) => {},
    }
    proof {
        assert((TreeEntryV {
            path: utf8_bytes(hashed.name@),
            oid: oid_of(*hashed),
            mode: ENTRY_MODE,
        }) =~= staged_entry_of(*blob));
    }
    let tree = match db.write_tree() {
        Err(e) => {
            proof {
                lemma_mono_refl(s1);
            }
            return Err(e);
        },
        Ok(t) => t,
    };
    proof {
        lemma_store_put_mono(
            s1,
            tree_id_of(index_put(old(db).cur().staged(), staged_entry_of(*blob))),
            ObjectV::Tree { entries: index_put(old(db).cur().staged(), staged_entry_of(*blob)) },
        );
    }
    let ghost s2 = db.cur().store();
    match db.commit_tree(&tree, blob) {
        Err(e) => {
            proof {
                lemma_mono_trans(s1, s2, db.cur().store());
            }
            return Err(e);
        },
        Ok(_) => {},
    }
    proof {
        lemma_mono_trans(s1, s2, db.cur().store());
        lemma_index_put_has(old(db).cur().staged(), staged_entry_of(*blob));
    }
    Ok(())
}

/// Creates or ensures a repository and records its origin association:
/// when the caller supplies an origin that differs from the recorded one,
/// the recorded origin is updated; re-supplying the recorded origin is a
/// no-op. The accepted configuration is echoed back; every step of this
/// operation succeeds on every input.
#[verifier::rlimit(100)]
pub fn post_repository(db: &mut StupidDb, config: &StupidDbRepositoryConfig) -> (r: Result<
    StupidDbRepositoryConfig,
    StupidDbError,
>)
    requires
        old(db).wf(),
    ensures
        final(db).wf(),
        r is Ok,
        (r matches Ok(c) ==> c.name == config.name && c.origin == config.origin && final(db).has_open() && final(db).cur().path_v() == old(db).root_dir_v() + config.name@ && (
        config.origin matches Some(u) ==> final(db).cur().origin_v() == Some(u@))),
        (!repo_with_path(old(db).repos_v(), old(db).root_dir_v() + config.name@) ==> final(db).cur().store().len() == 0 && final(db).cur().staged().len() == 0 && final(db).cur().chain_v().len() == 0),
        (config.origin is None ==> final(db).cur().origin_v() == (if repo_with_path(
            old(db).repos_v(),
            old(db).root_dir_v() + config.name@,
        ) {
            old(db).repos_v()[repo_path_idx(
                old(db).repos_v(),
                old(db).root_dir_v() + config.name@,
            )].origin_v()
        } else {
            None::<Seq<char>>
        })),
{
    let ghost p = old(db).root_dir_v() + config.name@;
    match db.init(config) {
        Err(e) => {
            return Err(e);
        },
        Ok(()) => {},
    }
    proof {
        assert(0 <= db.cur_i() < db.repos_v().len() && db.repos_v()[db.cur_i()].path_v() == p);
        assert(repo_with_path(db.repos_v(), p));
    }
    let ghost dbi = *db;
    match db.open(&config.name) {
        Err(e) => {
            return Err(e);
        },
        Ok(()) => {},
    }
    proof {
        let j = repo_path_idx(dbi.repos_v(), p);
        assert(0 <= j < dbi.repos_v().len() && dbi.repos_v()[j].path_v() == p);
        if j < dbi.cur_i() {
            assert(dbi.repos_v()[j].path_v() != dbi.repos_v()[dbi.cur_i()].path_v());
        }
        if dbi.cur_i() < j {
            assert(dbi.repos_v()[dbi.cur_i()].path_v() != dbi.repos_v()[j].path_v());
        }
        assert(db.cur() == dbi.cur());
    }
    let repo_origin = match db.repo() {
        Some(rep) => rep.origin_url(),
        None => {
            return Err(StupidDbError::RepoNotInitialized);
        },
    };
    match (&repo_origin, &config.origin) {
        (_, None) => {},
        (None, Some(co)) => {
            match db.set_remoteurl("origin", co.as_str()) {
                Err(e) => {
                    return Err(e);
                },
                Ok(()) => {},
            }
        },
        (Some(ro), Some(co)) => {
            if !ro.eq(co) {
                match db.set_remoteurl("origin", co.as_str()) {
                    Err(e) => {
                        return Err(e);
                    },
                    Ok(()) => {},
                }
            }
        },
    }
    Ok(
        StupidDbRepositoryConfig {
            name: config.name.clone(),
            origin: match &config.origin {
                Some(o) => Some(o.clone()),
                None => None,
            },
        },
    )
}

/// Fetches a repository's metadata by name: its name and its recorded
/// origin URL, if any. Succeeds exactly when a repository of that name
/// was initialized under the configured root.
pub fn get_repository(db: &mut StupidDb, name: &String) -> (r: Result<
    StupidDbRepositoryConfig,
    StupidDbError,
>)
    requires
        old(db).wf(),
    ensures
        final(db).wf(),
        final(db).repos_v() == old(db).repos_v(),
        final(db).instance_id_v() == old(db).instance_id_v(),
        final(db).root_dir_v() == old(db).root_dir_v(),
        (r is Ok <==> repo_with_path(old(db).repos_v(), old(db).root_dir_v() + name@)),
        (r matches Ok(c) ==> c.name@ == name@ && final(db).has_open() && final(db).cur() == old(db).repos_v()[repo_path_idx(old(db).repos_v(), old(db).root_dir_v() + name@)] && (
        match c.origin {
            Some(ref u) => final(db).cur().origin_v() == Some(u@),
            None => final(db).cur().origin_v() is None,
        })),
        (r matches Err(e) ==> e == StupidDbError::RepoPathInvalid && *final(db) == *old(db)),
{
    match db.open(name) {
        Err(e) => {
            return Err(e);
        },
        Ok(()) => {},
    }
    let origin = match db.repo() {
        Some(rep) => rep.origin_url(),
        None => None,
    };
    Ok(StupidDbRepositoryConfig { name: name.clone(), origin })
}

/// Resolves the target of an asynchronous push for a named repository:
/// the recorded origin URL the chain is to be transported to. The
/// transport itself runs outside the store, off the request path; this
/// decision succeeds exactly when the repository exists and has an
/// origin.
pub fn push_repository(db: &mut StupidDb, name: &String) -> (r: Result<String, StupidDbError>)
    requires
        old(db).wf(),
    ensures
        final(db).wf(),
        final(db).repos_v() == old(db).repos_v(),
        final(db).instance_id_v() == old(db).instance_id_v(),
        final(db).root_dir_v() == old(db).root_dir_v(),
        (r is Ok <==> (repo_with_path(old(db).repos_v(), old(db).root_dir_v() + name@) && old(db).repos_v()[repo_path_idx(old(db).repos_v(), old(db).root_dir_v() + name@)].origin_v()
            is Some)),
        (r matches Ok(u) ==> final(db).has_open() && final(db).cur().path_v() == old(db).root_dir_v() + name@ && final(db).cur().origin_v() == Some(u@)),
        ((r matches Err(e) && e == StupidDbError::RepoPathInvalid) <==> !repo_with_path(
            old(db).repos_v(),
            old(db).root_dir_v() + name@,
        )),
        (r matches Err(e) ==> e == StupidDbError::RepoPathInvalid || e
            == StupidDbError::NoOriginRemote),
{
    match db.open(name) {
        Err(e) => {
            return Err(e);
        },
        Ok(()) => {},
    }
    match db.repo() {
        Some(rep) => rep.push_target(),
        None => Err(StupidDbError::RepoNotInitialized),
    }
}

} // verus!
