use stupiddb::api::get_repository;
use stupiddb::api::post_data;
use stupiddb::api::post_repository;
use stupiddb::api::push_repository;
use stupiddb::db::StupidDb;
use stupiddb::error::StupidDbError;
use stupiddb::models::StupidBlob;
use stupiddb::models::StupidConfig;
use stupiddb::models::StupidDbRepositoryConfig;

fn fresh_db() -> StupidDb {
    StupidDb::new("test-instance".to_string(), "/var/lib/stupiddb/".to_string())
}

fn blob(name: &str, content: &[u8]) -> StupidBlob {
    StupidBlob {
        id: None,
        oid: None,
        message: None,
        name: name.to_string(),
        content: content.to_vec(),
    }
}

fn init_and_open(db: &mut StupidDb, name: &str) {
    let config = StupidDbRepositoryConfig { name: name.to_string(), origin: None };
    db.init(&config).unwrap();
    db.open(&name.to_string()).unwrap();
}

#[test]
fn hash_matches_git_blob_digest() {
    let mut db = fresh_db();
    init_and_open(&mut db, "hash.git");
    let hashed = db.hash_object(&blob("a.txt", b"hello")).unwrap();
    // The well-known SHA-1 of the git blob object for the bytes "hello".
    assert_eq!(
        hashed.id.as_deref(),
        Some("b6fc4c620b67d95f953a5c1c1230aaab5db5a1b0")
    );
}

#[test]
fn hashing_is_idempotent() {
    let mut db = fresh_db();
    init_and_open(&mut db, "idem.git");
    let h1 = db.hash_object(&blob("a.txt", b"same bytes")).unwrap();
    let h2 = db.hash_object(&blob("a.txt", b"same bytes")).unwrap();
    assert_eq!(h1.id, h2.id);
    assert!(h1.oid.unwrap().same(&h2.oid.unwrap()));
}

#[test]
fn write_blob_twice_keeps_one_copy() {
    let mut db = fresh_db();
    init_and_open(&mut db, "dedup.git");
    let h1 = db.hash_object_write(&blob("a.txt", b"payload")).unwrap();
    let count_after_first = db.repo().unwrap().object_count();
    let h2 = db.hash_object_write(&blob("a.txt", b"payload")).unwrap();
    let count_after_second = db.repo().unwrap().object_count();
    assert_eq!(h1.id, h2.id);
    assert_eq!(count_after_first, count_after_second);
    assert_eq!(count_after_first, 1);
}

#[test]
fn tree_build_is_deterministic() {
    let mut db = fresh_db();
    init_and_open(&mut db, "tree.git");
    let hashed = db.hash_object_write(&blob("a.txt", b"content")).unwrap();
    db.update_index(&hashed).unwrap();
    let t1 = db.write_tree().unwrap();
    let t2 = db.write_tree().unwrap();
    assert!(t1.same(&t2));
    assert_eq!(t1.to_hex(), t2.to_hex());
}

#[test]
fn commit_unwritten_tree_fails_tree_fetch() {
    let mut db = fresh_db();
    init_and_open(&mut db, "badtree.git");
    // Hash without writing: the id names an object absent from the store.
    let hashed = db.hash_object(&blob("a.txt", b"never written")).unwrap();
    let missing = hashed.oid.unwrap();
    let r = db.commit_tree(&missing, &blob("a.txt", b"never written"));
    assert!(matches!(r, Err(StupidDbError::TreeFetchFailed)));
}

#[test]
fn commit_blob_id_fails_tree_fetch() {
    let mut db = fresh_db();
    init_and_open(&mut db, "notatree.git");
    // A written blob's id is present but does not name a tree.
    let hashed = db.hash_object_write(&blob("a.txt", b"data")).unwrap();
    let blob_id = hashed.oid.unwrap();
    let r = db.commit_tree(&blob_id, &blob("a.txt", b"data"));
    assert!(matches!(r, Err(StupidDbError::TreeFetchFailed)));
}

#[test]
fn stage_unwritten_object_fails_index_write() {
    let mut db = fresh_db();
    init_and_open(&mut db, "badstage.git");
    let hashed = db.hash_object(&blob("a.txt", b"unwritten")).unwrap();
    let r = db.update_index(&hashed);
    assert!(matches!(r, Err(StupidDbError::IndexWriteFailed)));
}

#[test]
fn first_commit_on_empty_index_builds_two_commit_chain() {
    let mut db = fresh_db();
    init_and_open(&mut db, "empty.git");
    let tree = db.write_tree().unwrap();
    assert!(db.repo().unwrap().find_last_commit().is_none());
    db.commit_tree(&tree, &blob("unused", b"")).unwrap();
    let repo = db.repo().unwrap();
    let info = repo.info();
    assert_eq!(info.commit_length, 2);
    assert_eq!(info.index_length, 0);
    // The root commit's tree has zero entries.
    let entries = repo.find_tree(&tree).unwrap();
    assert_eq!(entries.len(), 0);
    assert!(repo.find_last_commit().is_some());
}

#[test]
fn chain_grows_by_one_per_commit_after_root() {
    let mut db = fresh_db();
    let config = StupidDbRepositoryConfig { name: "r3.git".to_string(), origin: None };
    post_repository(&mut db, &config).unwrap();
    for (i, content) in [b"one".as_slice(), b"two", b"three"].iter().enumerate() {
        let name = format!("f{}.txt", i);
        post_data(&mut db, &"r3.git".to_string(), &blob(&name, *content)).unwrap();
    }
    // Root commit plus three explicit ones.
    assert_eq!(db.repo().unwrap().info().commit_length, 4);
}

#[test]
fn submission_end_to_end() {
    let mut db = fresh_db();
    let config = StupidDbRepositoryConfig { name: "r1.git".to_string(), origin: None };
    post_repository(&mut db, &config).unwrap();
    let accepted = post_data(&mut db, &"r1.git".to_string(), &blob("a.txt", b"hello")).unwrap();
    let id = accepted.id.clone().unwrap();
    assert_eq!(id.len(), 40);
    let repo = db.repo().unwrap();
    assert_eq!(repo.info().commit_length, 2);
    // The staged index holds exactly one entry for "a.txt" with the
    // submitted content's id.
    let staged = repo.index().unwrap();
    assert_eq!(staged.len(), 1);
    assert_eq!(staged[0].path, b"a.txt".to_vec());
    assert_eq!(staged[0].oid.to_hex(), id);
    // The tip commit's tree holds exactly that entry.
    let tip = repo.find_last_commit().unwrap();
    let tree_id = match repo.read(&tip).unwrap() {
        stupiddb::objects::StupidObject::Commit { tree, .. } => tree.dup(),
        _ => panic!("tip does not name a commit"),
    };
    let entries = repo.find_tree(&tree_id).unwrap();
    assert_eq!(entries.len(), 1);
    assert_eq!(entries[0].path, b"a.txt".to_vec());
    assert_eq!(entries[0].oid.to_hex(), id);
}

#[test]
fn resubmission_replaces_entry_under_same_path() {
    let mut db = fresh_db();
    let config = StupidDbRepositoryConfig { name: "r2.git".to_string(), origin: None };
    post_repository(&mut db, &config).unwrap();
    let first = post_data(&mut db, &"r2.git".to_string(), &blob("a.txt", b"first")).unwrap();
    let second = post_data(&mut db, &"r2.git".to_string(), &blob("a.txt", b"second")).unwrap();
    assert_ne!(first.id, second.id);
    let repo = db.repo().unwrap();
    let staged = repo.index().unwrap();
    assert_eq!(staged.len(), 1);
    assert_eq!(staged[0].oid.to_hex(), second.id.unwrap());
}

#[test]
fn index_keeps_entries_sorted_by_path() {
    let mut db = fresh_db();
    init_and_open(&mut db, "sorted.git");
    let b1 = db.hash_object_write(&blob("b.txt", b"bee")).unwrap();
    db.update_index(&b1).unwrap();
    let a1 = db.hash_object_write(&blob("a.txt", b"ay")).unwrap();
    db.update_index(&a1).unwrap();
    let staged = db.repo().unwrap().index().unwrap();
    assert_eq!(staged.len(), 2);
    assert_eq!(staged[0].path, b"a.txt".to_vec());
    assert_eq!(staged[1].path, b"b.txt".to_vec());
    assert_eq!(staged[0].mode, 0o100644);
}

#[test]
fn origin_update_if_different() {
    let mut db = fresh_db();
    let u1 = "git@example.test:store/one.git".to_string();
    let u2 = "git@example.test:store/two.git".to_string();
    let with = |origin: Option<String>| StupidDbRepositoryConfig {
        name: "remote.git".to_string(),
        origin,
    };
    post_repository(&mut db, &with(Some(u1.clone()))).unwrap();
    let got = get_repository(&mut db, &"remote.git".to_string()).unwrap();
    assert_eq!(got.origin, Some(u1.clone()));
    // Re-supplying the recorded origin is a no-op.
    post_repository(&mut db, &with(Some(u1.clone()))).unwrap();
    let got = get_repository(&mut db, &"remote.git".to_string()).unwrap();
    assert_eq!(got.origin, Some(u1.clone()));
    // A differing origin replaces the recorded one.
    post_repository(&mut db, &with(Some(u2.clone()))).unwrap();
    let got = get_repository(&mut db, &"remote.git".to_string()).unwrap();
    assert_eq!(got.origin, Some(u2));
}

#[test]
fn open_unknown_repository_fails() {
    let mut db = fresh_db();
    let r = db.open(&"missing.git".to_string());
    assert!(matches!(r, Err(StupidDbError::RepoPathInvalid)));
    let r = get_repository(&mut db, &"missing.git".to_string());
    assert!(matches!(r, Err(StupidDbError::RepoPathInvalid)));
}

#[test]
fn operations_before_open_fail_repo_not_initialized() {
    let mut db = fresh_db();
    assert!(matches!(
        db.hash_object(&blob("a.txt", b"x")),
        Err(StupidDbError::RepoNotInitialized)
    ));
    assert!(matches!(db.write_tree(), Err(StupidDbError::RepoNotInitialized)));
}

#[test]
fn push_without_origin_fails_no_origin_remote() {
    let mut db = fresh_db();
    let config = StupidDbRepositoryConfig { name: "local.git".to_string(), origin: None };
    post_repository(&mut db, &config).unwrap();
    let r = push_repository(&mut db, &"local.git".to_string());
    assert!(matches!(r, Err(StupidDbError::NoOriginRemote)));
}

#[test]
fn push_resolves_recorded_origin() {
    let mut db = fresh_db();
    let url = "ssh://git@example.test/depot.git".to_string();
    let config = StupidDbRepositoryConfig {
        name: "pushed.git".to_string(),
        origin: Some(url.clone()),
    };
    post_repository(&mut db, &config).unwrap();
    let target = push_repository(&mut db, &"pushed.git".to_string()).unwrap();
    assert_eq!(target, url);
}

#[test]
fn default_config_points_at_stock_root() {
    let config = StupidConfig::default();
    assert_eq!(config.root_dir, "/var/lib/stupiddb/");
}

#[test]
fn init_is_idempotent_open() {
    let mut db = fresh_db();
    let config = StupidDbRepositoryConfig { name: "again.git".to_string(), origin: None };
    post_repository(&mut db, &config).unwrap();
    post_data(&mut db, &"again.git".to_string(), &blob("f.txt", b"v")).unwrap();
    let before = db.repo().unwrap().info().commit_length;
    // A second initialization of the same name opens the existing
    // repository without touching its history.
    post_repository(&mut db, &config).unwrap();
    assert_eq!(db.repo().unwrap().info().commit_length, before);
}

#[test]
fn empty_content_hashes_to_empty_blob_id() {
    let mut db = fresh_db();
    init_and_open(&mut db, "emptyblob.git");
    let hashed = db.hash_object(&blob("e.txt", b"")).unwrap();
    // The well-known SHA-1 of the empty git blob object.
    assert_eq!(
        hashed.id.as_deref(),
        Some("e69de29bb2d1d6434b8b29ae775ad8c2e48c5391")
    );
}

#[test]
fn commit_records_supplied_message() {
    let mut db = fresh_db();
    init_and_open(&mut db, "msg.git");
    let mut b = blob("m.txt", b"text");
    b.message = Some("release notes".to_string());
    let hashed = db.hash_object_write(&b).unwrap();
    db.update_index(&hashed).unwrap();
    let tree = db.write_tree().unwrap();
    db.commit_tree(&tree, &b).unwrap();
    let repo = db.repo().unwrap();
    let tip = repo.find_last_commit().unwrap();
    match repo.read(&tip).unwrap() {
        stupiddb::objects::StupidObject::Commit { message, parent, .. } => {
            assert_eq!(message, &b"release notes".to_vec());
            assert!(parent.is_some());
        },
        _ => panic!("tip does not name a commit"),
    }
}

#[test]
fn commit_without_message_records_placeholder() {
    let mut db = fresh_db();
    init_and_open(&mut db, "nomsg.git");
    let b = blob("m.txt", b"text");
    let hashed = db.hash_object_write(&b).unwrap();
    db.update_index(&hashed).unwrap();
    let tree = db.write_tree().unwrap();
    db.commit_tree(&tree, &b).unwrap();
    let repo = db.repo().unwrap();
    let tip = repo.find_last_commit().unwrap();
    match repo.read(&tip).unwrap() {
        stupiddb::objects::StupidObject::Commit { message, .. } => {
            assert_eq!(message, &b"no message".to_vec());
        },
        _ => panic!("tip does not name a commit"),
    }
}

#[test]
fn read_unwritten_id_finds_nothing() {
    let mut db = fresh_db();
    init_and_open(&mut db, "readmiss.git");
    let hashed = db.hash_object(&blob("x", b"not stored")).unwrap();
    let missing = hashed.oid.unwrap();
    assert!(db.repo().unwrap().read(&missing).is_none());
}

#[test]
fn requests_resolve_repositories_by_name() {
    let mut db = fresh_db();
    let a = StupidDbRepositoryConfig {
        name: "alpha.git".to_string(),
        origin: Some("git@example.test:alpha.git".to_string()),
    };
    let b = StupidDbRepositoryConfig { name: "beta.git".to_string(), origin: None };
    post_repository(&mut db, &a).unwrap();
    post_repository(&mut db, &b).unwrap();
    // A submission names its repository; it lands there even though
    // another repository was opened more recently.
    post_data(&mut db, &"alpha.git".to_string(), &blob("a.txt", b"alpha data")).unwrap();
    assert_eq!(db.repo().unwrap().info().commit_length, 2);
    let got_b = get_repository(&mut db, &"beta.git".to_string()).unwrap();
    assert_eq!(got_b.origin, None);
    assert_eq!(db.repo().unwrap().info().commit_length, 0);
    let got_a = get_repository(&mut db, &"alpha.git".to_string()).unwrap();
    assert_eq!(got_a.origin, Some("git@example.test:alpha.git".to_string()));
    assert_eq!(db.repo().unwrap().info().commit_length, 2);
}
