use vstd::prelude::*;

verus! {

/// The failure kinds that the store's operations report. Every
/// component-level operation returns a result carrying one of these;
/// no operation swallows a failure and continues.
#[derive(Debug, Clone, Copy, PartialEq, Eq, Structural)]
pub enum StupidDbError {
    /// The repository storage location is unusable or cannot be created.
    RepoPathInvalid,
    /// An operation was attempted before a repository was opened.
    RepoNotInitialized,
    /// Content could not be persisted as a blob.
    BlobFailed,
    /// The staging index could not be loaded.
    IndexFetchFailed,
    /// The staging index could not be durably updated.
    IndexWriteFailed,
    /// Content could not be hashed into an object id.
    ObjectHashFailed,
    /// The current chain tip could not be resolved or rooted.
    CommitFetchFailed,
    /// Tree construction failed at the storage layer.
    WriteTreeFailed,
    /// The head reference could not be read.
    HeadFetchFailed,
    /// The committer identity could not be constructed.
    SignatureFailed,
    /// A referenced tree is absent from the object store.
    TreeFetchFailed,
    /// Commit persistence failed at the storage layer.
    CommitFailed,
    /// No origin remote is configured for the repository.
    NoOriginRemote,
    /// The remote peer could not be reached.
    RemoteConnectFailed,
    /// Transport of the chain to the remote peer failed.
    RemotePushFailed,
    /// The remote association could not be updated.
    RemoteUrlFailed,
}

} // verus!
