use vstd::prelude::*;

verus! {

/// Summary of a repository's state: how many entries are staged and how
/// many commits the chain holds.
pub struct StupidRepositoryInfo {
    pub index_length: i32,
    pub commit_length: i64,
}

/// Identifying metadata of one stored piece of content: its path and the
/// hexadecimal rendering of its object id.
pub struct StupidDataInfo {
    pub path: String,
    pub id: String,
}

} // verus!
