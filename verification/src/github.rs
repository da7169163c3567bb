//! Repository trees and the choice of the files to ingest.
//!
//! A source names a repository and says which of its files count: those
//! under every allowed directory, under no ignored directory, and with one
//! of the allowed extensions where any is given. The types of the tree and
//! commit listings hold what the hosting service reports.

use crate::text::{ends_with, has_prefix, has_suffix, starts_with, texts};
use vstd::prelude::*;
use vstd::string::StringExecFns;
use vstd::utf8::encode_utf8;

verus! {

/// A repository to ingest and the rules that pick its files.
#[derive(Debug)]
pub struct Source {
    pub id: i64,
    pub collection_id: i64,
    pub owner: String,
    pub repo: String,
    pub branch: String,
    pub allowed_ext: Vec<String>,
    pub allowed_dirs: Vec<String>,
    pub ignored_dirs: Vec<String>,
}

/// A file of a source as it was fetched.
#[derive(Debug)]
pub struct Document {
    pub id: i64,
    pub source_id: i64,
    pub collection_id: i64,
    pub path: String,
    /// The CRC-32 of the bytes of `data`.
    pub checksum: u32,
    /// The number of tokens of `data`.
    pub tokens_len: usize,
    pub data: String,
}

/// Reads one source on behalf of one collection.
#[derive(Debug)]
pub struct GitHubParser<'a> {
    pub collection_id: i64,
    pub source: &'a Source,
}

/// The files changed by a commit.
#[derive(Debug)]
pub struct Commit {
    pub files: Vec<File>,
}

/// One file changed by a commit.
#[derive(Debug)]
pub struct File {
    pub filename: String,
    pub additions: i64,
    pub deletions: i64,
    pub changes: i64,
    pub status: FileStatus,
    pub raw_url: String,
    pub blob_url: String,
    pub patch: Option<String>,
}

/// What a commit did to a file.
#[derive(Clone, Copy, Debug, PartialEq, Eq, Structural)]
pub enum FileStatus {
    Added,
    Removed,
    Modified,
    Renamed,
    Copied,
    Changed,
    Unchanged,
}

/// The listing of a repository tree.
#[derive(Debug)]
pub struct TreeResponse {
    pub sha: String,
    pub url: String,
    pub tree: Vec<Tree>,
    pub truncated: bool,
}

/// One entry of a repository tree.
#[derive(Debug)]
pub struct Tree {
    pub path: String,
    pub mode: String,
    pub tree_type: TreeType,
    pub sha: String,
    pub size: Option<i64>,
    pub url: String,
}

/// Whether a tree entry is a file or a directory.
#[derive(Clone, Copy, Debug, PartialEq, Eq, Structural)]
pub enum TreeType {
    Blob,
    Tree,
}

/// Whether `path` starts with every one of `dirs`.
pub open spec fn under_all(path: Seq<char>, dirs: Seq<String>) -> bool {
    forall|i: int| 0 <= i < dirs.len() ==> starts_with(path, (#[trigger] dirs[i])@)
}

/// Whether `path` starts with one of `dirs`.
pub open spec fn under_any(path: Seq<char>, dirs: Seq<String>) -> bool {
    exists|i: int| 0 <= i < dirs.len() && starts_with(path, (#[trigger] dirs[i])@)
}

/// Whether `path` ends with one of `exts`.
pub open spec fn has_any_ext(path: Seq<char>, exts: Seq<String>) -> bool {
    exists|i: int| 0 <= i < exts.len() && ends_with(path, (#[trigger] exts[i])@)
}

impl<'a> GitHubParser<'a> {
    pub fn new(collection_id: i64, source: &'a Source) -> (parser: Self)
        ensures
            parser.collection_id == collection_id,
            parser.source == source,
    {
        Self { collection_id, source }
    }

    /// Whether the file at `path` is one to ingest: it lies under every
    /// allowed directory and under no ignored one, and, where extensions
    /// are given, ends with one of them.
    pub open spec fn targets(&self, path: Seq<char>) -> bool {
        &&& under_all(path, self.source.allowed_dirs@)
        &&& !under_any(path, self.source.ignored_dirs@)
        &&& self.source.allowed_ext@.len() > 0 ==> has_any_ext(path, self.source.allowed_ext@)
    }

    /// Decides `targets`.
    pub fn is_target_file(&self, path: &str) -> (r: bool)
        ensures
            r == self.targets(path@),
    {
        let mut i: usize = 0;
        while i < self.source.allowed_dirs.len()
            invariant
                i <= self.source.allowed_dirs.len(),
                forall|j: int| 0 <= j < i ==> starts_with(path@, (#[trigger] self.source.allowed_dirs@[j])@),
            decreases self.source.allowed_dirs.len() - i,
        {
            if !has_prefix(path, self.source.allowed_dirs[i].as_str()) {
                return false;
            }
            i += 1;
        }
        let mut i: usize = 0;
        while i < self.source.ignored_dirs.len()
            invariant
                i <= self.source.ignored_dirs.len(),
                under_all(path@, self.source.allowed_dirs@),
                forall|j: int| 0 <= j < i ==> !starts_with(path@, (#[trigger] self.source.ignored_dirs@[j])@),
            decreases self.source.ignored_dirs.len() - i,
        {
            if has_prefix(path, self.source.ignored_dirs[i].as_str()) {
                return false;
            }
            i += 1;
        }
        if self.source.allowed_ext.len() == 0 {
            return true;
        }
        let mut i: usize = 0;
        while i < self.source.allowed_ext.len()
            invariant
                i <= self.source.allowed_ext.len(),
                under_all(path@, self.source.allowed_dirs@),
                !under_any(path@, self.source.ignored_dirs@),
                forall|j: int| 0 <= j < i ==> !ends_with(path@, (#[trigger] self.source.allowed_ext@[j])@),
            decreases self.source.allowed_ext.len() - i,
        {
            if has_suffix(path, self.source.allowed_ext[i].as_str()) {
                return true;
            }
            i += 1;
        }
        false
    }

    /// Keeps the paths of the files to ingest, in their order.
    pub fn filter_paths(&self, files: Vec<String>) -> (r: Vec<String>)
        ensures
            texts(r@) == texts(files@).filter(|p: Seq<char>| self.targets(p)),
    {
        let ghost keep = |p: Seq<char>| self.targets(p);
        let mut kept: Vec<String> = Vec::new();
        let mut i: usize = 0;
        proof {
            reveal(Seq::filter);
        }
        while i < files.len()
            invariant
                i <= files.len(),
                keep == (|p: Seq<char>| self.targets(p)),
                texts(kept@) == texts(files@).take(i as int).filter(keep),
            decreases files.len() - i,
        {
            if self.is_target_file(files[i].as_str()) {
                kept.push(files[i].clone());
            }
            proof {
                reveal(Seq::filter);
                let all = texts(files@);
                assert(all.take(i + 1).drop_last() =~= all.take(i as int));
            }
            i += 1;
        }
        proof {
            assert(texts(files@).take(files@.len() as int) =~= texts(files@));
        }
        kept
    }

    /// The paths of the files of a tree listing that are to be ingested,
    /// in the order of the listing: directories are left out.
    pub fn target_paths(&self, listing: &TreeResponse) -> (r: Vec<String>)
        ensures
            texts(r@) == listing.tree@.filter(
                |t: Tree| t.tree_type == TreeType::Blob && self.targets(t.path@),
            ).map_values(|t: Tree| t.path@),
    {
        let ghost keep = |t: Tree| t.tree_type == TreeType::Blob && self.targets(t.path@);
        let ghost path_of = |t: Tree| t.path@;
        let mut kept: Vec<String> = Vec::new();
        let mut i: usize = 0;
        proof {
            reveal(Seq::filter);
        }
        while i < listing.tree.len()
            invariant
                i <= listing.tree.len(),
                keep == (|t: Tree| t.tree_type == TreeType::Blob && self.targets(t.path@)),
                path_of == (|t: Tree| t.path@),
                texts(kept@) == listing.tree@.take(i as int).filter(keep).map_values(path_of),
            decreases listing.tree.len() - i,
        {
            let entry = &listing.tree[i];
            let is_blob = match entry.tree_type {
                TreeType::Blob => true,
                TreeType::Tree => false,
            };
            if is_blob && self.is_target_file(entry.path.as_str()) {
                kept.push(entry.path.clone());
            }
            proof {
                reveal(Seq::filter);
                let all = listing.tree@;
                assert(all.take(i + 1).drop_last() =~= all.take(i as int));
                if keep(all[i as int]) {
                    assert(all.take(i + 1).filter(keep).map_values(path_of) =~= all.take(
                        i as int,
                    ).filter(keep).map_values(path_of).push(all[i as int].path@));
                }
            }
            i += 1;
        }
        proof {
            assert(listing.tree@.take(listing.tree@.len() as int) =~= listing.tree@);
        }
        kept
    }

    /// The route that lists the tree of the source's branch.
    pub fn tree_route(&self) -> (route: String)
        ensures
            route@ == "/repos/"@ + self.source.owner@ + "/"@ + self.source.repo@ + "/git/trees/"@
                + self.source.branch@ + "?recursive='true'"@,
    {
        let mut route = String::from_str("/repos/");
        route.append(self.source.owner.as_str());
        route.append("/");
        route.append(self.source.repo.as_str());
        route.append("/git/trees/");
        route.append(self.source.branch.as_str());
        route.append("?recursive='true'");
        route
    }

    /// The address of the raw content of the file at `path`.
    pub fn content_url(&self, path: &str) -> (url: String)
        ensures
            url@ == "https://raw.githubusercontent.com/"@ + self.source.owner@ + "/"@
                + self.source.repo@ + "/"@ + self.source.branch@ + "/"@ + path@,
    {
        let mut url = String::from_str("https://raw.githubusercontent.com/");
        url.append(self.source.owner.as_str());
        url.append("/");
        url.append(self.source.repo.as_str());
        url.append("/");
        url.append(self.source.branch.as_str());
        url.append("/");
        url.append(path);
        url
    }

    /// The document for the file at `path` whose content is `data`, not yet
    /// stored: its id is 0.
    pub fn document(&self, path: String, data: String, tokens_len: usize) -> (d: Document)
        ensures
            d.id == 0,
            d.source_id == self.source.id,
            d.collection_id == self.collection_id,
            d.path@ == path@,
            d.checksum == crc32(encode_utf8(data@)),
            d.tokens_len == tokens_len,
            d.data@ == data@,
    {
        let checksum = calculate_checksum(data.as_str());
        Document::new(self.source.id, self.collection_id, path, checksum, tokens_len, data)
    }
}

impl Document {
    /// A document that is not yet stored: its id is 0.
    pub fn new(
        source_id: i64,
        collection_id: i64,
        path: String,
        checksum: u32,
        tokens_len: usize,
        data: String,
    ) -> (d: Document)
        ensures
            d.id == 0,
            d.source_id == source_id,
            d.collection_id == collection_id,
            d.path@ == path@,
            d.checksum == checksum,
            d.tokens_len == tokens_len,
            d.data@ == data@,
    {
        Document { id: 0, source_id, collection_id, path, checksum, tokens_len, data }
    }
}

/// The CRC-32 checksum of a byte sequence.
pub uninterp spec fn crc32(bytes: Seq<u8>) -> u32;

/// Computes the checksum of a text with `crc32fast::hash` on its bytes. The
/// contract names the outcome and claims only that it is a function of the
/// bytes.
#[verifier::external_body]
fn calculate_checksum(s: &str) -> (sum: u32)
    ensures
        sum == crc32(encode_utf8(s@)),
{
    crc32fast::hash(s.as_bytes())
}

} // verus!
