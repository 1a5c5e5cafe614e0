//! Remote files: deciding from content hashes whether a file has to be
//! sent, and telling a file that was just downloaded from one that was
//! edited here.

use sha2::{Digest, Sha256};
use vstd::prelude::*;

verus! {

/// The SHA-256 digest of `data`, written as lower-case hexadecimal digits.
pub uninterp spec fn sha256_hex(data: Seq<u8>) -> Seq<char>;

/// Calls `sha2::Sha256` (`new`, `update`, `finalize`) on `data` and formats
/// the digest with `{:x}`. Believed, not proved: the result is the named
/// digest of the bytes, and it has 64 characters, two for each of the 32
/// bytes of a SHA-256 digest.
#[verifier::external_body]
fn hex_digest(data: &Vec<u8>) -> (hex: String)
    ensures
        hex@ == sha256_hex(data@),
        hex@.len() == 64,
{
    let mut hasher = Sha256::new();
    hasher.update(data);
    format!("{:x}", hasher.finalize())
}

/// The name of a file below the asset directory.
#[derive(Clone, Debug, PartialEq, Eq, Default)]
pub struct RemoteFileName(pub String);

/// The hash of a file's content as one side knows it; the empty string
/// where that side has no such file.
#[derive(Clone, Debug, PartialEq, Eq)]
pub struct RemoteFileHash {
    hash: String,
    file_name: RemoteFileName,
}

/// A file's content on its way between client and server.
#[derive(Clone, Debug, PartialEq, Eq, Default)]
pub struct RemoteFile {
    data: Vec<u8>,
    file_name: RemoteFileName,
}

/// The names of the files that were downloaded and whose change on disk
/// has not been noticed yet.
#[derive(Clone, Debug, Default)]
pub struct RemoteFileDownloads {
    pub file_names: Vec<RemoteFileName>,
}

/// The hash that stands for `contents`: the digest of a file that could
/// be read, the empty string for one that could not.
pub open spec fn hash_of(contents: Option<Seq<u8>>) -> Seq<char> {
    match contents {
        Some(data) => sha256_hex(data),
        None => Seq::empty(),
    }
}

/// The names of a list of files, in the same order.
pub open spec fn names_of(file_names: Seq<RemoteFileName>) -> Seq<Seq<char>> {
    Seq::new(file_names.len(), |i: int| file_names[i].0@)
}

impl RemoteFileHash {
    /// The hash, in hexadecimal digits.
    pub closed spec fn hash_view(&self) -> Seq<char> {
        self.hash@
    }

    /// The name of the file.
    pub closed spec fn name_view(&self) -> Seq<char> {
        self.file_name.0@
    }

    /// A hash as it came in from the other side.
    pub fn new(hash: String, file_name: RemoteFileName) -> (made: RemoteFileHash)
        ensures
            made.hash_view() == hash@,
            made.name_view() == file_name.0@,
    {
        RemoteFileHash { hash, file_name }
    }

    /// The hash, in hexadecimal digits.
    pub fn hash(&self) -> (hash: &String)
        ensures
            hash@ == self.hash_view(),
    {
        &self.hash
    }

    /// The name of the file.
    pub fn file_name(&self) -> (file_name: &RemoteFileName)
        ensures
            file_name.0@ == self.name_view(),
    {
        &self.file_name
    }
}

impl RemoteFile {
    /// The content.
    pub closed spec fn data_view(&self) -> Seq<u8> {
        self.data@
    }

    /// The name of the file.
    pub closed spec fn name_view(&self) -> Seq<char> {
        self.file_name.0@
    }

    /// A file with the given content.
    pub fn new(data: Vec<u8>, file_name: RemoteFileName) -> (made: RemoteFile)
        ensures
            made.data_view() == data@,
            made.name_view() == file_name.0@,
    {
        RemoteFile { data, file_name }
    }

    /// The content.
    pub fn data(&self) -> (data: &Vec<u8>)
        ensures
            data@ == self.data_view(),
    {
        &self.data
    }

    /// The name of the file.
    pub fn file_name(&self) -> (file_name: &RemoteFileName)
        ensures
            file_name.0@ == self.name_view(),
    {
        &self.file_name
    }
}

/// Hashes what one side has of a file: `contents` is what reading the
/// file gave, `None` where it could not be read. A file that could be
/// read never hashes to the empty string.
pub fn remotefile_get_hash(remote_file_name: RemoteFileName, contents: Option<&Vec<u8>>) -> (hash:
    RemoteFileHash)
    ensures
        hash.name_view() == remote_file_name.0@,
        hash.hash_view() == hash_of(
            match contents {
                Some(data) => Some(data@),
                None => None,
            },
        ),
        hash.hash_view().len() == 0 <==> contents is None,
{
    match contents {
        Some(data) => RemoteFileHash { hash: hex_digest(data), file_name: remote_file_name },
        None => RemoteFileHash { hash: String::new(), file_name: remote_file_name },
    }
}

/// Decides whether the server has to send its file to a client: it has
/// to exactly if the two sides' hashes differ.
pub fn remotefile_hash_check(server: &RemoteFileHash, client: &RemoteFileHash) -> (send: bool)
    ensures
        send == (server.hash_view() != client.hash_view()),
{
    !(server.hash == client.hash)
}

/// Notes that the file `file_name` was downloaded, so that the change on
/// disk that follows is not taken for an edit.
pub fn remotefile_download(downloads: &mut RemoteFileDownloads, file_name: RemoteFileName)
    ensures
        final(downloads).file_names@ == old(downloads).file_names@.push(file_name),
{
    downloads.file_names.push(file_name);
}

/// The record number `at` is the first one of the file `name`.
pub open spec fn is_first_record(names: Seq<Seq<char>>, name: Seq<char>, at: int) -> bool {
    &&& 0 <= at < names.len()
    &&& names[at] == name
    &&& forall|j: int| 0 <= j < at ==> names[j] != name
}

/// Decides what a change of `file_name` on disk calls for. If the file is
/// on record as downloaded, the change is that download: the first such
/// record is used up and nothing is to be uploaded. Otherwise the file was
/// edited here and is to be uploaded, and the records stay as they are.
pub fn remotefile_modified(downloads: &mut RemoteFileDownloads, file_name: &RemoteFileName) -> (upload:
    bool)
    ensures
        upload == !names_of(old(downloads).file_names@).contains(file_name.0@),
        upload ==> final(downloads).file_names@ == old(downloads).file_names@,
        !upload ==> exists|at: int|
            is_first_record(names_of(old(downloads).file_names@), file_name.0@, at)
                && final(downloads).file_names@ == old(downloads).file_names@.remove(at),
{
    let mut i: usize = 0;
    while i < downloads.file_names.len()
        invariant
            0 <= i <= downloads.file_names@.len(),
            downloads.file_names@ == old(downloads).file_names@,
            forall|j: int| 0 <= j < i ==> downloads.file_names@[j].0@ != file_name.0@,
        decreases downloads.file_names@.len() - i,
    {
        if downloads.file_names[i].0 == file_name.0 {
            proof {
                let names = names_of(downloads.file_names@);
                assert(is_first_record(names, file_name.0@, i as int));
            }
            downloads.file_names.remove(i);
            return false;
        }
        i = i + 1;
    }
    true
}

} // verus!
