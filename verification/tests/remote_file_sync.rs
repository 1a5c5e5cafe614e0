use interest_management::remote_file::{
    remotefile_download, remotefile_get_hash, remotefile_hash_check, remotefile_modified,
    RemoteFile, RemoteFileDownloads, RemoteFileHash, RemoteFileName,
};

fn name(text: &str) -> RemoteFileName {
    RemoteFileName(text.to_string())
}

#[test]
fn hash_of_known_contents() {
    let abc = b"abc".to_vec();
    let hash = remotefile_get_hash(name("map_0.tmx"), Some(&abc));
    assert_eq!(
        hash.hash().as_str(),
        "ba7816bf8f01cfea414140de5dae2223b00361a396177a9cb410ff61f20015ad"
    );
    assert_eq!(hash.file_name(), &name("map_0.tmx"));
    let empty: Vec<u8> = Vec::new();
    let hash = remotefile_get_hash(name("empty"), Some(&empty));
    assert_eq!(
        hash.hash().as_str(),
        "e3b0c44298fc1c149afbf4c8996fb92427ae41e4649b934ca495991b7852b855"
    );
    assert_eq!(hash.hash().len(), 64);
}

#[test]
fn hash_of_a_missing_file_is_empty() {
    let hash = remotefile_get_hash(name("gone.lua"), None);
    assert_eq!(hash.hash().as_str(), "");
    assert_eq!(hash.file_name(), &name("gone.lua"));
}

#[test]
fn file_is_sent_exactly_when_hashes_differ() {
    let one = b"one".to_vec();
    let two = b"two".to_vec();
    let server = remotefile_get_hash(name("a"), Some(&one));
    let same = remotefile_get_hash(name("a"), Some(&one));
    let other = remotefile_get_hash(name("a"), Some(&two));
    let missing = remotefile_get_hash(name("a"), None);
    assert!(!remotefile_hash_check(&server, &same));
    assert!(remotefile_hash_check(&server, &other));
    assert!(remotefile_hash_check(&server, &missing));
    assert!(!remotefile_hash_check(&missing, &RemoteFileHash::new(String::new(), name("a"))));
    let claimed = RemoteFileHash::new(server.hash().clone(), name("a"));
    assert!(!remotefile_hash_check(&server, &claimed));
}

#[test]
fn a_downloaded_file_is_not_uploaded_again() {
    let mut downloads = RemoteFileDownloads::default();
    assert!(remotefile_modified(&mut downloads, &name("a")));
    assert!(downloads.file_names.is_empty());
    remotefile_download(&mut downloads, name("a"));
    remotefile_download(&mut downloads, name("b"));
    remotefile_download(&mut downloads, name("a"));
    assert_eq!(downloads.file_names, vec![name("a"), name("b"), name("a")]);
    assert!(remotefile_modified(&mut downloads, &name("c")));
    assert_eq!(downloads.file_names, vec![name("a"), name("b"), name("a")]);
    assert!(!remotefile_modified(&mut downloads, &name("a")));
    assert_eq!(downloads.file_names, vec![name("b"), name("a")]);
    assert!(!remotefile_modified(&mut downloads, &name("a")));
    assert_eq!(downloads.file_names, vec![name("b")]);
    assert!(remotefile_modified(&mut downloads, &name("a")));
    assert!(!remotefile_modified(&mut downloads, &name("b")));
    assert!(downloads.file_names.is_empty());
}

#[test]
fn remote_file_keeps_what_it_was_given() {
    let file = RemoteFile::new(vec![1, 2, 3], name("x"));
    assert_eq!(file.data(), &vec![1, 2, 3]);
    assert_eq!(file.file_name(), &name("x"));
    let none = RemoteFile::default();
    assert!(none.data().is_empty());
    assert_eq!(none.file_name(), &RemoteFileName::default());
}
