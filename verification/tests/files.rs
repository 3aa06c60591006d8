use memedb::files::{content_hash, image_url, path_extension, storage_path, upload_extension};
use std::path::Path;

#[test]
fn extensions_follow_the_last_dot_of_the_file_name() {
    assert_eq!(path_extension("cat.jpg"), Some("jpg".to_string()));
    assert_eq!(path_extension("a.tar.gz"), Some("gz".to_string()));
    assert_eq!(path_extension(".bashrc"), None);
    assert_eq!(path_extension("README"), None);
    assert_eq!(path_extension("x."), Some(String::new()));
    assert_eq!(path_extension("dir/cat.png"), Some("png".to_string()));
    assert_eq!(path_extension("dir.d/file"), None);
    assert_eq!(path_extension("photo.jpg/"), Some("jpg".to_string()));
    assert_eq!(path_extension("a/.."), None);
    assert_eq!(path_extension(".."), None);
    assert_eq!(path_extension("/"), None);
    assert_eq!(path_extension(""), None);
}

#[test]
fn extensions_agree_with_std_path() {
    let names = [
        "cat.jpg", "a.tar.gz", ".bashrc", "README", "x.", "...", "..", ".", "./", "./a.b",
        "a/./", "a/.", "dir/cat.png", "dir.d/file", "//x.y//", "/", "", "a/..", "a/../b.c",
        "猫.gif", "..a", "a..b", ".a.b",
    ];
    for n in names {
        let expected = Path::new(n).extension().and_then(|e| e.to_str()).map(|e| e.to_string());
        assert_eq!(path_extension(n), expected, "for {:?}", n);
    }
}

#[test]
fn uploads_default_to_bin() {
    assert_eq!(upload_extension(None), "bin");
    assert_eq!(upload_extension(Some("cat.JPG")), "JPG");
    assert_eq!(upload_extension(Some("noext")), "bin");
    assert_eq!(upload_extension(Some(".hidden")), "bin");
    assert_eq!(upload_extension(Some("weird.")), "");
}

#[test]
fn content_is_named_by_its_sha256_in_lower_hex() {
    assert_eq!(
        content_hash(b""),
        "e3b0c44298fc1c149afbf4c8996fb92427ae41e4649b934ca495991b7852b855"
    );
    assert_eq!(
        content_hash(b"abc"),
        "ba7816bf8f01cfea414140de5dae2223b00361a396177a9cb410ff61f20015ad"
    );
    let name = content_hash(&[0u8, 255, 16, 1]);
    assert_eq!(name.len(), 64);
    assert!(name.chars().all(|c| c.is_ascii_digit() || ('a'..='f').contains(&c)));
}

#[test]
fn identical_content_gets_the_same_name() {
    let a = content_hash(b"meme bytes");
    let b = content_hash(b"meme bytes");
    let c = content_hash(b"other bytes");
    assert_eq!(a, b);
    assert_ne!(a, c);
}

#[test]
fn paths_and_urls() {
    assert_eq!(storage_path("abc123", "jpg"), "storage/abc123.jpg");
    assert_eq!(image_url("abc123", "jpg"), "http://localhost:1234/images/abc123.jpg");
    assert_eq!(storage_path("abc", ""), "storage/abc.");
}
