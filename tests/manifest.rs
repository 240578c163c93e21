use green::manifest::{build_directory, child_base, digest_hex, file_entry, BuildError, SourceDir, SourceFile, SourceSubdir};

const ABC_SHA: &str = "ba7816bf8f01cfea414140de5dae2223b00361a396177a9cb410ff61f20015ad";
const EMPTY_SHA: &str = "e3b0c44298fc1c149afbf4c8996fb92427ae41e4649b934ca495991b7852b855";

#[test]
fn digest_of_known_inputs() {
    assert_eq!(digest_hex(&b"abc".to_vec()), ABC_SHA);
    assert_eq!(digest_hex(&Vec::new()), EMPTY_SHA);
}

#[test]
fn file_entry_joins_url_and_hashes() {
    let e = file_entry(&"https://example.com/pack/".to_string(), &"a.jar".to_string(), &b"abc".to_vec()).unwrap();
    assert_eq!(e.url, "https://example.com/pack/a.jar");
    assert_eq!(e.sha, ABC_SHA);
}

#[test]
fn relative_base_is_refused() {
    let r = file_entry(&"not a url".to_string(), &"a.jar".to_string(), &Vec::new());
    assert_eq!(r, Err(BuildError::BadUrl { name: "a.jar".to_string() }));
}

#[test]
fn child_base_keeps_trailing_slash() {
    let b = child_base(&"https://example.com/pack/".to_string(), &"mods".to_string()).unwrap();
    assert_eq!(b, "https://example.com/pack/mods/");
}

#[test]
fn build_directory_hashes_every_file() {
    let src = SourceDir {
        files: vec![SourceFile { name: "top.txt".to_string(), contents: Vec::new() }],
        dirs: vec![SourceSubdir {
            name: "mods".to_string(),
            dir: SourceDir {
                files: vec![SourceFile { name: "a.jar".to_string(), contents: b"abc".to_vec() }],
                dirs: vec![],
            },
        }],
    };
    let d = build_directory(&src, &"https://example.com/pack/".to_string()).unwrap();
    assert_eq!(d.files[0].file.sha, EMPTY_SHA);
    assert_eq!(d.files[0].file.url, "https://example.com/pack/top.txt");
    assert_eq!(d.children[0].name, "mods");
    assert_eq!(d.children[0].dir.files[0].file.sha, ABC_SHA);
    assert_eq!(d.children[0].dir.files[0].file.url, "https://example.com/pack/mods/a.jar");
}
