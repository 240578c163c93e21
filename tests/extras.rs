use green::extras::{curseforge_url, decimal, install_jars};
use green::resolver::ResolvedJar;
use green::tree::Directory;

#[test]
fn decimal_digits() {
    assert_eq!(decimal(0), "0");
    assert_eq!(decimal(7), "7");
    assert_eq!(decimal(4021), "4021");
    assert_eq!(decimal(u32::MAX), "4294967295");
}

#[test]
fn curseforge_template() {
    let u = curseforge_url(4021, 97, &"jei.jar".to_string());
    assert_eq!(u, "https://mediafilez.forgecdn.net/files/4021/97/jei.jar");
}

#[test]
fn later_jar_wins() {
    let jars = vec![
        ResolvedJar { filename: "x.jar".to_string(), url: "u1".to_string() },
        ResolvedJar { filename: "y.jar".to_string(), url: "u2".to_string() },
        ResolvedJar { filename: "x.jar".to_string(), url: "u3".to_string() },
    ];
    let contents = vec![b"one".to_vec(), b"two".to_vec(), b"abc".to_vec()];
    let mut mods = Directory::new();
    install_jars(&mut mods, &jars, &contents);
    assert_eq!(mods.files.len(), 2);
    assert_eq!(mods.files[0].name, "x.jar");
    assert_eq!(mods.files[0].file.url, "u3");
    assert_eq!(mods.files[0].file.sha, "ba7816bf8f01cfea414140de5dae2223b00361a396177a9cb410ff61f20015ad");
}
