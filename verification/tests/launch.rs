use nimble::commands::launch::{
    convert_host_base_path_to_proton_base_path, game_base_path, generate_mod_args, launch_url,
    mod_args_for, Error,
};
use nimble::md5_digest::Md5Digest;
use nimble::mod_cache::ModCache;
use nimble::srf::Mod;

#[test]
fn launch_test_proton_path_conversion() {
    // on windows, this should do nothing
    let original_path = String::from("C:\\random\\paths\\drive_c\\banana_repo");
    let converted = game_base_path(&original_path, true).unwrap();

    assert_eq!(original_path, converted);
}

#[test]
fn test_proton_path_conversion() {
    let original_path = String::from("/home/random/paths/drive_c/banana_repo");
    let converted = convert_host_base_path_to_proton_base_path(&original_path).unwrap();

    assert_eq!(converted, String::from("c:/banana_repo"));
    assert_eq!(game_base_path(&original_path, false).unwrap(), "c:/banana_repo");
}

#[test]
fn proton_path_takes_last_drive_c() {
    assert_eq!(
        convert_host_base_path_to_proton_base_path("/a/drive_c/b/drive_c/c/d/").unwrap(),
        "c:/c/d"
    );
    assert_eq!(
        convert_host_base_path_to_proton_base_path("/pfx/drive_c").unwrap(),
        "c:/"
    );
    assert_eq!(
        convert_host_base_path_to_proton_base_path("/pfx//drive_c/./x").unwrap(),
        "c:/x"
    );
}

#[test]
fn proton_path_without_drive_c_fails() {
    assert_eq!(
        convert_host_base_path_to_proton_base_path("/home/user/mods"),
        Err(Error::FailedToFindDriveC)
    );
    assert_eq!(
        convert_host_base_path_to_proton_base_path("/home/my_drive_c/mods"),
        Err(Error::FailedToFindDriveC)
    );
    assert_eq!(
        convert_host_base_path_to_proton_base_path(""),
        Err(Error::FailedToFindDriveC)
    );
}

#[test]
fn mod_args_exact_text() {
    let names = vec!["@ace".to_string(), "@cba_a3".to_string()];
    assert_eq!(
        mod_args_for("c:/mods", &names, None),
        "-noLauncher -mod=c:/mods/@ace;c:/mods/@cba_a3;"
    );
    assert_eq!(
        mod_args_for("C:\\mods\\", &names, Some("  -noSplash -skipIntro ")),
        "-noLauncher -noSplash -skipIntro -mod=C:/mods/@ace;C:/mods/@cba_a3;"
    );
    assert_eq!(mod_args_for("c:/mods", &Vec::new(), None), "-noLauncher");
    assert_eq!(
        mod_args_for("c:/mods", &Vec::new(), Some("-window")),
        "-noLauncher -window"
    );
}

#[test]
fn mod_args_from_cache_lists_every_mod_once() {
    let mut cache = ModCache::new_empty();
    cache.insert(Mod {
        name: "@a".to_string(),
        checksum: Md5Digest::from_value(1),
        files: Vec::new(),
    });
    cache.insert(Mod {
        name: "@b".to_string(),
        checksum: Md5Digest::from_value(2),
        files: Vec::new(),
    });
    let args = generate_mod_args("c:/m", &cache, None);
    assert!(
        args == "-noLauncher -mod=c:/m/@a;c:/m/@b;" || args == "-noLauncher -mod=c:/m/@b;c:/m/@a;"
    );
    assert_eq!(generate_mod_args("c:/m", &ModCache::new_empty(), None), "-noLauncher");
}

#[test]
fn launch_url_encodes_what_the_launcher_needs() {
    assert_eq!(
        launch_url("-noLauncher -mod=c:/mods/@ace;"),
        "steam://run/107410//-noLauncher%20-mod=c:/mods/@ace;/"
    );
    assert_eq!(
        launch_url("a\"b%c<d>e\\f^g`h{i|j}k\u{7f}\n"),
        "steam://run/107410//a%22b%25c%3Cd%3Ee%5Cf%5Eg%60h%7Bi%7Cj}k%7F%0A/"
    );
    assert_eq!(launch_url("é"), "steam://run/107410//%C3%A9/");
    assert_eq!(launch_url(""), "steam://run/107410///");
}

#[test]
fn launch_url_agrees_with_percent_encoding_crate() {
    const SET: &percent_encoding::AsciiSet = &percent_encoding::CONTROLS
        .add(b' ')
        .add(b'"')
        .add(b'%')
        .add(b'<')
        .add(b'>')
        .add(b'\\')
        .add(b'^')
        .add(b'`')
        .add(b'{')
        .add(b'|');
    let mut all = String::new();
    for b in 0u8..128 {
        all.push(b as char);
    }
    all.push_str("ünï©ødé 漢字");
    let expected = format!(
        "steam://run/107410//{}/",
        percent_encoding::utf8_percent_encode(&all, SET)
    );
    assert_eq!(launch_url(&all), expected);
}
