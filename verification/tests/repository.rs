use nimble::md5_digest::{InvalidDigest, Md5Digest};
use nimble::repository::{
    deserialize_checksum, deserialize_number_from_string, make_repo_file_url, make_repo_json_url,
    normalize_repo_url, InvalidNumber, Mod, Repository,
};

fn test_repository() -> Repository {
    let mut repo = Repository::default();
    repo.repo_name = "Test Repository".to_string();
    repo.required_mods = vec![
        Mod {
            mod_name: "@test_mod1".to_string(),
            checksum: Md5Digest::default(),
            enabled: true,
        },
        Mod {
            mod_name: "@test_mod2".to_string(),
            checksum: Md5Digest::default(),
            enabled: true,
        },
    ];
    repo
}

#[test]
fn repository_defaults() {
    let repo = Repository::default();
    assert_eq!(repo.repo_name, "");
    assert!(repo.checksum.is_zero());
    assert_eq!(repo.version, "1.0.0");
    assert_eq!(repo.client_parameters, "-noPause -noSplash -skipIntro");
    assert!(repo.repo_basic_authentication.is_none());
    assert!(repo.required_mods.is_empty());
    assert!(repo.optional_mods.is_empty());
    assert!(repo.servers.is_empty());
}

#[test]
fn repository_checksum_exact_value() {
    let mut repo = test_repository();
    repo.compute_checksum();
    assert_eq!(repo.checksum.to_hex(), "3e7c40443eebb461f45370df05781477");
    assert_eq!(repo.required_mods.len(), 2);
    assert_eq!(repo.version, "1.0.0");
}

#[test]
fn repository_checksum_depends_on_order_and_fields() {
    let mut a = test_repository();
    a.compute_checksum();
    let mut b = test_repository();
    b.required_mods.swap(0, 1);
    b.compute_checksum();
    assert_ne!(a.checksum, b.checksum);
    let mut c = test_repository();
    c.version = "1.0.1".to_string();
    c.compute_checksum();
    assert_ne!(a.checksum, c.checksum);
    let mut d = test_repository();
    let moved = d.required_mods.pop().unwrap();
    d.optional_mods.push(moved);
    d.compute_checksum();
    assert_eq!(a.checksum, d.checksum);
}

#[test]
fn checksum_of_manifest_is_truncated_to_32() {
    let d = Md5Digest::new("5ea795b4fd38a3bfd0f4c98e385a90a5").unwrap();
    assert_eq!(deserialize_checksum("5ea795b4fd38a3bfd0f4c98e385a90a5"), Ok(d));
    assert_eq!(
        deserialize_checksum("5EA795B4FD38A3BFD0F4C98E385A90A5-20240101T000000"),
        Ok(d)
    );
    assert_eq!(deserialize_checksum("5ea7"), Err(InvalidDigest::Length));
    assert_eq!(
        deserialize_checksum("5ea795b4fd38a3bfd0f4c98e385a90aZ"),
        Err(InvalidDigest::NonHex)
    );
    assert_eq!(
        deserialize_checksum("xxa795b4fd38a3bfd0f4c98e385a90a5 and more"),
        Err(InvalidDigest::NonHex)
    );
}

#[test]
fn port_from_string() {
    assert_eq!(deserialize_number_from_string("2302"), Ok(2302));
    assert_eq!(deserialize_number_from_string("+80"), Ok(80));
    assert_eq!(deserialize_number_from_string("0"), Ok(0));
    assert_eq!(deserialize_number_from_string("00065535"), Ok(65535));
    assert_eq!(deserialize_number_from_string("65536"), Err(InvalidNumber::TooLarge));
    assert_eq!(
        deserialize_number_from_string("99999999999999999999999"),
        Err(InvalidNumber::TooLarge)
    );
    assert_eq!(deserialize_number_from_string(""), Err(InvalidNumber::Empty));
    assert_eq!(deserialize_number_from_string("+"), Err(InvalidNumber::Empty));
    assert_eq!(deserialize_number_from_string("23a2"), Err(InvalidNumber::NotADigit));
    assert_eq!(deserialize_number_from_string("-1"), Err(InvalidNumber::NotADigit));
    assert_eq!(deserialize_number_from_string(" 1"), Err(InvalidNumber::NotADigit));
    for text in ["2302", "+80", "65536", "", "+", "-1", " 1", "007", "1 "] {
        assert_eq!(
            deserialize_number_from_string(text).ok(),
            text.parse::<u16>().ok()
        );
    }
}

#[test]
fn repository_urls() {
    assert_eq!(normalize_repo_url("http://host/repo"), "http://host/repo/");
    assert_eq!(normalize_repo_url("http://host/repo///"), "http://host/repo/");
    assert_eq!(normalize_repo_url(""), "/");
    assert_eq!(
        make_repo_file_url("http://host/repo/", "/@a/mod.srf"),
        "http://host/repo/@a/mod.srf"
    );
    assert_eq!(
        make_repo_file_url("http://host/repo", "@a\\addons\\x.pbo"),
        "http://host/repo/@a/addons/x.pbo"
    );
    assert_eq!(make_repo_file_url("@a/", "x.bin"), "@a/x.bin");
    assert_eq!(make_repo_json_url("http://host/repo"), "http://host/repo/repo.json");
    assert_eq!(make_repo_json_url("http://host/repo/"), "http://host/repo/repo.json");
    assert_eq!(
        make_repo_json_url("http://host/repo/repo.json"),
        "http://host/repo/repo.json"
    );
    assert_eq!(
        make_repo_json_url("http://host/repo/repo.json/"),
        "http://host/repo/repo.json"
    );
}
