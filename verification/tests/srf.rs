use nimble::legacy_srf::{deserialize_legacy_srf, LegacyParse};
use nimble::md5_digest::{digest_bytes, Md5Digest};
use nimble::srf::{compute_checksum, scan_dir, scan_mod, File, Mod, ScanError};
use nimble::srf_json::{extract_checksum, is_legacy_srf, to_json, PartialChecksum};

fn file(path: &str, content: &[u8]) -> File {
    File::new(path.to_string(), content.len() as u64, digest_bytes(content))
}

#[test]
fn scan_single_file_digest() {
    let m = scan_mod("@a", &vec![file("x.bin", b"hi")]).unwrap();
    assert_eq!(m.name, "@a");
    assert_eq!(m.files.len(), 1);
    assert_eq!(m.files[0].path, "x.bin");
    assert_eq!(m.files[0].length, 2);
    assert_eq!(m.files[0].checksum.to_hex(), "49f68a5c8493ec2c0bf489821c21fc3b");
    assert_eq!(m.checksum.to_hex(), "5ea795b4fd38a3bfd0f4c98e385a90a5");
    assert!(m.is_consistent());
}

#[test]
fn scan_empty_mod_digest_comes_from_name() {
    let m = scan_mod("@a", &Vec::new()).unwrap();
    assert!(m.files.is_empty());
    assert_eq!(m.checksum.to_hex(), "274dcbd5ee7612df805c0fa1df739f03");
    assert!(!m.checksum.is_zero());
    assert_eq!(m.checksum, digest_bytes(b"@a"));
    let other = scan_mod("@b", &Vec::new()).unwrap();
    assert_ne!(m.checksum, other.checksum);
}

#[test]
fn scan_records_zero_length_file() {
    let m = scan_mod("@a", &vec![file("empty.txt", b"")]).unwrap();
    assert_eq!(m.files[0].length, 0);
    assert_eq!(m.files[0].checksum.to_hex(), "d41d8cd98f00b204e9800998ecf8427e");
}

#[test]
fn scan_sorts_by_lowercased_path_and_keeps_case() {
    let found = vec![file("x.bin", b"hi"), file("Addons\\B.pbo", b"")];
    let m = scan_mod("@a", &found).unwrap();
    assert_eq!(m.files[0].path, "Addons/B.pbo");
    assert_eq!(m.files[1].path, "x.bin");
    assert_eq!(m.checksum.to_hex(), "41445a493af3491d1bfef6bab3393efd");
}

#[test]
fn scan_is_independent_of_enumeration_order() {
    let one = vec![file("b.txt", b"1"), file("a.txt", b"2"), file("C/d.txt", b"3")];
    let two = vec![file("C/d.txt", b"3"), file("b.txt", b"1"), file("a.txt", b"2")];
    let m1 = scan_mod("@m", &one).unwrap();
    let m2 = scan_mod("@m", &two).unwrap();
    assert_eq!(m1.checksum, m2.checksum);
    let at1: Vec<&str> = m1.files.iter().map(|f| f.path.as_str()).collect();
    let at2: Vec<&str> = m2.files.iter().map(|f| f.path.as_str()).collect();
    assert_eq!(at1, vec!["a.txt", "b.txt", "C/d.txt"]);
    assert_eq!(at1, at2);
}

#[test]
fn scan_digest_changes_with_content() {
    let m1 = scan_mod("@a", &vec![file("x.bin", b"hi")]).unwrap();
    let m2 = scan_mod("@a", &vec![file("x.bin", b"bye")]).unwrap();
    assert_ne!(m1.checksum, m2.checksum);
    assert_eq!(m2.checksum.to_hex(), "6710ee3bbf0b5c4dce89c07a748f2138");
}

#[test]
fn scan_skips_manifest_file() {
    let found = vec![file("mod.srf", b"{}"), file("x.bin", b"hi")];
    let m = scan_mod("@a", &found).unwrap();
    assert_eq!(m.files.len(), 1);
    assert_eq!(m.files[0].path, "x.bin");
    assert_eq!(m.checksum.to_hex(), "5ea795b4fd38a3bfd0f4c98e385a90a5");
}

#[test]
fn scan_surfaces_case_conflict() {
    let found = vec![file("Data/File.txt", b"1"), file("data/file.TXT", b"2")];
    assert_eq!(scan_mod("@a", &found).err(), Some(ScanError::CaseConflict));
    let slashes = vec![file("a\\b", b"1"), file("a/b", b"2")];
    assert_eq!(scan_mod("@a", &slashes).err(), Some(ScanError::CaseConflict));
}

#[test]
fn compute_checksum_matches_scan() {
    let m = scan_mod("@a", &vec![file("x.bin", b"hi"), file("y.bin", b"bye")]).unwrap();
    assert_eq!(compute_checksum("@a", &m.files), m.checksum);
}

#[test]
fn generate_invalid_is_zero_and_empty() {
    let remote = scan_mod("@a", &vec![file("x.bin", b"hi")]).unwrap();
    let stub = Mod::generate_invalid(&remote);
    assert_eq!(stub.name, "@a");
    assert!(stub.checksum.is_zero());
    assert!(stub.files.is_empty());
}

#[test]
fn to_json_exact_text() {
    let m = scan_mod("@a", &vec![file("x.bin", b"hi")]).unwrap();
    assert_eq!(
        to_json(&m),
        "{\"Checksum\":\"5ea795b4fd38a3bfd0f4c98e385a90a5\",\"Name\":\"@a\",\"Files\":[{\"Path\":\"x.bin\",\"Length\":2,\"Checksum\":\"49f68a5c8493ec2c0bf489821c21fc3b\"}]}"
    );
    let empty = scan_mod("@a", &Vec::new()).unwrap();
    assert_eq!(
        to_json(&empty),
        "{\"Checksum\":\"274dcbd5ee7612df805c0fa1df739f03\",\"Name\":\"@a\",\"Files\":[]}"
    );
}

#[test]
fn to_json_escapes_strings() {
    let m = Mod {
        name: "a\"b\\c\n".to_string(),
        checksum: Md5Digest::invalid(),
        files: Vec::new(),
    };
    assert_eq!(
        to_json(&m),
        "{\"Checksum\":\"00000000000000000000000000000000\",\"Name\":\"a\\\"b\\\\c\\u000a\",\"Files\":[]}"
    );
}

#[test]
fn to_json_is_valid_json_with_the_same_content() {
    let m = scan_mod("@a", &vec![file("x.bin", b"hi"), file("dir/y \"q\".bin", b"bye")]).unwrap();
    let v: serde_json::Value = serde_json::from_str(&to_json(&m)).unwrap();
    assert_eq!(v["Name"].as_str(), Some("@a"));
    assert_eq!(v["Checksum"].as_str(), Some(m.checksum.to_hex().as_str()));
    let files = v["Files"].as_array().unwrap();
    assert_eq!(files.len(), 2);
    assert_eq!(files[0]["Path"].as_str(), Some("dir/y \"q\".bin"));
    assert_eq!(files[0]["Length"].as_u64(), Some(3));
    assert_eq!(files[1]["Path"].as_str(), Some("x.bin"));
    assert_eq!(
        files[1]["Checksum"].as_str(),
        Some("49f68a5c8493ec2c0bf489821c21fc3b")
    );
}

#[test]
fn partial_extract_reads_serialized_manifest() {
    let mut found = Vec::new();
    for i in 0..40 {
        found.push(file(&format!("addons/file_{}.pbo", i), format!("{}", i).as_bytes()));
    }
    let m = scan_mod("@big", &found).unwrap();
    let text = to_json(&m);
    assert!(text.len() > 512);
    assert_eq!(extract_checksum(&text[..512]), Ok(m.checksum));
    assert_eq!(extract_checksum(&text[..46]), Ok(m.checksum));
    assert_eq!(extract_checksum(&text), Ok(m.checksum));
}

#[test]
fn partial_extract_accepts_bom_case_and_spaces() {
    let d = Md5Digest::new("5ea795b4fd38a3bfd0f4c98e385a90a5").unwrap();
    assert_eq!(
        extract_checksum("\u{feff}  {\"Name\":\"@a\",\"checksum\" : \"5EA795B4FD38A3BFD0F4C98E385A90A5\",\"Fi"),
        Ok(d)
    );
    assert_eq!(
        extract_checksum("{\"CHECKSUM\":\"5ea795b4fd38a3bfd0f4c98e385a90a5\""),
        Ok(d)
    );
}

#[test]
fn partial_extract_error_variants() {
    assert_eq!(extract_checksum("ADDON"), Err(PartialChecksum::NoJsonStart));
    assert_eq!(extract_checksum(""), Err(PartialChecksum::NoJsonStart));
    assert_eq!(
        extract_checksum("{\"Name\":\"@a\"}"),
        Err(PartialChecksum::NoChecksumField)
    );
    assert_eq!(
        extract_checksum("{\"Checksum\":\"abc\"}"),
        Err(PartialChecksum::InvalidLength)
    );
    assert_eq!(
        extract_checksum("{\"Checksum\":\"zz1d8cd98f00b204e9800998ecf8427e\"}"),
        Err(PartialChecksum::NonHex)
    );
    assert_eq!(
        extract_checksum("{\"Checksum\" \"d41d8cd98f00b204e9800998ecf8427e\"}"),
        Err(PartialChecksum::Malformed)
    );
    assert_eq!(
        extract_checksum("{\"Checksum\":12}"),
        Err(PartialChecksum::Malformed)
    );
    assert_eq!(
        extract_checksum("{\"Checksum\":\"d41d8cd98f00b204e98"),
        Err(PartialChecksum::Malformed)
    );
}

#[test]
fn format_detection() {
    assert!(!is_legacy_srf("{\"Name\":\"@a\"}"));
    assert!(!is_legacy_srf("\u{feff} \r\n\t{"));
    assert!(is_legacy_srf("ADDON:1:"));
    assert!(is_legacy_srf(""));
    assert!(is_legacy_srf("   "));
    assert!(is_legacy_srf("[1]"));
}

#[test]
fn legacy_manifest_parses() {
    let text = "ADDON:1:5ea795b4fd38a3bfd0f4c98e385a90a5:@a\r\n2:49f68a5c8493ec2c0bf489821c21fc3b:x.bin\n\n3:BFA99DF33B137BC8FB5F5407D7E58DA8:dir/y:z.bin";
    let m = deserialize_legacy_srf(text).unwrap();
    assert_eq!(m.name, "@a");
    assert_eq!(m.checksum.to_hex(), "5ea795b4fd38a3bfd0f4c98e385a90a5");
    assert_eq!(m.files.len(), 2);
    assert_eq!(m.files[0].path, "x.bin");
    assert_eq!(m.files[0].length, 2);
    assert_eq!(m.files[0].checksum, digest_bytes(b"hi"));
    assert_eq!(m.files[1].path, "dir/y:z.bin");
    assert_eq!(m.files[1].length, 3);
    assert_eq!(m.files[1].checksum, digest_bytes(b"bye"));
}

#[test]
fn legacy_manifest_equals_scanned_manifest() {
    let scanned = scan_mod("@a", &vec![file("x.bin", b"hi")]).unwrap();
    let legacy = deserialize_legacy_srf(
        "\u{feff}ADDON:1:5ea795b4fd38a3bfd0f4c98e385a90a5:@a\n2:49f68a5c8493ec2c0bf489821c21fc3b:x.bin\n",
    )
    .unwrap();
    assert_eq!(legacy.name, scanned.name);
    assert_eq!(legacy.checksum, scanned.checksum);
    assert_eq!(legacy.files.len(), scanned.files.len());
    assert_eq!(legacy.files[0].path, scanned.files[0].path);
    assert_eq!(legacy.files[0].length, scanned.files[0].length);
    assert_eq!(legacy.files[0].checksum, scanned.files[0].checksum);
    assert_eq!(to_json(&legacy), to_json(&scanned));
}

#[test]
fn legacy_manifest_error_variants() {
    assert_eq!(deserialize_legacy_srf("").err(), Some(LegacyParse::BadMagic));
    assert_eq!(
        deserialize_legacy_srf("ADDON:2:5ea795b4fd38a3bfd0f4c98e385a90a5:@a").err(),
        Some(LegacyParse::BadMagic)
    );
    assert_eq!(
        deserialize_legacy_srf("ADDON:1:5ea795b4fd38a3bfd0f4c98e385a90a5").err(),
        Some(LegacyParse::MissingField)
    );
    assert_eq!(
        deserialize_legacy_srf("ADDON:1:5ea795b4fd38a3bfd0f4c98e385a90a5:").err(),
        Some(LegacyParse::MissingField)
    );
    assert_eq!(
        deserialize_legacy_srf("ADDON:1:5ea795b4fd38a3bfd0f4c98e385a90ag:@a").err(),
        Some(LegacyParse::BadChecksum)
    );
    assert_eq!(
        deserialize_legacy_srf("ADDON:1:5ea795b4fd38a3bfd0f4c98e385a90a5:@a\nx:49f68a5c8493ec2c0bf489821c21fc3b:x.bin").err(),
        Some(LegacyParse::BadLength)
    );
    assert_eq!(
        deserialize_legacy_srf("ADDON:1:5ea795b4fd38a3bfd0f4c98e385a90a5:@a\n99999999999999999999:49f68a5c8493ec2c0bf489821c21fc3b:x.bin").err(),
        Some(LegacyParse::BadLength)
    );
    assert_eq!(
        deserialize_legacy_srf("ADDON:1:5ea795b4fd38a3bfd0f4c98e385a90a5:@a\n2:49f68a5c8493ec2c0bf489821c21fc3b:").err(),
        Some(LegacyParse::MissingField)
    );
    assert_eq!(
        deserialize_legacy_srf("ADDON:1:5ea795b4fd38a3bfd0f4c98e385a90a5:@a\nno colon here").err(),
        Some(LegacyParse::MissingField)
    );
}

#[test]
fn scan_of_what_is_no_directory_fails() {
    assert_eq!(
        scan_dir("@a", false, &Vec::new()).err(),
        Some(ScanError::NotADirectory)
    );
    assert_eq!(
        scan_dir("@a", false, &vec![file("A", b"1"), file("a", b"2")]).err(),
        Some(ScanError::NotADirectory)
    );
    assert_eq!(
        scan_dir("@a", true, &vec![file("A", b"1"), file("a", b"2")]).err(),
        Some(ScanError::CaseConflict)
    );
    let m = scan_dir("@a", true, &vec![file("x.bin", b"hi")]).unwrap();
    assert_eq!(m.checksum.to_hex(), "5ea795b4fd38a3bfd0f4c98e385a90a5");
}
