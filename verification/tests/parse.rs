use nimble::legacy_srf::LegacyParse;
use nimble::md5_digest::{digest_bytes, Md5Digest};
use nimble::srf::{scan_mod, File, Mod};
use nimble::srf_json::to_json;
use nimble::srf_parse::{parse, parse_json, Error, ParseError};

fn file(path: &str, content: &[u8]) -> File {
    File::new(path.to_string(), content.len() as u64, digest_bytes(content))
}

fn same(a: &Mod, b: &Mod) -> bool {
    a.name == b.name
        && a.checksum == b.checksum
        && a.files.len() == b.files.len()
        && a.files
            .iter()
            .zip(b.files.iter())
            .all(|(x, y)| x.path == y.path && x.length == y.length && x.checksum == y.checksum)
}

#[test]
fn scan_write_parse_round_trip() {
    let found = vec![
        file("x.bin", b"hi"),
        file("Addons\\Main.pbo", b""),
        file("docs/read \"me\".txt", b"quoted"),
        file("tab\there", b"t"),
        file("ünï/漢字.txt", b"u"),
    ];
    let m = scan_mod("@a \\ \"b\"", &found).unwrap();
    let back = parse(&to_json(&m)).unwrap();
    assert!(same(&m, &back));
    assert_eq!(to_json(&back), to_json(&m));
    let empty = scan_mod("@empty", &Vec::new()).unwrap();
    assert!(same(&empty, &parse_json(&to_json(&empty)).unwrap()));
}

#[test]
fn parse_accepts_any_order_case_space_and_unknown_fields() {
    let text = "\u{feff} {\r\n  \"name\" : \"@ace\",\n  \"Extra\": {\"a\": [1, 2, {\"b\": \"}]\"}], \"c\": null},\n  \"FILES\" : [\n    { \"Type\": \"SwiftyPboFile\", \"checksum\": \"49F68A5C8493EC2C0BF489821C21FC3B\", \"Parts\": [ {\"Path\":\"$$HEADER$$\",\"Length\":16,\"Start\":0} ], \"Length\": 2, \"Path\": \"addons\\\\x \\u00e9\\ud83d\\ude00.pbo\" } ,\n    {\"Path\":\"y\",\"Length\":0,\"Checksum\":\"d41d8cd98f00b204e9800998ecf8427e\"}\n  ],\n  \"Version\": 1.5e3,\n  \"CheckSum\":\"5ea795b4fd38a3bfd0f4c98e385a90a5\" }\n";
    let m = parse(text).unwrap();
    assert_eq!(m.name, "@ace");
    assert_eq!(m.checksum.to_hex(), "5ea795b4fd38a3bfd0f4c98e385a90a5");
    assert_eq!(m.files.len(), 2);
    assert_eq!(m.files[0].path, "addons\\x é😀.pbo");
    assert_eq!(m.files[0].length, 2);
    assert_eq!(m.files[0].checksum, digest_bytes(b"hi"));
    assert_eq!(m.files[1].path, "y");
    assert_eq!(m.files[1].length, 0);
    assert_eq!(m.files[1].checksum, digest_bytes(b""));
}

#[test]
fn parse_agrees_with_serde_json_on_strings() {
    let names = ["plain", "esc \\ \" / \u{8} \u{c} \n \r \t", "\u{1}\u{1f}", "é漢😀"];
    for name in names {
        let m = Mod {
            name: name.to_string(),
            checksum: Md5Digest::invalid(),
            files: Vec::new(),
        };
        let by_serde = format!(
            "{{\"Name\":{},\"Checksum\":\"00000000000000000000000000000000\",\"Files\":[]}}",
            serde_json::to_string(name).unwrap()
        );
        assert_eq!(parse_json(&by_serde).unwrap().name, name);
        assert_eq!(parse_json(&to_json(&m)).unwrap().name, name);
    }
}

#[test]
fn parse_later_field_counts() {
    let text = "{\"Name\":\"@a\",\"Name\":\"@b\",\"Checksum\":\"00000000000000000000000000000000\",\"Files\":[]}";
    assert_eq!(parse_json(text).unwrap().name, "@b");
}

#[test]
fn parse_error_variants() {
    let ok = "{\"Name\":\"@a\",\"Checksum\":\"00000000000000000000000000000000\",\"Files\":[]}";
    assert!(parse_json(ok).is_ok());
    let err = |t: &str| parse_json(t).err();
    assert_eq!(err(""), Some(ParseError::Syntax));
    assert_eq!(err("[]"), Some(ParseError::Syntax));
    assert_eq!(err("{"), Some(ParseError::Syntax));
    assert_eq!(err("{\"Name\" \"@a\"}"), Some(ParseError::Syntax));
    assert_eq!(err("{\"Name\":\"@a\""), Some(ParseError::Syntax));
    assert_eq!(err("{\"Name\":\"@a}"), Some(ParseError::Syntax));
    assert_eq!(err("{\"Name\":\"\\x\"}"), Some(ParseError::Syntax));
    assert_eq!(err("{\"Name\":\"\\ud800\"}"), Some(ParseError::Syntax));
    assert_eq!(err("{\"Name\":\"\\udc00\"}"), Some(ParseError::Syntax));
    assert_eq!(err("{\"Name\":12}"), Some(ParseError::Syntax));
    assert_eq!(err(&format!("{} x", ok)), Some(ParseError::Syntax));
    assert_eq!(err("{}"), Some(ParseError::MissingField));
    assert_eq!(
        err("{\"Name\":\"@a\",\"Files\":[]}"),
        Some(ParseError::MissingField)
    );
    assert_eq!(
        err("{\"Name\":\"@a\",\"Checksum\":\"00000000000000000000000000000000\",\"Files\":[{\"Path\":\"x\",\"Length\":1}]}"),
        Some(ParseError::MissingField)
    );
    assert_eq!(
        err("{\"Name\":\"@a\",\"Checksum\":\"0000\",\"Files\":[]}"),
        Some(ParseError::InvalidDigest)
    );
    assert_eq!(
        err("{\"Name\":\"@a\",\"Checksum\":\"0000000000000000000000000000000g\",\"Files\":[]}"),
        Some(ParseError::InvalidDigest)
    );
    for bad in ["-1", "1.5", "1e3", "18446744073709551616", "\"1\"", "true"] {
        let text = format!(
            "{{\"Name\":\"@a\",\"Checksum\":\"00000000000000000000000000000000\",\"Files\":[{{\"Path\":\"x\",\"Length\":{},\"Checksum\":\"00000000000000000000000000000000\"}}]}}",
            bad
        );
        assert_eq!(err(&text), Some(ParseError::InvalidNumber));
    }
    let max = "{\"Name\":\"@a\",\"Checksum\":\"00000000000000000000000000000000\",\"Files\":[{\"Path\":\"x\",\"Length\":18446744073709551615,\"Checksum\":\"00000000000000000000000000000000\"}]}";
    assert_eq!(parse_json(max).unwrap().files[0].length, u64::MAX);
}

#[test]
fn parse_chooses_encoding_by_first_visible_character() {
    let legacy = "ADDON:1:5ea795b4fd38a3bfd0f4c98e385a90a5:@a\n2:49f68a5c8493ec2c0bf489821c21fc3b:x.bin\n";
    let current = to_json(&scan_mod("@a", &vec![file("x.bin", b"hi")]).unwrap());
    let a = parse(legacy).unwrap();
    let b = parse(&current).unwrap();
    assert!(same(&a, &b));
    assert_eq!(
        parse("not a manifest").err(),
        Some(Error::LegacyParse(LegacyParse::BadMagic))
    );
    assert_eq!(parse("{ nope").err(), Some(Error::Parse(ParseError::Syntax)));
    assert_eq!(parse("").err(), Some(Error::LegacyParse(LegacyParse::BadMagic)));
}
