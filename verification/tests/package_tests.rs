use yarapi::package::{archive_digest, to_hex, Image, Package, PackageError, Version};

#[test]
fn to_hex_renders_two_lowercase_digits_per_byte() {
    assert_eq!(to_hex(&vec![]), "");
    assert_eq!(to_hex(&vec![0x00, 0xff, 0x1a]), "00ff1a");
}

#[test]
fn archive_digest_matches_sha3_512() {
    assert_eq!(
        archive_digest(&b"abc".to_vec()),
        "b751850b1a57168a5693cd924b6b096e08f621827444f70d884f5d0240d2712e\
         10e116e9192af3c91a7ec57647e3934057340b4cf408d5a56592f8274eec53f0"
            .replace(char::is_whitespace, "")
    );
    assert_eq!(
        archive_digest(&Vec::new()),
        "a69f73cca23a9ac5c8b567dc185a756e97c982164fe25859e0d1dcc1475c80a6\
         15b2123af1f5f94c11e3e9402c3ac558f500199d95b6d3e301758586281dcd26"
            .replace(char::is_whitespace, "")
    );
}

#[test]
fn published_url_is_validated_and_normalized() {
    let package = Package::Url {
        digest: "beefdead".to_string(),
        url: "HTTP://Example.COM".to_string(),
    };
    let (digest, url) = package.resolve_published().unwrap();
    assert_eq!(digest, "beefdead");
    assert_eq!(url, "http://example.com/", "scheme and host fold, the path is normalized");

    let gftp = Package::Url {
        digest: "beefdead".to_string(),
        url: "gftp:deadbeef/deadbeef".to_string(),
    };
    let (_, url) = gftp.resolve_published().unwrap();
    assert_eq!(url, "gftp:deadbeef/deadbeef");
}

#[test]
fn invalid_url_is_rejected() {
    let package = Package::Url {
        digest: "d".to_string(),
        url: "no scheme here".to_string(),
    };
    match package.resolve_published() {
        Err(PackageError::InvalidUrl { url }) => assert_eq!(url, "no scheme here"),
        Ok(_) => panic!("a string that is no URL must be rejected"),
    }
}

#[test]
fn images_name_their_runtimes() {
    let v = Version { major: 0, minor: 2, patch: 1 };
    assert_eq!(Image::Wasm(v).runtime_name(), "wasmtime");
    assert_eq!(Image::GVMKit(v).runtime_name(), "vm");
    assert_eq!(Image::Sgx(v).runtime_name(), "sgx");
    assert_eq!(Image::Wasm(v).runtime_version(), v);
}
