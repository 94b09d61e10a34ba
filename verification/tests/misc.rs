use datastore::builder::{BuildError, ImageBuilder, PackageBuilder};
use datastore::decoded::{Decode, Decoded, Encode, EncodingError, Hex};
use datastore::deserialization::error::DecodeError;
use datastore::error::StoreError;
use datastore::infra::SigningKeyConfig;
use datastore::manifest::{
    BuildPackage, BuildVariant, ExternalFile, ImageFormat, ManifestInfo, Metadata, Package,
};
use datastore::scalar::{deserialize_scalar, serialize_scalar, ScalarKind};
use datastore::text::{find_char, join, starts_with};

#[test]
fn scalar_codec_keeps_the_type() {
    let text = deserialize_scalar("\"a \\\"quoted\\\" string\"").unwrap();
    assert_eq!(text.kind(), ScalarKind::Text);
    assert_eq!(text.value(), &serde_json::Value::String("a \"quoted\" string".to_string()));
    assert_eq!(serialize_scalar(&text).unwrap(), "\"a \\\"quoted\\\" string\"");

    let number = deserialize_scalar(" 42 ").unwrap();
    assert_eq!(number.kind(), ScalarKind::Number);
    assert_eq!(serialize_scalar(&number).unwrap(), "42");

    let list = deserialize_scalar("[1,2, 3, 4]").unwrap();
    assert_eq!(list.kind(), ScalarKind::Sequence);
    assert_eq!(serialize_scalar(&list).unwrap(), "[1,2,3,4]");

    assert_eq!(deserialize_scalar("true").unwrap().kind(), ScalarKind::Bool);
    assert_eq!(deserialize_scalar("{\"a\":null}").unwrap().kind(), ScalarKind::Object);
    let null = deserialize_scalar("null").unwrap();
    assert!(null.is_null());
    assert_eq!(serialize_scalar(&null).unwrap(), "null");
}

#[test]
fn scalar_codec_refuses_malformed_text() {
    for text in ["", "tru", "it's bare", "1 2", "[1,", "\"open"] {
        assert!(deserialize_scalar(text).is_err(), "{:?}", text);
    }
}

#[test]
fn hex_encodes_and_decodes() {
    assert_eq!(Hex::encode(&[0x00, 0x0f, 0xa5, 0xff]), "000fa5ff");
    assert_eq!(Hex::encode(b"foobar"), "666f6f626172");
    assert_eq!(Hex::decode("000FA5ff").unwrap(), vec![0x00, 0x0f, 0xa5, 0xff]);
    assert_eq!(Hex::decode("").unwrap(), Vec::<u8>::new());
    assert!(matches!(Hex::decode("123"), Err(EncodingError::HexDecode { .. })));
    assert!(Hex::decode("zz").is_err());
    assert!(Hex::decode("éé").is_err());
}

#[test]
fn decoded_keeps_bytes_and_text() {
    let d: Decoded<Hex> = Decoded::from(vec![1, 2, 255]);
    assert_eq!(d.as_str(), "0102ff");
    assert_eq!(d.as_ref(), &[1, 2, 255]);
    let parsed: Decoded<Hex> = Decoded::from_str("0102FF").unwrap();
    assert_eq!(parsed.as_str(), "0102FF");
    assert!(parsed.eq(&d));
    assert_eq!(parsed.into_vec(), vec![1, 2, 255]);
    assert!(Decoded::<Hex>::from_str("0").is_err());
    let other: Decoded<Hex> = Decoded::from(vec![1, 2]);
    assert!(!other.eq(&d));
}

#[test]
fn signing_key_url_text() {
    let kms = SigningKeyConfig::kms { key_id: "abc".to_string() };
    assert_eq!(kms.url_text(), Some("aws-kms:///abc".to_string()));
    let kms = SigningKeyConfig::kms { key_id: "/abc".to_string() };
    assert_eq!(kms.url_text(), Some("aws-kms:///abc".to_string()));
    let ssm = SigningKeyConfig::ssm { parameter: "p/q".to_string() };
    assert_eq!(ssm.url_text(), Some("aws-ssm:///p/q".to_string()));
    let file = SigningKeyConfig::file { path: "/keys/root".to_string() };
    assert_eq!(file.url_text(), None);
}

#[test]
fn manifest_getters_follow_the_optional_tables() {
    let empty = ManifestInfo::from_package(Package { metadata: None });
    assert!(empty.build_package().is_none());
    assert!(empty.build_variant().is_none());
    assert!(empty.source_groups().is_none());
    assert!(empty.external_files().is_none());
    assert!(empty.package_name().is_none());
    assert!(empty.variant_sensitive().is_none());
    assert!(empty.included_packages().is_none());
    assert!(empty.image_format().is_none());

    let full = ManifestInfo::from_package(Package {
        metadata: Some(Metadata {
            build_package: Some(BuildPackage {
                external_files: Some(vec![ExternalFile {
                    path: None,
                    sha512: "abc".to_string(),
                    url: "https://example.com/f".to_string(),
                }]),
                package_name: Some("pkg".to_string()),
                source_groups: Some(vec!["a".to_string(), "b".to_string()]),
                variant_sensitive: Some(true),
            }),
            build_variant: Some(BuildVariant {
                included_packages: Some(vec!["x".to_string()]),
                image_format: Some(ImageFormat::Vmdk),
            }),
        }),
    });
    assert_eq!(full.source_groups().unwrap(), &vec!["a".to_string(), "b".to_string()]);
    assert_eq!(full.external_files().unwrap()[0].sha512, "abc");
    assert_eq!(full.package_name().unwrap(), "pkg");
    assert_eq!(full.variant_sensitive(), Some(true));
    assert_eq!(full.included_packages().unwrap(), &vec!["x".to_string()]);
    assert_eq!(full.image_format(), Some(&ImageFormat::Vmdk));

    let partial = ManifestInfo::from_package(Package {
        metadata: Some(Metadata { build_package: None, build_variant: None }),
    });
    assert!(partial.package_name().is_none());
    assert!(partial.image_format().is_none());
}

#[test]
fn error_messages() {
    assert_eq!(
        StoreError::InvalidKey { name: "a b".to_string() }.message(),
        "Key name is invalid: a b"
    );
    assert_eq!(
        StoreError::PathTraversal { name: "..".to_string() }.message(),
        "Key would traverse outside data store: .."
    );
    assert_eq!(
        StoreError::Corruption { msg: "gone".to_string(), path: "/b".to_string() }.message(),
        "Data store integrity violation at /b: gone"
    );
    assert!(matches!(DecodeError::custom("no"), DecodeError::Message { msg } if msg == "no"));
}

#[test]
fn text_helpers() {
    assert_eq!(find_char("a.b.c", '.'), 1);
    assert_eq!(find_char("abc", '.'), 3);
    assert!(starts_with("settings.a", "settings."));
    assert!(!starts_with("set", "settings."));
    assert!(starts_with("anything", ""));
    assert_eq!(join("a", '.', "b"), "a.b");
}

#[test]
fn package_build_options_and_result() {
    assert_eq!(
        PackageBuilder::options("kernel", "x86_64"),
        "--opt target=rpm --opt build-arg:Package=kernel --opt build-arg:Arch=x86_64"
    );
    assert!(PackageBuilder::build("kernel", true, "fine".to_string()).is_ok());
    match PackageBuilder::build("kernel", false, "broken".to_string()) {
        Err(BuildError::PackageBuild { package, output }) => {
            assert_eq!(package, "kernel");
            assert_eq!(output, "broken");
        }
        other => panic!("unexpected: {:?}", other),
    }
    assert_eq!(ImageBuilder::package_list(&vec![]), "");
    assert_eq!(ImageBuilder::package_list(&vec!["a".to_string()]), "a");
    assert_eq!(
        ImageBuilder::package_list(&vec!["a".to_string(), "b".to_string(), "c".to_string()]),
        "a|b|c"
    );
}

#[test]
fn decode_error_messages() {
    assert_eq!(DecodeError::custom("no").message(), "Error during deserialization: no");
    assert_eq!(
        DecodeError::BadRoot.message(),
        "Data store deserializer must be used on a struct, or you must give a prefix"
    );
}
