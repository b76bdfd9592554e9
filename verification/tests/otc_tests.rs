use marketlab::otc::{
    deserialize_from_bytes, manifest_json_from_signature, serialize_to_bytes, NodeManifest, OtcBinaryDecoder, OtcBinaryEncoder,
    OtcError, CURRENT_ENGINE_GENERATION,
};
use marketlab::signature::ScriptSignature;

#[test]
fn test_otc_binary_roundtrip_and_version_safety() {
    let mock_manifest_json = r#"{"inputs":[{"name":"source_stream","type":"float"}],"outputs":[{"name":"upper_band","type":"float"}]}"#;
    let mock_bytecode = vec![0xDE, 0xAD, 0xBE, 0xEF];

    let current_generation = 2;
    let serialized_bytes = OtcBinaryEncoder::new()
        .with_engine_generation(current_generation)
        .with_manifest(mock_manifest_json.to_string())
        .with_bytecode(&mock_bytecode)
        .encode()
        .expect("Failed to serialize OTL node into binary bytecode");

    assert_eq!(&serialized_bytes[0..4], b"OTCB");

    let decoded_asset = OtcBinaryDecoder::decode(&serialized_bytes)
        .expect("Failed to parse and decode valid OTCB binary stream");

    assert_eq!(decoded_asset.manifest_json, mock_manifest_json);
    assert_eq!(decoded_asset.bytecode, mock_bytecode);
    assert_eq!(decoded_asset.header.engine_generation, current_generation);

    let outdated_local_system_generation = 1;
    let validation_result = decoded_asset
        .header
        .validate_compatibility(outdated_local_system_generation);

    assert!(
        validation_result.is_err(),
        "The asset pipeline should have rejected a newer engine generation block."
    );

    if let Err(err) = validation_result {
        assert!(
            err.message().contains("Asset compatibility mismatch"),
            "Error output must clearly report generation mismatch constraints."
        );
    }
}

#[test]
fn encoder_roundtrip_and_current_engine_check() {
    let bytes = OtcBinaryEncoder::new()
        .with_manifest("{\"inputs\":[]}".to_string())
        .with_bytecode(b"sma(data, 3)")
        .encode()
        .expect("Failed to serialize OTL node into binary bytecode");
    assert_eq!(&bytes[0..4], b"OTCB");
    let asset = OtcBinaryDecoder::decode(&bytes)
        .expect("Failed to parse and decode valid OTCB binary stream");
    assert_eq!(asset.header.engine_generation, CURRENT_ENGINE_GENERATION);
    assert_eq!(asset.manifest_json, "{\"inputs\":[]}");
    assert_eq!(asset.bytecode_as_script_source().unwrap(), "sma(data, 3)");
    assert!(asset.validate_for_current_engine().is_ok());

    let newer = OtcBinaryEncoder::new()
        .with_engine_generation(CURRENT_ENGINE_GENERATION + 1)
        .encode()
        .unwrap();
    let asset = OtcBinaryDecoder::decode(&newer).unwrap();
    let err = asset.validate_for_current_engine().unwrap_err();
    assert_eq!(
        err,
        OtcError::EngineGenerationMismatch {
            asset_generation: CURRENT_ENGINE_GENERATION + 1,
            local_generation: CURRENT_ENGINE_GENERATION,
        }
    );
    assert!(
        err.message().contains("Asset compatibility mismatch"),
        "expected incompatibility error, got {}",
        err.message()
    );
}

#[test]
fn error_messages_render_numbers() {
    assert_eq!(
        OtcError::TooShort { len: 5, expected: 32 }.message(),
        "OTC asset is too short (5 bytes, expected at least 32)"
    );
    assert_eq!(
        OtcError::BytecodeLengthOverflow { len: 4096, remaining: 0 }.message(),
        "bytecode length 4096 exceeds remaining stream (0 bytes)"
    );
    assert_eq!(
        OtcError::EngineGenerationMismatch { asset_generation: 3, local_generation: 2 }.message(),
        "Asset compatibility mismatch. The selected node requires MarketLab Engine Generation 3, \
         but your installation is running Generation 2. Please update your software."
    );
    assert_eq!(
        OtcError::Io { path: "a.otc".to_string(), message: "gone".to_string() }.message(),
        "failed to read compiled asset at a.otc: gone"
    );
}

#[test]
fn decode_reports_each_error() {
    assert_eq!(
        deserialize_from_bytes(&[0u8; 5]).unwrap_err(),
        OtcError::TooShort { len: 5, expected: 32 }
    );
    let good = OtcBinaryEncoder::new().encode().unwrap();
    assert_eq!(good.len(), 40);
    let mut bad_magic = good.clone();
    bad_magic[0] = b'X';
    assert_eq!(deserialize_from_bytes(&bad_magic).unwrap_err(), OtcError::InvalidMagic);
    let mut bad_marker = good.clone();
    bad_marker[4] = 2;
    assert_eq!(deserialize_from_bytes(&bad_marker).unwrap_err(), OtcError::InvalidEndianMarker);
    let truncated = &good[..34];
    assert_eq!(
        deserialize_from_bytes(truncated).unwrap_err(),
        OtcError::TooShort { len: 2, expected: 36 }
    );
    let mut long_manifest = good.clone();
    long_manifest[32] = 9;
    assert_eq!(
        deserialize_from_bytes(&long_manifest).unwrap_err(),
        OtcError::ManifestLengthOverflow { len: 9, remaining: 4 }
    );
    let mut long_code = good.clone();
    long_code[36] = 1;
    assert_eq!(
        deserialize_from_bytes(&long_code).unwrap_err(),
        OtcError::BytecodeLengthOverflow { len: 1, remaining: 0 }
    );
    let bad_utf8 = serialize_to_bytes(
        false,
        &NodeManifest::from_json(String::new()),
        &[],
        0,
        1,
        2,
        0,
    );
    let mut bad_utf8 = bad_utf8;
    bad_utf8[32] = 1;
    bad_utf8.insert(36, 0xff);
    assert_eq!(deserialize_from_bytes(&bad_utf8).unwrap_err(), OtcError::ManifestNotUtf8);
}

#[test]
fn header_fields_are_little_endian() {
    let bytes = serialize_to_bytes(
        true,
        &NodeManifest::from_json("m".to_string()),
        &[7, 8],
        0x0102,
        0x0304,
        0x0a0b0c0d,
        0x10,
    );
    assert_eq!(&bytes[8..10], &[0x02, 0x01]);
    assert_eq!(&bytes[10..12], &[0x04, 0x03]);
    assert_eq!(&bytes[12..16], &[0x0d, 0x0c, 0x0b, 0x0a]);
    assert_eq!(bytes[16], 0x11);
    let asset = deserialize_from_bytes(&bytes).unwrap();
    assert_eq!(asset.header.feature_flags, 0x11);
    assert_eq!(asset.bytecode, vec![7, 8]);
    assert_eq!(asset.manifest_json, "m");
}

#[test]
fn bytecode_must_be_utf8() {
    let bytes = OtcBinaryEncoder::new().with_bytecode(&[0xc3, 0x28]).encode().unwrap();
    let asset = deserialize_from_bytes(&bytes).unwrap();
    assert_eq!(asset.bytecode_as_script_source().unwrap_err(), OtcError::BytecodeNotUtf8);
}

#[test]
fn manifest_lists_ports_in_order() {
    let signature = ScriptSignature {
        inputs: vec!["close".to_string()],
        outputs: vec!["sma".to_string(), "ema".to_string()],
        parameters: Vec::new(),
    };
    let expected = "{\"inputs\":[{\"name\":\"close\",\"type\":\"float\"}],\"outputs\":[{\"name\":\"sma\",\"type\":\"float\"},{\"name\":\"ema\",\"type\":\"float\"}]}";
    assert_eq!(manifest_json_from_signature(&signature), expected);
    assert_eq!(NodeManifest::from_script_signature(&signature).manifest_json, expected);
    let empty = ScriptSignature::default();
    assert_eq!(manifest_json_from_signature(&empty), "{\"inputs\":[],\"outputs\":[]}");
}
