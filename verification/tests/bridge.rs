// Tests of the protocol layer: request lines, envelope decoding, soft
// failures, and the facade decisions.

use trezor_bridge::errors::HardwareError;
use trezor_bridge::protocol::{
    address_response, exit_response, features_outcome, features_response, init_outcome,
    init_response, public_key_response, request_line, AddressInfo, Command, FeaturesResponse,
    PublicKeyInfo, TrezorDeviceFeatures, UnitResponse,
};

fn get_pk_cmd(path: &[u8], coin: &[u8]) -> Command {
    Command::GetPublicKey { path: path.to_vec(), coin: coin.to_vec() }
}

// One request object per call, with exactly the declared members.
#[test]
fn get_public_key_request_members() {
    let line = request_line(&get_pk_cmd(b"m/44'/0'/0'", b"Bitcoin"));
    assert_eq!(
        line,
        br#"{"coin":"Bitcoin","command":"getpk","path":"m/44'/0'/0'"}"#.to_vec()
    );
    // Cross-check through an independent JSON implementation: the object
    // holds exactly command, path and coin.
    let v: serde_json::Value = serde_json::from_slice(&line).unwrap();
    let mut m = serde_json::Map::new();
    m.insert("command".to_string(), serde_json::Value::String("getpk".to_string()));
    m.insert("path".to_string(), serde_json::Value::String("m/44'/0'/0'".to_string()));
    m.insert("coin".to_string(), serde_json::Value::String("Bitcoin".to_string()));
    assert_eq!(v, serde_json::Value::Object(m));
}

#[test]
fn fixed_command_requests() {
    assert_eq!(request_line(&Command::Init), br#"{"command":"init"}"#.to_vec());
    assert_eq!(request_line(&Command::GetFeatures), br#"{"command":"getFeatures"}"#.to_vec());
    assert_eq!(request_line(&Command::Exit), br#"{"command":"exit"}"#.to_vec());
}

#[test]
fn get_address_request_shows_on_trezor() {
    let on = request_line(&Command::GetAddress {
        path: b"m/44'/0'/0'/0/0".to_vec(),
        coin: b"Bitcoin".to_vec(),
        show_on_trezor: true,
    });
    assert_eq!(
        on,
        br#"{"coin":"Bitcoin","command":"getaddr","path":"m/44'/0'/0'/0/0","showOnTrezor":true}"#
            .to_vec()
    );
    let off = request_line(&Command::GetAddress {
        path: b"m/44'/0'/0'/0/0".to_vec(),
        coin: b"Bitcoin".to_vec(),
        show_on_trezor: false,
    });
    assert!(off.ends_with(b"\"showOnTrezor\":false}"));
}

#[test]
fn request_escapes_parameters() {
    let line = request_line(&get_pk_cmd(b"a\"b\\c\nd", b"Bit\x01coin"));
    // No raw line break or control byte survives escaping: the request stays
    // one line.
    assert!(!line.contains(&b'\n'));
    assert!(line.iter().all(|&b| b >= 0x20));
    // An independent decoder recovers the original parameter values.
    let v: serde_json::Value = serde_json::from_slice(&line).unwrap();
    assert_eq!(v["path"], serde_json::Value::String("a\"b\\c\nd".to_string()));
    assert_eq!(v["coin"], serde_json::Value::String("Bit\u{1}coin".to_string()));
}

// Blank peer output becomes a soft failure, not an error.
#[test]
fn empty_line_soft_failure() {
    for line in [&b""[..], &b"\n"[..], &b"   \r\n"[..]] {
        let r = init_response(&line.to_vec()).unwrap();
        assert_eq!(
            r,
            UnitResponse { success: false, error: Some(b"Empty output".to_vec()) }
        );
    }
}

// Malformed peer output becomes a soft failure carrying a parse diagnostic.
#[test]
fn malformed_line_soft_failure() {
    let r = init_response(&b"*** boot noise ***".to_vec()).unwrap();
    assert_eq!(r.success, false);
    let msg = r.error.unwrap();
    assert_eq!(msg, b"JSON parse error: invalid JSON".to_vec());
    let f = features_response(&b"{\"success\":".to_vec()).unwrap();
    assert_eq!(f.success, false);
    assert_eq!(f.error.unwrap(), b"JSON parse error: invalid JSON".to_vec());
}

// A blank line then a well-formed line: the first call degrades softly, the
// second succeeds.
#[test]
fn blank_then_success_scenario() {
    let first = init_response(&b"\n".to_vec()).unwrap();
    assert!(!first.success);
    assert_eq!(first.error, Some(b"Empty output".to_vec()));
    let second = init_response(&b"{\"success\":true}".to_vec()).unwrap();
    assert_eq!(second, UnitResponse { success: true, error: None });
}

// A successful getFeatures payload decodes into the declared type exactly.
#[test]
fn features_payload_decodes() {
    let line = br#"{"success":true,"payload":{"device_id":"abc123","vendor":"Trezor","extra":[1,2]}}"#;
    let resp = features_response(&line.to_vec()).unwrap();
    assert_eq!(
        resp,
        FeaturesResponse {
            success: true,
            payload: Some(TrezorDeviceFeatures {
                device_id: b"abc123".to_vec(),
                vendor: b"Trezor".to_vec(),
            }),
            error: None,
        }
    );
    let features = features_outcome(resp).unwrap();
    assert_eq!(features.device_id, b"abc123".to_vec());
    assert_eq!(features.vendor, b"Trezor".to_vec());
}

#[test]
fn public_key_and_address_payloads_decode() {
    let pk = public_key_response(&br#"{"success":true,"payload":{"xpub":"xpub661"}}"#.to_vec())
        .unwrap();
    assert_eq!(pk.success, true);
    assert_eq!(pk.payload, Some(PublicKeyInfo { xpub: b"xpub661".to_vec() }));
    let addr =
        address_response(&br#"{"success":true,"payload":{"address":"bc1qxyz"}}"#.to_vec())
            .unwrap();
    assert_eq!(addr.payload, Some(AddressInfo { address: b"bc1qxyz".to_vec() }));
    let ex = exit_response(&br#"{"success":true}"#.to_vec()).unwrap();
    assert!(ex.success);
}

// Valid JSON of the wrong shape is a JsonError, distinct from parse noise.
#[test]
fn schema_mismatch_is_json_error() {
    let cases: Vec<&[u8]> = vec![
        br#"{"success":"yes"}"#,          // success is not a boolean
        br#"{"payload":{}}"#,             // success missing
        br#"{"success":true,"error":5}"#, // error is not a string
        br#"{"success":true,"payload":{}}"#, // unit command takes no payload
        b"[true]",                        // not an object
        b"null",
    ];
    for case in cases {
        match init_response(&case.to_vec()) {
            Err(HardwareError::JsonError { .. }) => {},
            other => panic!("expected JsonError for {:?}, got {:?}", case, other),
        }
    }
}

#[test]
fn features_schema_errors() {
    // A successful envelope must carry its payload.
    match features_response(&br#"{"success":true}"#.to_vec()) {
        Err(HardwareError::JsonError { .. }) => {},
        other => panic!("expected JsonError, got {:?}", other),
    }
    // A payload without the declared members is a schema error.
    match features_response(&br#"{"success":true,"payload":{"vendor":"v"}}"#.to_vec()) {
        Err(HardwareError::JsonError { .. }) => {},
        other => panic!("expected JsonError, got {:?}", other),
    }
    // An unsuccessful envelope may omit the payload.
    let r = features_response(&br#"{"success":false,"error":"no device"}"#.to_vec()).unwrap();
    assert_eq!(r.success, false);
    assert_eq!(r.payload, None);
    assert_eq!(r.error, Some(b"no device".to_vec()));
}

#[test]
fn null_payload_and_null_error_count_as_absent() {
    let r = init_response(&br#"{"success":true,"payload":null,"error":null}"#.to_vec()).unwrap();
    assert_eq!(r, UnitResponse { success: true, error: None });
}

#[test]
fn first_binding_of_a_repeated_member_wins() {
    let r = init_response(&br#"{"success":true,"success":false}"#.to_vec()).unwrap();
    assert_eq!(r.success, true);
}

#[test]
fn init_outcome_decisions() {
    let ok = init_outcome(&UnitResponse { success: true, error: None }).unwrap();
    assert_eq!(ok, b"Trezor library initialized".to_vec());
    match init_outcome(&UnitResponse { success: false, error: Some(b"locked".to_vec()) }) {
        Err(HardwareError::InitializationError { error_details }) => {
            assert_eq!(error_details, b"locked".to_vec());
        },
        other => panic!("expected InitializationError, got {:?}", other),
    }
    match init_outcome(&UnitResponse { success: false, error: None }) {
        Err(HardwareError::InitializationError { error_details }) => {
            assert_eq!(error_details, b"Unknown error".to_vec());
        },
        other => panic!("expected InitializationError, got {:?}", other),
    }
}

#[test]
fn features_outcome_decisions() {
    match features_outcome(FeaturesResponse {
        success: false,
        payload: None,
        error: Some(b"no device".to_vec()),
    }) {
        Err(HardwareError::InitializationError { error_details }) => {
            assert_eq!(error_details, b"no device".to_vec());
        },
        other => panic!("expected InitializationError, got {:?}", other),
    }
    match features_outcome(FeaturesResponse { success: false, payload: None, error: None }) {
        Err(HardwareError::InitializationError { error_details }) => {
            assert_eq!(error_details, b"Unknown error".to_vec());
        },
        other => panic!("expected InitializationError, got {:?}", other),
    }
}
