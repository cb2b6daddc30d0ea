//! The wire protocol of the bridge: request lines, the response envelope,
//! typed payload decoding, and the facade decisions.
//!
//! Everything here is pure: one function builds the single request line for
//! a command, and one function per command interprets the single response
//! line the peer sent back. Blank or malformed peer lines are downgraded to
//! an unsuccessful envelope rather than an error, so a session survives
//! protocol noise.

use vstd::prelude::*;

use crate::errors::HardwareError;
use crate::errors::HardwareErrorV;
use crate::json::Json;
use crate::json::JsonMembers;
use crate::json::JsonV;
use crate::json::jv;
use crate::json::jmv;
use crate::json::spec_json_doc;
use crate::json::spec_depth_limit;
use crate::json::sp_value;
use crate::json::sp_members;
use crate::json::sp_str_rest;
use crate::json::sp_ws_count;
use crate::json::lemma_escaped_parses;
use crate::json::spec_escape;
use crate::json::spec_line_is_blank;
use crate::json::escape_into;
use crate::json::line_is_blank;
use crate::json::parse_json;

verus! {

// ---------------------------------------------------------------------------
// Byte constants of the protocol
// ---------------------------------------------------------------------------

/// The bytes of `success`.
pub open spec fn key_success() -> Seq<u8> {
    seq![0x73u8, 0x75u8, 0x63u8, 0x63u8, 0x65u8, 0x73u8, 0x73u8]
}

/// The bytes of `payload`.
pub open spec fn key_payload() -> Seq<u8> {
    seq![0x70u8, 0x61u8, 0x79u8, 0x6cu8, 0x6fu8, 0x61u8, 0x64u8]
}

/// The bytes of `error`.
pub open spec fn key_error() -> Seq<u8> {
    seq![0x65u8, 0x72u8, 0x72u8, 0x6fu8, 0x72u8]
}

/// The bytes of `device_id`.
pub open spec fn key_device_id() -> Seq<u8> {
    seq![0x64u8, 0x65u8, 0x76u8, 0x69u8, 0x63u8, 0x65u8, 0x5fu8, 0x69u8, 0x64u8]
}

/// The bytes of `vendor`.
pub open spec fn key_vendor() -> Seq<u8> {
    seq![0x76u8, 0x65u8, 0x6eu8, 0x64u8, 0x6fu8, 0x72u8]
}

/// The bytes of `xpub`.
pub open spec fn key_xpub() -> Seq<u8> {
    seq![0x78u8, 0x70u8, 0x75u8, 0x62u8]
}

/// The bytes of `address`.
pub open spec fn key_address() -> Seq<u8> {
    seq![0x61u8, 0x64u8, 0x64u8, 0x72u8, 0x65u8, 0x73u8, 0x73u8]
}

/// The bytes of `Empty output`.
pub open spec fn msg_empty_output() -> Seq<u8> {
    seq![0x45u8, 0x6du8, 0x70u8, 0x74u8, 0x79u8, 0x20u8, 0x6fu8, 0x75u8, 0x74u8, 0x70u8, 0x75u8, 0x74u8]
}

/// The bytes of `JSON parse error: invalid JSON`.
pub open spec fn msg_parse_error() -> Seq<u8> {
    seq![0x4au8, 0x53u8, 0x4fu8, 0x4eu8, 0x20u8, 0x70u8, 0x61u8, 0x72u8, 0x73u8, 0x65u8, 0x20u8, 0x65u8, 0x72u8, 0x72u8, 0x6fu8, 0x72u8, 0x3au8, 0x20u8, 0x69u8, 0x6eu8, 0x76u8, 0x61u8, 0x6cu8, 0x69u8, 0x64u8, 0x20u8, 0x4au8, 0x53u8, 0x4fu8, 0x4eu8]
}

/// The bytes of `Unknown error`.
pub open spec fn msg_unknown_error() -> Seq<u8> {
    seq![0x55u8, 0x6eu8, 0x6bu8, 0x6eu8, 0x6fu8, 0x77u8, 0x6eu8, 0x20u8, 0x65u8, 0x72u8, 0x72u8, 0x6fu8, 0x72u8]
}

/// The bytes of `Trezor library initialized`.
pub open spec fn msg_init_ok() -> Seq<u8> {
    seq![0x54u8, 0x72u8, 0x65u8, 0x7au8, 0x6fu8, 0x72u8, 0x20u8, 0x6cu8, 0x69u8, 0x62u8, 0x72u8, 0x61u8, 0x72u8, 0x79u8, 0x20u8, 0x69u8, 0x6eu8, 0x69u8, 0x74u8, 0x69u8, 0x61u8, 0x6cu8, 0x69u8, 0x7au8, 0x65u8, 0x64u8]
}

/// The bytes of `invalid envelope`.
pub open spec fn msg_invalid_envelope() -> Seq<u8> {
    seq![0x69u8, 0x6eu8, 0x76u8, 0x61u8, 0x6cu8, 0x69u8, 0x64u8, 0x20u8, 0x65u8, 0x6eu8, 0x76u8, 0x65u8, 0x6cu8, 0x6fu8, 0x70u8, 0x65u8]
}

/// The bytes of `{"command":"init"}`.
pub open spec fn lit_req_init() -> Seq<u8> {
    seq![0x7bu8, 0x22u8, 0x63u8, 0x6fu8, 0x6du8, 0x6du8, 0x61u8, 0x6eu8, 0x64u8, 0x22u8, 0x3au8, 0x22u8, 0x69u8, 0x6eu8, 0x69u8, 0x74u8, 0x22u8, 0x7du8]
}

/// The bytes of `{"command":"getFeatures"}`.
pub open spec fn lit_req_features() -> Seq<u8> {
    seq![0x7bu8, 0x22u8, 0x63u8, 0x6fu8, 0x6du8, 0x6du8, 0x61u8, 0x6eu8, 0x64u8, 0x22u8, 0x3au8, 0x22u8, 0x67u8, 0x65u8, 0x74u8, 0x46u8, 0x65u8, 0x61u8, 0x74u8, 0x75u8, 0x72u8, 0x65u8, 0x73u8, 0x22u8, 0x7du8]
}

/// The bytes of `{"command":"exit"}`.
pub open spec fn lit_req_exit() -> Seq<u8> {
    seq![0x7bu8, 0x22u8, 0x63u8, 0x6fu8, 0x6du8, 0x6du8, 0x61u8, 0x6eu8, 0x64u8, 0x22u8, 0x3au8, 0x22u8, 0x65u8, 0x78u8, 0x69u8, 0x74u8, 0x22u8, 0x7du8]
}

/// The bytes of `{"coin":"`.
pub open spec fn lit_coin_open() -> Seq<u8> {
    seq![0x7bu8, 0x22u8, 0x63u8, 0x6fu8, 0x69u8, 0x6eu8, 0x22u8, 0x3au8, 0x22u8]
}

/// The bytes of `","command":"getpk","path":"`.
pub open spec fn lit_pk_mid() -> Seq<u8> {
    seq![0x22u8, 0x2cu8, 0x22u8, 0x63u8, 0x6fu8, 0x6du8, 0x6du8, 0x61u8, 0x6eu8, 0x64u8, 0x22u8, 0x3au8, 0x22u8, 0x67u8, 0x65u8, 0x74u8, 0x70u8, 0x6bu8, 0x22u8, 0x2cu8, 0x22u8, 0x70u8, 0x61u8, 0x74u8, 0x68u8, 0x22u8, 0x3au8, 0x22u8]
}

/// The bytes of `","command":"getaddr","path":"`.
pub open spec fn lit_addr_mid() -> Seq<u8> {
    seq![0x22u8, 0x2cu8, 0x22u8, 0x63u8, 0x6fu8, 0x6du8, 0x6du8, 0x61u8, 0x6eu8, 0x64u8, 0x22u8, 0x3au8, 0x22u8, 0x67u8, 0x65u8, 0x74u8, 0x61u8, 0x64u8, 0x64u8, 0x72u8, 0x22u8, 0x2cu8, 0x22u8, 0x70u8, 0x61u8, 0x74u8, 0x68u8, 0x22u8, 0x3au8, 0x22u8]
}

/// The bytes of `"}`.
pub open spec fn lit_str_close() -> Seq<u8> {
    seq![0x22u8, 0x7du8]
}

/// The bytes of `","showOnTrezor":true}`.
pub open spec fn lit_show_true() -> Seq<u8> {
    seq![0x22u8, 0x2cu8, 0x22u8, 0x73u8, 0x68u8, 0x6fu8, 0x77u8, 0x4fu8, 0x6eu8, 0x54u8, 0x72u8, 0x65u8, 0x7au8, 0x6fu8, 0x72u8, 0x22u8, 0x3au8, 0x74u8, 0x72u8, 0x75u8, 0x65u8, 0x7du8]
}

/// The bytes of `","showOnTrezor":false}`.
pub open spec fn lit_show_false() -> Seq<u8> {
    seq![0x22u8, 0x2cu8, 0x22u8, 0x73u8, 0x68u8, 0x6fu8, 0x77u8, 0x4fu8, 0x6eu8, 0x54u8, 0x72u8, 0x65u8, 0x7au8, 0x6fu8, 0x72u8, 0x22u8, 0x3au8, 0x66u8, 0x61u8, 0x6cu8, 0x73u8, 0x65u8, 0x7du8]
}

fn key_success_vec() -> (r: Vec<u8>)
    ensures
        r@ == key_success(),
{
    let mut v: Vec<u8> = Vec::new();
    v.push(0x73); v.push(0x75); v.push(0x63); v.push(0x63); v.push(0x65); v.push(0x73);
    v.push(0x73);
    proof {
        assert(v@ =~= key_success());
    }
    v
}

fn key_payload_vec() -> (r: Vec<u8>)
    ensures
        r@ == key_payload(),
{
    let mut v: Vec<u8> = Vec::new();
    v.push(0x70); v.push(0x61); v.push(0x79); v.push(0x6c); v.push(0x6f); v.push(0x61);
    v.push(0x64);
    proof {
        assert(v@ =~= key_payload());
    }
    v
}

fn key_error_vec() -> (r: Vec<u8>)
    ensures
        r@ == key_error(),
{
    let mut v: Vec<u8> = Vec::new();
    v.push(0x65); v.push(0x72); v.push(0x72); v.push(0x6f); v.push(0x72);
    proof {
        assert(v@ =~= key_error());
    }
    v
}

fn key_device_id_vec() -> (r: Vec<u8>)
    ensures
        r@ == key_device_id(),
{
    let mut v: Vec<u8> = Vec::new();
    v.push(0x64); v.push(0x65); v.push(0x76); v.push(0x69); v.push(0x63); v.push(0x65);
    v.push(0x5f); v.push(0x69); v.push(0x64);
    proof {
        assert(v@ =~= key_device_id());
    }
    v
}

fn key_vendor_vec() -> (r: Vec<u8>)
    ensures
        r@ == key_vendor(),
{
    let mut v: Vec<u8> = Vec::new();
    v.push(0x76); v.push(0x65); v.push(0x6e); v.push(0x64); v.push(0x6f); v.push(0x72);
    proof {
        assert(v@ =~= key_vendor());
    }
    v
}

fn key_xpub_vec() -> (r: Vec<u8>)
    ensures
        r@ == key_xpub(),
{
    let mut v: Vec<u8> = Vec::new();
    v.push(0x78); v.push(0x70); v.push(0x75); v.push(0x62);
    proof {
        assert(v@ =~= key_xpub());
    }
    v
}

fn key_address_vec() -> (r: Vec<u8>)
    ensures
        r@ == key_address(),
{
    let mut v: Vec<u8> = Vec::new();
    v.push(0x61); v.push(0x64); v.push(0x64); v.push(0x72); v.push(0x65); v.push(0x73);
    v.push(0x73);
    proof {
        assert(v@ =~= key_address());
    }
    v
}

fn msg_empty_output_vec() -> (r: Vec<u8>)
    ensures
        r@ == msg_empty_output(),
{
    let mut v: Vec<u8> = Vec::new();
    v.push(0x45); v.push(0x6d); v.push(0x70); v.push(0x74); v.push(0x79); v.push(0x20);
    v.push(0x6f); v.push(0x75); v.push(0x74); v.push(0x70); v.push(0x75); v.push(0x74);
    proof {
        assert(v@ =~= msg_empty_output());
    }
    v
}

fn msg_parse_error_vec() -> (r: Vec<u8>)
    ensures
        r@ == msg_parse_error(),
{
    let mut v: Vec<u8> = Vec::new();
    v.push(0x4a); v.push(0x53); v.push(0x4f); v.push(0x4e); v.push(0x20); v.push(0x70);
    v.push(0x61); v.push(0x72); v.push(0x73); v.push(0x65); v.push(0x20); v.push(0x65);
    v.push(0x72); v.push(0x72); v.push(0x6f); v.push(0x72); v.push(0x3a); v.push(0x20);
    v.push(0x69); v.push(0x6e); v.push(0x76); v.push(0x61); v.push(0x6c); v.push(0x69);
    v.push(0x64); v.push(0x20); v.push(0x4a); v.push(0x53); v.push(0x4f); v.push(0x4e);
    proof {
        assert(v@ =~= msg_parse_error());
    }
    v
}

fn msg_unknown_error_vec() -> (r: Vec<u8>)
    ensures
        r@ == msg_unknown_error(),
{
    let mut v: Vec<u8> = Vec::new();
    v.push(0x55); v.push(0x6e); v.push(0x6b); v.push(0x6e); v.push(0x6f); v.push(0x77);
    v.push(0x6e); v.push(0x20); v.push(0x65); v.push(0x72); v.push(0x72); v.push(0x6f);
    v.push(0x72);
    proof {
        assert(v@ =~= msg_unknown_error());
    }
    v
}

fn msg_init_ok_vec() -> (r: Vec<u8>)
    ensures
        r@ == msg_init_ok(),
{
    let mut v: Vec<u8> = Vec::new();
    v.push(0x54); v.push(0x72); v.push(0x65); v.push(0x7a); v.push(0x6f); v.push(0x72);
    v.push(0x20); v.push(0x6c); v.push(0x69); v.push(0x62); v.push(0x72); v.push(0x61);
    v.push(0x72); v.push(0x79); v.push(0x20); v.push(0x69); v.push(0x6e); v.push(0x69);
    v.push(0x74); v.push(0x69); v.push(0x61); v.push(0x6c); v.push(0x69); v.push(0x7a);
    v.push(0x65); v.push(0x64);
    proof {
        assert(v@ =~= msg_init_ok());
    }
    v
}

fn msg_invalid_envelope_vec() -> (r: Vec<u8>)
    ensures
        r@ == msg_invalid_envelope(),
{
    let mut v: Vec<u8> = Vec::new();
    v.push(0x69); v.push(0x6e); v.push(0x76); v.push(0x61); v.push(0x6c); v.push(0x69);
    v.push(0x64); v.push(0x20); v.push(0x65); v.push(0x6e); v.push(0x76); v.push(0x65);
    v.push(0x6c); v.push(0x6f); v.push(0x70); v.push(0x65);
    proof {
        assert(v@ =~= msg_invalid_envelope());
    }
    v
}

fn lit_req_init_vec() -> (r: Vec<u8>)
    ensures
        r@ == lit_req_init(),
{
    let mut v: Vec<u8> = Vec::new();
    v.push(0x7b); v.push(0x22); v.push(0x63); v.push(0x6f); v.push(0x6d); v.push(0x6d);
    v.push(0x61); v.push(0x6e); v.push(0x64); v.push(0x22); v.push(0x3a); v.push(0x22);
    v.push(0x69); v.push(0x6e); v.push(0x69); v.push(0x74); v.push(0x22); v.push(0x7d);
    proof {
        assert(v@ =~= lit_req_init());
    }
    v
}

fn lit_req_features_vec() -> (r: Vec<u8>)
    ensures
        r@ == lit_req_features(),
{
    let mut v: Vec<u8> = Vec::new();
    v.push(0x7b); v.push(0x22); v.push(0x63); v.push(0x6f); v.push(0x6d); v.push(0x6d);
    v.push(0x61); v.push(0x6e); v.push(0x64); v.push(0x22); v.push(0x3a); v.push(0x22);
    v.push(0x67); v.push(0x65); v.push(0x74); v.push(0x46); v.push(0x65); v.push(0x61);
    v.push(0x74); v.push(0x75); v.push(0x72); v.push(0x65); v.push(0x73); v.push(0x22);
    v.push(0x7d);
    proof {
        assert(v@ =~= lit_req_features());
    }
    v
}

fn lit_req_exit_vec() -> (r: Vec<u8>)
    ensures
        r@ == lit_req_exit(),
{
    let mut v: Vec<u8> = Vec::new();
    v.push(0x7b); v.push(0x22); v.push(0x63); v.push(0x6f); v.push(0x6d); v.push(0x6d);
    v.push(0x61); v.push(0x6e); v.push(0x64); v.push(0x22); v.push(0x3a); v.push(0x22);
    v.push(0x65); v.push(0x78); v.push(0x69); v.push(0x74); v.push(0x22); v.push(0x7d);
    proof {
        assert(v@ =~= lit_req_exit());
    }
    v
}

fn lit_coin_open_vec() -> (r: Vec<u8>)
    ensures
        r@ == lit_coin_open(),
{
    let mut v: Vec<u8> = Vec::new();
    v.push(0x7b); v.push(0x22); v.push(0x63); v.push(0x6f); v.push(0x69); v.push(0x6e);
    v.push(0x22); v.push(0x3a); v.push(0x22);
    proof {
        assert(v@ =~= lit_coin_open());
    }
    v
}

fn lit_pk_mid_vec() -> (r: Vec<u8>)
    ensures
        r@ == lit_pk_mid(),
{
    let mut v: Vec<u8> = Vec::new();
    v.push(0x22); v.push(0x2c); v.push(0x22); v.push(0x63); v.push(0x6f); v.push(0x6d);
    v.push(0x6d); v.push(0x61); v.push(0x6e); v.push(0x64); v.push(0x22); v.push(0x3a);
    v.push(0x22); v.push(0x67); v.push(0x65); v.push(0x74); v.push(0x70); v.push(0x6b);
    v.push(0x22); v.push(0x2c); v.push(0x22); v.push(0x70); v.push(0x61); v.push(0x74);
    v.push(0x68); v.push(0x22); v.push(0x3a); v.push(0x22);
    proof {
        assert(v@ =~= lit_pk_mid());
    }
    v
}

fn lit_addr_mid_vec() -> (r: Vec<u8>)
    ensures
        r@ == lit_addr_mid(),
{
    let mut v: Vec<u8> = Vec::new();
    v.push(0x22); v.push(0x2c); v.push(0x22); v.push(0x63); v.push(0x6f); v.push(0x6d);
    v.push(0x6d); v.push(0x61); v.push(0x6e); v.push(0x64); v.push(0x22); v.push(0x3a);
    v.push(0x22); v.push(0x67); v.push(0x65); v.push(0x74); v.push(0x61); v.push(0x64);
    v.push(0x64); v.push(0x72); v.push(0x22); v.push(0x2c); v.push(0x22); v.push(0x70);
    v.push(0x61); v.push(0x74); v.push(0x68); v.push(0x22); v.push(0x3a); v.push(0x22);
    proof {
        assert(v@ =~= lit_addr_mid());
    }
    v
}

fn lit_str_close_vec() -> (r: Vec<u8>)
    ensures
        r@ == lit_str_close(),
{
    let mut v: Vec<u8> = Vec::new();
    v.push(0x22); v.push(0x7d);
    proof {
        assert(v@ =~= lit_str_close());
    }
    v
}

fn lit_show_true_vec() -> (r: Vec<u8>)
    ensures
        r@ == lit_show_true(),
{
    let mut v: Vec<u8> = Vec::new();
    v.push(0x22); v.push(0x2c); v.push(0x22); v.push(0x73); v.push(0x68); v.push(0x6f);
    v.push(0x77); v.push(0x4f); v.push(0x6e); v.push(0x54); v.push(0x72); v.push(0x65);
    v.push(0x7a); v.push(0x6f); v.push(0x72); v.push(0x22); v.push(0x3a); v.push(0x74);
    v.push(0x72); v.push(0x75); v.push(0x65); v.push(0x7d);
    proof {
        assert(v@ =~= lit_show_true());
    }
    v
}

fn lit_show_false_vec() -> (r: Vec<u8>)
    ensures
        r@ == lit_show_false(),
{
    let mut v: Vec<u8> = Vec::new();
    v.push(0x22); v.push(0x2c); v.push(0x22); v.push(0x73); v.push(0x68); v.push(0x6f);
    v.push(0x77); v.push(0x4f); v.push(0x6e); v.push(0x54); v.push(0x72); v.push(0x65);
    v.push(0x7a); v.push(0x6f); v.push(0x72); v.push(0x22); v.push(0x3a); v.push(0x66);
    v.push(0x61); v.push(0x6c); v.push(0x73); v.push(0x65); v.push(0x7d);
    proof {
        assert(v@ =~= lit_show_false());
    }
    v
}

// ---------------------------------------------------------------------------
// Small byte-vector helpers
// ---------------------------------------------------------------------------

/// Append all of `s` to `out`.
fn append(out: &mut Vec<u8>, s: &Vec<u8>)
    ensures
        final(out)@ == old(out)@ + s@,
{
    let ghost base = out@;
    let mut i: usize = 0;
    proof {
        assert(out@ =~= base + s@.subrange(0, 0));
    }
    while i < s.len()
        invariant
            i <= s@.len(),
            out@ == base + s@.subrange(0, i as int),
        decreases s@.len() - i,
    {
        proof {
            assert(base + s@.subrange(0, i as int + 1) =~= (base + s@.subrange(0, i as int))
                + seq![s@[i as int]]);
        }
        out.push(s[i]);
        i = i + 1;
    }
    proof {
        assert(s@.subrange(0, s@.len() as int) =~= s@);
    }
}

/// Copy of a byte vector.
fn clone_bytes(v: &Vec<u8>) -> (r: Vec<u8>)
    ensures
        r@ == v@,
{
    let mut r: Vec<u8> = Vec::new();
    append(&mut r, v);
    proof {
        assert(Seq::<u8>::empty() + v@ =~= v@);
    }
    r
}

/// Abstraction of an optional byte vector.
pub open spec fn opt_bytes_view(o: Option<Vec<u8>>) -> Option<Seq<u8>> {
    match o {
        None => None,
        Some(v) => Some(v@),
    }
}

/// Copy of an optional borrowed byte vector.
fn clone_opt_bytes(o: Option<&Vec<u8>>) -> (r: Option<Vec<u8>>)
    ensures
        opt_bytes_view(r) == (match o {
            None => None::<Seq<u8>>,
            Some(v) => Some(v@),
        }),
{
    match o {
        None => None,
        Some(v) => Some(clone_bytes(v)),
    }
}

/// Byte-vector equality.
fn bytes_eq(a: &Vec<u8>, b: &Vec<u8>) -> (r: bool)
    ensures
        r == (a@ == b@),
{
    if a.len() != b.len() {
        return false;
    }
    let mut i: usize = 0;
    while i < a.len()
        invariant
            i <= a@.len(),
            a@.len() == b@.len(),
            forall|t: int| 0 <= t < i ==> a@[t] == b@[t],
        decreases a@.len() - i,
    {
        if a[i] != b[i] {
            return false;
        }
        i = i + 1;
    }
    proof {
        assert(a@ =~= b@);
    }
    true
}

// ---------------------------------------------------------------------------
// Commands and request lines
// ---------------------------------------------------------------------------

/// The closed set of commands the dispatcher can issue.
#[derive(Debug, PartialEq, Eq)]
pub enum Command {
    Init,
    GetFeatures,
    GetPublicKey { path: Vec<u8>, coin: Vec<u8> },
    GetAddress { path: Vec<u8>, coin: Vec<u8>, show_on_trezor: bool },
    Exit,
}

/// The mathematical shape of a command.
pub enum CommandV {
    Init,
    GetFeatures,
    GetPublicKey { path: Seq<u8>, coin: Seq<u8> },
    GetAddress { path: Seq<u8>, coin: Seq<u8>, show_on_trezor: bool },
    Exit,
}

impl View for Command {
    type V = CommandV;

    open spec fn view(&self) -> CommandV {
        match self {
            Command::Init => CommandV::Init,
            Command::GetFeatures => CommandV::GetFeatures,
            Command::GetPublicKey { path, coin } => CommandV::GetPublicKey {
                path: path@,
                coin: coin@,
            },
            Command::GetAddress { path, coin, show_on_trezor } => CommandV::GetAddress {
                path: path@,
                coin: coin@,
                show_on_trezor: *show_on_trezor,
            },
            Command::Exit => CommandV::Exit,
        }
    }
}

/// The single request line for a command: a flat JSON object with a
/// `command` discriminator, its keys in wire order, and string parameters
/// escaped. No line break occurs anywhere in it.
pub open spec fn spec_request_line(c: CommandV) -> Seq<u8> {
    match c {
        CommandV::Init => lit_req_init(),
        CommandV::GetFeatures => lit_req_features(),
        CommandV::Exit => lit_req_exit(),
        CommandV::GetPublicKey { path, coin } => lit_coin_open() + spec_escape(coin) + lit_pk_mid()
            + spec_escape(path) + lit_str_close(),
        CommandV::GetAddress { path, coin, show_on_trezor } => lit_coin_open() + spec_escape(coin)
            + lit_addr_mid() + spec_escape(path) + (if show_on_trezor {
            lit_show_true()
        } else {
            lit_show_false()
        }),
    }
}

/// Build the request line for a command.
pub fn request_line(c: &Command) -> (r: Vec<u8>)
    ensures
        r@ == spec_request_line(c@),
{
    match c {
        Command::Init => lit_req_init_vec(),
        Command::GetFeatures => lit_req_features_vec(),
        Command::Exit => lit_req_exit_vec(),
        Command::GetPublicKey { path, coin } => {
            let mut out = lit_coin_open_vec();
            escape_into(&mut out, coin);
            let mid = lit_pk_mid_vec();
            append(&mut out, &mid);
            escape_into(&mut out, path);
            let close = lit_str_close_vec();
            append(&mut out, &close);
            out
        },
        Command::GetAddress { path, coin, show_on_trezor } => {
            let mut out = lit_coin_open_vec();
            escape_into(&mut out, coin);
            let mid = lit_addr_mid_vec();
            append(&mut out, &mid);
            escape_into(&mut out, path);
            let tail = if *show_on_trezor {
                lit_show_true_vec()
            } else {
                lit_show_false_vec()
            };
            append(&mut out, &tail);
            out
        },
    }
}

// ---------------------------------------------------------------------------
// Typed results
// ---------------------------------------------------------------------------

/// Static descriptive attributes of the device.
#[derive(Debug, PartialEq, Eq)]
pub struct TrezorDeviceFeatures {
    pub device_id: Vec<u8>,
    pub vendor: Vec<u8>,
}

/// The mathematical shape of the device features.
pub struct DeviceFeaturesV {
    pub device_id: Seq<u8>,
    pub vendor: Seq<u8>,
}

impl View for TrezorDeviceFeatures {
    type V = DeviceFeaturesV;

    open spec fn view(&self) -> DeviceFeaturesV {
        DeviceFeaturesV { device_id: self.device_id@, vendor: self.vendor@ }
    }
}

/// Payload of a `getpk` reply.
#[derive(Debug, PartialEq, Eq)]
pub struct PublicKeyInfo {
    pub xpub: Vec<u8>,
}

/// The mathematical shape of a public-key payload.
pub struct PublicKeyInfoV {
    pub xpub: Seq<u8>,
}

impl View for PublicKeyInfo {
    type V = PublicKeyInfoV;

    open spec fn view(&self) -> PublicKeyInfoV {
        PublicKeyInfoV { xpub: self.xpub@ }
    }
}

/// Payload of a `getaddr` reply.
#[derive(Debug, PartialEq, Eq)]
pub struct AddressInfo {
    pub address: Vec<u8>,
}

/// The mathematical shape of an address payload.
pub struct AddressInfoV {
    pub address: Seq<u8>,
}

impl View for AddressInfo {
    type V = AddressInfoV;

    open spec fn view(&self) -> AddressInfoV {
        AddressInfoV { address: self.address@ }
    }
}

/// Reply envelope for a command that returns no data.
#[derive(Debug, PartialEq, Eq)]
pub struct UnitResponse {
    pub success: bool,
    pub error: Option<Vec<u8>>,
}

/// The mathematical shape of a data-free reply envelope.
pub struct UnitResponseV {
    pub success: bool,
    pub error: Option<Seq<u8>>,
}

impl View for UnitResponse {
    type V = UnitResponseV;

    open spec fn view(&self) -> UnitResponseV {
        UnitResponseV { success: self.success, error: opt_bytes_view(self.error) }
    }
}

/// Reply envelope for `getFeatures`.
#[derive(Debug, PartialEq, Eq)]
pub struct FeaturesResponse {
    pub success: bool,
    pub payload: Option<TrezorDeviceFeatures>,
    pub error: Option<Vec<u8>>,
}

/// The mathematical shape of a `getFeatures` reply envelope.
pub struct FeaturesResponseV {
    pub success: bool,
    pub payload: Option<DeviceFeaturesV>,
    pub error: Option<Seq<u8>>,
}

impl View for FeaturesResponse {
    type V = FeaturesResponseV;

    open spec fn view(&self) -> FeaturesResponseV {
        FeaturesResponseV {
            success: self.success,
            payload: (match self.payload {
                None => None,
                Some(d) => Some(d@),
            }),
            error: opt_bytes_view(self.error),
        }
    }
}

/// Reply envelope for `getpk`.
#[derive(Debug, PartialEq, Eq)]
pub struct PublicKeyResponse {
    pub success: bool,
    pub payload: Option<PublicKeyInfo>,
    pub error: Option<Vec<u8>>,
}

/// The mathematical shape of a `getpk` reply envelope.
pub struct PublicKeyResponseV {
    pub success: bool,
    pub payload: Option<PublicKeyInfoV>,
    pub error: Option<Seq<u8>>,
}

impl View for PublicKeyResponse {
    type V = PublicKeyResponseV;

    open spec fn view(&self) -> PublicKeyResponseV {
        PublicKeyResponseV {
            success: self.success,
            payload: (match self.payload {
                None => None,
                Some(d) => Some(d@),
            }),
            error: opt_bytes_view(self.error),
        }
    }
}

/// Reply envelope for `getaddr`.
#[derive(Debug, PartialEq, Eq)]
pub struct AddressResponse {
    pub success: bool,
    pub payload: Option<AddressInfo>,
    pub error: Option<Vec<u8>>,
}

/// The mathematical shape of a `getaddr` reply envelope.
pub struct AddressResponseV {
    pub success: bool,
    pub payload: Option<AddressInfoV>,
    pub error: Option<Seq<u8>>,
}

impl View for AddressResponse {
    type V = AddressResponseV;

    open spec fn view(&self) -> AddressResponseV {
        AddressResponseV {
            success: self.success,
            payload: (match self.payload {
                None => None,
                Some(d) => Some(d@),
            }),
            error: opt_bytes_view(self.error),
        }
    }
}

// ---------------------------------------------------------------------------
// Object member lookup
// ---------------------------------------------------------------------------

/// First binding of `key` among object members, if any.
pub open spec fn sp_lookup(ms: Seq<(Seq<u8>, JsonV)>, key: Seq<u8>) -> Option<JsonV>
    decreases ms.len(),
{
    if ms.len() == 0 {
        None
    } else if ms[0].0 == key {
        Some(ms[0].1)
    } else {
        sp_lookup(ms.drop_first(), key)
    }
}

/// Find the first member named `key`.
fn lookup<'a>(ms: &'a JsonMembers, key: &Vec<u8>) -> (r: Option<&'a Json>)
    ensures
        match r {
            Some(j) => sp_lookup(jmv(*ms), key@) == Some(jv(*j)),
            None => sp_lookup(jmv(*ms), key@) is None,
        },
    decreases *ms,
{
    match ms {
        JsonMembers::Nil => None,
        JsonMembers::Cons(k, v, t) => {
            proof {
                assert(jmv(*ms)[0] == (k@, jv(**v)));
                assert(jmv(*ms).drop_first() =~= jmv(**t));
            }
            if bytes_eq(k, key) {
                Some(v)
            } else {
                lookup(t, key)
            }
        },
    }
}

// ---------------------------------------------------------------------------
// Shape tests on values
// ---------------------------------------------------------------------------

/// The value is JSON `null`.
fn is_null(j: &Json) -> (r: bool)
    ensures
        r == (jv(*j) == JsonV::Null),
{
    match j {
        Json::Null => true,
        Json::Bool(_) => false,
        Json::Num(_) => false,
        Json::Str(_) => false,
        Json::Arr(_) => false,
        Json::Obj(_) => false,
    }
}

/// The value as a boolean, if it is one.
fn as_bool(j: &Json) -> (r: Option<bool>)
    ensures
        match r {
            Some(b) => jv(*j) == JsonV::Bool(b),
            None => !(jv(*j) is Bool),
        },
{
    match j {
        Json::Bool(b) => Some(*b),
        Json::Null => None,
        Json::Num(_) => None,
        Json::Str(_) => None,
        Json::Arr(_) => None,
        Json::Obj(_) => None,
    }
}

/// The value as string bytes, if it is a string.
fn as_str<'a>(j: &'a Json) -> (r: Option<&'a Vec<u8>>)
    ensures
        match r {
            Some(s) => jv(*j) == JsonV::Str(s@),
            None => !(jv(*j) is Str),
        },
{
    match j {
        Json::Str(s) => Some(s),
        Json::Null => None,
        Json::Bool(_) => None,
        Json::Num(_) => None,
        Json::Arr(_) => None,
        Json::Obj(_) => None,
    }
}

/// The value as object members, if it is an object.
fn as_obj<'a>(j: &'a Json) -> (r: Option<&'a JsonMembers>)
    ensures
        match r {
            Some(m) => jv(*j) == JsonV::Obj(jmv(*m)),
            None => !(jv(*j) is Obj),
        },
{
    match j {
        Json::Obj(m) => Some(m),
        Json::Null => None,
        Json::Bool(_) => None,
        Json::Num(_) => None,
        Json::Str(_) => None,
        Json::Arr(_) => None,
    }
}

// ---------------------------------------------------------------------------
// The generic envelope
// ---------------------------------------------------------------------------

/// The generic `{success, payload?, error?}` shape of a reply value:
/// `success` must be a boolean; a `payload` of `null` counts as absent; an
/// `error` must be a string or `null`. Unknown members are ignored. `None`
/// means the value does not have the envelope shape.
pub open spec fn spec_env_fields(v: JsonV) -> Option<(bool, Option<JsonV>, Option<Seq<u8>>)> {
    match v {
        JsonV::Obj(ms) => match sp_lookup(ms, key_success()) {
            Some(JsonV::Bool(b)) => {
                let pay = (match sp_lookup(ms, key_payload()) {
                    None => None,
                    Some(JsonV::Null) => None,
                    Some(p) => Some(p),
                });
                match sp_lookup(ms, key_error()) {
                    None => Some((b, pay, None)),
                    Some(JsonV::Null) => Some((b, pay, None)),
                    Some(JsonV::Str(e)) => Some((b, pay, Some(e))),
                    Some(_) => None,
                }
            },
            _ => None,
        },
        _ => None,
    }
}

/// Read the generic envelope fields out of a reply value.
fn env_fields<'a>(j: &'a Json) -> (r: Option<(bool, Option<&'a Json>, Option<&'a Vec<u8>>)>)
    ensures
        match r {
            None => spec_env_fields(jv(*j)) is None,
            Some((b, p, e)) => spec_env_fields(jv(*j)) == Some(
                (
                    b,
                    match p {
                        None => None::<JsonV>,
                        Some(pj) => Some(jv(*pj)),
                    },
                    match e {
                        None => None::<Seq<u8>>,
                        Some(ev) => Some(ev@),
                    },
                ),
            ),
        },
{
    let msr = match as_obj(j) {
        None => {
            return None;
        },
        Some(m) => m,
    };
    let ks = key_success_vec();
    let suc = match lookup(msr, &ks) {
        None => {
            return None;
        },
        Some(sj) => match as_bool(sj) {
            None => {
                return None;
            },
            Some(b) => b,
        },
    };
    let kp = key_payload_vec();
    let pay = match lookup(msr, &kp) {
        None => None,
        Some(p) => if is_null(p) {
            None
        } else {
            Some(p)
        },
    };
    let ke = key_error_vec();
    let err = match lookup(msr, &ke) {
        None => None,
        Some(ej) => if is_null(ej) {
            None
        } else {
            match as_str(ej) {
                None => {
                    return None;
                },
                Some(s) => Some(s),
            }
        },
    };
    Some((suc, pay, err))
}

/// The schema-mismatch error.
fn json_schema_error() -> (r: HardwareError)
    ensures
        r@ == HardwareErrorV::Json(msg_invalid_envelope()),
{
    HardwareError::JsonError { error_details: msg_invalid_envelope_vec() }
}

// ---------------------------------------------------------------------------
// Typed decoding, one rule set per command
// ---------------------------------------------------------------------------

/// Decode a reply value for a command that returns no data: the envelope
/// shape with no payload at all.
pub open spec fn spec_decode_unit(v: JsonV) -> Result<UnitResponseV, Seq<u8>> {
    match spec_env_fields(v) {
        None => Err(msg_invalid_envelope()),
        Some((suc, pay, err)) => match pay {
            None => Ok(UnitResponseV { success: suc, error: err }),
            Some(_) => Err(msg_invalid_envelope()),
        },
    }
}

/// Decode a reply value for a command that returns no data.
pub fn decode_unit(j: &Json) -> (r: Result<UnitResponse, HardwareError>)
    ensures
        (match r {
            Ok(u) => spec_decode_unit(jv(*j)) == Ok::<_, Seq<u8>>(u@),
            Err(e) => spec_decode_unit(jv(*j)) == Err::<UnitResponseV, _>(msg_invalid_envelope()) && e@
                == HardwareErrorV::Json(msg_invalid_envelope()),
        }),
{
    match env_fields(j) {
        None => Err(json_schema_error()),
        Some((suc, pay, err)) => match pay {
            Some(_) => Err(json_schema_error()),
            None => Ok(UnitResponse { success: suc, error: clone_opt_bytes(err) }),
        },
    }
}

/// The device-features payload schema: an object with string members
/// `device_id` and `vendor`; other members are ignored.
pub open spec fn spec_features_payload(p: JsonV) -> Option<DeviceFeaturesV> {
    match p {
        JsonV::Obj(pm) => match (sp_lookup(pm, key_device_id()), sp_lookup(pm, key_vendor())) {
            (Some(JsonV::Str(d)), Some(JsonV::Str(ven))) => Some(
                DeviceFeaturesV { device_id: d, vendor: ven },
            ),
            _ => None,
        },
        _ => None,
    }
}

/// Decode a `getFeatures` reply value. A successful envelope must carry a
/// well-formed payload; an unsuccessful one may omit it.
pub open spec fn spec_decode_features(v: JsonV) -> Result<FeaturesResponseV, Seq<u8>> {
    match spec_env_fields(v) {
        None => Err(msg_invalid_envelope()),
        Some((suc, pay, err)) => match pay {
            None => if suc {
                Err(msg_invalid_envelope())
            } else {
                Ok(FeaturesResponseV { success: suc, payload: None, error: err })
            },
            Some(p) => match spec_features_payload(p) {
                None => Err(msg_invalid_envelope()),
                Some(d) => Ok(FeaturesResponseV { success: suc, payload: Some(d), error: err }),
            },
        },
    }
}

/// Decode a `getFeatures` reply value.
pub fn decode_features(j: &Json) -> (r: Result<FeaturesResponse, HardwareError>)
    ensures
        (match r {
            Ok(u) => spec_decode_features(jv(*j)) == Ok::<_, Seq<u8>>(u@),
            Err(e) => spec_decode_features(jv(*j)) == Err::<FeaturesResponseV, _>(msg_invalid_envelope()) && e@
                == HardwareErrorV::Json(msg_invalid_envelope()),
        }),
{
    match env_fields(j) {
        None => Err(json_schema_error()),
        Some((suc, pay, err)) => match pay {
            None => if suc {
                Err(json_schema_error())
            } else {
                Ok(FeaturesResponse { success: suc, payload: None, error: clone_opt_bytes(err) })
            },
            Some(p) => {
                let pm = match as_obj(p) {
                    None => {
                        return Err(json_schema_error());
                    },
                    Some(m) => m,
                };
                let kd = key_device_id_vec();
                let d = match lookup(pm, &kd) {
                    None => {
                        return Err(json_schema_error());
                    },
                    Some(dj) => match as_str(dj) {
                        None => {
                            return Err(json_schema_error());
                        },
                        Some(s) => s,
                    },
                };
                let kv = key_vendor_vec();
                let ven = match lookup(pm, &kv) {
                    None => {
                        return Err(json_schema_error());
                    },
                    Some(vj) => match as_str(vj) {
                        None => {
                            return Err(json_schema_error());
                        },
                        Some(s) => s,
                    },
                };
                Ok(
                    FeaturesResponse {
                        success: suc,
                        payload: Some(
                            TrezorDeviceFeatures {
                                device_id: clone_bytes(d),
                                vendor: clone_bytes(ven),
                            },
                        ),
                        error: clone_opt_bytes(err),
                    },
                )
            },
        },
    }
}

/// The public-key payload schema: an object with a string member `xpub`.
pub open spec fn spec_public_key_payload(p: JsonV) -> Option<PublicKeyInfoV> {
    match p {
        JsonV::Obj(pm) => match sp_lookup(pm, key_xpub()) {
            Some(JsonV::Str(x)) => Some(PublicKeyInfoV { xpub: x }),
            _ => None,
        },
        _ => None,
    }
}

/// Decode a `getpk` reply value.
pub open spec fn spec_decode_public_key(v: JsonV) -> Result<PublicKeyResponseV, Seq<u8>> {
    match spec_env_fields(v) {
        None => Err(msg_invalid_envelope()),
        Some((suc, pay, err)) => match pay {
            None => if suc {
                Err(msg_invalid_envelope())
            } else {
                Ok(PublicKeyResponseV { success: suc, payload: None, error: err })
            },
            Some(p) => match spec_public_key_payload(p) {
                None => Err(msg_invalid_envelope()),
                Some(d) => Ok(PublicKeyResponseV { success: suc, payload: Some(d), error: err }),
            },
        },
    }
}

/// Decode a `getpk` reply value.
pub fn decode_public_key(j: &Json) -> (r: Result<PublicKeyResponse, HardwareError>)
    ensures
        (match r {
            Ok(u) => spec_decode_public_key(jv(*j)) == Ok::<_, Seq<u8>>(u@),
            Err(e) => spec_decode_public_key(jv(*j)) == Err::<PublicKeyResponseV, _>(msg_invalid_envelope()) && e@
                == HardwareErrorV::Json(msg_invalid_envelope()),
        }),
{
    match env_fields(j) {
        None => Err(json_schema_error()),
        Some((suc, pay, err)) => match pay {
            None => if suc {
                Err(json_schema_error())
            } else {
                Ok(PublicKeyResponse { success: suc, payload: None, error: clone_opt_bytes(err) })
            },
            Some(p) => {
                let pm = match as_obj(p) {
                    None => {
                        return Err(json_schema_error());
                    },
                    Some(m) => m,
                };
                let kx = key_xpub_vec();
                let x = match lookup(pm, &kx) {
                    None => {
                        return Err(json_schema_error());
                    },
                    Some(xj) => match as_str(xj) {
                        None => {
                            return Err(json_schema_error());
                        },
                        Some(s) => s,
                    },
                };
                Ok(
                    PublicKeyResponse {
                        success: suc,
                        payload: Some(PublicKeyInfo { xpub: clone_bytes(x) }),
                        error: clone_opt_bytes(err),
                    },
                )
            },
        },
    }
}

/// The address payload schema: an object with a string member `address`.
pub open spec fn spec_address_payload(p: JsonV) -> Option<AddressInfoV> {
    match p {
        JsonV::Obj(pm) => match sp_lookup(pm, key_address()) {
            Some(JsonV::Str(a)) => Some(AddressInfoV { address: a }),
            _ => None,
        },
        _ => None,
    }
}

/// Decode a `getaddr` reply value.
pub open spec fn spec_decode_address(v: JsonV) -> Result<AddressResponseV, Seq<u8>> {
    match spec_env_fields(v) {
        None => Err(msg_invalid_envelope()),
        Some((suc, pay, err)) => match pay {
            None => if suc {
                Err(msg_invalid_envelope())
            } else {
                Ok(AddressResponseV { success: suc, payload: None, error: err })
            },
            Some(p) => match spec_address_payload(p) {
                None => Err(msg_invalid_envelope()),
                Some(d) => Ok(AddressResponseV { success: suc, payload: Some(d), error: err }),
            },
        },
    }
}

/// Decode a `getaddr` reply value.
pub fn decode_address(j: &Json) -> (r: Result<AddressResponse, HardwareError>)
    ensures
        (match r {
            Ok(u) => spec_decode_address(jv(*j)) == Ok::<_, Seq<u8>>(u@),
            Err(e) => spec_decode_address(jv(*j)) == Err::<AddressResponseV, _>(msg_invalid_envelope()) && e@
                == HardwareErrorV::Json(msg_invalid_envelope()),
        }),
{
    match env_fields(j) {
        None => Err(json_schema_error()),
        Some((suc, pay, err)) => match pay {
            None => if suc {
                Err(json_schema_error())
            } else {
                Ok(AddressResponse { success: suc, payload: None, error: clone_opt_bytes(err) })
            },
            Some(p) => {
                let pm = match as_obj(p) {
                    None => {
                        return Err(json_schema_error());
                    },
                    Some(m) => m,
                };
                let ka = key_address_vec();
                let a = match lookup(pm, &ka) {
                    None => {
                        return Err(json_schema_error());
                    },
                    Some(aj) => match as_str(aj) {
                        None => {
                            return Err(json_schema_error());
                        },
                        Some(s) => s,
                    },
                };
                Ok(
                    AddressResponse {
                        success: suc,
                        payload: Some(AddressInfo { address: clone_bytes(a) }),
                        error: clone_opt_bytes(err),
                    },
                )
            },
        },
    }
}

// ---------------------------------------------------------------------------
// One response line to one reply value
// ---------------------------------------------------------------------------

/// The synthetic unsuccessful envelope the channel fabricates for protocol
/// noise.
pub open spec fn spec_synth_env(msg: Seq<u8>) -> JsonV {
    JsonV::Obj(seq![(key_success(), JsonV::Bool(false)), (key_error(), JsonV::Str(msg))])
}

/// The reply value a peer line stands for: a blank line and a line that is
/// not JSON become synthetic unsuccessful envelopes instead of failing the
/// call.
pub open spec fn spec_line_env(line: Seq<u8>) -> JsonV {
    if spec_line_is_blank(line) {
        spec_synth_env(msg_empty_output())
    } else {
        match spec_json_doc(line) {
            Some(v) => v,
            None => spec_synth_env(msg_parse_error()),
        }
    }
}

/// Build the synthetic unsuccessful envelope carrying `msg`.
fn synth_env(msg: Vec<u8>) -> (r: Json)
    ensures
        jv(r) == spec_synth_env(msg@),
{
    let ghost m = msg@;
    let ks = key_success_vec();
    let ke = key_error_vec();
    let sj = Json::Str(msg);
    proof {
        assert(jv(sj) == JsonV::Str(m));
        assert(jmv(JsonMembers::Nil) == Seq::<(Seq<u8>, JsonV)>::empty());
    }
    let inner = JsonMembers::Cons(ke, Box::new(sj), Box::new(JsonMembers::Nil));
    proof {
        assert(jmv(inner) =~= seq![(key_error(), JsonV::Str(m))]);
    }
    let bf = Json::Bool(false);
    proof {
        assert(jv(bf) == JsonV::Bool(false));
    }
    let outer = JsonMembers::Cons(ks, Box::new(bf), Box::new(inner));
    proof {
        assert(jmv(outer) =~= seq![
            (key_success(), JsonV::Bool(false)),
            (key_error(), JsonV::Str(m)),
        ]);
    }
    Json::Obj(Box::new(outer))
}

/// Turn one peer line into the reply value it stands for.
pub fn line_env(line: &Vec<u8>) -> (r: Json)
    ensures
        jv(r) == spec_line_env(line@),
{
    if line_is_blank(line) {
        return synth_env(msg_empty_output_vec());
    }
    match parse_json(line) {
        Some(j) => j,
        None => synth_env(msg_parse_error_vec()),
    }
}

// ---------------------------------------------------------------------------
// The dispatcher: one response interpreter per command
// ---------------------------------------------------------------------------

/// What an `init` call returns for a given peer line.
pub open spec fn spec_unit_response(line: Seq<u8>) -> Result<UnitResponseV, Seq<u8>> {
    spec_decode_unit(spec_line_env(line))
}

/// Interpret the peer line answering `init`.
pub fn init_response(line: &Vec<u8>) -> (r: Result<UnitResponse, HardwareError>)
    ensures
        (match r {
            Ok(u) => spec_unit_response(line@) == Ok::<_, Seq<u8>>(u@),
            Err(e) => spec_unit_response(line@) == Err::<UnitResponseV, _>(msg_invalid_envelope()) && e@
                == HardwareErrorV::Json(msg_invalid_envelope()),
        }),
{
    let env = line_env(line);
    decode_unit(&env)
}

/// Interpret the peer line answering `exit`.
pub fn exit_response(line: &Vec<u8>) -> (r: Result<UnitResponse, HardwareError>)
    ensures
        (match r {
            Ok(u) => spec_unit_response(line@) == Ok::<_, Seq<u8>>(u@),
            Err(e) => spec_unit_response(line@) == Err::<UnitResponseV, _>(msg_invalid_envelope()) && e@
                == HardwareErrorV::Json(msg_invalid_envelope()),
        }),
{
    let env = line_env(line);
    decode_unit(&env)
}

/// What a `getFeatures` call returns for a given peer line.
pub open spec fn spec_features_response(line: Seq<u8>) -> Result<FeaturesResponseV, Seq<u8>> {
    spec_decode_features(spec_line_env(line))
}

/// Interpret the peer line answering `getFeatures`.
pub fn features_response(line: &Vec<u8>) -> (r: Result<FeaturesResponse, HardwareError>)
    ensures
        (match r {
            Ok(u) => spec_features_response(line@) == Ok::<_, Seq<u8>>(u@),
            Err(e) => spec_features_response(line@) == Err::<FeaturesResponseV, _>(msg_invalid_envelope()) && e@
                == HardwareErrorV::Json(msg_invalid_envelope()),
        }),
{
    let env = line_env(line);
    decode_features(&env)
}

/// What a `getpk` call returns for a given peer line.
pub open spec fn spec_public_key_response(line: Seq<u8>) -> Result<PublicKeyResponseV, Seq<u8>> {
    spec_decode_public_key(spec_line_env(line))
}

/// Interpret the peer line answering `getpk`.
pub fn public_key_response(line: &Vec<u8>) -> (r: Result<PublicKeyResponse, HardwareError>)
    ensures
        (match r {
            Ok(u) => spec_public_key_response(line@) == Ok::<_, Seq<u8>>(u@),
            Err(e) => spec_public_key_response(line@) == Err::<PublicKeyResponseV, _>(msg_invalid_envelope()) && e@
                == HardwareErrorV::Json(msg_invalid_envelope()),
        }),
{
    let env = line_env(line);
    decode_public_key(&env)
}

/// What a `getaddr` call returns for a given peer line.
pub open spec fn spec_address_response(line: Seq<u8>) -> Result<AddressResponseV, Seq<u8>> {
    spec_decode_address(spec_line_env(line))
}

/// Interpret the peer line answering `getaddr`.
pub fn address_response(line: &Vec<u8>) -> (r: Result<AddressResponse, HardwareError>)
    ensures
        (match r {
            Ok(u) => spec_address_response(line@) == Ok::<_, Seq<u8>>(u@),
            Err(e) => spec_address_response(line@) == Err::<AddressResponseV, _>(msg_invalid_envelope()) && e@
                == HardwareErrorV::Json(msg_invalid_envelope()),
        }),
{
    let env = line_env(line);
    decode_address(&env)
}

// ---------------------------------------------------------------------------
// Facade decisions
// ---------------------------------------------------------------------------

/// The text reported for an unsuccessful envelope.
pub open spec fn spec_error_text(e: Option<Seq<u8>>) -> Seq<u8> {
    match e {
        Some(t) => t,
        None => msg_unknown_error(),
    }
}

/// What `initialize` reports once the `init` envelope is decoded: the
/// confirmation text on success, otherwise an initialization error carrying
/// the peer text, or a stock text when the peer gave none.
pub open spec fn spec_init_outcome(u: UnitResponseV) -> Result<Seq<u8>, HardwareErrorV> {
    if u.success {
        Ok(msg_init_ok())
    } else {
        Err(HardwareErrorV::Initialization(spec_error_text(u.error)))
    }
}

/// Decide what `initialize` reports for a decoded `init` envelope.
pub fn init_outcome(u: &UnitResponse) -> (r: Result<Vec<u8>, HardwareError>)
    ensures
        (match r {
            Ok(m) => spec_init_outcome(u@) == Ok::<_, HardwareErrorV>(m@),
            Err(e) => spec_init_outcome(u@) == Err::<Seq<u8>, _>(e@),
        }),
{
    if u.success {
        Ok(msg_init_ok_vec())
    } else {
        let details = match &u.error {
            Some(t) => clone_bytes(t),
            None => msg_unknown_error_vec(),
        };
        Err(HardwareError::InitializationError { error_details: details })
    }
}

/// What `get_device_features` reports once the `getFeatures` envelope is
/// decoded: the payload on success (the decoder guarantees it is present),
/// otherwise an initialization error carrying the peer text.
pub open spec fn spec_features_outcome(f: FeaturesResponseV) -> Result<
    DeviceFeaturesV,
    HardwareErrorV,
> {
    if f.success {
        match f.payload {
            Some(d) => Ok(d),
            None => Err(HardwareErrorV::Json(msg_invalid_envelope())),
        }
    } else {
        Err(HardwareErrorV::Initialization(spec_error_text(f.error)))
    }
}

/// Decide what `get_device_features` reports for a decoded envelope.
pub fn features_outcome(f: FeaturesResponse) -> (r: Result<TrezorDeviceFeatures, HardwareError>)
    ensures
        (match r {
            Ok(d) => spec_features_outcome(f@) == Ok::<_, HardwareErrorV>(d@),
            Err(e) => spec_features_outcome(f@) == Err::<DeviceFeaturesV, _>(e@),
        }),
{
    if f.success {
        match f.payload {
            Some(d) => Ok(d),
            None => Err(json_schema_error()),
        }
    } else {
        let details = match &f.error {
            Some(t) => clone_bytes(t),
            None => msg_unknown_error_vec(),
        };
        Err(HardwareError::InitializationError { error_details: details })
    }
}

// ---------------------------------------------------------------------------
// Laws of the channel
// ---------------------------------------------------------------------------

/// No byte of `s` is a line break.
pub open spec fn has_no_nl(s: Seq<u8>) -> bool {
    forall|t: int| 0 <= t < s.len() ==> s[t] != 0x0a
}

proof fn lemma_concat_no_nl(a: Seq<u8>, b: Seq<u8>)
    requires
        has_no_nl(a),
        has_no_nl(b),
    ensures
        has_no_nl(a + b),
{
    assert forall|t: int| 0 <= t < (a + b).len() implies (a + b)[t] != 0x0a by {
        if t < a.len() {
            assert((a + b)[t] == a[t]);
        } else {
            assert((a + b)[t] == b[t - a.len()]);
        }
    }
}

proof fn lemma_escape_byte_no_nl(b: u8)
    ensures
        has_no_nl(crate::json::spec_escape_byte(b)),
{
    if b == 0x22 {
    } else if b == 0x5c {
    } else if b < 0x20 {
        assert(crate::json::spec_hexdig(b as int / 16) != 0x0a);
        assert(crate::json::spec_hexdig(b as int % 16) != 0x0a);
    } else {
    }
}

proof fn lemma_escape_no_nl(s: Seq<u8>, i: int)
    ensures
        has_no_nl(crate::json::sp_escape_from(s, i)),
    decreases s.len() - i,
{
    if i < 0 || i >= s.len() {
    } else {
        lemma_escape_byte_no_nl(s[i]);
        lemma_escape_no_nl(s, i + 1);
        lemma_concat_no_nl(
            crate::json::spec_escape_byte(s[i]),
            crate::json::sp_escape_from(s, i + 1),
        );
    }
}

/// Law: the request for any command is a single line — no line-break byte
/// occurs anywhere in it — so writing it followed by one line break frames
/// exactly one request per call.
pub proof fn lemma_request_single_line(c: CommandV)
    ensures
        has_no_nl(spec_request_line(c)),
{
    match c {
        CommandV::Init => {},
        CommandV::GetFeatures => {},
        CommandV::Exit => {},
        CommandV::GetPublicKey { path, coin } => {
            lemma_escape_no_nl(coin, 0);
            lemma_escape_no_nl(path, 0);
            lemma_concat_no_nl(lit_coin_open(), spec_escape(coin));
            lemma_concat_no_nl(lit_coin_open() + spec_escape(coin), lit_pk_mid());
            lemma_concat_no_nl(
                lit_coin_open() + spec_escape(coin) + lit_pk_mid(),
                spec_escape(path),
            );
            lemma_concat_no_nl(
                lit_coin_open() + spec_escape(coin) + lit_pk_mid() + spec_escape(path),
                lit_str_close(),
            );
        },
        CommandV::GetAddress { path, coin, show_on_trezor } => {
            lemma_escape_no_nl(coin, 0);
            lemma_escape_no_nl(path, 0);
            lemma_concat_no_nl(lit_coin_open(), spec_escape(coin));
            lemma_concat_no_nl(lit_coin_open() + spec_escape(coin), lit_addr_mid());
            lemma_concat_no_nl(
                lit_coin_open() + spec_escape(coin) + lit_addr_mid(),
                spec_escape(path),
            );
            if show_on_trezor {
                lemma_concat_no_nl(
                    lit_coin_open() + spec_escape(coin) + lit_addr_mid() + spec_escape(path),
                    lit_show_true(),
                );
            } else {
                lemma_concat_no_nl(
                    lit_coin_open() + spec_escape(coin) + lit_addr_mid() + spec_escape(path),
                    lit_show_false(),
                );
            }
        },
    }
}

/// Law: a `getaddr` request built with the confirmation flag on ends with
/// the `","showOnTrezor":true}` member, whatever the path and coin are.
pub proof fn lemma_get_address_shows_on_trezor(path: Seq<u8>, coin: Seq<u8>)
    ensures
        spec_request_line(CommandV::GetAddress { path, coin, show_on_trezor: true }).subrange(
            spec_request_line(CommandV::GetAddress { path, coin, show_on_trezor: true }).len()
                - lit_show_true().len(),
            spec_request_line(CommandV::GetAddress { path, coin, show_on_trezor: true }).len()
                as int,
        ) == lit_show_true(),
{
    let line = spec_request_line(CommandV::GetAddress { path, coin, show_on_trezor: true });
    let prefix = lit_coin_open() + spec_escape(coin) + lit_addr_mid() + spec_escape(path);
    assert(line == prefix + lit_show_true());
    assert(line.subrange(line.len() - lit_show_true().len(), line.len() as int)
        =~= lit_show_true());
}



proof fn lemma_pk_members_tail(s: Seq<u8>, path: Seq<u8>, n1: int, len: int)
    requires
        9 <= n1,
        len == s.len(),
        len == n1 + 30 + spec_escape(path).len(),
        forall|t: int| 0 <= t < 28 ==> s[n1 + t] == lit_pk_mid()[t],
        forall|t: int|
            0 <= t < spec_escape(path).len() ==> s[n1 + 28 + t] == spec_escape(path)[t],
        forall|t: int|
            0 <= t < 2 ==> s[n1 + 28 + spec_escape(path).len() + t] == lit_str_close()[t],
    ensures
        forall|f: nat|
            f >= 2 ==> #[trigger] sp_members(s, n1 + 20, 127, f) == Some(
                (seq![(seq![0x70u8, 0x61u8, 0x74u8, 0x68u8], JsonV::Str(path))], len),
            ),
{
    let n2 = n1 + 28;
    let n3 = n2 + spec_escape(path).len() as int;
    assert(s[n1 + 19] == 0x2c) by {
        assert(lit_pk_mid()[19] == 0x2c);
    }
    assert(s[n1 + 20] == 0x22) by {
        assert(lit_pk_mid()[20] == 0x22);
    }
    assert(s[n1 + 21] == 0x70) by {
        assert(lit_pk_mid()[21] == 0x70);
    }
    assert(s[n1 + 22] == 0x61) by {
        assert(lit_pk_mid()[22] == 0x61);
    }
    assert(s[n1 + 23] == 0x74) by {
        assert(lit_pk_mid()[23] == 0x74);
    }
    assert(s[n1 + 24] == 0x68) by {
        assert(lit_pk_mid()[24] == 0x68);
    }
    assert(s[n1 + 25] == 0x22) by {
        assert(lit_pk_mid()[25] == 0x22);
    }
    assert(s[n1 + 26] == 0x3a) by {
        assert(lit_pk_mid()[26] == 0x3a);
    }
    assert(s[n1 + 27] == 0x22) by {
        assert(lit_pk_mid()[27] == 0x22);
    }
    assert(s[n1 + 28 + spec_escape(path).len() + 0] == 0x22) by {
        assert(lit_str_close()[0] == 0x22);
    }
    assert(s[n1 + 28 + spec_escape(path).len() + 1] == 0x7d) by {
        assert(lit_str_close()[1] == 0x7d);
    }
    assert(s.subrange(n2, n3) =~= spec_escape(path));
    assert(s[n3] == 0x22);
    lemma_escaped_parses(s, path, 0, n2);
    assert(path.subrange(0, path.len() as int) =~= path);
    assert(sp_str_rest(s, n1 + 25) == Some((Seq::<u8>::empty(), n1 + 25 + 1)));
    let g_kpath_3 = seq![s[n1 + 21 + 3]] + Seq::<u8>::empty();
    assert(sp_str_rest(s, n1 + 21 + 3) == Some((g_kpath_3, n1 + 25 + 1)));
    let g_kpath_2 = seq![s[n1 + 21 + 2]] + g_kpath_3;
    assert(sp_str_rest(s, n1 + 21 + 2) == Some((g_kpath_2, n1 + 25 + 1)));
    let g_kpath_1 = seq![s[n1 + 21 + 1]] + g_kpath_2;
    assert(sp_str_rest(s, n1 + 21 + 1) == Some((g_kpath_1, n1 + 25 + 1)));
    let g_kpath_0 = seq![s[n1 + 21]] + g_kpath_1;
    assert(sp_str_rest(s, n1 + 21) == Some((g_kpath_0, n1 + 25 + 1)));
    assert(g_kpath_0 =~= seq![0x70u8, 0x61u8, 0x74u8, 0x68u8]);
    assert(sp_ws_count(s, n1 + 20) == 0);
    assert(sp_ws_count(s, n1 + 26) == 0);
    assert(sp_ws_count(s, n1 + 27) == 0);
    assert(sp_ws_count(s, n3 + 1) == 0);
    assert forall|f: nat| f >= 2 implies #[trigger] sp_members(s, n1 + 20, 127, f) == Some(
        (seq![(seq![0x70u8, 0x61u8, 0x74u8, 0x68u8], JsonV::Str(path))], len),
    ) by {
        assert(sp_value(s, n1 + 27, 127, (f - 1) as nat) == Some((JsonV::Str(path), n3 + 1)));
    }
}

proof fn lemma_pk_members_mid(s: Seq<u8>, path: Seq<u8>, n1: int, len: int)
    requires
        9 <= n1,
        len == s.len(),
        len == n1 + 30 + spec_escape(path).len(),
        forall|t: int| 0 <= t < 28 ==> s[n1 + t] == lit_pk_mid()[t],
        forall|t: int|
            0 <= t < spec_escape(path).len() ==> s[n1 + 28 + t] == spec_escape(path)[t],
        forall|t: int|
            0 <= t < 2 ==> s[n1 + 28 + spec_escape(path).len() + t] == lit_str_close()[t],
    ensures
        forall|f: nat|
            f >= 3 ==> #[trigger] sp_members(s, n1 + 2, 127, f) == Some(
                (
                    seq![
                        (seq![0x63u8, 0x6fu8, 0x6du8, 0x6du8, 0x61u8, 0x6eu8, 0x64u8], JsonV::Str(seq![0x67u8, 0x65u8, 0x74u8, 0x70u8, 0x6bu8])),
                        (seq![0x70u8, 0x61u8, 0x74u8, 0x68u8], JsonV::Str(path)),
                    ],
                    len,
                ),
            ),
{
    lemma_pk_members_tail(s, path, n1, len);
    assert(s[n1 + 2] == 0x22) by {
        assert(lit_pk_mid()[2] == 0x22);
    }
    assert(s[n1 + 3] == 0x63) by {
        assert(lit_pk_mid()[3] == 0x63);
    }
    assert(s[n1 + 4] == 0x6f) by {
        assert(lit_pk_mid()[4] == 0x6f);
    }
    assert(s[n1 + 5] == 0x6d) by {
        assert(lit_pk_mid()[5] == 0x6d);
    }
    assert(s[n1 + 6] == 0x6d) by {
        assert(lit_pk_mid()[6] == 0x6d);
    }
    assert(s[n1 + 7] == 0x61) by {
        assert(lit_pk_mid()[7] == 0x61);
    }
    assert(s[n1 + 8] == 0x6e) by {
        assert(lit_pk_mid()[8] == 0x6e);
    }
    assert(s[n1 + 9] == 0x64) by {
        assert(lit_pk_mid()[9] == 0x64);
    }
    assert(s[n1 + 10] == 0x22) by {
        assert(lit_pk_mid()[10] == 0x22);
    }
    assert(s[n1 + 11] == 0x3a) by {
        assert(lit_pk_mid()[11] == 0x3a);
    }
    assert(s[n1 + 12] == 0x22) by {
        assert(lit_pk_mid()[12] == 0x22);
    }
    assert(s[n1 + 13] == 0x67) by {
        assert(lit_pk_mid()[13] == 0x67);
    }
    assert(s[n1 + 14] == 0x65) by {
        assert(lit_pk_mid()[14] == 0x65);
    }
    assert(s[n1 + 15] == 0x74) by {
        assert(lit_pk_mid()[15] == 0x74);
    }
    assert(s[n1 + 16] == 0x70) by {
        assert(lit_pk_mid()[16] == 0x70);
    }
    assert(s[n1 + 17] == 0x6b) by {
        assert(lit_pk_mid()[17] == 0x6b);
    }
    assert(s[n1 + 18] == 0x22) by {
        assert(lit_pk_mid()[18] == 0x22);
    }
    assert(s[n1 + 19] == 0x2c) by {
        assert(lit_pk_mid()[19] == 0x2c);
    }
    assert(sp_str_rest(s, n1 + 10) == Some((Seq::<u8>::empty(), n1 + 10 + 1)));
    let g_kcmd_6 = seq![s[n1 + 3 + 6]] + Seq::<u8>::empty();
    assert(sp_str_rest(s, n1 + 3 + 6) == Some((g_kcmd_6, n1 + 10 + 1)));
    let g_kcmd_5 = seq![s[n1 + 3 + 5]] + g_kcmd_6;
    assert(sp_str_rest(s, n1 + 3 + 5) == Some((g_kcmd_5, n1 + 10 + 1)));
    let g_kcmd_4 = seq![s[n1 + 3 + 4]] + g_kcmd_5;
    assert(sp_str_rest(s, n1 + 3 + 4) == Some((g_kcmd_4, n1 + 10 + 1)));
    let g_kcmd_3 = seq![s[n1 + 3 + 3]] + g_kcmd_4;
    assert(sp_str_rest(s, n1 + 3 + 3) == Some((g_kcmd_3, n1 + 10 + 1)));
    let g_kcmd_2 = seq![s[n1 + 3 + 2]] + g_kcmd_3;
    assert(sp_str_rest(s, n1 + 3 + 2) == Some((g_kcmd_2, n1 + 10 + 1)));
    let g_kcmd_1 = seq![s[n1 + 3 + 1]] + g_kcmd_2;
    assert(sp_str_rest(s, n1 + 3 + 1) == Some((g_kcmd_1, n1 + 10 + 1)));
    let g_kcmd_0 = seq![s[n1 + 3]] + g_kcmd_1;
    assert(sp_str_rest(s, n1 + 3) == Some((g_kcmd_0, n1 + 10 + 1)));
    assert(g_kcmd_0 =~= seq![0x63u8, 0x6fu8, 0x6du8, 0x6du8, 0x61u8, 0x6eu8, 0x64u8]);
    assert(sp_str_rest(s, n1 + 18) == Some((Seq::<u8>::empty(), n1 + 18 + 1)));
    let g_vgetpk_4 = seq![s[n1 + 13 + 4]] + Seq::<u8>::empty();
    assert(sp_str_rest(s, n1 + 13 + 4) == Some((g_vgetpk_4, n1 + 18 + 1)));
    let g_vgetpk_3 = seq![s[n1 + 13 + 3]] + g_vgetpk_4;
    assert(sp_str_rest(s, n1 + 13 + 3) == Some((g_vgetpk_3, n1 + 18 + 1)));
    let g_vgetpk_2 = seq![s[n1 + 13 + 2]] + g_vgetpk_3;
    assert(sp_str_rest(s, n1 + 13 + 2) == Some((g_vgetpk_2, n1 + 18 + 1)));
    let g_vgetpk_1 = seq![s[n1 + 13 + 1]] + g_vgetpk_2;
    assert(sp_str_rest(s, n1 + 13 + 1) == Some((g_vgetpk_1, n1 + 18 + 1)));
    let g_vgetpk_0 = seq![s[n1 + 13]] + g_vgetpk_1;
    assert(sp_str_rest(s, n1 + 13) == Some((g_vgetpk_0, n1 + 18 + 1)));
    assert(g_vgetpk_0 =~= seq![0x67u8, 0x65u8, 0x74u8, 0x70u8, 0x6bu8]);
    assert(sp_ws_count(s, n1 + 2) == 0);
    assert(sp_ws_count(s, n1 + 11) == 0);
    assert(sp_ws_count(s, n1 + 12) == 0);
    assert(sp_ws_count(s, n1 + 19) == 0);
    assert forall|f: nat| f >= 3 implies #[trigger] sp_members(s, n1 + 2, 127, f) == Some(
        (
            seq![(seq![0x63u8, 0x6fu8, 0x6du8, 0x6du8, 0x61u8, 0x6eu8, 0x64u8], JsonV::Str(seq![0x67u8, 0x65u8, 0x74u8, 0x70u8, 0x6bu8])), (seq![0x70u8, 0x61u8, 0x74u8, 0x68u8], JsonV::Str(path))],
            len,
        ),
    ) by {
        assert(sp_value(s, n1 + 12, 127, (f - 1) as nat) == Some(
            (JsonV::Str(seq![0x67u8, 0x65u8, 0x74u8, 0x70u8, 0x6bu8]), n1 + 19),
        ));
        assert(sp_members(s, n1 + 20, 127, (f - 1) as nat) == Some(
            (seq![(seq![0x70u8, 0x61u8, 0x74u8, 0x68u8], JsonV::Str(path))], len),
        ));
        assert(seq![(seq![0x63u8, 0x6fu8, 0x6du8, 0x6du8, 0x61u8, 0x6eu8, 0x64u8], JsonV::Str(seq![0x67u8, 0x65u8, 0x74u8, 0x70u8, 0x6bu8]))] + seq![
            (seq![0x70u8, 0x61u8, 0x74u8, 0x68u8], JsonV::Str(path)),
        ] =~= seq![(seq![0x63u8, 0x6fu8, 0x6du8, 0x6du8, 0x61u8, 0x6eu8, 0x64u8], JsonV::Str(seq![0x67u8, 0x65u8, 0x74u8, 0x70u8, 0x6bu8])), (seq![0x70u8, 0x61u8, 0x74u8, 0x68u8], JsonV::Str(path))]);
    }
}

proof fn lemma_pk_members_head(s: Seq<u8>, path: Seq<u8>, coin: Seq<u8>, n1: int, len: int)
    requires
        9 <= n1,
        len == s.len(),
        len == n1 + 30 + spec_escape(path).len(),
        forall|t: int| 0 <= t < 28 ==> s[n1 + t] == lit_pk_mid()[t],
        forall|t: int|
            0 <= t < spec_escape(path).len() ==> s[n1 + 28 + t] == spec_escape(path)[t],
        forall|t: int|
            0 <= t < 2 ==> s[n1 + 28 + spec_escape(path).len() + t] == lit_str_close()[t],
        n1 == 9 + spec_escape(coin).len(),
        forall|t: int| 0 <= t < 9 ==> s[t] == lit_coin_open()[t],
        forall|t: int| 0 <= t < spec_escape(coin).len() ==> s[9 + t] == spec_escape(coin)[t],
    ensures
        forall|f: nat|
            f >= 4 ==> #[trigger] sp_members(s, 1, 127, f) == Some(
                (
                    seq![
                        (seq![0x63u8, 0x6fu8, 0x69u8, 0x6eu8], JsonV::Str(coin)),
                        (seq![0x63u8, 0x6fu8, 0x6du8, 0x6du8, 0x61u8, 0x6eu8, 0x64u8], JsonV::Str(seq![0x67u8, 0x65u8, 0x74u8, 0x70u8, 0x6bu8])),
                        (seq![0x70u8, 0x61u8, 0x74u8, 0x68u8], JsonV::Str(path)),
                    ],
                    len,
                ),
            ),
{
    lemma_pk_members_mid(s, path, n1, len);
    assert(s[0int] == 0x7b) by {
        assert(lit_coin_open()[0] == 0x7b);
    }
    assert(s[1int] == 0x22) by {
        assert(lit_coin_open()[1] == 0x22);
    }
    assert(s[2int] == 0x63) by {
        assert(lit_coin_open()[2] == 0x63);
    }
    assert(s[3int] == 0x6f) by {
        assert(lit_coin_open()[3] == 0x6f);
    }
    assert(s[4int] == 0x69) by {
        assert(lit_coin_open()[4] == 0x69);
    }
    assert(s[5int] == 0x6e) by {
        assert(lit_coin_open()[5] == 0x6e);
    }
    assert(s[6int] == 0x22) by {
        assert(lit_coin_open()[6] == 0x22);
    }
    assert(s[7int] == 0x3a) by {
        assert(lit_coin_open()[7] == 0x3a);
    }
    assert(s[8int] == 0x22) by {
        assert(lit_coin_open()[8] == 0x22);
    }
    assert(s[n1 + 0] == 0x22) by {
        assert(lit_pk_mid()[0] == 0x22);
    }
    assert(s[n1 + 1] == 0x2c) by {
        assert(lit_pk_mid()[1] == 0x2c);
    }
    assert(s.subrange(9, n1) =~= spec_escape(coin));
    assert(s[n1] == 0x22);
    lemma_escaped_parses(s, coin, 0, 9);
    assert(coin.subrange(0, coin.len() as int) =~= coin);
    assert(sp_str_rest(s, 6int) == Some((Seq::<u8>::empty(), 6int + 1)));
    let g_kcoin_3 = seq![s[2int + 3]] + Seq::<u8>::empty();
    assert(sp_str_rest(s, 2int + 3) == Some((g_kcoin_3, 6int + 1)));
    let g_kcoin_2 = seq![s[2int + 2]] + g_kcoin_3;
    assert(sp_str_rest(s, 2int + 2) == Some((g_kcoin_2, 6int + 1)));
    let g_kcoin_1 = seq![s[2int + 1]] + g_kcoin_2;
    assert(sp_str_rest(s, 2int + 1) == Some((g_kcoin_1, 6int + 1)));
    let g_kcoin_0 = seq![s[2int]] + g_kcoin_1;
    assert(sp_str_rest(s, 2int) == Some((g_kcoin_0, 6int + 1)));
    assert(g_kcoin_0 =~= seq![0x63u8, 0x6fu8, 0x69u8, 0x6eu8]);
    assert(sp_ws_count(s, 1int) == 0);
    assert(sp_ws_count(s, 7int) == 0);
    assert(sp_ws_count(s, 8int) == 0);
    assert(sp_ws_count(s, n1 + 1) == 0);
    assert forall|f: nat| f >= 4 implies #[trigger] sp_members(s, 1, 127, f) == Some(
        (
            seq![
                (seq![0x63u8, 0x6fu8, 0x69u8, 0x6eu8], JsonV::Str(coin)),
                (seq![0x63u8, 0x6fu8, 0x6du8, 0x6du8, 0x61u8, 0x6eu8, 0x64u8], JsonV::Str(seq![0x67u8, 0x65u8, 0x74u8, 0x70u8, 0x6bu8])),
                (seq![0x70u8, 0x61u8, 0x74u8, 0x68u8], JsonV::Str(path)),
            ],
            len,
        ),
    ) by {
        assert(sp_value(s, 8, 127, (f - 1) as nat) == Some((JsonV::Str(coin), n1 + 1)));
        assert(sp_members(s, n1 + 2, 127, (f - 1) as nat) == Some(
            (
                seq![(seq![0x63u8, 0x6fu8, 0x6du8, 0x6du8, 0x61u8, 0x6eu8, 0x64u8], JsonV::Str(seq![0x67u8, 0x65u8, 0x74u8, 0x70u8, 0x6bu8])), (seq![0x70u8, 0x61u8, 0x74u8, 0x68u8], JsonV::Str(path))],
                len,
            ),
        ));
        assert(seq![(seq![0x63u8, 0x6fu8, 0x69u8, 0x6eu8], JsonV::Str(coin))] + seq![
            (seq![0x63u8, 0x6fu8, 0x6du8, 0x6du8, 0x61u8, 0x6eu8, 0x64u8], JsonV::Str(seq![0x67u8, 0x65u8, 0x74u8, 0x70u8, 0x6bu8])),
            (seq![0x70u8, 0x61u8, 0x74u8, 0x68u8], JsonV::Str(path)),
        ] =~= seq![
            (seq![0x63u8, 0x6fu8, 0x69u8, 0x6eu8], JsonV::Str(coin)),
            (seq![0x63u8, 0x6fu8, 0x6du8, 0x6du8, 0x61u8, 0x6eu8, 0x64u8], JsonV::Str(seq![0x67u8, 0x65u8, 0x74u8, 0x70u8, 0x6bu8])),
            (seq![0x70u8, 0x61u8, 0x74u8, 0x68u8], JsonV::Str(path)),
        ]);
    }
}

/// Law: the `getpk` request line is one valid JSON document, and the object
/// it denotes holds exactly the members `coin`, `command` (with value
/// `getpk`) and `path`, carrying the given coin and path, whatever bytes
/// they hold.
pub proof fn lemma_get_public_key_request_parses(path: Seq<u8>, coin: Seq<u8>)
    ensures
        spec_json_doc(spec_request_line(CommandV::GetPublicKey { path, coin })) == Some(
            JsonV::Obj(
                seq![
                    (seq![0x63u8, 0x6fu8, 0x69u8, 0x6eu8], JsonV::Str(coin)),
                    (seq![0x63u8, 0x6fu8, 0x6du8, 0x6du8, 0x61u8, 0x6eu8, 0x64u8], JsonV::Str(seq![0x67u8, 0x65u8, 0x74u8, 0x70u8, 0x6bu8])),
                    (seq![0x70u8, 0x61u8, 0x74u8, 0x68u8], JsonV::Str(path)),
                ],
            ),
        ),
{
    let s = spec_request_line(CommandV::GetPublicKey { path, coin });
    let a = lit_coin_open();
    let e1 = spec_escape(coin);
    let m = lit_pk_mid();
    let e2 = spec_escape(path);
    let cl = lit_str_close();
    assert(s == a + e1 + m + e2 + cl);
    let n1 = 9 + e1.len() as int;
    let len = s.len() as int;
    assert(len == n1 + 30 + e2.len());
    assert forall|t: int| 0 <= t < 9 implies s[t] == a[t] by {
        assert((a + e1)[t] == a[t]);
        assert(((a + e1) + m)[t] == (a + e1)[t]);
        assert((((a + e1) + m) + e2)[t] == ((a + e1) + m)[t]);
        assert(s[t] == (((a + e1) + m) + e2)[t]);
    }
    assert forall|t: int| 0 <= t < e1.len() implies s[9 + t] == e1[t] by {
        assert((a + e1)[9 + t] == e1[t]);
        assert(((a + e1) + m)[9 + t] == (a + e1)[9 + t]);
        assert((((a + e1) + m) + e2)[9 + t] == ((a + e1) + m)[9 + t]);
        assert(s[9 + t] == (((a + e1) + m) + e2)[9 + t]);
    }
    assert forall|t: int| 0 <= t < 28 implies s[n1 + t] == m[t] by {
        assert(((a + e1) + m)[n1 + t] == m[t]);
        assert((((a + e1) + m) + e2)[n1 + t] == ((a + e1) + m)[n1 + t]);
        assert(s[n1 + t] == (((a + e1) + m) + e2)[n1 + t]);
    }
    assert forall|t: int| 0 <= t < e2.len() implies s[n1 + 28 + t] == e2[t] by {
        assert((((a + e1) + m) + e2)[n1 + 28 + t] == e2[t]);
        assert(s[n1 + 28 + t] == (((a + e1) + m) + e2)[n1 + 28 + t]);
    }
    assert forall|t: int| 0 <= t < 2 implies s[n1 + 28 + e2.len() + t] == cl[t] by {
        assert((((a + e1) + m) + e2).len() == n1 + 28 + e2.len());
        assert(s[n1 + 28 + e2.len() + t] == cl[n1 + 28 + e2.len() as int + t - (n1 + 28
            + e2.len())]);
    }
    lemma_pk_members_head(s, path, coin, n1, len);
    let fuel0 = (2 * s.len() + 1) as nat;
    assert(len >= 39);
    assert(sp_ws_count(s, 1int) == 0);
    assert(sp_members(s, 1, 127, (fuel0 - 1) as nat) == Some(
        (
            seq![
                (seq![0x63u8, 0x6fu8, 0x69u8, 0x6eu8], JsonV::Str(coin)),
                (seq![0x63u8, 0x6fu8, 0x6du8, 0x6du8, 0x61u8, 0x6eu8, 0x64u8], JsonV::Str(seq![0x67u8, 0x65u8, 0x74u8, 0x70u8, 0x6bu8])),
                (seq![0x70u8, 0x61u8, 0x74u8, 0x68u8], JsonV::Str(path)),
            ],
            len,
        ),
    ));
    assert(sp_value(s, 0, spec_depth_limit(), fuel0) == Some(
        (
            JsonV::Obj(
                seq![
                    (seq![0x63u8, 0x6fu8, 0x69u8, 0x6eu8], JsonV::Str(coin)),
                    (seq![0x63u8, 0x6fu8, 0x6du8, 0x6du8, 0x61u8, 0x6eu8, 0x64u8], JsonV::Str(seq![0x67u8, 0x65u8, 0x74u8, 0x70u8, 0x6bu8])),
                    (seq![0x70u8, 0x61u8, 0x74u8, 0x68u8], JsonV::Str(path)),
                ],
            ),
            len,
        ),
    ));
    assert(sp_ws_count(s, 0int) == 0);
    assert(sp_ws_count(s, len) == 0);
}



#[verifier::rlimit(100)]
#[verifier::spinoff_prover]
proof fn lemma_addr_members_last(s: Seq<u8>, path: Seq<u8>, n1: int, len: int, show: bool)
    requires
        9 <= n1,
        len == s.len(),
        len == n1 + 30 + spec_escape(path).len() + (if show {
            22int
        } else {
            23int
        }),
        forall|t: int| 0 <= t < 30 ==> s[n1 + t] == lit_addr_mid()[t],
        forall|t: int|
            0 <= t < spec_escape(path).len() ==> s[n1 + 30 + t] == spec_escape(path)[t],
        forall|t: int|
            0 <= t < (if show {
                lit_show_true()
            } else {
                lit_show_false()
            }).len() ==> #[trigger] s[n1 + 30 + spec_escape(path).len() + t] == (if show {
                lit_show_true()
            } else {
                lit_show_false()
            })[t],
    ensures
        forall|f: nat|
            f >= 2 ==> #[trigger] sp_members(s, n1 + 30 + spec_escape(path).len() + 2, 127, f)
                == Some((seq![(seq![0x73u8, 0x68u8, 0x6fu8, 0x77u8, 0x4fu8, 0x6eu8, 0x54u8, 0x72u8, 0x65u8, 0x7au8, 0x6fu8, 0x72u8], JsonV::Bool(show))], len)),
{
    let nt = n1 + 30 + spec_escape(path).len() as int;
    if show {
        assert(s[nt + 1] == 0x2c) by {
            assert(lit_show_true()[1] == 0x2c);
        }
        assert(s[nt + 2] == 0x22) by {
            assert(lit_show_true()[2] == 0x22);
        }
        assert(s[nt + 3] == 0x73) by {
            assert(lit_show_true()[3] == 0x73);
        }
        assert(s[nt + 4] == 0x68) by {
            assert(lit_show_true()[4] == 0x68);
        }
        assert(s[nt + 5] == 0x6f) by {
            assert(lit_show_true()[5] == 0x6f);
        }
        assert(s[nt + 6] == 0x77) by {
            assert(lit_show_true()[6] == 0x77);
        }
        assert(s[nt + 7] == 0x4f) by {
            assert(lit_show_true()[7] == 0x4f);
        }
        assert(s[nt + 8] == 0x6e) by {
            assert(lit_show_true()[8] == 0x6e);
        }
        assert(s[nt + 9] == 0x54) by {
            assert(lit_show_true()[9] == 0x54);
        }
        assert(s[nt + 10] == 0x72) by {
            assert(lit_show_true()[10] == 0x72);
        }
        assert(s[nt + 11] == 0x65) by {
            assert(lit_show_true()[11] == 0x65);
        }
        assert(s[nt + 12] == 0x7a) by {
            assert(lit_show_true()[12] == 0x7a);
        }
        assert(s[nt + 13] == 0x6f) by {
            assert(lit_show_true()[13] == 0x6f);
        }
        assert(s[nt + 14] == 0x72) by {
            assert(lit_show_true()[14] == 0x72);
        }
        assert(s[nt + 15] == 0x22) by {
            assert(lit_show_true()[15] == 0x22);
        }
        assert(s[nt + 16] == 0x3a) by {
            assert(lit_show_true()[16] == 0x3a);
        }
        assert(s[nt + 17] == 0x74) by {
            assert(lit_show_true()[17] == 0x74);
        }
        assert(s[nt + 18] == 0x72) by {
            assert(lit_show_true()[18] == 0x72);
        }
        assert(s[nt + 19] == 0x75) by {
            assert(lit_show_true()[19] == 0x75);
        }
        assert(s[nt + 20] == 0x65) by {
            assert(lit_show_true()[20] == 0x65);
        }
        assert(s[nt + 21] == 0x7d) by {
            assert(lit_show_true()[21] == 0x7d);
        }
    } else {
        assert(s[nt + 1] == 0x2c) by {
            assert(lit_show_false()[1] == 0x2c);
        }
        assert(s[nt + 2] == 0x22) by {
            assert(lit_show_false()[2] == 0x22);
        }
        assert(s[nt + 3] == 0x73) by {
            assert(lit_show_false()[3] == 0x73);
        }
        assert(s[nt + 4] == 0x68) by {
            assert(lit_show_false()[4] == 0x68);
        }
        assert(s[nt + 5] == 0x6f) by {
            assert(lit_show_false()[5] == 0x6f);
        }
        assert(s[nt + 6] == 0x77) by {
            assert(lit_show_false()[6] == 0x77);
        }
        assert(s[nt + 7] == 0x4f) by {
            assert(lit_show_false()[7] == 0x4f);
        }
        assert(s[nt + 8] == 0x6e) by {
            assert(lit_show_false()[8] == 0x6e);
        }
        assert(s[nt + 9] == 0x54) by {
            assert(lit_show_false()[9] == 0x54);
        }
        assert(s[nt + 10] == 0x72) by {
            assert(lit_show_false()[10] == 0x72);
        }
        assert(s[nt + 11] == 0x65) by {
            assert(lit_show_false()[11] == 0x65);
        }
        assert(s[nt + 12] == 0x7a) by {
            assert(lit_show_false()[12] == 0x7a);
        }
        assert(s[nt + 13] == 0x6f) by {
            assert(lit_show_false()[13] == 0x6f);
        }
        assert(s[nt + 14] == 0x72) by {
            assert(lit_show_false()[14] == 0x72);
        }
        assert(s[nt + 15] == 0x22) by {
            assert(lit_show_false()[15] == 0x22);
        }
        assert(s[nt + 16] == 0x3a) by {
            assert(lit_show_false()[16] == 0x3a);
        }
        assert(s[nt + 17] == 0x66) by {
            assert(lit_show_false()[17] == 0x66);
        }
        assert(s[nt + 18] == 0x61) by {
            assert(lit_show_false()[18] == 0x61);
        }
        assert(s[nt + 19] == 0x6c) by {
            assert(lit_show_false()[19] == 0x6c);
        }
        assert(s[nt + 20] == 0x73) by {
            assert(lit_show_false()[20] == 0x73);
        }
        assert(s[nt + 21] == 0x65) by {
            assert(lit_show_false()[21] == 0x65);
        }
        assert(s[nt + 22] == 0x7d) by {
            assert(lit_show_false()[22] == 0x7d);
        }
    }
    assert(sp_str_rest(s, nt + 15) == Some((Seq::<u8>::empty(), nt + 15 + 1)));
    let g_kshow_11 = seq![s[nt + 3 + 11]] + Seq::<u8>::empty();
    assert(sp_str_rest(s, nt + 3 + 11) == Some((g_kshow_11, nt + 15 + 1)));
    let g_kshow_10 = seq![s[nt + 3 + 10]] + g_kshow_11;
    assert(sp_str_rest(s, nt + 3 + 10) == Some((g_kshow_10, nt + 15 + 1)));
    let g_kshow_9 = seq![s[nt + 3 + 9]] + g_kshow_10;
    assert(sp_str_rest(s, nt + 3 + 9) == Some((g_kshow_9, nt + 15 + 1)));
    let g_kshow_8 = seq![s[nt + 3 + 8]] + g_kshow_9;
    assert(sp_str_rest(s, nt + 3 + 8) == Some((g_kshow_8, nt + 15 + 1)));
    let g_kshow_7 = seq![s[nt + 3 + 7]] + g_kshow_8;
    assert(sp_str_rest(s, nt + 3 + 7) == Some((g_kshow_7, nt + 15 + 1)));
    let g_kshow_6 = seq![s[nt + 3 + 6]] + g_kshow_7;
    assert(sp_str_rest(s, nt + 3 + 6) == Some((g_kshow_6, nt + 15 + 1)));
    let g_kshow_5 = seq![s[nt + 3 + 5]] + g_kshow_6;
    assert(sp_str_rest(s, nt + 3 + 5) == Some((g_kshow_5, nt + 15 + 1)));
    let g_kshow_4 = seq![s[nt + 3 + 4]] + g_kshow_5;
    assert(sp_str_rest(s, nt + 3 + 4) == Some((g_kshow_4, nt + 15 + 1)));
    let g_kshow_3 = seq![s[nt + 3 + 3]] + g_kshow_4;
    assert(sp_str_rest(s, nt + 3 + 3) == Some((g_kshow_3, nt + 15 + 1)));
    let g_kshow_2 = seq![s[nt + 3 + 2]] + g_kshow_3;
    assert(sp_str_rest(s, nt + 3 + 2) == Some((g_kshow_2, nt + 15 + 1)));
    let g_kshow_1 = seq![s[nt + 3 + 1]] + g_kshow_2;
    assert(sp_str_rest(s, nt + 3 + 1) == Some((g_kshow_1, nt + 15 + 1)));
    let g_kshow_0 = seq![s[nt + 3]] + g_kshow_1;
    assert(sp_str_rest(s, nt + 3) == Some((g_kshow_0, nt + 15 + 1)));
    assert(g_kshow_0 =~= seq![0x73u8, 0x68u8, 0x6fu8, 0x77u8, 0x4fu8, 0x6eu8, 0x54u8, 0x72u8, 0x65u8, 0x7au8, 0x6fu8, 0x72u8]);
    assert(sp_ws_count(s, nt + 2) == 0);
    assert(sp_ws_count(s, nt + 16) == 0);
    assert(sp_ws_count(s, nt + 17) == 0);
    if show {
        assert(sp_ws_count(s, nt + 21) == 0);
    } else {
        assert(sp_ws_count(s, nt + 22) == 0);
    }
    assert forall|f: nat| f >= 2 implies #[trigger] sp_members(
        s,
        n1 + 30 + spec_escape(path).len() + 2,
        127,
        f,
    ) == Some((seq![(seq![0x73u8, 0x68u8, 0x6fu8, 0x77u8, 0x4fu8, 0x6eu8, 0x54u8, 0x72u8, 0x65u8, 0x7au8, 0x6fu8, 0x72u8], JsonV::Bool(show))], len)) by {
        if show {
            assert(sp_value(s, nt + 17, 127, (f - 1) as nat) == Some(
                (JsonV::Bool(true), nt + 21),
            ));
        } else {
            assert(sp_value(s, nt + 17, 127, (f - 1) as nat) == Some(
                (JsonV::Bool(false), nt + 22),
            ));
        }
    }
}

#[verifier::rlimit(100)]
#[verifier::spinoff_prover]
proof fn lemma_addr_members_path(s: Seq<u8>, path: Seq<u8>, n1: int, len: int, show: bool)
    requires
        9 <= n1,
        len == s.len(),
        len == n1 + 30 + spec_escape(path).len() + (if show {
            22int
        } else {
            23int
        }),
        forall|t: int| 0 <= t < 30 ==> s[n1 + t] == lit_addr_mid()[t],
        forall|t: int|
            0 <= t < spec_escape(path).len() ==> s[n1 + 30 + t] == spec_escape(path)[t],
        forall|t: int|
            0 <= t < (if show {
                lit_show_true()
            } else {
                lit_show_false()
            }).len() ==> #[trigger] s[n1 + 30 + spec_escape(path).len() + t] == (if show {
                lit_show_true()
            } else {
                lit_show_false()
            })[t],
    ensures
        forall|f: nat|
            f >= 3 ==> #[trigger] sp_members(s, n1 + 22, 127, f) == Some(
                (
                    seq![(seq![0x70u8, 0x61u8, 0x74u8, 0x68u8], JsonV::Str(path)), (seq![0x73u8, 0x68u8, 0x6fu8, 0x77u8, 0x4fu8, 0x6eu8, 0x54u8, 0x72u8, 0x65u8, 0x7au8, 0x6fu8, 0x72u8], JsonV::Bool(show))],
                    len,
                ),
            ),
{
    lemma_addr_members_last(s, path, n1, len, show);
    let nt = n1 + 30 + spec_escape(path).len() as int;
    assert(s[n1 + 21] == 0x2c) by {
        assert(lit_addr_mid()[21] == 0x2c);
    }
    assert(s[n1 + 22] == 0x22) by {
        assert(lit_addr_mid()[22] == 0x22);
    }
    assert(s[n1 + 23] == 0x70) by {
        assert(lit_addr_mid()[23] == 0x70);
    }
    assert(s[n1 + 24] == 0x61) by {
        assert(lit_addr_mid()[24] == 0x61);
    }
    assert(s[n1 + 25] == 0x74) by {
        assert(lit_addr_mid()[25] == 0x74);
    }
    assert(s[n1 + 26] == 0x68) by {
        assert(lit_addr_mid()[26] == 0x68);
    }
    assert(s[n1 + 27] == 0x22) by {
        assert(lit_addr_mid()[27] == 0x22);
    }
    assert(s[n1 + 28] == 0x3a) by {
        assert(lit_addr_mid()[28] == 0x3a);
    }
    assert(s[n1 + 29] == 0x22) by {
        assert(lit_addr_mid()[29] == 0x22);
    }
    if show {
        assert(s[nt + 0] == 0x22) by {
            assert(lit_show_true()[0] == 0x22);
        }
        assert(s[nt + 1] == 0x2c) by {
            assert(lit_show_true()[1] == 0x2c);
        }
    } else {
        assert(s[nt + 0] == 0x22) by {
            assert(lit_show_false()[0] == 0x22);
        }
        assert(s[nt + 1] == 0x2c) by {
            assert(lit_show_false()[1] == 0x2c);
        }
    }
    assert(sp_str_rest(s, n1 + 27) == Some((Seq::<u8>::empty(), n1 + 27 + 1)));
    let g_akpath_3 = seq![s[n1 + 23 + 3]] + Seq::<u8>::empty();
    assert(sp_str_rest(s, n1 + 23 + 3) == Some((g_akpath_3, n1 + 27 + 1)));
    let g_akpath_2 = seq![s[n1 + 23 + 2]] + g_akpath_3;
    assert(sp_str_rest(s, n1 + 23 + 2) == Some((g_akpath_2, n1 + 27 + 1)));
    let g_akpath_1 = seq![s[n1 + 23 + 1]] + g_akpath_2;
    assert(sp_str_rest(s, n1 + 23 + 1) == Some((g_akpath_1, n1 + 27 + 1)));
    let g_akpath_0 = seq![s[n1 + 23]] + g_akpath_1;
    assert(sp_str_rest(s, n1 + 23) == Some((g_akpath_0, n1 + 27 + 1)));
    assert(g_akpath_0 =~= seq![0x70u8, 0x61u8, 0x74u8, 0x68u8]);
    assert(s.subrange(n1 + 30, nt) =~= spec_escape(path));
    assert(s[nt] == 0x22);
    lemma_escaped_parses(s, path, 0, n1 + 30);
    assert(path.subrange(0, path.len() as int) =~= path);
    assert(sp_ws_count(s, n1 + 22) == 0);
    assert(sp_ws_count(s, n1 + 28) == 0);
    assert(sp_ws_count(s, n1 + 29) == 0);
    assert(sp_ws_count(s, nt + 1) == 0);
    assert forall|f: nat| f >= 3 implies #[trigger] sp_members(s, n1 + 22, 127, f) == Some(
        (
            seq![(seq![0x70u8, 0x61u8, 0x74u8, 0x68u8], JsonV::Str(path)), (seq![0x73u8, 0x68u8, 0x6fu8, 0x77u8, 0x4fu8, 0x6eu8, 0x54u8, 0x72u8, 0x65u8, 0x7au8, 0x6fu8, 0x72u8], JsonV::Bool(show))],
            len,
        ),
    ) by {
        assert(sp_value(s, n1 + 29, 127, (f - 1) as nat) == Some((JsonV::Str(path), nt + 1)));
        assert(sp_members(s, n1 + 30 + spec_escape(path).len() + 2, 127, (f - 1) as nat) == Some(
            (seq![(seq![0x73u8, 0x68u8, 0x6fu8, 0x77u8, 0x4fu8, 0x6eu8, 0x54u8, 0x72u8, 0x65u8, 0x7au8, 0x6fu8, 0x72u8], JsonV::Bool(show))], len),
        ));
        assert(seq![(seq![0x70u8, 0x61u8, 0x74u8, 0x68u8], JsonV::Str(path))] + seq![
            (seq![0x73u8, 0x68u8, 0x6fu8, 0x77u8, 0x4fu8, 0x6eu8, 0x54u8, 0x72u8, 0x65u8, 0x7au8, 0x6fu8, 0x72u8], JsonV::Bool(show)),
        ] =~= seq![(seq![0x70u8, 0x61u8, 0x74u8, 0x68u8], JsonV::Str(path)), (seq![0x73u8, 0x68u8, 0x6fu8, 0x77u8, 0x4fu8, 0x6eu8, 0x54u8, 0x72u8, 0x65u8, 0x7au8, 0x6fu8, 0x72u8], JsonV::Bool(show))]);
    }
}

#[verifier::rlimit(100)]
#[verifier::spinoff_prover]
proof fn lemma_addr_members_cmd(s: Seq<u8>, path: Seq<u8>, n1: int, len: int, show: bool)
    requires
        9 <= n1,
        len == s.len(),
        len == n1 + 30 + spec_escape(path).len() + (if show {
            22int
        } else {
            23int
        }),
        forall|t: int| 0 <= t < 30 ==> s[n1 + t] == lit_addr_mid()[t],
        forall|t: int|
            0 <= t < spec_escape(path).len() ==> s[n1 + 30 + t] == spec_escape(path)[t],
        forall|t: int|
            0 <= t < (if show {
                lit_show_true()
            } else {
                lit_show_false()
            }).len() ==> #[trigger] s[n1 + 30 + spec_escape(path).len() + t] == (if show {
                lit_show_true()
            } else {
                lit_show_false()
            })[t],
    ensures
        forall|f: nat|
            f >= 4 ==> #[trigger] sp_members(s, n1 + 2, 127, f) == Some(
                (
                    seq![
                        (seq![0x63u8, 0x6fu8, 0x6du8, 0x6du8, 0x61u8, 0x6eu8, 0x64u8], JsonV::Str(seq![0x67u8, 0x65u8, 0x74u8, 0x61u8, 0x64u8, 0x64u8, 0x72u8])),
                        (seq![0x70u8, 0x61u8, 0x74u8, 0x68u8], JsonV::Str(path)),
                        (seq![0x73u8, 0x68u8, 0x6fu8, 0x77u8, 0x4fu8, 0x6eu8, 0x54u8, 0x72u8, 0x65u8, 0x7au8, 0x6fu8, 0x72u8], JsonV::Bool(show)),
                    ],
                    len,
                ),
            ),
{
    lemma_addr_members_path(s, path, n1, len, show);
    assert(s[n1 + 2] == 0x22) by {
        assert(lit_addr_mid()[2] == 0x22);
    }
    assert(s[n1 + 3] == 0x63) by {
        assert(lit_addr_mid()[3] == 0x63);
    }
    assert(s[n1 + 4] == 0x6f) by {
        assert(lit_addr_mid()[4] == 0x6f);
    }
    assert(s[n1 + 5] == 0x6d) by {
        assert(lit_addr_mid()[5] == 0x6d);
    }
    assert(s[n1 + 6] == 0x6d) by {
        assert(lit_addr_mid()[6] == 0x6d);
    }
    assert(s[n1 + 7] == 0x61) by {
        assert(lit_addr_mid()[7] == 0x61);
    }
    assert(s[n1 + 8] == 0x6e) by {
        assert(lit_addr_mid()[8] == 0x6e);
    }
    assert(s[n1 + 9] == 0x64) by {
        assert(lit_addr_mid()[9] == 0x64);
    }
    assert(s[n1 + 10] == 0x22) by {
        assert(lit_addr_mid()[10] == 0x22);
    }
    assert(s[n1 + 11] == 0x3a) by {
        assert(lit_addr_mid()[11] == 0x3a);
    }
    assert(s[n1 + 12] == 0x22) by {
        assert(lit_addr_mid()[12] == 0x22);
    }
    assert(s[n1 + 13] == 0x67) by {
        assert(lit_addr_mid()[13] == 0x67);
    }
    assert(s[n1 + 14] == 0x65) by {
        assert(lit_addr_mid()[14] == 0x65);
    }
    assert(s[n1 + 15] == 0x74) by {
        assert(lit_addr_mid()[15] == 0x74);
    }
    assert(s[n1 + 16] == 0x61) by {
        assert(lit_addr_mid()[16] == 0x61);
    }
    assert(s[n1 + 17] == 0x64) by {
        assert(lit_addr_mid()[17] == 0x64);
    }
    assert(s[n1 + 18] == 0x64) by {
        assert(lit_addr_mid()[18] == 0x64);
    }
    assert(s[n1 + 19] == 0x72) by {
        assert(lit_addr_mid()[19] == 0x72);
    }
    assert(s[n1 + 20] == 0x22) by {
        assert(lit_addr_mid()[20] == 0x22);
    }
    assert(sp_str_rest(s, n1 + 10) == Some((Seq::<u8>::empty(), n1 + 10 + 1)));
    let g_akcmd_6 = seq![s[n1 + 3 + 6]] + Seq::<u8>::empty();
    assert(sp_str_rest(s, n1 + 3 + 6) == Some((g_akcmd_6, n1 + 10 + 1)));
    let g_akcmd_5 = seq![s[n1 + 3 + 5]] + g_akcmd_6;
    assert(sp_str_rest(s, n1 + 3 + 5) == Some((g_akcmd_5, n1 + 10 + 1)));
    let g_akcmd_4 = seq![s[n1 + 3 + 4]] + g_akcmd_5;
    assert(sp_str_rest(s, n1 + 3 + 4) == Some((g_akcmd_4, n1 + 10 + 1)));
    let g_akcmd_3 = seq![s[n1 + 3 + 3]] + g_akcmd_4;
    assert(sp_str_rest(s, n1 + 3 + 3) == Some((g_akcmd_3, n1 + 10 + 1)));
    let g_akcmd_2 = seq![s[n1 + 3 + 2]] + g_akcmd_3;
    assert(sp_str_rest(s, n1 + 3 + 2) == Some((g_akcmd_2, n1 + 10 + 1)));
    let g_akcmd_1 = seq![s[n1 + 3 + 1]] + g_akcmd_2;
    assert(sp_str_rest(s, n1 + 3 + 1) == Some((g_akcmd_1, n1 + 10 + 1)));
    let g_akcmd_0 = seq![s[n1 + 3]] + g_akcmd_1;
    assert(sp_str_rest(s, n1 + 3) == Some((g_akcmd_0, n1 + 10 + 1)));
    assert(g_akcmd_0 =~= seq![0x63u8, 0x6fu8, 0x6du8, 0x6du8, 0x61u8, 0x6eu8, 0x64u8]);
    assert(sp_str_rest(s, n1 + 20) == Some((Seq::<u8>::empty(), n1 + 20 + 1)));
    let g_vgetaddr_6 = seq![s[n1 + 13 + 6]] + Seq::<u8>::empty();
    assert(sp_str_rest(s, n1 + 13 + 6) == Some((g_vgetaddr_6, n1 + 20 + 1)));
    let g_vgetaddr_5 = seq![s[n1 + 13 + 5]] + g_vgetaddr_6;
    assert(sp_str_rest(s, n1 + 13 + 5) == Some((g_vgetaddr_5, n1 + 20 + 1)));
    let g_vgetaddr_4 = seq![s[n1 + 13 + 4]] + g_vgetaddr_5;
    assert(sp_str_rest(s, n1 + 13 + 4) == Some((g_vgetaddr_4, n1 + 20 + 1)));
    let g_vgetaddr_3 = seq![s[n1 + 13 + 3]] + g_vgetaddr_4;
    assert(sp_str_rest(s, n1 + 13 + 3) == Some((g_vgetaddr_3, n1 + 20 + 1)));
    let g_vgetaddr_2 = seq![s[n1 + 13 + 2]] + g_vgetaddr_3;
    assert(sp_str_rest(s, n1 + 13 + 2) == Some((g_vgetaddr_2, n1 + 20 + 1)));
    let g_vgetaddr_1 = seq![s[n1 + 13 + 1]] + g_vgetaddr_2;
    assert(sp_str_rest(s, n1 + 13 + 1) == Some((g_vgetaddr_1, n1 + 20 + 1)));
    let g_vgetaddr_0 = seq![s[n1 + 13]] + g_vgetaddr_1;
    assert(sp_str_rest(s, n1 + 13) == Some((g_vgetaddr_0, n1 + 20 + 1)));
    assert(g_vgetaddr_0 =~= seq![0x67u8, 0x65u8, 0x74u8, 0x61u8, 0x64u8, 0x64u8, 0x72u8]);
    assert(sp_ws_count(s, n1 + 2) == 0);
    assert(sp_ws_count(s, n1 + 11) == 0);
    assert(sp_ws_count(s, n1 + 12) == 0);
    assert(sp_ws_count(s, n1 + 21) == 0);
    assert forall|f: nat| f >= 4 implies #[trigger] sp_members(s, n1 + 2, 127, f) == Some(
        (
            seq![
                (seq![0x63u8, 0x6fu8, 0x6du8, 0x6du8, 0x61u8, 0x6eu8, 0x64u8], JsonV::Str(seq![0x67u8, 0x65u8, 0x74u8, 0x61u8, 0x64u8, 0x64u8, 0x72u8])),
                (seq![0x70u8, 0x61u8, 0x74u8, 0x68u8], JsonV::Str(path)),
                (seq![0x73u8, 0x68u8, 0x6fu8, 0x77u8, 0x4fu8, 0x6eu8, 0x54u8, 0x72u8, 0x65u8, 0x7au8, 0x6fu8, 0x72u8], JsonV::Bool(show)),
            ],
            len,
        ),
    ) by {
        assert(sp_value(s, n1 + 12, 127, (f - 1) as nat) == Some(
            (JsonV::Str(seq![0x67u8, 0x65u8, 0x74u8, 0x61u8, 0x64u8, 0x64u8, 0x72u8]), n1 + 21),
        ));
        assert(sp_members(s, n1 + 22, 127, (f - 1) as nat) == Some(
            (
                seq![(seq![0x70u8, 0x61u8, 0x74u8, 0x68u8], JsonV::Str(path)), (seq![0x73u8, 0x68u8, 0x6fu8, 0x77u8, 0x4fu8, 0x6eu8, 0x54u8, 0x72u8, 0x65u8, 0x7au8, 0x6fu8, 0x72u8], JsonV::Bool(show))],
                len,
            ),
        ));
        assert(seq![(seq![0x63u8, 0x6fu8, 0x6du8, 0x6du8, 0x61u8, 0x6eu8, 0x64u8], JsonV::Str(seq![0x67u8, 0x65u8, 0x74u8, 0x61u8, 0x64u8, 0x64u8, 0x72u8]))] + seq![
            (seq![0x70u8, 0x61u8, 0x74u8, 0x68u8], JsonV::Str(path)),
            (seq![0x73u8, 0x68u8, 0x6fu8, 0x77u8, 0x4fu8, 0x6eu8, 0x54u8, 0x72u8, 0x65u8, 0x7au8, 0x6fu8, 0x72u8], JsonV::Bool(show)),
        ] =~= seq![
            (seq![0x63u8, 0x6fu8, 0x6du8, 0x6du8, 0x61u8, 0x6eu8, 0x64u8], JsonV::Str(seq![0x67u8, 0x65u8, 0x74u8, 0x61u8, 0x64u8, 0x64u8, 0x72u8])),
            (seq![0x70u8, 0x61u8, 0x74u8, 0x68u8], JsonV::Str(path)),
            (seq![0x73u8, 0x68u8, 0x6fu8, 0x77u8, 0x4fu8, 0x6eu8, 0x54u8, 0x72u8, 0x65u8, 0x7au8, 0x6fu8, 0x72u8], JsonV::Bool(show)),
        ]);
    }
}

#[verifier::rlimit(100)]
#[verifier::spinoff_prover]
proof fn lemma_addr_members_head(s: Seq<u8>, path: Seq<u8>, coin: Seq<u8>, n1: int, len: int, show: bool)
    requires
        9 <= n1,
        len == s.len(),
        len == n1 + 30 + spec_escape(path).len() + (if show {
            22int
        } else {
            23int
        }),
        forall|t: int| 0 <= t < 30 ==> s[n1 + t] == lit_addr_mid()[t],
        forall|t: int|
            0 <= t < spec_escape(path).len() ==> s[n1 + 30 + t] == spec_escape(path)[t],
        forall|t: int|
            0 <= t < (if show {
                lit_show_true()
            } else {
                lit_show_false()
            }).len() ==> #[trigger] s[n1 + 30 + spec_escape(path).len() + t] == (if show {
                lit_show_true()
            } else {
                lit_show_false()
            })[t],
        n1 == 9 + spec_escape(coin).len(),
        forall|t: int| 0 <= t < 9 ==> s[t] == lit_coin_open()[t],
        forall|t: int| 0 <= t < spec_escape(coin).len() ==> s[9 + t] == spec_escape(coin)[t],
    ensures
        forall|f: nat|
            f >= 5 ==> #[trigger] sp_members(s, 1, 127, f) == Some(
                (
                    seq![
                        (seq![0x63u8, 0x6fu8, 0x69u8, 0x6eu8], JsonV::Str(coin)),
                        (seq![0x63u8, 0x6fu8, 0x6du8, 0x6du8, 0x61u8, 0x6eu8, 0x64u8], JsonV::Str(seq![0x67u8, 0x65u8, 0x74u8, 0x61u8, 0x64u8, 0x64u8, 0x72u8])),
                        (seq![0x70u8, 0x61u8, 0x74u8, 0x68u8], JsonV::Str(path)),
                        (seq![0x73u8, 0x68u8, 0x6fu8, 0x77u8, 0x4fu8, 0x6eu8, 0x54u8, 0x72u8, 0x65u8, 0x7au8, 0x6fu8, 0x72u8], JsonV::Bool(show)),
                    ],
                    len,
                ),
            ),
{
    lemma_addr_members_cmd(s, path, n1, len, show);
    assert(s[0int] == 0x7b) by {
        assert(lit_coin_open()[0] == 0x7b);
    }
    assert(s[1int] == 0x22) by {
        assert(lit_coin_open()[1] == 0x22);
    }
    assert(s[2int] == 0x63) by {
        assert(lit_coin_open()[2] == 0x63);
    }
    assert(s[3int] == 0x6f) by {
        assert(lit_coin_open()[3] == 0x6f);
    }
    assert(s[4int] == 0x69) by {
        assert(lit_coin_open()[4] == 0x69);
    }
    assert(s[5int] == 0x6e) by {
        assert(lit_coin_open()[5] == 0x6e);
    }
    assert(s[6int] == 0x22) by {
        assert(lit_coin_open()[6] == 0x22);
    }
    assert(s[7int] == 0x3a) by {
        assert(lit_coin_open()[7] == 0x3a);
    }
    assert(s[8int] == 0x22) by {
        assert(lit_coin_open()[8] == 0x22);
    }
    assert(s[n1 + 0] == 0x22) by {
        assert(lit_addr_mid()[0] == 0x22);
    }
    assert(s[n1 + 1] == 0x2c) by {
        assert(lit_addr_mid()[1] == 0x2c);
    }
    assert(s.subrange(9, n1) =~= spec_escape(coin));
    assert(s[n1] == 0x22);
    lemma_escaped_parses(s, coin, 0, 9);
    assert(coin.subrange(0, coin.len() as int) =~= coin);
    assert(sp_str_rest(s, 6int) == Some((Seq::<u8>::empty(), 6int + 1)));
    let g_akcoin_3 = seq![s[2int + 3]] + Seq::<u8>::empty();
    assert(sp_str_rest(s, 2int + 3) == Some((g_akcoin_3, 6int + 1)));
    let g_akcoin_2 = seq![s[2int + 2]] + g_akcoin_3;
    assert(sp_str_rest(s, 2int + 2) == Some((g_akcoin_2, 6int + 1)));
    let g_akcoin_1 = seq![s[2int + 1]] + g_akcoin_2;
    assert(sp_str_rest(s, 2int + 1) == Some((g_akcoin_1, 6int + 1)));
    let g_akcoin_0 = seq![s[2int]] + g_akcoin_1;
    assert(sp_str_rest(s, 2int) == Some((g_akcoin_0, 6int + 1)));
    assert(g_akcoin_0 =~= seq![0x63u8, 0x6fu8, 0x69u8, 0x6eu8]);
    assert(sp_ws_count(s, 1int) == 0);
    assert(sp_ws_count(s, 7int) == 0);
    assert(sp_ws_count(s, 8int) == 0);
    assert(sp_ws_count(s, n1 + 1) == 0);
    assert forall|f: nat| f >= 5 implies #[trigger] sp_members(s, 1, 127, f) == Some(
        (
            seq![
                (seq![0x63u8, 0x6fu8, 0x69u8, 0x6eu8], JsonV::Str(coin)),
                (seq![0x63u8, 0x6fu8, 0x6du8, 0x6du8, 0x61u8, 0x6eu8, 0x64u8], JsonV::Str(seq![0x67u8, 0x65u8, 0x74u8, 0x61u8, 0x64u8, 0x64u8, 0x72u8])),
                (seq![0x70u8, 0x61u8, 0x74u8, 0x68u8], JsonV::Str(path)),
                (seq![0x73u8, 0x68u8, 0x6fu8, 0x77u8, 0x4fu8, 0x6eu8, 0x54u8, 0x72u8, 0x65u8, 0x7au8, 0x6fu8, 0x72u8], JsonV::Bool(show)),
            ],
            len,
        ),
    ) by {
        assert(sp_value(s, 8, 127, (f - 1) as nat) == Some((JsonV::Str(coin), n1 + 1)));
        assert(sp_members(s, n1 + 2, 127, (f - 1) as nat) == Some(
            (
                seq![
                    (seq![0x63u8, 0x6fu8, 0x6du8, 0x6du8, 0x61u8, 0x6eu8, 0x64u8], JsonV::Str(seq![0x67u8, 0x65u8, 0x74u8, 0x61u8, 0x64u8, 0x64u8, 0x72u8])),
                    (seq![0x70u8, 0x61u8, 0x74u8, 0x68u8], JsonV::Str(path)),
                    (seq![0x73u8, 0x68u8, 0x6fu8, 0x77u8, 0x4fu8, 0x6eu8, 0x54u8, 0x72u8, 0x65u8, 0x7au8, 0x6fu8, 0x72u8], JsonV::Bool(show)),
                ],
                len,
            ),
        ));
        assert(seq![(seq![0x63u8, 0x6fu8, 0x69u8, 0x6eu8], JsonV::Str(coin))] + seq![
            (seq![0x63u8, 0x6fu8, 0x6du8, 0x6du8, 0x61u8, 0x6eu8, 0x64u8], JsonV::Str(seq![0x67u8, 0x65u8, 0x74u8, 0x61u8, 0x64u8, 0x64u8, 0x72u8])),
            (seq![0x70u8, 0x61u8, 0x74u8, 0x68u8], JsonV::Str(path)),
            (seq![0x73u8, 0x68u8, 0x6fu8, 0x77u8, 0x4fu8, 0x6eu8, 0x54u8, 0x72u8, 0x65u8, 0x7au8, 0x6fu8, 0x72u8], JsonV::Bool(show)),
        ] =~= seq![
            (seq![0x63u8, 0x6fu8, 0x69u8, 0x6eu8], JsonV::Str(coin)),
            (seq![0x63u8, 0x6fu8, 0x6du8, 0x6du8, 0x61u8, 0x6eu8, 0x64u8], JsonV::Str(seq![0x67u8, 0x65u8, 0x74u8, 0x61u8, 0x64u8, 0x64u8, 0x72u8])),
            (seq![0x70u8, 0x61u8, 0x74u8, 0x68u8], JsonV::Str(path)),
            (seq![0x73u8, 0x68u8, 0x6fu8, 0x77u8, 0x4fu8, 0x6eu8, 0x54u8, 0x72u8, 0x65u8, 0x7au8, 0x6fu8, 0x72u8], JsonV::Bool(show)),
        ]);
    }
}

/// Law: the `getaddr` request line is one valid JSON document, and the
/// object it denotes holds exactly the members `coin`, `command` (with value
/// `getaddr`), `path` and `showOnTrezor`, carrying the given coin, path and
/// confirmation flag, whatever bytes the parameters hold.
#[verifier::rlimit(100)]
#[verifier::spinoff_prover]
pub proof fn lemma_get_address_request_parses(path: Seq<u8>, coin: Seq<u8>, show: bool)
    ensures
        spec_json_doc(
            spec_request_line(CommandV::GetAddress { path, coin, show_on_trezor: show }),
        ) == Some(
            JsonV::Obj(
                seq![
                    (seq![0x63u8, 0x6fu8, 0x69u8, 0x6eu8], JsonV::Str(coin)),
                    (seq![0x63u8, 0x6fu8, 0x6du8, 0x6du8, 0x61u8, 0x6eu8, 0x64u8], JsonV::Str(seq![0x67u8, 0x65u8, 0x74u8, 0x61u8, 0x64u8, 0x64u8, 0x72u8])),
                    (seq![0x70u8, 0x61u8, 0x74u8, 0x68u8], JsonV::Str(path)),
                    (seq![0x73u8, 0x68u8, 0x6fu8, 0x77u8, 0x4fu8, 0x6eu8, 0x54u8, 0x72u8, 0x65u8, 0x7au8, 0x6fu8, 0x72u8], JsonV::Bool(show)),
                ],
            ),
        ),
{
    let s = spec_request_line(CommandV::GetAddress { path, coin, show_on_trezor: show });
    let a = lit_coin_open();
    let e1 = spec_escape(coin);
    let m = lit_addr_mid();
    let e2 = spec_escape(path);
    let tl = if show {
        lit_show_true()
    } else {
        lit_show_false()
    };
    assert(s == a + e1 + m + e2 + tl);
    let n1 = 9 + e1.len() as int;
    let len = s.len() as int;
    assert(len == n1 + 30 + e2.len() + tl.len());
    assert forall|t: int| 0 <= t < 9 implies s[t] == a[t] by {
        assert((a + e1)[t] == a[t]);
        assert(((a + e1) + m)[t] == (a + e1)[t]);
        assert((((a + e1) + m) + e2)[t] == ((a + e1) + m)[t]);
        assert(s[t] == (((a + e1) + m) + e2)[t]);
    }
    assert forall|t: int| 0 <= t < e1.len() implies s[9 + t] == e1[t] by {
        assert((a + e1)[9 + t] == e1[t]);
        assert(((a + e1) + m)[9 + t] == (a + e1)[9 + t]);
        assert((((a + e1) + m) + e2)[9 + t] == ((a + e1) + m)[9 + t]);
        assert(s[9 + t] == (((a + e1) + m) + e2)[9 + t]);
    }
    assert forall|t: int| 0 <= t < 30 implies s[n1 + t] == m[t] by {
        assert(((a + e1) + m)[n1 + t] == m[t]);
        assert((((a + e1) + m) + e2)[n1 + t] == ((a + e1) + m)[n1 + t]);
        assert(s[n1 + t] == (((a + e1) + m) + e2)[n1 + t]);
    }
    assert forall|t: int| 0 <= t < e2.len() implies s[n1 + 30 + t] == e2[t] by {
        assert((((a + e1) + m) + e2)[n1 + 30 + t] == e2[t]);
        assert(s[n1 + 30 + t] == (((a + e1) + m) + e2)[n1 + 30 + t]);
    }
    assert forall|t: int| 0 <= t < tl.len() implies s[n1 + 30 + e2.len() + t] == tl[t] by {
        assert((((a + e1) + m) + e2).len() == n1 + 30 + e2.len());
        assert(s[n1 + 30 + e2.len() + t] == tl[n1 + 30 + e2.len() as int + t - (n1 + 30
            + e2.len())]);
    }
    lemma_addr_members_head(s, path, coin, n1, len, show);
    let fuel0 = (2 * s.len() + 1) as nat;
    assert(len >= 61);
    assert(sp_ws_count(s, 1int) == 0);
    assert(sp_members(s, 1, 127, (fuel0 - 1) as nat) == Some(
        (
            seq![
                (seq![0x63u8, 0x6fu8, 0x69u8, 0x6eu8], JsonV::Str(coin)),
                (seq![0x63u8, 0x6fu8, 0x6du8, 0x6du8, 0x61u8, 0x6eu8, 0x64u8], JsonV::Str(seq![0x67u8, 0x65u8, 0x74u8, 0x61u8, 0x64u8, 0x64u8, 0x72u8])),
                (seq![0x70u8, 0x61u8, 0x74u8, 0x68u8], JsonV::Str(path)),
                (seq![0x73u8, 0x68u8, 0x6fu8, 0x77u8, 0x4fu8, 0x6eu8, 0x54u8, 0x72u8, 0x65u8, 0x7au8, 0x6fu8, 0x72u8], JsonV::Bool(show)),
            ],
            len,
        ),
    ));
    assert(sp_value(s, 0, spec_depth_limit(), fuel0) == Some(
        (
            JsonV::Obj(
                seq![
                    (seq![0x63u8, 0x6fu8, 0x69u8, 0x6eu8], JsonV::Str(coin)),
                    (seq![0x63u8, 0x6fu8, 0x6du8, 0x6du8, 0x61u8, 0x6eu8, 0x64u8], JsonV::Str(seq![0x67u8, 0x65u8, 0x74u8, 0x61u8, 0x64u8, 0x64u8, 0x72u8])),
                    (seq![0x70u8, 0x61u8, 0x74u8, 0x68u8], JsonV::Str(path)),
                    (seq![0x73u8, 0x68u8, 0x6fu8, 0x77u8, 0x4fu8, 0x6eu8, 0x54u8, 0x72u8, 0x65u8, 0x7au8, 0x6fu8, 0x72u8], JsonV::Bool(show)),
                ],
            ),
            len,
        ),
    ));
    assert(sp_ws_count(s, 0int) == 0);
    assert(sp_ws_count(s, len) == 0);
}

proof fn lemma_synth_env_decodes(msg: Seq<u8>)
    ensures
        spec_decode_unit(spec_synth_env(msg)) == Ok::<_, Seq<u8>>(
            UnitResponseV { success: false, error: Some(msg) },
        ),
        spec_decode_features(spec_synth_env(msg)) == Ok::<_, Seq<u8>>(
            FeaturesResponseV { success: false, payload: None, error: Some(msg) },
        ),
        spec_decode_public_key(spec_synth_env(msg)) == Ok::<_, Seq<u8>>(
            PublicKeyResponseV { success: false, payload: None, error: Some(msg) },
        ),
        spec_decode_address(spec_synth_env(msg)) == Ok::<_, Seq<u8>>(
            AddressResponseV { success: false, payload: None, error: Some(msg) },
        ),
{
    let ms = seq![(key_success(), JsonV::Bool(false)), (key_error(), JsonV::Str(msg))];
    let ms1 = seq![(key_error(), JsonV::Str(msg))];
    assert(key_success() != key_payload()) by {
        assert(key_success()[0] == 0x73);
        assert(key_payload()[0] == 0x70);
    }
    assert(key_error() != key_payload()) by {
        assert(key_error().len() == 5);
        assert(key_payload().len() == 7);
    }
    assert(key_success() != key_error()) by {
        assert(key_success().len() == 7);
        assert(key_error().len() == 5);
    }
    assert(ms[0] == (key_success(), JsonV::Bool(false)));
    assert(ms[1] == (key_error(), JsonV::Str(msg)));
    assert(ms.drop_first() =~= ms1);
    assert(ms1.drop_first() =~= Seq::<(Seq<u8>, JsonV)>::empty());
    assert(sp_lookup(ms, key_success()) == Some(JsonV::Bool(false)));
    assert(sp_lookup(Seq::<(Seq<u8>, JsonV)>::empty(), key_payload()) is None);
    assert(sp_lookup(ms1, key_payload()) is None);
    assert(sp_lookup(ms, key_payload()) is None);
    assert(sp_lookup(ms1, key_error()) == Some(JsonV::Str(msg)));
    assert(sp_lookup(ms, key_error()) == Some(JsonV::Str(msg)));
    assert(spec_env_fields(spec_synth_env(msg)) == Some(
        (false, None::<JsonV>, Some(msg)),
    ));
}

/// Law: a blank peer line yields the synthetic `{success: false, error:
/// "Empty output"}` envelope for every dispatcher call — never an error —
/// and later calls are unaffected, the interpretation of a line depending
/// on that line alone.
pub proof fn lemma_blank_line_soft_failure(line: Seq<u8>)
    requires
        spec_line_is_blank(line),
    ensures
        spec_unit_response(line) == Ok::<_, Seq<u8>>(
            UnitResponseV { success: false, error: Some(msg_empty_output()) },
        ),
        spec_features_response(line) == Ok::<_, Seq<u8>>(
            FeaturesResponseV { success: false, payload: None, error: Some(msg_empty_output()) },
        ),
        spec_public_key_response(line) == Ok::<_, Seq<u8>>(
            PublicKeyResponseV { success: false, payload: None, error: Some(msg_empty_output()) },
        ),
        spec_address_response(line) == Ok::<_, Seq<u8>>(
            AddressResponseV { success: false, payload: None, error: Some(msg_empty_output()) },
        ),
{
    lemma_synth_env_decodes(msg_empty_output());
}

/// Law: a peer line that is not valid JSON yields the synthetic
/// `{success: false, error: "JSON parse error: ..."}` envelope for every
/// dispatcher call — never an error — and the channel stays usable.
pub proof fn lemma_malformed_line_soft_failure(line: Seq<u8>)
    requires
        !spec_line_is_blank(line),
        spec_json_doc(line) is None,
    ensures
        spec_unit_response(line) == Ok::<_, Seq<u8>>(
            UnitResponseV { success: false, error: Some(msg_parse_error()) },
        ),
        spec_features_response(line) == Ok::<_, Seq<u8>>(
            FeaturesResponseV { success: false, payload: None, error: Some(msg_parse_error()) },
        ),
        spec_public_key_response(line) == Ok::<_, Seq<u8>>(
            PublicKeyResponseV { success: false, payload: None, error: Some(msg_parse_error()) },
        ),
        spec_address_response(line) == Ok::<_, Seq<u8>>(
            AddressResponseV { success: false, payload: None, error: Some(msg_parse_error()) },
        ),
{
    lemma_synth_env_decodes(msg_parse_error());
}

} // verus!
