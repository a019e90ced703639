//! The frozen-importlib derivation: `importlib._bootstrap` is embedded
//! verbatim; `importlib._bootstrap_external` is extended with a marker
//! comment and the in-memory importer source before both are compiled at
//! optimize level zero.

use vstd::prelude::*;

verus! {

/// The four artifacts of the importlib derivation: each bootstrap module's
/// source and its compiled bytecode.
pub struct ImportlibData {
    pub bootstrap_source: Vec<u8>,
    pub bootstrap_bytecode: Vec<u8>,
    pub bootstrap_external_source: Vec<u8>,
    pub bootstrap_external_bytecode: Vec<u8>,
}

/// The marker appended between the original bootstrap-external source and
/// the in-memory importer.
pub open spec fn importer_marker_bytes() -> Seq<u8> {
    vstd::utf8::encode_utf8("\n# END OF importlib/_bootstrap_external.py\n\n"@)
}

/// The amended `importlib._bootstrap_external` source: the original,
/// the marker comment, then the in-memory importer source.
pub fn amend_bootstrap_external(source: &Vec<u8>, importer: &Vec<u8>) -> (r: Vec<u8>)
    ensures
        r@ =~= source@ + importer_marker_bytes() + importer@,
{
    let mut out = crate::text::clone_bytes(source);
    let marker: &[u8] = "\n# END OF importlib/_bootstrap_external.py\n\n".as_bytes();
    let mlen = marker.len();
    let mut k: usize = 0;
    while k < mlen
        invariant
            0 <= k <= mlen,
            mlen == marker@.len(),
            out@ =~= source@ + marker@.take(k as int),
        decreases mlen - k,
    {
        let byte = marker[k];
        out.push(byte);
        proof {
            assert(marker@.take(k + 1) =~= marker@.take(k as int) + seq![marker@[k as int]]);
        }
        k = k + 1;
    }
    proof {
        assert(marker@.take(mlen as int) =~= marker@);
        assert(marker@ == importer_marker_bytes());
    }
    let ilen = importer.len();
    let mut k: usize = 0;
    while k < ilen
        invariant
            0 <= k <= ilen,
            ilen == importer@.len(),
            out@ =~= source@ + importer_marker_bytes() + importer@.take(k as int),
        decreases ilen - k,
    {
        let byte = importer[k];
        out.push(byte);
        proof {
            assert(importer@.take(k + 1) =~= importer@.take(k as int) + seq![importer@[k as int]]);
        }
        k = k + 1;
    }
    proof {
        assert(importer@.take(ilen as int) =~= importer@);
    }
    out
}

/// The module name under which the amended bootstrap compiles, so the code
/// objects report the expected frozen filename at runtime.
pub fn frozen_bootstrap_name() -> (r: &'static str)
    ensures
        r@ == "<frozen importlib._bootstrap>"@,
{
    "<frozen importlib._bootstrap>"
}

pub fn frozen_bootstrap_external_name() -> (r: &'static str)
    ensures
        r@ == "<frozen importlib._bootstrap_external>"@,
{
    "<frozen importlib._bootstrap_external>"
}

} // verus!
