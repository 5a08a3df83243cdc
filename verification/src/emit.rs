//! Wire emission: the chosen backend configuration, serialized for the
//! proxy's control plane. A pure function of the configuration object —
//! equal configurations emit byte-identical output.
use vstd::prelude::*;
use crate::backend::{config_view, BackendConfig, SpecBackendConfig};
use crate::codec::{enc_bytes, enc_elem, enc_u64, write_bytes, write_elem, write_u64};

verus! {

/// The wire form of a configuration: a tag for the filter kind, then its
/// fields.
pub open spec fn spec_emit(c: SpecBackendConfig) -> Seq<u8> {
    match c {
        SpecBackendConfig::Fault(abort, msg) => seq![1u8] + enc_u64(abort) + enc_bytes(msg),
        SpecBackendConfig::Embedded(v) => seq![2u8] + enc_elem(v),
    }
}

/// Serializes one backend configuration.
pub fn emit_config(cfg: &BackendConfig) -> (r: Vec<u8>)
    ensures
        r@ == spec_emit(config_view(*cfg)),
{
    let mut out: Vec<u8> = Vec::new();
    match cfg {
        BackendConfig::FaultFilter(f) => {
            out.push(1u8);
            write_u64(&mut out, f.abort_per_million);
            write_bytes(&mut out, &f.abort_message);
            proof {
                assert(out@ =~= spec_emit(config_view(*cfg)));
            }
        },
        BackendConfig::Embedded(ir) => {
            out.push(2u8);
            write_elem(&mut out, ir);
            proof {
                assert(out@ =~= spec_emit(config_view(*cfg)));
            }
        },
    }
    out
}

} // verus!
