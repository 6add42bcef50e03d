//! The provenance recorded with an adjudicated assignment.
use vstd::prelude::*;

use crate::contracts::{AdjudicationReason, RoleAdjudicationProvenance};
use crate::hashing::{hex_lower, sha256_hex_bytes, sha256_of};
use crate::text::owned;

verus! {

/// The provenance of a model's adjudication: the model and slot that
/// answered, why the target was adjudicated, the SHA-256 (lower-case hex)
/// of the serialised evidence packet, and when.
pub fn build_provenance(
    reason: AdjudicationReason,
    model_descriptor: &str,
    slot_name: &str,
    packet_bytes: &[u8],
    adjudicated_at_unix: u64,
) -> (r: RoleAdjudicationProvenance)
    ensures
        r.source@ == "llm"@,
        r.model_descriptor@ == model_descriptor@,
        r.slot_name@ == slot_name@,
        r.packet_sha256@ == hex_lower(sha256_of(packet_bytes@)),
        r.adjudication_reason == reason,
        r.adjudicated_at_unix == adjudicated_at_unix,
{
    RoleAdjudicationProvenance {
        source: owned("llm"),
        model_descriptor: owned(model_descriptor),
        slot_name: owned(slot_name),
        packet_sha256: sha256_hex_bytes(packet_bytes),
        adjudication_reason: reason,
        adjudicated_at_unix,
    }
}

} // verus!
