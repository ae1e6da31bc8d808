use vstd::prelude::*;

verus! {

/// Outward notifications a surface emits while handling input: requests the
/// orchestration layer acts on. Surfaces are identified by a 128-bit id the
/// orchestration layer hands out; a suspended modal request is tracked by a
/// generated id of the same kind.
pub enum BufferEvent {
    Save { id: u128 },
    SaveAs { id: u128 },
    Close { id: u128, is_overlay: bool },
    ResumeEvent { paused_event_id: u128, result: String },
    CancelEvent { paused_event_id: u128 },
}

} // verus!
