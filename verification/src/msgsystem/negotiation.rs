//! Client-channel `ProtocolVersion` (SimuCloud handshake).
//!
//! Wire shape of the retail client: version 2 followed by a present but empty
//! auth-token reference (not a null one).
use vstd::prelude::*;
use crate::msgsystem::wire::{le_bytes, simple_frame_bytes, SimpleFrame, WireWriter};

verus! {

pub const PROTOCOL_VERSION_TYPE_ID: u16 = 1;

/// Expected client-channel protocol version.
pub const CLIENT_CHANNEL_PROTOCOL_VERSION: u32 = 2;

/// ProtocolVersion payload: version (u32), present marker 1, empty u16-length token.
pub open spec fn protocol_version_payload() -> Seq<u8> {
    le_bytes(CLIENT_CHANNEL_PROTOCOL_VERSION as nat, 4) + seq![1u8] + le_bytes(0, 2)
}

/// Client-channel `ProtocolVersion`; the SimuCloud handshake borrows the client
/// channel metadata, so it sends the same frame.
pub fn encode_protocol_version() -> (f: SimpleFrame)
    ensures
        f.type_id == PROTOCOL_VERSION_TYPE_ID,
        f.payload@ == protocol_version_payload(),
{
    let mut w = WireWriter::new();
    w.write_u32(CLIENT_CHANNEL_PROTOCOL_VERSION);
    // Present (non-null) empty `byte[]` auth token: marker + u16 length 0.
    w.write_u8(1);
    w.write_u16(0);
    assert(w@ =~= protocol_version_payload());
    SimpleFrame { type_id: PROTOCOL_VERSION_TYPE_ID, payload: w.into_bytes() }
}

pub fn encode_protocol_version_frame() -> (out: Vec<u8>)
    ensures
        out@ == simple_frame_bytes(PROTOCOL_VERSION_TYPE_ID, protocol_version_payload()),
{
    encode_protocol_version().write()
}

} // verus!
