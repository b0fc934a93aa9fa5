//! The first messages of a file connection: the transfer token, then the
//! offset from which to send.
use vstd::prelude::*;

use super::wire::{
    law_u32_roundtrip, law_u64_roundtrip, le_bytes, lemma_le_bytes_len, reads, sp_u32, sp_u64,
    MessageReader, MessageWriter, ProtocolError,
};

verus! {

#[derive(Debug, Clone, Copy, PartialEq, Eq, Structural)]
pub struct FileTransferInit {
    pub token: u32,
}

impl FileTransferInit {
    pub fn to_bytes(&self) -> (bytes: Vec<u8>)
        ensures
            bytes@ == le_bytes(self.token as nat, 4),
    {
        let mut w = MessageWriter::new();
        w.write_u32(self.token);
        w.into_bytes()
    }

    /// The token in the first four bytes; anything after them is ignored.
    pub fn parse(payload: &[u8]) -> (res: Result<Self, ProtocolError>)
        ensures
            match sp_u32(payload@, 0) {
                Ok((token, _)) => res == Ok::<Self, ProtocolError>(FileTransferInit { token }),
                Err((e, _)) => res == Err::<Self, ProtocolError>(e),
            },
    {
        let mut r = MessageReader::new(payload);
        let token = r.read_u32()?;
        Ok(Self { token })
    }
}

#[derive(Debug, Clone, Copy, PartialEq, Eq, Structural)]
pub struct FileOffset {
    pub offset: u64,
}

impl FileOffset {
    pub fn to_bytes(&self) -> (bytes: Vec<u8>)
        ensures
            bytes@ == le_bytes(self.offset as nat, 8),
    {
        let mut w = MessageWriter::new();
        w.write_u64(self.offset);
        w.into_bytes()
    }

    /// The offset in the first eight bytes; anything after them is ignored.
    pub fn parse(payload: &[u8]) -> (res: Result<Self, ProtocolError>)
        ensures
            match sp_u64(payload@, 0) {
                Ok((offset, _)) => res == Ok::<Self, ProtocolError>(FileOffset { offset }),
                Err((e, _)) => res == Err::<Self, ProtocolError>(e),
            },
    {
        let mut r = MessageReader::new(payload);
        let offset = r.read_u64()?;
        Ok(Self { offset })
    }
}

/// The token of a file connection reads back as written.
pub proof fn law_file_transfer_init_roundtrip(init: FileTransferInit)
    ensures
        sp_u32(le_bytes(init.token as nat, 4), 0) == Ok::<(u32, int), (ProtocolError, int)>(
            (init.token, 4),
        ),
{
    lemma_le_bytes_len(init.token as nat, 4);
    let b = le_bytes(init.token as nat, 4);
    assert(b.subrange(0, 4) =~= b);
    law_u32_roundtrip(b, 0, init.token);
}

/// The offset of a file connection reads back as written.
pub proof fn law_file_offset_roundtrip(offset: FileOffset)
    ensures
        sp_u64(le_bytes(offset.offset as nat, 8), 0) == Ok::<(u64, int), (ProtocolError, int)>(
            (offset.offset, 8),
        ),
{
    lemma_le_bytes_len(offset.offset as nat, 8);
    let b = le_bytes(offset.offset as nat, 8);
    assert(b.subrange(0, 8) =~= b);
    law_u64_roundtrip(b, 0, offset.offset);
}

} // verus!
