//! An iterator-style adapter over a block-stream reader: hands out one
//! decoded block's bytes at a time, ending cleanly at the end-of-file
//! marker.

use vstd::prelude::*;
use crate::block::ReadError;
use crate::reader::{spec_read_block, Reader};

verus! {

/// Yields one decoded block per step from an underlying reader.
pub struct Fields {
    reader: Reader,
}

impl Fields {
    /// The underlying reader.
    pub closed spec fn spec_reader(self) -> Reader {
        self.reader
    }

    /// Wraps a reader.
    pub fn new(reader: Reader) -> (r: Fields)
        ensures
            r.spec_reader() == reader,
    {
        Fields { reader }
    }

    /// The next block's decompressed bytes: `None` at the end-of-file
    /// marker, the error where decoding fails.
    pub fn next(&mut self) -> (r: Option<Result<Vec<u8>, ReadError>>)
        requires
            old(self).spec_reader().inv(),
        ensures
            final(self).spec_reader().inv(),
            final(self).spec_reader().source() == old(self).spec_reader().source(),
            match spec_read_block(
                old(self).spec_reader().source(),
                old(self).spec_reader().offset(),
            ) {
                Ok(None) => r is None,
                Ok(Some((data, _))) => r matches Some(Ok(v)) && v@ == data,
                Err(e) => r == Some(Err::<Vec<u8>, ReadError>(e)),
            },
    {
        match self.reader.read_block() {
            Ok(Some(len)) => {
                if len == 0 {
                    Some(Ok(Vec::new()))
                } else {
                    match self.reader.read(len) {
                        Ok(data) => Some(Ok(data)),
                        Err(e) => Some(Err(e)),
                    }
                }
            },
            Ok(None) => None,
            Err(e) => Some(Err(e)),
        }
    }
}

} // verus!
