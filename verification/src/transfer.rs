//! Streaming a window of a file in chunks: which offset to read next, and
//! how much of what a read returned belongs to the window.

use vstd::prelude::*;

verus! {

/// The most bytes that one read asks for and one write sends.
pub const CHUNK_LEN: usize = 8192;

/// The state of a transfer: the window `[position, end)` is still to send.
#[derive(Debug, Clone, Copy, PartialEq, Eq, Structural)]
pub struct Transfer {
    /// The offset in the file of the next byte to send.
    pub position: u64,
    /// The offset in the file at which the window ends.
    pub end: u64,
}

/// The smaller of two numbers.
pub open spec fn min(a: int, b: int) -> int {
    if a <= b {
        a
    } else {
        b
    }
}

impl Transfer {
    /// How many bytes of the window are still to send.
    pub open spec fn remaining(self) -> int {
        if self.position < self.end {
            self.end - self.position
        } else {
            0
        }
    }

    /// How many of the `read_bytes` bytes that a read at `position` returned
    /// are sent on: no more than a chunk, and none beyond the window's end.
    pub open spec fn spec_take(self, read_bytes: int) -> int {
        min(min(read_bytes, CHUNK_LEN as int), self.remaining())
    }

    /// The transfer once `sent` more bytes are sent.
    pub open spec fn advanced(self, sent: int) -> Transfer {
        Transfer { position: (self.position + sent) as u64, end: self.end }
    }

    /// A transfer of the window `[start, end)`.
    pub fn new(start: u64, end: u64) -> (transfer: Transfer)
        ensures
            transfer == (Transfer { position: start, end }),
    {
        Transfer { position: start, end }
    }

    /// The offset at which to read next, or nothing once the window is sent.
    pub fn next_offset(&self) -> (offset: Option<u64>)
        ensures
            offset == if self.position < self.end {
                Some(self.position)
            } else {
                None::<u64>
            },
    {
        if self.position < self.end {
            Some(self.position)
        } else {
            None
        }
    }

    /// Takes note that a read at the next offset returned `read_bytes` bytes
    /// and says how many of them, from the first on, to send. A result of 0
    /// ends the transfer: the file has ended or the window is sent.
    pub fn accept(&mut self, read_bytes: usize) -> (sent: usize)
        ensures
            sent == old(self).spec_take(read_bytes as int),
            *final(self) == old(self).advanced(sent as int),
            final(self).position <= final(self).end || sent == 0,
    {
        if self.position >= self.end {
            return 0;
        }
        let left: u64 = self.end - self.position;
        let mut sent: usize = if read_bytes < CHUNK_LEN {
            read_bytes
        } else {
            CHUNK_LEN
        };
        if left < sent as u64 {
            sent = left as usize;
        }
        self.position = self.position + sent as u64;
        sent
    }
}

/// What a transfer sends of `file` when its reads return `reads[0]` bytes,
/// then `reads[1]` and so on, each from the offset asked for: it stops at the
/// window's end, at a read that returns nothing, and when `reads` runs out.
pub open spec fn streamed(file: Seq<u8>, transfer: Transfer, reads: Seq<usize>) -> Seq<u8>
    decreases reads.len(),
{
    if reads.len() == 0 || transfer.spec_take(reads[0] as int) == 0 {
        Seq::empty()
    } else {
        let sent = transfer.spec_take(reads[0] as int);
        file.subrange(transfer.position as int, transfer.position + sent) + streamed(
            file,
            transfer.advanced(sent),
            reads.drop_first(),
        )
    }
}

/// Whatever the reads return, what is sent is the start of the window.
pub proof fn lemma_streamed_is_prefix(file: Seq<u8>, transfer: Transfer, reads: Seq<usize>)
    requires
        transfer.position <= transfer.end <= file.len(),
    ensures
        streamed(file, transfer, reads).len() <= transfer.end - transfer.position,
        streamed(file, transfer, reads) == file.subrange(
            transfer.position as int,
            transfer.position + streamed(file, transfer, reads).len(),
        ),
    decreases reads.len(),
{
    let out = streamed(file, transfer, reads);
    if reads.len() == 0 || transfer.spec_take(reads[0] as int) == 0 {
        assert(out =~= file.subrange(transfer.position as int, transfer.position as int));
    } else {
        let sent = transfer.spec_take(reads[0] as int);
        let next = transfer.advanced(sent);
        lemma_streamed_is_prefix(file, next, reads.drop_first());
        let rest = streamed(file, next, reads.drop_first());
        assert(out =~= file.subrange(transfer.position as int, transfer.position + sent + rest.len()));
    }
}

/// Where every read returns at least one byte and there are reads enough,
/// what is sent is the whole window, byte for byte.
pub proof fn lemma_streamed_is_window(file: Seq<u8>, transfer: Transfer, reads: Seq<usize>)
    requires
        transfer.position <= transfer.end <= file.len(),
        forall|i: int| 0 <= i < reads.len() ==> reads[i] >= 1,
        reads.len() >= transfer.end - transfer.position,
    ensures
        streamed(file, transfer, reads) == file.subrange(
            transfer.position as int,
            transfer.end as int,
        ),
    decreases reads.len(),
{
    let out = streamed(file, transfer, reads);
    if reads.len() == 0 || transfer.spec_take(reads[0] as int) == 0 {
        assert(transfer.position == transfer.end);
        assert(out =~= file.subrange(transfer.position as int, transfer.end as int));
    } else {
        let sent = transfer.spec_take(reads[0] as int);
        let next = transfer.advanced(sent);
        assert forall|i: int| 0 <= i < reads.drop_first().len() implies reads.drop_first()[i]
            >= 1 by {
            assert(reads.drop_first()[i] == reads[i + 1]);
        }
        lemma_streamed_is_window(file, next, reads.drop_first());
        assert(out =~= file.subrange(transfer.position as int, transfer.end as int));
    }
}

} // verus!
