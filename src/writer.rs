//! The archive writer: the header record once, then block records.
use vstd::prelude::*;
use cid::Cid;

use crate::identifier::{cid_encoding, cid_to_bytes, MAX_CID_LEN};
use crate::util::{block_record, blocks_bytes, record};
use crate::varint::{lemma_uvarint_usize_len, write_varint_usize, USIZE_LEN};

verus! {

/// What a writer holds, seen as values: the encoded header, the bytes emitted
/// so far, and whether the header record is among them.
pub struct WriterState {
    pub header: Seq<u8>,
    pub out: Seq<u8>,
    pub header_written: bool,
}

/// The header record is emitted unless it already was; the second component
/// is the number of bytes emitted.
pub open spec fn after_header(s: WriterState) -> (WriterState, nat) {
    if s.header_written {
        (s, 0)
    } else {
        (
            WriterState { out: s.out + record(s.header), header_written: true, ..s },
            record(s.header).len(),
        )
    }
}

/// The header record if still due, then the block record of `(c, data)`.
pub open spec fn after_block(s: WriterState, c: Cid, data: Seq<u8>) -> (WriterState, nat) {
    let (h, n) = after_header(s);
    (WriterState { out: h.out + block_record(c, data), ..h }, n + block_record(c, data).len())
}

/// Room left in a `usize` for a further `extra` bytes of output, with the
/// header record and the framing of one block.
pub open spec fn has_room(s: WriterState, extra: nat) -> bool {
    s.out.len() + s.header.len() + extra + 2 * USIZE_LEN + MAX_CID_LEN <= usize::MAX
}

/// Writes an archive into an in-memory sink.
pub struct CarWriter {
    header: Vec<u8>,
    writer: Vec<u8>,
    is_header_written: bool,
}

impl View for CarWriter {
    type V = WriterState;

    closed spec fn view(&self) -> WriterState {
        WriterState {
            header: self.header@,
            out: self.writer@,
            header_written: self.is_header_written,
        }
    }
}

impl CarWriter {
    /// A writer for the header whose structured encoding is `header`, that
    /// appends to `writer`. Nothing is emitted yet.
    pub fn new(header: Vec<u8>, writer: Vec<u8>) -> (r: Self)
        ensures
            r@ == (WriterState { header: header@, out: writer@, header_written: false }),
    {
        CarWriter { header, writer, is_header_written: false }
    }

    /// Emits the header record unless it already was, and returns the number
    /// of bytes emitted by this call.
    pub fn write_header(&mut self) -> (r: usize)
        requires
            has_room(old(self)@, 0),
        ensures
            (final(self)@, r as nat) == after_header(old(self)@),
    {
        if self.is_header_written {
            return 0;
        }
        let len = self.header.len();
        let mut written = write_varint_usize(len, &mut self.writer);
        let mut bytes = self.header.clone();
        self.writer.append(&mut bytes);
        written = written + len;
        self.is_header_written = true;
        proof {
            assert(self.writer@ =~= old(self).writer@ + record(self.header@));
        }
        written
    }

    /// Emits the header record if still due, then the block record of
    /// `(cid, data)`, and returns the number of bytes emitted by this call.
    pub fn write(&mut self, cid: Cid, data: &[u8]) -> (r: usize)
        requires
            has_room(old(self)@, data@.len() as nat),
        ensures
            (final(self)@, r as nat) == after_block(old(self)@, cid, data@),
    {
        let header_len = self.header.len();
        let mut written = self.write_header();
        proof {
            lemma_uvarint_usize_len(header_len);
        }
        let mut cid_bytes = cid_to_bytes(&cid);
        let cid_len = cid_bytes.len();
        let len = cid_len + data.len();
        let prefix_len = write_varint_usize(len, &mut self.writer);
        self.writer.append(&mut cid_bytes);
        self.writer.extend_from_slice(data);
        written = written + prefix_len + cid_len + data.len();
        proof {
            lemma_uvarint_usize_len(len);
            assert(self.writer@ =~= after_header(old(self)@).0.out + block_record(cid, data@));
        }
        written
    }

    /// Takes the bytes emitted so far out of the sink, leaving it empty; the
    /// header state is kept, so a drained header is not emitted again.
    pub fn take_output(&mut self) -> (r: Vec<u8>)
        ensures
            r@ == old(self)@.out,
            final(self)@ == (WriterState { out: Seq::empty(), ..old(self)@ }),
    {
        let mut drained: Vec<u8> = Vec::new();
        core::mem::swap(&mut drained, &mut self.writer);
        drained
    }

    /// Flushes the sink. In memory there is nothing to do.
    pub fn flush(&mut self)
        ensures
            final(self)@ == old(self)@,
    {
    }

    /// Flushes, then hands back the sink.
    pub fn finish(self) -> (r: Vec<u8>)
        ensures
            r@ == self@.out,
    {
        let mut w = self;
        w.flush();
        w.writer
    }

    /// Hands back the sink.
    pub fn into_inner(self) -> (r: Vec<u8>)
        ensures
            r@ == self@.out,
    {
        self.writer
    }
}

/// Writes `blocks` in order, each through `after_block`; the second
/// component is the sum of the counts the writes return.
pub open spec fn write_blocks(s: WriterState, blocks: Seq<(Cid, Seq<u8>)>) -> (WriterState, nat)
    decreases blocks.len(),
{
    if blocks.len() == 0 {
        (s, 0)
    } else {
        let (s1, n1) = after_block(s, blocks[0].0, blocks[0].1);
        let (s2, n2) = write_blocks(s1, blocks.drop_first());
        (s2, n1 + n2)
    }
}

/// Emitting the header twice in a row emits it once: the second call
/// returns 0 and leaves the writer as the first left it.
pub proof fn lemma_write_header_idempotent(s: WriterState)
    ensures
        after_header(s).0.header_written,
        after_header(after_header(s).0) == (after_header(s).0, 0nat),
{
}

/// Writes only ever append, the header record at most once, and the blocks
/// never change the encoded header.
proof fn lemma_write_blocks_keeps(s: WriterState, blocks: Seq<(Cid, Seq<u8>)>)
    requires
        s.header_written,
    ensures
        write_blocks(s, blocks).0.header_written,
        write_blocks(s, blocks).0.header == s.header,
        write_blocks(s, blocks).0.out == s.out + blocks_bytes(blocks),
        write_blocks(s, blocks).1 == blocks_bytes(blocks).len(),
    decreases blocks.len(),
{
    if blocks.len() > 0 {
        let (s1, n1) = after_block(s, blocks[0].0, blocks[0].1);
        lemma_write_blocks_keeps(s1, blocks.drop_first());
        assert(s.out + blocks_bytes(blocks) =~= s1.out + blocks_bytes(blocks.drop_first()));
    }
}

/// The counts returned by emitting the header and then writing any blocks add
/// up to exactly the number of bytes that reach the sink.
pub proof fn lemma_bytes_written_fidelity(s: WriterState, blocks: Seq<(Cid, Seq<u8>)>)
    ensures
        ({
            let (h, n0) = after_header(s);
            let (f, n) = write_blocks(h, blocks);
            f.out.len() == s.out.len() + n0 + n
        }),
{
    let (h, n0) = after_header(s);
    lemma_write_blocks_keeps(h, blocks);
}

/// A fresh writer that emits its header and then writes `blocks` leaves in
/// the sink the header record followed by the block records, in order.
pub proof fn lemma_stream_layout(s: WriterState, blocks: Seq<(Cid, Seq<u8>)>)
    requires
        !s.header_written,
    ensures
        write_blocks(after_header(s).0, blocks).0.out == s.out + record(s.header) + blocks_bytes(
            blocks,
        ),
{
    lemma_write_blocks_keeps(after_header(s).0, blocks);
}

} // verus!
