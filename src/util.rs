//! Length-delimited records: a varint length, then exactly that many bytes.
use vstd::prelude::*;
use cid::Cid;

use crate::error::Error;
use crate::identifier::{cid_encoding, cid_read_prefix, starts_with_cid};
use crate::varint::{lemma_uvarint_shape, read_varint_usize, uvarint, VarintError};

verus! {

/// The largest record length that is read.
pub const MAX_ALLOC: usize = 4 * 1024 * 1024;

/// A record: the length of `payload` as a varint, then `payload`.
pub open spec fn record(payload: Seq<u8>) -> Seq<u8> {
    uvarint(payload.len()) + payload
}

/// A block record: the identifier's encoding followed by the data, framed.
pub open spec fn block_record(c: Cid, data: Seq<u8>) -> Seq<u8> {
    record(cid_encoding(c) + data)
}

/// The block records of `blocks`, one after another.
pub open spec fn blocks_bytes(blocks: Seq<(Cid, Seq<u8>)>) -> Seq<u8>
    decreases blocks.len(),
{
    if blocks.len() == 0 {
        Seq::empty()
    } else {
        block_record(blocks[0].0, blocks[0].1) + blocks_bytes(blocks.drop_first())
    }
}

/// Every block's record fits under the allocation bound.
pub open spec fn blocks_fit(blocks: Seq<(Cid, Seq<u8>)>) -> bool {
    forall|i: int| 0 <= i < blocks.len() ==> cid_encoding(#[trigger] blocks[i].0).len() + blocks[i].1.len() <= MAX_ALLOC
}

/// The blocks read so far, as values.
pub open spec fn nodes_view(v: Seq<(Cid, Vec<u8>)>) -> Seq<(Cid, Seq<u8>)> {
    v.map_values(|p: (Cid, Vec<u8>)| (p.0, p.1@))
}

/// Text for a varint that could not be read.
fn varint_message(e: VarintError) -> (r: String) {
    match e {
        VarintError::Insufficient => "not enough input bytes".to_owned(),
        VarintError::Overflow => "input bytes exceed maximum".to_owned(),
        VarintError::NotMinimal => "encoding is not minimal".to_owned(),
    }
}

/// Reads one record from the front of `input`.
///
/// `Ok(None)` is the clean end of the input at a record boundary. A declared
/// length above `MAX_ALLOC` is refused before any payload is touched. On
/// success the payload and the bytes taken by the whole record come back.
pub fn ld_read<'a>(input: &'a [u8]) -> (r: Result<Option<(&'a [u8], usize)>, Error>)
    ensures
        (r matches Ok(None)) <==> input@.len() == 0,
        forall|p: Seq<u8>, rest: Seq<u8>|
            #![trigger record(p) + rest]
            input@ == record(p) + rest && p.len() <= MAX_ALLOC ==> (r matches Ok(Some((q, n)))
                && q@ == p && n == record(p).len()),
        forall|n: usize, rest: Seq<u8>|
            #![trigger uvarint(n as nat) + rest]
            input@ == uvarint(n as nat) + rest && n > MAX_ALLOC ==> r == Err::<
                Option<(&'a [u8], usize)>,
                Error,
            >(Error::RecordTooLarge(n)),
        r matches Err(Error::RecordTooLarge(n)) ==> n > MAX_ALLOC,
        r matches Ok(Some((q, n))) ==> q@.len() <= MAX_ALLOC && q@.len() < n <= input@.len()
            && q@ == input@.subrange(n - q@.len(), n as int),
{
    let total: usize = input.len();
    let (length, start) = match read_varint_usize(input) {
        Ok(Some(v)) => v,
        Ok(None) => return Ok(None),
        Err(e) => {
            proof {
                assert forall|p: Seq<u8>, rest: Seq<u8>|
                    input@ == record(p) + rest implies false by {
                    assert(input@ == uvarint((p.len() as usize) as nat) + (p + rest));
                }
            }
            return Err(Error::Parsing(varint_message(e)));
        },
    };
    proof {
        assert forall|p: Seq<u8>, rest: Seq<u8>| input@ == record(p) + rest implies length
            == p.len() && start == uvarint(p.len()).len() by {
            assert(input@ == uvarint((p.len() as usize) as nat) + (p + rest));
        }
    }
    if length > MAX_ALLOC {
        return Err(Error::RecordTooLarge(length));
    }
    if length > total - start {
        proof {
            assert forall|p: Seq<u8>, rest: Seq<u8>|
                input@ == record(p) + rest implies false by {
                assert(input@ == uvarint(p.len()) + (p + rest));
            }
        }
        return Err(Error::Parsing("unexpected end of input".to_owned()));
    }
    let end = start + length;
    let payload = vstd::slice::slice_subrange(input, start, end);
    proof {
        assert forall|p: Seq<u8>, rest: Seq<u8>|
            input@ == record(p) + rest && p.len() <= MAX_ALLOC implies payload@ == p && end
            == record(p).len() by {
            assert(input@ == uvarint(p.len()) + (p + rest));
            assert(payload@ =~= p);
        }
    }
    Ok(Some((payload, end)))
}

/// Reads one block from the front of `input`: its identifier, its data, and
/// the bytes the whole record took. `Ok(None)` is the clean end of the input.
pub fn read_node(input: &[u8]) -> (r: Result<Option<(Cid, Vec<u8>, usize)>, Error>)
    ensures
        (r matches Ok(None)) <==> input@.len() == 0,
        forall|c: Cid, d: Seq<u8>, rest: Seq<u8>|
            #![trigger block_record(c, d) + rest]
            input@ == block_record(c, d) + rest && cid_encoding(c).len() + d.len() <= MAX_ALLOC
                ==> (r matches Ok(Some((c2, d2, n))) && c2 == c && d2@ == d && n
                == block_record(c, d).len()),
        r matches Ok(Some((c, d, n))) ==> 0 < n <= input@.len(),
{
    match ld_read(input) {
        Err(e) => Err(e),
        Ok(None) => Ok(None),
        Ok(Some((payload, consumed))) => {
            proof {
                assert forall|c: Cid, d: Seq<u8>, rest: Seq<u8>|
                    input@ == block_record(c, d) + rest && cid_encoding(c).len() + d.len()
                        <= MAX_ALLOC implies payload@ == cid_encoding(c) + d && consumed
                    == block_record(c, d).len() && starts_with_cid(payload@, c) by {
                    let p = cid_encoding(c) + d;
                    assert(input@ == record(p) + rest);
                    assert(payload@.subrange(0, cid_encoding(c).len() as int) =~= cid_encoding(c));
                }
            }
            match cid_read_prefix(payload) {
                None => Err(Error::Parsing("invalid identifier".to_owned())),
                Some((c, pos)) => {
                    let data = vstd::slice::slice_to_vec(
                        vstd::slice::slice_subrange(payload, pos, payload.len()),
                    );
                    proof {
                        assert forall|c1: Cid, d: Seq<u8>, rest: Seq<u8>|
                            input@ == block_record(c1, d) + rest && cid_encoding(c1).len()
                                + d.len() <= MAX_ALLOC implies c == c1 && data@ == d by {
                            assert(starts_with_cid(payload@, c1));
                            assert(data@ =~= d);
                        }
                    }
                    Ok(Some((c, data, consumed)))
                },
            }
        },
    }
}

/// Reads block records until the input ends cleanly at a record boundary.
///
/// Input made of the records of some blocks reads back as exactly those
/// blocks, in order.
pub fn read_nodes(input: &[u8]) -> (r: Result<Vec<(Cid, Vec<u8>)>, Error>)
    ensures
        forall|blocks: Seq<(Cid, Seq<u8>)>|
            #![trigger blocks_bytes(blocks)]
            input@ == blocks_bytes(blocks) && blocks_fit(blocks) ==> (r matches Ok(v)
                && nodes_view(v@) == blocks),
{
    let total: usize = input.len();
    let mut pos: usize = 0;
    let mut nodes: Vec<(Cid, Vec<u8>)> = Vec::new();
    proof {
        assert forall|blocks: Seq<(Cid, Seq<u8>)>|
            input@ == blocks_bytes(blocks) && blocks_fit(blocks) implies input@.subrange(
            0,
            total as int,
        ) == blocks_bytes(blocks.subrange(0, blocks.len() as int)) && nodes_view(nodes@)
            == blocks.subrange(0, 0) by {
            assert(input@.subrange(0, total as int) =~= input@);
            assert(blocks.subrange(0, blocks.len() as int) =~= blocks);
            assert(nodes_view(nodes@) =~= blocks.subrange(0, 0));
        }
    }
    loop
        invariant
            pos <= total == input@.len(),
            forall|blocks: Seq<(Cid, Seq<u8>)>|
                #![trigger blocks_bytes(blocks)]
                input@ == blocks_bytes(blocks) && blocks_fit(blocks) ==> nodes@.len()
                    <= blocks.len() && input@.subrange(pos as int, total as int) == blocks_bytes(
                    blocks.subrange(nodes@.len() as int, blocks.len() as int),
                ) && nodes_view(nodes@) == blocks.subrange(0, nodes@.len() as int),
        decreases total - pos,
    {
        let rest = vstd::slice::slice_subrange(input, pos, total);
        match read_node(rest) {
            Err(e) => {
                return Err(e);
            },
            Ok(None) => {
                proof {
                    assert forall|blocks: Seq<(Cid, Seq<u8>)>|
                        input@ == blocks_bytes(blocks) && blocks_fit(blocks) implies nodes_view(
                        nodes@,
                    ) == blocks by {
                        let k = nodes@.len() as int;
                        if k < blocks.len() {
                            let tail = blocks.subrange(k, blocks.len() as int);
                            assert(blocks_bytes(tail).len() > 0);
                        }
                        assert(blocks.subrange(0, k) =~= blocks);
                    }
                }
                return Ok(nodes);
            },
            Ok(Some((c, data, n))) => {
                proof {
                    assert forall|blocks: Seq<(Cid, Seq<u8>)>|
                        input@ == blocks_bytes(blocks) && blocks_fit(blocks) implies nodes@.len()
                        < blocks.len() && c == blocks[nodes@.len() as int].0 && data@ == blocks[nodes@.len() as int].1
                        && n == block_record(c, data@).len() && input@.subrange(
                        (pos + n) as int,
                        total as int,
                    ) == blocks_bytes(blocks.subrange(nodes@.len() as int + 1, blocks.len() as int)) by {
                        let k = nodes@.len() as int;
                        let tail = blocks.subrange(k, blocks.len() as int);
                        if k == blocks.len() {
                            assert(tail.len() == 0);
                            assert(rest@.len() == 0);
                        }
                        let b = blocks[k];
                        assert(tail[0] == b);
                        assert(tail.drop_first() =~= blocks.subrange(k + 1, blocks.len() as int));
                        assert(rest@ == block_record(b.0, b.1) + blocks_bytes(tail.drop_first()));
                        assert(cid_encoding(blocks[k].0).len() + blocks[k].1.len() <= MAX_ALLOC);
                        assert(input@.subrange((pos + n) as int, total as int) =~= rest@.subrange(
                            n as int,
                            rest@.len() as int,
                        ));
                        assert(rest@.subrange(n as int, rest@.len() as int) =~= blocks_bytes(
                            tail.drop_first(),
                        ));
                    }
                }
                let ghost old_nodes = nodes@;
                nodes.push((c, data));
                proof {
                    assert forall|blocks: Seq<(Cid, Seq<u8>)>|
                        input@ == blocks_bytes(blocks) && blocks_fit(blocks) implies nodes_view(
                        nodes@,
                    ) == blocks.subrange(0, nodes@.len() as int) by {
                        let k = old_nodes.len() as int;
                        assert(nodes_view(nodes@) =~= nodes_view(old_nodes).push((c, data@)));
                        assert(blocks.subrange(0, k + 1) =~= blocks.subrange(0, k).push(blocks[k]));
                    }
                }
                pos = pos + n;
            },
        }
    }
}

} // verus!
