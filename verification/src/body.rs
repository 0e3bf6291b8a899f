//! What follows the symbol table in a descriptor: the flags, the two type
//! references, and the lists that are passed over byte for byte.

use vstd::prelude::*;
use crate::cursor::Cursor;
use crate::cursor::skip_at;
use crate::cursor::u16_at;
use crate::cursor::u32_at;
use crate::error::DecodeError;
use crate::error::step_outcome;

verus! {

/// The number of bytes of a member record before its metadata blocks: flags,
/// name index and descriptor index.
pub const MEMBER_PREFIX: usize = 6;

/// What is kept of the part of a descriptor that follows its symbol table:
/// the two type references, and the count and the length in bytes of each
/// list that was passed over.
#[derive(Debug, Clone, Copy, PartialEq, Eq, Structural)]
pub struct DescriptorHeader {
    /// The slot of the described type itself.
    pub self_index: u16,
    /// The slot of the parent type; zero where there is none.
    pub parent_index: u16,
    /// The number of entries of the reference list.
    pub interface_count: u16,
    /// The length in bytes of the entries of the reference list.
    pub interfaces_extent: usize,
    /// The number of field records.
    pub field_count: u16,
    /// The length in bytes of the field records.
    pub fields_extent: usize,
    /// The number of method records.
    pub method_count: u16,
    /// The length in bytes of the method records.
    pub methods_extent: usize,
    /// The number of trailing metadata blocks.
    pub attribute_count: u16,
    /// The length in bytes of the trailing metadata blocks.
    pub attributes_extent: usize,
}

/// Passing over one metadata block at `pos`: a 16-bit name index, a 32-bit
/// length, and that many bytes.
pub open spec fn attribute_at(s: Seq<u8>, pos: int) -> Result<((), int), DecodeError> {
    match u16_at(s, pos) {
        Err(e) => Err(e),
        Ok((_, p)) => match u32_at(s, p) {
            Err(e) => Err(e),
            Ok((n, p2)) => skip_at(s, p2, n as int),
        },
    }
}

/// Passing over `n` metadata blocks from `pos` on.
pub open spec fn attributes_from(s: Seq<u8>, pos: int, n: nat) -> Result<((), int), DecodeError>
    decreases n,
{
    if n == 0 {
        Ok(((), pos))
    } else {
        match attribute_at(s, pos) {
            Err(e) => Err(e),
            Ok((_, p)) => attributes_from(s, p, (n - 1) as nat),
        }
    }
}

/// Passing over a list of metadata blocks at `pos`: a 16-bit count, which is
/// the value, and that many blocks.
pub open spec fn attribute_list_at(s: Seq<u8>, pos: int) -> Result<(u16, int), DecodeError> {
    match u16_at(s, pos) {
        Err(e) => Err(e),
        Ok((n, p)) => match attributes_from(s, p, n as nat) {
            Err(e) => Err(e),
            Ok((_, p2)) => Ok((n, p2)),
        },
    }
}

/// Passing over one member record at `pos`: three 16-bit fields and a list of
/// metadata blocks.
pub open spec fn member_at(s: Seq<u8>, pos: int) -> Result<((), int), DecodeError> {
    match skip_at(s, pos, MEMBER_PREFIX as int) {
        Err(e) => Err(e),
        Ok((_, p)) => match attribute_list_at(s, p) {
            Err(e) => Err(e),
            Ok((_, p2)) => Ok(((), p2)),
        },
    }
}

/// Passing over `n` member records from `pos` on.
pub open spec fn members_from(s: Seq<u8>, pos: int, n: nat) -> Result<((), int), DecodeError>
    decreases n,
{
    if n == 0 {
        Ok(((), pos))
    } else {
        match member_at(s, pos) {
            Err(e) => Err(e),
            Ok((_, p)) => members_from(s, p, (n - 1) as nat),
        }
    }
}

/// Passing over a list of member records at `pos`: a 16-bit count, which is
/// the value, and that many records.
pub open spec fn member_list_at(s: Seq<u8>, pos: int) -> Result<(u16, int), DecodeError> {
    match u16_at(s, pos) {
        Err(e) => Err(e),
        Ok((n, p)) => match members_from(s, p, n as nat) {
            Err(e) => Err(e),
            Ok((_, p2)) => Ok((n, p2)),
        },
    }
}

/// The two type references at `pos`, behind the 16-bit access flags: the
/// slot of the type itself and the slot of its parent.
pub open spec fn references_at(s: Seq<u8>, pos: int) -> Result<((u16, u16), int), DecodeError> {
    match u16_at(s, pos) {
        Err(e) => Err(e),
        Ok((_, p)) => match u16_at(s, p) {
            Err(e) => Err(e),
            Ok((self_index, p2)) => match u16_at(s, p2) {
                Err(e) => Err(e),
                Ok((parent_index, p3)) => Ok(((self_index, parent_index), p3)),
            },
        },
    }
}

/// Passing over the reference list at `pos`: a 16-bit count, which is the
/// value, and that many 16-bit slots.
pub open spec fn interface_list_at(s: Seq<u8>, pos: int) -> Result<(u16, int), DecodeError> {
    match u16_at(s, pos) {
        Err(e) => Err(e),
        Ok((n, p)) => match skip_at(s, p, 2 * n) {
            Err(e) => Err(e),
            Ok((_, p2)) => Ok((n, p2)),
        },
    }
}

/// Decoding the part of a descriptor that follows its symbol table, at `pos`:
/// flags and the two type references, the reference list, the field records,
/// the method records and the trailing metadata blocks.
pub open spec fn body_at(s: Seq<u8>, pos: int) -> Result<(DescriptorHeader, int), DecodeError> {
    match references_at(s, pos) {
        Err(e) => Err(e),
        Ok(((self_index, parent_index), p1)) => match interface_list_at(s, p1) {
            Err(e) => Err(e),
            Ok((interface_count, p2)) => match member_list_at(s, p2) {
                Err(e) => Err(e),
                Ok((field_count, p3)) => match member_list_at(s, p3) {
                    Err(e) => Err(e),
                    Ok((method_count, p4)) => match attribute_list_at(s, p4) {
                        Err(e) => Err(e),
                        Ok((attribute_count, p5)) => Ok(
                            (
                                DescriptorHeader {
                                    self_index,
                                    parent_index,
                                    interface_count,
                                    interfaces_extent: (p2 - p1 - 2) as usize,
                                    field_count,
                                    fields_extent: (p3 - p2 - 2) as usize,
                                    method_count,
                                    methods_extent: (p4 - p3 - 2) as usize,
                                    attribute_count,
                                    attributes_extent: (p5 - p4 - 2) as usize,
                                },
                                p5,
                            ),
                        ),
                    },
                },
            },
        },
    }
}

/// Passing over metadata blocks ends within the buffer, at or behind the start.
pub proof fn lemma_attributes_from(s: Seq<u8>, pos: int, n: nat)
    requires
        0 <= pos <= s.len(),
    ensures
        attributes_from(s, pos, n) matches Ok((_, p)) ==> pos <= p <= s.len(),
    decreases n,
{
    if n > 0 {
        match attribute_at(s, pos) {
            Ok((_, p)) => {
                lemma_attributes_from(s, p, (n - 1) as nat);
            },
            Err(_) => {},
        }
    }
}

/// A list of metadata blocks that can be passed over ends within the buffer,
/// behind its count.
pub proof fn lemma_attribute_list_at(s: Seq<u8>, pos: int)
    ensures
        attribute_list_at(s, pos) matches Ok((_, p)) ==> 0 <= pos && pos + 2 <= p <= s.len(),
{
    match u16_at(s, pos) {
        Ok((n, p)) => {
            lemma_attributes_from(s, p, n as nat);
        },
        Err(_) => {},
    }
}

/// Passing over member records ends within the buffer, at or behind the start.
pub proof fn lemma_members_from(s: Seq<u8>, pos: int, n: nat)
    requires
        0 <= pos <= s.len(),
    ensures
        members_from(s, pos, n) matches Ok((_, p)) ==> pos <= p <= s.len(),
    decreases n,
{
    if n > 0 {
        lemma_attribute_list_at(s, pos + MEMBER_PREFIX);
        match member_at(s, pos) {
            Ok((_, p)) => {
                lemma_members_from(s, p, (n - 1) as nat);
            },
            Err(_) => {},
        }
    }
}

/// A list of member records that can be passed over ends within the buffer,
/// behind its count.
pub proof fn lemma_member_list_at(s: Seq<u8>, pos: int)
    ensures
        member_list_at(s, pos) matches Ok((_, p)) ==> 0 <= pos && pos + 2 <= p <= s.len(),
{
    match u16_at(s, pos) {
        Ok((n, p)) => {
            lemma_members_from(s, p, n as nat);
        },
        Err(_) => {},
    }
}

/// Passes over one metadata block.
pub fn skip_attribute(cur: &mut Cursor) -> (r: Result<(), DecodeError>)
    requires
        old(cur).wf(),
    ensures
        final(cur).wf(),
        final(cur)@.bytes == old(cur)@.bytes,
        step_outcome(r, final(cur)@.pos, attribute_at(old(cur)@.bytes, old(cur)@.pos)),
{
    let _name: u16 = cur.read_u16_be()?;
    let n: u32 = cur.read_u32_be()?;
    cur.skip(n as usize)
}

/// Passes over a counted list of metadata blocks and returns the count.
pub fn skip_attributes(cur: &mut Cursor) -> (r: Result<u16, DecodeError>)
    requires
        old(cur).wf(),
    ensures
        final(cur).wf(),
        final(cur)@.bytes == old(cur)@.bytes,
        step_outcome(r, final(cur)@.pos, attribute_list_at(old(cur)@.bytes, old(cur)@.pos)),
{
    let ghost bytes = cur@.bytes;
    let ghost start = cur@.pos;
    let n: u16 = cur.read_u16_be()?;
    let ghost first = cur@.pos;
    let mut i: u16 = 0;
    while i < n
        invariant
            cur.wf(),
            cur@.bytes == bytes,
            bytes == old(cur)@.bytes,
            start == old(cur)@.pos,
            u16_at(bytes, start) == Ok::<(u16, int), DecodeError>((n, first)),
            i <= n,
            attributes_from(bytes, first, n as nat) == attributes_from(
                bytes,
                cur@.pos,
                (n - i) as nat,
            ),
        decreases n - i,
    {
        skip_attribute(cur)?;
        i = i + 1;
    }
    Ok(n)
}

/// Passes over one member record.
pub fn skip_member(cur: &mut Cursor) -> (r: Result<(), DecodeError>)
    requires
        old(cur).wf(),
    ensures
        final(cur).wf(),
        final(cur)@.bytes == old(cur)@.bytes,
        step_outcome(r, final(cur)@.pos, member_at(old(cur)@.bytes, old(cur)@.pos)),
{
    cur.skip(MEMBER_PREFIX)?;
    let _n: u16 = skip_attributes(cur)?;
    Ok(())
}

/// Passes over a counted list of member records and returns the count.
pub fn skip_members(cur: &mut Cursor) -> (r: Result<u16, DecodeError>)
    requires
        old(cur).wf(),
    ensures
        final(cur).wf(),
        final(cur)@.bytes == old(cur)@.bytes,
        step_outcome(r, final(cur)@.pos, member_list_at(old(cur)@.bytes, old(cur)@.pos)),
{
    let ghost bytes = cur@.bytes;
    let ghost start = cur@.pos;
    let n: u16 = cur.read_u16_be()?;
    let ghost first = cur@.pos;
    let mut i: u16 = 0;
    while i < n
        invariant
            cur.wf(),
            cur@.bytes == bytes,
            bytes == old(cur)@.bytes,
            start == old(cur)@.pos,
            u16_at(bytes, start) == Ok::<(u16, int), DecodeError>((n, first)),
            i <= n,
            members_from(bytes, first, n as nat) == members_from(bytes, cur@.pos, (n - i) as nat),
        decreases n - i,
    {
        skip_member(cur)?;
        i = i + 1;
    }
    Ok(n)
}

/// Decodes the part of a descriptor that follows its symbol table and leaves
/// the cursor behind it.
pub fn decode_body(cur: &mut Cursor) -> (r: Result<DescriptorHeader, DecodeError>)
    requires
        old(cur).wf(),
    ensures
        final(cur).wf(),
        final(cur)@.bytes == old(cur)@.bytes,
        step_outcome(r, final(cur)@.pos, body_at(old(cur)@.bytes, old(cur)@.pos)),
{
    let _flags: u16 = cur.read_u16_be()?;
    let self_index: u16 = cur.read_u16_be()?;
    let parent_index: u16 = cur.read_u16_be()?;
    let interface_count: u16 = cur.read_u16_be()?;
    let interfaces_extent: usize = 2 * (interface_count as usize);
    cur.skip(interfaces_extent)?;
    let before_fields: usize = cur.position();
    proof {
        lemma_member_list_at(cur@.bytes, cur@.pos);
    }
    let field_count: u16 = skip_members(cur)?;
    let before_methods: usize = cur.position();
    proof {
        lemma_member_list_at(cur@.bytes, cur@.pos);
    }
    let method_count: u16 = skip_members(cur)?;
    let before_attributes: usize = cur.position();
    proof {
        lemma_attribute_list_at(cur@.bytes, cur@.pos);
    }
    let attribute_count: u16 = skip_attributes(cur)?;
    let end: usize = cur.position();
    Ok(
        DescriptorHeader {
            self_index,
            parent_index,
            interface_count,
            interfaces_extent,
            field_count,
            fields_extent: before_methods - before_fields - 2,
            method_count,
            methods_extent: before_attributes - before_methods - 2,
            attribute_count,
            attributes_extent: end - before_attributes - 2,
        },
    )
}

} // verus!
