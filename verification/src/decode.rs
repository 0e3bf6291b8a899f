//! Decoding a whole descriptor from a buffer that holds nothing else.

use vstd::prelude::*;
use crate::body::body_at;
use crate::body::decode_body;
use crate::cursor::Cursor;
use crate::cursor::u16_at;
use crate::cursor::u32_at;
use crate::error::DecodeError;
use crate::symbols::EntryView;
use crate::symbols::SymbolTable;
use crate::symbols::decode_symbol_table;
use crate::symbols::lemma_symbol_table_wf;
use crate::symbols::symbol_table_at;
use crate::symbols::table_wf;

verus! {

/// What is kept of a decoded descriptor: its symbol table and the slot of its
/// parent type.
#[derive(Debug, Clone, PartialEq, Eq)]
pub struct DecodedDescriptor {
    pub symbol_table: SymbolTable,
    pub parent_index: u16,
}

/// A decoded descriptor as a mathematical value.
pub struct DescriptorView {
    pub slots: Seq<Option<EntryView>>,
    pub parent_index: u16,
}

impl View for DecodedDescriptor {
    type V = DescriptorView;

    open spec fn view(&self) -> DescriptorView {
        DescriptorView { slots: self.symbol_table@, parent_index: self.parent_index }
    }
}

impl DecodedDescriptor {
    /// The symbol table is a table.
    pub open spec fn wf(&self) -> bool {
        table_wf(self@.slots)
    }
}

/// Passing over the preamble at `pos`: a 32-bit identifier and two 16-bit
/// version numbers, none of which is examined.
pub open spec fn preamble_at(s: Seq<u8>, pos: int) -> Result<((), int), DecodeError> {
    match u32_at(s, pos) {
        Err(e) => Err(e),
        Ok((_, p)) => match u16_at(s, p) {
            Err(e) => Err(e),
            Ok((_, p2)) => match u16_at(s, p2) {
                Err(e) => Err(e),
                Ok((_, p3)) => Ok(((), p3)),
            },
        },
    }
}

/// The descriptor that the buffer `s` holds: preamble, symbol table and body,
/// which together take up the whole buffer.
pub open spec fn descriptor_of(s: Seq<u8>) -> Result<DescriptorView, DecodeError> {
    match preamble_at(s, 0) {
        Err(e) => Err(e),
        Ok((_, p)) => match symbol_table_at(s, p) {
            Err(e) => Err(e),
            Ok((slots, p2)) => match body_at(s, p2) {
                Err(e) => Err(e),
                Ok((header, p3)) => if p3 < s.len() {
                    Err(DecodeError::TrailingData { remaining: (s.len() - p3) as usize })
                } else {
                    Ok(DescriptorView { slots, parent_index: header.parent_index })
                },
            },
        },
    }
}

/// The symbol table of a descriptor that decodes is a table.
pub proof fn lemma_descriptor_wf(s: Seq<u8>)
    ensures
        descriptor_of(s) matches Ok(v) ==> table_wf(v.slots),
{
    match preamble_at(s, 0) {
        Ok((_, p)) => {
            lemma_symbol_table_wf(s, p);
        },
        Err(_) => {},
    }
}

/// Passes over the preamble.
pub fn skip_preamble(cur: &mut Cursor) -> (r: Result<(), DecodeError>)
    requires
        old(cur).wf(),
    ensures
        final(cur).wf(),
        final(cur)@.bytes == old(cur)@.bytes,
        crate::error::step_outcome(
            r,
            final(cur)@.pos,
            preamble_at(old(cur)@.bytes, old(cur)@.pos),
        ),
{
    let _magic: u32 = cur.read_u32_be()?;
    let _minor: u16 = cur.read_u16_be()?;
    let _major: u16 = cur.read_u16_be()?;
    Ok(())
}

/// Decodes the descriptor that takes up the whole of `bytes`.
pub fn decode(bytes: &[u8]) -> (r: Result<DecodedDescriptor, DecodeError>)
    ensures
        match descriptor_of(bytes@) {
            Ok(v) => r is Ok && r->Ok_0@ == v,
            Err(e) => r == Err::<DecodedDescriptor, DecodeError>(e),
        },
        r matches Ok(d) ==> d.wf(),
{
    let mut cur = Cursor::new(bytes);
    skip_preamble(&mut cur)?;
    let symbol_table = decode_symbol_table(&mut cur)?;
    let header = decode_body(&mut cur)?;
    cur.assert_exhausted()?;
    Ok(DecodedDescriptor { symbol_table, parent_index: header.parent_index })
}

} // verus!
