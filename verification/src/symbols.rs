//! The symbol table of a descriptor: its entries, its slots, and its decoder.

use vstd::prelude::*;
use crate::cursor::Cursor;
use crate::cursor::bytes_at;
use crate::cursor::skip_at;
use crate::cursor::u16_at;
use crate::cursor::u8_at;
use crate::error::DecodeError;
use crate::error::viewed_outcome;
use crate::pool::Link;
use crate::pool::NamePool;

verus! {

/// The tag of an entry that holds a literal string.
pub const TAG_UTF8: u8 = 1;

/// The tag of an entry that refers to a type by the slot of its name.
pub const TAG_CLASS: u8 = 7;

/// The tag of an entry that pairs a name slot with a descriptor slot.
pub const TAG_NAME_AND_TYPE: u8 = 12;

/// The largest number of slots that a 16-bit entry count can announce.
pub const MAX_SLOTS: usize = 65535;

/// One entry of a symbol table.
#[derive(Debug, Clone, PartialEq, Eq)]
pub enum SymbolEntry {
    /// A literal string.
    Utf8 { text: Vec<u8> },
    /// A type, named by the string in slot `name_slot`.
    ClassRef { name_slot: u16 },
    /// A member, named by the string in slot `name_slot`.
    NameAndType { name_slot: u16, descriptor_slot: u16 },
    /// Any other entry: its tag and the number of slots it occupies.
    Opaque { tag: u8, slot_width: u8 },
}

/// A symbol-table entry as a mathematical value.
pub enum EntryView {
    Utf8 { text: Seq<u8> },
    ClassRef { name_slot: u16 },
    NameAndType { name_slot: u16, descriptor_slot: u16 },
    Opaque { tag: u8, slot_width: u8 },
}

/// The number of bytes that follow the tag of an opaque entry, for each tag
/// that opens one: four for a 32-bit number (3, 4), eight for a wide 64-bit
/// number (5, 6), two for a string reference (8) and a method type (16),
/// four for a member reference (9, 10, 11) and a dynamic call site (18),
/// three for a method handle (15).
pub open spec fn opaque_payload(tag: u8) -> Option<int> {
    if tag == 3 || tag == 4 {
        Some(4)
    } else if tag == 5 || tag == 6 {
        Some(8)
    } else if tag == 8 || tag == 16 {
        Some(2)
    } else if tag == 9 || tag == 10 || tag == 11 || tag == 18 {
        Some(4)
    } else if tag == 15 {
        Some(3)
    } else {
        None
    }
}

/// The number of slots that an opaque entry with this tag occupies: two for
/// the wide numeric tags, one otherwise.
pub open spec fn slot_width_of(tag: u8) -> u8 {
    if tag == 5 || tag == 6 {
        2
    } else {
        1
    }
}

impl EntryView {
    /// The entry occupies two slots.
    pub open spec fn is_wide(self) -> bool {
        self matches EntryView::Opaque { slot_width, .. } && slot_width == 2
    }

    /// The number of slots that the entry occupies.
    pub open spec fn width(self) -> int {
        if self.is_wide() {
            2
        } else {
            1
        }
    }

    /// The entry can stand on the wire: a string short enough for a 16-bit
    /// length, an opaque entry with a tag that opens one and the width of
    /// that tag.
    pub open spec fn wf(self) -> bool {
        match self {
            EntryView::Utf8 { text } => text.len() <= 65535,
            EntryView::Opaque { tag, slot_width } => opaque_payload(tag) is Some
                && slot_width == slot_width_of(tag),
            _ => true,
        }
    }
}

impl View for SymbolEntry {
    type V = EntryView;

    open spec fn view(&self) -> EntryView {
        match self {
            SymbolEntry::Utf8 { text } => EntryView::Utf8 { text: text@ },
            SymbolEntry::ClassRef { name_slot } => EntryView::ClassRef { name_slot: *name_slot },
            SymbolEntry::NameAndType { name_slot, descriptor_slot } => EntryView::NameAndType {
                name_slot: *name_slot,
                descriptor_slot: *descriptor_slot,
            },
            SymbolEntry::Opaque { tag, slot_width } => EntryView::Opaque {
                tag: *tag,
                slot_width: *slot_width,
            },
        }
    }
}

impl SymbolEntry {
    /// Whether the entry occupies two slots.
    pub fn is_wide(&self) -> (w: bool)
        ensures
            w == self@.is_wide(),
    {
        match self {
            SymbolEntry::Opaque { slot_width, .. } => *slot_width == 2,
            _ => false,
        }
    }
}

/// The slots of a table after `entry` has been added: the entry, and behind a
/// wide one a placeholder.
pub open spec fn pushed(slots: Seq<Option<EntryView>>, entry: EntryView) -> Seq<Option<EntryView>> {
    if entry.is_wide() {
        slots.push(Some(entry)).push(None)
    } else {
        slots.push(Some(entry))
    }
}

/// What the 1-based `index` addresses in `slots`: an entry, or nothing where
/// the index is zero, past the end, or on a placeholder.
pub open spec fn slot_at(slots: Seq<Option<EntryView>>, index: u16) -> Option<EntryView> {
    if 1 <= index <= slots.len() {
        slots[index - 1]
    } else {
        None
    }
}

/// The slot holds an entry that occupies two slots.
pub open spec fn holds_wide(slot: Option<EntryView>) -> bool {
    match slot {
        Some(e) => e.is_wide(),
        None => false,
    }
}

/// The slot is empty or holds an entry fit for the wire.
pub open spec fn slot_wf(slot: Option<EntryView>) -> bool {
    match slot {
        Some(e) => e.wf(),
        None => true,
    }
}

/// The slots are those of a table: no more than a 16-bit count can announce,
/// every entry fit for the wire, and a placeholder behind each wide entry
/// and nowhere else.
pub open spec fn table_wf(slots: Seq<Option<EntryView>>) -> bool {
    &&& slots.len() <= MAX_SLOTS
    &&& slots.len() > 0 ==> !holds_wide(slots.last())
    &&& forall|i: int| 0 <= i < slots.len() ==> slot_wf(#[trigger] slots[i])
    &&& forall|i: int|
        0 <= i < slots.len() ==> ((#[trigger] slots[i] is None) <==> (i >= 1 && holds_wide(
            slots[i - 1],
        )))
}

/// Adding an entry that is fit for the wire keeps a table a table, as long as
/// there is room for it.
pub proof fn lemma_pushed_wf(slots: Seq<Option<EntryView>>, entry: EntryView)
    requires
        table_wf(slots),
        entry.wf(),
        slots.len() + entry.width() <= MAX_SLOTS,
    ensures
        table_wf(pushed(slots, entry)),
{
    let out = pushed(slots, entry);
    assert forall|i: int| 0 <= i < out.len() implies slot_wf(#[trigger] out[i]) by {
        if i < slots.len() {
            assert(out[i] == slots[i]);
        }
    }
    assert forall|i: int| 0 <= i < out.len() implies ((#[trigger] out[i] is None) <==> (i >= 1
        && holds_wide(out[i - 1]))) by {
        if i < slots.len() {
            assert(out[i] == slots[i]);
            if i >= 1 {
                assert(out[i - 1] == slots[i - 1]);
            }
        } else if i == slots.len() {
            if i >= 1 {
                assert(out[i - 1] == slots.last());
            }
        }
    }
}

/// What a slot offers to the resolution of names.
pub open spec fn link_of(slot: Option<EntryView>) -> Link {
    match slot {
        Some(EntryView::Utf8 { text }) => Link::Text { text },
        Some(EntryView::ClassRef { name_slot }) => Link::Class { name_slot },
        Some(EntryView::NameAndType { name_slot, .. }) => Link::Name { name_slot },
        _ => Link::Other,
    }
}

/// What the slots of a table offer to the resolution of names.
pub open spec fn links_of(slots: Seq<Option<EntryView>>) -> Seq<Link> {
    Seq::new(slots.len(), |i: int| link_of(slots[i]))
}

/// The slot behind a wide entry cannot be addressed, and leads to no name.
pub proof fn lemma_wide_hides_next(slots: Seq<Option<EntryView>>, k: u16)
    requires
        table_wf(slots),
        holds_wide(slot_at(slots, k)),
    ensures
        k < MAX_SLOTS,
        slot_at(slots, (k + 1) as u16) is None,
        crate::pool::link_at(links_of(slots), (k + 1) as u16) == Link::Other,
{
    assert(holds_wide(slots[k - 1]));
    if k == slots.len() {
        assert(slots.last() == slots[k - 1]);
    }
    assert(slots[k as int] is None);
}

/// The view of one slot.
pub open spec fn slot_view(slot: Option<SymbolEntry>) -> Option<EntryView> {
    match slot {
        Some(e) => Some(e@),
        None => None,
    }
}

/// The symbol table of one descriptor: entries addressed from 1, with a
/// placeholder in the slot behind each wide entry.
#[derive(Debug, Clone, PartialEq, Eq)]
pub struct SymbolTable {
    slots: Vec<Option<SymbolEntry>>,
}

impl View for SymbolTable {
    type V = Seq<Option<EntryView>>;

    closed spec fn view(&self) -> Seq<Option<EntryView>> {
        Seq::new(self.slots@.len(), |i: int| slot_view(self.slots@[i]))
    }
}

impl SymbolTable {
    /// The table's invariant.
    pub open spec fn wf(&self) -> bool {
        table_wf(self@)
    }

    /// The empty table.
    pub fn new() -> (t: SymbolTable)
        ensures
            t.wf(),
            t@ == Seq::<Option<EntryView>>::empty(),
    {
        let t = SymbolTable { slots: Vec::new() };
        assert(t@ =~= Seq::<Option<EntryView>>::empty());
        t
    }

    /// The number of slots, placeholders included.
    pub fn len(&self) -> (n: usize)
        ensures
            n == self@.len(),
    {
        self.slots.len()
    }

    /// Adds `entry` in the next free slot, and a placeholder behind it where
    /// it is wide.
    pub fn push(&mut self, entry: SymbolEntry)
        requires
            old(self).wf(),
            entry@.wf(),
            old(self)@.len() + entry@.width() <= MAX_SLOTS,
        ensures
            final(self).wf(),
            final(self)@ == pushed(old(self)@, entry@),
    {
        let ghost e = entry@;
        let wide = entry.is_wide();
        self.slots.push(Some(entry));
        assert(self@ =~= old(self)@.push(Some(e)));
        if wide {
            self.slots.push(None);
            assert(self@ =~= old(self)@.push(Some(e)).push(None));
        }
        proof {
            lemma_pushed_wf(old(self)@, e);
        }
    }

    /// The entry that the 1-based `index` addresses.
    pub fn lookup(&self, index: u16) -> (r: Result<&SymbolEntry, DecodeError>)
        ensures
            match slot_at(self@, index) {
                Some(e) => r is Ok && r->Ok_0@ == e,
                None => r == Err::<&SymbolEntry, DecodeError>(
                    DecodeError::MalformedReference { index },
                ),
            },
    {
        if index == 0 || index as usize > self.slots.len() {
            return Err(DecodeError::MalformedReference { index });
        }
        match &self.slots[index as usize - 1] {
            Some(e) => Ok(e),
            None => Err(DecodeError::MalformedReference { index }),
        }
    }
}

impl NamePool for SymbolTable {
    open spec fn links(&self) -> Seq<Link> {
        links_of(self@)
    }

    fn slot_count(&self) -> (n: usize) {
        self.slots.len()
    }

    fn text(&self, i: usize) -> (r: Option<&Vec<u8>>) {
        match &self.slots[i] {
            Some(SymbolEntry::Utf8 { text }) => Some(text),
            _ => None,
        }
    }

    fn class_slot(&self, i: usize) -> (r: Option<u16>) {
        match &self.slots[i] {
            Some(SymbolEntry::ClassRef { name_slot }) => Some(*name_slot),
            _ => None,
        }
    }

    fn name_slot(&self, i: usize) -> (r: Option<u16>) {
        match &self.slots[i] {
            Some(SymbolEntry::NameAndType { name_slot, .. }) => Some(*name_slot),
            _ => None,
        }
    }
}

/// Decoding the entry that starts at `pos` and is to fill slot `index`.
pub open spec fn entry_at(s: Seq<u8>, pos: int, index: u16) -> Result<
    (EntryView, int),
    DecodeError,
> {
    match u8_at(s, pos) {
        Err(e) => Err(e),
        Ok((tag, p)) => if tag == TAG_UTF8 {
            match u16_at(s, p) {
                Err(e) => Err(e),
                Ok((n, p2)) => match bytes_at(s, p2, n as int) {
                    Err(e) => Err(e),
                    Ok((text, p3)) => Ok((EntryView::Utf8 { text }, p3)),
                },
            }
        } else if tag == TAG_CLASS {
            match u16_at(s, p) {
                Err(e) => Err(e),
                Ok((name_slot, p2)) => Ok((EntryView::ClassRef { name_slot }, p2)),
            }
        } else if tag == TAG_NAME_AND_TYPE {
            match u16_at(s, p) {
                Err(e) => Err(e),
                Ok((name_slot, p2)) => match u16_at(s, p2) {
                    Err(e) => Err(e),
                    Ok((descriptor_slot, p3)) => Ok(
                        (EntryView::NameAndType { name_slot, descriptor_slot }, p3),
                    ),
                },
            }
        } else {
            match opaque_payload(tag) {
                Some(n) => match skip_at(s, p, n) {
                    Err(e) => Err(e),
                    Ok((_, p2)) => Ok(
                        (EntryView::Opaque { tag, slot_width: slot_width_of(tag) }, p2),
                    ),
                },
                None => Err(DecodeError::UnknownTag { tag, index, offset: pos as usize }),
            }
        },
    }
}

/// The slot number `next` as the 16-bit index that it is on the wire.
pub open spec fn index_of(next: int) -> u16 {
    if 0 <= next <= 65535 {
        next as u16
    } else {
        0
    }
}

/// Decoding the entries from slot `next` on, up to the announced `count`,
/// behind the slots `acc` that are already filled.
pub open spec fn slots_from(
    s: Seq<u8>,
    pos: int,
    next: int,
    count: int,
    acc: Seq<Option<EntryView>>,
) -> Result<(Seq<Option<EntryView>>, int), DecodeError>
    decreases count + 1 - next,
{
    if next >= count {
        Ok((acc, pos))
    } else {
        match entry_at(s, pos, index_of(next)) {
            Err(e) => Err(e),
            Ok((entry, p)) => if entry.is_wide() {
                slots_from(s, p, next + 2, count, pushed(acc, entry))
            } else {
                slots_from(s, p, next + 1, count, pushed(acc, entry))
            },
        }
    }
}

/// Decoding a symbol table at `pos`: a 16-bit count, then the entries of the
/// slots from 1 up to the count, the count itself excluded.
pub open spec fn symbol_table_at(s: Seq<u8>, pos: int) -> Result<
    (Seq<Option<EntryView>>, int),
    DecodeError,
> {
    match u16_at(s, pos) {
        Err(e) => Err(e),
        Ok((count, p)) => slots_from(s, p, 1, count as int, Seq::empty()),
    }
}

/// The slots that decoding adds to those of a table are again those of a
/// table.
pub proof fn lemma_slots_from_wf(
    s: Seq<u8>,
    pos: int,
    next: int,
    count: int,
    acc: Seq<Option<EntryView>>,
)
    requires
        table_wf(acc),
        acc.len() == next - 1,
        1 <= next <= count + 1,
        count <= MAX_SLOTS,
    ensures
        slots_from(s, pos, next, count, acc) matches Ok((slots, _)) ==> table_wf(slots),
    decreases count + 1 - next,
{
    if next < count {
        lemma_entry_at(s, pos, index_of(next));
        match entry_at(s, pos, index_of(next)) {
            Ok((entry, p)) => {
                lemma_pushed_wf(acc, entry);
                lemma_slots_from_wf(s, p, next + entry.width(), count, pushed(acc, entry));
            },
            Err(_) => {},
        }
    }
}

/// The slots of a symbol table that decodes are those of a table.
pub proof fn lemma_symbol_table_wf(s: Seq<u8>, pos: int)
    ensures
        symbol_table_at(s, pos) matches Ok((slots, _)) ==> table_wf(slots),
{
    match u16_at(s, pos) {
        Ok((count, p)) => {
            lemma_slots_from_wf(s, p, 1, count as int, Seq::empty());
        },
        Err(_) => {},
    }
}

/// An entry that decodes is fit for the wire and ends behind its start.
pub proof fn lemma_entry_at(s: Seq<u8>, pos: int, index: u16)
    ensures
        entry_at(s, pos, index) matches Ok((e, p)) ==> e.wf() && pos < p <= s.len(),
{
}

/// The number of bytes behind the tag of an opaque entry, or `None` for a tag
/// that opens none.
pub fn opaque_payload_len(tag: u8) -> (r: Option<usize>)
    ensures
        match opaque_payload(tag) {
            Some(n) => r == Some(n as usize),
            None => r is None,
        },
{
    if tag == 3 || tag == 4 {
        Some(4)
    } else if tag == 5 || tag == 6 {
        Some(8)
    } else if tag == 8 || tag == 16 {
        Some(2)
    } else if tag == 9 || tag == 10 || tag == 11 || tag == 18 {
        Some(4)
    } else if tag == 15 {
        Some(3)
    } else {
        None
    }
}

/// The number of slots that an opaque entry with this tag occupies.
pub fn slot_width(tag: u8) -> (w: u8)
    ensures
        w == slot_width_of(tag),
{
    if tag == 5 || tag == 6 {
        2
    } else {
        1
    }
}

/// Decodes the entry at the cursor, which is to fill slot `index`.
pub fn decode_entry(cur: &mut Cursor, index: u16) -> (r: Result<SymbolEntry, DecodeError>)
    requires
        old(cur).wf(),
    ensures
        final(cur).wf(),
        final(cur)@.bytes == old(cur)@.bytes,
        viewed_outcome(r, final(cur)@.pos, entry_at(old(cur)@.bytes, old(cur)@.pos, index)),
{
    let start: usize = cur.position();
    let tag: u8 = cur.read_u8()?;
    if tag == TAG_UTF8 {
        let n: u16 = cur.read_u16_be()?;
        let text = cur.read_fixed_bytes(n as usize)?;
        Ok(SymbolEntry::Utf8 { text })
    } else if tag == TAG_CLASS {
        let name_slot: u16 = cur.read_u16_be()?;
        Ok(SymbolEntry::ClassRef { name_slot })
    } else if tag == TAG_NAME_AND_TYPE {
        let name_slot: u16 = cur.read_u16_be()?;
        let descriptor_slot: u16 = cur.read_u16_be()?;
        Ok(SymbolEntry::NameAndType { name_slot, descriptor_slot })
    } else {
        match opaque_payload_len(tag) {
            Some(n) => {
                cur.skip(n)?;
                Ok(SymbolEntry::Opaque { tag, slot_width: slot_width(tag) })
            },
            None => Err(DecodeError::UnknownTag { tag, index, offset: start }),
        }
    }
}

/// Decodes the symbol table at the cursor and leaves the cursor behind it.
pub fn decode_symbol_table(cur: &mut Cursor) -> (r: Result<SymbolTable, DecodeError>)
    requires
        old(cur).wf(),
    ensures
        final(cur).wf(),
        final(cur)@.bytes == old(cur)@.bytes,
        viewed_outcome(r, final(cur)@.pos, symbol_table_at(old(cur)@.bytes, old(cur)@.pos)),
        r matches Ok(t) ==> t.wf(),
{
    let ghost bytes = cur@.bytes;
    let ghost start = cur@.pos;
    let count: u16 = cur.read_u16_be()?;
    let mut table = SymbolTable::new();
    let mut next: u32 = 1;
    while next < count as u32
        invariant
            cur.wf(),
            cur@.bytes == bytes,
            bytes == old(cur)@.bytes,
            start == old(cur)@.pos,
            1 <= next <= count + 1,
            table.wf(),
            table@.len() == next - 1,
            symbol_table_at(bytes, start) == slots_from(
                bytes,
                cur@.pos,
                next as int,
                count as int,
                table@,
            ),
        decreases count + 1 - next,
    {
        proof {
            lemma_entry_at(bytes, cur@.pos, next as u16);
        }
        let entry = decode_entry(cur, next as u16)?;
        let wide = entry.is_wide();
        table.push(entry);
        next = next + if wide {
            2
        } else {
            1
        };
    }
    Ok(table)
}

} // verus!
