//! Descriptors as they are written, byte for byte, and the proof that what
//! is written is decoded again.

use vstd::prelude::*;
use crate::body::attribute_at;
use crate::body::attribute_list_at;
use crate::body::attributes_from;
use crate::body::body_at;
use crate::body::interface_list_at;
use crate::body::member_at;
use crate::body::member_list_at;
use crate::body::members_from;
use crate::cursor::bytes_at;
use crate::cursor::skip_at;
use crate::cursor::u16_at;
use crate::cursor::u32_at;
use crate::decode::DescriptorView;
use crate::decode::descriptor_of;
use crate::decode::preamble_at;
use crate::error::DecodeError;
use crate::symbols::EntryView;
use crate::symbols::TAG_CLASS;
use crate::symbols::TAG_NAME_AND_TYPE;
use crate::symbols::TAG_UTF8;
use crate::symbols::entry_at;
use crate::symbols::index_of;
use crate::symbols::opaque_payload;
use crate::symbols::pushed;
use crate::symbols::slots_from;
use crate::symbols::symbol_table_at;

verus! {

/// The two bytes of a 16-bit integer, the high one first.
pub open spec fn enc_u16(v: u16) -> Seq<u8> {
    seq![(v / 256) as u8, (v % 256) as u8]
}

/// The four bytes of a 32-bit integer, the highest first.
pub open spec fn enc_u32(v: u32) -> Seq<u8> {
    seq![
        (v / 16777216) as u8,
        (v / 65536 % 256) as u8,
        (v / 256 % 256) as u8,
        (v % 256) as u8,
    ]
}

/// The bytes `e` stand in `s` from `pos` on.
pub open spec fn stands_at(s: Seq<u8>, pos: int, e: Seq<u8>) -> bool {
    &&& 0 <= pos
    &&& pos + e.len() <= s.len()
    &&& forall|i: int| 0 <= i < e.len() ==> #[trigger] e[i] == s[pos + i]
}

/// Where two runs of bytes stand one behind the other, each stands in its
/// place.
pub proof fn lemma_stands_split(s: Seq<u8>, pos: int, a: Seq<u8>, b: Seq<u8>)
    requires
        stands_at(s, pos, a + b),
    ensures
        stands_at(s, pos, a),
        stands_at(s, pos + a.len(), b),
        (a + b).len() == a.len() + b.len(),
{
    let e = a + b;
    assert forall|i: int| 0 <= i < a.len() implies #[trigger] a[i] == s[pos + i] by {
        assert(e[i] == a[i]);
    }
    assert forall|i: int| 0 <= i < b.len() implies #[trigger] b[i] == s[pos + a.len() + i] by {
        assert(e[a.len() + i] == b[i]);
    }
}

/// Reading a 16-bit integer where its two bytes stand gives it back.
pub proof fn lemma_u16_stands(s: Seq<u8>, pos: int, v: u16)
    requires
        stands_at(s, pos, enc_u16(v)),
    ensures
        u16_at(s, pos) == Ok::<(u16, int), DecodeError>((v, pos + 2)),
{
    let e = enc_u16(v);
    assert(e[0] == s[pos + 0]);
    assert(e[1] == s[pos + 1]);
}

/// Reading a 32-bit integer where its four bytes stand gives it back.
pub proof fn lemma_u32_stands(s: Seq<u8>, pos: int, v: u32)
    requires
        stands_at(s, pos, enc_u32(v)),
    ensures
        u32_at(s, pos) == Ok::<(u32, int), DecodeError>((v, pos + 4)),
{
    let e = enc_u32(v);
    assert(e[0] == s[pos + 0]);
    assert(e[1] == s[pos + 1]);
    assert(e[2] == s[pos + 2]);
    assert(e[3] == s[pos + 3]);
}

/// Reading as many raw bytes as stand at a place gives them back.
pub proof fn lemma_bytes_stand(s: Seq<u8>, pos: int, e: Seq<u8>)
    requires
        stands_at(s, pos, e),
    ensures
        bytes_at(s, pos, e.len() as int) == Ok::<(Seq<u8>, int), DecodeError>((e, pos + e.len())),
        skip_at(s, pos, e.len() as int) == Ok::<((), int), DecodeError>(((), pos + e.len())),
{
    let got = s.subrange(pos, pos + e.len());
    assert forall|i: int| 0 <= i < e.len() implies got[i] == e[i] by {
        assert(e[i] == s[pos + i]);
    }
    assert(got =~= e);
}

/// A symbol-table entry as it is written: the entry, and for an opaque entry
/// the bytes that follow its tag.
pub struct WireEntry {
    pub entry: EntryView,
    pub payload: Seq<u8>,
}

impl WireEntry {
    /// The entry is fit for the wire, and an opaque entry has as many bytes
    /// as its tag asks for.
    pub open spec fn wf(self) -> bool {
        &&& self.entry.wf()
        &&& match self.entry {
            EntryView::Opaque { tag, .. } => opaque_payload(tag) == Some(self.payload.len() as int),
            _ => true,
        }
    }

    /// The bytes of the entry: its tag and what the tag asks for.
    pub open spec fn encoding(self) -> Seq<u8> {
        match self.entry {
            EntryView::Utf8 { text } => seq![TAG_UTF8] + enc_u16(text.len() as u16) + text,
            EntryView::ClassRef { name_slot } => seq![TAG_CLASS] + enc_u16(name_slot),
            EntryView::NameAndType { name_slot, descriptor_slot } => seq![TAG_NAME_AND_TYPE]
                + enc_u16(name_slot) + enc_u16(descriptor_slot),
            EntryView::Opaque { tag, .. } => seq![tag] + self.payload,
        }
    }
}

/// Every entry of the sequence is well formed.
pub open spec fn entries_wf(entries: Seq<WireEntry>) -> bool {
    forall|i: int| 0 <= i < entries.len() ==> (#[trigger] entries[i]).wf()
}

/// The bytes of the entries, one behind the other.
pub open spec fn entries_encoding(entries: Seq<WireEntry>) -> Seq<u8>
    decreases entries.len(),
{
    if entries.len() == 0 {
        Seq::empty()
    } else {
        entries[0].encoding() + entries_encoding(entries.drop_first())
    }
}

/// The number of slots that the entries occupy.
pub open spec fn entries_width(entries: Seq<WireEntry>) -> int
    decreases entries.len(),
{
    if entries.len() == 0 {
        0
    } else {
        entries[0].entry.width() + entries_width(entries.drop_first())
    }
}

/// The slots of a table that holds `acc` and then the entries.
pub open spec fn entries_slots(entries: Seq<WireEntry>, acc: Seq<Option<EntryView>>) -> Seq<
    Option<EntryView>,
>
    decreases entries.len(),
{
    if entries.len() == 0 {
        acc
    } else {
        entries_slots(entries.drop_first(), pushed(acc, entries[0].entry))
    }
}

/// One metadata block as it is written.
pub struct WireAttribute {
    pub name_index: u16,
    pub info: Seq<u8>,
}

impl WireAttribute {
    /// The length of the block fits its 32-bit length field.
    pub open spec fn wf(self) -> bool {
        self.info.len() <= u32::MAX
    }

    /// The bytes of the block: name index, length, content.
    pub open spec fn encoding(self) -> Seq<u8> {
        enc_u16(self.name_index) + enc_u32(self.info.len() as u32) + self.info
    }
}

/// The list fits a 16-bit count and each of its blocks is well formed.
pub open spec fn attributes_wf(list: Seq<WireAttribute>) -> bool {
    list.len() <= u16::MAX && forall|i: int| 0 <= i < list.len() ==> (#[trigger] list[i]).wf()
}

/// The bytes of the blocks, one behind the other.
pub open spec fn attributes_encoding(list: Seq<WireAttribute>) -> Seq<u8>
    decreases list.len(),
{
    if list.len() == 0 {
        Seq::empty()
    } else {
        list[0].encoding() + attributes_encoding(list.drop_first())
    }
}

/// The bytes of a list of blocks: its count and the blocks.
pub open spec fn attribute_list_encoding(list: Seq<WireAttribute>) -> Seq<u8> {
    enc_u16(list.len() as u16) + attributes_encoding(list)
}

/// One field or method record as it is written.
pub struct WireMember {
    pub access_flags: u16,
    pub name_index: u16,
    pub descriptor_index: u16,
    pub attributes: Seq<WireAttribute>,
}

impl WireMember {
    /// The list of metadata blocks is well formed.
    pub open spec fn wf(self) -> bool {
        attributes_wf(self.attributes)
    }

    /// The bytes of the record: three 16-bit fields and the list of blocks.
    pub open spec fn encoding(self) -> Seq<u8> {
        enc_u16(self.access_flags) + enc_u16(self.name_index) + enc_u16(self.descriptor_index)
            + attribute_list_encoding(self.attributes)
    }
}

/// The list fits a 16-bit count and each of its records is well formed.
pub open spec fn members_wf(list: Seq<WireMember>) -> bool {
    list.len() <= u16::MAX && forall|i: int| 0 <= i < list.len() ==> (#[trigger] list[i]).wf()
}

/// The bytes of the records, one behind the other.
pub open spec fn members_encoding(list: Seq<WireMember>) -> Seq<u8>
    decreases list.len(),
{
    if list.len() == 0 {
        Seq::empty()
    } else {
        list[0].encoding() + members_encoding(list.drop_first())
    }
}

/// The bytes of a list of records: its count and the records.
pub open spec fn member_list_encoding(list: Seq<WireMember>) -> Seq<u8> {
    enc_u16(list.len() as u16) + members_encoding(list)
}

/// The bytes of the slots of a reference list, one behind the other.
pub open spec fn interfaces_encoding(list: Seq<u16>) -> Seq<u8>
    decreases list.len(),
{
    if list.len() == 0 {
        Seq::empty()
    } else {
        enc_u16(list[0]) + interfaces_encoding(list.drop_first())
    }
}

/// The bytes of a reference list: its count and the slots.
pub open spec fn interface_list_encoding(list: Seq<u16>) -> Seq<u8> {
    enc_u16(list.len() as u16) + interfaces_encoding(list)
}

/// A whole descriptor as it is written.
pub struct WireDescriptor {
    pub magic: u32,
    pub minor_version: u16,
    pub major_version: u16,
    pub entries: Seq<WireEntry>,
    pub access_flags: u16,
    pub self_index: u16,
    pub parent_index: u16,
    pub interfaces: Seq<u16>,
    pub fields: Seq<WireMember>,
    pub methods: Seq<WireMember>,
    pub attributes: Seq<WireAttribute>,
}

impl WireDescriptor {
    /// Every part is well formed, and each count fits its 16-bit field.
    pub open spec fn wf(self) -> bool {
        &&& entries_wf(self.entries)
        &&& 1 + entries_width(self.entries) <= u16::MAX
        &&& self.interfaces.len() <= u16::MAX
        &&& members_wf(self.fields)
        &&& members_wf(self.methods)
        &&& attributes_wf(self.attributes)
    }

    /// The count that announces the symbol table: one more than the number
    /// of slots.
    pub open spec fn count(self) -> u16 {
        (1 + entries_width(self.entries)) as u16
    }

    /// The bytes of the preamble.
    pub open spec fn preamble_encoding(self) -> Seq<u8> {
        enc_u32(self.magic) + enc_u16(self.minor_version) + enc_u16(self.major_version)
    }

    /// The bytes of the symbol table: its count and the entries.
    pub open spec fn table_encoding(self) -> Seq<u8> {
        enc_u16(self.count()) + entries_encoding(self.entries)
    }

    /// The bytes of the flags and the two type references.
    pub open spec fn references_encoding(self) -> Seq<u8> {
        enc_u16(self.access_flags) + enc_u16(self.self_index) + enc_u16(self.parent_index)
    }

    /// The bytes of what follows the symbol table.
    pub open spec fn body_encoding(self) -> Seq<u8> {
        self.references_encoding() + interface_list_encoding(self.interfaces)
            + member_list_encoding(self.fields) + member_list_encoding(self.methods)
            + attribute_list_encoding(self.attributes)
    }

    /// The bytes of the descriptor.
    pub open spec fn encoding(self) -> Seq<u8> {
        self.preamble_encoding() + self.table_encoding() + self.body_encoding()
    }

    /// The slots of the descriptor's symbol table.
    pub open spec fn slots(self) -> Seq<Option<EntryView>> {
        entries_slots(self.entries, Seq::empty())
    }
}

/// Decoding an entry where its bytes stand gives the entry back and ends
/// behind them.
pub proof fn lemma_entry_stands(s: Seq<u8>, pos: int, w: WireEntry, index: u16)
    requires
        w.wf(),
        stands_at(s, pos, w.encoding()),
    ensures
        entry_at(s, pos, index) == Ok::<(EntryView, int), DecodeError>(
            (w.entry, pos + w.encoding().len()),
        ),
{
    match w.entry {
        EntryView::Utf8 { text } => {
            let head = seq![TAG_UTF8] + enc_u16(text.len() as u16);
            lemma_stands_split(s, pos, head, text);
            lemma_stands_split(s, pos, seq![TAG_UTF8], enc_u16(text.len() as u16));
            assert(seq![TAG_UTF8][0] == s[pos + 0]);
            lemma_u16_stands(s, pos + 1, text.len() as u16);
            lemma_bytes_stand(s, pos + 3, text);
        },
        EntryView::ClassRef { name_slot } => {
            lemma_stands_split(s, pos, seq![TAG_CLASS], enc_u16(name_slot));
            assert(seq![TAG_CLASS][0] == s[pos + 0]);
            lemma_u16_stands(s, pos + 1, name_slot);
        },
        EntryView::NameAndType { name_slot, descriptor_slot } => {
            let head = seq![TAG_NAME_AND_TYPE] + enc_u16(name_slot);
            lemma_stands_split(s, pos, head, enc_u16(descriptor_slot));
            lemma_stands_split(s, pos, seq![TAG_NAME_AND_TYPE], enc_u16(name_slot));
            assert(seq![TAG_NAME_AND_TYPE][0] == s[pos + 0]);
            lemma_u16_stands(s, pos + 1, name_slot);
            lemma_u16_stands(s, pos + 3, descriptor_slot);
        },
        EntryView::Opaque { tag, .. } => {
            lemma_stands_split(s, pos, seq![tag], w.payload);
            assert(seq![tag][0] == s[pos + 0]);
            lemma_bytes_stand(s, pos + 1, w.payload);
        },
    }
}

/// Decoding a table's entries where their bytes stand, with a count that is
/// the next slot and the slots of the entries together, gives their slots and
/// ends behind the bytes.
pub proof fn lemma_entries_stand(
    s: Seq<u8>,
    pos: int,
    entries: Seq<WireEntry>,
    next: int,
    acc: Seq<Option<EntryView>>,
)
    requires
        entries_wf(entries),
        stands_at(s, pos, entries_encoding(entries)),
    ensures
        slots_from(s, pos, next, next + entries_width(entries), acc) == Ok::<
            (Seq<Option<EntryView>>, int),
            DecodeError,
        >((entries_slots(entries, acc), pos + entries_encoding(entries).len())),
    decreases entries.len(),
{
    if entries.len() > 0 {
        let first = entries[0];
        let rest = entries.drop_first();
        lemma_stands_split(s, pos, first.encoding(), entries_encoding(rest));
        lemma_entry_stands(s, pos, first, index_of(next));
        lemma_width_not_negative(rest);
        assert(entries_wf(rest)) by {
            assert forall|i: int| 0 <= i < rest.len() implies (#[trigger] rest[i]).wf() by {
                assert(rest[i] == entries[i + 1]);
            }
        }
        lemma_entries_stand(
            s,
            pos + first.encoding().len(),
            rest,
            next + first.entry.width(),
            pushed(acc, first.entry),
        );
    }
}

/// Entries occupy no negative number of slots.
pub proof fn lemma_width_not_negative(entries: Seq<WireEntry>)
    ensures
        entries_width(entries) >= 0,
    decreases entries.len(),
{
    if entries.len() > 0 {
        lemma_width_not_negative(entries.drop_first());
    }
}

/// Passing over a metadata block where its bytes stand ends behind them.
pub proof fn lemma_attribute_stands(s: Seq<u8>, pos: int, a: WireAttribute)
    requires
        a.wf(),
        stands_at(s, pos, a.encoding()),
    ensures
        attribute_at(s, pos) == Ok::<((), int), DecodeError>(((), pos + a.encoding().len())),
{
    let head = enc_u16(a.name_index) + enc_u32(a.info.len() as u32);
    lemma_stands_split(s, pos, head, a.info);
    lemma_stands_split(s, pos, enc_u16(a.name_index), enc_u32(a.info.len() as u32));
    lemma_u16_stands(s, pos, a.name_index);
    lemma_u32_stands(s, pos + 2, a.info.len() as u32);
    lemma_bytes_stand(s, pos + 6, a.info);
}

/// Passing over metadata blocks where their bytes stand ends behind them.
pub proof fn lemma_attributes_stand(s: Seq<u8>, pos: int, list: Seq<WireAttribute>)
    requires
        attributes_wf(list),
        stands_at(s, pos, attributes_encoding(list)),
    ensures
        attributes_from(s, pos, list.len()) == Ok::<((), int), DecodeError>(
            ((), pos + attributes_encoding(list).len()),
        ),
    decreases list.len(),
{
    if list.len() > 0 {
        let rest = list.drop_first();
        lemma_stands_split(s, pos, list[0].encoding(), attributes_encoding(rest));
        lemma_attribute_stands(s, pos, list[0]);
        assert(attributes_wf(rest)) by {
            assert forall|i: int| 0 <= i < rest.len() implies (#[trigger] rest[i]).wf() by {
                assert(rest[i] == list[i + 1]);
            }
        }
        lemma_attributes_stand(s, pos + list[0].encoding().len(), rest);
    }
}

/// Passing over a list of metadata blocks where its bytes stand gives its
/// count and ends behind them.
pub proof fn lemma_attribute_list_stands(s: Seq<u8>, pos: int, list: Seq<WireAttribute>)
    requires
        attributes_wf(list),
        stands_at(s, pos, attribute_list_encoding(list)),
    ensures
        attribute_list_at(s, pos) == Ok::<(u16, int), DecodeError>(
            (list.len() as u16, pos + attribute_list_encoding(list).len()),
        ),
{
    lemma_stands_split(s, pos, enc_u16(list.len() as u16), attributes_encoding(list));
    lemma_u16_stands(s, pos, list.len() as u16);
    lemma_attributes_stand(s, pos + 2, list);
}

/// Passing over a member record where its bytes stand ends behind them.
pub proof fn lemma_member_stands(s: Seq<u8>, pos: int, m: WireMember)
    requires
        m.wf(),
        stands_at(s, pos, m.encoding()),
    ensures
        member_at(s, pos) == Ok::<((), int), DecodeError>(((), pos + m.encoding().len())),
{
    let a = enc_u16(m.access_flags);
    let b = enc_u16(m.name_index);
    let c = enc_u16(m.descriptor_index);
    lemma_stands_split(s, pos, a + b + c, attribute_list_encoding(m.attributes));
    lemma_attribute_list_stands(s, pos + 6, m.attributes);
}

/// Passing over member records where their bytes stand ends behind them.
pub proof fn lemma_members_stand(s: Seq<u8>, pos: int, list: Seq<WireMember>)
    requires
        members_wf(list),
        stands_at(s, pos, members_encoding(list)),
    ensures
        members_from(s, pos, list.len()) == Ok::<((), int), DecodeError>(
            ((), pos + members_encoding(list).len()),
        ),
    decreases list.len(),
{
    if list.len() > 0 {
        let rest = list.drop_first();
        lemma_stands_split(s, pos, list[0].encoding(), members_encoding(rest));
        lemma_member_stands(s, pos, list[0]);
        assert(members_wf(rest)) by {
            assert forall|i: int| 0 <= i < rest.len() implies (#[trigger] rest[i]).wf() by {
                assert(rest[i] == list[i + 1]);
            }
        }
        lemma_members_stand(s, pos + list[0].encoding().len(), rest);
    }
}

/// Passing over a list of member records where its bytes stand gives its
/// count and ends behind them.
pub proof fn lemma_member_list_stands(s: Seq<u8>, pos: int, list: Seq<WireMember>)
    requires
        members_wf(list),
        stands_at(s, pos, member_list_encoding(list)),
    ensures
        member_list_at(s, pos) == Ok::<(u16, int), DecodeError>(
            (list.len() as u16, pos + member_list_encoding(list).len()),
        ),
{
    lemma_stands_split(s, pos, enc_u16(list.len() as u16), members_encoding(list));
    lemma_u16_stands(s, pos, list.len() as u16);
    lemma_members_stand(s, pos + 2, list);
}

/// The slots of a reference list take two bytes each.
pub proof fn lemma_interfaces_length(list: Seq<u16>)
    ensures
        interfaces_encoding(list).len() == 2 * list.len(),
    decreases list.len(),
{
    if list.len() > 0 {
        lemma_interfaces_length(list.drop_first());
    }
}

/// Passing over a reference list where its bytes stand gives its count and
/// ends behind them.
pub proof fn lemma_interface_list_stands(s: Seq<u8>, pos: int, list: Seq<u16>)
    requires
        list.len() <= u16::MAX,
        stands_at(s, pos, interface_list_encoding(list)),
    ensures
        interface_list_at(s, pos) == Ok::<(u16, int), DecodeError>(
            (list.len() as u16, pos + interface_list_encoding(list).len()),
        ),
{
    lemma_stands_split(s, pos, enc_u16(list.len() as u16), interfaces_encoding(list));
    lemma_u16_stands(s, pos, list.len() as u16);
    lemma_interfaces_length(list);
    lemma_bytes_stand(s, pos + 2, interfaces_encoding(list));
}

/// Decoding the body of a descriptor where its bytes stand gives its two
/// type references and the counts of its lists, and ends behind the bytes.
pub proof fn lemma_body_stands(s: Seq<u8>, pos: int, d: WireDescriptor)
    requires
        d.wf(),
        stands_at(s, pos, d.body_encoding()),
    ensures
        body_at(s, pos) matches Ok((header, end)) && {
            &&& end == pos + d.body_encoding().len()
            &&& header.self_index == d.self_index
            &&& header.parent_index == d.parent_index
            &&& header.interface_count == d.interfaces.len()
            &&& header.field_count == d.fields.len()
            &&& header.method_count == d.methods.len()
            &&& header.attribute_count == d.attributes.len()
        },
{
    let r = d.references_encoding();
    let i = interface_list_encoding(d.interfaces);
    let f = member_list_encoding(d.fields);
    let m = member_list_encoding(d.methods);
    let a = attribute_list_encoding(d.attributes);
    lemma_stands_split(s, pos, r + i + f + m, a);
    lemma_stands_split(s, pos, r + i + f, m);
    lemma_stands_split(s, pos, r + i, f);
    lemma_stands_split(s, pos, r, i);
    lemma_stands_split(
        s,
        pos,
        enc_u16(d.access_flags) + enc_u16(d.self_index),
        enc_u16(d.parent_index),
    );
    lemma_stands_split(s, pos, enc_u16(d.access_flags), enc_u16(d.self_index));
    lemma_u16_stands(s, pos, d.access_flags);
    lemma_u16_stands(s, pos + 2, d.self_index);
    lemma_u16_stands(s, pos + 4, d.parent_index);
    lemma_interface_list_stands(s, pos + 6, d.interfaces);
    let p2 = pos + 6 + i.len();
    lemma_member_list_stands(s, p2, d.fields);
    let p3 = p2 + f.len();
    lemma_member_list_stands(s, p3, d.methods);
    let p4 = p3 + m.len();
    lemma_attribute_list_stands(s, p4, d.attributes);
}

/// Passing over the preamble where its bytes stand ends behind them.
pub proof fn lemma_preamble_stands(s: Seq<u8>, pos: int, d: WireDescriptor)
    requires
        stands_at(s, pos, d.preamble_encoding()),
    ensures
        preamble_at(s, pos) == Ok::<((), int), DecodeError>(((), pos + 8)),
        d.preamble_encoding().len() == 8,
{
    lemma_stands_split(
        s,
        pos,
        enc_u32(d.magic) + enc_u16(d.minor_version),
        enc_u16(d.major_version),
    );
    lemma_stands_split(s, pos, enc_u32(d.magic), enc_u16(d.minor_version));
    lemma_u32_stands(s, pos, d.magic);
    lemma_u16_stands(s, pos + 4, d.minor_version);
    lemma_u16_stands(s, pos + 6, d.major_version);
}

/// Decoding the symbol table where its bytes stand gives the slots of the
/// entries and ends behind the bytes.
pub proof fn lemma_table_stands(s: Seq<u8>, pos: int, d: WireDescriptor)
    requires
        d.wf(),
        stands_at(s, pos, d.table_encoding()),
    ensures
        symbol_table_at(s, pos) == Ok::<(Seq<Option<EntryView>>, int), DecodeError>(
            (d.slots(), pos + d.table_encoding().len()),
        ),
{
    lemma_stands_split(s, pos, enc_u16(d.count()), entries_encoding(d.entries));
    lemma_u16_stands(s, pos, d.count());
    lemma_width_not_negative(d.entries);
    lemma_entries_stand(s, pos + 2, d.entries, 1, Seq::empty());
}

/// A well-formed descriptor that is written and decoded again comes back:
/// decoding takes up exactly the bytes that were written, and gives the
/// slots of the entries and the parent index.
pub proof fn lemma_round_trip(d: WireDescriptor)
    requires
        d.wf(),
    ensures
        descriptor_of(d.encoding()) == Ok::<DescriptorView, DecodeError>(
            DescriptorView { slots: d.slots(), parent_index: d.parent_index },
        ),
{
    let s = d.encoding();
    let pre = d.preamble_encoding();
    let table = d.table_encoding();
    let body = d.body_encoding();
    assert(stands_at(s, 0, s));
    lemma_stands_split(s, 0, pre + table, body);
    lemma_stands_split(s, 0, pre, table);
    lemma_preamble_stands(s, 0, d);
    lemma_table_stands(s, 8, d);
    lemma_body_stands(s, 8 + table.len() as int, d);
    assert(s.len() == 8 + table.len() + body.len());
}

} // verus!
