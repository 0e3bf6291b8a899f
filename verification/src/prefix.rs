//! How decoding a buffer stands to decoding its start: what becomes of a
//! descriptor that is cut short, and of one with bytes added behind it.

use vstd::prelude::*;
use crate::body::attribute_at;
use crate::body::attribute_list_at;
use crate::body::attributes_from;
use crate::body::body_at;
use crate::body::interface_list_at;
use crate::body::member_at;
use crate::body::member_list_at;
use crate::body::members_from;
use crate::body::references_at;
use crate::cursor::bytes_at;
use crate::cursor::skip_at;
use crate::cursor::u16_at;
use crate::cursor::u32_at;
use crate::cursor::u8_at;
use crate::decode::descriptor_of;
use crate::decode::preamble_at;
use crate::error::DecodeError;
use crate::symbols::EntryView;
use crate::symbols::entry_at;
use crate::symbols::index_of;
use crate::symbols::pushed;
use crate::symbols::slots_from;
use crate::symbols::symbol_table_at;

verus! {

/// `s` is the start of `t`.
pub open spec fn is_prefix(s: Seq<u8>, t: Seq<u8>) -> bool {
    s.len() <= t.len() && forall|i: int| 0 <= i < s.len() ==> s[i] == t[i]
}

/// The step failed for want of bytes.
pub open spec fn is_truncated<T>(r: Result<T, DecodeError>) -> bool {
    r matches Err(DecodeError::Truncated { .. })
}

/// How the outcome `a` of a decoding step on a buffer of `n` bytes stands to
/// the outcome `b` of the same step, from the same position `pos`, on a
/// buffer of `m` bytes that starts with the first, when `pos` lies within
/// both: where the step succeeds on
/// the shorter buffer it gives the same on the longer one; where it succeeds
/// on the longer one, it ends at or behind its start, within that buffer, and
/// gives the same on the shorter one if it ends within that, and else fails
/// there for want of bytes.
pub open spec fn step_agrees<T>(
    a: Result<(T, int), DecodeError>,
    b: Result<(T, int), DecodeError>,
    pos: int,
    n: int,
    m: int,
) -> bool {
    &&& a is Ok ==> b == a
    &&& b matches Ok((_, p)) ==> pos <= p <= m && if p <= n {
        a == b
    } else {
        is_truncated(a)
    }
}

/// Reading one byte agrees on a buffer and on its start.
pub proof fn lemma_u8_prefix(s: Seq<u8>, t: Seq<u8>, pos: int)
    requires
        is_prefix(s, t),
    ensures
        step_agrees(u8_at(s, pos), u8_at(t, pos), pos, s.len() as int, t.len() as int),
{
}

/// Reading a 16-bit integer agrees on a buffer and on its start.
pub proof fn lemma_u16_prefix(s: Seq<u8>, t: Seq<u8>, pos: int)
    requires
        is_prefix(s, t),
    ensures
        step_agrees(u16_at(s, pos), u16_at(t, pos), pos, s.len() as int, t.len() as int),
{
}

/// Reading a 32-bit integer agrees on a buffer and on its start.
pub proof fn lemma_u32_prefix(s: Seq<u8>, t: Seq<u8>, pos: int)
    requires
        is_prefix(s, t),
    ensures
        step_agrees(u32_at(s, pos), u32_at(t, pos), pos, s.len() as int, t.len() as int),
{
}

/// Reading raw bytes agrees on a buffer and on its start.
pub proof fn lemma_bytes_prefix(s: Seq<u8>, t: Seq<u8>, pos: int, n: int)
    requires
        is_prefix(s, t),
    ensures
        step_agrees(bytes_at(s, pos, n), bytes_at(t, pos, n), pos, s.len() as int, t.len() as int),
{
    if 0 <= pos && 0 <= n && pos + n <= s.len() {
        assert(s.subrange(pos, pos + n) =~= t.subrange(pos, pos + n));
    }
}

/// Passing over bytes agrees on a buffer and on its start.
pub proof fn lemma_skip_prefix(s: Seq<u8>, t: Seq<u8>, pos: int, n: int)
    requires
        is_prefix(s, t),
    ensures
        step_agrees(skip_at(s, pos, n), skip_at(t, pos, n), pos, s.len() as int, t.len() as int),
{
}

/// Decoding one entry agrees on a buffer and on its start.
pub proof fn lemma_entry_prefix(s: Seq<u8>, t: Seq<u8>, pos: int, index: u16)
    requires
        is_prefix(s, t),
    ensures
        step_agrees(
            entry_at(s, pos, index),
            entry_at(t, pos, index),
            pos,
            s.len() as int,
            t.len() as int,
        ),
{
    lemma_u8_prefix(s, t, pos);
    lemma_u16_prefix(s, t, pos + 1);
    lemma_u16_prefix(s, t, pos + 3);
    if let Ok((n, _)) = u16_at(t, pos + 1) {
        lemma_bytes_prefix(s, t, pos + 3, n as int);
    }
}

/// Decoding the entries of a table agrees on a buffer and on its start.
pub proof fn lemma_slots_prefix(
    s: Seq<u8>,
    t: Seq<u8>,
    pos: int,
    next: int,
    count: int,
    acc: Seq<Option<EntryView>>,
)
    requires
        is_prefix(s, t),
        0 <= pos <= s.len(),
    ensures
        step_agrees(
            slots_from(s, pos, next, count, acc),
            slots_from(t, pos, next, count, acc),
            pos,
            s.len() as int,
            t.len() as int,
        ),
    decreases count + 1 - next,
{
    if next < count {
        lemma_entry_prefix(s, t, pos, index_of(next));
        match entry_at(t, pos, index_of(next)) {
            Ok((entry, p)) => {
                if p <= s.len() {
                    lemma_slots_prefix(s, t, p, next + entry.width(), count, pushed(acc, entry));
                } else {
                    lemma_slots_prefix(t, t, p, next + entry.width(), count, pushed(acc, entry));
                }
            },
            Err(_) => {},
        }
    }
}

/// Decoding a symbol table agrees on a buffer and on its start.
pub proof fn lemma_symbol_table_prefix(s: Seq<u8>, t: Seq<u8>, pos: int)
    requires
        is_prefix(s, t),
        0 <= pos <= s.len(),
    ensures
        step_agrees(
            symbol_table_at(s, pos),
            symbol_table_at(t, pos),
            pos,
            s.len() as int,
            t.len() as int,
        ),
{
    lemma_u16_prefix(s, t, pos);
    match u16_at(t, pos) {
        Ok((count, p)) => {
            if p <= s.len() {
                lemma_slots_prefix(s, t, p, 1, count as int, Seq::empty());
            } else {
                lemma_slots_prefix(t, t, p, 1, count as int, Seq::empty());
            }
        },
        Err(_) => {},
    }
}

/// Passing over one metadata block agrees on a buffer and on its start.
pub proof fn lemma_attribute_prefix(s: Seq<u8>, t: Seq<u8>, pos: int)
    requires
        is_prefix(s, t),
    ensures
        step_agrees(
            attribute_at(s, pos),
            attribute_at(t, pos),
            pos,
            s.len() as int,
            t.len() as int,
        ),
{
    lemma_u16_prefix(s, t, pos);
    lemma_u32_prefix(s, t, pos + 2);
}

/// Passing over metadata blocks agrees on a buffer and on its start.
pub proof fn lemma_attributes_prefix(s: Seq<u8>, t: Seq<u8>, pos: int, n: nat)
    requires
        is_prefix(s, t),
        0 <= pos <= s.len(),
    ensures
        step_agrees(
            attributes_from(s, pos, n),
            attributes_from(t, pos, n),
            pos,
            s.len() as int,
            t.len() as int,
        ),
    decreases n,
{
    if n > 0 {
        lemma_attribute_prefix(s, t, pos);
        match attribute_at(t, pos) {
            Ok((_, p)) => {
                if p <= s.len() {
                    lemma_attributes_prefix(s, t, p, (n - 1) as nat);
                } else {
                    lemma_attributes_prefix(t, t, p, (n - 1) as nat);
                }
            },
            Err(_) => {},
        }
    }
}

/// Passing over a list of metadata blocks agrees on a buffer and on its start.
pub proof fn lemma_attribute_list_prefix(s: Seq<u8>, t: Seq<u8>, pos: int)
    requires
        is_prefix(s, t),
        0 <= pos <= s.len(),
    ensures
        step_agrees(
            attribute_list_at(s, pos),
            attribute_list_at(t, pos),
            pos,
            s.len() as int,
            t.len() as int,
        ),
{
    lemma_u16_prefix(s, t, pos);
    match u16_at(t, pos) {
        Ok((n, p)) => {
            if p <= s.len() {
                lemma_attributes_prefix(s, t, p, n as nat);
            } else {
                lemma_attributes_prefix(t, t, p, n as nat);
            }
        },
        Err(_) => {},
    }
}

/// Passing over one member record agrees on a buffer and on its start.
pub proof fn lemma_member_prefix(s: Seq<u8>, t: Seq<u8>, pos: int)
    requires
        is_prefix(s, t),
        0 <= pos <= s.len(),
    ensures
        step_agrees(member_at(s, pos), member_at(t, pos), pos, s.len() as int, t.len() as int),
{
    lemma_skip_prefix(s, t, pos, 6);
    match skip_at(t, pos, 6) {
        Ok((_, p)) => {
            if p <= s.len() {
                lemma_attribute_list_prefix(s, t, p);
            } else {
                lemma_attribute_list_prefix(t, t, p);
            }
        },
        Err(_) => {},
    }
}

/// Passing over member records agrees on a buffer and on its start.
pub proof fn lemma_members_prefix(s: Seq<u8>, t: Seq<u8>, pos: int, n: nat)
    requires
        is_prefix(s, t),
        0 <= pos <= s.len(),
    ensures
        step_agrees(
            members_from(s, pos, n),
            members_from(t, pos, n),
            pos,
            s.len() as int,
            t.len() as int,
        ),
    decreases n,
{
    if n > 0 {
        lemma_member_prefix(s, t, pos);
        match member_at(t, pos) {
            Ok((_, p)) => {
                if p <= s.len() {
                    lemma_members_prefix(s, t, p, (n - 1) as nat);
                } else {
                    lemma_members_prefix(t, t, p, (n - 1) as nat);
                }
            },
            Err(_) => {},
        }
    }
}

/// Passing over a list of member records agrees on a buffer and on its start.
pub proof fn lemma_member_list_prefix(s: Seq<u8>, t: Seq<u8>, pos: int)
    requires
        is_prefix(s, t),
        0 <= pos <= s.len(),
    ensures
        step_agrees(
            member_list_at(s, pos),
            member_list_at(t, pos),
            pos,
            s.len() as int,
            t.len() as int,
        ),
{
    lemma_u16_prefix(s, t, pos);
    match u16_at(t, pos) {
        Ok((n, p)) => {
            if p <= s.len() {
                lemma_members_prefix(s, t, p, n as nat);
            } else {
                lemma_members_prefix(t, t, p, n as nat);
            }
        },
        Err(_) => {},
    }
}

/// Reading the flags and the two type references agrees on a buffer and on
/// its start.
pub proof fn lemma_references_prefix(s: Seq<u8>, t: Seq<u8>, pos: int)
    requires
        is_prefix(s, t),
    ensures
        step_agrees(
            references_at(s, pos),
            references_at(t, pos),
            pos,
            s.len() as int,
            t.len() as int,
        ),
{
}

/// Passing over the reference list agrees on a buffer and on its start.
pub proof fn lemma_interface_list_prefix(s: Seq<u8>, t: Seq<u8>, pos: int)
    requires
        is_prefix(s, t),
    ensures
        step_agrees(
            interface_list_at(s, pos),
            interface_list_at(t, pos),
            pos,
            s.len() as int,
            t.len() as int,
        ),
{
}

/// Decoding the body agrees on a buffer and on its start.
pub proof fn lemma_body_prefix(s: Seq<u8>, t: Seq<u8>, pos: int)
    requires
        is_prefix(s, t),
        0 <= pos <= s.len(),
    ensures
        step_agrees(body_at(s, pos), body_at(t, pos), pos, s.len() as int, t.len() as int),
{
    lemma_references_prefix(s, t, pos);
    if let Ok((_, p1)) = references_at(t, pos) {
        lemma_interface_list_prefix(s, t, p1);
        if let Ok((_, p2)) = interface_list_at(t, p1) {
            if p2 <= s.len() {
                lemma_member_list_prefix(s, t, p2);
            } else {
                lemma_member_list_prefix(t, t, p2);
            }
            if let Ok((_, p3)) = member_list_at(t, p2) {
                if p3 <= s.len() {
                    lemma_member_list_prefix(s, t, p3);
                } else {
                    lemma_member_list_prefix(t, t, p3);
                }
                if let Ok((_, p4)) = member_list_at(t, p3) {
                    if p4 <= s.len() {
                        lemma_attribute_list_prefix(s, t, p4);
                    } else {
                        lemma_attribute_list_prefix(t, t, p4);
                    }
                }
            }
        }
    }
}

/// Passing over the preamble agrees on a buffer and on its start.
pub proof fn lemma_preamble_prefix(s: Seq<u8>, t: Seq<u8>, pos: int)
    requires
        is_prefix(s, t),
    ensures
        step_agrees(preamble_at(s, pos), preamble_at(t, pos), pos, s.len() as int, t.len() as int),
{
}

/// A descriptor that is cut short anywhere fails for want of bytes: no
/// proper start of a buffer that holds a descriptor holds one.
pub proof fn lemma_cut_is_truncated(t: Seq<u8>, n: int)
    requires
        descriptor_of(t) is Ok,
        0 <= n < t.len(),
    ensures
        is_truncated(descriptor_of(t.subrange(0, n))),
{
    let s = t.subrange(0, n);
    assert(is_prefix(s, t));
    lemma_preamble_prefix(s, t, 0);
    let p = preamble_at(t, 0)->Ok_0.1;
    if p <= n {
        lemma_symbol_table_prefix(s, t, p);
        let p2 = symbol_table_at(t, p)->Ok_0.1;
        if p2 <= n {
            lemma_body_prefix(s, t, p2);
        }
    }
}

/// A buffer that is cut short within its symbol table, or before it, fails
/// for want of bytes, whatever follows the table: `end` is where the table
/// of the whole buffer ends.
pub proof fn lemma_cut_in_symbol_table(t: Seq<u8>, n: int, end: int)
    requires
        preamble_at(t, 0) matches Ok((_, p)) && (symbol_table_at(t, p) matches Ok((_, e)) && e
            == end),
        0 <= n < end,
    ensures
        n < t.len(),
        is_truncated(descriptor_of(t.subrange(0, n))),
{
    let p = preamble_at(t, 0)->Ok_0.1;
    lemma_preamble_prefix(t, t, 0);
    lemma_symbol_table_prefix(t, t, p);
    let s = t.subrange(0, n);
    assert(is_prefix(s, t));
    lemma_preamble_prefix(s, t, 0);
    if p <= n {
        lemma_symbol_table_prefix(s, t, p);
    }
}

/// A descriptor followed by anything more is rejected for its trailing data,
/// which is what was added.
pub proof fn lemma_appended_is_trailing(s: Seq<u8>, extra: Seq<u8>)
    requires
        descriptor_of(s) is Ok,
        extra.len() > 0,
    ensures
        descriptor_of(s + extra) == Err::<crate::decode::DescriptorView, DecodeError>(
            DecodeError::TrailingData { remaining: extra.len() as usize },
        ),
{
    let t = s + extra;
    assert(is_prefix(s, t));
    assert(is_prefix(s, s));
    lemma_preamble_prefix(s, t, 0);
    lemma_preamble_prefix(s, s, 0);
    let p = preamble_at(s, 0)->Ok_0.1;
    lemma_symbol_table_prefix(s, t, p);
    lemma_symbol_table_prefix(s, s, p);
    let p2 = symbol_table_at(s, p)->Ok_0.1;
    lemma_body_prefix(s, t, p2);
    lemma_body_prefix(s, s, p2);
}

} // verus!
