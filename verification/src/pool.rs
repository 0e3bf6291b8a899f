//! Tables of slots through which names are resolved.

use vstd::prelude::*;

verus! {

/// What a slot offers to the resolution of names.
pub enum Link {
    /// A literal string.
    Text { text: Seq<u8> },
    /// A type, named through slot `name_slot`.
    Class { name_slot: u16 },
    /// A member, named by the string in slot `name_slot`.
    Name { name_slot: u16 },
    /// Nothing that leads to a name: an entry of another kind, or a
    /// placeholder.
    Other,
}

/// What the 1-based `index` addresses in `links`; nothing that leads to a
/// name where the index is zero or past the end.
pub open spec fn link_at(links: Seq<Link>, index: u16) -> Link {
    if 1 <= index <= links.len() {
        links[index - 1]
    } else {
        Link::Other
    }
}

/// A table of slots through which names are resolved.
pub trait NamePool {
    /// What each slot offers, the slot with index 1 first.
    spec fn links(&self) -> Seq<Link>;

    /// The number of slots.
    fn slot_count(&self) -> (n: usize)
        ensures
            n == self.links().len(),
    ;

    /// The string in the slot at place `i`, counted from zero.
    fn text(&self, i: usize) -> (r: Option<&Vec<u8>>)
        requires
            i < self.links().len(),
        ensures
            match self.links()[i as int] {
                Link::Text { text } => r is Some && r->Some_0@ == text,
                _ => r is None,
            },
    ;

    /// The name slot of the type reference at place `i`, counted from zero.
    fn class_slot(&self, i: usize) -> (r: Option<u16>)
        requires
            i < self.links().len(),
        ensures
            r == match self.links()[i as int] {
                Link::Class { name_slot } => Some(name_slot),
                _ => None,
            },
    ;

    /// The name slot of the name-and-type entry at place `i`, counted from
    /// zero.
    fn name_slot(&self, i: usize) -> (r: Option<u16>)
        requires
            i < self.links().len(),
        ensures
            r == match self.links()[i as int] {
                Link::Name { name_slot } => Some(name_slot),
                _ => None,
            },
    ;
}

/// The place, counted from zero, of the slot that the 1-based `index`
/// addresses among `count` slots.
pub fn place_of(index: u16, count: usize) -> (r: Option<usize>)
    ensures
        r == if 1 <= index <= count {
            Some((index - 1) as usize)
        } else {
            None
        },
{
    if index == 0 || index as usize > count {
        None
    } else {
        Some(index as usize - 1)
    }
}

} // verus!
