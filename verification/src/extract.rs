//! The name of the parent type of a descriptor and the names of the types it
//! refers to.

use vstd::prelude::*;
use vstd::slice::slice_to_vec;
use crate::decode::DecodedDescriptor;
use crate::error::DecodeError;
use crate::names::NameSet;
use crate::names::lemma_sorted_unique;
use crate::names::names_view;
use crate::names::strictly_sorted;
use crate::pool::Link;
use crate::pool::NamePool;
use crate::pool::link_at;
use crate::pool::place_of;
use crate::symbols::EntryView;
use crate::symbols::holds_wide;
use crate::symbols::lemma_wide_hides_next;
use crate::symbols::links_of;
use crate::symbols::slot_at;
use crate::symbols::table_wf;

verus! {

/// What to make of a descriptor whose parent index is zero.
#[derive(Debug, Clone, Copy, PartialEq, Eq, Structural)]
pub enum ParentPolicy {
    /// Every descriptor must name a parent: a zero index is an error.
    Required,
    /// A zero index marks the root type, whose parent name is empty.
    RootAllowed,
}

/// The parent type name of a descriptor and the other type names that its
/// symbol table refers to, in the order of names.
#[derive(Debug, Clone, PartialEq, Eq)]
pub struct ExtractionResult {
    pub parent_name: Vec<u8>,
    pub referenced_names: Vec<Vec<u8>>,
}

/// An extraction result as a mathematical value.
pub struct ExtractionView {
    pub parent_name: Seq<u8>,
    pub referenced_names: Seq<Seq<u8>>,
}

impl View for ExtractionResult {
    type V = ExtractionView;

    open spec fn view(&self) -> ExtractionView {
        ExtractionView {
            parent_name: self.parent_name@,
            referenced_names: names_view(self.referenced_names@),
        }
    }
}

/// The string in the slot that `index` addresses.
pub open spec fn text_at(links: Seq<Link>, index: u16) -> Result<Seq<u8>, DecodeError> {
    match link_at(links, index) {
        Link::Text { text } => Ok(text),
        _ => Err(DecodeError::MalformedReference { index }),
    }
}

/// The type name that the name slot `index` of a type reference leads to: the
/// string in that slot, or, where the slot holds a name-and-type entry, the
/// string in the name slot of that entry.
pub open spec fn class_name_at(links: Seq<Link>, index: u16) -> Result<Seq<u8>, DecodeError> {
    match link_at(links, index) {
        Link::Text { text } => Ok(text),
        Link::Name { name_slot } => text_at(links, name_slot),
        _ => Err(DecodeError::MalformedReference { index }),
    }
}

/// The name of the parent type: `parent_index` must address a type reference
/// whose name slot holds a string. A zero index is judged by `policy`.
pub open spec fn parent_name_of(
    links: Seq<Link>,
    parent_index: u16,
    policy: ParentPolicy,
) -> Result<Seq<u8>, DecodeError> {
    if parent_index == 0 {
        match policy {
            ParentPolicy::Required => Err(DecodeError::MissingParent),
            ParentPolicy::RootAllowed => Ok(Seq::empty()),
        }
    } else {
        match link_at(links, parent_index) {
            Link::Class { name_slot } => text_at(links, name_slot),
            _ => Err(DecodeError::MalformedReference { index: parent_index }),
        }
    }
}

/// The type name that the slot at place `i`, counted from zero, adds to the
/// referenced names: that of a type reference whose name can be resolved.
pub open spec fn referenced_by(links: Seq<Link>, i: int) -> Option<Seq<u8>> {
    match links[i] {
        Link::Class { name_slot } => match class_name_at(links, name_slot) {
            Ok(name) => Some(name),
            Err(_) => None,
        },
        _ => None,
    }
}

/// The type names that the first `upto` slots refer to.
pub open spec fn class_names(links: Seq<Link>, upto: int) -> Set<Seq<u8>> {
    Set::new(|name: Seq<u8>| exists|i: int| 0 <= i < upto && referenced_by(links, i) == Some(name))
}

/// The type names that a table refers to, the parent's name left out.
pub open spec fn referenced_names_of(links: Seq<Link>, parent: Seq<u8>) -> Set<Seq<u8>> {
    class_names(links, links.len() as int).remove(parent)
}

/// `result` is the extraction of a descriptor with these slots, whose parent
/// has the name `parent`: that name, and the referenced names in their order,
/// each once.
pub open spec fn is_extraction(result: ExtractionView, links: Seq<Link>, parent: Seq<u8>) -> bool {
    &&& result.parent_name == parent
    &&& strictly_sorted(result.referenced_names)
    &&& result.referenced_names.to_set() == referenced_names_of(links, parent)
}

/// What `extract_from` owes: the extraction where the parent's name can be
/// resolved, and else the error of that resolution.
pub open spec fn extraction_outcome(
    r: Result<ExtractionResult, DecodeError>,
    links: Seq<Link>,
    parent_index: u16,
    policy: ParentPolicy,
) -> bool {
    match parent_name_of(links, parent_index, policy) {
        Ok(parent) => r is Ok && is_extraction(r->Ok_0@, links, parent),
        Err(e) => r == Err::<ExtractionResult, DecodeError>(e),
    }
}

/// The referenced names never hold the parent's own name.
pub proof fn lemma_parent_not_referenced(result: ExtractionView, links: Seq<Link>, parent: Seq<u8>)
    requires
        is_extraction(result, links, parent),
    ensures
        !result.referenced_names.contains(result.parent_name),
{
    assert(!result.referenced_names.to_set().contains(parent));
}

/// The referenced names stand in the order of names, and none occurs twice.
pub proof fn lemma_references_sorted_once(
    result: ExtractionView,
    links: Seq<Link>,
    parent: Seq<u8>,
)
    requires
        is_extraction(result, links, parent),
    ensures
        strictly_sorted(result.referenced_names),
        result.referenced_names.no_duplicates(),
{
    let names = result.referenced_names;
    assert forall|i: int, j: int|
        0 <= i < names.len() && 0 <= j < names.len() && i != j implies names[i] != names[j] by {
        if i < j {
            assert(crate::names::name_lt(names[i], names[j]));
        } else {
            assert(crate::names::name_lt(names[j], names[i]));
        }
    }
}

/// A descriptor has one extraction only.
pub proof fn lemma_extraction_unique(
    a: ExtractionView,
    b: ExtractionView,
    links: Seq<Link>,
    parent: Seq<u8>,
)
    requires
        is_extraction(a, links, parent),
        is_extraction(b, links, parent),
    ensures
        a == b,
{
    lemma_sorted_unique(a.referenced_names, b.referenced_names);
}

/// No name is resolved through the slot behind a wide entry: as a string
/// slot, as the name slot of a type reference and as a parent index it is a
/// malformed reference.
pub proof fn lemma_behind_wide_is_malformed(
    slots: Seq<Option<EntryView>>,
    k: u16,
    policy: ParentPolicy,
)
    requires
        table_wf(slots),
        holds_wide(slot_at(slots, k)),
    ensures
        k < 65535,
        ({
            let next = (k + 1) as u16;
            let e = DecodeError::MalformedReference { index: next };
            &&& text_at(links_of(slots), next) == Err::<Seq<u8>, DecodeError>(e)
            &&& class_name_at(links_of(slots), next) == Err::<Seq<u8>, DecodeError>(e)
            &&& parent_name_of(links_of(slots), next, policy) == Err::<Seq<u8>, DecodeError>(e)
        }),
{
    lemma_wide_hides_next(slots, k);
}

/// The string in the slot that `index` addresses.
pub fn as_str<P: NamePool>(pool: &P, index: u16) -> (r: Result<&Vec<u8>, DecodeError>)
    ensures
        match text_at(pool.links(), index) {
            Ok(text) => r is Ok && r->Ok_0@ == text,
            Err(e) => r == Err::<&Vec<u8>, DecodeError>(e),
        },
{
    match place_of(index, pool.slot_count()) {
        Some(i) => match pool.text(i) {
            Some(text) => Ok(text),
            None => Err(DecodeError::MalformedReference { index }),
        },
        None => Err(DecodeError::MalformedReference { index }),
    }
}

/// The type name that the name slot `index` of a type reference leads to.
pub fn as_class_name<P: NamePool>(pool: &P, index: u16) -> (r: Result<&Vec<u8>, DecodeError>)
    ensures
        match class_name_at(pool.links(), index) {
            Ok(text) => r is Ok && r->Ok_0@ == text,
            Err(e) => r == Err::<&Vec<u8>, DecodeError>(e),
        },
{
    match place_of(index, pool.slot_count()) {
        Some(i) => match pool.text(i) {
            Some(text) => Ok(text),
            None => match pool.name_slot(i) {
                Some(name_slot) => as_str(pool, name_slot),
                None => Err(DecodeError::MalformedReference { index }),
            },
        },
        None => Err(DecodeError::MalformedReference { index }),
    }
}

/// The name of the parent type of a descriptor.
pub fn parent_name<P: NamePool>(pool: &P, parent_index: u16, policy: ParentPolicy) -> (r: Result<
    Vec<u8>,
    DecodeError,
>)
    ensures
        match parent_name_of(pool.links(), parent_index, policy) {
            Ok(text) => r is Ok && r->Ok_0@ == text,
            Err(e) => r == Err::<Vec<u8>, DecodeError>(e),
        },
{
    if parent_index == 0 {
        return match policy {
            ParentPolicy::Required => Err(DecodeError::MissingParent),
            ParentPolicy::RootAllowed => Ok(Vec::new()),
        };
    }
    let name_slot: Option<u16> = match place_of(parent_index, pool.slot_count()) {
        Some(i) => pool.class_slot(i),
        None => None,
    };
    match name_slot {
        Some(name_slot) => {
            let text = as_str(pool, name_slot)?;
            Ok(slice_to_vec(text.as_slice()))
        },
        None => Err(DecodeError::MalformedReference { index: parent_index }),
    }
}

/// One more slot adds the name it refers to, if any, to the names of the
/// slots before it.
pub proof fn lemma_class_names_step(links: Seq<Link>, i: int)
    requires
        0 <= i < links.len(),
    ensures
        class_names(links, i + 1) == match referenced_by(links, i) {
            Some(name) => class_names(links, i).insert(name),
            None => class_names(links, i),
        },
{
    let next = class_names(links, i + 1);
    let now = match referenced_by(links, i) {
        Some(name) => class_names(links, i).insert(name),
        None => class_names(links, i),
    };
    assert forall|name: Seq<u8>| next.contains(name) <==> now.contains(name) by {
        if next.contains(name) {
            let k = choose|k: int| 0 <= k < i + 1 && referenced_by(links, k) == Some(name);
            if k < i {
                assert(class_names(links, i).contains(name));
            }
        }
        if class_names(links, i).contains(name) {
            let k = choose|k: int| 0 <= k < i && referenced_by(links, k) == Some(name);
            assert(0 <= k < i + 1 && referenced_by(links, k) == Some(name));
        }
        if referenced_by(links, i) == Some(name) {
            assert(0 <= i < i + 1 && referenced_by(links, i) == Some(name));
        }
    }
    assert(next =~= now);
}

/// The type names that the slots of the pool refer to, in the order of names.
pub fn collect_class_names<P: NamePool>(pool: &P) -> (set: NameSet)
    ensures
        set.wf(),
        set@.to_set() == class_names(pool.links(), pool.links().len() as int),
{
    let mut set = NameSet::new();
    let n: usize = pool.slot_count();
    let mut i: usize = 0;
    assert(set@.to_set() =~= class_names(pool.links(), 0));
    while i < n
        invariant
            n == pool.links().len(),
            i <= n,
            set.wf(),
            set@.to_set() == class_names(pool.links(), i as int),
        decreases n - i,
    {
        proof {
            lemma_class_names_step(pool.links(), i as int);
        }
        match pool.class_slot(i) {
            Some(name_slot) => {
                match as_class_name(pool, name_slot) {
                    Ok(name) => {
                        set.insert(name.as_slice());
                    },
                    Err(_) => {},
                }
            },
            None => {},
        }
        i = i + 1;
    }
    set
}

/// Resolves the name of the parent type through the pool and collects the
/// other type names that the pool refers to.
pub fn extract_from<P: NamePool>(pool: &P, parent_index: u16, policy: ParentPolicy) -> (r: Result<
    ExtractionResult,
    DecodeError,
>)
    ensures
        extraction_outcome(r, pool.links(), parent_index, policy),
{
    let parent = parent_name(pool, parent_index, policy)?;
    let mut set = collect_class_names(pool);
    set.remove(parent.as_slice());
    Ok(ExtractionResult { parent_name: parent, referenced_names: set.into_names() })
}

/// Resolves the parent type name of a decoded descriptor and collects the
/// other type names that its symbol table refers to.
pub fn extract(descriptor: &DecodedDescriptor, policy: ParentPolicy) -> (r: Result<
    ExtractionResult,
    DecodeError,
>)
    ensures
        extraction_outcome(r, links_of(descriptor@.slots), descriptor@.parent_index, policy),
{
    extract_from(&descriptor.symbol_table, descriptor.parent_index, policy)
}

} // verus!
