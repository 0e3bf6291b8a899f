//! Reading a class file with the parser of the `classfile_parser` crate.

use vstd::prelude::*;
use classfile_parser::constant_info::ConstantInfo;
use crate::decode::decode;
use crate::decode::descriptor_of;
use crate::error::DecodeError;
use crate::extract::ExtractionView;
use crate::extract::ParentPolicy;
use crate::extract::extract_from;
use crate::extract::is_extraction;
use crate::extract::parent_name_of;
use crate::names::names_view;
use crate::pool::Link;
use crate::pool::NamePool;

verus! {

/// One constant of a parsed pool, as far as names are resolved through it.
#[derive(Debug, Clone, PartialEq, Eq)]
pub enum PoolConstant {
    /// A literal string.
    Utf8 { text: Vec<u8> },
    /// A type, named through slot `name_slot`.
    Class { name_slot: u16 },
    /// A member, named by the string in slot `name_slot`.
    NameAndType { name_slot: u16 },
    /// A constant of another kind, or the unusable slot behind a wide one.
    Other,
}

impl View for PoolConstant {
    type V = Link;

    open spec fn view(&self) -> Link {
        match self {
            PoolConstant::Utf8 { text } => Link::Text { text: text@ },
            PoolConstant::Class { name_slot } => Link::Class { name_slot: *name_slot },
            PoolConstant::NameAndType { name_slot } => Link::Name { name_slot: *name_slot },
            PoolConstant::Other => Link::Other,
        }
    }
}

/// What the class-file parser made of a buffer: the number of bytes that it
/// left unread, the index of the parent type, and the constant pool.
#[derive(Debug, Clone, PartialEq, Eq)]
pub struct ParsedClass {
    pub rest: usize,
    pub super_class: u16,
    pub const_pool: Vec<PoolConstant>,
}

/// A parsed class as a mathematical value.
pub struct ParsedClassView {
    pub rest: nat,
    pub super_class: u16,
    pub links: Seq<Link>,
}

impl View for ParsedClass {
    type V = ParsedClassView;

    open spec fn view(&self) -> ParsedClassView {
        ParsedClassView {
            rest: self.rest as nat,
            super_class: self.super_class,
            links: Seq::new(self.const_pool@.len(), |i: int| self.const_pool@[i]@),
        }
    }
}

impl NamePool for ParsedClass {
    open spec fn links(&self) -> Seq<Link> {
        self@.links
    }

    fn slot_count(&self) -> (n: usize) {
        self.const_pool.len()
    }

    fn text(&self, i: usize) -> (r: Option<&Vec<u8>>) {
        match &self.const_pool[i] {
            PoolConstant::Utf8 { text } => Some(text),
            _ => None,
        }
    }

    fn class_slot(&self, i: usize) -> (r: Option<u16>) {
        match &self.const_pool[i] {
            PoolConstant::Class { name_slot } => Some(*name_slot),
            _ => None,
        }
    }

    fn name_slot(&self, i: usize) -> (r: Option<u16>) {
        match &self.const_pool[i] {
            PoolConstant::NameAndType { name_slot } => Some(*name_slot),
            _ => None,
        }
    }
}

/// What `classfile_parser::class_parser` makes of a buffer: nothing where it
/// fails, and else what it left unread, the parent index and the constant
/// pool of the class it returns.
pub uninterp spec fn class_parser_result(input: Seq<u8>) -> Option<ParsedClassView>;

/// The buffer is long enough to hold the count of a constant pool, and that
/// count is zero.
pub open spec fn announces_no_pool(input: Seq<u8>) -> bool {
    input.len() >= 10 && input[8] == 0 && input[9] == 0
}

/// Calls `classfile_parser::class_parser`. Believed, not proved: the result
/// is a function of the bytes alone; it is `None` where the parser returns
/// an error, and else holds the length of the input that the parser hands
/// back unread, the `super_class` of the class, and its `const_pool` slot by
/// slot: a string constant with its raw bytes, a class and a name-and-type
/// constant with its name index, and any other constant, the unusable slot
/// behind a wide one among them, without content. The parser subtracts one
/// from the pool count before it reads the pool, so a buffer that announces
/// a count of zero is kept from it.
#[verifier::external_body]
fn parse_class(from: &[u8]) -> (r: Option<ParsedClass>)
    requires
        !announces_no_pool(from@),
    ensures
        match class_parser_result(from@) {
            Some(v) => r is Some && r->Some_0@ == v,
            None => r is None,
        },
{
    let (rest, class) = classfile_parser::class_parser(from).ok()?;
    let const_pool = class.const_pool.into_iter().map(|constant| match constant {
        ConstantInfo::Utf8(s) => PoolConstant::Utf8 { text: s.bytes },
        ConstantInfo::Class(c) => PoolConstant::Class { name_slot: c.name_index },
        ConstantInfo::NameAndType(n) => PoolConstant::NameAndType { name_slot: n.name_index },
        _ => PoolConstant::Other,
    }).collect();
    Some(ParsedClass { rest: rest.len(), super_class: class.super_class, const_pool })
}

/// What is owed for a parsed class: trailing data where the parser left
/// bytes unread, and else the extraction through its constant pool, with a
/// parent required.
pub open spec fn read_outcome(
    r: Result<(Vec<u8>, Vec<Vec<u8>>), DecodeError>,
    parsed: ParsedClassView,
) -> bool {
    if parsed.rest > 0 {
        r == Err::<(Vec<u8>, Vec<Vec<u8>>), DecodeError>(
            DecodeError::TrailingData { remaining: parsed.rest as usize },
        )
    } else {
        match parent_name_of(parsed.links, parsed.super_class, ParentPolicy::Required) {
            Ok(parent) => r is Ok && is_extraction(
                ExtractionView {
                    parent_name: r->Ok_0.0@,
                    referenced_names: names_view(r->Ok_0.1@),
                },
                parsed.links,
                parent,
            ),
            Err(e) => r == Err::<(Vec<u8>, Vec<Vec<u8>>), DecodeError>(e),
        }
    }
}

/// What is owed for a buffer: what is owed for the parsed class where the
/// parser is asked and succeeds; and else the error of this library's own
/// decoder, which says why the buffer holds no descriptor, or a rejection
/// where that decoder finds nothing wrong.
pub open spec fn file_outcome(
    r: Result<(Vec<u8>, Vec<Vec<u8>>), DecodeError>,
    input: Seq<u8>,
) -> bool {
    if !announces_no_pool(input) && class_parser_result(input) is Some {
        read_outcome(r, class_parser_result(input)->Some_0)
    } else {
        match descriptor_of(input) {
            Err(e) => r == Err::<(Vec<u8>, Vec<Vec<u8>>), DecodeError>(e),
            Ok(_) => r == Err::<(Vec<u8>, Vec<Vec<u8>>), DecodeError>(DecodeError::Rejected),
        }
    }
}

/// The parent type name of a parsed class and the other type names that its
/// constant pool refers to, in the order of names. A class that did not take
/// up its whole buffer is refused.
pub fn read_parsed(parsed: &ParsedClass) -> (r: Result<(Vec<u8>, Vec<Vec<u8>>), DecodeError>)
    ensures
        read_outcome(r, parsed@),
{
    if parsed.rest > 0 {
        return Err(DecodeError::TrailingData { remaining: parsed.rest });
    }
    match extract_from(parsed, parsed.super_class, ParentPolicy::Required) {
        Ok(found) => Ok((found.parent_name, found.referenced_names)),
        Err(e) => Err(e),
    }
}

/// Parses the class file in `from` with the class-file parser and gives the
/// name of its parent type and the other type names it refers to. A buffer
/// that the parser does not accept, or that announces a pool count of zero
/// and is therefore not shown to it, goes to `decode` for the reason.
pub fn read_file(from: &[u8]) -> (r: Result<(Vec<u8>, Vec<Vec<u8>>), DecodeError>)
    ensures
        file_outcome(r, from@),
{
    if !(from.len() >= 10 && from[8] == 0 && from[9] == 0) {
        match parse_class(from) {
            Some(parsed) => {
                return read_parsed(&parsed);
            },
            None => {},
        }
    }
    match decode(from) {
        Err(e) => Err(e),
        Ok(_) => Err(DecodeError::Rejected),
    }
}

} // verus!
