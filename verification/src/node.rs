//! Nodes by their id: what a record says, and the bytes that it spans.
use vstd::prelude::*;

use crate::document::{get_span, span, Document, FLAG_ARRAY_ELEMENT, FLAG_OBJECT_MEMBER, NULL_NODE};
use crate::path::{compute_path, parents_first, path_text, steps_to};
use crate::source_scan::{decode_json_string_inner, decoded};

verus! {

/// The kind of a node, as records store it; 0 for an unknown id.
pub fn engine_node_kind(doc: &Document, node: u32) -> (k: u8)
    ensures
        k == match doc.rec(node) {
            Some(r) => r.kind,
            None => 0,
        },
{
    match doc.record(node) {
        Some(r) => r.kind,
        None => 0,
    }
}

/// The parent of node `id`; no node for an unknown id.
pub open spec fn parent_of(doc: Document, id: u32) -> u32 {
    match doc.rec(id) {
        Some(r) => r.parent,
        None => NULL_NODE,
    }
}

pub fn engine_node_parent(doc: &Document, node: u32) -> (p: u32)
    ensures
        p == parent_of(*doc, node),
{
    match doc.record(node) {
        Some(r) => r.parent,
        None => NULL_NODE,
    }
}

/// How many children node `id` has; 0 for an unknown id.
pub open spec fn child_count(doc: Document, id: u32) -> u32 {
    match doc.rec(id) {
        Some(r) => r.child_count,
        None => 0,
    }
}

pub fn engine_node_child_count(doc: &Document, node: u32) -> (n: u32)
    ensures
        n == child_count(*doc, node),
{
    match doc.record(node) {
        Some(r) => r.child_count,
        None => 0,
    }
}

pub fn engine_node_byte_offset(doc: &Document, node: u32) -> (n: u64)
    ensures
        n == match doc.rec(node) {
            Some(r) => r.offset,
            None => 0,
        },
{
    match doc.record(node) {
        Some(r) => r.offset,
        None => 0,
    }
}

pub fn engine_node_byte_length(doc: &Document, node: u32) -> (n: u64)
    ensures
        n == match doc.rec(node) {
            Some(r) => r.length,
            None => 0,
        },
{
    match doc.record(node) {
        Some(r) => r.length,
        None => 0,
    }
}

/// The source bytes of a node, if it has any.
pub fn engine_node_value_bytes(doc: &Document, node: u32) -> (r: Option<&[u8]>)
    ensures
        match doc.value_span(node) {
            Some(b) => r matches Some(x) && x@ == b,
            None => r is None,
        },
{
    doc.value_bytes(node)
}

/// The bytes at `offset`, in the source or in the keys arena.
pub open spec fn bytes_at(doc: Document, offset: u64, length: u64, in_source: bool) -> Option<
    Seq<u8>,
> {
    if in_source {
        span(doc.source@, offset as int, length as int)
    } else {
        span(doc.keys@, offset as int, length as int)
    }
}

/// Reads `length` bytes at `offset`, from the source or from the keys arena.
/// A span that does not fit gives none.
pub fn engine_node_value_bytes_at(doc: &Document, offset: u64, length: u64, in_source: bool) -> (r:
    Option<&[u8]>)
    ensures
        match bytes_at(*doc, offset, length, in_source) {
            Some(b) => r matches Some(x) && x@ == b,
            None => r is None,
        },
{
    if in_source {
        get_span(doc.source.as_slice(), offset, length)
    } else {
        get_span(doc.keys.as_slice(), offset, length)
    }
}

/// The decoded key of node `id`, if it is an object member.
pub open spec fn key_of(doc: Document, id: u32) -> Option<Seq<u8>> {
    match doc.rec(id) {
        Some(r) => if r.flags & FLAG_OBJECT_MEMBER == 0 {
            None
        } else {
            doc.key_span(r)
        },
        None => None,
    }
}

pub fn engine_node_key(doc: &Document, node: u32) -> (r: Option<&[u8]>)
    ensures
        match key_of(*doc, node) {
            Some(b) => r matches Some(x) && x@ == b,
            None => r is None,
        },
{
    doc.key_bytes(node)
}

/// Whether node `id` is an element of an array.
pub open spec fn in_array(doc: Document, id: u32) -> bool {
    doc.rec(id) matches Some(r) && r.flags & FLAG_ARRAY_ELEMENT != 0
}

pub fn engine_node_is_array_element(doc: &Document, node: u32) -> (b: bool)
    ensures
        b == in_array(*doc, node),
{
    match doc.record(node) {
        Some(r) => r.flags & FLAG_ARRAY_ELEMENT != 0,
        None => false,
    }
}

/// The slot of an array element, at most the greatest `u32`; 0 for any other
/// node.
pub open spec fn slot_of(doc: Document, id: u32) -> u32 {
    match doc.rec(id) {
        Some(r) => if r.flags & FLAG_ARRAY_ELEMENT == 0 {
            0
        } else if r.key_or_index > u32::MAX {
            u32::MAX
        } else {
            r.key_or_index as u32
        },
        None => 0,
    }
}

pub fn engine_node_array_index(doc: &Document, node: u32) -> (n: u32)
    ensures
        n == slot_of(*doc, node),
{
    match doc.record(node) {
        Some(r) => if r.flags & FLAG_ARRAY_ELEMENT == 0 {
            0
        } else if r.key_or_index > u32::MAX as u64 {
            u32::MAX
        } else {
            r.key_or_index as u32
        },
        None => 0,
    }
}

/// The path of a node.
pub fn engine_node_path(doc: &Document, node: u32) -> (out: Vec<u8>)
    requires
        parents_first(*doc),
    ensures
        out@ == path_text(steps_to(*doc, node)),
{
    compute_path(doc, node)
}

/// Decodes the source text between the quotes of a JSON string. A broken
/// escape gives none.
pub fn engine_decode_json_string(inner: &[u8]) -> (r: Option<Vec<u8>>)
    ensures
        match decoded(inner@) {
            Some(b) => r matches Some(v) && v@ == b,
            None => r is None,
        },
{
    decode_json_string_inner(inner)
}

/// How many records the index has.
pub fn engine_total_node_count(doc: &Document) -> (n: u64)
    ensures
        n == doc.records@.len(),
{
    doc.records.len() as u64
}

/// The size of the source.
pub fn engine_file_size(doc: &Document) -> (n: u64)
    ensures
        n == doc.source@.len(),
{
    doc.source.len() as u64
}

/// The id of the root, if there is one.
pub open spec fn root_of(doc: Document) -> u32 {
    if doc.records@.len() == 0 {
        NULL_NODE
    } else {
        0
    }
}

pub fn engine_root(doc: &Document) -> (id: u32)
    ensures
        id == root_of(*doc),
{
    if doc.records.len() == 0 {
        NULL_NODE
    } else {
        0
    }
}

pub fn engine_loaded_from_sidecar(doc: &Document) -> (b: bool)
    ensures
        b == !doc.parsed_this_session,
{
    doc.loaded_from_sidecar()
}

} // verus!
