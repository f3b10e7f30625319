//! Pane identifiers, search results and paste chunking.
//!
//! A pane is a view on a terminal; the terminal multiplexer allocates each
//! one an identifier and trickles large pastes into it in bounded chunks
//! that never split an encoded scalar.

use vstd::prelude::*;
use crate::utf8::is_boundary;
use crate::utf8::is_char_boundary_at;

verus! {

pub type PaneId = usize;

/// A row index that remains stable across scrollback.
pub type StableRowIndex = isize;

/// Allocates the next pane identifier from the caller's counter.
pub fn alloc_pane_id(counter: &mut usize) -> (id: PaneId)
    requires
        *old(counter) < usize::MAX,
    ensures
        id == *old(counter),
        *final(counter) == *old(counter) + 1,
{
    let id = *counter;
    *counter = *counter + 1;
    id
}

/// One match found by a pane search, by stable row and cell column.
#[derive(Debug, Clone, Copy, Eq, PartialEq, PartialOrd, Ord, Structural)]
pub struct SearchResult {
    pub start_y: StableRowIndex,
    pub end_y: StableRowIndex,
    /// The cell index into the line of the start of the match
    pub start_x: usize,
    /// The cell index into the line of the end of the match
    pub end_x: usize,
}

/// The most bytes a single paste chunk may carry, before the extension that
/// keeps it on a scalar boundary.
pub const PASTE_CHUNK_SIZE: usize = 1024;

/// The byte length of the next paste chunk starting at `offset`: the lesser
/// of the remainder and `PASTE_CHUNK_SIZE`, extended byte by byte until the
/// chunk ends on a scalar boundary or exhausts the text, so that slicing
/// the chunk never splits an encoded scalar.
pub fn next_paste_chunk(text: &[u8], offset: usize) -> (chunk: usize)
    requires
        offset <= text@.len(),
    ensures
        chunk <= text@.len() - offset,
        text@.len() - offset >= PASTE_CHUNK_SIZE ==> chunk >= PASTE_CHUNK_SIZE,
        text@.len() - offset < PASTE_CHUNK_SIZE ==> chunk == text@.len() - offset,
        is_boundary(text@, offset + chunk) || chunk == text@.len() - offset,
        forall|c: int|
            (if text@.len() - offset < PASTE_CHUNK_SIZE {
                text@.len() - offset
            } else {
                PASTE_CHUNK_SIZE as int
            }) <= c < chunk ==> !(#[trigger] is_boundary(text@, offset + c)),
{
    let remain = text.len() - offset;
    let base: usize = if remain < PASTE_CHUNK_SIZE {
        remain
    } else {
        PASTE_CHUNK_SIZE
    };
    let mut chunk = base;
    while chunk < remain && !is_char_boundary_at(text, offset + chunk)
        invariant
            offset + remain == text@.len(),
            text@.len() <= usize::MAX,
            base <= chunk <= remain,
            base == (if remain < PASTE_CHUNK_SIZE {
                remain as int
            } else {
                PASTE_CHUNK_SIZE as int
            }),
            forall|c: int| base <= c < chunk ==> !(#[trigger] is_boundary(text@, offset + c)),
        decreases remain - chunk,
    {
        chunk += 1;
    }
    chunk
}

} // verus!
