//! A window at an absolute position, for a scroll bar of stable size.
use crate::library::browse::{clamp_limit, CatalogScope};
use vstd::prelude::*;

verus! {

/// The rows shown, how many rows the scope holds, and where the window starts.
pub struct BrowseWindow<T> {
    pub items: Vec<T>,
    pub total: usize,
    pub offset: usize,
}

/// A window query: the scope, how many rows to read and from which position.
pub struct WindowQuery {
    pub scope: CatalogScope,
    pub limit: usize,
    pub offset: usize,
}

/// The requested position, moved back so that a full window fits before the
/// end of the scope (to 0 when the scope is smaller than a window).
pub open spec fn window_offset(offset: usize, total: usize, limit: usize) -> usize {
    let last_start: int = if total >= clamp_limit(limit) {
        total - clamp_limit(limit)
    } else {
        0
    };
    if offset <= last_start {
        offset
    } else {
        last_start as usize
    }
}

/// The window query for a scope that holds `total` rows: at most 500 rows
/// (at least 1), from the requested position or from where the last full
/// window starts, whichever comes first.
pub fn browse_window(scope: CatalogScope, total: usize, offset: usize, limit: usize) -> (r:
    WindowQuery)
    ensures
        r.scope == scope,
        r.limit == clamp_limit(limit),
        r.offset == window_offset(offset, total, limit),
        r.offset <= offset,
        total >= r.limit ==> r.offset + r.limit <= total,
        offset + r.limit <= total ==> r.offset == offset,
{
    let safe_limit: usize = if limit < 1 {
        1
    } else if limit > 500 {
        500
    } else {
        limit
    };
    let last_start: usize = total.saturating_sub(safe_limit);
    let safe_offset: usize = if offset <= last_start {
        offset
    } else {
        last_start
    };
    WindowQuery { scope, limit: safe_limit, offset: safe_offset }
}

} // verus!
