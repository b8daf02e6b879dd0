//! The aggregation step: one update in, one rendered frame out.
//!
//! The consumer of the update queue calls this once per decoded update,
//! never concurrently with itself; the caller sends the returned image to
//! its event sink and carries on even when that delivery fails.

use vstd::prelude::*;

use crate::WINDOW_MS;
use crate::decode::UpdateRecord;
use crate::render::{generate_heatmap, spec_render};
use crate::state::{OrderBookState, hist_views, keep_recent, spec_buy_book, spec_sell_book};

verus! {

/// Applies one update to the book and renders the new window.
pub fn process_update(state: &mut OrderBookState, u: &UpdateRecord) -> (svg: String)
    ensures
        final(state).buy@ == spec_buy_book(u.levels@),
        final(state).sell@ == spec_sell_book(u.levels@),
        hist_views(final(state).history@) == keep_recent(
            hist_views(old(state).history@).push(
                (u.time, spec_buy_book(u.levels@), spec_sell_book(u.levels@)),
            ),
            u.time - WINDOW_MS,
        ),
        final(state).wf(),
        svg@ == spec_render(final(state).history@),
{
    state.apply_update(u);
    generate_heatmap(state)
}

} // verus!
