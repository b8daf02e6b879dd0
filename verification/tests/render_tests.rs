use orderbook_heatmap::decode::{RawLevel, UpdateRecord};
use orderbook_heatmap::engine::process_update;
use orderbook_heatmap::render::{alpha_millis, generate_heatmap};
use orderbook_heatmap::state::OrderBookState;

fn level(px: &str, sz: &str, n: i64) -> RawLevel {
    RawLevel { px: String::from(px), sz: String::from(sz), n }
}

fn one_update_state() -> OrderBookState {
    let u = UpdateRecord {
        coin: String::from("@107"),
        time: 1000,
        levels: vec![vec![level("10.0", "5", 1)], vec![level("11.0", "3", 1)]],
    };
    let mut st = OrderBookState::new();
    st.apply_update(&u);
    st
}

#[test]
fn render_is_byte_identical_on_an_unchanged_history() {
    let st = one_update_state();
    let first = generate_heatmap(&st);
    let second = generate_heatmap(&st);
    assert_eq!(first, second);
}

#[test]
fn alpha_is_clamped_and_full_exactly_at_the_maximum() {
    assert_eq!(alpha_millis(5, 10), 500);
    assert_eq!(alpha_millis(9, 10), 900);
    assert_eq!(alpha_millis(999, 1000), 999);
    assert_eq!(alpha_millis(10, 10), 1000);
    assert_eq!(alpha_millis(20, 10), 1000);
    assert_eq!(alpha_millis(0, 10), 0);
    assert_eq!(alpha_millis(1, 3), 333);
}

#[test]
fn zero_max_size_yields_a_background_only_image() {
    // A single snapshot whose only level has size zero: no liquidity, so
    // the image is the bare document with no rectangles.
    let u = UpdateRecord {
        coin: String::from("@107"),
        time: 1000,
        levels: vec![vec![level("10.0", "0", 1)]],
    };
    let mut st = OrderBookState::new();
    st.apply_update(&u);
    let svg = generate_heatmap(&st);
    assert_eq!(
        svg,
        "<svg height=\"100%\" preserveAspectRatio=\"xMidYMid meet\" viewBox=\"0 0 1920 1080\" width=\"100%\" xmlns=\"http://www.w3.org/2000/svg\"/>"
    );
    assert!(!svg.contains("<rect"));
}

#[test]
fn empty_history_yields_a_background_only_image() {
    let st = OrderBookState::new();
    let svg = generate_heatmap(&st);
    assert!(!svg.contains("<rect"));
    assert!(svg.starts_with("<svg "));
}

#[test]
fn render_draws_levels_mid_and_axis() {
    let st = one_update_state();
    let svg = generate_heatmap(&st);
    // Document root, written by the svg crate with sorted attributes.
    assert!(svg.starts_with(
        "<svg height=\"100%\" preserveAspectRatio=\"xMidYMid meet\" viewBox=\"0 0 1920 1080\" width=\"100%\" xmlns=\"http://www.w3.org/2000/svg\">\n"
    ));
    assert!(svg.ends_with("\n</svg>"));
    // Backdrop of the plotting area.
    assert!(svg.contains("<rect fill=\"#000000\" height=\"100%\" width=\"1620\" x=\"0\" y=\"0\"/>"));
    // The buy level has the window's maximum size, so its alpha is one; it
    // sits at the minimum price, the bottom edge.  One snapshot spans the
    // whole plot: x = 1620, bar width = 1621.
    assert!(svg.contains("<rect fill=\"rgba(0, 255, 0, 1)\" height=\"1\" width=\"1621\" x=\"1620\" y=\"1080\"/>"));
    // The sell level: three fifths of the maximum, top edge.
    assert!(svg.contains("<rect fill=\"rgba(255, 0, 0, 0.600)\" height=\"1\" width=\"1621\" x=\"1620\" y=\"0\"/>"));
    // The mid marker: half way between 10 and 11.
    assert!(svg.contains("<rect fill=\"rgba(255, 255, 255, 0.8)\" height=\"1\" width=\"1621\" x=\"1620\" y=\"540\"/>"));
    // The axis group and its outermost labels.
    assert!(svg.contains("<g fill=\"white\" font-family=\"Arial\" font-size=\"14\">"));
    assert!(svg.contains("<text text-anchor=\"start\" x=\"1640\" y=\"1085\">\n10.000\n</text>"));
    assert!(svg.contains("<text text-anchor=\"start\" x=\"1640\" y=\"5\">\n11.000\n</text>"));
    assert!(svg.contains("<line stroke=\"white\" stroke-width=\"1\" x1=\"1620\" x2=\"1630\" y1=\"1080\" y2=\"1080\"/>"));
    assert!(svg.contains("<line stroke=\"white\" stroke-width=\"1\" x1=\"1620\" x2=\"1630\" y1=\"0\" y2=\"0\"/>"));
}

#[test]
fn process_update_applies_and_renders() {
    let u = UpdateRecord {
        coin: String::from("@107"),
        time: 1000,
        levels: vec![vec![level("10.0", "5", 1)], vec![level("11.0", "3", 1)]],
    };
    let mut st = OrderBookState::new();
    let svg = process_update(&mut st, &u);
    assert_eq!(st.buy.get(10_000_000), Some(5_000_000));
    assert_eq!(svg, generate_heatmap(&st));
}

#[test]
fn coincident_prices_render_without_an_axis_range() {
    // Every price equal: the range is zero and all bars sit on the bottom
    // edge rather than dividing by zero.
    let u = UpdateRecord {
        coin: String::from("@107"),
        time: 1000,
        levels: vec![vec![level("10.0", "5", 1)]],
    };
    let mut st = OrderBookState::new();
    st.apply_update(&u);
    let svg = generate_heatmap(&st);
    assert!(svg.contains("<rect fill=\"rgba(0, 255, 0, 1)\" height=\"1\" width=\"1621\" x=\"1620\" y=\"1080\"/>"));
}
