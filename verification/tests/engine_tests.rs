use orderbook_heatmap::decode::{decode_message, RawLevel, UpdateRecord};
use orderbook_heatmap::state::OrderBookState;

fn level(px: &str, sz: &str, n: i64) -> RawLevel {
    RawLevel { px: String::from(px), sz: String::from(sz), n }
}

#[test]
fn decode_accepts_the_wire_shape() {
    let msg = "{\"channel\":\"l2Book\",\"data\":{\"coin\":\"@107\",\"levels\":[[{\"px\":\"10.0\",\"sz\":\"5\",\"n\":1}],[{\"px\":\"11.0\",\"sz\":\"3\",\"n\":1}]],\"time\":1000}}";
    let u = decode_message(msg).expect("wire-shaped message decodes");
    assert_eq!(u.coin, "@107");
    assert_eq!(u.time, 1000);
    assert_eq!(u.levels.len(), 2);
    assert_eq!(u.levels[0][0].px, "10.0");
    assert_eq!(u.levels[1][0].sz, "3");
    assert_eq!(u.levels[1][0].n, 1);
}

#[test]
fn decode_rejects_malformed_messages() {
    assert!(decode_message("").is_none());
    assert!(decode_message("not json").is_none());
    assert!(decode_message("{\"channel\":\"x\"}").is_none());
    assert!(decode_message("{\"data\":{\"coin\":\"c\",\"levels\":[]}}").is_none());
    assert!(decode_message("{\"data\":{\"coin\":\"c\",\"levels\":[],\"time\":1}} x").is_none());
}

#[test]
fn feed_update_fills_book_and_history() {
    // An update arrives, the maps take exactly its levels, and one history
    // entry appears at its timestamp.
    let msg = "{\"data\":{\"coin\":\"@107\",\"time\":1000,\"levels\":[[{\"px\":\"10.0\",\"sz\":\"5\",\"n\":1}],[{\"px\":\"11.0\",\"sz\":\"3\",\"n\":1}]]}}";
    let u = decode_message(msg).expect("message decodes");
    let mut st = OrderBookState::new();
    st.apply_update(&u);
    assert_eq!(st.buy.len(), 1);
    assert_eq!(st.buy.get(10_000_000), Some(5_000_000));
    assert_eq!(st.sell.len(), 1);
    assert_eq!(st.sell.get(11_000_000), Some(3_000_000));
    assert_eq!(st.history.len(), 1);
    assert_eq!(st.history[0].ts, 1000);
}

#[test]
fn wholesale_replace_keeps_only_the_last_update() {
    let mut st = OrderBookState::new();
    let u1 = UpdateRecord {
        coin: String::from("@107"),
        time: 1000,
        levels: vec![vec![level("10.0", "5", 1)], vec![level("11.0", "3", 1)]],
    };
    let u2 = UpdateRecord {
        coin: String::from("@107"),
        time: 2000,
        levels: vec![vec![level("12.0", "7", 1)], vec![level("13.0", "9", 1)]],
    };
    st.apply_update(&u1);
    st.apply_update(&u2);
    assert_eq!(st.buy.len(), 1);
    assert_eq!(st.buy.get(10_000_000), None);
    assert_eq!(st.buy.get(12_000_000), Some(7_000_000));
    assert_eq!(st.sell.get(11_000_000), None);
    assert_eq!(st.sell.get(13_000_000), Some(9_000_000));
}

#[test]
fn empty_buy_group_gives_empty_buy_map() {
    // Group zero empty, group one populated: the buy side stays empty and
    // the sell side fills.
    let u = UpdateRecord {
        coin: String::from("@107"),
        time: 1000,
        levels: vec![vec![], vec![level("11.0", "3", 1)]],
    };
    let mut st = OrderBookState::new();
    st.apply_update(&u);
    assert_eq!(st.buy.len(), 0);
    assert_eq!(st.sell.len(), 1);
    assert_eq!(st.sell.get(11_000_000), Some(3_000_000));
}

#[test]
fn groups_beyond_the_first_fold_into_the_sell_side() {
    let u = UpdateRecord {
        coin: String::from("@107"),
        time: 1000,
        levels: vec![
            vec![level("10.0", "5", 1)],
            vec![level("11.0", "3", 1)],
            vec![level("12.0", "4", 1)],
        ],
    };
    let mut st = OrderBookState::new();
    st.apply_update(&u);
    assert_eq!(st.buy.len(), 1);
    assert_eq!(st.sell.len(), 2);
    assert_eq!(st.sell.get(12_000_000), Some(4_000_000));
}

#[test]
fn malformed_level_is_dropped_alone() {
    // One bad price among good levels: only the bad level disappears.
    let msg = "{\"data\":{\"coin\":\"@107\",\"time\":1000,\"levels\":[[{\"px\":\"abc\",\"sz\":\"5\",\"n\":1},{\"px\":\"10.0\",\"sz\":\"5\",\"n\":1}],[{\"px\":\"11.0\",\"sz\":\"3\",\"n\":1}]]}}";
    let u = decode_message(msg).expect("message decodes");
    let mut st = OrderBookState::new();
    st.apply_update(&u);
    assert_eq!(st.buy.len(), 1);
    assert_eq!(st.buy.get(10_000_000), Some(5_000_000));
    assert_eq!(st.sell.len(), 1);
}

#[test]
fn entries_beyond_the_window_are_purged() {
    // A second update past the 300,000 ms window purges the first entry.
    let u1 = UpdateRecord {
        coin: String::from("@107"),
        time: 1000,
        levels: vec![vec![level("10.0", "5", 1)]],
    };
    let u2 = UpdateRecord {
        coin: String::from("@107"),
        time: 301_500,
        levels: vec![vec![level("10.5", "6", 1)]],
    };
    let mut st = OrderBookState::new();
    st.apply_update(&u1);
    assert_eq!(st.history.len(), 1);
    st.apply_update(&u2);
    assert_eq!(st.history.len(), 1);
    assert_eq!(st.history[0].ts, 301_500);
}

#[test]
fn entries_inside_the_window_are_kept() {
    let u1 = UpdateRecord {
        coin: String::from("@107"),
        time: 1000,
        levels: vec![vec![level("10.0", "5", 1)]],
    };
    let u2 = UpdateRecord {
        coin: String::from("@107"),
        time: 300_000,
        levels: vec![vec![level("10.5", "6", 1)]],
    };
    let mut st = OrderBookState::new();
    st.apply_update(&u1);
    st.apply_update(&u2);
    // 1000 > 300000 - 300000, so the first entry survives.
    assert_eq!(st.history.len(), 2);
    assert_eq!(st.history[0].ts, 1000);
    assert_eq!(st.history[1].ts, 300_000);
}

#[test]
fn duplicate_price_in_one_update_keeps_the_last_size() {
    let u = UpdateRecord {
        coin: String::from("@107"),
        time: 1000,
        levels: vec![vec![level("10.0", "5", 1), level("10.0", "7", 1)]],
    };
    let mut st = OrderBookState::new();
    st.apply_update(&u);
    assert_eq!(st.buy.len(), 1);
    assert_eq!(st.buy.get(10_000_000), Some(7_000_000));
}

#[test]
fn book_iterates_in_ascending_price_order() {
    let u = UpdateRecord {
        coin: String::from("@107"),
        time: 1000,
        levels: vec![vec![level("30", "1", 1), level("10", "2", 1), level("20", "3", 1)]],
    };
    let mut st = OrderBookState::new();
    st.apply_update(&u);
    assert_eq!(st.buy.len(), 3);
    assert_eq!(st.buy.level_at(0), (10_000_000, 2_000_000));
    assert_eq!(st.buy.level_at(1), (20_000_000, 3_000_000));
    assert_eq!(st.buy.level_at(2), (30_000_000, 1_000_000));
}

#[test]
fn decode_tolerates_whitespace_and_field_order() {
    let msg = " { \"data\" : { \"time\" : 1000 ,\n\t\"coin\" : \"@107\" , \"levels\" : [ [ { \"n\" : 1 , \"sz\" : \"5\" , \"px\" : \"10.0\" } ] ] } , \"channel\" : \"l2Book\" } ";
    let u = decode_message(msg).expect("field order and whitespace are free");
    assert_eq!(u.time, 1000);
    assert_eq!(u.levels[0][0].px, "10.0");
    assert_eq!(u.levels[0][0].sz, "5");
}

#[test]
fn decode_rejects_duplicate_fields() {
    let msg = "{\"data\":{\"coin\":\"a\",\"coin\":\"b\",\"levels\":[],\"time\":1}}";
    assert!(decode_message(msg).is_none());
}
