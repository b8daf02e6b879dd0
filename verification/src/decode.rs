//! The wire format of one feed update, and its decoder.
//!
//! A feed message is an object `{"channel": ..., "data": {"coin": ...,
//! "levels": [[level, ...], ...], "time": ...}}`; a level is an object
//! `{"px": "...", "sz": "...", "n": ...}`.  Fields may come in any order,
//! each at most once, and `channel` may be absent; whitespace is free.
//! Strings carry no escape sequences and integers at most eighteen digits:
//! the feed writes neither.  Group zero of `levels` holds the buy side;
//! every further group is read as the sell side.  Prices and sizes travel
//! as decimal text and are parsed into fixed-point values only when an
//! update is applied to the book.  A message outside this shape decodes to
//! nothing and is discarded by the caller.

use vstd::prelude::*;
use vstd::string::StringExecFns;

use crate::fixed::{digits_val, is_digit, pow10};

verus! {

/// One price level as it appears on the wire: price and size as decimal
/// text, and the number of resting orders.
pub struct RawLevel {
    pub px: String,
    pub sz: String,
    pub n: i64,
}

/// One decoded feed update: a full snapshot of both sides of the book.
pub struct UpdateRecord {
    pub coin: String,
    pub time: i64,
    pub levels: Vec<Vec<RawLevel>>,
}

/// A level reduced to mathematics.
pub open spec fn level_view(l: RawLevel) -> (Seq<char>, Seq<char>, int) {
    (l.px@, l.sz@, l.n as int)
}

/// A group of levels reduced to mathematics.
pub open spec fn group_view(g: Vec<RawLevel>) -> Seq<(Seq<char>, Seq<char>, int)> {
    g@.map_values(|l: RawLevel| level_view(l))
}

/// An update reduced to mathematics: instrument, level groups, timestamp.
pub open spec fn update_view(u: UpdateRecord) -> (
    Seq<char>,
    Seq<Seq<(Seq<char>, Seq<char>, int)>>,
    int,
) {
    (u.coin@, u.levels@.map_values(|g: Vec<RawLevel>| group_view(g)), u.time as int)
}

/// Whether `c` is insignificant whitespace.
pub open spec fn is_ws(c: char) -> bool {
    c == ' ' || c == '\t' || c == '\n' || c == '\r'
}

/// The first position at or after `i` holding no whitespace.
pub open spec fn skip_ws(s: Seq<char>, i: int) -> int
    decreases s.len() - i,
{
    if 0 <= i < s.len() && is_ws(s[i]) {
        skip_ws(s, i + 1)
    } else {
        i
    }
}

/// The first position at or after `i` that ends a string body.
pub open spec fn scan_str(s: Seq<char>, i: int) -> int
    decreases s.len() - i,
{
    if 0 <= i < s.len() && s[i] != '"' && s[i] != '\\' {
        scan_str(s, i + 1)
    } else {
        i
    }
}

/// The first position at or after `i` holding no digit.
pub open spec fn scan_digits(s: Seq<char>, i: int) -> int
    decreases s.len() - i,
{
    if 0 <= i < s.len() && is_digit(s[i]) {
        scan_digits(s, i + 1)
    } else {
        i
    }
}

/// A quoted string without escapes: its body and the position after it.
pub open spec fn spec_string(s: Seq<char>, i: int) -> Option<(Seq<char>, int)> {
    if 0 <= i < s.len() && s[i] == '"' {
        let e = scan_str(s, i + 1);
        if e < s.len() && s[e] == '"' {
            Some((s.subrange(i + 1, e), e + 1))
        } else {
            None
        }
    } else {
        None
    }
}

/// An integer of at most eighteen digits, with an optional minus sign.
pub open spec fn spec_int(s: Seq<char>, i: int) -> Option<(int, int)> {
    let neg = 0 <= i < s.len() && s[i] == '-';
    let d0 = if neg {
        i + 1
    } else {
        i
    };
    let e = scan_digits(s, d0);
    if e - d0 < 1 || e - d0 > 18 {
        None
    } else {
        let mag = digits_val(s.subrange(d0, e));
        Some(
            (
                if neg {
                    -mag
                } else {
                    mag
                },
                e,
            ),
        )
    }
}

/// The remaining fields of a level object, given what is already read.
pub open spec fn level_fields(
    s: Seq<char>,
    i: int,
    px: Option<Seq<char>>,
    sz: Option<Seq<char>>,
    nn: Option<int>,
) -> Option<((Seq<char>, Seq<char>, int), int)>
    decreases (if px is Some { 0int } else { 1int }) + (if sz is Some { 0int } else { 1int }) + (
    if nn is Some {
        0int
    } else {
        1int
    }),
{
    let k = skip_ws(s, i);
    match spec_string(s, k) {
        None => None,
        Some((key, a)) => {
            let c = skip_ws(s, a);
            if !(0 <= c < s.len() && s[c] == ':') {
                None
            } else {
                let v = skip_ws(s, c + 1);
                if key == "px"@ {
                    if px is Some {
                        None
                    } else {
                        match spec_string(s, v) {
                            None => None,
                            Some((val, b)) => {
                                let t = skip_ws(s, b);
                                if 0 <= t < s.len() && s[t] == ',' {
                                    level_fields(s, t + 1, Some(val), sz, nn)
                                } else if 0 <= t < s.len() && s[t] == '}' {
                                    finish_level(Some(val), sz, nn, t + 1)
                                } else {
                                    None
                                }
                            },
                        }
                    }
                } else if key == "sz"@ {
                    if sz is Some {
                        None
                    } else {
                        match spec_string(s, v) {
                            None => None,
                            Some((val, b)) => {
                                let t = skip_ws(s, b);
                                if 0 <= t < s.len() && s[t] == ',' {
                                    level_fields(s, t + 1, px, Some(val), nn)
                                } else if 0 <= t < s.len() && s[t] == '}' {
                                    finish_level(px, Some(val), nn, t + 1)
                                } else {
                                    None
                                }
                            },
                        }
                    }
                } else if key == "n"@ {
                    if nn is Some {
                        None
                    } else {
                        match spec_int(s, v) {
                            None => None,
                            Some((val, b)) => {
                                let t = skip_ws(s, b);
                                if 0 <= t < s.len() && s[t] == ',' {
                                    level_fields(s, t + 1, px, sz, Some(val))
                                } else if 0 <= t < s.len() && s[t] == '}' {
                                    finish_level(px, sz, Some(val), t + 1)
                                } else {
                                    None
                                }
                            },
                        }
                    }
                } else {
                    None
                }
            }
        },
    }
}

/// A closed level object is complete when all three fields were read.
pub open spec fn finish_level(
    px: Option<Seq<char>>,
    sz: Option<Seq<char>>,
    nn: Option<int>,
    next: int,
) -> Option<((Seq<char>, Seq<char>, int), int)> {
    match (px, sz, nn) {
        (Some(p), Some(z), Some(m)) => Some(((p, z, m), next)),
        _ => None,
    }
}

/// One level object.
pub open spec fn spec_level(s: Seq<char>, i: int) -> Option<((Seq<char>, Seq<char>, int), int)> {
    if 0 <= i < s.len() && s[i] == '{' {
        level_fields(s, i + 1, None, None, None)
    } else {
        None
    }
}

/// The items of a nonempty level array, after those already read.
pub open spec fn group_items(s: Seq<char>, i: int, acc: Seq<(Seq<char>, Seq<char>, int)>) -> Option<
    (Seq<(Seq<char>, Seq<char>, int)>, int),
>
    decreases s.len() - i,
{
    if !(0 <= i <= s.len()) {
        None
    } else {
        match spec_level(s, i) {
            None => None,
            Some((lv, j)) => {
                let t = skip_ws(s, j);
                if 0 <= t < s.len() && s[t] == ',' {
                    let k = skip_ws(s, t + 1);
                    if i < k <= s.len() {
                        group_items(s, k, acc.push(lv))
                    } else {
                        None
                    }
                } else if 0 <= t < s.len() && s[t] == ']' {
                    Some((acc.push(lv), t + 1))
                } else {
                    None
                }
            },
        }
    }
}

/// One array of levels.
pub open spec fn spec_group(s: Seq<char>, i: int) -> Option<(Seq<(Seq<char>, Seq<char>, int)>, int)> {
    if 0 <= i < s.len() && s[i] == '[' {
        let a = skip_ws(s, i + 1);
        if 0 <= a < s.len() && s[a] == ']' {
            Some((Seq::empty(), a + 1))
        } else {
            group_items(s, a, Seq::empty())
        }
    } else {
        None
    }
}

/// The items of a nonempty array of level groups, after those already read.
pub open spec fn groups_items(
    s: Seq<char>,
    i: int,
    acc: Seq<Seq<(Seq<char>, Seq<char>, int)>>,
) -> Option<(Seq<Seq<(Seq<char>, Seq<char>, int)>>, int)>
    decreases s.len() - i,
{
    if !(0 <= i <= s.len()) {
        None
    } else {
        match spec_group(s, i) {
            None => None,
            Some((g, j)) => {
                let t = skip_ws(s, j);
                if 0 <= t < s.len() && s[t] == ',' {
                    let k = skip_ws(s, t + 1);
                    if i < k <= s.len() {
                        groups_items(s, k, acc.push(g))
                    } else {
                        None
                    }
                } else if 0 <= t < s.len() && s[t] == ']' {
                    Some((acc.push(g), t + 1))
                } else {
                    None
                }
            },
        }
    }
}

/// The array of level groups.
pub open spec fn spec_groups(s: Seq<char>, i: int) -> Option<
    (Seq<Seq<(Seq<char>, Seq<char>, int)>>, int),
> {
    if 0 <= i < s.len() && s[i] == '[' {
        let a = skip_ws(s, i + 1);
        if 0 <= a < s.len() && s[a] == ']' {
            Some((Seq::empty(), a + 1))
        } else {
            groups_items(s, a, Seq::empty())
        }
    } else {
        None
    }
}

/// The remaining fields of a book object, given what is already read.
pub open spec fn book_fields(
    s: Seq<char>,
    i: int,
    coin: Option<Seq<char>>,
    gs: Option<Seq<Seq<(Seq<char>, Seq<char>, int)>>>,
    time: Option<int>,
) -> Option<((Seq<char>, Seq<Seq<(Seq<char>, Seq<char>, int)>>, int), int)>
    decreases (if coin is Some { 0int } else { 1int }) + (if gs is Some { 0int } else { 1int }) + (
    if time is Some {
        0int
    } else {
        1int
    }),
{
    let k = skip_ws(s, i);
    match spec_string(s, k) {
        None => None,
        Some((key, a)) => {
            let c = skip_ws(s, a);
            if !(0 <= c < s.len() && s[c] == ':') {
                None
            } else {
                let v = skip_ws(s, c + 1);
                if key == "coin"@ {
                    if coin is Some {
                        None
                    } else {
                        match spec_string(s, v) {
                            None => None,
                            Some((val, b)) => {
                                let t = skip_ws(s, b);
                                if 0 <= t < s.len() && s[t] == ',' {
                                    book_fields(s, t + 1, Some(val), gs, time)
                                } else if 0 <= t < s.len() && s[t] == '}' {
                                    finish_book(Some(val), gs, time, t + 1)
                                } else {
                                    None
                                }
                            },
                        }
                    }
                } else if key == "levels"@ {
                    if gs is Some {
                        None
                    } else {
                        match spec_groups(s, v) {
                            None => None,
                            Some((val, b)) => {
                                let t = skip_ws(s, b);
                                if 0 <= t < s.len() && s[t] == ',' {
                                    book_fields(s, t + 1, coin, Some(val), time)
                                } else if 0 <= t < s.len() && s[t] == '}' {
                                    finish_book(coin, Some(val), time, t + 1)
                                } else {
                                    None
                                }
                            },
                        }
                    }
                } else if key == "time"@ {
                    if time is Some {
                        None
                    } else {
                        match spec_int(s, v) {
                            None => None,
                            Some((val, b)) => {
                                let t = skip_ws(s, b);
                                if 0 <= t < s.len() && s[t] == ',' {
                                    book_fields(s, t + 1, coin, gs, Some(val))
                                } else if 0 <= t < s.len() && s[t] == '}' {
                                    finish_book(coin, gs, Some(val), t + 1)
                                } else {
                                    None
                                }
                            },
                        }
                    }
                } else {
                    None
                }
            }
        },
    }
}

/// A closed book object is complete when all three fields were read.
pub open spec fn finish_book(
    coin: Option<Seq<char>>,
    gs: Option<Seq<Seq<(Seq<char>, Seq<char>, int)>>>,
    time: Option<int>,
    next: int,
) -> Option<((Seq<char>, Seq<Seq<(Seq<char>, Seq<char>, int)>>, int), int)> {
    match (coin, gs, time) {
        (Some(c), Some(g), Some(t)) => Some(((c, g, t), next)),
        _ => None,
    }
}

/// The book object under the `data` field.
pub open spec fn spec_book(s: Seq<char>, i: int) -> Option<
    ((Seq<char>, Seq<Seq<(Seq<char>, Seq<char>, int)>>, int), int),
> {
    if 0 <= i < s.len() && s[i] == '{' {
        book_fields(s, i + 1, None, None, None)
    } else {
        None
    }
}

/// The remaining fields of a message object: an optional `channel` string,
/// whose content does not matter, and the `data` book.
pub open spec fn msg_fields(
    s: Seq<char>,
    i: int,
    chan_seen: bool,
    data: Option<(Seq<char>, Seq<Seq<(Seq<char>, Seq<char>, int)>>, int)>,
) -> Option<((Seq<char>, Seq<Seq<(Seq<char>, Seq<char>, int)>>, int), int)>
    decreases (if chan_seen { 0int } else { 1int }) + (if data is Some { 0int } else { 1int }),
{
    let k = skip_ws(s, i);
    match spec_string(s, k) {
        None => None,
        Some((key, a)) => {
            let c = skip_ws(s, a);
            if !(0 <= c < s.len() && s[c] == ':') {
                None
            } else {
                let v = skip_ws(s, c + 1);
                if key == "channel"@ {
                    if chan_seen {
                        None
                    } else {
                        match spec_string(s, v) {
                            None => None,
                            Some((_val, b)) => {
                                let t = skip_ws(s, b);
                                if 0 <= t < s.len() && s[t] == ',' {
                                    msg_fields(s, t + 1, true, data)
                                } else if 0 <= t < s.len() && s[t] == '}' {
                                    finish_msg(data, t + 1)
                                } else {
                                    None
                                }
                            },
                        }
                    }
                } else if key == "data"@ {
                    if data is Some {
                        None
                    } else {
                        match spec_book(s, v) {
                            None => None,
                            Some((val, b)) => {
                                let t = skip_ws(s, b);
                                if 0 <= t < s.len() && s[t] == ',' {
                                    msg_fields(s, t + 1, chan_seen, Some(val))
                                } else if 0 <= t < s.len() && s[t] == '}' {
                                    finish_msg(Some(val), t + 1)
                                } else {
                                    None
                                }
                            },
                        }
                    }
                } else {
                    None
                }
            }
        },
    }
}

/// A closed message object is complete when its `data` field was read.
pub open spec fn finish_msg(
    data: Option<(Seq<char>, Seq<Seq<(Seq<char>, Seq<char>, int)>>, int)>,
    next: int,
) -> Option<((Seq<char>, Seq<Seq<(Seq<char>, Seq<char>, int)>>, int), int)> {
    match data {
        Some(d) => Some((d, next)),
        None => None,
    }
}

/// The message object.
pub open spec fn spec_msg(s: Seq<char>, i: int) -> Option<
    ((Seq<char>, Seq<Seq<(Seq<char>, Seq<char>, int)>>, int), int),
> {
    if 0 <= i < s.len() && s[i] == '{' {
        msg_fields(s, i + 1, false, None)
    } else {
        None
    }
}

/// What decoding a whole message yields: the book of the `data` field when
/// the text is one message object with nothing but whitespace around it,
/// nothing otherwise.
pub open spec fn spec_decode(s: Seq<char>) -> Option<
    (Seq<char>, Seq<Seq<(Seq<char>, Seq<char>, int)>>, int),
> {
    let i = skip_ws(s, 0);
    match spec_msg(s, i) {
        None => None,
        Some((b, j)) => {
            if skip_ws(s, j) == s.len() {
                Some(b)
            } else {
                None
            }
        },
    }
}

/// An optional owned string, read as mathematics.
pub open spec fn opt_str(o: Option<String>) -> Option<Seq<char>> {
    match o {
        Option::None => Option::None,
        Option::Some(v) => Option::Some(v@),
    }
}

/// An optional machine integer, read as mathematics.
pub open spec fn opt_i64(o: Option<i64>) -> Option<int> {
    match o {
        Option::None => Option::None,
        Option::Some(v) => Option::Some(v as int),
    }
}

/// An optional decoded book, read as mathematics.
pub open spec fn opt_book(o: Option<(String, Vec<Vec<RawLevel>>, i64)>) -> Option<
    (Seq<char>, Seq<Seq<(Seq<char>, Seq<char>, int)>>, int),
> {
    match o {
        Option::None => Option::None,
        Option::Some(b) => Option::Some((b.0@, b.1@.map_values(|g: Vec<RawLevel>| group_view(g)), b.2 as int)),
    }
}

fn ws_char(c: char) -> (r: bool)
    ensures
        r == is_ws(c),
{
    c == ' ' || c == '\t' || c == '\n' || c == '\r'
}

fn ws_to(s: &str, n: usize, i: usize) -> (r: usize)
    requires
        n == s@.len(),
        i <= n,
    ensures
        r as int == skip_ws(s@, i as int),
        i <= r <= n,
{
    let mut cur = i;
    while cur < n && ws_char(s.get_char(cur))
        invariant
            i <= cur <= n,
            n == s@.len(),
            skip_ws(s@, i as int) == skip_ws(s@, cur as int),
        decreases n - cur,
    {
        cur = cur + 1;
    }
    cur
}

fn p_string(s: &str, n: usize, i: usize) -> (r: Option<(String, usize)>)
    requires
        n == s@.len(),
        i <= n,
    ensures
        match r {
            Some(v) => spec_string(s@, i as int) == Some((v.0@, v.1 as int)) && i < v.1 <= n,
            None => spec_string(s@, i as int) is None,
        },
{
    if i < n && s.get_char(i) == '"' {
        let mut e = i + 1;
        while e < n && s.get_char(e) != '"' && s.get_char(e) != '\\'
            invariant
                i + 1 <= e <= n,
                n == s@.len(),
                scan_str(s@, i as int + 1) == scan_str(s@, e as int),
            decreases n - e,
        {
            e = e + 1;
        }
        if e < n && s.get_char(e) == '"' {
            let v = s.substring_char(i + 1, e).to_owned();
            Some((v, e + 1))
        } else {
            None
        }
    } else {
        None
    }
}

fn digit_of(c: char) -> (r: Option<u64>)
    ensures
        r is Some <==> is_digit(c),
        r is Some ==> r->0 == crate::fixed::digit_val(c) && r->0 < 10,
{
    if c >= '0' && c <= '9' {
        Some((c as u32 - 48) as u64)
    } else {
        None
    }
}

fn is_digit_exec(c: char) -> (r: bool)
    ensures
        r == is_digit(c),
{
    c >= '0' && c <= '9'
}

fn p_int(s: &str, n: usize, i: usize) -> (r: Option<(i64, usize)>)
    requires
        n == s@.len(),
        i <= n,
    ensures
        match r {
            Some(v) => spec_int(s@, i as int) == Some((v.0 as int, v.1 as int)) && i < v.1 <= n,
            None => spec_int(s@, i as int) is None,
        },
{
    let neg = i < n && s.get_char(i) == '-';
    let d0 = if neg {
        i + 1
    } else {
        i
    };
    let mut cur = d0;
    let mut acc: u64 = 0;
    while cur < n && is_digit_exec(s.get_char(cur))
        invariant
            d0 <= cur <= n,
            d0 <= n,
            n == s@.len(),
            scan_digits(s@, d0 as int) == scan_digits(s@, cur as int),
            forall|j: int| d0 <= j < cur ==> is_digit(#[trigger] s@[j]),
            cur - d0 <= 18 ==> acc as int == digits_val(s@.subrange(d0 as int, cur as int))
                && acc < pow10(cur - d0),
        decreases n - cur,
    {
        let c = s.get_char(cur);
        if cur - d0 < 18 {
            proof {
                assert(pow10(18) == 1_000_000_000_000_000_000) by {
                    reveal_with_fuel(pow10, 20);
                }
                crate::fixed::lemma_pow10_mono(cur - d0 + 1, 18);
                assert(s@.subrange(d0 as int, cur as int + 1).drop_last() =~= s@.subrange(
                    d0 as int,
                    cur as int,
                ));
                assert(s@.subrange(d0 as int, cur as int + 1).last() == s@[cur as int]);
            }
            let d = (c as u32 - 48) as u64;
            acc = acc * 10 + d;
        }
        cur = cur + 1;
    }
    let len = cur - d0;
    if len < 1 || len > 18 {
        return None;
    }
    proof {
        assert(pow10(18) == 1_000_000_000_000_000_000) by {
            reveal_with_fuel(pow10, 20);
        }
        crate::fixed::lemma_pow10_mono(len as int, 18);
        assert(acc < 1_000_000_000_000_000_000);
    }
    let v: i64 = if neg {
        -(acc as i64)
    } else {
        acc as i64
    };
    Some((v, cur))
}

fn p_level(s: &str, n: usize, i: usize) -> (r: Option<(RawLevel, usize)>)
    requires
        n == s@.len(),
        i <= n,
    ensures
        match r {
            Some(v) => spec_level(s@, i as int) == Some((level_view(v.0), v.1 as int)) && i < v.1
                <= n,
            None => spec_level(s@, i as int) is None,
        },
{
    if !(i < n && s.get_char(i) == '{') {
        return None;
    }
    let mut cur = i + 1;
    let mut px: Option<String> = None;
    let mut sz: Option<String> = None;
    let mut nn: Option<i64> = None;
    loop
        invariant
            i < cur <= n,
            n == s@.len(),
            i < n,
            spec_level(s@, i as int) == level_fields(
                s@,
                cur as int,
                opt_str(px),
                opt_str(sz),
                opt_i64(nn),
            ),
        decreases (if px is None {
            1int
        } else {
            0int
        }) + (if sz is None {
            1int
        } else {
            0int
        }) + (if nn is None {
            1int
        } else {
            0int
        }),
    {
        let k = ws_to(s, n, cur);
        let key_r = p_string(s, n, k);
        match key_r {
            None => {
                return None;
            },
            Some((key, a)) => {
                let c = ws_to(s, n, a);
                if !(c < n && s.get_char(c) == ':') {
                    return None;
                }
                let v = ws_to(s, n, c + 1);
                let kpx = String::from_str("px");
                let ksz = String::from_str("sz");
                let kn = String::from_str("n");
                if key == kpx {
                    if px.is_some() {
                        return None;
                    }
                    match p_string(s, n, v) {
                        None => {
                            return None;
                        },
                        Some((val, b)) => {
                            let t = ws_to(s, n, b);
                            if t < n && s.get_char(t) == ',' {
                                px = Some(val);
                                cur = t + 1;
                            } else if t < n && s.get_char(t) == '}' {
                                if sz.is_some() && nn.is_some() {
                                    let z = sz.unwrap();
                                    let m = nn.unwrap();
                                    return Some((RawLevel { px: val, sz: z, n: m }, t + 1));
                                }
                                return None;
                            } else {
                                return None;
                            }
                        },
                    }
                } else if key == ksz {
                    if sz.is_some() {
                        return None;
                    }
                    match p_string(s, n, v) {
                        None => {
                            return None;
                        },
                        Some((val, b)) => {
                            let t = ws_to(s, n, b);
                            if t < n && s.get_char(t) == ',' {
                                sz = Some(val);
                                cur = t + 1;
                            } else if t < n && s.get_char(t) == '}' {
                                if px.is_some() && nn.is_some() {
                                    let p = px.unwrap();
                                    let m = nn.unwrap();
                                    return Some((RawLevel { px: p, sz: val, n: m }, t + 1));
                                }
                                return None;
                            } else {
                                return None;
                            }
                        },
                    }
                } else if key == kn {
                    if nn.is_some() {
                        return None;
                    }
                    match p_int(s, n, v) {
                        None => {
                            return None;
                        },
                        Some((val, b)) => {
                            let t = ws_to(s, n, b);
                            if t < n && s.get_char(t) == ',' {
                                nn = Some(val);
                                cur = t + 1;
                            } else if t < n && s.get_char(t) == '}' {
                                if px.is_some() && sz.is_some() {
                                    let p = px.unwrap();
                                    let z = sz.unwrap();
                                    return Some((RawLevel { px: p, sz: z, n: val }, t + 1));
                                }
                                return None;
                            } else {
                                return None;
                            }
                        },
                    }
                } else {
                    return None;
                }
            },
        }
    }
}

fn p_group(s: &str, n: usize, i: usize) -> (r: Option<(Vec<RawLevel>, usize)>)
    requires
        n == s@.len(),
        i <= n,
    ensures
        match r {
            Some(v) => spec_group(s@, i as int) == Some((group_view(v.0), v.1 as int)) && i < v.1
                <= n,
            None => spec_group(s@, i as int) is None,
        },
{
    if !(i < n && s.get_char(i) == '[') {
        return None;
    }
    let a = ws_to(s, n, i + 1);
    if a < n && s.get_char(a) == ']' {
        let empty: Vec<RawLevel> = Vec::new();
        proof {
            assert(group_view(empty) =~= Seq::<(Seq<char>, Seq<char>, int)>::empty());
        }
        return Some((empty, a + 1));
    }
    let mut acc: Vec<RawLevel> = Vec::new();
    let mut cur = a;
    proof {
        assert(group_view(acc) =~= Seq::<(Seq<char>, Seq<char>, int)>::empty());
    }
    loop
        invariant
            i < cur <= n,
            a <= cur,
            n == s@.len(),
            spec_group(s@, i as int) == group_items(s@, cur as int, group_view(acc)),
        decreases n - cur,
    {
        match p_level(s, n, cur) {
            None => {
                return None;
            },
            Some((lv, j)) => {
                let t = ws_to(s, n, j);
                if t < n && s.get_char(t) == ',' {
                    let k = ws_to(s, n, t + 1);
                    proof {
                        assert(acc@.push(lv).map_values(|l: RawLevel| level_view(l)) =~= group_view(
                            acc,
                        ).push(level_view(lv)));
                    }
                    acc.push(lv);
                    cur = k;
                } else if t < n && s.get_char(t) == ']' {
                    proof {
                        assert(acc@.push(lv).map_values(|l: RawLevel| level_view(l)) =~= group_view(
                            acc,
                        ).push(level_view(lv)));
                    }
                    acc.push(lv);
                    return Some((acc, t + 1));
                } else {
                    return None;
                }
            },
        }
    }
}

fn p_groups(s: &str, n: usize, i: usize) -> (r: Option<(Vec<Vec<RawLevel>>, usize)>)
    requires
        n == s@.len(),
        i <= n,
    ensures
        match r {
            Some(v) => spec_groups(s@, i as int) == Some(
                (v.0@.map_values(|g: Vec<RawLevel>| group_view(g)), v.1 as int),
            ) && i < v.1 <= n,
            None => spec_groups(s@, i as int) is None,
        },
{
    if !(i < n && s.get_char(i) == '[') {
        return None;
    }
    let a = ws_to(s, n, i + 1);
    if a < n && s.get_char(a) == ']' {
        let empty: Vec<Vec<RawLevel>> = Vec::new();
        proof {
            assert(empty@.map_values(|g: Vec<RawLevel>| group_view(g)) =~= Seq::<
                Seq<(Seq<char>, Seq<char>, int)>,
            >::empty());
        }
        return Some((empty, a + 1));
    }
    let mut acc: Vec<Vec<RawLevel>> = Vec::new();
    let mut cur = a;
    proof {
        assert(acc@.map_values(|g: Vec<RawLevel>| group_view(g)) =~= Seq::<
            Seq<(Seq<char>, Seq<char>, int)>,
        >::empty());
    }
    loop
        invariant
            i < cur <= n,
            a <= cur,
            n == s@.len(),
            spec_groups(s@, i as int) == groups_items(
                s@,
                cur as int,
                acc@.map_values(|g: Vec<RawLevel>| group_view(g)),
            ),
        decreases n - cur,
    {
        match p_group(s, n, cur) {
            None => {
                return None;
            },
            Some((g, j)) => {
                let t = ws_to(s, n, j);
                if t < n && s.get_char(t) == ',' {
                    let k = ws_to(s, n, t + 1);
                    proof {
                        assert(acc@.push(g).map_values(|x: Vec<RawLevel>| group_view(x))
                            =~= acc@.map_values(|x: Vec<RawLevel>| group_view(x)).push(
                            group_view(g),
                        ));
                    }
                    acc.push(g);
                    cur = k;
                } else if t < n && s.get_char(t) == ']' {
                    proof {
                        assert(acc@.push(g).map_values(|x: Vec<RawLevel>| group_view(x))
                            =~= acc@.map_values(|x: Vec<RawLevel>| group_view(x)).push(
                            group_view(g),
                        ));
                    }
                    acc.push(g);
                    return Some((acc, t + 1));
                } else {
                    return None;
                }
            },
        }
    }
}

fn p_book(s: &str, n: usize, i: usize) -> (r: Option<((String, Vec<Vec<RawLevel>>, i64), usize)>)
    requires
        n == s@.len(),
        i <= n,
    ensures
        match r {
            Some(v) => spec_book(s@, i as int) == Some(
                (
                    (v.0.0@, v.0.1@.map_values(|g: Vec<RawLevel>| group_view(g)), v.0.2 as int),
                    v.1 as int,
                ),
            ) && i < v.1 <= n,
            None => spec_book(s@, i as int) is None,
        },
{
    if !(i < n && s.get_char(i) == '{') {
        return None;
    }
    let mut cur = i + 1;
    let mut coin: Option<String> = None;
    let mut gs: Option<Vec<Vec<RawLevel>>> = None;
    let mut time: Option<i64> = None;
    loop
        invariant
            i < cur <= n,
            n == s@.len(),
            i < n,
            spec_book(s@, i as int) == book_fields(
                s@,
                cur as int,
                opt_str(coin),
                match gs {
                    Option::None => Option::None,
                    Option::Some(v) => Option::Some(
                        v@.map_values(|g: Vec<RawLevel>| group_view(g)),
                    ),
                },
                opt_i64(time),
            ),
        decreases (if coin is None {
            1int
        } else {
            0int
        }) + (if gs is None {
            1int
        } else {
            0int
        }) + (if time is None {
            1int
        } else {
            0int
        }),
    {
        let k = ws_to(s, n, cur);
        let key_r = p_string(s, n, k);
        match key_r {
            None => {
                return None;
            },
            Some((key, a)) => {
                let c = ws_to(s, n, a);
                if !(c < n && s.get_char(c) == ':') {
                    return None;
                }
                let v = ws_to(s, n, c + 1);
                let kcoin = String::from_str("coin");
                let klevels = String::from_str("levels");
                let ktime = String::from_str("time");
                if key == kcoin {
                    if coin.is_some() {
                        return None;
                    }
                    match p_string(s, n, v) {
                        None => {
                            return None;
                        },
                        Some((val, b)) => {
                            let t = ws_to(s, n, b);
                            if t < n && s.get_char(t) == ',' {
                                coin = Some(val);
                                cur = t + 1;
                            } else if t < n && s.get_char(t) == '}' {
                                if gs.is_some() && time.is_some() {
                                    let g = gs.unwrap();
                                    let m = time.unwrap();
                                    return Some(((val, g, m), t + 1));
                                }
                                return None;
                            } else {
                                return None;
                            }
                        },
                    }
                } else if key == klevels {
                    if gs.is_some() {
                        return None;
                    }
                    match p_groups(s, n, v) {
                        None => {
                            return None;
                        },
                        Some((val, b)) => {
                            let t = ws_to(s, n, b);
                            if t < n && s.get_char(t) == ',' {
                                gs = Some(val);
                                cur = t + 1;
                            } else if t < n && s.get_char(t) == '}' {
                                if coin.is_some() && time.is_some() {
                                    let cn = coin.unwrap();
                                    let m = time.unwrap();
                                    return Some(((cn, val, m), t + 1));
                                }
                                return None;
                            } else {
                                return None;
                            }
                        },
                    }
                } else if key == ktime {
                    if time.is_some() {
                        return None;
                    }
                    match p_int(s, n, v) {
                        None => {
                            return None;
                        },
                        Some((val, b)) => {
                            let t = ws_to(s, n, b);
                            if t < n && s.get_char(t) == ',' {
                                time = Some(val);
                                cur = t + 1;
                            } else if t < n && s.get_char(t) == '}' {
                                if coin.is_some() && gs.is_some() {
                                    let cn = coin.unwrap();
                                    let g = gs.unwrap();
                                    return Some(((cn, g, val), t + 1));
                                }
                                return None;
                            } else {
                                return None;
                            }
                        },
                    }
                } else {
                    return None;
                }
            },
        }
    }
}

fn p_msg(s: &str, n: usize, i: usize) -> (r: Option<((String, Vec<Vec<RawLevel>>, i64), usize)>)
    requires
        n == s@.len(),
        i <= n,
    ensures
        match r {
            Some(v) => spec_msg(s@, i as int) == Some(
                (
                    (v.0.0@, v.0.1@.map_values(|g: Vec<RawLevel>| group_view(g)), v.0.2 as int),
                    v.1 as int,
                ),
            ) && i < v.1 <= n,
            None => spec_msg(s@, i as int) is None,
        },
{
    if !(i < n && s.get_char(i) == '{') {
        return None;
    }
    let mut cur = i + 1;
    let mut chan_seen = false;
    let mut data: Option<(String, Vec<Vec<RawLevel>>, i64)> = None;
    loop
        invariant
            i < cur <= n,
            n == s@.len(),
            i < n,
            spec_msg(s@, i as int) == msg_fields(s@, cur as int, chan_seen, opt_book(data)),
        decreases (if chan_seen {
            0int
        } else {
            1int
        }) + (if data is None {
            1int
        } else {
            0int
        }),
    {
        let k = ws_to(s, n, cur);
        let key_r = p_string(s, n, k);
        match key_r {
            None => {
                return None;
            },
            Some((key, a)) => {
                let c = ws_to(s, n, a);
                if !(c < n && s.get_char(c) == ':') {
                    return None;
                }
                let v = ws_to(s, n, c + 1);
                let kchan = String::from_str("channel");
                let kdata = String::from_str("data");
                if key == kchan {
                    if chan_seen {
                        return None;
                    }
                    match p_string(s, n, v) {
                        None => {
                            return None;
                        },
                        Some((_val, b)) => {
                            let t = ws_to(s, n, b);
                            if t < n && s.get_char(t) == ',' {
                                chan_seen = true;
                                cur = t + 1;
                            } else if t < n && s.get_char(t) == '}' {
                                if data.is_some() {
                                    let d = data.unwrap();
                                    return Some((d, t + 1));
                                }
                                return None;
                            } else {
                                return None;
                            }
                        },
                    }
                } else if key == kdata {
                    if data.is_some() {
                        return None;
                    }
                    match p_book(s, n, v) {
                        None => {
                            return None;
                        },
                        Some((val, b)) => {
                            let t = ws_to(s, n, b);
                            if t < n && s.get_char(t) == ',' {
                                data = Some(val);
                                cur = t + 1;
                            } else if t < n && s.get_char(t) == '}' {
                                return Some((val, t + 1));
                            } else {
                                return None;
                            }
                        },
                    }
                } else {
                    return None;
                }
            },
        }
    }
}

/// Decodes one feed message.
///
/// Returns the update exactly when the text is one message object of the
/// wire shape, and nothing otherwise; a discarded message leaves no trace.
pub fn decode_message(s: &str) -> (r: Option<UpdateRecord>)
    ensures
        match r {
            Some(u) => spec_decode(s@) == Some(update_view(u)),
            None => spec_decode(s@) is None,
        },
{
    let n = s.unicode_len();
    let i = ws_to(s, n, 0);
    match p_msg(s, n, i) {
        None => None,
        Some((b, j)) => {
            let e = ws_to(s, n, j);
            if e == n {
                let (coin, levels, time) = b;
                Some(UpdateRecord { coin, time, levels })
            } else {
                None
            }
        },
    }
}

} // verus!
