//! The window's size and the labels of the browser buttons.

use vstd::prelude::*;
use crate::text::{first_chars, flip_browser_name, flipped_name, truncate_chars};

verus! {

/// Browser buttons per row.
pub const BUTTONS_PER_ROW: i32 = 3;

/// The rows that `count` browser buttons take, three to a row; at least one row.
pub open spec fn browser_rows(count: int) -> int {
    if count > 0 {
        (count + 2) / 3
    } else {
        1
    }
}

/// The height that the window's parts add up to for `count` browsers: the headline and its
/// buttons (70), the share and copy buttons (70), the rows of browser buttons (40 each, 5
/// between rows), and the padding (4 times 20, and 60).
pub open spec fn natural_height(count: int) -> int {
    let rows = browser_rows(count);
    70 + 70 + rows * 40 + (rows - 1) * 5 + 20 * 4 + 60
}

/// The window's height for `count` browsers: the natural height, kept between 350 and 800.
pub open spec fn window_height_spec(count: int) -> int {
    let h = natural_height(count);
    if h < 350 {
        350
    } else if h > 800 {
        800
    } else {
        h
    }
}

/// The window's height for `browser_count` stored browsers.
pub fn window_height(browser_count: i32) -> (h: i32)
    ensures
        h == window_height_spec(browser_count as int),
        350 <= h <= 800,
{
    if browser_count > 100 {
        return 800;
    }
    let rows: i32 = if browser_count > 0 {
        (browser_count + 2) / 3
    } else {
        1
    };
    let h: i32 = 70 + 70 + rows * 40 + (rows - 1) * 5 + 20 * 4 + 60;
    if h < 350 {
        350
    } else if h > 800 {
        800
    } else {
        h
    }
}

/// More browsers never make the window lower.
pub proof fn lemma_window_height_monotone(a: int, b: int)
    requires
        a <= b,
    ensures
        window_height_spec(a) <= window_height_spec(b),
{
    assert(browser_rows(a) <= browser_rows(b));
}

/// The most characters of a browser's name that its button shows.
pub const BROWSER_LABEL_CHARS: usize = 10;

/// The label of a browser's button: its name with the word order reversed, cut to ten
/// characters.
pub fn browser_button_label(name: &str) -> (label: String)
    ensures
        label@ == first_chars(flipped_name(name@), BROWSER_LABEL_CHARS as nat),
{
    let flipped = flip_browser_name(name);
    truncate_chars(flipped.as_str(), BROWSER_LABEL_CHARS)
}

} // verus!
