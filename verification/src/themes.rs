//! The theme name cycle. Colors belong to the rendering collaborator;
//! the ordered list of theme names and the next/previous stepping are
//! plain values and live here.

use vstd::prelude::*;

use crate::strutil::str_eq;

verus! {

/// The selectable theme names, in cycling order.
pub open spec fn theme_names() -> Seq<Seq<char>> {
    seq![
        "one-dark"@,
        "github-dark"@,
        "dracula"@,
        "catppuccin-mocha"@,
        "tokyo-night"@,
        "solarized-dark"@,
    ]
}

/// The position of `name` in the cycle; unknown names count as the first.
pub open spec fn theme_index_of(name: Seq<char>) -> int {
    if name == theme_names()[0] {
        0
    } else if name == theme_names()[1] {
        1
    } else if name == theme_names()[2] {
        2
    } else if name == theme_names()[3] {
        3
    } else if name == theme_names()[4] {
        4
    } else if name == theme_names()[5] {
        5
    } else {
        0
    }
}

/// The theme name at a cycle position.
fn theme_name_at(idx: usize) -> (r: &'static str)
    requires
        idx < 6,
    ensures
        r@ == theme_names()[idx as int],
{
    if idx == 0 {
        "one-dark"
    } else if idx == 1 {
        "github-dark"
    } else if idx == 2 {
        "dracula"
    } else if idx == 3 {
        "catppuccin-mocha"
    } else if idx == 4 {
        "tokyo-night"
    } else {
        "solarized-dark"
    }
}

/// The position of `current` in the cycle; unknown names count as the
/// first.
fn theme_index(current: &str) -> (r: usize)
    ensures
        r as int == theme_index_of(current@),
        r < 6,
{
    if str_eq(current, "one-dark") {
        0
    } else if str_eq(current, "github-dark") {
        1
    } else if str_eq(current, "dracula") {
        2
    } else if str_eq(current, "catppuccin-mocha") {
        3
    } else if str_eq(current, "tokyo-night") {
        4
    } else if str_eq(current, "solarized-dark") {
        5
    } else {
        0
    }
}

/// The next theme in the cycle, wrapping at the end.
pub fn next_theme(current: &str) -> (r: &'static str)
    ensures
        r@ == theme_names()[(theme_index_of(current@) + 1) % 6],
{
    let idx = theme_index(current);
    theme_name_at((idx + 1) % 6)
}

/// The previous theme in the cycle, wrapping at the start.
pub fn prev_theme(current: &str) -> (r: &'static str)
    ensures
        r@ == theme_names()[if theme_index_of(current@) == 0 {
            5int
        } else {
            theme_index_of(current@) - 1
        }],
{
    let idx = theme_index(current);
    if idx == 0 {
        theme_name_at(5)
    } else {
        theme_name_at(idx - 1)
    }
}

} // verus!
