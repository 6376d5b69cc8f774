use vstd::prelude::*;

verus! {

/// The oldest neovim release that the application works with.
pub const MINIMUM_SUPPORTED_NVIM_VERSION: &'static str = "0.3.2";

/// The first line of the about text.
pub open spec fn about_heading() -> Seq<char> {
    "Build on top of neovim\nMinimum supported neovim version: "@
}

/// The text shown in the about dialog: where the application comes from and
/// the oldest neovim it supports.
pub fn about_comments() -> (r: String)
    ensures
        r@ == about_heading() + MINIMUM_SUPPORTED_NVIM_VERSION@,
{
    let mut text = "Build on top of neovim\nMinimum supported neovim version: ".to_owned();
    text.append(MINIMUM_SUPPORTED_NVIM_VERSION);
    text
}

} // verus!
