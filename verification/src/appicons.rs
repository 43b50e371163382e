//! Built-in application icons detected from terminal titles.

use vstd::prelude::*;

verus! {

use crate::icons::lower_of;
use crate::icons::lowercase;
use crate::strutil::chars_of;
use crate::strutil::contains_seq;
use crate::strutil::seq_contains;

/// Known application icons.
#[derive(Clone, Copy, PartialEq, Eq, Structural)]
pub enum AppIcon {
    Neovim,
}

impl AppIcon {
    /// The image URI under which this icon's bytes are registered.
    pub fn image_uri(&self) -> (r: &'static str)
        ensures
            r@ == "bytes://neovim_icon"@,
    {
        match self {
            AppIcon::Neovim => "bytes://neovim_icon",
        }
    }
}

/// Detect a known application icon from a terminal title.
pub fn detect_icon(title: &str) -> (r: Option<AppIcon>)
    ensures
        r == if contains_seq(lower_of(title@), "nvim"@) || contains_seq(
            lower_of(title@),
            "neovim"@,
        ) {
            Some(AppIcon::Neovim)
        } else {
            None::<AppIcon>
        },
{
    let lower = lowercase(title);
    let hay = chars_of(lower.as_str());
    let nvim = chars_of("nvim");
    let neovim = chars_of("neovim");
    if seq_contains(&hay, &nvim) || seq_contains(&hay, &neovim) {
        Some(AppIcon::Neovim)
    } else {
        None
    }
}

} // verus!
