//! The extended command set of the command-palette overlay, which also
//! offers move-to-spot, and the palette's render result.

use vstd::prelude::*;

verus! {

/// A command available in the command palette overlay.
#[derive(Clone, Copy, PartialEq, Eq, Structural)]
pub enum Command {
    NewTerminal,
    CloseTerminal,
    FocusPrevious,
    FocusNext,
    SwapWithPrevious,
    SwapWithNext,
    MoveToSpot,
    ShrinkTerminal,
    GrowTerminal,
    FollowMode,
    SetDescription,
}

/// The display name of a palette command.
pub open spec fn spec_name(c: Command) -> Seq<char> {
    match c {
        Command::NewTerminal => "New Terminal"@,
        Command::CloseTerminal => "Close Terminal"@,
        Command::FocusPrevious => "Focus Previous Terminal"@,
        Command::FocusNext => "Focus Next Terminal"@,
        Command::SwapWithPrevious => "Swap with Previous Terminal"@,
        Command::SwapWithNext => "Swap with Next Terminal"@,
        Command::MoveToSpot => "Move to Spot"@,
        Command::ShrinkTerminal => "Shrink Terminal"@,
        Command::GrowTerminal => "Grow Terminal"@,
        Command::FollowMode => "Follow Mode"@,
        Command::SetDescription => "Set Terminal Description"@,
    }
}

/// The keybinding label of a palette command.
pub open spec fn spec_keybinding(c: Command) -> Seq<char> {
    match c {
        Command::NewTerminal => "\u{2318}T"@,
        Command::CloseTerminal => "\u{2318}W"@,
        Command::FocusPrevious => "\u{2318}["@,
        Command::FocusNext => "\u{2318}]"@,
        Command::SwapWithPrevious => "\u{2318}\u{21e7}["@,
        Command::SwapWithNext => "\u{2318}\u{21e7}]"@,
        Command::MoveToSpot => "\u{2318}\u{21e7}J"@,
        Command::ShrinkTerminal => "\u{2318}-"@,
        Command::GrowTerminal => "\u{2318}="@,
        Command::FollowMode => "\u{2318}J"@,
        Command::SetDescription => "\u{2318}D"@,
    }
}

impl Command {
    /// All palette commands, in display order.
    pub fn all() -> (r: Vec<Command>)
        ensures
            r@ == seq![
                Command::NewTerminal,
                Command::CloseTerminal,
                Command::FocusPrevious,
                Command::FocusNext,
                Command::SwapWithPrevious,
                Command::SwapWithNext,
                Command::MoveToSpot,
                Command::ShrinkTerminal,
                Command::GrowTerminal,
                Command::FollowMode,
                Command::SetDescription,
            ],
    {
        let r = vec![
            Command::NewTerminal,
            Command::CloseTerminal,
            Command::FocusPrevious,
            Command::FocusNext,
            Command::SwapWithPrevious,
            Command::SwapWithNext,
            Command::MoveToSpot,
            Command::ShrinkTerminal,
            Command::GrowTerminal,
            Command::FollowMode,
            Command::SetDescription,
        ];
        proof {
            assert(r@ =~= seq![
                Command::NewTerminal,
                Command::CloseTerminal,
                Command::FocusPrevious,
                Command::FocusNext,
                Command::SwapWithPrevious,
                Command::SwapWithNext,
                Command::MoveToSpot,
                Command::ShrinkTerminal,
                Command::GrowTerminal,
                Command::FollowMode,
                Command::SetDescription,
            ]);
        }
        r
    }

    /// The display name of this command.
    pub fn name(&self) -> (r: &'static str)
        ensures
            r@ == spec_name(*self),
    {
        match self {
            Command::NewTerminal => "New Terminal",
            Command::CloseTerminal => "Close Terminal",
            Command::FocusPrevious => "Focus Previous Terminal",
            Command::FocusNext => "Focus Next Terminal",
            Command::SwapWithPrevious => "Swap with Previous Terminal",
            Command::SwapWithNext => "Swap with Next Terminal",
            Command::MoveToSpot => "Move to Spot",
            Command::ShrinkTerminal => "Shrink Terminal",
            Command::GrowTerminal => "Grow Terminal",
            Command::FollowMode => "Follow Mode",
            Command::SetDescription => "Set Terminal Description",
        }
    }

    /// The keybinding label of this command.
    pub fn keybinding(&self) -> (r: &'static str)
        ensures
            r@ == spec_keybinding(*self),
    {
        match self {
            Command::NewTerminal => "\u{2318}T",
            Command::CloseTerminal => "\u{2318}W",
            Command::FocusPrevious => "\u{2318}[",
            Command::FocusNext => "\u{2318}]",
            Command::SwapWithPrevious => "\u{2318}\u{21e7}[",
            Command::SwapWithNext => "\u{2318}\u{21e7}]",
            Command::MoveToSpot => "\u{2318}\u{21e7}J",
            Command::ShrinkTerminal => "\u{2318}-",
            Command::GrowTerminal => "\u{2318}=",
            Command::FollowMode => "\u{2318}J",
            Command::SetDescription => "\u{2318}D",
        }
    }
}

/// Result of rendering the command palette overlay.
pub struct CommandPaletteResult {
    /// Whether the background was clicked (the palette should close).
    pub background_clicked: bool,
    /// Command that was selected, if any.
    pub selected_command: Option<Command>,
}

} // verus!
