//! The central design tokens as plain values, and the repository-state
//! vocabulary shared by dots, badges and summaries. A color is a
//! premultiplied RGBA value packed as `0xRRGGBBAA`.

use vstd::prelude::*;

use crate::domain::Root;

verus! {

/// The single central token set (Darcula-derived dark).
pub struct Palette;

impl Palette {
    /// Fully transparent.
    pub const TRANSPARENT: u32 = 0x0000_0000;
    /// App background, panel fill.
    pub const BG: u32 = 0x1e1f_22ff;
    /// Topbar, headers, dialogs.
    pub const SURFACE: u32 = 0x2b2d_30ff;
    /// Hover fills, secondary buttons.
    pub const SURFACE_2: u32 = 0x3134_38ff;
    /// Inputs, popovers.
    pub const SURFACE_3: u32 = 0x3c3f_41ff;
    /// Primary borders.
    pub const LINE: u32 = 0x4e51_57ff;
    /// Subtle row separators.
    pub const LINE_SUBTLE: u32 = 0x3638_3cff;
    /// Sidebar surface.
    pub const SIDEBAR: u32 = 0x1b1c_1eff;
    /// Primary actions, selection, links.
    pub const BRAND: u32 = 0x3574_f0ff;
    /// Text on brand-colored fills (white).
    pub const BRAND_INK: u32 = 0xffff_ffff;
    /// Success.
    pub const STATE_SUCCESS: u32 = 0x4caf_50ff;
    /// Warning.
    pub const STATE_WARNING: u32 = 0xf9a8_25ff;
    /// Error.
    pub const STATE_ERROR: u32 = 0xef53_50ff;
    /// Info.
    pub const STATE_INFO: u32 = 0x42a5_f5ff;
    /// Local branch has diverged from upstream (the error tone).
    pub const STATUS_DIVERGED: u32 = 0xef53_50ff;
    /// Window / bars.
    pub const WINDOW_BG: u32 = 0x1a1b_1eff;
    /// Panel.
    pub const PANEL_BG: u32 = 0x1e20_23ff;
    /// Content.
    pub const CONTENT_BG: u32 = 0x2325_29ff;
    /// Raised control (the surface tone).
    pub const RAISED: u32 = 0x2b2d_30ff;
    /// Selection: the active row/pill.
    pub const SELECTION: u32 = 0x2e43_69ff;
    /// Group-label band.
    pub const SECTION_BG: u32 = 0x1f23_2cff;
    /// Divider (the raised tone).
    pub const DIVIDER: u32 = 0x2b2d_30ff;
    /// Accent / primary action (the brand tone).
    pub const ACCENT: u32 = 0x3574_f0ff;
    /// Ahead counts, current-branch icon, "in sync".
    pub const AHEAD: u32 = 0x5fa8_6cff;
    /// Behind counts, dirty markers.
    pub const BEHIND: u32 = 0xdca3_4eff;
    /// Danger: Delete only.
    pub const DANGER: u32 = 0xdb5c_5cff;
    /// Link / hash.
    pub const LINK: u32 = 0x74a3_e8ff;
    /// Primary text.
    pub const T_PRIMARY: u32 = 0xdfe1_e5ff;
    /// Secondary text.
    pub const T_SECONDARY: u32 = 0xb0b3_bbff;
    /// Muted text.
    pub const T_MUTED: u32 = 0xaeb2_baff;
    /// Readable accent ink.
    pub const ACCENT_TEXT: u32 = 0x8bb5_f5ff;
    /// Dirty/unpulled counter orange.
    pub const COUNTER: u32 = 0xe088_3cff;
    /// Modified file letter.
    pub const STATUS_MODIFIED: u32 = 0xa8c0_e8ff;
    /// Added file letter.
    pub const STATUS_ADDED: u32 = 0x5796_5cff;
    /// Unversioned file letter.
    pub const STATUS_UNVERSIONED: u32 = 0xb5b3_7eff;
    /// Primary ink.
    pub const INK: u32 = Palette::T_PRIMARY;
    /// Secondary ink.
    pub const INK_2: u32 = Palette::T_SECONDARY;
    /// Tertiary (muted) ink.
    pub const INK_3: u32 = Palette::T_MUTED;
    /// Low risk.
    pub const RISK_LOW: u32 = Palette::STATE_SUCCESS;
    /// Medium risk.
    pub const RISK_MEDIUM: u32 = Palette::STATE_WARNING;
    /// High risk.
    pub const RISK_HIGH: u32 = Palette::STATE_ERROR;
    /// A clean repository.
    pub const STATUS_CLEAN: u32 = Palette::STATE_SUCCESS;
    /// A dirty repository.
    pub const STATUS_DIRTY: u32 = Palette::STATE_WARNING;
    /// A stale repository.
    pub const STATUS_STALE: u32 = Palette::STATE_INFO;
    /// Added-line background.
    pub const DIFF_ADD_BG: u32 = 0x344f_3eff;
    /// Added-line text.
    pub const DIFF_ADD_TEXT: u32 = 0x85e8_9dff;
    /// Deleted-line background.
    pub const DIFF_DEL_BG: u32 = 0x5a3a_3aff;
    /// Deleted-line text.
    pub const DIFF_DEL_TEXT: u32 = 0xff9a_9aff;
    /// Added-line accent.
    pub const DIFF_ADD_ACCENT: u32 = 0x5796_5cff;
    /// Added-line block.
    pub const DIFF_ADD_BLOCK: u32 = 0x2e43_34ff;
    /// Removed-line accent.
    pub const DIFF_DEL_ACCENT: u32 = 0xf754_64ff;
    /// Removed-line block.
    pub const DIFF_DEL_BLOCK: u32 = 0x4330_34ff;
    /// Solid row-selection background, equal to the selection fill.
    pub const SELECTION_BG: u32 = Palette::SELECTION;

    /// Selected-row fill: the brand at about 25% premultiplied alpha.
    pub fn selection_bg() -> (r: u32)
        ensures
            r == 0x0d1d_3c40u32,
    {
        0x0d1d_3c40
    }
}

/// The accent color: the brand tone.
pub fn accent() -> (r: u32)
    ensures
        r == Palette::BRAND,
{
    Palette::BRAND
}

/// The muted icon and foreground tint that reads well on the dark palette.
pub fn icon_color() -> (r: u32)
    ensures
        r == Palette::INK_2,
{
    Palette::INK_2
}

/// Shared repository-state vocabulary for dots, badges and summaries.
#[derive(Debug, Clone, Copy, PartialEq, Eq, PartialOrd, Ord, Hash, Structural)]
pub enum RepoState {
    Clean,
    Dirty,
    Conflict,
    Diverged,
    Unpushed,
    Unpulled,
}

/// The words for each state.
pub open spec fn state_words(s: RepoState) -> Seq<char> {
    match s {
        RepoState::Clean => "in sync"@,
        RepoState::Dirty => "dirty worktree"@,
        RepoState::Conflict => "has conflicts"@,
        RepoState::Diverged => "diverged"@,
        RepoState::Unpushed => "unpushed commits"@,
        RepoState::Unpulled => "unpulled commits"@,
    }
}

/// The state of a repository: conflicts and local edits take precedence
/// over upstream drift.
pub open spec fn state_of(conflicted: nat, dirty: nat, ahead: nat, behind: nat) -> RepoState {
    if conflicted > 0 {
        RepoState::Conflict
    } else if dirty > 0 {
        RepoState::Dirty
    } else if ahead > 0 && behind > 0 {
        RepoState::Diverged
    } else if behind > 0 {
        RepoState::Unpulled
    } else if ahead > 0 {
        RepoState::Unpushed
    } else {
        RepoState::Clean
    }
}

impl RepoState {
    /// The state in words, beside [`RepoState::color`] so a dot and the
    /// summary next to it can never disagree.
    pub fn words(self) -> (r: &'static str)
        ensures
            r@ == state_words(self),
    {
        match self {
            Self::Clean => "in sync",
            Self::Dirty => "dirty worktree",
            Self::Conflict => "has conflicts",
            Self::Diverged => "diverged",
            Self::Unpushed => "unpushed commits",
            Self::Unpulled => "unpulled commits",
        }
    }

    /// The state's dot color.
    pub fn color(self) -> (r: u32)
        ensures
            r == match self {
                RepoState::Clean | RepoState::Unpushed => Palette::AHEAD,
                RepoState::Dirty | RepoState::Unpulled => Palette::COUNTER,
                RepoState::Conflict | RepoState::Diverged => Palette::STATUS_DIVERGED,
            },
    {
        match self {
            Self::Clean | Self::Unpushed => Palette::AHEAD,
            Self::Dirty | Self::Unpulled => Palette::COUNTER,
            Self::Conflict | Self::Diverged => Palette::STATUS_DIVERGED,
        }
    }

    /// The state of `root` whose current branch is `ahead`/`behind` its
    /// upstream.
    pub fn from_root(root: &Root, ahead: usize, behind: usize) -> (r: Self)
        ensures
            r == state_of(
                root.status.conflicted as nat,
                (root.status.modified + root.status.unversioned) as nat,
                ahead as nat,
                behind as nat,
            ),
    {
        if root.status.conflicted > 0 {
            Self::Conflict
        } else if root.status.modified > 0 || root.status.unversioned > 0 {
            Self::Dirty
        } else if ahead > 0 && behind > 0 {
            Self::Diverged
        } else if behind > 0 {
            Self::Unpulled
        } else if ahead > 0 {
            Self::Unpushed
        } else {
            Self::Clean
        }
    }
}

} // verus!
