//! Branches-screen component kit: the decision functions behind row fills,
//! sync badges, middle truncation and button states.

use vstd::prelude::*;

use vstd::arithmetic::power2::{lemma2_to64, pow2};

use crate::binary64::{nearest_binary32, nearest_binary32_exec};

use crate::text::{
    chars_of, decimal, push_chars, push_decimal, push_str, string_from, to_upper, uppercase,
};
use crate::theme::Palette;

verus! {

broadcast use vstd::string::group_string_axioms;

/// The three fill states a branch row can be in while idle.
#[derive(Clone, Copy, PartialEq, Eq, Debug, Structural)]
pub enum RowState {
    Default,
    Hover,
    Selected,
}

/// Row fill decision: transparent at rest, the hover fill, then the
/// selection token for the active row.
pub fn row_fill(state: RowState) -> (r: u32)
    ensures
        r == match state {
            RowState::Default => Palette::TRANSPARENT,
            RowState::Hover => Palette::SURFACE_2,
            RowState::Selected => Palette::SELECTION,
        },
{
    match state {
        RowState::Default => Palette::TRANSPARENT,
        RowState::Hover => Palette::SURFACE_2,
        RowState::Selected => Palette::SELECTION,
    }
}

/// Branch-name ink: stale rows dim to muted (never hidden), everything else
/// reads at primary.
pub fn row_ink(stale: bool) -> (r: u32)
    ensures
        r == if stale {
            Palette::T_MUTED
        } else {
            Palette::T_PRIMARY
        },
{
    if stale {
        Palette::T_MUTED
    } else {
        Palette::T_PRIMARY
    }
}

/// Mid-operation label, rendered in place of the row's sync marker.
pub fn mid_op_label(op: &str) -> (r: String)
    ensures
        r@ == op@ + "…"@,
{
    let mut r = string_from(op);
    push_str(&mut r, "…");
    r
}

/// Uppercase section label with the live count (`LOCAL 3`).
pub fn section_label(title: &str, count: usize) -> (r: String)
    ensures
        r@ == to_upper(title@) + " "@ + decimal(count as nat),
{
    let mut r = uppercase(title);
    push_str(&mut r, " ");
    push_decimal(&mut r, count as u64);
    r
}

/// The sync relationship of one branch row.
#[derive(Clone, Copy, PartialEq, Eq, Debug, Structural)]
pub enum SyncKind {
    Ahead,
    Behind,
    Diverged,
    InSync,
    Gone,
}

/// The sync badge of a row that tracks a remote: gone, diverged (`↑a ↓b`),
/// ahead (`↑a`), behind (`↓b`) or in sync.
pub open spec fn sync_badge_spec(ahead: nat, behind: nat, gone: bool) -> (SyncKind, Seq<char>) {
    if gone {
        (SyncKind::Gone, "gone"@)
    } else if ahead > 0 && behind > 0 {
        (SyncKind::Diverged, "↑"@ + decimal(ahead) + " ↓"@ + decimal(behind))
    } else if ahead > 0 {
        (SyncKind::Ahead, "↑"@ + decimal(ahead))
    } else if behind > 0 {
        (SyncKind::Behind, "↓"@ + decimal(behind))
    } else {
        (SyncKind::InSync, "in sync"@)
    }
}

/// The row's sync badge as `(kind, label)`; always present for a row that
/// tracks a remote.
pub fn sync_badge(ahead: usize, behind: usize, gone: bool) -> (r: Option<(SyncKind, String)>)
    ensures
        r matches Some((k, s)) && (k, s@) == sync_badge_spec(ahead as nat, behind as nat, gone),
{
    if gone {
        return Some((SyncKind::Gone, string_from("gone")));
    }
    if ahead > 0 && behind > 0 {
        let mut s = string_from("↑");
        push_decimal(&mut s, ahead as u64);
        push_str(&mut s, " ↓");
        push_decimal(&mut s, behind as u64);
        return Some((SyncKind::Diverged, s));
    }
    if ahead > 0 {
        let mut s = string_from("↑");
        push_decimal(&mut s, ahead as u64);
        return Some((SyncKind::Ahead, s));
    }
    if behind > 0 {
        let mut s = string_from("↓");
        push_decimal(&mut s, behind as u64);
        return Some((SyncKind::Behind, s));
    }
    Some((SyncKind::InSync, string_from("in sync")))
}

/// The meaning token for a sync badge's foreground.
pub fn sync_ink(kind: SyncKind) -> (r: u32)
    ensures
        r == match kind {
            SyncKind::Ahead | SyncKind::InSync => Palette::AHEAD,
            SyncKind::Behind | SyncKind::Diverged => Palette::BEHIND,
            SyncKind::Gone => Palette::DANGER,
        },
{
    match kind {
        SyncKind::Ahead | SyncKind::InSync => Palette::AHEAD,
        SyncKind::Behind | SyncKind::Diverged => Palette::BEHIND,
        SyncKind::Gone => Palette::DANGER,
    }
}

/// How many leading characters a middle truncation keeps: 62% of the budget
/// left beside the ellipsis as `f32` arithmetic gives it (the budget and
/// `0.62f32 = 10401874 / 2^24` as binary32 numbers, their product rounded to
/// binary32), rounded half away from zero, and at least one character on each
/// side.
pub open spec fn head_len(keep: int) -> int {
    let (a, b) = nearest_binary32(keep as nat, 1);
    let (p, q) = nearest_binary32(a * 10401874, b * pow2(24));
    let h = (2 * p + q) / (2 * q);
    if h < 1 {
        1
    } else if h > keep - 1 {
        keep - 1
    } else {
        h as int
    }
}

/// A name truncated in the middle to at most `max_chars` characters
/// (ellipsis included), keeping the distinguishing prefix and suffix.
/// Budgets under 4 keep a head-only slice.
pub open spec fn middle_truncate_spec(name: Seq<char>, max_chars: int) -> Seq<char> {
    if max_chars < 4 {
        name.take(if max_chars < name.len() {
            max_chars
        } else {
            name.len() as int
        })
    } else if name.len() <= max_chars {
        name
    } else {
        let keep = max_chars - 1;
        let head = head_len(keep);
        let tail = keep - head;
        name.take(head) + "…"@ + name.skip(name.len() - tail)
    }
}

/// Truncates a branch name in the middle so both ends stay readable
/// (`feature/multi…executor`), never a bare end ellipsis.
pub fn middle_truncate(name: &str, max_chars: usize) -> (r: String)
    ensures
        r@ == middle_truncate_spec(name@, max_chars as int),
{
    let v = chars_of(name);
    let n = v.len();
    if max_chars < 4 {
        let k = if max_chars < n {
            max_chars
        } else {
            n
        };
        let mut r = String::new();
        push_chars(&mut r, &v, 0, k);
        assert(v@.subrange(0, k as int) =~= v@.take(k as int));
        return r;
    }
    if n <= max_chars {
        let mut r = String::new();
        push_chars(&mut r, &v, 0, n);
        assert(v@.subrange(0, n as int) =~= v@);
        return r;
    }
    let keep = max_chars - 1;
    proof {
        lemma2_to64();
    }
    let (a, b) = nearest_binary32_exec(keep as u128, 1);
    assert((a as nat) * 10401874 <= 0x400_0000_0000_0000_0000_0000) by (nonlinear_arith)
        requires
            (a as nat) <= 0x100_0000 || (a as nat) <= 2 * (keep as nat / 1),
            (keep as nat) <= 0xffff_ffff_ffff_ffff,
    ;
    assert(2 * (a as nat) * 10401874 >= (b as nat) * 0x100_0000) by (nonlinear_arith)
        requires
            a >= b,
    ;
    let (p, q) = nearest_binary32_exec(a * 10401874, b * 0x100_0000);
    let h = (2 * p + q) / (2 * q);
    let head: usize = if h < 1 {
        1
    } else if h > (keep - 1) as u128 {
        keep - 1
    } else {
        h as usize
    };
    assert(head as int == head_len(keep as int));
    let tail = keep - head;
    let mut r = String::new();
    push_chars(&mut r, &v, 0, head);
    push_str(&mut r, "…");
    push_chars(&mut r, &v, n - tail, n);
    assert(v@.subrange(0, head as int) =~= v@.take(head as int));
    assert(v@.subrange(n - tail, n as int) =~= v@.skip(n - tail));
    r
}

/// The interactive state of a control.
#[derive(Clone, Copy, PartialEq, Eq, Debug, Structural)]
pub enum WidgetState {
    Idle,
    Hovered,
    Active,
    Disabled,
}

/// The four kit button variants: primary (blue), secondary (raised), quiet
/// (text-only), danger (red text).
#[derive(Clone, Copy, PartialEq, Eq, Debug, Structural)]
pub enum KitButton {
    Primary,
    Secondary,
    Quiet,
    Danger,
}

impl KitButton {
    /// Token-driven ink for one interactive state.
    pub fn ink(self, state: WidgetState) -> (r: u32)
        ensures
            r == if state == WidgetState::Disabled {
                Palette::T_MUTED
            } else if self == KitButton::Primary {
                Palette::BRAND_INK
            } else if self == KitButton::Danger {
                Palette::DANGER
            } else if state == WidgetState::Idle {
                Palette::T_SECONDARY
            } else {
                Palette::T_PRIMARY
            },
    {
        match (self, state) {
            (_, WidgetState::Disabled) => Palette::T_MUTED,
            (Self::Primary, _) => Palette::BRAND_INK,
            (Self::Danger, _) => Palette::DANGER,
            (_, WidgetState::Idle) => Palette::T_SECONDARY,
            (_, WidgetState::Hovered | WidgetState::Active) => Palette::T_PRIMARY,
        }
    }
}

} // verus!
