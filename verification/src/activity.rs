//! The activity panel's and the banner's vocabulary: severity colors, the
//! time-window and repository-filter labels, how the repository filter
//! cycles, and which banner action a click takes.

use vstd::prelude::*;

use crate::sorting::views;
use crate::text::{str_eq, string_from};
use crate::theme::Palette;

verus! {

/// The severity of an activity entry.
#[derive(Clone, Copy, Debug, PartialEq, Eq, Structural)]
pub enum ActivityKind {
    Success,
    Warning,
    Error,
}

/// The state color an activity entry paints with.
pub fn kind_color(kind: ActivityKind) -> (r: u32)
    ensures
        r == match kind {
            ActivityKind::Success => Palette::STATE_SUCCESS,
            ActivityKind::Warning => Palette::STATE_WARNING,
            ActivityKind::Error => Palette::STATE_ERROR,
        },
{
    match kind {
        ActivityKind::Success => Palette::STATE_SUCCESS,
        ActivityKind::Warning => Palette::STATE_WARNING,
        ActivityKind::Error => Palette::STATE_ERROR,
    }
}

/// The severity of an inline banner.
#[derive(Clone, Copy, Debug, PartialEq, Eq, Structural)]
pub enum BannerSeverity {
    Info,
    Warning,
    Error,
    Success,
}

/// The state color a banner is tinted with.
pub fn severity_color(s: BannerSeverity) -> (r: u32)
    ensures
        r == match s {
            BannerSeverity::Info => Palette::STATE_INFO,
            BannerSeverity::Warning => Palette::STATE_WARNING,
            BannerSeverity::Error => Palette::STATE_ERROR,
            BannerSeverity::Success => Palette::STATE_SUCCESS,
        },
{
    match s {
        BannerSeverity::Info => Palette::STATE_INFO,
        BannerSeverity::Warning => Palette::STATE_WARNING,
        BannerSeverity::Error => Palette::STATE_ERROR,
        BannerSeverity::Success => Palette::STATE_SUCCESS,
    }
}

/// A banner's actions fire once: the click on `label` takes the first action
/// with that label out of the banner's action list, and its position says
/// which action runs; nothing changes when no action has that label.
pub fn take_banner_action(labels: &mut Vec<String>, label: &str) -> (r: Option<usize>)
    ensures
        match r {
            Some(i) => {
                &&& i < old(labels)@.len()
                &&& views(old(labels)@)[i as int] == label@
                &&& forall|j: int| 0 <= j < i ==> views(old(labels)@)[j] != label@
                &&& views(final(labels)@) == views(old(labels)@).remove(i as int)
            },
            None => {
                &&& forall|j: int| 0 <= j < old(labels)@.len() ==> views(old(labels)@)[j] != label@
                &&& views(final(labels)@) == views(old(labels)@)
            },
        },
{
    let ghost before = views(labels@);
    let mut i: usize = 0;
    while i < labels.len()
        invariant
            0 <= i <= labels@.len(),
            before == views(labels@),
            before == views(old(labels)@),
            forall|j: int| 0 <= j < i ==> before[j] != label@,
        decreases labels@.len() - i,
    {
        if str_eq(labels[i].as_str(), label) {
            assert(before[i as int] == labels@[i as int]@);
            labels.remove(i);
            assert(views(labels@) =~= before.remove(i as int));
            return Some(i);
        }
        i = i + 1;
    }
    None
}

/// The time window the activity list covers.
#[derive(Clone, Copy, Debug, PartialEq, Eq, Structural)]
pub enum TimeWindow {
    All,
    Last30Min,
}

/// The label of a time window.
pub fn window_label(window: TimeWindow) -> (r: &'static str)
    ensures
        r@ == match window {
            TimeWindow::All => "All time"@,
            TimeWindow::Last30Min => "Last 30 min"@,
        },
{
    match window {
        TimeWindow::All => "All time",
        TimeWindow::Last30Min => "Last 30 min",
    }
}

/// The repository filter button's label: the active filter, or "All repos".
pub fn repo_label(filter: &Option<String>) -> (r: String)
    ensures
        r@ == match filter {
            Some(f) => f@,
            None => "All repos"@,
        },
{
    match filter {
        Some(f) => string_from(f.as_str()),
        None => string_from("All repos"),
    }
}

/// The index of the first label equal to `x`.
pub open spec fn first_index(labels: Seq<Seq<char>>, x: Seq<char>) -> Option<int>
    decreases labels.len(),
{
    if labels.len() == 0 {
        None
    } else {
        match first_index(labels.drop_last(), x) {
            Some(k) => Some(k),
            None => if labels.last() == x {
                Some(labels.len() - 1)
            } else {
                None
            },
        }
    }
}

/// The filter after one click: from "All repos" to the first repository;
/// from a repository to the one registered after it; past the last one (or
/// from a label no repository has) back to "All repos".
pub open spec fn next_filter_spec(labels: Seq<Seq<char>>, current: Option<Seq<char>>) -> Option<Seq<char>> {
    match current {
        None => if labels.len() > 0 {
            Some(labels[0])
        } else {
            None
        },
        Some(c) => match first_index(labels, c) {
            Some(k) => if k + 1 < labels.len() {
                Some(labels[k + 1])
            } else {
                None
            },
            None => None,
        },
    }
}

proof fn lemma_first_index(labels: Seq<Seq<char>>, x: Seq<char>)
    ensures
        first_index(labels, x) matches Some(k) ==> 0 <= k < labels.len() && labels[k] == x && (forall|j: int|
            0 <= j < k ==> labels[j] != x),
        first_index(labels, x) is None ==> forall|j: int| 0 <= j < labels.len() ==> labels[j] != x,
    decreases labels.len(),
{
    if labels.len() > 0 {
        lemma_first_index(labels.drop_last(), x);
        assert forall|j: int| 0 <= j < labels.len() - 1 implies labels.drop_last()[j] == labels[j] by {}
    }
}

/// Cycles the repository filter: "All repos", then each registered
/// repository (by its label) in registration order, then "All repos" again.
pub fn next_repo_filter(labels: &[String], current: &Option<String>) -> (r: Option<String>)
    ensures
        crate::diff_model::opt_view(r) == next_filter_spec(views(labels@), crate::diff_model::opt_view(*current)),
{
    let ghost lv = views(labels@);
    match current {
        None => {
            if labels.len() > 0 {
                Some(string_from(labels[0].as_str()))
            } else {
                None
            }
        },
        Some(cur) => {
            proof {
                lemma_first_index(lv, cur@);
            }
            let mut i: usize = 0;
            while i < labels.len()
                invariant
                    0 <= i <= labels@.len(),
                    lv == views(labels@),
                    crate::diff_model::opt_view(*current) == Some(cur@),
                    first_index(lv, cur@) matches Some(k) ==> 0 <= k < lv.len() && lv[k] == cur@ && (forall|j: int|
                        0 <= j < k ==> lv[j] != cur@),
                    first_index(lv, cur@) is None ==> forall|j: int| 0 <= j < lv.len() ==> lv[j] != cur@,
                    forall|j: int| 0 <= j < i ==> lv[j] != cur@,
                decreases labels@.len() - i,
            {
                assert(lv[i as int] == labels@[i as int]@);
                if str_eq(labels[i].as_str(), cur.as_str()) {
                    assert(first_index(lv, cur@) == Some(i as int));
                    if i + 1 < labels.len() {
                        assert(lv[i + 1] == labels@[i + 1]@);
                        return Some(string_from(labels[i + 1].as_str()));
                    } else {
                        return None;
                    }
                }
                i += 1;
            }
            None
        },
    }
}

/// Labels with no repeats.
pub open spec fn distinct_labels(labels: Seq<Seq<char>>) -> bool {
    forall|a: int, b: int| 0 <= a < b < labels.len() ==> labels[a] != labels[b]
}

/// With distinct labels, cycling the filter walks "All repos", every
/// repository in registration order, and back to "All repos".
pub proof fn lemma_filter_cycle(labels: Seq<Seq<char>>)
    requires
        distinct_labels(labels),
    ensures
        labels.len() > 0 ==> next_filter_spec(labels, None) == Some(labels[0]),
        labels.len() == 0 ==> next_filter_spec(labels, None) is None,
        forall|k: int|
            0 <= k < labels.len() - 1 ==> next_filter_spec(labels, Some(#[trigger] labels[k])) == Some(labels[k + 1]),
        labels.len() > 0 ==> next_filter_spec(labels, Some(labels[labels.len() - 1])) is None,
{
    assert forall|k: int| 0 <= k < labels.len() implies #[trigger] first_index(labels, labels[k]) == Some(k) by {
        lemma_first_index(labels, labels[k]);
        match first_index(labels, labels[k]) {
            Some(j) => {
                if j < k {
                    assert(labels[j] != labels[k]);
                } else if j > k {
                    assert(labels[k] != labels[k]);
                }
            },
            None => {},
        }
    }
    if labels.len() > 0 {
        assert(first_index(labels, labels[labels.len() - 1]) == Some(labels.len() - 1));
    }
    assert forall|k: int| 0 <= k < labels.len() - 1 implies next_filter_spec(labels, Some(#[trigger] labels[k]))
        == Some(labels[k + 1]) by {
        assert(first_index(labels, labels[k]) == Some(k));
    }
}

} // verus!
