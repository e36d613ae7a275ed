//! The blame view: its cache key and title, each blamed line's cells, short
//! commit ids and line ages.

use vstd::prelude::*;

use crate::clock::{age_spec, four_digit_years, is_date_text, local_date, local_stamp, now_secs, offset_ok, relative_age, stamp_for};
use crate::text::{chars_of, char_is_ws, is_ws, push_str, string_from, string_of, take_chars, trim_end, truncate_chars, ws_trail_to};

verus! {

/// The short form of a commit id: its first seven characters.
pub fn short(id: &str) -> (r: String)
    ensures
        r@ == take_chars(id@, 7),
{
    truncate_chars(id, 7)
}

/// The age of a blamed line at the clock reading `now`, never negative (a
/// timestamp in the future reads as "0s ago"); `None` from thirty days on.
pub fn blame_age(now: i64, t: i64) -> (r: Option<String>)
    ensures
        crate::diff_model::opt_view(r) == age_spec(if now - t > 0 {
            now - t
        } else {
            0
        }),
{
    let then = if t > now {
        now
    } else {
        t
    };
    relative_age(now, then)
}

/// The age of a blamed line at the clock reading `now`, never negative.
pub open spec fn blame_age_at(now: int, t: int) -> Option<Seq<char>> {
    age_spec(if now - t > 0 {
        now - t
    } else {
        0
    })
}

/// Relative age for a blame line ("14m ago"), matching the log's relative
/// dates; from thirty days on, the local date of `t`.
pub fn fmt_age(t: i64) -> (r: String)
    ensures
        (exists|now: i64| #[trigger] blame_age_at(now as int, t as int) == Some(r@))
            || (four_digit_years(t as int) ==> is_date_text(r@) && exists|off: int|
            offset_ok(off) && #[trigger] local_date(t as int, off) == r@),
{
    let now = now_secs();
    match blame_age(now, t) {
        Some(s) => {
            assert(blame_age_at(now as int, t as int) == Some(s@));
            s
        },
        None => {
            proof {
                reveal_strlit("%Y-%m-%d");
                reveal_strlit("%Y-%m-%d %H:%M");
                assert("%Y-%m-%d"@.len() != "%Y-%m-%d %H:%M"@.len());
            }
            let r = match local_stamp(t, "%Y-%m-%d") {
                Some(s) => s,
                None => String::new(),
            };
            proof {
                if four_digit_years(t as int) {
                    let off = choose|off: int| offset_ok(off) && #[trigger] stamp_for(t as int, off, "%Y-%m-%d"@) == r@;
                    assert(local_date(t as int, off) == r@);
                }
            }
            r
        },
    }
}

/// One blamed line: the commit that last touched it, its author and time,
/// and the line's text.
#[derive(Clone, Debug, PartialEq, Eq)]
pub struct BlameLine {
    pub commit: String,
    pub author: String,
    /// Seconds since the epoch.
    pub time: i64,
    pub content: String,
}

/// The key the blame cache is filed under: repository, revision and path,
/// separated by `|`.
pub fn blame_view_key(root: &str, rev: &str, path: &str) -> (r: String)
    ensures
        r@ == root@ + "|"@ + rev@ + "|"@ + path@,
{
    let mut s = string_from(root);
    push_str(&mut s, "|");
    push_str(&mut s, rev);
    push_str(&mut s, "|");
    push_str(&mut s, path);
    s
}

/// The blame view's title: "<path> @ <short revision>".
pub fn blame_title(path: &str, rev: &str) -> (r: String)
    ensures
        r@ == path@ + " @ "@ + take_chars(rev@, 7),
{
    let mut s = string_from(path);
    push_str(&mut s, " @ ");
    let sh = short(rev);
    push_str(&mut s, sh.as_str());
    s
}

/// What one blamed line paints: whether it is highlighted (the revision
/// blamed at introduced it), the short commit id, the author cut to twelve
/// characters, and the text without trailing whitespace.
pub struct BlameCells {
    pub highlight: bool,
    pub hash: String,
    pub author: String,
    pub content: String,
}

/// The cells of one blamed line viewed at revision `rev`.
pub fn blame_cells(line: &BlameLine, rev: &str) -> (r: BlameCells)
    ensures
        r.highlight == (line.commit@ == rev@),
        r.hash@ == take_chars(line.commit@, 7),
        r.author@ == take_chars(line.author@, 12),
        r.content@ == trim_end(line.content@),
{
    let highlight = crate::text::str_eq(line.commit.as_str(), rev);
    let v = chars_of(line.content.as_str());
    let ghost c = v@;
    let mut j = v.len();
    while j > 0 && char_is_ws(v[j - 1])
        invariant
            j <= v@.len(),
            c == v@,
            ws_trail_to(c, c.len() as int) == ws_trail_to(c, j as int),
        decreases j,
    {
        j -= 1;
    }
    let content = string_of(&v, 0, j);
    BlameCells { highlight, hash: short(line.commit.as_str()), author: truncate_chars(line.author.as_str(), 12), content }
}

} // verus!
