//! Non-text panes: where each side's bytes come from, image decoding with its
//! caps, size captions, and the synthetic creation diff for untracked files.

use vstd::prelude::*;

use crate::binary64::{nearest_binary64, nearest_binary64_exec, round_half_even, round_half_even_u128, lemma_rhe_bounds_div};
use crate::diff_model::{FileMeta, opt_view};
use vstd::arithmetic::power2::{lemma2_to64, lemma2_to64_rest, pow2};
use crate::text::{
    chars_of, decimal, line_bounds, lines, push_chars, push_char, push_decimal, push_str,
    string_from,
};

verus! {

broadcast use vstd::string::group_string_axioms;

/// Where one side's bytes come from.
#[derive(Clone, Debug, PartialEq, Eq)]
pub enum SideSpec {
    /// A git revision spec (`HEAD`, an index stage `:0`, a commit).
    Rev(String),
    /// The working-tree file.
    Worktree,
    /// The side does not exist (new file's old side, deleted file's new side).
    Missing,
}

/// The mathematical value of a [`SideSpec`].
pub enum SideView {
    Rev(Seq<char>),
    Worktree,
    Missing,
}

impl View for SideSpec {
    type V = SideView;

    open spec fn view(&self) -> SideView {
        match self {
            SideSpec::Rev(r) => SideView::Rev(r@),
            SideSpec::Worktree => SideView::Worktree,
            SideSpec::Missing => SideView::Missing,
        }
    }
}

/// Byte sources `(old, new)` of one file section, mirroring how the diff
/// text itself is requested: an explicit revision passes through; otherwise
/// the old side is `HEAD` when staged and the index (`:0`) when not, and the
/// new side is the index when staged and the worktree when not. New files
/// have no old side; deleted files no new side.
pub open spec fn byte_side_specs_spec(
    left: Option<Seq<char>>,
    right: Option<Seq<char>>,
    staged: bool,
    new_file: bool,
    deleted_file: bool,
) -> (SideView, SideView) {
    let old = if new_file {
        SideView::Missing
    } else {
        match left {
            Some(l) => SideView::Rev(l),
            None => if staged {
                SideView::Rev("HEAD"@)
            } else {
                SideView::Rev(":0"@)
            },
        }
    };
    let new = if deleted_file {
        SideView::Missing
    } else {
        match right {
            Some(r) => SideView::Rev(r),
            None => if staged {
                SideView::Rev(":0"@)
            } else {
                SideView::Worktree
            },
        }
    };
    (old, new)
}

/// Byte sources for `(old, new)` of one file section.
pub fn byte_side_specs(
    left: &Option<String>,
    right: &Option<String>,
    staged: bool,
    meta: &FileMeta,
) -> (r: (SideSpec, SideSpec))
    ensures
        (r.0@, r.1@) == byte_side_specs_spec(
            opt_view(*left),
            opt_view(*right),
            staged,
            meta.new_file,
            meta.deleted_file,
        ),
{
    let old = if meta.new_file {
        SideSpec::Missing
    } else {
        match left {
            Some(l) => SideSpec::Rev(string_from(l.as_str())),
            None => if staged {
                SideSpec::Rev(string_from("HEAD"))
            } else {
                SideSpec::Rev(string_from(":0"))
            },
        }
    };
    let new = if meta.deleted_file {
        SideSpec::Missing
    } else {
        match right {
            Some(r) => SideSpec::Rev(string_from(r.as_str())),
            None => if staged {
                SideSpec::Rev(string_from(":0"))
            } else {
                SideSpec::Worktree
            },
        }
    };
    (old, new)
}

// --- sizes ------------------------------------------------------------------------

/// The unit name for `1000^k` bytes.
pub open spec fn unit_name(k: nat) -> Seq<char> {
    if k == 0 {
        "B"@
    } else if k == 1 {
        "KB"@
    } else if k == 2 {
        "MB"@
    } else {
        "GB"@
    }
}

/// Division by 1000, each quotient the nearest binary64 number, while the
/// value (a fraction) is at least 1000 and a larger unit remains.
pub open spec fn scale_down(v: (nat, nat), unit: nat) -> ((nat, nat), nat)
    decreases 3 - unit,
{
    if unit >= 3 || v.0 < 1000 * v.1 {
        (v, unit)
    } else {
        scale_down(nearest_binary64(v.0, v.1 * 1000), unit + 1)
    }
}

/// The value printed for `bytes` and its unit: the byte count as the nearest
/// binary64 number, scaled down by thousands, and once more when it would
/// round to 1000 (so "1000 KB" never shows).
pub open spec fn scaled_size(bytes: nat) -> ((nat, nat), nat) {
    let start = if bytes == 0 {
        (0nat, 1nat)
    } else {
        nearest_binary64(bytes, 1)
    };
    let (v, u) = scale_down(start, 0);
    if u < 3 && 2 * v.0 >= 1999 * v.1 {
        (nearest_binary64(v.0, v.1 * 1000), u + 1)
    } else {
        (v, u)
    }
}

/// Human-readable byte size in decimal units ("0 B", "512 B", "1.2 KB",
/// "12 MB"): one decimal below 10 of a unit, whole numbers from there. The
/// value is the binary64 one the division chain yields, printed from its
/// exact binary value rounded half to even.
pub open spec fn human_size_spec(bytes: nat) -> Seq<char> {
    let (v, u) = scaled_size(bytes);
    if u == 0 || v.0 >= 10 * v.1 {
        decimal(round_half_even(v.0, v.1)) + " "@ + unit_name(u)
    } else {
        let t = round_half_even(10 * v.0, v.1);
        decimal(t / 10) + "."@ + decimal(t % 10) + " "@ + unit_name(u)
    }
}

/// Human-readable byte size ("0 B", "512 B", "1.2 KB", "12 MB") in decimal
/// units.
pub fn human_size(bytes: u64) -> (s: String)
    ensures
        s@ == human_size_spec(bytes as nat),
{
    proof {
        lemma2_to64();
        lemma2_to64_rest();
    }
    let (mut n, mut d): (u128, u128) = if bytes == 0 {
        (0, 1)
    } else {
        nearest_binary64_exec(bytes as u128, 1)
    };
    let ghost start = (n as nat, d as nat);
    assert(start == if bytes == 0 {
        (0nat, 1nat)
    } else {
        nearest_binary64(bytes as nat, 1)
    });
    let mut unit: u32 = 0;
    while unit < 3 && n >= 1000 * d
        invariant
            unit <= 3,
            1 <= d,
            d as nat <= pow2(53),
            n as nat <= 0x4_0000_0000_0000_0000,
            unit > 0 ==> n as nat <= pow2(58),
            scale_down((n as nat, d as nat), unit as nat) == scale_down(start, 0),
            pow2(53) == 0x20_0000_0000_0000,
            pow2(58) == 0x400_0000_0000_0000,
        decreases 3 - unit,
    {
        let dd = d * 1000;
        let (n2, d2) = nearest_binary64_exec(n, dd);
        proof {
            vstd::arithmetic::div_mod::lemma_div_is_ordered_by_denominator(n as int, 1000, dd as int);
        }
        n = n2;
        d = d2;
        unit = unit + 1;
    }
    if unit < 3 && 2 * n >= 1999 * d {
        let (n2, d2) = nearest_binary64_exec(n, d * 1000);
        n = n2;
        d = d2;
        unit = unit + 1;
    }
    assert(((n as nat, d as nat), unit as nat) == scaled_size(bytes as nat));
    let name = if unit == 0 {
        "B"
    } else if unit == 1 {
        "KB"
    } else if unit == 2 {
        "MB"
    } else {
        "GB"
    };
    let mut s = String::new();
    if unit == 0 || n >= 10 * d {
        proof {
            lemma_rhe_bounds_div(n as nat, d as nat);
        }
        let w = round_half_even_u128(n, d);
        push_decimal(&mut s, w as u64);
    } else {
        proof {
            lemma_rhe_bounds_div(10 * n as nat, d as nat);
        }
        let t = round_half_even_u128(10 * n, d);
        push_decimal(&mut s, (t / 10) as u64);
        push_str(&mut s, ".");
        push_decimal(&mut s, (t % 10) as u64);
    }
    push_str(&mut s, " ");
    push_str(&mut s, name);
    s
}

// --- image panes -------------------------------------------------------------------

/// Per-image raw-byte cap: over-cap sides fall back to the binary change.
pub const IMAGE_CAP_BYTES: u64 = 20 * 1024 * 1024;

/// Decoded-pixel guard: beyond this a side counts as undecodable.
pub const IMAGE_MAX_PIXELS: u64 = 80_000_000;

/// One decoded image side: dimensions plus RGBA pixels.
#[derive(Clone, Debug, PartialEq, Eq)]
pub struct DecodedImage {
    pub width: u32,
    pub height: u32,
    pub rgba: Vec<u8>,
}

/// One fetched side of an image pane: its byte length and, when it decoded,
/// the image.
#[derive(Clone, Debug, PartialEq, Eq)]
pub struct PaneSide {
    pub byte_len: u64,
    pub image: Option<DecodedImage>,
}

/// The `(width, height)` that `image::load_from_memory` decodes from `bytes`,
/// `None` when it reports an error.
pub uninterp spec fn decoded_dims(bytes: Seq<u8>) -> Option<(u32, u32)>;

/// The RGBA bytes that `image::load_from_memory` followed by
/// `DynamicImage::to_rgba8().into_raw()` give for `bytes`.
pub uninterp spec fn decoded_rgba(bytes: Seq<u8>) -> Seq<u8>;

/// `image::load_from_memory`, then the decoded image's width and height and
/// its pixels as `to_rgba8().into_raw()` gives them: a buffer of at least
/// four bytes per pixel (`ImageBuffer::from_raw` refuses a smaller one, and a
/// converted buffer is made by `ImageBuffer::new` at exactly that size).
/// Nothing is claimed of the pixel values but that they are a function of the
/// bytes; decoding is deterministic.
#[verifier::external_body]
fn decode_rgba(bytes: &[u8]) -> (r: Option<(u32, u32, Vec<u8>)>)
    ensures
        match r {
            Some((w, h, px)) => decoded_dims(bytes@) == Some((w, h)) && px@ == decoded_rgba(bytes@) && px@.len() >= 4
                * w * h,
            None => decoded_dims(bytes@) is None,
        },
{
    match image::load_from_memory(bytes) {
        Ok(img) => Some((img.width(), img.height(), img.to_rgba8().into_raw())),
        Err(_) => None,
    }
}

/// Decodes raw bytes when they are an in-cap image: a blob over
/// [`IMAGE_CAP_BYTES`], one that does not decode, or one with more than
/// [`IMAGE_MAX_PIXELS`] pixels counts as undecodable. The pixels are the
/// decoder's RGBA bytes.
pub fn decode_image(bytes: &[u8]) -> (r: Option<DecodedImage>)
    ensures
        r is Some <==> (bytes@.len() <= IMAGE_CAP_BYTES && match decoded_dims(bytes@) {
            Some((w, h)) => w * h <= IMAGE_MAX_PIXELS,
            None => false,
        }),
        r matches Some(img) ==> decoded_dims(bytes@) == Some((img.width, img.height)) && img.rgba@ == decoded_rgba(
            bytes@,
        ) && img.rgba@.len() >= 4 * img.width * img.height,
{
    if bytes.len() as u64 > IMAGE_CAP_BYTES {
        return None;
    }
    match decode_rgba(bytes) {
        Some((width, height, rgba)) => {
            assert((width as u64) * (height as u64) <= u64::MAX) by (nonlinear_arith)
                requires
                    width <= u32::MAX,
                    height <= u32::MAX,
            ;
            if (width as u64) * (height as u64) > IMAGE_MAX_PIXELS {
                return None;
            }
            Some(DecodedImage { width, height, rgba })
        },
        None => None,
    }
}

/// Per-side caption under an image pane: `1920×1080 · 1.2 MB`, or the size
/// alone when the side did not decode.
pub open spec fn image_caption_spec(byte_len: nat, dims: Option<(u32, u32)>) -> Seq<char> {
    match dims {
        Some((w, h)) => decimal(w as nat) + "×"@ + decimal(h as nat) + " · "@ + human_size_spec(
            byte_len,
        ),
        None => human_size_spec(byte_len),
    }
}

/// Per-side caption under an image pane.
pub fn image_caption(side: &PaneSide) -> (s: String)
    ensures
        s@ == image_caption_spec(
            side.byte_len as nat,
            match side.image {
                Some(img) => Some((img.width, img.height)),
                None => None,
            },
        ),
{
    match &side.image {
        Some(img) => {
            let mut s = String::new();
            push_decimal(&mut s, img.width as u64);
            push_str(&mut s, "×");
            push_decimal(&mut s, img.height as u64);
            push_str(&mut s, " · ");
            let size = human_size(side.byte_len);
            push_str(&mut s, size.as_str());
            s
        },
        None => human_size(side.byte_len),
    }
}

/// The binary-change description: the resolved `(before, after)` sizes when
/// both sides resolved, else the bare sentence.
pub open spec fn binary_placeholder_spec(sizes: Option<(u64, u64)>) -> Seq<char> {
    match sizes {
        Some((before, after)) => "Binary file changed · "@ + human_size_spec(before as nat)
            + " → "@ + human_size_spec(after as nat),
        None => "Binary file changed"@,
    }
}

/// The text of the binary-change placeholder.
pub fn binary_placeholder_text(sizes: Option<(u64, u64)>) -> (s: String)
    ensures
        s@ == binary_placeholder_spec(sizes),
{
    match sizes {
        Some((before, after)) => {
            let mut s = string_from("Binary file changed · ");
            let b = human_size(before);
            push_str(&mut s, b.as_str());
            push_str(&mut s, " → ");
            let a = human_size(after);
            push_str(&mut s, a.as_str());
            s
        },
        None => string_from("Binary file changed"),
    }
}


// --- synthetic creation diff ---------------------------------------------------------

/// `std::str::from_utf8`: the text when `bytes` are valid UTF-8.
#[verifier::external_body]
fn utf8_text(bytes: &[u8]) -> (r: Option<&str>)
    ensures
        r is Some <==> vstd::utf8::valid_utf8(bytes@),
        r matches Some(t) ==> t@ == vstd::utf8::decode_utf8(bytes@),
{
    std::str::from_utf8(bytes).ok()
}

/// Every line as a whole-line addition: `+line\n` each.
pub open spec fn added_lines(ls: Seq<Seq<char>>) -> Seq<char>
    decreases ls.len(),
{
    if ls.len() == 0 {
        seq![]
    } else {
        added_lines(ls.drop_last()) + seq!['+'] + ls.last() + seq!['\n']
    }
}

/// The creation diff that dresses a new file's text as a whole-file
/// addition under the slash-separated repo-relative path `display`: `None`
/// for empty, binary (NUL byte) or non-UTF-8 content.
pub open spec fn creation_diff_spec(display: Seq<char>, bytes: Seq<u8>) -> Option<Seq<char>> {
    if bytes.len() == 0 || bytes.contains(0u8) || !vstd::utf8::valid_utf8(bytes) {
        None
    } else {
        let content = vstd::utf8::decode_utf8(bytes);
        let ls = lines(content);
        Some(
            "diff --git a/"@ + display + " b/"@ + display + "\nnew file mode 100644\n--- /dev/null\n+++ b/"@
                + display + "\n@@ -0,0 +1,"@ + decimal(ls.len()) + " @@\n"@ + added_lines(ls) + if content.len()
                > 0 && content.last() == '\n' {
                seq![]
            } else {
                "\\ No newline at end of file\n"@
            },
        )
    }
}

/// Synthesizes the creation diff of an untracked file from its content, so
/// the untracked preview runs through the normal parse path.
pub fn synthetic_creation_diff(display: &str, bytes: &[u8]) -> (r: Option<String>)
    ensures
        opt_view(r) == creation_diff_spec(display@, bytes@),
{
    if bytes.len() == 0 {
        return None;
    }
    let mut i: usize = 0;
    while i < bytes.len()
        invariant
            0 <= i <= bytes@.len(),
            forall|k: int| 0 <= k < i ==> bytes@[k] != 0u8,
        decreases bytes@.len() - i,
    {
        if bytes[i] == 0 {
            assert(bytes@.contains(0u8));
            return None;
        }
        i += 1;
    }
    assert(!bytes@.contains(0u8));
    let text = match utf8_text(bytes) {
        Some(t) => t,
        None => {
            return None;
        },
    };
    let v = chars_of(text);
    let bounds = line_bounds(&v);
    let ghost ls = lines(v@);
    let mut out = string_from("diff --git a/");
    push_str(&mut out, display);
    push_str(&mut out, " b/");
    push_str(&mut out, display);
    push_str(&mut out, "\nnew file mode 100644\n--- /dev/null\n+++ b/");
    push_str(&mut out, display);
    push_str(&mut out, "\n@@ -0,0 +1,");
    push_decimal(&mut out, bounds.len() as u64);
    push_str(&mut out, " @@\n");
    let ghost head = out@;
    let mut j: usize = 0;
    while j < bounds.len()
        invariant
            ls == lines(v@),
            bounds@.len() == ls.len(),
            forall|k: int|
                0 <= k < bounds@.len() ==> {
                    let (a, b) = #[trigger] bounds@[k];
                    &&& a <= b <= v@.len()
                    &&& v@.subrange(a as int, b as int) == ls[k]
                },
            0 <= j <= bounds@.len(),
            out@ == head + added_lines(ls.take(j as int)),
        decreases bounds@.len() - j,
    {
        let (a, b) = bounds[j];
        push_char(&mut out, '+');
        push_chars(&mut out, &v, a, b);
        push_char(&mut out, '\n');
        assert(ls.take(j + 1).drop_last() =~= ls.take(j as int));
        assert(out@ =~= head + added_lines(ls.take(j + 1)));
        j += 1;
    }
    assert(ls.take(j as int) =~= ls);
    let n = v.len();
    if !(n > 0 && v[n - 1] == '\n') {
        push_str(&mut out, "\\ No newline at end of file\n");
    }
    Some(out)
}

/// The comparison pair the diff viewer shows.
#[derive(Clone, Copy, Debug, PartialEq, Eq, Structural)]
pub enum DiffComparison {
    /// HEAD against the working tree.
    Repo,
    /// HEAD against the index.
    Staged,
    /// The index against the working tree.
    Local,
}

/// The pane-header labels documenting the active pair.
pub fn pane_labels(comparison: DiffComparison) -> (r: (&'static str, &'static str))
    ensures
        (r.0@, r.1@) == match comparison {
            DiffComparison::Repo => ("HEAD"@, "Working tree"@),
            DiffComparison::Staged => ("HEAD"@, "Index"@),
            DiffComparison::Local => ("Index"@, "Working tree"@),
        },
{
    match comparison {
        DiffComparison::Repo => ("HEAD", "Working tree"),
        DiffComparison::Staged => ("HEAD", "Index"),
        DiffComparison::Local => ("Index", "Working tree"),
    }
}

/// One side of a non-text pane from its fetched bytes: the byte length, and
/// the decoded image when decoding was asked for and the bytes decode (see
/// [`decode_image`]).
pub fn fetched_side(bytes: &[u8], decode: bool) -> (r: PaneSide)
    ensures
        r.byte_len == bytes@.len(),
        !decode ==> r.image is None,
        decode ==> (r.image is Some <==> (bytes@.len() <= IMAGE_CAP_BYTES && match decoded_dims(bytes@) {
            Some((w, h)) => w * h <= IMAGE_MAX_PIXELS,
            None => false,
        })),
        r.image matches Some(img) ==> decoded_dims(bytes@) == Some((img.width, img.height)),
{
    let image = if decode {
        decode_image(bytes)
    } else {
        None
    };
    PaneSide { byte_len: bytes.len() as u64, image }
}

/// The byte lengths for the binary caption, when both sides of a loaded
/// pane resolved.
pub fn pane_byte_lens(entry: Option<&(Option<PaneSide>, Option<PaneSide>)>) -> (r: Option<(u64, u64)>)
    ensures
        r == match entry {
            Some((Some(a), Some(b))) => Some((a.byte_len, b.byte_len)),
            _ => None,
        },
{
    match entry {
        Some((Some(a), Some(b))) => Some((a.byte_len, b.byte_len)),
        _ => None,
    }
}

} // verus!
