use turbogit_ui::diff_model::FileMeta;
use turbogit_ui::diff_panes::{
    fetched_side, pane_byte_lens,
    binary_placeholder_text, byte_side_specs, decode_image, human_size, image_caption,
    synthetic_creation_diff, DecodedImage, PaneSide, SideSpec, IMAGE_CAP_BYTES,
};

#[test]
fn diff_byte_side_specs_mirror_diff_invocation() {
    let plain = FileMeta::default();
    let added = FileMeta {
        new_file: true,
        ..FileMeta::default()
    };
    let deleted = FileMeta {
        deleted_file: true,
        ..FileMeta::default()
    };

    assert_eq!(
        byte_side_specs(&Some("HEAD".to_owned()), &None, false, &plain),
        (SideSpec::Rev("HEAD".to_owned()), SideSpec::Worktree)
    );
    assert_eq!(
        byte_side_specs(&None, &None, true, &plain),
        (SideSpec::Rev("HEAD".to_owned()), SideSpec::Rev(":0".to_owned()))
    );
    assert_eq!(
        byte_side_specs(&None, &None, false, &plain),
        (SideSpec::Rev(":0".to_owned()), SideSpec::Worktree)
    );
    assert_eq!(
        byte_side_specs(
            &Some("abc123".to_owned()),
            &Some("def456".to_owned()),
            false,
            &plain
        ),
        (SideSpec::Rev("abc123".to_owned()), SideSpec::Rev("def456".to_owned()))
    );
    assert_eq!(byte_side_specs(&None, &None, false, &added).0, SideSpec::Missing);
    assert_eq!(
        byte_side_specs(&Some("HEAD".to_owned()), &None, false, &deleted).1,
        SideSpec::Missing
    );
}

#[test]
fn diff_human_size_formats_units() {
    assert_eq!(human_size(0), "0 B");
    assert_eq!(human_size(512), "512 B");
    assert_eq!(human_size(999), "999 B");
    assert_eq!(human_size(1000), "1.0 KB");
    assert_eq!(human_size(1500), "1.5 KB");
    assert_eq!(human_size(999_999), "1.0 MB");
    assert_eq!(human_size(900_000), "900 KB");
    assert_eq!(human_size(1_200_000), "1.2 MB");
    assert_eq!(human_size(12_000_000), "12 MB");
}

#[test]
fn diff_image_caption_formats_dimensions() {
    let side = PaneSide {
        byte_len: 5,
        image: Some(DecodedImage {
            width: 1920,
            height: 1080,
            rgba: Vec::new(),
        }),
    };
    assert_eq!(image_caption(&side), "1920×1080 · 5 B");
}

#[test]
fn diff_decode_image_rejects_garbage_and_over_cap() {
    assert!(decode_image(b"not an image").is_none());
    let over_cap = vec![0u8; IMAGE_CAP_BYTES as usize + 1];
    assert!(decode_image(&over_cap).is_none());
}

// --- further cases -----------------------------------------------------------------

fn tiny_png() -> Vec<u8> {
    let img = image::DynamicImage::new_rgb8(2, 3);
    let mut buf = std::io::Cursor::new(Vec::new());
    img.write_to(&mut buf, image::ImageFormat::Png).unwrap();
    buf.into_inner()
}

#[test]
fn decode_image_reads_dimensions_of_a_real_png() {
    let img = decode_image(&tiny_png()).expect("tiny png decodes");
    assert_eq!((img.width, img.height), (2, 3));
    assert_eq!(img.rgba.len(), 2 * 3 * 4);
}

#[test]
fn image_caption_without_image_is_the_size() {
    let side = PaneSide {
        byte_len: 1_500,
        image: None,
    };
    assert_eq!(image_caption(&side), "1.5 KB");
}

#[test]
fn human_size_gigabytes_and_exact_kilobytes() {
    assert_eq!(human_size(1_000_000_000), "1.0 GB");
    assert_eq!(human_size(25_000), "25 KB");
    assert_eq!(human_size(999_499), "999 KB");
    assert_eq!(human_size(999_949), "1.0 MB");
}

#[test]
fn binary_placeholder_states_sizes_when_known() {
    assert_eq!(
        binary_placeholder_text(Some((1000, 2500))),
        "Binary file changed · 1.0 KB → 2.5 KB"
    );
    assert_eq!(binary_placeholder_text(None), "Binary file changed");
}

#[test]
fn synthetic_creation_diff_for_text_and_binary() {
    assert_eq!(synthetic_creation_diff("a.txt", b""), None);
    assert_eq!(synthetic_creation_diff("a.bin", b"\x00\x01"), None);
    let d = synthetic_creation_diff("a.txt", b"one\ntwo\n").expect("text diff");
    assert!(d.starts_with("diff --git a/a.txt b/a.txt\n"));
    assert!(d.ends_with("@@ -0,0 +1,2 @@\n+one\n+two\n"));
    let e = synthetic_creation_diff("b.txt", b"tail").expect("text diff");
    assert!(e.ends_with("+tail\n\\ No newline at end of file\n"));
}

#[test]
fn fetched_sides_carry_lengths_and_decode_on_request() {
    let png = tiny_png();
    let plain = fetched_side(&png, false);
    assert_eq!(plain.byte_len, png.len() as u64);
    assert!(plain.image.is_none());
    let decoded = fetched_side(&png, true);
    assert!(decoded.image.is_some());
    let junk = fetched_side(b"not an image", true);
    assert_eq!(junk.byte_len, 12);
    assert!(junk.image.is_none());
    let entry = (Some(plain.clone()), Some(junk.clone()));
    assert_eq!(pane_byte_lens(Some(&entry)), Some((png.len() as u64, 12)));
    assert_eq!(pane_byte_lens(Some(&(None, Some(junk)))), None);
    assert_eq!(pane_byte_lens(None), None);
}

/// The size text computed the floating-point way: decimal units, one
/// decimal below ten of a unit.
fn float_size(bytes: u64) -> String {
    const UNITS: [&str; 4] = ["B", "KB", "MB", "GB"];
    let mut value = bytes as f64;
    let mut unit = 0usize;
    while value >= 1000.0 && unit + 1 < UNITS.len() {
        value /= 1000.0;
        unit += 1;
    }
    if value.round() >= 1000.0 && unit + 1 < UNITS.len() {
        value /= 1000.0;
        unit += 1;
    }
    if unit == 0 || value >= 10.0 {
        format!("{value:.0} {}", UNITS[unit])
    } else {
        format!("{value:.1} {}", UNITS[unit])
    }
}

#[test]
fn human_size_agrees_with_float_formatting() {
    let mut probes: Vec<u64> = (0..2_000_000u64).collect();
    for base in [1_000_000u64, 1_000_000_000, 1_000_000_000_000, 9_007_199_254_740_992] {
        for k in 0..20_000u64 {
            probes.push(base + k * 50_000 % base.max(1));
            probes.push(base.saturating_mul(3) + k * 4_999);
        }
    }
    probes.extend([u64::MAX, u64::MAX - 1, 18_446_744_073_709_551_000, 999_499_999, 999_500_000, 999_999_999_999]);
    let mut bad = Vec::new();
    for b in probes {
        if human_size(b) != float_size(b) {
            bad.push((b, human_size(b), float_size(b)));
        }
    }
    assert!(bad.is_empty(), "{} mismatches, first: {:?}", bad.len(), &bad[..bad.len().min(12)]);
}

#[test]
fn decode_image_keeps_the_decoders_rgba_pixels() {
    let mut img = image::RgbaImage::new(2, 3);
    img.put_pixel(1, 2, image::Rgba([10, 20, 30, 255]));
    let mut png = std::io::Cursor::new(Vec::new());
    img.write_to(&mut png, image::ImageFormat::Png).unwrap();
    let bytes = png.into_inner();
    let d = decode_image(&bytes).expect("decodes");
    assert_eq!((d.width, d.height), (2, 3));
    assert_eq!(d.rgba, img.into_raw());
    assert_eq!(d.rgba.len(), 4 * 2 * 3);
    assert_eq!(&d.rgba[20..24], &[10, 20, 30, 255]);
}
