use aspect_crop::allowed_filetype;
use aspect_crop::resize_image;
use aspect_crop::AspectRatio;
use aspect_crop::FileError;
use aspect_crop::ImageFile;
use aspect_crop::PixelBuffer;

fn numbered_asset(width: u32, height: u32, name: &str) -> ImageFile {
    let n = (width as usize) * (height as usize) * 4;
    let data: Vec<u8> = (0..n).map(|i| (i % 256) as u8).collect();
    ImageFile::new(PixelBuffer::new(width, height, data).unwrap(), name.to_string())
}

#[test]
fn resize_keeps_the_filename() {
    let asset = numbered_asset(8, 6, "holiday.png");
    let out = resize_image(&asset, &AspectRatio { num: 3, den: 4 }).unwrap();
    assert_eq!(out.filename, "holiday.png");
}

#[test]
fn resize_crops_to_the_ratio_and_centers() {
    // 5x3 at ratio 1:1 keeps the height: the window is 3x3, centered at
    // offset ((5 - 3) / 2, 0) = (1, 0).
    let asset = numbered_asset(5, 3, "square.jpg");
    let out = resize_image(&asset, &AspectRatio { num: 1, den: 1 }).unwrap();
    assert_eq!(out.image.width, 3);
    assert_eq!(out.image.height, 3);
    assert_eq!(out.image.data.len(), 36);
    // Destination pixel (x, y) is source pixel (x + 1, y); channel c of
    // source pixel (sx, sy) holds (sy * 5 + sx) * 4 + c.
    for y in 0..3u32 {
        for x in 0..3u32 {
            for c in 0..4u32 {
                let got = out.image.data[((y * 3 + x) * 4 + c) as usize];
                let want = ((y * 5 + (x + 1)) * 4 + c) as u8;
                assert_eq!(got, want, "pixel ({x}, {y}) channel {c}");
            }
        }
    }
}

#[test]
fn resize_at_ratio_is_identity_on_the_pixels() {
    let asset = numbered_asset(6, 8, "portrait.jpeg");
    let out = resize_image(&asset, &AspectRatio { num: 3, den: 4 }).unwrap();
    assert_eq!(out.image.width, 6);
    assert_eq!(out.image.height, 8);
    assert_eq!(out.image.data, asset.image.data);
}

#[test]
fn resize_rejects_a_zero_ratio_part() {
    let asset = numbered_asset(4, 4, "a.png");
    assert_eq!(
        resize_image(&asset, &AspectRatio { num: 0, den: 4 }).unwrap_err(),
        FileError::Unsupported
    );
    assert_eq!(
        resize_image(&asset, &AspectRatio { num: 3, den: 0 }).unwrap_err(),
        FileError::Unsupported
    );
}

#[test]
fn resize_rejects_a_zero_sized_source() {
    let asset = ImageFile::new(
        PixelBuffer { width: 0, height: 4, data: vec![] },
        "empty.png".to_string(),
    );
    assert_eq!(
        resize_image(&asset, &AspectRatio { num: 3, den: 4 }).unwrap_err(),
        FileError::Unsupported
    );
}

#[test]
fn resize_rejects_a_mismatched_store() {
    let asset = ImageFile::new(
        PixelBuffer { width: 2, height: 2, data: vec![0u8; 12] },
        "short.png".to_string(),
    );
    assert_eq!(
        resize_image(&asset, &AspectRatio { num: 1, den: 1 }).unwrap_err(),
        FileError::Unsupported
    );
}

#[test]
fn create_resized_pads_and_keeps_name() {
    let asset = numbered_asset(1, 1, "dot.png");
    let out = asset.create_resized(
        &aspect_crop::Dimension { width: 2, height: 1 },
        &aspect_crop::Point { x: 0, y: 0 },
    );
    assert_eq!(out.filename, "dot.png");
    assert_eq!(out.image.data, vec![0, 1, 2, 3, 0, 0, 0, 0]);
}

#[test]
fn dimensions_reports_the_buffer_size() {
    let asset = numbered_asset(7, 2, "wide.png");
    let d = asset.dimensions();
    assert_eq!(d.width, 7);
    assert_eq!(d.height, 2);
}

#[test]
fn allowed_extensions_are_accepted() {
    assert!(allowed_filetype("photo.png"));
    assert!(allowed_filetype("photo.jpg"));
    assert!(allowed_filetype("photo.jpeg"));
    assert!(allowed_filetype("archive.tar.png"));
}

#[test]
fn bad_extension_is_skipped() {
    assert!(!allowed_filetype("photo.gif"));
    assert!(!allowed_filetype("photo.bmp"));
    assert!(!allowed_filetype("photo.jpgx"));
    assert!(!allowed_filetype("photo.jp"));
}

#[test]
fn uppercase_extension_is_skipped() {
    assert!(!allowed_filetype("photo.PNG"));
    assert!(!allowed_filetype("photo.Jpg"));
}

#[test]
fn names_without_an_extension_are_skipped() {
    assert!(!allowed_filetype("photo"));
    assert!(!allowed_filetype(""));
    assert!(!allowed_filetype("photo."));
    assert!(!allowed_filetype(".png"));
    assert!(!allowed_filetype("."));
}
