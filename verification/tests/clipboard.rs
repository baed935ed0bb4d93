use mezon_desktop::clipboard::{
    base64_decode, check_image_download, base64_image_bytes, clipboard_image_png, decode_clipboard_image, needs_resize, MAX_FILE_SIZE,
};
use mezon_desktop::commands::base64::encode;

#[test]
fn test_base64_decode() {
    let encoded = "SGVsbG8gV29ybGQ="; // "Hello World"
    let decoded = base64_decode(encoded).unwrap();
    assert_eq!(decoded, b"Hello World");
}

#[test]
fn test_base64_decode_with_data_url() {
    let data_url = "data:image/png;base64,iVBORw0KGgo=";
    let base64_part = &data_url[data_url.find(",").unwrap() + 1..];
    let result = base64_decode(base64_part);
    assert!(result.is_ok());
}

#[test]
fn decode_png_signature_bytes() {
    let decoded = base64_decode("iVBORw0KGgo=").unwrap();
    assert_eq!(decoded, vec![0x89, b'P', b'N', b'G', 0x0D, 0x0A, 0x1A, 0x0A]);
}

#[test]
fn decode_empty_and_blank_input() {
    assert_eq!(base64_decode("").unwrap(), Vec::<u8>::new());
    assert_eq!(base64_decode("  \n\t ").unwrap(), Vec::<u8>::new());
}

#[test]
fn decode_ignores_spaces_and_line_breaks() {
    assert_eq!(base64_decode("  SGVs\r\nbG8g V29y\nbGQ=  ").unwrap(), b"Hello World");
    assert_eq!(base64_decode("\tTWE=\t").unwrap(), b"Ma");
}

#[test]
fn decode_padding_variants() {
    assert_eq!(base64_decode("TQ==").unwrap(), b"M");
    assert_eq!(base64_decode("TWE=").unwrap(), b"Ma");
    assert_eq!(base64_decode("TWFu").unwrap(), b"Man");
    // unpadded tails are accepted
    assert_eq!(base64_decode("TWE").unwrap(), b"Ma");
    assert_eq!(base64_decode("TQ").unwrap(), b"M");
    // a lone sextet gives nothing
    assert_eq!(base64_decode("T").unwrap(), Vec::<u8>::new());
}

#[test]
fn decode_rejects_invalid_characters() {
    assert_eq!(base64_decode("SGV*bG8="), Err("Invalid base64 character"));
    assert_eq!(base64_decode("ab\tcd"), Err("Invalid base64 character"));
    assert_eq!(base64_decode("é"), Err("Invalid base64 character"));
}

#[test]
fn decode_ignores_bytes_after_padding_in_a_group() {
    // after '=' the rest of the group of four is not read
    assert_eq!(base64_decode("TQ=*").unwrap(), b"M");
}

#[test]
fn decode_of_encode_gives_the_bytes_back() {
    let samples: Vec<Vec<u8>> = vec![
        vec![],
        vec![0],
        vec![255, 254],
        vec![1, 2, 3],
        (0u8..=255).collect(),
        b"any carnal pleasure.".to_vec(),
    ];
    for s in samples {
        let text = encode(&s);
        assert_eq!(base64_decode(&text).unwrap(), s);
    }
}

#[test]
fn data_url_payload_is_decoded() {
    assert_eq!(base64_image_bytes("data:text/plain;base64,SGk=").unwrap(), b"Hi");
    assert_eq!(base64_image_bytes("SGk=").unwrap(), b"Hi");
    assert_eq!(
        base64_image_bytes("data:x,??"),
        Err("Failed to decode base64: Invalid base64 character".to_string())
    );
}

#[test]
fn clipboard_image_size_limit() {
    let big = vec![0u8; MAX_FILE_SIZE + 1];
    match decode_clipboard_image(&big) {
        Err(e) => assert_eq!(e, "Image too large (max 50MB)"),
        Ok(_) => panic!("oversized image accepted"),
    }
}

#[test]
fn clipboard_image_decode_failure_is_reported() {
    match decode_clipboard_image(b"not an image") {
        Err(e) => assert!(e.starts_with("Failed to decode image: ")),
        Ok(_) => panic!("garbage decoded"),
    }
}

#[test]
fn clipboard_image_resize_threshold() {
    assert!(!needs_resize(4096, 4096));
    assert!(needs_resize(4097, 10));
    assert!(needs_resize(10, 4097));
}

#[test]
fn download_checks() {
    assert_eq!(check_image_download(false, "404 Not Found", Some(10)), Err("Failed to download image: HTTP 404 Not Found".to_string()));
    assert_eq!(check_image_download(true, "200 OK", Some((MAX_FILE_SIZE + 1) as u64)), Err("Image too large (max 50MB)".to_string()));
    assert_eq!(check_image_download(true, "200 OK", Some(MAX_FILE_SIZE as u64)), Ok(()));
    assert_eq!(check_image_download(true, "200 OK", None), Ok(()));
}

#[test]
fn clipboard_image_decodes_png() {
    let img = image::RgbaImage::from_raw(2, 1, vec![255, 0, 0, 255, 0, 255, 0, 255]).unwrap();
    let mut png = std::io::Cursor::new(Vec::new());
    img.write_to(&mut png, image::ImageFormat::Png).unwrap();
    let decoded = decode_clipboard_image(png.get_ref()).unwrap();
    assert_eq!(decoded.to_rgba8().into_raw(), vec![255, 0, 0, 255, 0, 255, 0, 255]);
}

#[test]
fn clipboard_image_png_round_trip() {
    let pixels = vec![10, 20, 30, 255, 40, 50, 60, 128];
    let png = clipboard_image_png(2, 1, &pixels).unwrap();
    assert_eq!(&png[..8], &[0x89, b'P', b'N', b'G', 0x0d, 0x0a, 0x1a, 0x0a]);
    let decoded = decode_clipboard_image(&png).unwrap();
    assert_eq!(decoded.to_rgba8().into_raw(), pixels);
}

#[test]
fn clipboard_image_png_needs_enough_bytes() {
    assert_eq!(
        clipboard_image_png(2, 2, &[0u8; 15]),
        Err("Failed to create image from clipboard data".to_string())
    );
    assert_eq!(
        clipboard_image_png(2, 2, &[0u8; 17]),
        Err("Failed to create image from clipboard data".to_string())
    );
    assert_eq!(
        clipboard_image_png(1, 1, &[0u8; 5]),
        Err("Failed to create image from clipboard data".to_string())
    );
    assert!(clipboard_image_png(2, 2, &[0u8; 16]).is_ok());
    match clipboard_image_png(0, 0, &[]) {
        Err(e) => assert!(e.starts_with("Failed to encode image as PNG: ")),
        Ok(_) => panic!("empty image encoded"),
    }
}

#[test]
fn decode_is_unchanged_by_inserted_gaps() {
    let plain = "SGVsbG8gV29ybGQ=";
    let spaced = " SG\r\nVs bG8g\nV29y\r\nbGQ= ";
    assert_eq!(base64_decode(spaced), base64_decode(plain));
    assert_eq!(base64_decode("\t S G V s\n"), base64_decode("\tSGVs"));
    assert_eq!(base64_decode("QQ=\n=!"), base64_decode("QQ==!"));
}

#[test]
fn canonical_text_survives_decode_and_encode() {
    for text in ["", "TWFu", "TWE=", "TQ==", "SGVsbG8gV29ybGQ=", "+/+/", "AAAAAA=="] {
        let bytes = base64_decode(text).unwrap();
        assert_eq!(encode(&bytes), text);
    }
    // Unused low bits that are not zero are dropped on the way back.
    assert_eq!(encode(&base64_decode("TR==").unwrap()), "TQ==");
}

#[test]
fn clipboard_image_decodes_jpeg_gif_and_webp() {
    let img = image::RgbaImage::from_raw(3, 2, vec![200u8; 24]).unwrap();
    let rgb = image::DynamicImage::ImageRgba8(img.clone()).to_rgb8();
    let mut jpeg = std::io::Cursor::new(Vec::new());
    rgb.write_to(&mut jpeg, image::ImageFormat::Jpeg).unwrap();
    let mut gif = std::io::Cursor::new(Vec::new());
    img.write_to(&mut gif, image::ImageFormat::Gif).unwrap();
    let mut webp = std::io::Cursor::new(Vec::new());
    img.write_to(&mut webp, image::ImageFormat::WebP).unwrap();
    for data in [jpeg.get_ref(), gif.get_ref(), webp.get_ref()] {
        let decoded = decode_clipboard_image(data).unwrap();
        assert_eq!((decoded.width(), decoded.height()), (3, 2));
    }
}
