use mezon_desktop::screen_capture::{
    base64_encode, clear_screen_sources_cache, finish_screen_sources, get_screen_sources,
    image_to_data_url, load_more_screen_sources, source_kind, ScreenSource, SourceKind,
    SourcesCache, SourcesRequest, ThumbnailSize,
};

fn source(i: usize, kind: &str) -> ScreenSource {
    ScreenSource {
        id: format!("{}:{}", kind, i),
        name: format!("Source {}", i),
        thumbnail: String::new(),
        icon: String::new(),
        source_type: kind.to_string(),
    }
}

fn sources(n: usize, kind: &str) -> Vec<ScreenSource> {
    (0..n).map(|i| source(i, kind)).collect()
}

fn ids(v: &[ScreenSource]) -> Vec<String> {
    v.iter().map(|s| s.id.clone()).collect()
}

#[test]
fn thumbnail_sizes() {
    let s = ThumbnailSize::for_screen();
    assert_eq!((s.width, s.height), (272, 136));
    let w = ThumbnailSize::for_window();
    assert_eq!((w.width, w.height), (150, 90));
}

#[test]
fn source_kinds() {
    assert_eq!(source_kind("screen"), Some(SourceKind::Screen));
    assert_eq!(source_kind("window"), Some(SourceKind::Window));
    assert_eq!(source_kind("Screen"), None);
    assert_eq!(source_kind(""), None);
}

#[test]
fn unknown_type_is_an_error() {
    let cache = SourcesCache::new();
    match get_screen_sources(&cache, "tab") {
        SourcesRequest::Ready(Err(e)) => assert_eq!(e, "Unknown source type: tab"),
        _ => panic!("unknown type must fail"),
    }
}

#[test]
fn first_request_asks_for_a_capture_then_is_served_from_cache() {
    let mut cache = SourcesCache::new();
    match get_screen_sources(&cache, "window") {
        SourcesRequest::Capture(SourceKind::Window) => {}
        _ => panic!("empty cache must capture"),
    }
    let all = sources(30, "window");
    let first = finish_screen_sources(&mut cache, SourceKind::Window, Ok(all.clone())).unwrap();
    assert_eq!(first.total, 30);
    assert!(first.has_more);
    assert_eq!(ids(&first.sources), ids(&all[..12]));
    match get_screen_sources(&cache, "window") {
        SourcesRequest::Ready(Ok(again)) => {
            assert_eq!(again.total, 30);
            assert_eq!(ids(&again.sources), ids(&all[..12]));
        }
        _ => panic!("cached kind must answer at once"),
    }
    // the other kind is still uncached
    assert!(matches!(get_screen_sources(&cache, "screen"), SourcesRequest::Capture(SourceKind::Screen)));
}

#[test]
fn failed_capture_is_not_cached() {
    let mut cache = SourcesCache::new();
    let r = finish_screen_sources(&mut cache, SourceKind::Screen, Err("No displays found".to_string()));
    assert_eq!(r.unwrap_err(), "No displays found");
    assert!(matches!(get_screen_sources(&cache, "screen"), SourcesRequest::Capture(SourceKind::Screen)));
}

#[test]
fn small_lists_fit_in_the_first_answer() {
    let mut cache = SourcesCache::new();
    let r = finish_screen_sources(&mut cache, SourceKind::Screen, Ok(sources(12, "screen"))).unwrap();
    assert_eq!(r.total, 12);
    assert!(!r.has_more);
    assert_eq!(r.sources.len(), 12);
    let more = load_more_screen_sources(&cache, "screen", 12).unwrap();
    assert!(more.sources.is_empty());
    assert!(!more.has_more);
}

#[test]
fn paging_visits_every_source_once() {
    let mut cache = SourcesCache::new();
    let all = sources(29, "window");
    let first = finish_screen_sources(&mut cache, SourceKind::Window, Ok(all.clone())).unwrap();
    let mut seen = ids(&first.sources);
    let mut has_more = first.has_more;
    let mut pages = 0;
    while has_more {
        let page = load_more_screen_sources(&cache, "window", seen.len()).unwrap();
        assert!(page.sources.len() <= 8);
        seen.extend(ids(&page.sources));
        has_more = page.has_more;
        pages += 1;
    }
    assert_eq!(pages, 3); // 12 + 8 + 8 + 1
    assert_eq!(seen, ids(&all));
}

#[test]
fn load_more_edges() {
    let mut cache = SourcesCache::new();
    finish_screen_sources(&mut cache, SourceKind::Window, Ok(sources(20, "window"))).unwrap();
    let p = load_more_screen_sources(&cache, "window", 12).unwrap();
    assert_eq!(ids(&p.sources), ids(&sources(20, "window")[12..20]));
    assert!(!p.has_more);
    let past = load_more_screen_sources(&cache, "window", 1000).unwrap();
    assert!(past.sources.is_empty() && !past.has_more);
    let uncached = load_more_screen_sources(&cache, "screen", 0).unwrap();
    assert!(uncached.sources.is_empty() && !uncached.has_more);
    let unknown = load_more_screen_sources(&cache, "bogus", 0).unwrap();
    assert!(unknown.sources.is_empty() && !unknown.has_more);
}

#[test]
fn clearing_the_cache() {
    let mut cache = SourcesCache::new();
    finish_screen_sources(&mut cache, SourceKind::Window, Ok(sources(3, "window"))).unwrap();
    finish_screen_sources(&mut cache, SourceKind::Screen, Ok(sources(1, "screen"))).unwrap();
    clear_screen_sources_cache(&mut cache, Some("window"));
    assert!(matches!(get_screen_sources(&cache, "window"), SourcesRequest::Capture(_)));
    assert!(matches!(get_screen_sources(&cache, "screen"), SourcesRequest::Ready(Ok(_))));
    clear_screen_sources_cache(&mut cache, Some("other"));
    assert!(matches!(get_screen_sources(&cache, "screen"), SourcesRequest::Ready(Ok(_))));
    clear_screen_sources_cache(&mut cache, None);
    assert!(matches!(get_screen_sources(&cache, "screen"), SourcesRequest::Capture(_)));
}

#[test]
fn base64_encoding_of_thumbnails() {
    assert_eq!(base64_encode(b"Man"), "TWFu");
    assert_eq!(base64_encode(b"Ma"), "TWE=");
}

#[test]
fn data_url_of_a_small_image() {
    let pixels: Vec<u8> = (0..(4 * 4 * 4)).map(|i| (i * 7 % 256) as u8).collect();
    let url = image_to_data_url(&pixels, 4, 4, ThumbnailSize { width: 2, height: 2 });
    assert!(url.starts_with("data:image/png;base64,iVBORw0KGgo"));
    // decoding the payload gives a PNG file
    let payload = &url["data:image/png;base64,".len()..];
    let png = mezon_desktop::clipboard::base64_decode(payload).unwrap();
    assert_eq!(&png[..8], &[0x89, b'P', b'N', b'G', 0x0D, 0x0A, 0x1A, 0x0A]);
}

#[test]
fn data_url_of_a_short_buffer_is_empty() {
    let pixels = vec![0u8; 15];
    assert_eq!(image_to_data_url(&pixels, 2, 2, ThumbnailSize::for_window()), "");
}

fn expected_thumbnail(pixels: &[u8], w: u32, h: u32, tw: u32, th: u32) -> String {
    let img = image::ImageBuffer::<image::Rgba<u8>, Vec<u8>>::from_raw(w, h, pixels.to_vec()).unwrap();
    let small = image::imageops::resize(&img, tw, th, image::imageops::FilterType::Triangle);
    let mut png = std::io::Cursor::new(Vec::new());
    small.write_to(&mut png, image::ImageFormat::Png).unwrap();
    format!("data:image/png;base64,{}", base64_encode(png.get_ref()))
}

#[test]
fn data_url_matches_a_direct_resample_and_encode() {
    let pixels: Vec<u8> = (0..(6 * 5 * 4)).map(|i| (i * 37 % 251) as u8).collect();
    let url = image_to_data_url(&pixels, 6, 5, ThumbnailSize { width: 3, height: 2 });
    assert_eq!(url, expected_thumbnail(&pixels, 6, 5, 3, 2));
    // the thumbnail really is resampled: a 3 x 2 PNG, not the top-left pixels
    let payload = &url["data:image/png;base64,".len()..];
    let png = mezon_desktop::clipboard::base64_decode(payload).unwrap();
    let decoded = image::load_from_memory(&png).unwrap().to_rgba8();
    assert_eq!(decoded.dimensions(), (3, 2));
    assert_ne!(decoded.into_raw(), pixels[..24].to_vec());
}

#[test]
fn longer_buffers_are_accepted() {
    let mut pixels: Vec<u8> = (0..(2 * 2 * 4)).map(|i| (i * 11) as u8).collect();
    let url = image_to_data_url(&pixels, 2, 2, ThumbnailSize { width: 1, height: 1 });
    pixels.extend_from_slice(&[9, 9, 9]);
    assert_eq!(image_to_data_url(&pixels, 2, 2, ThumbnailSize { width: 1, height: 1 }), url);
}
