use media_pipeline::dom::extract_scraped;
use media_pipeline::dom::resolve_field;
use media_pipeline::images::ElemSrc;
use media_pipeline::images::collect_images;
use media_pipeline::images::dedup_images;
use media_pipeline::images::style_image_url;
use media_pipeline::statejson::extract_state_blob;
use media_pipeline::statejson::structured_fields;

fn state_html(json: &str, rest: &str) -> String {
    format!("<html><head><script>window.__INITIAL_STATE__={}</script></head>{}</html>", json, rest)
}

const NOTE_JSON: &str = r#"{"note":{"noteDetailMap":{"k1":{"note":{"title":"Blob Title","desc":"Blob Desc","imageList":[{"urlDefault":"https://img/2.jpg"},{"urlDefault":"https://img/1.jpg"},{"urlDefault":"https://img/2.jpg"}]}}}}}"#;

#[test]
fn isolates_and_normalizes_blob() {
    let html = state_html("  {\"a\":undefined};  ", "");
    let blob = extract_state_blob(&html).expect("blob found");
    assert_eq!(blob, "{\"a\":null}");
}

#[test]
fn no_marker_means_no_blob() {
    assert!(extract_state_blob("<html><title>x</title></html>").is_none());
    assert!(extract_state_blob("window.__INITIAL_STATE__={} with no script close").is_none());
}

#[test]
fn structured_fields_follow_the_note_path() {
    let html = state_html(NOTE_JSON, "");
    let (title, desc, images) = structured_fields(&html);
    assert_eq!(title, "Blob Title");
    assert_eq!(desc, "Blob Desc");
    assert_eq!(
        images,
        vec![
            "https://img/2.jpg".to_string(),
            "https://img/1.jpg".to_string(),
            "https://img/2.jpg".to_string()
        ]
    );
}

#[test]
fn blob_title_wins_over_dom() {
    let html = state_html(NOTE_JSON, "<body><title>DOM Title</title></body>");
    let data = extract_scraped(&html).expect("extraction succeeds");
    assert_eq!(data.title, "Blob Title");
    assert_eq!(data.description, "Blob Desc");
    // deduplicated and sorted
    assert_eq!(data.images, vec!["https://img/1.jpg".to_string(), "https://img/2.jpg".to_string()]);
    assert!(data.video.is_none());
}

#[test]
fn partial_structured_success_keeps_other_fields() {
    let json = r#"{"note":{"noteDetailMap":{"k1":{"note":{"title":"Blob Title"}}}}}"#;
    let html = format!(
        "<html><head><script>window.__INITIAL_STATE__={}</script>\
        <meta name='description' content='Meta Desc'><title>DOM Title</title></head>\
        <body></body></html>",
        json
    );
    let data = extract_scraped(&html).expect("extraction succeeds");
    assert_eq!(data.title, "Blob Title");
    assert_eq!(data.description, "Meta Desc");
}

#[test]
fn dom_title_fallback_when_no_blob() {
    let html = "<html><head><title>Page Title</title></head><body></body></html>";
    let data = extract_scraped(html).expect("extraction succeeds");
    assert_eq!(data.title, "Page Title");
}

#[test]
fn dom_title_text_is_trimmed() {
    let html = "<html><head><title>  Page Title \n</title></head><body></body></html>";
    let data = extract_scraped(html).expect("extraction succeeds");
    assert_eq!(data.title, "Page Title");
}

#[test]
fn secondary_title_selector_when_title_element_absent() {
    let html = "<html><body><div class=\"title\">Class Title</div></body></html>";
    let data = extract_scraped(html).expect("extraction succeeds");
    assert_eq!(data.title, "Class Title");
}

#[test]
fn description_from_meta_then_fallback() {
    let html = "<html><head><meta name='description' content='Meta Desc'></head><body><div class=\"desc\">Div Desc</div></body></html>";
    let data = extract_scraped(html).expect("extraction succeeds");
    assert_eq!(data.description, "Meta Desc");

    let html2 = "<html><body><div class=\"desc\">Div Desc</div></body></html>";
    let data2 = extract_scraped(html2).expect("extraction succeeds");
    assert_eq!(data2.description, "Div Desc");
}

#[test]
fn dom_images_filter_avatars_and_inline_data() {
    let html = "<html><body>\
        <img class=\"note-slider-img\" src=\"https://cdn/avatar/u.png\">\
        <img class=\"note-slider-img\" src=\"data:image/png;base64,AAA\">\
        <img class=\"note-slider-img\" src=\"https://cdn/b.png\">\
        <img class=\"note-slider-img\" src=\"https://cdn/a.png\">\
        <img class=\"note-slider-img\" src=\"https://cdn/a.png\">\
        </body></html>";
    let data = extract_scraped(html).expect("extraction succeeds");
    assert_eq!(data.images, vec!["https://cdn/a.png".to_string(), "https://cdn/b.png".to_string()]);
}

#[test]
fn style_background_image_extraction() {
    assert_eq!(
        style_image_url("background-image: url('https://cdn/c.jpg');"),
        Some("https://cdn/c.jpg".to_string())
    );
    assert_eq!(
        style_image_url("background-image:url(\"https://cdn/d.jpg\")"),
        Some("https://cdn/d.jpg".to_string())
    );
    assert_eq!(style_image_url("color: red"), None);
    assert_eq!(style_image_url("background-image: none"), None);
    assert_eq!(style_image_url("background-image: url('')"), None);
}

#[test]
fn collect_prefers_src_and_falls_back_to_style() {
    let items = vec![
        ElemSrc { src: Some("https://cdn/x.jpg".to_string()), style: None },
        ElemSrc {
            src: None,
            style: Some("background-image: url('https://cdn/y.jpg')".to_string()),
        },
        ElemSrc { src: Some("https://cdn/avatar1.jpg".to_string()), style: None },
        ElemSrc { src: None, style: None },
    ];
    let urls = collect_images(&items);
    assert_eq!(urls, vec!["https://cdn/x.jpg".to_string(), "https://cdn/y.jpg".to_string()]);
}

#[test]
fn collect_filters_style_urls_too() {
    let items = vec![
        ElemSrc {
            src: None,
            style: Some("background-image: url('https://cdn/avatar/u.png')".to_string()),
        },
        ElemSrc {
            src: None,
            style: Some("background-image: url(data:image/png;base64,AAA)".to_string()),
        },
        ElemSrc {
            src: None,
            style: Some("background-image: url('https://cdn/z.jpg')".to_string()),
        },
    ];
    let urls = collect_images(&items);
    assert_eq!(urls, vec!["https://cdn/z.jpg".to_string()]);
}

#[test]
fn dedup_sorts_and_removes_duplicates() {
    let urls = vec![
        "b".to_string(),
        "a".to_string(),
        "c".to_string(),
        "a".to_string(),
        "b".to_string(),
    ];
    assert_eq!(dedup_images(&urls), vec!["a".to_string(), "b".to_string(), "c".to_string()]);
    assert_eq!(dedup_images(&Vec::new()), Vec::<String>::new());
}

#[test]
fn resolve_field_takes_first_non_empty() {
    assert_eq!(
        resolve_field("kept".to_string(), Some("p".to_string()), Some("s".to_string())),
        "kept"
    );
    assert_eq!(
        resolve_field("".to_string(), Some("p".to_string()), Some("s".to_string())),
        "p"
    );
    assert_eq!(resolve_field("".to_string(), Some("".to_string()), Some("s".to_string())), "s");
    assert_eq!(resolve_field("".to_string(), None, Some("s".to_string())), "s");
    assert_eq!(resolve_field("".to_string(), None, None), "");
}
