use base64::Engine;
use inline_assets::fonts::{embed_fonts, mime_of};
use inline_assets::html::inline_html_string;
use inline_assets::store::{FileStore, ReadOutcome};
use inline_assets::{Config, FilePathError};

fn record(store: &mut FileStore, path: &str, bytes: &[u8]) {
    store.insert(
        path.to_string(),
        ReadOutcome::Found { canonical: path.to_string(), bytes: bytes.to_vec() },
    );
}

fn data_of(out: &str, mime: &str) -> Vec<u8> {
    let head = format!("url(data:{};charset=utf-8;base64,", mime);
    let start = out.find(&head).expect("no data url") + head.len();
    let end = start + out[start..].find(')').unwrap();
    base64::engine::general_purpose::STANDARD.decode(&out[start..end]).unwrap()
}

#[test]
fn font_round_trip() {
    let font: Vec<u8> = vec![0x77, 0x4f, 0x46, 0x46, 0x00, 0x01, 0xff, 0xfe, 0x80];
    let mut store = FileStore::new();
    record(&mut store, "/r/fonts/f.woff", &font);
    record(&mut store, "/r/a.css", b"@font-face { font-family: F; src: url(fonts/f.woff); }\nb{}");
    let cfg = Config { inline_fonts: true, remove_new_lines: false };
    let out = inline_html_string("<link rel=\"stylesheet\" href=\"a.css\">", "/r", cfg, &store)
        .unwrap();
    assert!(!out.contains("url(fonts/f.woff)"));
    assert_eq!(data_of(&out, "application/font-woff"), font);
}

#[test]
fn fonts_left_when_disabled() {
    let mut store = FileStore::new();
    record(&mut store, "/r/css/a.css", b"@font-face { src: url(../fonts/f.woff); }");
    let cfg = Config { inline_fonts: false, remove_new_lines: false };
    let out = inline_html_string("<link rel=\"stylesheet\" href=\"css/a.css\">", "/r", cfg, &store)
        .unwrap();
    assert!(out.contains("url(css/../fonts/f.woff)"), "{}", out);
    assert!(!out.contains("data:"));
}

#[test]
fn font_exact_data_url() {
    let mut store = FileStore::new();
    record(&mut store, "/r/f.ttf", b"abc");
    let out = embed_fonts("@font-face{src:url(f.ttf)}p{background:url(x.png)}", &store, &"/r".to_string())
        .unwrap();
    assert_eq!(
        out,
        "@font-face{src:url(data:application/font-ttf;charset=utf-8;base64,YWJj)}p{background:url(x.png)}"
    );
}

#[test]
fn font_remote_and_outside_blocks_untouched() {
    let store = FileStore::new();
    let css = "@font-face{src:url(https://fonts.test/a.woff2)}i{background:url(img.png)}";
    assert_eq!(embed_fonts(css, &store, &"/r".to_string()), Ok(css.to_string()));
}

#[test]
fn font_missing_is_error() {
    let mut store = FileStore::new();
    store.insert("/r/f.otf".to_string(), ReadOutcome::NotFound);
    let r = embed_fonts("@font-face{src:url(f.otf)}", &store, &"/r".to_string());
    assert_eq!(r, Err(FilePathError::InvalidPath("File not found: /r/f.otf".to_string())));
    let r2 = embed_fonts("@font-face{src:url(g.otf)}", &store, &"/r".to_string());
    assert_eq!(r2, Err(FilePathError::Unread("/r/g.otf".to_string())));
}

#[test]
fn font_mime_by_extension() {
    assert_eq!(mime_of("a/f.woff"), "application/font-woff");
    assert_eq!(mime_of("a/f.woff2"), "application/font-woff2");
    assert_eq!(mime_of("f.otf"), "font/opentype");
    assert_eq!(mime_of("f.ttf"), "application/font-ttf");
    assert_eq!(mime_of("f.eot"), "application/font-ttf");
}

#[test]
fn invalid_utf8_stylesheet_is_read_error() {
    let mut store = FileStore::new();
    record(&mut store, "/r/a.css", &[0x61, 0xff, 0x62]);
    let cfg = Config { inline_fonts: false, remove_new_lines: false };
    let r = inline_html_string("<link rel=\"stylesheet\" href=\"a.css\">", "/r", cfg, &store);
    assert_eq!(
        r,
        Err(FilePathError::FileReadError(
            "/r/a.css".to_string(),
            "stream did not contain valid UTF-8".to_string()
        ))
    );
}

#[test]
fn font_only_src_declaration_embedded() {
    let mut store = FileStore::new();
    record(&mut store, "/r/f.woff2", b"xyz");
    let css = "@font-face{font-family:F;src:url(f.woff2) format('woff2');x-note:url(other.png)}";
    let out = embed_fonts(css, &store, &"/r".to_string()).unwrap();
    assert_eq!(
        out,
        "@font-face{font-family:F;src:url(data:application/font-woff2;charset=utf-8;base64,eHl6) format('woff2');x-note:url(other.png)}"
    );
}
