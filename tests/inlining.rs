use inline_assets::css::{inline_css, rewrite_urls, VisitedSet};
use inline_assets::html::inline_html_string;
use inline_assets::output::finish_output;
use inline_assets::paths::{directory, join, rebase, to_forward_slashes};
use inline_assets::store::{FileStore, ReadOutcome};
use inline_assets::{Config, FilePathError};

fn found(store: &mut FileStore, path: &str, text: &str) {
    store.insert(
        path.to_string(),
        ReadOutcome::Found { canonical: path.to_string(), bytes: text.as_bytes().to_vec() },
    );
}

fn keep_lines() -> Config {
    Config { inline_fonts: false, remove_new_lines: false }
}

#[test]
fn end_to_end_import_then_rules() {
    let mut store = FileStore::new();
    found(&mut store, "/r/a.css", "@import url(\"b.css\"); body{background:url(bg.png)}");
    found(&mut store, "/r/b.css", ".x{color:red}");
    let out = inline_html_string(
        "<link rel=\"stylesheet\" href=\"a.css\">",
        "/r",
        keep_lines(),
        &store,
    )
    .unwrap();
    assert!(out.contains("<style>.x{color:red}body{background:url(bg.png)}</style>"), "{}", out);
    assert!(!out.contains("<link"));
}

#[test]
fn import_cycle_terminates() {
    let mut store = FileStore::new();
    found(&mut store, "/r/a.css", "@import url(b.css);\n.a{color:blue}");
    found(&mut store, "/r/b.css", "@import url(a.css);\n.b{color:red}");
    let mut visited = VisitedSet::new();
    let out = inline_css(&store, &"/r/a.css".to_string(), &"/r".to_string(), &mut visited).unwrap();
    assert_eq!(out, ".b{color:red}.a{color:blue}");
    assert_eq!(out.matches(".b{color:red}").count(), 1);
}

#[test]
fn repeated_stylesheet_in_one_call() {
    let mut store = FileStore::new();
    found(&mut store, "/r/a.css", ".a{}");
    let mut visited = VisitedSet::new();
    let root = "/r".to_string();
    let path = "/r/a.css".to_string();
    assert_eq!(inline_css(&store, &path, &root, &mut visited), Ok(".a{}".to_string()));
    assert_eq!(inline_css(&store, &path, &root, &mut visited), Err(FilePathError::RepeatedFile));
}

#[test]
fn duplicate_links_collapse() {
    let mut store = FileStore::new();
    found(&mut store, "/r/c.css", ".c{margin:0}");
    let html = "<link rel=\"stylesheet\" href=\"c.css\"><link rel=\"stylesheet\" href=\"c.css\">";
    let out = inline_html_string(html, "/r", keep_lines(), &store).unwrap();
    assert_eq!(out.matches(".c{margin:0}").count(), 1, "{}", out);
    assert_eq!(out.matches("<style>").count(), 1);
    assert!(!out.contains("<link"));
}

#[test]
fn duplicate_import_collapses() {
    let mut store = FileStore::new();
    found(&mut store, "/r/a.css", "@import url(c.css);@import url(c.css);.a{}");
    found(&mut store, "/r/c.css", ".c{}");
    let mut visited = VisitedSet::new();
    let out = inline_css(&store, &"/r/a.css".to_string(), &"/r".to_string(), &mut visited).unwrap();
    assert_eq!(out, ".c{}.a{}");
}

#[test]
fn url_rewritten_relative_to_root() {
    let mut store = FileStore::new();
    found(&mut store, "/p/assets/css/style.css", "h1{background:url(../img/a.png)}");
    let mut visited = VisitedSet::new();
    let out = inline_css(
        &store,
        &"/p/assets/css/style.css".to_string(),
        &"/p/assets".to_string(),
        &mut visited,
    )
    .unwrap();
    assert_eq!(out, "h1{background:url(css/../img/a.png)}");
}

#[test]
fn nested_import_resolves_from_root() {
    let mut store = FileStore::new();
    found(&mut store, "/r/main.css", "@import url('css/sub.css');\nmain{}");
    found(&mut store, "/r/css/sub.css", "@import url(\"deep.css\");\nsub{background:url(i.png)}");
    found(&mut store, "/r/css/deep.css", "deep{}");
    let mut visited = VisitedSet::new();
    let out =
        inline_css(&store, &"/r/main.css".to_string(), &"/r".to_string(), &mut visited).unwrap();
    assert_eq!(out, "deep{}sub{background:url(css/i.png)}main{}");
}

#[test]
fn remote_references_untouched() {
    let css = "a{background:url(\"http://example.com/x.png\")}b{background:url(https://cdn.test/y.png)}";
    let out = rewrite_urls(css, "/r/s.css", "/r");
    assert_eq!(out, "a{background:url(http://example.com/x.png)}b{background:url(https://cdn.test/y.png)}");
    assert!(out.contains("http://example.com/x.png"));
}

#[test]
fn remote_import_kept() {
    let mut store = FileStore::new();
    found(&mut store, "/r/a.css", "@import url(http://fonts.test/f.css);\n.a{}");
    let mut visited = VisitedSet::new();
    let out = inline_css(&store, &"/r/a.css".to_string(), &"/r".to_string(), &mut visited).unwrap();
    assert_eq!(out, "@import url(http://fonts.test/f.css);\n.a{}");
}

#[test]
fn remote_link_and_script_kept() {
    let store = FileStore::new();
    let html = "<link rel=\"stylesheet\" href=\"http://cdn.test/s.css\"><script src=\"https://cdn.test/x.js\"></script>";
    let out = inline_html_string(html, "/r", keep_lines(), &store).unwrap();
    assert!(out.contains("http://cdn.test/s.css"));
    assert!(out.contains("https://cdn.test/x.js"));
}

#[test]
fn data_and_long_urls_untouched() {
    let long: String = std::iter::repeat('a').take(1501).collect();
    let css = format!("a{{background:url('data:image/png;base64,AAA=')}}b{{background:url({})}}", long);
    let out = rewrite_urls(&css, "/r/css/s.css", "/r");
    assert_eq!(out, css);
    let short: String = std::iter::repeat('a').take(1500).collect();
    let out2 = rewrite_urls(&format!("b{{background:url({})}}", short), "/r/css/s.css", "/r");
    assert_eq!(out2, format!("b{{background:url(css/{})}}", short));
}

#[test]
fn comments_are_stripped_first() {
    let mut store = FileStore::new();
    found(&mut store, "/r/a.css", "/* @import url(gone.css); */.a{/* x ** y */color:red}");
    let mut visited = VisitedSet::new();
    let out = inline_css(&store, &"/r/a.css".to_string(), &"/r".to_string(), &mut visited).unwrap();
    assert_eq!(out, ".a{color:red}");
}

#[test]
fn script_is_inlined() {
    let mut store = FileStore::new();
    found(&mut store, "/r/js/app.js", "console.log(1 < 2);");
    let out = inline_html_string(
        "<script src=\"js/app.js\"></script><script>var x;</script>",
        "/r",
        keep_lines(),
        &store,
    )
    .unwrap();
    assert!(out.contains("<script>console.log(1 < 2);</script>"), "{}", out);
    assert!(out.contains("<script>var x;</script>"));
    assert!(!out.contains("src="));
}

#[test]
fn non_stylesheet_link_kept() {
    let store = FileStore::new();
    let out = inline_html_string("<link rel=\"icon\" href=\"f.ico\">", "/r", keep_lines(), &store)
        .unwrap();
    assert!(out.contains("<link "), "{}", out);
    assert!(out.contains("rel=\"icon\""));
    assert!(out.contains("href=\"f.ico\""));
    assert!(!out.contains("<style>"));
}

#[test]
fn missing_file_is_invalid_path() {
    let mut store = FileStore::new();
    store.insert("/r/none.css".to_string(), ReadOutcome::NotFound);
    let r = inline_html_string("<link rel=\"stylesheet\" href=\"none.css\">", "/r", keep_lines(), &store);
    assert_eq!(r, Err(FilePathError::InvalidPath("File not found: /r/none.css".to_string())));
}

#[test]
fn failed_read_is_file_read_error() {
    let mut store = FileStore::new();
    store.insert("/r/x.js".to_string(), ReadOutcome::Failed("permission denied".to_string()));
    let r = inline_html_string("<script src=\"x.js\"></script>", "/r", keep_lines(), &store);
    assert_eq!(
        r,
        Err(FilePathError::FileReadError("/r/x.js".to_string(), "permission denied".to_string()))
    );
}

#[test]
fn error_in_import_aborts() {
    let mut store = FileStore::new();
    found(&mut store, "/r/a.css", "@import url(b.css);.a{}");
    store.insert("/r/b.css".to_string(), ReadOutcome::NotFound);
    let mut visited = VisitedSet::new();
    let r = inline_css(&store, &"/r/a.css".to_string(), &"/r".to_string(), &mut visited);
    assert_eq!(r, Err(FilePathError::InvalidPath("File not found: /r/b.css".to_string())));
}

#[test]
fn unread_file_is_reported() {
    let store = FileStore::new();
    let r = inline_html_string("<link rel=\"stylesheet\" href=\"a.css\">", "/r", keep_lines(), &store);
    assert_eq!(r, Err(FilePathError::Unread("/r/a.css".to_string())));
}

#[test]
fn newlines_removed_or_kept() {
    let mut store = FileStore::new();
    found(&mut store, "/r/a.css", "a{\r\ncolor:red;\n}");
    let html = "<html><head>\n<link rel=\"stylesheet\" href=\"a.css\">\r\n</head></html>";
    let kept = inline_html_string(html, "/r", keep_lines(), &store).unwrap();
    assert!(kept.contains("a{\ncolor:red;\n}"), "{}", kept);
    assert!(!kept.contains('\r'));
    let flat = inline_html_string(html, "/r", Config::default(), &store).unwrap();
    assert!(!flat.contains('\n'));
    assert!(flat.contains("a{ color:red; }"), "{}", flat);
}

#[test]
fn finish_output_exact() {
    assert_eq!(finish_output("a\r\nb\nc\rd", false), "a\nb\nc\rd");
    assert_eq!(finish_output("a\r\nb\nc\rd", true), "a b c\rd");
    assert_eq!(finish_output("", true), "");
}

#[test]
fn path_helpers() {
    assert_eq!(join("/r", "a.css"), "/r/a.css");
    assert_eq!(join("/r/", "a.css"), "/r/a.css");
    assert_eq!(join("/r", "/abs/a.css"), "/abs/a.css");
    assert_eq!(directory("/r/css/a.css"), "/r/css");
    assert_eq!(directory("/a.css"), "/");
    assert_eq!(directory("a.css"), "");
    assert_eq!(to_forward_slashes("a\\b\\c"), "a/b/c");
    assert_eq!(rebase("/r/css/a.css", "../img/x.png", "/r"), "css/../img/x.png");
    assert_eq!(rebase("/r/css/a.css", "x.png", "/r/css"), "x.png");
}

#[test]
fn default_config_enables_everything() {
    let c = Config::default();
    assert!(c.inline_fonts);
    assert!(c.remove_new_lines);
}

#[test]
fn error_texts() {
    let e = FilePathError::InvalidPath("File not found: x".to_string());
    assert_eq!(e.message(), "Invalid path: File not found: x");
    assert_eq!(e.description(), "Invalid path, file not found");
    let f = FilePathError::FileReadError("p".to_string(), "boom".to_string());
    assert_eq!(f.message(), "Cause: p, File read error: boom");
    assert_eq!(
        FilePathError::RepeatedFile.message(),
        "A file is imported twice, or there is a circular dependency"
    );
}

#[test]
fn script_keeps_other_attributes() {
    let mut store = FileStore::new();
    found(&mut store, "/r/x.js", "let a = 1;\r\nlet b = 2;");
    let out = inline_html_string(
        "<script src=\"x.js\" a=\"b\"></script>",
        "/r",
        keep_lines(),
        &store,
    )
    .unwrap();
    assert!(out.contains("<script a=\"b\">let a = 1;\nlet b = 2;</script>"), "{}", out);
}

#[test]
fn newline_removal_only_changes_newlines() {
    let mut store = FileStore::new();
    found(&mut store, "/r/a.css", "a{\ncolor:red}\r\n");
    found(&mut store, "/r/x.js", "f();\ng();");
    let html = "<html>\n<head><link rel=\"stylesheet\" href=\"a.css\"></head>\n<body><script src=\"x.js\"></script></body></html>";
    let on = Config { inline_fonts: false, remove_new_lines: true };
    let kept = inline_html_string(html, "/r", keep_lines(), &store).unwrap();
    let flat = inline_html_string(html, "/r", on, &store).unwrap();
    assert_eq!(flat, kept.replace('\n', " "));
}

#[test]
fn equal_calls_equal_results() {
    let mut store = FileStore::new();
    found(&mut store, "/r/a.css", "@import url(b.css);a{}");
    found(&mut store, "/r/b.css", "b{}");
    let html = "<link rel=\"stylesheet\" href=\"a.css\">";
    let first = inline_html_string(html, "/r", keep_lines(), &store).unwrap();
    let second = inline_html_string(html, "/r", keep_lines(), &store).unwrap();
    assert_eq!(first, second);
    assert!(second.contains("<style>b{}a{}</style>"));
}

#[test]
fn unreadable_stylesheet_reports_canonical_path() {
    let mut store = FileStore::new();
    store.insert(
        "/r/./a.css".to_string(),
        ReadOutcome::Unreadable { canonical: "/r/a.css".to_string(), cause: "denied".to_string() },
    );
    let mut visited = VisitedSet::new();
    let r = inline_css(&store, &"/r/./a.css".to_string(), &"/r".to_string(), &mut visited);
    assert_eq!(r, Err(FilePathError::FileReadError("/r/a.css".to_string(), "denied".to_string())));
}

#[test]
fn unreadable_visited_stylesheet_is_repeat() {
    let mut store = FileStore::new();
    found(&mut store, "/r/a.css", "@import url(b.css);a{}");
    store.insert(
        "/r/b.css".to_string(),
        ReadOutcome::Unreadable { canonical: "/r/a.css".to_string(), cause: "denied".to_string() },
    );
    let mut visited = VisitedSet::new();
    let r = inline_css(&store, &"/r/a.css".to_string(), &"/r".to_string(), &mut visited);
    assert_eq!(r, Ok("a{}".to_string()));
}

#[test]
fn unrelated_root_gets_forward_slashes() {
    assert_eq!(rebase("css\\sub/a.css", "x.png", "/abs"), "css/sub/x.png");
}
