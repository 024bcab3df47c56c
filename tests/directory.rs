use pingap::directory::{
    get_autoindex_html, get_cacheable_and_headers_from_meta, join_path, listing_response,
    open_failure, finish_streamed, parse_options, DirEntry, Directory, FileReply, PAGE_HEAD,
    PAGE_TAIL,
};
use pingap::plugin::{HandleOutcome, ProxyPlugin, ProxyPluginCategory, ProxyPluginStep, State};
use pingap::text::{parse_unsigned_bounded, radix_text};

fn header(name: &str, value: &str) -> (String, String) {
    (name.to_string(), value.to_string())
}

#[test]
fn test_new_directory() {
    let dir = Directory::new(
        "~/Downloads?chunk_size=1024&max_age=3600&private&index=pingap/index.html",
        ProxyPluginStep::RequestFilter,
    );
    assert_eq!(1024, dir.chunk_size.unwrap_or_default());
    assert_eq!(3600, dir.max_age.unwrap_or_default());
    assert_eq!(true, dir.cache_private.unwrap_or_default());
    assert_eq!("/pingap/index.html", dir.index);
}

#[test]
fn directory_defaults_and_root() {
    let dir = Directory::new("/var/www", ProxyPluginStep::RequestFilter);
    assert_eq!("/var/www", dir.path);
    assert_eq!("/index.html", dir.index);
    assert!(!dir.autoindex);
    assert_eq!(None, dir.chunk_size);
    assert_eq!(None, dir.max_age);
    assert_eq!(None, dir.cache_private);
    assert_eq!(None, dir.charset);
    assert_eq!(ProxyPluginCategory::Directory, dir.category());
    assert_eq!(ProxyPluginStep::RequestFilter, dir.step());

    let dir = Directory::new(
        "file:///srv/static?charset=utf-8&chunk_size=abc&max_age=-1&unknown=1",
        ProxyPluginStep::RequestFilter,
    );
    assert_eq!("/srv/static", dir.path);
    assert_eq!(Some("utf-8".to_string()), dir.charset);
    assert_eq!(None, dir.chunk_size);
    assert_eq!(None, dir.max_age);
}

#[test]
fn home_is_expanded() {
    let dir = Directory::with_home(
        "~/Downloads?private",
        ProxyPluginStep::RequestFilter,
        Some("/home/user"),
    );
    assert_eq!("/home/user/Downloads", dir.path);
    assert_eq!(Some(true), dir.cache_private);
}

#[test]
fn autoindex_root_lists_instead_of_index() {
    let dir = Directory::new(
        "/var/www?autoindex&index=home.html",
        ProxyPluginStep::RequestFilter,
    );
    assert!(dir.autoindex);
    assert_eq!("/home.html", dir.index);
    let target = dir.target("");
    assert_eq!("/var/www/", target);
    assert!(dir.lists(true));
}

#[test]
fn request_paths_map_below_root() {
    let dir = Directory::new("/var/www", ProxyPluginStep::RequestFilter);
    assert_eq!("/var/www/index.html", dir.target("/"));
    assert_eq!("/var/www/index.html", dir.target(""));
    assert_eq!("/var/www/a b.txt", dir.target("/a%20b.txt"));
    assert_eq!("/var/www/css/site.css", dir.target("/css/site.css"));
    assert_eq!("/var/www/bad%ff", dir.target("/bad%ff"));
    assert!(!dir.lists(true));
}

#[test]
fn path_joining() {
    assert_eq!("/a/b", join_path("/a", "b"));
    assert_eq!("/a/b", join_path("/a/", "b"));
    assert_eq!("/b", join_path("/a", "/b"));
    assert_eq!("b", join_path("", "b"));
    assert_eq!("/a/", join_path("/a", ""));
}

#[test]
fn html_is_not_cacheable() {
    let (cacheable, size, headers) = get_cacheable_and_headers_from_meta(
        "./error.html",
        1024,
        Some(1700000000),
        &Some("utf-8".to_string()),
    );
    assert_eq!(false, cacheable);
    assert_eq!(1024, size);
    assert_eq!(
        vec![
            header("content-type", "text/html; charset=utf-8"),
            header("etag", "W/\"400-6553f100\""),
        ],
        headers
    );
}

#[test]
fn other_types_are_cacheable() {
    let (cacheable, _, headers) =
        get_cacheable_and_headers_from_meta("site.css", 10, None, &Some("utf-8".to_string()));
    assert!(cacheable);
    assert_eq!(vec![header("content-type", "text/css; charset=utf-8")], headers);

    let (cacheable, _, headers) =
        get_cacheable_and_headers_from_meta("logo.png", 10, Some(0), &Some("utf-8".to_string()));
    assert!(cacheable);
    assert_eq!(vec![header("content-type", "image/png")], headers);

    let (_, _, headers) = get_cacheable_and_headers_from_meta("data.unknownext", 10, None, &None);
    assert_eq!(vec![header("content-type", "application/octet-stream")], headers);
}

#[test]
fn etag_follows_size_and_time() {
    let etag = |size: u64, secs: u64| {
        let (_, _, headers) = get_cacheable_and_headers_from_meta("a.txt", size, Some(secs), &None);
        headers[1].1.clone()
    };
    assert_eq!(etag(100, 5), etag(100, 5));
    assert_ne!(etag(100, 5), etag(101, 5));
    assert_ne!(etag(100, 5), etag(100, 6));
    assert_eq!("W/\"64-5\"", etag(100, 5));
}

#[test]
fn small_files_are_buffered() {
    let dir = Directory::new("/var/www?max_age=60&private", ProxyPluginStep::RequestFilter);
    match dir.file_reply("index.html", 4096, Some(1)) {
        FileReply::Buffered { headers, size } => {
            assert_eq!(4096, size);
            assert_eq!(header("content-type", "text/html"), headers[0]);
            let body = vec![7u8; 4096];
            let resp = dir.buffered_response(headers, body.clone());
            assert_eq!(200, resp.status);
            assert_eq!(body, resp.body);
            assert_eq!(Some(60), resp.max_age);
            assert_eq!(Some(true), resp.cache_private);
        }
        FileReply::Streamed(_) => panic!("expected a buffered reply"),
    }
}

#[test]
fn large_files_are_streamed() {
    let dir = Directory::new(
        "/var/www?max_age=60&private&chunk_size=8192",
        ProxyPluginStep::RequestFilter,
    );
    match dir.file_reply("index.html", 4097, None) {
        FileReply::Streamed(plan) => {
            assert_eq!(None, plan.max_age);
            assert_eq!(Some(true), plan.cache_private);
            assert_eq!(Some(8192), plan.chunk_size);
        }
        FileReply::Buffered { .. } => panic!("expected a stream"),
    }
    match dir.file_reply("app.js", 10000, None) {
        FileReply::Streamed(plan) => assert_eq!(Some(60), plan.max_age),
        FileReply::Buffered { .. } => panic!("expected a stream"),
    }
    let mut ctx = State::new();
    let outcome = finish_streamed(&mut ctx, 10000);
    assert!(matches!(outcome, HandleOutcome::AlreadyWritten));
    assert_eq!(Some(200), ctx.status);
    assert_eq!(10000, ctx.response_body_size);
}

#[test]
fn missing_files_are_not_found() {
    let resp = open_failure(true, "No such file or directory");
    assert_eq!(404, resp.status);
    assert_eq!(b"Not Found".to_vec(), resp.body);
    let resp = open_failure(false, "Permission denied");
    assert_eq!(500, resp.status);
    assert_eq!(b"Permission denied".to_vec(), resp.body);
}

#[test]
fn listing_skips_hidden_entries() {
    let entries = vec![
        DirEntry { path: "/srv/a.txt".to_string(), name: "a.txt".to_string(), size: Some(10) },
        DirEntry { path: "/srv/.git".to_string(), name: ".git".to_string(), size: None },
        DirEntry { path: "/srv/docs".to_string(), name: "docs".to_string(), size: None },
        DirEntry { path: "/srv/".to_string(), name: "".to_string(), size: None },
        DirEntry { path: "/srv/big.bin".to_string(), name: "big.bin".to_string(), size: Some(2000) },
    ];
    let html = get_autoindex_html("/srv", &entries);
    let rows = [
        r#"<li><a href=".//a.txt">a.txt</a><span class="size">10 B</span></li>"#,
        r#"<li><a href=".//docs">docs</a><span class="size"></span></li>"#,
        r#"<li><a href=".//big.bin">big.bin</a><span class="size">2.0 KB</span></li>"#,
    ];
    assert_eq!(format!("{}{}{}", PAGE_HEAD, rows.join("\n"), PAGE_TAIL), html);
    assert_eq!(3, html.matches("<li>").count());
    assert!(!html.contains(".git"));

    let empty = get_autoindex_html("/srv", &vec![]);
    assert_eq!(format!("{}{}", PAGE_HEAD, PAGE_TAIL), empty);
}

#[test]
fn listing_responses() {
    let ok = listing_response(Ok("<ul></ul>".to_string()));
    assert_eq!(200, ok.status);
    assert_eq!(b"<ul></ul>".to_vec(), ok.body);
    let err = listing_response(Err("Permission denied".to_string()));
    assert_eq!(400, err.status);
    assert_eq!(b"Permission denied".to_vec(), err.body);
}

#[test]
fn decimal_and_hex_text() {
    assert_eq!(Some(12), parse_unsigned_bounded("+12", u64::MAX));
    assert_eq!(None, parse_unsigned_bounded("", u64::MAX));
    assert_eq!(None, parse_unsigned_bounded("+", u64::MAX));
    assert_eq!(None, parse_unsigned_bounded("1a", u64::MAX));
    assert_eq!(None, parse_unsigned_bounded("4294967296", 4294967295));
    assert_eq!(Some(18446744073709551615), parse_unsigned_bounded("18446744073709551615", u64::MAX));
    assert_eq!(None, parse_unsigned_bounded("18446744073709551616", u64::MAX));
    assert_eq!("ff", radix_text(255, 16));
    assert_eq!("0", radix_text(0, 10));
    assert_eq!("1024", radix_text(1024, 10));
}

#[test]
fn multibyte_paths_keep_whole_characters() {
    let dir = Directory::new("/srv/fõø", ProxyPluginStep::RequestFilter);
    assert_eq!("/srv/fõø", dir.path);
    assert_eq!("/srv/fõø/bα®.txt", dir.target("/bα®.txt"));
}

#[test]
fn root_is_cut_at_question_mark_and_decoded() {
    let dir = Directory::new("/var/www?index=a b.html", ProxyPluginStep::RequestFilter);
    assert_eq!("/var/www", dir.path);
    assert_eq!("/a b.html", dir.index);
    let dir = Directory::new("file:///var/my%20site?autoindex", ProxyPluginStep::RequestFilter);
    assert_eq!("/var/my site", dir.path);
    assert!(dir.autoindex);
}

#[test]
fn options_from_pairs() {
    let pairs = vec![
        header("chunk_size", "4096"),
        header("max_age", "x"),
        header("index", "a.html"),
        header("index", "b.html"),
        header("charset", "utf-8"),
        header("other", "1"),
        header("private", ""),
    ];
    let options = parse_options(&pairs);
    assert_eq!(Some(4096), options.chunk_size);
    assert_eq!(None, options.max_age);
    assert_eq!("b.html", options.index);
    assert_eq!(Some("utf-8".to_string()), options.charset);
    assert_eq!(Some(true), options.cache_private);
    assert!(!options.autoindex);
    let defaults = parse_options(&vec![]);
    assert_eq!("index.html", defaults.index);
    assert_eq!(None, defaults.cache_private);
}

#[test]
fn cacheable_depends_on_media_type_only() {
    let (cacheable, _, headers) =
        get_cacheable_and_headers_from_meta("site.css", 10, None, &Some("text/html".to_string()));
    assert!(cacheable);
    assert_eq!(vec![header("content-type", "text/css; charset=text/html")], headers);
    let (cacheable, _, _) = get_cacheable_and_headers_from_meta("a.txt", 10, None, &None);
    assert!(cacheable);
}
