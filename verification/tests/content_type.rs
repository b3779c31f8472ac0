use static_file_server::content_type::content_type_of;
use static_file_server::static_files::StaticFileServer;
use std::path::Path;

fn by_the_standard_library(path: &str) -> &'static str {
    match Path::new(path).extension().and_then(|ext| ext.to_str()) {
        Some("html") => "text/html",
        Some("css") => "text/css",
        Some("js") => "application/javascript",
        Some("json") => "application/json",
        Some("png") => "image/png",
        Some("jpg") | Some("jpeg") => "image/jpeg",
        Some("gif") => "image/gif",
        Some("svg") => "image/svg+xml",
        _ => "application/octet-stream",
    }
}

#[test]
fn every_known_extension_has_its_type() {
    assert_eq!(StaticFileServer::get_content_type("/index.html"), "text/html");
    assert_eq!(StaticFileServer::get_content_type("/site.css"), "text/css");
    assert_eq!(StaticFileServer::get_content_type("/app.js"), "application/javascript");
    assert_eq!(StaticFileServer::get_content_type("/data.json"), "application/json");
    assert_eq!(StaticFileServer::get_content_type("/logo.png"), "image/png");
    assert_eq!(StaticFileServer::get_content_type("/photo.jpg"), "image/jpeg");
    assert_eq!(StaticFileServer::get_content_type("/photo.jpeg"), "image/jpeg");
    assert_eq!(StaticFileServer::get_content_type("/anim.gif"), "image/gif");
    assert_eq!(StaticFileServer::get_content_type("/icon.svg"), "image/svg+xml");
}

#[test]
fn unknown_extensions_are_octet_stream() {
    assert_eq!(StaticFileServer::get_content_type("/file.bin"), "application/octet-stream");
    assert_eq!(StaticFileServer::get_content_type("/file.txt"), "application/octet-stream");
    assert_eq!(StaticFileServer::get_content_type("/file.htm"), "application/octet-stream");
    assert_eq!(StaticFileServer::get_content_type("/file.htmlx"), "application/octet-stream");
    assert_eq!(StaticFileServer::get_content_type("/file.xhtml"), "application/octet-stream");
    assert_eq!(StaticFileServer::get_content_type("/file."), "application/octet-stream");
}

#[test]
fn no_extension_is_octet_stream() {
    assert_eq!(StaticFileServer::get_content_type("/file"), "application/octet-stream");
    assert_eq!(StaticFileServer::get_content_type("/"), "application/octet-stream");
    assert_eq!(StaticFileServer::get_content_type(""), "application/octet-stream");
    assert_eq!(StaticFileServer::get_content_type("/dir.html/file"), "application/octet-stream");
    assert_eq!(StaticFileServer::get_content_type("/.html"), "application/octet-stream");
    assert_eq!(StaticFileServer::get_content_type("html"), "application/octet-stream");
    assert_eq!(StaticFileServer::get_content_type("/a/.."), "application/octet-stream");
    assert_eq!(StaticFileServer::get_content_type(".."), "application/octet-stream");
}

#[test]
fn extensions_are_told_apart_by_case() {
    assert_eq!(StaticFileServer::get_content_type("/INDEX.HTML"), "application/octet-stream");
    assert_eq!(StaticFileServer::get_content_type("/photo.Jpg"), "application/octet-stream");
}

#[test]
fn only_the_last_extension_of_the_file_name_counts() {
    assert_eq!(StaticFileServer::get_content_type("/a.html.png"), "image/png");
    assert_eq!(StaticFileServer::get_content_type("/a.png.html"), "text/html");
    assert_eq!(StaticFileServer::get_content_type("/.hidden.css"), "text/css");
    assert_eq!(StaticFileServer::get_content_type("/dir.png/a.js"), "application/javascript");
    assert_eq!(StaticFileServer::get_content_type("/a.json/"), "application/json");
    assert_eq!(StaticFileServer::get_content_type("/a.gif/."), "image/gif");
    assert_eq!(StaticFileServer::get_content_type("/a.svg//./"), "image/svg+xml");
    assert_eq!(StaticFileServer::get_content_type("...html"), "text/html");
}

#[test]
fn bytes_and_text_agree() {
    assert_eq!(content_type_of(b"/index.html"), "text/html");
    assert_eq!(content_type_of(b"/x\xff.png"), "image/png");
    assert_eq!(content_type_of(b"/x.\xffpng"), "application/octet-stream");
    assert_eq!(content_type_of(b""), "application/octet-stream");
}

#[test]
fn content_type_agrees_with_the_standard_library() {
    let paths = [
        "", "/", ".", "..", "...", "....", "/.", "/..", "./", "../", "a", "a.", ".a", "a.b", "a..b",
        "/index.html", "index.html", "/a/b/c.css", "/a.js/b", "/a.js/", "/a.js//", "/a.js/.",
        "/a.js/./", "/a.js/..", "/a.js/../", "/a/./b.json", "/.png", "/..png", "/a/.png", "/x.jpeg",
        "/x.jpg.", "/x.jpg/.hidden", "/x.tar.gif", "./x.svg", "../x.svg", "x.svg/..", "x.svg/...",
        "/x.html ", "/x .html", "/caf\u{e9}.html", "/x.\u{e9}", "/x.html/\u{e9}", "//x.png", "/x.png//",
        "/./.", "/a/./.", "/a.css/./.", "./.", "./..", ".html", "/dir/.html", "/dir/..html",
        "/dir/...html", "/.a.b", "a/.b.c.png",
    ];
    for path in paths {
        assert_eq!(StaticFileServer::get_content_type(path), by_the_standard_library(path));
        assert_eq!(content_type_of(path.as_bytes()), by_the_standard_library(path));
    }
}
