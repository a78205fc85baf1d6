//! Classification, launch dispatch, icon encoding and string helpers.

use launchkit::encode::{b64_encode, encode_icon, icon_data, IconError};
use launchkit::kind::{classify, infer_kind, kind_label, launch_action, Kind, LaunchAction};
use launchkit::strutil::{basename, extension, first_token, to_lower, trim};

#[test]
fn classify_pdf_upper_case() {
    assert_eq!(classify("report.PDF"), Kind::Pdf);
}

#[test]
fn classify_text() {
    assert_eq!(classify("notes.txt"), Kind::Text);
}

#[test]
fn classify_no_extension() {
    assert_eq!(classify("launcher"), Kind::File);
}

#[test]
fn classify_table() {
    assert_eq!(classify("/a/b.docx"), Kind::Document);
    assert_eq!(classify("x.md"), Kind::Text);
    assert_eq!(classify("shot.JpEg"), Kind::Image);
    assert_eq!(classify("app.desktop"), Kind::Desktop);
    assert_eq!(classify("run.sh"), Kind::Script);
    assert_eq!(classify("data.tar.gz"), Kind::File);
    assert_eq!(classify("/dir.with.dots/plain"), Kind::File);
    assert_eq!(classify(".bashrc"), Kind::File);
}

#[test]
fn kind_labels() {
    assert_eq!(kind_label(Kind::Pdf).as_str(), "pdf");
    assert_eq!(kind_label(Kind::App).as_str(), "app");
    assert_eq!(infer_kind("report.PDF").as_str(), "pdf");
    assert_eq!(infer_kind("launcher").as_str(), "file");
}

#[test]
fn launch_app_runs_executable() {
    assert_eq!(launch_action("app"), LaunchAction::RunExecutable);
    assert_eq!(launch_action("file"), LaunchAction::RunExecutable);
}

#[test]
fn launch_pdf_opens_with_handler() {
    assert_eq!(launch_action("pdf"), LaunchAction::OpenWithHandler);
}

#[test]
fn launch_unknown_kind_opens_with_handler() {
    assert_eq!(launch_action("unknown-kind"), LaunchAction::OpenWithHandler);
    assert_eq!(launch_action("document"), LaunchAction::OpenWithHandler);
    assert_eq!(launch_action("script"), LaunchAction::OpenWithHandler);
}

#[test]
fn base64_known_values() {
    assert_eq!(b64_encode(&vec![77u8, 97, 110]).as_str(), "TWFu");
    assert_eq!(b64_encode(&vec![77u8, 97]).as_str(), "TWE=");
    assert_eq!(b64_encode(&vec![77u8]).as_str(), "TQ==");
    assert_eq!(b64_encode(&Vec::new()).as_str(), "");
    assert_eq!(b64_encode(&vec![251u8, 239, 190]).as_str(), "++++");
    assert_eq!(b64_encode(&vec![255u8, 255, 255]).as_str(), "////");
}

#[test]
fn encode_png_data_url() {
    let bytes: Vec<u8> = vec![0x89, 0x50, 0x4E, 0x47];
    let s = encode_icon("firefox.png", &bytes);
    assert_eq!(s.as_str(), "data:image/png;base64,iVBORw==");
    assert!(s.as_str().starts_with("data:image/png;base64,"));
}

#[test]
fn encode_mime_table() {
    let b: Vec<u8> = vec![1u8];
    assert!(encode_icon("a.svg", &b).as_str().starts_with("data:image/svg+xml;base64,"));
    assert!(encode_icon("a.JPG", &b).as_str().starts_with("data:image/jpeg;base64,"));
    assert!(encode_icon("a.jpeg", &b).as_str().starts_with("data:image/jpeg;base64,"));
    assert!(encode_icon("a.ico", &b).as_str().starts_with("data:image/png;base64,"));
    assert!(encode_icon("noext", &b).as_str().starts_with("data:image/png;base64,"));
}

#[test]
fn icon_data_surfaces_read_failure() {
    let r = icon_data("missing.png", &None);
    assert_eq!(r, Err(IconError::ReadFailure));
}

#[test]
fn icon_data_encodes_bytes() {
    let r = icon_data("x.png", &Some(vec![0x89u8, 0x50, 0x4E, 0x47]));
    assert_eq!(r.unwrap().as_str(), "data:image/png;base64,iVBORw==");
}

#[test]
fn trim_whitespace() {
    assert_eq!(trim("  hello \t\n").as_str(), "hello");
    assert_eq!(trim("   ").as_str(), "");
    assert_eq!(trim("x").as_str(), "x");
}

#[test]
fn string_helpers() {
    assert_eq!(basename("/usr/bin/firefox").as_str(), "firefox");
    assert_eq!(basename("firefox").as_str(), "firefox");
    assert_eq!(extension("/a/b.tar.gz").unwrap().as_str(), "gz");
    assert!(extension("/a/plain").is_none());
    assert_eq!(first_token("firefox %u --new").as_str(), "firefox");
    assert_eq!(to_lower("MiXeD09").as_str(), "mixed09");
}
