use omniget::course::{
    attachment_target, attachment_target_from, description_path, download_attachment,
    is_course_complete, mark_course_complete, save_description, AttachmentAction, AttachmentEvent,
    AttachmentTarget, FileProbe,
};
use omniget::files::Platform;
use omniget::text::{
    char_is_white, decimal_text, str_after_last, str_before_first, str_is_blank,
    str_same_ignoring_ascii_case, str_trim_end_matches, str_trim_start,
};

fn probe(path: &str, exists: bool, len: Option<u64>) -> FileProbe {
    FileProbe { path: path.to_string(), exists, len }
}

fn nothing() -> FileProbe {
    probe("", false, None)
}

fn page(content: &str) -> String {
    format!(
        "<!DOCTYPE html>\n<html>\n<head><meta charset=\"utf-8\"><meta name=\"viewport\" content=\"width=device-width, initial-scale=1\"><style>body{{max-width:800px;margin:40px auto;padding:0 20px;font-family:system-ui,sans-serif;line-height:1.6;color:#333}}img{{max-width:100%;height:auto}}a{{color:#0066cc}}</style></head>\n<body>\n{}\n</body>\n</html>",
        content
    )
}

#[test]
fn blank_descriptions_are_not_saved() {
    for content in ["", "  \n\t", "\u{3000}\u{a0}"] {
        assert!(description_path("d", content, "md").is_none());
        assert!(save_description("d", content, "md", &nothing()).is_none());
    }
}

#[test]
fn format_decides_the_extension() {
    for (format, path) in [
        ("markdown", "d/description.md"),
        ("md", "d/description.md"),
        ("text", "d/description.txt"),
        ("txt", "d/description.txt"),
        ("html", "d/description.html"),
        ("", "d/description.html"),
        ("MD", "d/description.html"),
    ] {
        assert_eq!(description_path("d", "x", format).as_deref(), Some(path));
        let file = save_description("d", "x", format, &nothing()).unwrap();
        assert_eq!(file.path, path);
        let expected = if path.ends_with("html") { page("x") } else { "x".to_string() };
        assert_eq!(file.contents, expected);
    }
}

#[test]
fn documents_are_not_wrapped() {
    for content in ["<!doctype html><p>", "  \n<html><body>", "<!-- c -->", "\u{a0}<htmlx"] {
        assert_eq!(save_description("d", content, "html", &nothing()).unwrap().contents, content);
    }
    for content in ["<p>hi</p>", "<HTML>", " x <html>", "<"] {
        let body = save_description("d", content, "html", &nothing()).unwrap().contents;
        assert_eq!(body, page(content));
        let again = save_description("d", &body, "html", &nothing()).unwrap().contents;
        assert_eq!(again, body);
    }
}

#[test]
fn saved_descriptions_are_kept() {
    let there = probe("d/description.md", true, Some(1));
    assert!(save_description("d", "x", "md", &there).is_none());
    assert!(save_description("d", "x", "txt", &there).is_some());
    let gone = probe("d/description.md", false, None);
    assert!(save_description("d", "x", "md", &gone).is_some());
}

#[test]
fn attachments_are_named_after_the_lesson_or_the_address() {
    let t = attachment_target("c", "https://x/y.pdf", "slides: 1?.pdf", Platform::Linux).unwrap();
    assert_eq!(t.path, "c/slides 1.pdf");
    assert_eq!(t.part_path, "c/slides 1.pdf.part");
    let t = attachment_target("c", "https://x/y.pdf?token=a.b/c", "???", Platform::Linux).unwrap();
    assert_eq!(t.path, "c/attachment.b/c");
    let t = attachment_target("c", "https://x/y.zip?k=1", "..", Platform::Linux).unwrap();
    assert_eq!(t.path, "c/attachment.zip");
    assert!(attachment_target("c", "", "n", Platform::Linux).is_none());
    assert!(attachment_target("c", "u", "", Platform::Linux).is_none());
}

#[test]
fn extension_of_an_address_is_short() {
    for (url, path) in [
        ("https://x/y.tar?z", "d/attachment.tar"),
        ("https://x/y.jpeg2", "d/attachment.jpeg2"),
        ("https://x/y.jpeg22", "d/attachment.bin"),
        ("https://x/y.\u{e9}\u{e9}\u{e9}", "d/attachment.bin"),
        ("short", "d/attachment.short"),
        ("noextension", "d/attachment.bin"),
        ("x.", "d/attachment."),
        ("x.?q", "d/attachment."),
    ] {
        assert_eq!(attachment_target_from("d", url, "").path, path, "{url}");
    }
    assert_eq!(attachment_target_from("d", "u.zip", "n").path, "d/n");
}

#[test]
fn attachments_are_downloaded_once() {
    let target = AttachmentTarget { path: "c/a".to_string(), part_path: "c/a.part".to_string() };
    let look = |p: FileProbe, cancelled: bool| {
        download_attachment(&target, &AttachmentEvent::Probed { probe: p, cancelled })
    };
    assert_eq!(look(probe("c/a", true, Some(9)), false), AttachmentAction::NothingNew);
    assert_eq!(look(probe("c/a", true, Some(9)), true), AttachmentAction::NothingNew);
    assert_eq!(look(probe("c/a", true, Some(0)), false), AttachmentAction::Fetch);
    assert_eq!(look(probe("c/a", true, None), false), AttachmentAction::Fetch);
    assert_eq!(look(probe("c/b", true, Some(9)), false), AttachmentAction::Fetch);
    assert_eq!(look(probe("c/a", false, None), true), AttachmentAction::FailCancelled);
    let answer = |status| download_attachment(&target, &AttachmentEvent::Answered { status });
    assert_eq!(answer(200), AttachmentAction::ReadBody);
    assert_eq!(answer(299), AttachmentAction::ReadBody);
    assert_eq!(answer(199), AttachmentAction::FailStatus);
    assert_eq!(answer(300), AttachmentAction::FailStatus);
    assert_eq!(answer(404), AttachmentAction::FailStatus);
    let body = |size| download_attachment(&target, &AttachmentEvent::Body { size });
    assert_eq!(body(0), AttachmentAction::NothingNew);
    assert_eq!(body(1), AttachmentAction::Store);
    assert_eq!(
        download_attachment(&target, &AttachmentEvent::Unreachable),
        AttachmentAction::FailRequest
    );
}

#[test]
fn failed_downloads_have_their_texts() {
    let text = |action: AttachmentAction, detail: &str| action.message(detail);
    assert_eq!(text(AttachmentAction::FailCancelled, "x").as_deref(), Some("Download cancelled"));
    assert_eq!(
        text(AttachmentAction::FailRequest, "timed out").as_deref(),
        Some("Failed to download attachment: timed out")
    );
    assert_eq!(
        text(AttachmentAction::FailStatus, "404 Not Found").as_deref(),
        Some("Attachment download failed: HTTP 404 Not Found")
    );
    assert_eq!(text(AttachmentAction::Fetch, "x"), None);
    assert_eq!(text(AttachmentAction::ReadBody, "x"), None);
    assert_eq!(text(AttachmentAction::Store, "x"), None);
    assert_eq!(text(AttachmentAction::NothingNew, "x"), None);
}

#[test]
fn marked_courses_are_complete() {
    let mark = mark_course_complete("courses/rust");
    assert_eq!(mark.path, "courses/rust/.complete");
    assert_eq!(mark.contents, "done");
    assert!(is_course_complete("courses/rust", &probe(&mark.path, true, Some(4))));
    assert!(!is_course_complete("courses/rust", &probe(&mark.path, false, None)));
    assert!(!is_course_complete("courses/c", &probe(&mark.path, true, Some(4))));
}

#[test]
fn white_space_is_that_of_unicode() {
    for c in '\0'..=char::MAX {
        assert_eq!(char_is_white(c), c.is_whitespace(), "{:?}", c);
    }
}

#[test]
fn text_is_searched_and_trimmed() {
    for s in ["", " a ", "\t\u{2003}x", "x", "   "] {
        assert_eq!(str_trim_start(s), s.trim_start());
        assert_eq!(str_is_blank(s), s.trim().is_empty());
    }
    for s in ["", "\"}", "a\"}", "a\"}\"}", "\"}a", "}\"}"] {
        assert_eq!(str_trim_end_matches(s, "\"}"), s.trim_end_matches("\"}"));
    }
    for s in ["", "a.b.c", ".", "abc", "a.", "\u{e9}.\u{e8}"] {
        assert_eq!(str_after_last(s, '.'), s.rsplit('.').next().unwrap());
        assert_eq!(str_before_first(s, '.'), s.split('.').next().unwrap());
    }
    assert!(str_same_ignoring_ascii_case("AbZ", "aBz"));
    assert!(!str_same_ignoring_ascii_case("\u{c9}", "\u{e9}"));
    for n in [0u64, 9, 10, 100, 12345, u64::MAX] {
        assert_eq!(decimal_text(n), n.to_string());
    }
}
