//! The files of an archived course: its description, its attachments and the
//! mark that it is complete.

use vstd::prelude::*;
use vstd::utf8::encode_utf8;

use crate::files::{sanitize, Platform};
use crate::text::{
    join2, join3, starts_with, str_after_last, str_before_first, str_eq, str_is_blank,
    str_trim_start,
};

verus! {

/// How a wrapped description begins.
pub const DOCTYPE: &'static str = "<!DOCTYPE html>";

/// What stands between the document type and the description.
pub const PAGE_HEAD: &'static str = "\n<html>\n<head><meta charset=\"utf-8\"><meta name=\"viewport\" content=\"width=device-width, initial-scale=1\"><style>body{max-width:800px;margin:40px auto;padding:0 20px;font-family:system-ui,sans-serif;line-height:1.6;color:#333}img{max-width:100%;height:auto}a{color:#0066cc}</style></head>\n<body>\n";

/// What follows the description.
pub const PAGE_TAIL: &'static str = "\n</body>\n</html>";

/// The longest extension, in bytes, that is taken from an address.
pub const MAX_EXTENSION: usize = 5;

/// What the file system says of a path.
pub struct FileProbe {
    pub path: String,
    pub exists: bool,
    /// The size of the file, where it can be read.
    pub len: Option<u64>,
}

/// A file to write.
pub struct FileWrite {
    pub path: String,
    pub contents: String,
}

/// True when `probe` says that there is something at `path`.
pub open spec fn found_at(probe: FileProbe, path: Seq<char>) -> bool {
    probe.path@ == path && probe.exists
}

fn probe_found(probe: &FileProbe, path: &str) -> (r: bool)
    ensures
        r == found_at(*probe, path@),
{
    probe.exists && str_eq(probe.path.as_str(), path)
}

/// The extension of a description in `format`.
pub open spec fn description_extension(format: Seq<char>) -> Seq<char> {
    if format == "markdown"@ || format == "md"@ {
        "md"@
    } else if format == "text"@ || format == "txt"@ {
        "txt"@
    } else {
        "html"@
    }
}

/// Where the description of the course in `dir` lies.
pub open spec fn description_file(dir: Seq<char>, format: Seq<char>) -> Seq<char> {
    dir + "/description."@ + description_extension(format)
}

/// True when `content` is a document of its own.
pub open spec fn is_document(content: Seq<char>) -> bool {
    let start = crate::text::trim_start(content);
    "<!"@.is_prefix_of(start) || "<html"@.is_prefix_of(start)
}

/// What is written for a description: a fragment of HTML is wrapped into a
/// page, anything else stays as it is.
pub open spec fn description_body(content: Seq<char>, format: Seq<char>) -> Seq<char> {
    if description_extension(format) == "html"@ && !is_document(content) {
        DOCTYPE@ + PAGE_HEAD@ + content + PAGE_TAIL@
    } else {
        content
    }
}

fn extension_for(format: &str) -> (r: &'static str)
    ensures
        r@ == description_extension(format@),
{
    if str_eq(format, "markdown") || str_eq(format, "md") {
        "md"
    } else if str_eq(format, "text") || str_eq(format, "txt") {
        "txt"
    } else {
        "html"
    }
}

/// Where a description is to be saved; `None` where there is nothing to save.
pub fn description_path(dir: &str, content: &str, format: &str) -> (r: Option<String>)
    ensures
        r is None <==> crate::text::is_blank(content@),
        r matches Some(path) ==> path@ == description_file(dir@, format@),
{
    if str_is_blank(content) {
        None
    } else {
        Some(join3(dir, "/description.", extension_for(format)))
    }
}

/// The file to write for a description. A blank description, and one that
/// `probe` finds at its place, is not written.
pub fn save_description(dir: &str, content: &str, format: &str, probe: &FileProbe) -> (r: Option<
    FileWrite,
>)
    ensures
        r is None <==> crate::text::is_blank(content@) || found_at(
            *probe,
            description_file(dir@, format@),
        ),
        r matches Some(file) ==> file.path@ == description_file(dir@, format@) && file.contents@
            == description_body(content@, format@),
{
    let path: String = match description_path(dir, content, format) {
        Some(path) => path,
        None => {
            return None;
        },
    };
    if probe_found(probe, path.as_str()) {
        return None;
    }
    let start: String = str_trim_start(content);
    let contents: String = if str_eq(extension_for(format), "html") && !starts_with(
        start.as_str(),
        "<!",
    ) && !starts_with(start.as_str(), "<html") {
        let mut page: String = join2(DOCTYPE, PAGE_HEAD);
        page.append(content);
        page.append(PAGE_TAIL);
        page
    } else {
        content.to_owned()
    };
    Some(FileWrite { path, contents })
}

/// A description is wrapped once at most: what was written stays as it is when
/// it is saved again.
pub proof fn law_wrapping_is_idempotent(content: Seq<char>, format: Seq<char>)
    ensures
        description_body(description_body(content, format), format) == description_body(
            content,
            format,
        ),
{
    let body = description_body(content, format);
    if description_extension(format) == "html"@ && !is_document(content) {
        reveal_strlit("<!DOCTYPE html>");
        reveal_strlit("<!");
        assert(body[0] == '<');
        assert(body[1] == '!');
        assert(crate::text::trim_start(body) == body);
        assert(body.take(2) =~= "<!"@);
    }
}

/// The extension that an address suggests: what follows its last dot, up to its
/// query, if that is short.
pub open spec fn address_extension(url: Seq<char>) -> Seq<char> {
    let tail = crate::text::before_first(crate::text::after_last(url, '.'), '?');
    if encode_utf8(tail).len() <= MAX_EXTENSION {
        tail
    } else {
        "bin"@
    }
}

/// The name of an attachment whose own name came out of the cleaning as
/// `sanitized`.
pub open spec fn attachment_name(sanitized: Seq<char>, url: Seq<char>) -> Seq<char> {
    if sanitized.len() == 0 {
        "attachment."@ + address_extension(url)
    } else {
        sanitized
    }
}

/// Where an attachment is stored.
pub struct AttachmentTarget {
    pub path: String,
    /// Where it is written first.
    pub part_path: String,
}

/// True when `t` is the place of the attachment `name` of the course in `dir`.
pub open spec fn is_target(t: AttachmentTarget, dir: Seq<char>, name: Seq<char>) -> bool {
    &&& t.path@ == dir + "/"@ + name
    &&& t.part_path@ == t.path@ + ".part"@
}

/// The place of an attachment whose name came out of the cleaning as
/// `sanitized`.
pub fn attachment_target_from(dir: &str, url: &str, sanitized: &str) -> (r: AttachmentTarget)
    ensures
        is_target(r, dir@, attachment_name(sanitized@, url@)),
{
    let name: String = if sanitized.is_empty() {
        let after: String = str_after_last(url, '.');
        let tail: String = str_before_first(after.as_str(), '?');
        if tail.as_str().as_bytes().len() <= MAX_EXTENSION {
            join2("attachment.", tail.as_str())
        } else {
            join2("attachment.", "bin")
        }
    } else {
        sanitized.to_owned()
    };
    let path: String = join3(dir, "/", name.as_str());
    let part_path: String = join2(path.as_str(), ".part");
    AttachmentTarget { path, part_path }
}

/// The place of the attachment `name` at `url`; `None` where there is none to
/// download. A name of which something is left after the cleaning stays inside
/// `dir`.
pub fn attachment_target(dir: &str, url: &str, name: &str, platform: Platform) -> (r: Option<
    AttachmentTarget,
>)
    ensures
        r is None <==> url@.len() == 0 || name@.len() == 0,
        r matches Some(t) ==> {
            let clean = crate::files::sanitized(name@, platform == Platform::Windows);
            &&& is_target(t, dir@, attachment_name(clean, url@))
            &&& crate::files::stays_inside(clean)
        },
{
    if url.is_empty() || name.is_empty() {
        return None;
    }
    let clean: String = sanitize(name, platform == Platform::Windows);
    Some(attachment_target_from(dir, url, clean.as_str()))
}

/// What happens during the download of an attachment.
pub enum AttachmentEvent {
    /// The file system was asked for the attachment.
    Probed { probe: FileProbe, cancelled: bool },
    /// The request failed.
    Unreachable,
    /// The server answered with this status.
    Answered { status: u16 },
    /// The body was read, of this many bytes.
    Body { size: u64 },
}

/// What is done about it.
#[derive(Clone, Copy, Debug, PartialEq, Eq, Structural)]
pub enum AttachmentAction {
    /// Send the request.
    Fetch,
    /// Read the body of the answer.
    ReadBody,
    /// Write the body to the part file, then rename it to its place.
    Store,
    /// Nothing was downloaded, and nothing is wrong.
    NothingNew,
    /// Give up, as wished.
    FailCancelled,
    /// Give up: the request failed.
    FailRequest,
    /// Give up: the server refused.
    FailStatus,
}

/// Why a download is given up, if it is. The request's error, or the status
/// that the server answered with, is spelled as `detail`.
pub open spec fn attachment_error(action: AttachmentAction, detail: Seq<char>) -> Option<Seq<char>> {
    match action {
        AttachmentAction::FailCancelled => Some("Download cancelled"@),
        AttachmentAction::FailRequest => Some("Failed to download attachment: "@ + detail),
        AttachmentAction::FailStatus => Some("Attachment download failed: HTTP "@ + detail),
        _ => None,
    }
}

impl AttachmentAction {
    /// Why the download is given up, as a text; `None` where it is not. The
    /// request's error, or the status that the server answered with, is spelled
    /// as `detail`.
    pub fn message(&self, detail: &str) -> (r: Option<String>)
        ensures
            match attachment_error(*self, detail@) {
                Some(text) => r matches Some(s) && s@ == text,
                None => r is None,
            },
    {
        match self {
            AttachmentAction::FailCancelled => Some("Download cancelled".to_owned()),
            AttachmentAction::FailRequest => Some(join2("Failed to download attachment: ", detail)),
            AttachmentAction::FailStatus => Some(
                join2("Attachment download failed: HTTP ", detail),
            ),
            _ => None,
        }
    }
}

/// How the download of the attachment at `path` goes on. An attachment that is
/// there and not empty is not downloaded again; an empty body is not stored.
pub open spec fn attachment_action(path: Seq<char>, event: AttachmentEvent) -> AttachmentAction {
    match event {
        AttachmentEvent::Probed { probe, cancelled } => if found_at(probe, path) && (
        probe.len matches Some(n) && n > 0) {
            AttachmentAction::NothingNew
        } else if cancelled {
            AttachmentAction::FailCancelled
        } else {
            AttachmentAction::Fetch
        },
        AttachmentEvent::Unreachable => AttachmentAction::FailRequest,
        AttachmentEvent::Answered { status } => if 200 <= status < 300 {
            AttachmentAction::ReadBody
        } else {
            AttachmentAction::FailStatus
        },
        AttachmentEvent::Body { size } => if size == 0 {
            AttachmentAction::NothingNew
        } else {
            AttachmentAction::Store
        },
    }
}

/// Decides how the download of an attachment goes on.
pub fn download_attachment(target: &AttachmentTarget, event: &AttachmentEvent) -> (r:
    AttachmentAction)
    ensures
        r == attachment_action(target.path@, *event),
{
    match event {
        AttachmentEvent::Probed { probe, cancelled } => {
            let filled: bool = match probe.len {
                Some(n) => n > 0,
                None => false,
            };
            if probe_found(probe, target.path.as_str()) && filled {
                AttachmentAction::NothingNew
            } else if *cancelled {
                AttachmentAction::FailCancelled
            } else {
                AttachmentAction::Fetch
            }
        },
        AttachmentEvent::Unreachable => AttachmentAction::FailRequest,
        AttachmentEvent::Answered { status } => if 200 <= *status && *status < 300 {
            AttachmentAction::ReadBody
        } else {
            AttachmentAction::FailStatus
        },
        AttachmentEvent::Body { size } => if *size == 0 {
            AttachmentAction::NothingNew
        } else {
            AttachmentAction::Store
        },
    }
}

/// An attachment that was stored is not downloaded again, cancelled or not.
pub proof fn law_attachment_is_stored_once(path: Seq<char>, size: u64, probe: FileProbe, cancelled: bool)
    requires
        attachment_action(path, AttachmentEvent::Body { size }) == AttachmentAction::Store,
        probe.path@ == path,
        probe.exists,
        probe.len == Some(size),
    ensures
        attachment_action(path, AttachmentEvent::Probed { probe, cancelled })
            == AttachmentAction::NothingNew,
{
}

/// Where the mark of a complete course lies.
pub open spec fn complete_marker(course_dir: Seq<char>) -> Seq<char> {
    course_dir + "/.complete"@
}

/// The path of the mark of a complete course.
pub fn complete_marker_path(course_dir: &str) -> (r: String)
    ensures
        r@ == complete_marker(course_dir@),
{
    join2(course_dir, "/.complete")
}

/// The file that marks a course as complete.
pub fn mark_course_complete(course_dir: &str) -> (r: FileWrite)
    ensures
        r.path@ == complete_marker(course_dir@),
        r.contents@ == "done"@,
{
    FileWrite { path: complete_marker_path(course_dir), contents: "done".to_owned() }
}

/// True when `probe` finds the mark of the course.
pub fn is_course_complete(course_dir: &str, probe: &FileProbe) -> (r: bool)
    ensures
        r == found_at(*probe, complete_marker(course_dir@)),
{
    let marker: String = complete_marker_path(course_dir);
    probe_found(probe, marker.as_str())
}

/// The files there are, by path.
pub type Files = Map<Seq<char>, Seq<char>>;

/// True when `probe` says of its path what `files` has.
pub open spec fn probe_agrees(probe: FileProbe, files: Files) -> bool {
    probe.exists == files.contains_key(probe.path@)
}

/// A course is complete once it was marked, and marking it does not touch any
/// other course: whether `other` counts as complete changes only where `other`
/// is the course itself.
pub proof fn law_mark_is_found(
    files: Files,
    course_dir: Seq<char>,
    other: Seq<char>,
    before: FileProbe,
    after: FileProbe,
)
    requires
        before.path@ == complete_marker(other),
        after.path@ == complete_marker(other),
        probe_agrees(before, files),
        probe_agrees(after, files.insert(complete_marker(course_dir), "done"@)),
    ensures
        found_at(after, complete_marker(other)) <==> other == course_dir || found_at(
            before,
            complete_marker(other),
        ),
{
    if complete_marker(other) == complete_marker(course_dir) {
        let m = complete_marker(other);
        assert(m.take(other.len() as int) =~= other);
        assert(m.len() == course_dir.len() + "/.complete"@.len());
        assert(complete_marker(course_dir).take(course_dir.len() as int) =~= course_dir);
    }
}

/// A description lies in its course's directory, under a name that goes by its
/// format.
pub proof fn law_description_place(dir: Seq<char>, format: Seq<char>)
    ensures
        ({
            let file = description_file(dir, format);
            let n = dir.len() as int;
            &&& file.take(n) == dir
            &&& if format == "markdown"@ || format == "md"@ {
                file.skip(n) == "/description.md"@
            } else if format == "text"@ || format == "txt"@ {
                file.skip(n) == "/description.txt"@
            } else {
                file.skip(n) == "/description.html"@
            }
        }),
{
    reveal_strlit("/description.");
    reveal_strlit("/description.md");
    reveal_strlit("/description.txt");
    reveal_strlit("/description.html");
    reveal_strlit("md");
    reveal_strlit("txt");
    reveal_strlit("html");
    lemma_formats_differ();
    let file = description_file(dir, format);
    let n = dir.len() as int;
    assert(file.take(n) =~= dir);
    assert(file.skip(n) =~= "/description."@ + description_extension(format));
    assert("/description."@ + "md"@ =~= "/description.md"@);
    assert("/description."@ + "txt"@ =~= "/description.txt"@);
    assert("/description."@ + "html"@ =~= "/description.html"@);
}

proof fn lemma_formats_differ()
    ensures
        "text"@ != "markdown"@ && "text"@ != "md"@,
        "txt"@ != "markdown"@ && "txt"@ != "md"@,
        "md"@ != "html"@ && "txt"@ != "html"@,
{
    reveal_strlit("text");
    reveal_strlit("txt");
    reveal_strlit("markdown");
    reveal_strlit("md");
    reveal_strlit("html");
    assert("text"@[0] != "markdown"@[0]);
    assert("text"@[0] != "md"@[0]);
    assert("txt"@[0] != "markdown"@[0]);
    assert("md"@[0] != "html"@[0]);
    assert("txt"@[0] != "html"@[0]);
}

/// After white space, it is the beginning that tells a document from a fragment:
/// `<!` or `<html`.
pub proof fn law_documents_begin_so(white: Seq<char>, text: Seq<char>)
    requires
        crate::text::is_blank(white),
        text.len() > 0 ==> !crate::text::is_white(text[0]),
    ensures
        is_document(white + text) <==> (text.len() >= 2 && text[0] == '<' && text[1] == '!') || (
        text.len() >= 5 && text[0] == '<' && text[1] == 'h' && text[2] == 't' && text[3] == 'm'
            && text[4] == 'l'),
{
    let all = white + text;
    let start = crate::text::trim_start(all);
    crate::text::law_trim_start(all);
    let n = all.len() - start.len();
    if n < white.len() {
        assert(all[n] == white[n]);
    }
    if n > white.len() {
        assert(all[white.len() as int] == text[0]);
    }
    assert(start =~= text);
    reveal_strlit("<!");
    reveal_strlit("<html");
    let a = "<!"@;
    let b = "<html"@;
    if a.is_prefix_of(text) {
        assert(text.take(2)[0] == a[0] && text.take(2)[1] == a[1]);
    }
    if b.is_prefix_of(text) {
        let t = text.take(5);
        assert(t[0] == b[0] && t[1] == b[1] && t[2] == b[2] && t[3] == b[3] && t[4] == b[4]);
    }
    if text.len() >= 2 && text[0] == '<' && text[1] == '!' {
        assert(text.take(2) =~= a);
    }
    if text.len() >= 5 && text[0] == '<' && text[1] == 'h' && text[2] == 't' && text[3] == 'm'
        && text[4] == 'l' {
        assert(text.take(5) =~= b);
    }
}

/// What is written holds all of the description, unchanged: as it is, or, for a
/// fragment of HTML, between the head and the tail of a page, with nothing else.
pub proof fn law_description_is_kept(content: Seq<char>, format: Seq<char>)
    ensures
        ({
            let body = description_body(content, format);
            let html = format != "markdown"@ && format != "md"@ && format != "text"@ && format
                != "txt"@;
            let from = (DOCTYPE@.len() + PAGE_HEAD@.len()) as int;
            let to = from + content.len();
            if html && !is_document(content) {
                &&& body.len() == to + PAGE_TAIL@.len()
                &&& body.take(DOCTYPE@.len() as int) == DOCTYPE@
                &&& body.subrange(DOCTYPE@.len() as int, from) == PAGE_HEAD@
                &&& body.subrange(from, to) == content
                &&& body.skip(to) == PAGE_TAIL@
            } else {
                body == content
            }
        }),
{
    lemma_formats_differ();
    let body = description_body(content, format);
    let from = (DOCTYPE@.len() + PAGE_HEAD@.len()) as int;
    let to = from + content.len();
    if description_extension(format) == "html"@ && !is_document(content) {
        assert(body.take(DOCTYPE@.len() as int) =~= DOCTYPE@);
        assert(body.subrange(DOCTYPE@.len() as int, from) =~= PAGE_HEAD@);
        assert(body.subrange(from, to) =~= content);
        assert(body.skip(to) =~= PAGE_TAIL@);
    }
}

/// The extension that an address suggests is what stands between its last dot,
/// or its beginning, and the query that follows; `bin` where that is longer than
/// five bytes.
pub proof fn law_address_extension(front: Seq<char>, tail: Seq<char>, query: Seq<char>)
    requires
        front.len() > 0 ==> front.last() == '.',
        !tail.contains('.') && !tail.contains('?'),
        !query.contains('.'),
        query.len() > 0 ==> query[0] == '?',
    ensures
        address_extension(front + tail + query) == if encode_utf8(tail).len() <= 5 {
            tail
        } else {
            seq!['b', 'i', 'n']
        },
{
    let url = front + tail + query;
    let after = crate::text::after_last(url, '.');
    crate::text::law_after_last(url, '.');
    let n = url.len() - after.len();
    if n < front.len() {
        assert(url[front.len() - 1] == front.last());
    }
    if n > front.len() {
        if n <= front.len() + tail.len() {
            assert(url[n - 1] == tail[n - 1 - front.len()]);
        } else {
            assert(url[n - 1] == query[n - 1 - front.len() - tail.len()]);
        }
    }
    assert(after =~= tail + query);
    let before = crate::text::before_first(after, '?');
    crate::text::law_before_first(after, '?');
    let m = before.len() as int;
    if m < tail.len() {
        assert(after[m] == tail[m]);
    }
    if m > tail.len() {
        assert(after[tail.len() as int] == query[0]);
    }
    assert(before =~= tail);
    reveal_strlit("bin");
    assert("bin"@ =~= seq!['b', 'i', 'n']);
}

/// An attachment is stored in its course's directory, under its cleaned name, or,
/// where nothing is left of that, as `attachment` with the extension that its
/// address suggests; and it is written first beside that, as a part.
pub proof fn law_attachment_place(
    t: AttachmentTarget,
    dir: Seq<char>,
    clean: Seq<char>,
    url: Seq<char>,
)
    requires
        is_target(t, dir, attachment_name(clean, url)),
    ensures
        ({
            let n = dir.len() as int;
            let name = t.path@.skip(n + 1);
            &&& t.path@.len() > n
            &&& t.path@.take(n) == dir
            &&& t.path@[n] == '/'
            &&& clean.len() > 0 ==> name == clean
            &&& clean.len() == 0 ==> name.take(11) == "attachment."@ && name.skip(11)
                == address_extension(url)
            &&& t.part_path@.take(t.path@.len() as int) == t.path@
            &&& t.part_path@.skip(t.path@.len() as int) == ".part"@
        }),
{
    reveal_strlit("/");
    reveal_strlit("attachment.");
    let n = dir.len() as int;
    let name = attachment_name(clean, url);
    assert(t.path@.take(n) =~= dir);
    assert(t.path@.skip(n + 1) =~= name);
    if clean.len() == 0 {
        assert(name.take(11) =~= "attachment."@);
        assert(name.skip(11) =~= address_extension(url));
    }
    assert(t.part_path@.take(t.path@.len() as int) =~= t.path@);
    assert(t.part_path@.skip(t.path@.len() as int) =~= ".part"@);
}

/// When an attachment is fetched, when its body is read and when it is stored: it
/// is fetched unless a file that is not empty lies there or stopping is wished,
/// read for every status from 200 to 299 and no other, and stored unless it is
/// empty.
pub proof fn law_download_decisions(
    path: Seq<char>,
    probe: FileProbe,
    cancelled: bool,
    status: u16,
    size: u64,
)
    ensures
        ({
            let there = probe.path@ == path && probe.exists && probe.len is Some && probe.len->0
                > 0;
            let looked = attachment_action(path, AttachmentEvent::Probed { probe, cancelled });
            let answered = attachment_action(path, AttachmentEvent::Answered { status });
            let read = attachment_action(path, AttachmentEvent::Body { size });
            &&& looked is NothingNew <==> there
            &&& looked is FailCancelled <==> !there && cancelled
            &&& looked is Fetch <==> !there && !cancelled
            &&& answered is ReadBody <==> status >= 200 && status <= 299
            &&& answered is FailStatus <==> status < 200 || status > 299
            &&& read is Store <==> size > 0
            &&& read is NothingNew <==> size == 0
            &&& attachment_action(path, AttachmentEvent::Unreachable) is FailRequest
        }),
{
}

/// A failed download is reported with the request's error or the status in full.
pub proof fn law_attachment_error(detail: Seq<char>)
    ensures
        attachment_error(AttachmentAction::FailRequest, detail) matches Some(text) && {
            let n = "Failed to download attachment: "@.len() as int;
            text.take(n) == "Failed to download attachment: "@ && text.skip(n) == detail
        },
        attachment_error(AttachmentAction::FailStatus, detail) matches Some(text) && {
            let n = "Attachment download failed: HTTP "@.len() as int;
            text.take(n) == "Attachment download failed: HTTP "@ && text.skip(n) == detail
        },
        attachment_error(AttachmentAction::FailCancelled, detail) == Some("Download cancelled"@),
        attachment_error(AttachmentAction::Fetch, detail) is None,
        attachment_error(AttachmentAction::ReadBody, detail) is None,
        attachment_error(AttachmentAction::Store, detail) is None,
        attachment_error(AttachmentAction::NothingNew, detail) is None,
{
    crate::text::lemma_joined("Failed to download attachment: "@, detail);
    crate::text::lemma_joined("Attachment download failed: HTTP "@, detail);
}

/// The mark lies in the course's directory and is called `.complete`; a course is
/// complete exactly when something is found there.
pub proof fn law_marker_place(course_dir: Seq<char>, probe: FileProbe)
    ensures
        complete_marker(course_dir).take(course_dir.len() as int) == course_dir,
        complete_marker(course_dir).skip(course_dir.len() as int) == "/.complete"@,
        found_at(probe, complete_marker(course_dir)) <==> probe.exists && probe.path@ == course_dir
            + "/.complete"@,
{
    crate::text::lemma_joined(course_dir, "/.complete"@);
}

} // verus!
