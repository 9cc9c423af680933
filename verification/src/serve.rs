//! The local dashboard server's decisions: which file a request asks for, and
//! the head of each reply.
use vstd::prelude::*;
use crate::dashboard::{file_name_of, path_file_name};
use crate::text::{chars_eq, chars_of, decimal, first_index_of, is_whitespace, is_ws, push_chars, push_decimal, push_str, slice_chars, string_from_chars, find_char};

verus! {

/// What `String::from_utf8_lossy` gives for some bytes.
pub uninterp spec fn lossy_text(bytes: Seq<u8>) -> Seq<char>;

/// Whether every byte is ASCII.
pub open spec fn all_ascii(bytes: Seq<u8>) -> bool {
    forall|i: int| 0 <= i < bytes.len() ==> #[trigger] bytes[i] < 128
}

/// `String::from_utf8_lossy`: the result is `lossy_text` of the bytes, and ASCII
/// bytes (always valid UTF-8) decode one character per byte.
#[verifier::external_body]
fn utf8_lossy(bytes: &[u8]) -> (s: String)
    ensures
        s@ == lossy_text(bytes@),
        all_ascii(bytes@) ==> s@ == Seq::new(bytes@.len(), |i: int| bytes@[i] as char),
{
    String::from_utf8_lossy(bytes).into_owned()
}

/// `str::lines().next()`: nothing for empty text, otherwise the text up to the
/// first `\n`, without the `\r` of a `\r\n` ending.
pub open spec fn first_line(text: Seq<char>) -> Option<Seq<char>> {
    if text.len() == 0 {
        None
    } else {
        match first_index_of(text, '\n') {
            None => Some(text),
            Some(i) => if i > 0 && text[i - 1] == '\r' {
                Some(text.take(i - 1))
            } else {
                Some(text.take(i))
            },
        }
    }
}

/// The words read so far and the word being read.
pub open spec fn word_scan(s: Seq<char>) -> (Seq<Seq<char>>, Seq<char>)
    decreases s.len(),
{
    if s.len() == 0 {
        (Seq::empty(), Seq::empty())
    } else {
        let (done, cur) = word_scan(s.drop_last());
        if is_ws(s.last()) {
            if cur.len() > 0 {
                (done.push(cur), Seq::empty())
            } else {
                (done, cur)
            }
        } else {
            (done, cur.push(s.last()))
        }
    }
}

/// `str::split_whitespace`: the maximal runs of non-whitespace characters.
pub open spec fn words(s: Seq<char>) -> Seq<Seq<char>> {
    let (done, cur) = word_scan(s);
    if cur.len() > 0 {
        done.push(cur)
    } else {
        done
    }
}

/// The path of an HTTP request: the second word of its first line, or `/`.
pub open spec fn request_path(text: Seq<char>) -> Seq<char> {
    match first_line(text) {
        Some(line) => if words(line).len() >= 2 {
            words(line)[1]
        } else {
            "/"@
        },
        None => "/"@,
    }
}

/// Whether a request path asks for the dashboard: `/` or `/<file name>`.
pub open spec fn asks_for_report(path: Seq<char>, file_name: Seq<char>) -> bool {
    path == "/"@ || path == "/"@ + file_name
}

/// How the server answers a request.
#[derive(Debug, Clone, Copy, PartialEq, Eq, Structural)]
pub enum Reply {
    /// `200 OK` with the dashboard page.
    Report,
    /// `404 Not Found` with the body `Not found`.
    NotFound,
}

/// The path a request asks for.
pub fn request_path_of(text: &str) -> (p: String)
    ensures
        p@ == request_path(text@),
{
    let cs = chars_of(text);
    if cs.len() == 0 {
        return String::from_str("/");
    }
    let line: Vec<char> = match find_char(&cs, '\n') {
        None => slice_chars(&cs, 0, cs.len()),
        Some(i) => {
            if i > 0 && cs[i - 1] == '\r' {
                slice_chars(&cs, 0, i - 1)
            } else {
                slice_chars(&cs, 0, i)
            }
        },
    };
    assert(cs@.subrange(0, cs@.len() as int) == cs@);
    assert(first_line(text@) == Some(line@));
    let mut done: Vec<Vec<char>> = Vec::new();
    let mut cur: Vec<char> = Vec::new();
    let mut k: usize = 0;
    while k < line.len()
        invariant
            k <= line.len(),
            done@.len() <= 2,
            ({
                let (d, c) = word_scan(line@.take(k as int));
                &&& cur@ == c
                &&& done@.len() == (if d.len() < 2 { d.len() } else { 2 })
                &&& forall|j: int| 0 <= j < done@.len() ==> #[trigger] done@[j]@ == d[j]
            }),
        decreases line.len() - k,
    {
        proof {
            assert(line@.take(k + 1).drop_last() == line@.take(k as int));
            assert(line@.take(k + 1).last() == line@[k as int]);
        }
        let c = line[k];
        if is_whitespace(c) {
            if cur.len() > 0 {
                let w = cur;
                if done.len() < 2 {
                    done.push(w);
                }
                cur = Vec::new();
            }
        } else {
            cur.push(c);
        }
        k = k + 1;
    }
    assert(line@.take(k as int) == line@);
    if cur.len() > 0 && done.len() < 2 {
        let w = cur;
        done.push(w);
    }
    if done.len() >= 2 {
        string_from_chars(&done[1])
    } else {
        String::from_str("/")
    }
}

/// The reply to a request whose text is `text`, for the dashboard file `file_name`.
pub fn reply_to_text(text: &str, file_name: &str) -> (r: Reply)
    ensures
        r == (if asks_for_report(request_path(text@), file_name@) {
            Reply::Report
        } else {
            Reply::NotFound
        }),
{
    let path = request_path_of(text);
    let p = chars_of(path.as_str());
    let mut expected: Vec<char> = Vec::new();
    expected.push('/');
    push_str(&mut expected, file_name);
    proof {
        reveal_strlit("/");
        assert(expected@ == "/"@ + file_name@);
    }
    let root = chars_of("/");
    if chars_eq(&p, &root) || chars_eq(&p, &expected) {
        Reply::Report
    } else {
        Reply::NotFound
    }
}

/// The reply to the raw bytes of a request (decoded as `String::from_utf8_lossy`
/// does).
pub fn reply_to_request(request: &[u8], file_name: &str) -> (r: Reply)
    ensures
        r == (if asks_for_report(request_path(lossy_text(request@)), file_name@) {
            Reply::Report
        } else {
            Reply::NotFound
        }),
{
    let text = utf8_lossy(request);
    reply_to_text(text.as_str(), file_name)
}

/// The status line, headers and blank line before a body of `length` bytes.
pub open spec fn response_head_text(status: Seq<char>, content_type: Seq<char>, length: nat) -> Seq<char> {
    "HTTP/1.1 "@ + status + "\r\nContent-Type: "@ + content_type + "\r\nContent-Length: "@ + decimal(length)
        + "\r\nCache-Control: no-store\r\nConnection: close\r\n\r\n"@
}

/// The head of an HTTP reply.
pub fn response_head(status: &str, content_type: &str, length: usize) -> (h: String)
    ensures
        h@ == response_head_text(status@, content_type@, length as nat),
{
    let mut v: Vec<char> = Vec::new();
    push_str(&mut v, "HTTP/1.1 ");
    push_str(&mut v, status);
    push_str(&mut v, "\r\nContent-Type: ");
    push_str(&mut v, content_type);
    push_str(&mut v, "\r\nContent-Length: ");
    push_decimal(&mut v, length as u64);
    push_str(&mut v, "\r\nCache-Control: no-store\r\nConnection: close\r\n\r\n");
    string_from_chars(&v)
}

/// The status line of a reply.
pub open spec fn reply_status(r: Reply) -> Seq<char> {
    match r {
        Reply::Report => "200 OK"@,
        Reply::NotFound => "404 Not Found"@,
    }
}

/// The content type of a reply.
pub open spec fn reply_content_type(r: Reply) -> Seq<char> {
    match r {
        Reply::Report => "text/html; charset=utf-8"@,
        Reply::NotFound => "text/plain"@,
    }
}

impl Reply {
    /// The status line of this reply.
    pub fn status(&self) -> (s: &'static str)
        ensures
            s@ == reply_status(*self),
    {
        match self {
            Reply::Report => "200 OK",
            Reply::NotFound => "404 Not Found",
        }
    }

    /// The content type of this reply.
    pub fn content_type(&self) -> (s: &'static str)
        ensures
            s@ == reply_content_type(*self),
    {
        match self {
            Reply::Report => "text/html; charset=utf-8",
            Reply::NotFound => "text/plain",
        }
    }
}

/// The file name the server publishes the dashboard under: the output path's
/// file name, or `report.html` when it has none.
pub fn served_file_name(output: &str) -> (n: String)
    ensures
        n@ == (match path_file_name(output@) {
            Some(f) => f,
            None => "report.html"@,
        }),
{
    match file_name_of(output) {
        Some(f) => f,
        None => String::from_str("report.html"),
    }
}

/// The address the dashboard is served at: `http://<host>:<port>/<file>`.
pub fn dashboard_url(host: &str, port: u16, file_name: &str) -> (u: String)
    ensures
        u@ == "http://"@ + host@ + ":"@ + decimal(port as nat) + "/"@ + file_name@,
{
    let mut v: Vec<char> = Vec::new();
    push_str(&mut v, "http://");
    push_str(&mut v, host);
    push_str(&mut v, ":");
    push_decimal(&mut v, port as u64);
    push_str(&mut v, "/");
    push_str(&mut v, file_name);
    string_from_chars(&v)
}

} // verus!
