//! The decisions of the developer tools: the source-file lint rules and the
//! reply of the local stand-in for the generation endpoint. Reading files,
//! walking directories and the socket are the callers' part.
use vstd::prelude::*;
use vstd::string::StringSliceAdditionalSpecFns;
use vstd::utf8::encode_utf8;

use crate::format::{decimal, push_decimal};
use crate::text::string_views;

verus! {

/// The longest line, in characters, that the lint accepts.
pub const MAX_LINE_LEN: usize = 100;

/// The most lines a source file may have.
pub const MAX_FILE_LINES: usize = 300;

/// The lint message of line `line_number` (counted from 1) when it has more
/// than `MAX_LINE_LEN` characters: "line <n>: length <chars> > 100"; none otherwise.
pub fn line_length_violation(line_number: usize, line: &str) -> (r: Option<String>)
    ensures
        line@.len() <= MAX_LINE_LEN ==> r is None,
        line@.len() > MAX_LINE_LEN ==> (r matches Some(msg) && msg@ == "line "@ + decimal(
            line_number as nat,
        ) + ": length "@ + decimal(line@.len()) + " > "@ + decimal(MAX_LINE_LEN as nat)),
{
    let count = line.unicode_len();
    if count <= MAX_LINE_LEN {
        return None;
    }
    let mut msg = "line ".to_owned();
    push_decimal(&mut msg, line_number as u64);
    msg.append(": length ");
    push_decimal(&mut msg, count as u64);
    msg.append(" > ");
    push_decimal(&mut msg, MAX_LINE_LEN as u64);
    Some(msg)
}

/// The lint message of a file with more than `MAX_FILE_LINES` lines:
/// "file has <n> lines > 300"; none otherwise.
pub fn line_count_violation(line_count: usize) -> (r: Option<String>)
    ensures
        line_count <= MAX_FILE_LINES ==> r is None,
        line_count > MAX_FILE_LINES ==> (r matches Some(msg) && msg@ == "file has "@ + decimal(
            line_count as nat,
        ) + " lines > "@ + decimal(MAX_FILE_LINES as nat)),
{
    if line_count <= MAX_FILE_LINES {
        return None;
    }
    let mut msg = "file has ".to_owned();
    push_decimal(&mut msg, line_count as u64);
    msg.append(" lines > ");
    push_decimal(&mut msg, MAX_FILE_LINES as u64);
    Some(msg)
}

/// The message of a line of `chars` characters that is too long.
pub open spec fn length_message(line_number: nat, chars: nat) -> Seq<char> {
    "line "@ + decimal(line_number) + ": length "@ + decimal(chars) + " > "@ + decimal(
        MAX_LINE_LEN as nat,
    )
}

/// The message of a line that could not be read.
pub open spec fn read_error_message(line_number: nat, error: Seq<char>) -> Seq<char> {
    "line "@ + decimal(line_number) + " read error: "@ + error
}

/// The messages of the lines of a file, in line order: each line read (`Ok`)
/// that is too long, and each line that could not be read (`Err`, with the
/// error's text).
pub open spec fn line_messages(lines: Seq<Result<String, String>>) -> Seq<Seq<char>>
    decreases lines.len(),
{
    if lines.len() == 0 {
        Seq::empty()
    } else {
        let prev = line_messages(lines.drop_last());
        match lines.last() {
            Ok(l) => if l@.len() > MAX_LINE_LEN {
                prev.push(length_message(lines.len(), l@.len()))
            } else {
                prev
            },
            Err(e) => prev.push(read_error_message(lines.len(), e@)),
        }
    }
}

/// All the messages of a file: those of its lines, then the one for a file
/// with too many lines.
pub open spec fn lint_messages(lines: Seq<Result<String, String>>) -> Seq<Seq<char>> {
    line_messages(lines) + if lines.len() > MAX_FILE_LINES {
        seq!["file has "@ + decimal(lines.len()) + " lines > "@ + decimal(MAX_FILE_LINES as nat)]
    } else {
        Seq::empty()
    }
}

/// The lint messages of a file from its lines as read: a line is `Ok` with
/// its text, or `Err` with the text of the read error.
pub fn lint_file(lines: &Vec<Result<String, String>>) -> (r: Vec<String>)
    ensures
        string_views(r@) == lint_messages(lines@),
{
    let n = lines.len();
    let mut out: Vec<String> = Vec::new();
    let mut i: usize = 0;
    while i < n
        invariant
            n == lines@.len(),
            0 <= i <= n,
            string_views(out@) == line_messages(lines@.take(i as int)),
        decreases n - i,
    {
        let ghost before = out@;
        proof {
            assert(lines@.take(i + 1).drop_last() =~= lines@.take(i as int));
            assert(lines@.take(i + 1).last() == lines@[i as int]);
        }
        match &lines[i] {
            Ok(line) => {
                match line_length_violation(i + 1, line.as_str()) {
                    Some(msg) => {
                        out.push(msg);
                        proof {
                            assert(string_views(out@) =~= string_views(before).push(
                                length_message((i + 1) as nat, line@.len()),
                            ));
                        }
                    },
                    None => {},
                }
            },
            Err(e) => {
                let mut msg = "line ".to_owned();
                push_decimal(&mut msg, (i + 1) as u64);
                msg.append(" read error: ");
                msg.append(e.as_str());
                out.push(msg);
                proof {
                    assert(string_views(out@) =~= string_views(before).push(
                        read_error_message((i + 1) as nat, e@),
                    ));
                }
            },
        }
        i = i + 1;
    }
    proof {
        assert(lines@.take(n as int) =~= lines@);
    }
    let ghost body = out@;
    match line_count_violation(n) {
        Some(msg) => {
            out.push(msg);
            proof {
                assert(string_views(out@) =~= string_views(body).push(msg@));
            }
        },
        None => {
            proof {
                assert(string_views(out@) =~= string_views(body) + Seq::<Seq<char>>::empty());
            }
        },
    }
    out
}

/// Whether the four characters from `i` on are "\r\n\r\n", the end of the headers.
pub open spec fn is_header_end(s: Seq<char>, i: int) -> bool {
    &&& 0 <= i
    &&& i + 4 <= s.len()
    &&& s[i] == '\r'
    &&& s[i + 1] == '\n'
    &&& s[i + 2] == '\r'
    &&& s[i + 3] == '\n'
}

/// Whether `i` is the first position where the headers end.
pub open spec fn is_first_header_end(s: Seq<char>, i: int) -> bool {
    is_header_end(s, i) && forall|j: int| 0 <= j < i ==> !#[trigger] is_header_end(s, j)
}

/// Whether the request is a POST to the generation path.
pub open spec fn is_generation_post(req: Seq<char>) -> bool {
    "POST /gemini"@.is_prefix_of(req)
}

/// The reply to a request for the generation endpoint: the body after the
/// headers, echoed as plain text with its length in bytes.
pub open spec fn echo_reply(body: Seq<char>) -> Seq<char> {
    "HTTP/1.1 200 OK\r\nContent-Type: text/plain\r\nContent-Length: "@ + decimal(
        encode_utf8(body).len(),
    ) + "\r\n\r\n"@ + body
}

/// The reply of the local stand-in for the generation endpoint: a POST to
/// "/gemini" is answered with its body echoed back (200), or with 400 when the
/// headers never end; any other request gets 404.
pub fn stub_reply(request: &str) -> (r: String)
    ensures
        !is_generation_post(request@) ==> r@ == "HTTP/1.1 404 Not Found\r\nContent-Length: 0\r\n\r\n"@,
        is_generation_post(request@) && (forall|i: int| !#[trigger] is_header_end(request@, i))
            ==> r@ == "HTTP/1.1 400 Bad Request\r\nContent-Length: 0\r\n\r\n"@,
        forall|p: int|
            is_generation_post(request@) && #[trigger] is_first_header_end(request@, p) ==> r@
                == echo_reply(request@.skip(p + 4)),
{
    let n = request.unicode_len();
    let prefix = "POST /gemini";
    proof {
        reveal_strlit("POST /gemini");
    }
    let plen = prefix.unicode_len();
    let mut is_post = plen <= n;
    let mut k: usize = 0;
    while is_post && k < plen
        invariant
            plen == prefix@.len(),
            n == request@.len(),
            prefix@ == "POST /gemini"@,
            0 <= k <= plen,
            is_post ==> plen <= n,
            is_post ==> forall|j: int| 0 <= j < k ==> prefix@[j] == request@[j],
            !is_post ==> !is_generation_post(request@),
        decreases plen - k + (if is_post { 1int } else { 0int }),
    {
        if prefix.get_char(k) != request.get_char(k) {
            is_post = false;
        } else {
            k = k + 1;
        }
    }
    if !is_post {
        proof {
            reveal_strlit("HTTP/1.1 404 Not Found\r\nContent-Length: 0\r\n\r\n");
        }
        return "HTTP/1.1 404 Not Found\r\nContent-Length: 0\r\n\r\n".to_owned();
    }
    proof {
        assert(request@.subrange(0, plen as int) =~= prefix@);
    }
    let mut pos: usize = 0;
    let mut found = false;
    while !found && n >= 4 && pos <= n - 4
        invariant
            n == request@.len(),
            pos <= n,
            found ==> is_header_end(request@, pos as int),
            forall|j: int| 0 <= j < pos ==> !#[trigger] is_header_end(request@, j),
        decreases n - pos + (if found { 0int } else { 1int }),
    {
        if request.get_char(pos) == '\r' && request.get_char(pos + 1) == '\n' && request.get_char(
            pos + 2,
        ) == '\r' && request.get_char(pos + 3) == '\n' {
            found = true;
        } else {
            pos = pos + 1;
        }
    }
    if !found {
        proof {
            assert(n < 4 || pos > n - 4);
            reveal_strlit("HTTP/1.1 400 Bad Request\r\nContent-Length: 0\r\n\r\n");
            assert forall|p: int| #[trigger] is_first_header_end(request@, p) implies false by {
                assert(is_header_end(request@, p));
            }
        }
        return "HTTP/1.1 400 Bad Request\r\nContent-Length: 0\r\n\r\n".to_owned();
    }
    let body = request.substring_char(pos + 4, n);
    let body_len = body.as_bytes().len();
    let mut reply = "HTTP/1.1 200 OK\r\nContent-Type: text/plain\r\nContent-Length: ".to_owned();
    push_decimal(&mut reply, body_len as u64);
    reply.append("\r\n\r\n");
    reply.append(body);
    proof {
        assert(request@.subrange(pos + 4, n as int) =~= request@.skip(pos + 4));
        assert forall|p: int| #[trigger] is_first_header_end(request@, p) implies p == pos by {
            if p < pos {
                assert(!is_header_end(request@, p));
            } else if p > pos {
                assert(!is_header_end(request@, pos as int));
            }
        }
    }
    reply
}

} // verus!
