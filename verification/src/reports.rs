use vstd::prelude::*;
use crate::text::{count_lines, decimal, decimal_of, lines_of, trim, trim_end, trim_end_of, trim_of};
use crate::trunc::{apply_trunc, cuts, truncated_of, DEFAULT_MAX_LINES};

verus! {

// ── info ─────────────────────────────────────────────────────────────────────

/// What `info` reports of a path: its size and number of lines (for a file
/// whose text could be read), and the plain-text output.
pub struct InfoReport {
    pub size: Option<u64>,
    pub lines: Option<usize>,
    pub text: String,
}

/// The plain output of `info`: one labelled line each for the path, the
/// kind, and the size, lines and modification time where known.
pub open spec fn info_text_of(
    path: Seq<char>,
    is_dir: bool,
    size: Option<u64>,
    lines: Option<usize>,
    modified: Option<Seq<char>>,
) -> Seq<char> {
    trim_end_of(
        "path:     "@ + path + "\n"@ + "type:     "@ + (if is_dir { "directory"@ } else { "file"@ }) + "\n"@
            + (match size {
            Some(s) => "size:     "@ + decimal_of(s as nat) + " bytes\n"@,
            None => Seq::<char>::empty(),
        }) + (match lines {
            Some(l) => "lines:    "@ + decimal_of(l as nat) + "\n"@,
            None => Seq::<char>::empty(),
        }) + (match modified {
            Some(m) => "modified: "@ + m + "\n"@,
            None => Seq::<char>::empty(),
        }),
    )
}

/// The report of `info` on `path`: a directory has no size and no lines;
/// a file has its length in bytes, and its number of lines where its text
/// (`content`) could be read.
pub fn info_report(path: &str, is_dir: bool, len: u64, content: Option<String>, modified: Option<String>) -> (r: InfoReport)
    ensures
        r.size == (if is_dir { None } else { Some(len) }),
        r.lines == (if is_dir { None } else {
            match content {
                Some(c) => Some(lines_of(c@).len() as usize),
                None => None,
            }
        }),
        r.text@ == info_text_of(path@, is_dir, r.size, r.lines, match modified {
            Some(m) => Some(m@),
            None => None,
        }),
{
    let size = if is_dir { None } else { Some(len) };
    let lines = if is_dir {
        None
    } else {
        match &content {
            Some(c) => Some(count_lines(c.as_str())),
            None => None,
        }
    };
    let ghost mv = match &modified {
        Some(m) => Some(m@),
        None => None::<Seq<char>>,
    };
    let mut out = String::new();
    out.append("path:     ");
    out.append(path);
    out.append("\n");
    out.append("type:     ");
    out.append(if is_dir { "directory" } else { "file" });
    out.append("\n");
    let ghost head = out@;
    match size {
        Some(s) => {
            out.append("size:     ");
            out.append(decimal(s).as_str());
            out.append(" bytes\n");
        },
        None => {},
    }
    let ghost after_size = out@;
    assert(after_size == head + match size {
        Some(s) => "size:     "@ + decimal_of(s as nat) + " bytes\n"@,
        None => Seq::<char>::empty(),
    });
    match lines {
        Some(l) => {
            out.append("lines:    ");
            out.append(decimal(l as u64).as_str());
            out.append("\n");
        },
        None => {},
    }
    let ghost after_lines = out@;
    assert(after_lines == after_size + match lines {
        Some(l) => "lines:    "@ + decimal_of(l as nat) + "\n"@,
        None => Seq::<char>::empty(),
    });
    match &modified {
        Some(m) => {
            out.append("modified: ");
            out.append(m.as_str());
            out.append("\n");
        },
        None => {},
    }
    assert(out@ == after_lines + match mv {
        Some(m) => "modified: "@ + m + "\n"@,
        None => Seq::<char>::empty(),
    });
    InfoReport { size, lines, text: trim_end(out.as_str()) }
}

// ── write, mkdir, mv, cp ─────────────────────────────────────────────────────

/// The number of bytes written for `content` and the message
/// `file: N bytes written`.
pub fn write_report(file: &str, content: &str) -> (r: (usize, String))
    ensures
        r.0 == content.len(),
        r.1@ == file@ + ": "@ + decimal_of(r.0 as nat) + " bytes written"@,
{
    let bytes = content.len();
    let mut m = file.to_owned();
    m.append(": ");
    m.append(decimal(bytes as u64).as_str());
    m.append(" bytes written");
    (bytes, m)
}

/// The message after creating a directory: `created path/`.
pub fn mkdir_message(path: &str) -> (m: String)
    ensures
        m@ == "created "@ + path@ + "/"@,
{
    let mut m = String::new();
    m.append("created ");
    m.append(path);
    m.append("/");
    m
}

/// The message after moving or copying: `from → to`.
pub fn transfer_message(from: &str, to: &str) -> (m: String)
    ensures
        m@ == from@ + " → "@ + to@,
{
    let mut m = from.to_owned();
    m.append(" → ");
    m.append(to);
    m
}

// ── diff ─────────────────────────────────────────────────────────────────────

/// The output of a command: its standard output, or its standard error
/// where the standard output is empty.
pub open spec fn command_output(stdout: Seq<char>, stderr: Seq<char>) -> Seq<char> {
    if stdout.len() == 0 { stderr } else { stdout }
}

/// What `diff` reports: the diff without surrounding white space (the JSON
/// report) and the plain-text output.
pub struct DiffReport {
    pub diff: String,
    pub text: String,
}

/// The report of `diff -u` from what it printed: `files are identical`
/// where it printed nothing but white space.
pub fn diff_report(stdout: &str, stderr: &str) -> (r: DiffReport)
    ensures
        r.diff@ == trim_of(command_output(stdout@, stderr@)),
        r.text@ == (if trim_of(command_output(stdout@, stderr@)).len() == 0 {
            "files are identical"@
        } else {
            trim_end_of(command_output(stdout@, stderr@))
        }),
{
    let result = if stdout.is_empty() { stderr } else { stdout };
    let diff = trim(result);
    let text = if diff.as_str().is_empty() {
        "files are identical".to_owned()
    } else {
        trim_end(result)
    };
    DiffReport { diff, text }
}

// ── http ─────────────────────────────────────────────────────────────────────

/// What `http` reports of a response body: the body cut to the default
/// number of lines and whether it was cut (the JSON report), and the plain
/// text (the body without trailing white space, cut likewise).
pub struct HttpReport {
    pub body: String,
    pub truncated: bool,
    pub text: String,
}

/// The report of `http` on a response body.
pub fn http_report(body: &str) -> (r: HttpReport)
    ensures
        r.body@ == truncated_of(body@, DEFAULT_MAX_LINES as nat, false),
        r.truncated == cuts(lines_of(body@).len(), DEFAULT_MAX_LINES as nat, false),
        r.text@ == truncated_of(trim_end_of(body@), DEFAULT_MAX_LINES as nat, false),
{
    let (shown, truncated) = apply_trunc(body, DEFAULT_MAX_LINES, false);
    let trimmed = trim_end(body);
    let (text, _) = apply_trunc(trimmed.as_str(), DEFAULT_MAX_LINES, false);
    HttpReport { body: shown, truncated, text }
}

} // verus!
