//! The decisions around the helper processes that transcribe and summarize:
//! the request line they read, what each line they write means, and how a
//! run ends.
use vstd::prelude::*;

use crate::text::{chars_of, digit_char, trim, trim_at};

verus! {

/// An event that the summarizer writes, one JSON line each.
pub enum SummarizeEvent {
    Downloading { repo: String, file: String },
    Loaded { model: String, backend: String },
    Token { text: String },
    Done { summary: String },
    Error { message: String },
}

/// Which helper process is meant.
#[derive(Clone, Copy, Debug, PartialEq, Eq, Structural)]
pub enum Sidecar {
    Transcribe,
    Summarize,
}

/// What reading the helper's output gave.
pub enum StdoutEvent {
    /// A line, without its terminator.
    Line(String),
    /// The output has ended.
    Closed,
    /// Reading failed; the text describes why.
    Failed(String),
}

/// What to do with what was read.
pub enum StdoutAction {
    /// A blank line: read on.
    Skip,
    /// A line to parse as an event.
    Parse,
    /// The output has ended.
    Finish,
    /// Reading failed: stop with this message.
    Abort(String),
}

/// How waiting for the helper ended.
pub enum WaitReport {
    /// The process exited; `shown` is how its exit status displays.
    Exited { success: bool, signaled: bool, shown: String },
    /// Waiting failed; the text describes why.
    Failed(String),
}

/// Whether `line` holds nothing but whitespace.
pub fn line_is_blank(line: &str) -> (res: bool)
    ensures
        res == (trim(line@).len() == 0),
{
    let v = chars_of(line);
    let (a, b) = trim_at(&v, 0, v.len());
    assert(v@.subrange(0, v.len() as int) =~= line@);
    a == b
}

/// What to do with one result of reading the helper's output.
pub fn next_stdout_action(event: &StdoutEvent) -> (res: StdoutAction)
    ensures
        match event {
            StdoutEvent::Line(l) => if trim(l@).len() == 0 {
                res is Skip
            } else {
                res is Parse
            },
            StdoutEvent::Closed => res is Finish,
            StdoutEvent::Failed(d) => res matches StdoutAction::Abort(m) && m@ == "read stdout: "@
                + d@,
        },
{
    match event {
        StdoutEvent::Line(l) => {
            if line_is_blank(l.as_str()) {
                StdoutAction::Skip
            } else {
                StdoutAction::Parse
            }
        },
        StdoutEvent::Closed => StdoutAction::Finish,
        StdoutEvent::Failed(d) => {
            let mut m = "read stdout: ".to_owned();
            m.append(d.as_str());
            StdoutAction::Abort(m)
        },
    }
}

/// The message for a missing helper environment.
pub open spec fn missing_venv_text(which: Sidecar, python: Seq<char>) -> Seq<char> {
    match which {
        Sidecar::Summarize => "sidecar venv が見つかりません: "@ + python
            + "\n`cd sidecar && uv sync` を実行してください。"@,
        Sidecar::Transcribe => "sidecar venv が見つかりません: "@ + python
            + "\nプロジェクト直下で `cd sidecar && uv venv --python 3.11 && uv sync` を実行してください。"@,
    }
}

/// The message for a missing helper script.
pub open spec fn missing_script_text(which: Sidecar, script: Seq<char>) -> Seq<char> {
    match which {
        Sidecar::Summarize => "summarize.py が見つかりません: "@ + script,
        Sidecar::Transcribe => "sidecar スクリプトが見つかりません: "@ + script,
    }
}

/// Whether the helper can be started: its Python environment and its script
/// must both exist (the environment is checked first).
pub fn check_sidecar(
    which: Sidecar,
    python_exists: bool,
    python_shown: &str,
    script_exists: bool,
    script_shown: &str,
) -> (res: Result<(), String>)
    ensures
        !python_exists ==> (res matches Err(m) && m@ == missing_venv_text(which, python_shown@)),
        python_exists && !script_exists ==> (res matches Err(m) && m@ == missing_script_text(
            which,
            script_shown@,
        )),
        python_exists && script_exists ==> res is Ok,
{
    if !python_exists {
        let mut m = "sidecar venv が見つかりません: ".to_owned();
        m.append(python_shown);
        match which {
            Sidecar::Summarize => m.append("\n`cd sidecar && uv sync` を実行してください。"),
            Sidecar::Transcribe => m.append(
                "\nプロジェクト直下で `cd sidecar && uv venv --python 3.11 && uv sync` を実行してください。",
            ),
        }
        return Err(m);
    }
    if !script_exists {
        let mut m = match which {
            Sidecar::Summarize => "summarize.py が見つかりません: ".to_owned(),
            Sidecar::Transcribe => "sidecar スクリプトが見つかりません: ".to_owned(),
        };
        m.append(script_shown);
        return Err(m);
    }
    Ok(())
}

/// The lower-case hexadecimal digit of `d < 16`.
pub open spec fn hex_lower(d: nat) -> char {
    if d < 10 {
        digit_char(d)
    } else {
        ((d + 87) as u32) as char
    }
}

/// How `serde_json` writes the character `c` inside a JSON string: `"` and
/// `\` behind a backslash, the control characters with a short escape where
/// JSON has one and as `\u00XX` otherwise, every other character as it is.
pub open spec fn json_escape(c: char) -> Seq<char> {
    let u = c as u32;
    if c == '"' {
        seq!['\\', '"']
    } else if c == '\\' {
        seq!['\\', '\\']
    } else if u == 0x08 {
        seq!['\\', 'b']
    } else if u == 0x09 {
        seq!['\\', 't']
    } else if u == 0x0a {
        seq!['\\', 'n']
    } else if u == 0x0c {
        seq!['\\', 'f']
    } else if u == 0x0d {
        seq!['\\', 'r']
    } else if u < 0x20 {
        seq!['\\', 'u', '0', '0', hex_lower((u / 16) as nat), hex_lower((u % 16) as nat)]
    } else {
        seq![c]
    }
}

/// The characters of `s`, each written as `json_escape` gives it.
pub open spec fn json_escaped(s: Seq<char>) -> Seq<char>
    decreases s.len(),
{
    if s.len() == 0 {
        Seq::empty()
    } else {
        json_escaped(s.drop_last()) + json_escape(s.last())
    }
}

/// What `serde_json` writes for the JSON string holding `s`, quotes included.
pub open spec fn json_string_text(s: Seq<char>) -> Seq<char> {
    seq!['"'] + json_escaped(s) + seq!['"']
}

/// A character that JSON strings carry without escaping.
pub open spec fn json_plain_char(c: char) -> bool {
    c != '"' && c != '\\' && (c as u32) >= 0x20
}

/// Calls `serde_json::to_string` on a string. Claimed: the text is the
/// string between double quotes, each character escaped as the escape table
/// of `serde_json::ser` (`ESCAPE`, `format_escaped_str_contents`,
/// `write_char_escape`) writes it.
#[verifier::external_body]
fn json_quote(s: &str) -> (res: String)
    ensures
        res@ == json_string_text(s@),
{
    match serde_json::to_string(s) {
        Ok(t) => t,
        Err(_) => String::new(),
    }
}

proof fn lemma_json_escaped_plain(s: Seq<char>)
    requires
        forall|i: int| 0 <= i < s.len() ==> json_plain_char(#[trigger] s[i]),
    ensures
        json_escaped(s) == s,
    decreases s.len(),
{
    if s.len() > 0 {
        assert forall|i: int| 0 <= i < s.drop_last().len() implies json_plain_char(
            #[trigger] s.drop_last()[i],
        ) by {
            assert(s.drop_last()[i] == s[i]);
        }
        lemma_json_escaped_plain(s.drop_last());
        assert(json_plain_char(s[s.len() - 1]));
        assert(json_escape(s.last()) == seq![s.last()]);
        assert(json_escaped(s) =~= s);
    }
}

/// A string of characters that need no escape is written as it stands,
/// between double quotes.
pub proof fn law_json_plain_string(s: Seq<char>)
    requires
        forall|i: int| 0 <= i < s.len() ==> json_plain_char(#[trigger] s[i]),
    ensures
        json_string_text(s) == seq!['"'] + s + seq!['"'],
{
    lemma_json_escaped_plain(s);
}

/// The request line for the summarizer, given the JSON string of the
/// transcript.
pub fn summarize_request_from(quoted_transcript: &str) -> (res: String)
    ensures
        res@ == "{\"transcript\":"@ + quoted_transcript@ + "}\n"@,
{
    let mut line = "{\"transcript\":".to_owned();
    line.append(quoted_transcript);
    line.append("}\n");
    line
}

/// The line sent to the summarizer: a JSON object holding the transcript.
pub fn summarize_request_line(transcript: &str) -> (res: String)
    ensures
        res@ == "{\"transcript\":"@ + json_string_text(transcript@) + "}\n"@,
{
    let q = json_quote(transcript);
    summarize_request_from(q.as_str())
}

/// The request line for the transcriber, given the JSON string of the WAV
/// path; the keys come in the order `serde_json` sorts them.
pub fn transcribe_request_from(quoted_wav_path: &str) -> (res: String)
    ensures
        res@ == "{\"language\":\"ja\",\"wav_path\":"@ + quoted_wav_path@ + "}\n"@,
{
    let mut line = "{\"language\":\"ja\",\"wav_path\":".to_owned();
    line.append(quoted_wav_path);
    line.append("}\n");
    line
}

/// The line sent to the transcriber: a JSON object holding the WAV path and
/// the language, Japanese.
pub fn transcribe_request_line(wav_path: &str) -> (res: String)
    ensures
        res@ == "{\"language\":\"ja\",\"wav_path\":"@ + json_string_text(wav_path@) + "}\n"@,
{
    let q = json_quote(wav_path);
    transcribe_request_from(q.as_str())
}

/// How a summarization run ends. `waited` is `None` where the process had
/// already been taken away by a cancellation; `read_error` is the message of a
/// failed read of its output.
pub fn summarize_outcome(waited: Option<WaitReport>, read_error: Option<String>) -> (res: Result<
    (),
    String,
>)
    ensures
        waited is None ==> (res matches Err(m) && m@ == "cancelled"@),
        waited is Some && read_error is Some ==> (res matches Err(m) && m@
            == read_error.unwrap()@),
        waited is Some && read_error is None ==> match waited.unwrap() {
            WaitReport::Exited { success, signaled, shown } => if success {
                res is Ok
            } else if signaled {
                res matches Err(m) && m@ == "cancelled"@
            } else {
                res matches Err(m) && m@ == "summarize sidecar exited with "@ + shown@
            },
            WaitReport::Failed(d) => res matches Err(m) && m@ == "wait sidecar: "@ + d@,
        },
{
    let w = match waited {
        None => return Err("cancelled".to_owned()),
        Some(w) => w,
    };
    if let Some(e) = read_error {
        return Err(e);
    }
    match w {
        WaitReport::Exited { success, signaled, shown } => {
            if success {
                Ok(())
            } else if signaled {
                Err("cancelled".to_owned())
            } else {
                let mut m = "summarize sidecar exited with ".to_owned();
                m.append(shown.as_str());
                Err(m)
            }
        },
        WaitReport::Failed(d) => {
            let mut m = "wait sidecar: ".to_owned();
            m.append(d.as_str());
            Err(m)
        },
    }
}

/// How a transcription run ends, once its output has been read to the end.
pub fn transcribe_outcome(waited: WaitReport) -> (res: Result<(), String>)
    ensures
        match waited {
            WaitReport::Exited { success, signaled, shown } => if success {
                res is Ok
            } else {
                res matches Err(m) && m@ == "sidecar exited with "@ + shown@
            },
            WaitReport::Failed(d) => res matches Err(m) && m@ == "wait sidecar: "@ + d@,
        },
{
    match waited {
        WaitReport::Exited { success, signaled: _, shown } => {
            if success {
                Ok(())
            } else {
                let mut m = "sidecar exited with ".to_owned();
                m.append(shown.as_str());
                Err(m)
            }
        },
        WaitReport::Failed(d) => {
            let mut m = "wait sidecar: ".to_owned();
            m.append(d.as_str());
            Err(m)
        },
    }
}

} // verus!
