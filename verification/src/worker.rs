//! The worker's decisions: which job a payload asks for, the inference
//! settings it gives, and the report sent back for a task.

use vstd::prelude::*;
use crate::credentials::{hex_char, hex_str};

verus! {

/// One member of a JSON object, as far as the worker reads it.
#[derive(Debug)]
pub enum JsonField {
    /// The object has no such member.
    Missing,
    /// The member is a string.
    Text(String),
    /// The member holds something other than a string.
    Other,
}

/// The string a member holds, if it is one.
pub open spec fn field_text(f: JsonField) -> Option<Seq<char>> {
    match f {
        JsonField::Text(s) => Some(s@),
        _ => None,
    }
}

/// The jobs a worker can run.
#[derive(Debug, Clone, Copy, PartialEq, Eq, Structural)]
pub enum JobKind {
    AiInference,
}

/// The job type a payload names: its `job_type` member, or its `type`
/// member when there is no `job_type`; `ai_inference` when neither gives a
/// string.
pub open spec fn named_job_type(job_type: JsonField, legacy_type: JsonField) -> Seq<char> {
    let chosen = match job_type {
        JsonField::Missing => legacy_type,
        other => other,
    };
    match field_text(chosen) {
        Some(s) => s,
        None => "ai_inference"@,
    }
}

pub fn job_type(primary: JsonField, legacy: JsonField) -> (r: String)
    ensures
        r@ == named_job_type(primary, legacy),
{
    let chosen = match primary {
        JsonField::Missing => legacy,
        other => other,
    };
    match chosen {
        JsonField::Text(s) => s,
        _ => "ai_inference".to_owned(),
    }
}

/// The job a job type stands for: `ai_inference` and `inference` run an
/// inference; any other type is refused with a message naming it.
pub fn plan_job(job_type: &str) -> (r: Result<JobKind, String>)
    ensures
        (job_type@ == "ai_inference"@ || job_type@ == "inference"@) ==> r == Ok::<JobKind, String>(JobKind::AiInference),
        !(job_type@ == "ai_inference"@ || job_type@ == "inference"@) ==> (r matches Err(e)
            && e@ == "unsupported job type: "@ + job_type@),
{
    if crate::text::str_eq(job_type, "ai_inference") || crate::text::str_eq(job_type, "inference") {
        Ok(JobKind::AiInference)
    } else {
        let mut message = "unsupported job type: ".to_owned();
        message.append(job_type);
        Err(message)
    }
}

/// The model an inference payload names, `llama3.2` by default.
pub fn inference_model(model: JsonField) -> (r: String)
    ensures
        r@ == match field_text(model) {
            Some(s) => s,
            None => "llama3.2"@,
        },
{
    match model {
        JsonField::Text(s) => s,
        _ => "llama3.2".to_owned(),
    }
}

/// The prompt an inference payload gives: its `prompt` string, else its
/// `input` string, else a default request.
pub fn inference_prompt(prompt: JsonField, input: JsonField) -> (r: String)
    ensures
        r@ == match field_text(prompt) {
            Some(s) => s,
            None => match field_text(input) {
                Some(s) => s,
                None => "Summarize what Zephost should do next in one sentence."@,
            },
        },
{
    match prompt {
        JsonField::Text(s) => s,
        _ => match input {
            JsonField::Text(s) => s,
            _ => "Summarize what Zephost should do next in one sentence.".to_owned(),
        },
    }
}

/// What a worker reports as a task's result: the job's output (JSON text),
/// or an error object holding the failure message.
#[derive(Debug)]
pub enum ReportBody {
    Output(String),
    Error(String),
}

/// A worker's report on a task.
#[derive(Debug)]
pub struct ResultReport {
    pub task_id: u64,
    pub success: bool,
    pub reason: Option<String>,
    pub result: ReportBody,
}

/// The report for a task's outcome: a success carries the output; a
/// failure carries its message both as the reason and in the result.
pub fn report_for(task_id: u64, outcome: Result<String, String>) -> (r: ResultReport)
    ensures
        r.task_id == task_id,
        r.success == outcome is Ok,
        match outcome {
            Ok(out) => r.reason is None && r.result == ReportBody::Output(out),
            Err(e) => r.reason == Some(e) && r.result == ReportBody::Error(e),
        },
{
    match outcome {
        Ok(out) => ResultReport { task_id, success: true, reason: None, result: ReportBody::Output(out) },
        Err(e) => ResultReport { task_id, success: false, reason: Some(e.clone()), result: ReportBody::Error(e) },
    }
}

/// `s` without trailing slashes.
pub open spec fn without_trailing_slashes(s: Seq<char>) -> Seq<char>
    decreases s.len(),
{
    if s.len() > 0 && s.last() == '/' {
        without_trailing_slashes(s.drop_last())
    } else {
        s
    }
}

/// A base URL without its trailing slashes.
pub fn base_url(url: &str) -> (r: String)
    ensures
        r@ == without_trailing_slashes(url@),
{
    let n = url.unicode_len();
    let mut j: usize = n;
    assert(url@.subrange(0, n as int) =~= url@);
    while j > 0 && url.get_char(j - 1) == '/'
        invariant
            n == url@.len(),
            j <= n,
            without_trailing_slashes(url@) == without_trailing_slashes(url@.subrange(0, j as int)),
        decreases j,
    {
        assert(url@.subrange(0, j as int).drop_last() =~= url@.subrange(0, j - 1));
        j = j - 1;
    }
    url.substring_char(0, j).to_owned()
}

/// How one character is written inside a JSON string: quotation mark and
/// backslash behind a backslash, the usual short escapes for backspace,
/// form feed, newline, carriage return and tab, `\u00XX` (lower-case hex)
/// for the other control characters, and any other character as it is.
pub open spec fn json_char_escape(c: char) -> Seq<char> {
    if c == '"' {
        seq!['\\', '"']
    } else if c == '\\' {
        seq!['\\', '\\']
    } else if c == '\x08' {
        seq!['\\', 'b']
    } else if c == '\x0c' {
        seq!['\\', 'f']
    } else if c == '\n' {
        seq!['\\', 'n']
    } else if c == '\r' {
        seq!['\\', 'r']
    } else if c == '\t' {
        seq!['\\', 't']
    } else if (c as u32) < 0x20 {
        seq!['\\', 'u', '0', '0', hex_char((c as u32 / 16) as nat), hex_char((c as u32 % 16) as nat)]
    } else {
        seq![c]
    }
}

/// The characters of `s`, each escaped for a JSON string.
pub open spec fn json_escaped(s: Seq<char>) -> Seq<char>
    decreases s.len(),
{
    if s.len() == 0 {
        seq![]
    } else {
        json_escaped(s.drop_last()) + json_char_escape(s.last())
    }
}

/// `s` as a JSON string literal.
pub open spec fn json_string(s: Seq<char>) -> Seq<char> {
    seq!['"'] + json_escaped(s) + seq!['"']
}

/// Appends the escape of the character of `s` at `i`.
fn push_json_char(out: &mut String, s: &str, i: usize)
    requires
        i < s@.len(),
    ensures
        final(out)@ == old(out)@ + json_char_escape(s@[i as int]),
{
    proof {
        reveal_strlit("\\\"");
        reveal_strlit("\\\\");
        reveal_strlit("\\b");
        reveal_strlit("\\f");
        reveal_strlit("\\n");
        reveal_strlit("\\r");
        reveal_strlit("\\t");
        reveal_strlit("\\u00");
    }
    let n = s.unicode_len();
    let c = s.get_char(i);
    if c == '"' {
        out.append("\\\"");
    } else if c == '\\' {
        out.append("\\\\");
    } else if c == '\x08' {
        out.append("\\b");
    } else if c == '\x0c' {
        out.append("\\f");
    } else if c == '\n' {
        out.append("\\n");
    } else if c == '\r' {
        out.append("\\r");
    } else if c == '\t' {
        out.append("\\t");
    } else if (c as u32) < 0x20 {
        let code = c as u32;
        out.append("\\u00");
        out.append(hex_str((code / 16) as u128));
        out.append(hex_str((code % 16) as u128));
    } else {
        let piece = s.substring_char(i, i + 1);
        assert(piece@ =~= seq![c]);
        out.append(piece);
    }
}

/// Writes `s` as a JSON string literal.
pub fn json_string_text(s: &str) -> (r: String)
    ensures
        r@ == json_string(s@),
{
    proof {
        reveal_strlit("\"");
    }
    let mut out = "\"".to_owned();
    let n = s.unicode_len();
    let mut i: usize = 0;
    assert(s@.take(0) =~= Seq::<char>::empty());
    while i < n
        invariant
            n == s@.len(),
            i <= n,
            out@ == seq!['"'] + json_escaped(s@.take(i as int)),
        decreases n - i,
    {
        let ghost before = out@;
        push_json_char(&mut out, s, i);
        assert(s@.take(i + 1).drop_last() =~= s@.take(i as int));
        assert(s@.take(i + 1).last() == s@[i as int]);
        assert(out@ =~= seq!['"'] + json_escaped(s@.take(i + 1)));
        i = i + 1;
    }
    assert(s@.take(n as int) =~= s@);
    proof {
        reveal_strlit("\"");
    }
    out.append("\"");
    out
}

/// The JSON object a worker reports for a finished inference: the job
/// type, the model and prompt it used, the model's response and the task's
/// input, the last two being JSON texts placed as they are.
pub open spec fn inference_output(model: Seq<char>, prompt: Seq<char>, response: Seq<char>, input: Seq<char>) -> Seq<
    char,
> {
    "{\"job_type\":\"ai_inference\",\"model\":"@ + json_string(model) + ",\"prompt\":"@ + json_string(prompt)
        + ",\"response\":"@ + response + ",\"input\":"@ + input + "}"@
}

/// The output of an inference job as JSON text. `reply` is the JSON text of
/// the inference service's reply and `response_member` that of its
/// `response` member, if it has one; the model's response is that member,
/// or the whole reply when there is none. `input` is the JSON text of the
/// task's payload.
pub fn inference_output_json(model: &str, prompt: &str, response_member: Option<&str>, reply: &str, input: &str) -> (r:
    String)
    ensures
        r@ == inference_output(
            model@,
            prompt@,
            match response_member {
                Some(m) => m@,
                None => reply@,
            },
            input@,
        ),
{
    let response = match response_member {
        Some(m) => m,
        None => reply,
    };
    let mut out = "{\"job_type\":\"ai_inference\",\"model\":".to_owned();
    out.append(json_string_text(model).as_str());
    out.append(",\"prompt\":");
    out.append(json_string_text(prompt).as_str());
    out.append(",\"response\":");
    out.append(response);
    out.append(",\"input\":");
    out.append(input);
    out.append("}");
    out
}

} // verus!
