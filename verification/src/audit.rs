//! The text of the audit log: argument summaries, session-log lines, and the
//! names and contents of per-command log files.

use vstd::prelude::*;
use vstd::string::StringExecFns;
use crate::calendar::{compact_timestamp_text, iso8601_text, format_timestamp, now_iso8601};
use crate::execute::ExecuteResult;
use crate::json::{JsonValue, json_text, to_json_string};
use crate::text::{
    utf8_len,
    str_byte_len,
    prefix_within,
    prefix_within_budget,
    join_seqs,
    join_strings,
    push_char,
    push_zero_padded,
    push_signed_decimal,
    zero_padded,
    lemma_zero_padded_value,
    signed_decimal,
    chars_of,
    string_of,
};

verus! {

/// The Rust debug rendering of a string (`format!("{:?}", s)`): the text in
/// double quotes with escapes.
pub uninterp spec fn debug_string_literal(s: Seq<char>) -> Seq<char>;

/// `format!("{:?}", s)` on a string slice; the result is named
/// [`debug_string_literal`] of the text.
#[verifier::external_body]
fn debug_quote(s: &str) -> (q: String)
    ensures
        q@ == debug_string_literal(s@),
{
    format!("{:?}", s)
}

/// Longest string value, in bytes, written out whole in a summary.
pub open spec fn summary_value_limit() -> nat {
    80
}

/// How an array item is written in a summary: strings quoted, other values
/// as JSON.
pub open spec fn array_item_text(v: JsonValue) -> Seq<char> {
    match v {
        JsonValue::Str(s) => debug_string_literal(s@),
        _ => json_text(v),
    }
}

/// How one argument is written in a summary. A string longer than 80 bytes
/// is cut to its longest prefix of whole characters within 77 bytes and
/// marked with `...`.
pub open spec fn argument_part(key: Seq<char>, v: JsonValue) -> Seq<char> {
    match v {
        JsonValue::Str(s) => if utf8_len(s@) > summary_value_limit() {
            key + "=\""@ + prefix_within(s@, 77) + "...\""@
        } else {
            key + seq!['='] + debug_string_literal(s@)
        },
        JsonValue::Array(items) => key + "=["@ + join_seqs(
            items@.map_values(|x: JsonValue| array_item_text(x)),
            ", "@,
        ) + "]"@,
        _ => key + seq!['='] + json_text(v),
    }
}

/// A one-line summary of tool arguments: `key=value` for each member,
/// separated by spaces; empty for a non-object.
pub open spec fn argument_summary(args: JsonValue) -> Seq<char> {
    match args {
        JsonValue::Object(entries) => join_seqs(
            entries@.map_values(|e: (String, JsonValue)| argument_part(e.0@, e.1)),
            seq![' '],
        ),
        _ => Seq::empty(),
    }
}

fn array_item(v: &JsonValue) -> (t: String)
    ensures
        t@ == array_item_text(*v),
{
    match v {
        JsonValue::Str(s) => debug_quote(s.as_str()),
        _ => to_json_string(v),
    }
}

fn argument_text(key: &str, v: &JsonValue) -> (t: String)
    ensures
        t@ == argument_part(key@, *v),
{
    match v {
        JsonValue::Str(s) => {
            if str_byte_len(s.as_str()) > 80 {
                let mut t = String::from_str(key);
                t.append("=\"");
                let cut = prefix_within_budget(s.as_str(), 77);
                t.append(cut.as_str());
                t.append("...\"");
                t
            } else {
                let mut t = String::from_str(key);
                push_char(&mut t, '=');
                let q = debug_quote(s.as_str());
                t.append(q.as_str());
                t
            }
        },
        JsonValue::Array(items) => {
            let mut parts: Vec<String> = Vec::new();
            let mut i: usize = 0;
            while i < items.len()
                invariant
                    i <= items@.len(),
                    parts@.len() == i,
                    forall|j: int| 0 <= j < i ==> (#[trigger] parts@[j])@ == array_item_text(items@[j]),
                decreases items@.len() - i,
            {
                parts.push(array_item(&items[i]));
                i = i + 1;
            }
            proof {
                assert(parts@.map_values(|p: String| p@) =~= items@.map_values(|x: JsonValue| array_item_text(x)));
            }
            let mut t = String::from_str(key);
            t.append("=[");
            let j = join_strings(&parts, ", ");
            t.append(j.as_str());
            t.append("]");
            t
        },
        _ => {
            let mut t = String::from_str(key);
            push_char(&mut t, '=');
            let j = to_json_string(v);
            t.append(j.as_str());
            t
        },
    }
}

/// Summarizes tool arguments for the session log.
pub fn summarize_arguments(args: &JsonValue) -> (s: String)
    ensures
        s@ == argument_summary(*args),
{
    match args {
        JsonValue::Object(entries) => {
            let mut parts: Vec<String> = Vec::new();
            let mut i: usize = 0;
            while i < entries.len()
                invariant
                    i <= entries@.len(),
                    parts@.len() == i,
                    forall|j: int|
                        0 <= j < i ==> (#[trigger] parts@[j])@ == argument_part(entries@[j].0@, entries@[j].1),
                decreases entries@.len() - i,
            {
                parts.push(argument_text(entries[i].0.as_str(), &entries[i].1));
                i = i + 1;
            }
            proof {
                assert(parts@.map_values(|p: String| p@) =~= entries@.map_values(
                    |e: (String, JsonValue)| argument_part(e.0@, e.1),
                ));
            }
            let s = join_strings(&parts, " ");
            proof {
                reveal_strlit(" ");
                assert(" "@ =~= seq![' ']);
            }
            s
        },
        _ => String::new(),
    }
}

/// The session-log line of a tool call made at `now`.
pub open spec fn tool_call_text(now: Seq<char>, tool_name: Seq<char>, args: JsonValue) -> Seq<char> {
    seq!['['] + now + "] TOOL "@ + tool_name + seq![' '] + argument_summary(args) + seq!['\n']
}

/// The session-log line of a tool result recorded at `now`.
pub open spec fn tool_result_text(now: Seq<char>, summary: Seq<char>) -> Seq<char> {
    seq!['['] + now + "] RESULT "@ + summary + seq!['\n']
}

/// Formats the session-log line of a tool call made at `now`.
pub fn format_tool_call_line(now: &str, tool_name: &str, args: &JsonValue) -> (line: String)
    ensures
        line@ == tool_call_text(now@, tool_name@, *args),
{
    let mut line = String::new();
    push_char(&mut line, '[');
    line.append(now);
    line.append("] TOOL ");
    line.append(tool_name);
    push_char(&mut line, ' ');
    let summary = summarize_arguments(args);
    line.append(summary.as_str());
    push_char(&mut line, '\n');
    assert(line@ =~= tool_call_text(now@, tool_name@, *args));
    line
}

/// Formats the session-log line of a tool result recorded at `now`.
pub fn format_tool_result_line(now: &str, summary: &str) -> (line: String)
    ensures
        line@ == tool_result_text(now@, summary@),
{
    let mut line = String::new();
    push_char(&mut line, '[');
    line.append(now);
    line.append("] RESULT ");
    line.append(summary);
    push_char(&mut line, '\n');
    assert(line@ =~= tool_result_text(now@, summary@));
    line
}

/// The session-log line of a tool call, stamped with the current time.
pub fn tool_call_line(tool_name: &str, args: &JsonValue) -> (line: String)
    ensures
        exists|secs: u64| line@ == tool_call_text(iso8601_text(secs as nat), tool_name@, *args),
{
    let now = now_iso8601();
    format_tool_call_line(now.as_str(), tool_name, args)
}

/// The session-log line of a tool result, stamped with the current time.
pub fn tool_result_line(summary: &str) -> (line: String)
    ensures
        exists|secs: u64| line@ == tool_result_text(iso8601_text(secs as nat), summary@),
{
    let now = now_iso8601();
    format_tool_result_line(now.as_str(), summary)
}

/// The name of the `n`-th command log of a session: `<prefix>_<NNN>.log`.
pub open spec fn command_log_name(prefix: Seq<char>, n: nat) -> Seq<char> {
    prefix + seq!['_'] + zero_padded(n, 3) + ".log"@
}

/// Newline added after output that does not end with one.
pub open spec fn line_end(s: Seq<char>) -> Seq<char> {
    if s.len() > 0 && s.last() != '\n' {
        seq!['\n']
    } else {
        Seq::empty()
    }
}

/// The content of a command log: the command, its working directory when
/// given, both output streams, and the exit code or the timeout.
pub open spec fn command_log_text(command_desc: Seq<char>, cwd: Option<Seq<char>>, r: ExecuteResult) -> Seq<char> {
    "$ "@ + command_desc + seq!['\n'] + match cwd {
        Some(c) => "(cwd: "@ + c + ")\n"@,
        None => Seq::empty(),
    } + "--- stdout ---\n"@ + r.stdout@ + line_end(r.stdout@) + "--- stderr ---\n"@ + r.stderr@ + line_end(
        r.stderr@,
    ) + if r.timed_out {
        "--- timed out ---\n"@
    } else {
        "--- exit code: "@ + signed_decimal(r.exit_code as int) + " ---\n"@
    }
}

fn ends_without_newline(s: &str) -> (b: bool)
    ensures
        b == (line_end(s@).len() > 0),
{
    let v = chars_of(s);
    v.len() > 0 && v[v.len() - 1] != '\n'
}

/// Formats the content of a command log.
#[verifier::spinoff_prover]
pub fn command_log_content(command_desc: &str, cwd: Option<&str>, result: &ExecuteResult) -> (content: String)
    ensures
        content@ == command_log_text(
            command_desc@,
            match cwd {
                Some(c) => Some(c@),
                None => None,
            },
            *result,
        ),
{
    let mut content = String::from_str("$ ");
    content.append(command_desc);
    push_char(&mut content, '\n');
    match cwd {
        Some(c) => {
            content.append("(cwd: ");
            content.append(c);
            content.append(")\n");
        },
        None => {},
    }
    content.append("--- stdout ---\n");
    content.append(result.stdout.as_str());
    if ends_without_newline(result.stdout.as_str()) {
        push_char(&mut content, '\n');
    }
    content.append("--- stderr ---\n");
    content.append(result.stderr.as_str());
    if ends_without_newline(result.stderr.as_str()) {
        push_char(&mut content, '\n');
    }
    if result.timed_out {
        content.append("--- timed out ---\n");
    } else {
        content.append("--- exit code: ");
        push_signed_decimal(&mut content, result.exit_code as i64);
        content.append(" ---\n");
    }
    assert(content@ =~= command_log_text(
        command_desc@,
        match cwd {
            Some(c) => Some(c@),
            None => None,
        },
        *result,
    ));
    content
}

/// The per-session naming of command logs: a shared prefix and a counter.
pub struct CommandLogNames {
    prefix: String,
    counter: usize,
}

impl CommandLogNames {
    /// The session prefix.
    pub closed spec fn prefix(&self) -> Seq<char> {
        self.prefix@
    }

    /// How many command logs were named so far.
    pub closed spec fn count(&self) -> nat {
        self.counter as nat
    }

    /// Names for a session with the given prefix; none used yet.
    pub fn new(prefix: String) -> (n: Self)
        ensures
            n.prefix() == prefix@,
            n.count() == 0,
    {
        CommandLogNames { prefix, counter: 0 }
    }

    /// How many command logs were named so far.
    pub fn logged(&self) -> (c: usize)
        ensures
            c == self.count(),
    {
        self.counter
    }

    /// The session prefix.
    pub fn prefix_str(&self) -> (p: &str)
        ensures
            p@ == self.prefix(),
    {
        self.prefix.as_str()
    }

    /// The name of the next command log: numbers start at 1 and go up by one.
    pub fn next_name(&mut self) -> (name: String)
        requires
            old(self).count() < usize::MAX,
        ensures
            final(self).prefix() == old(self).prefix(),
            final(self).count() == old(self).count() + 1,
            name@ == command_log_name(old(self).prefix(), final(self).count()),
    {
        self.counter = self.counter + 1;
        let mut name = String::from_str(self.prefix.as_str());
        push_char(&mut name, '_');
        push_zero_padded(&mut name, self.counter as u64, 3);
        name.append(".log");
        assert(name@ =~= command_log_name(self.prefix@, self.counter as nat));
        name
    }
}

/// Distinct command numbers of one session get distinct log names, so no
/// command log overwrites another.
pub proof fn lemma_command_log_names_distinct(prefix: Seq<char>, n: nat, m: nat)
    requires
        n != m,
    ensures
        command_log_name(prefix, n) != command_log_name(prefix, m),
{
    let a = command_log_name(prefix, n);
    let b = command_log_name(prefix, m);
    if a == b {
        reveal_strlit(".log");
        let za = zero_padded(n, 3);
        let zb = zero_padded(m, 3);
        let k = prefix.len() + 1;
        assert(a.subrange(k as int, a.len() - 4) =~= za);
        assert(b.subrange(k as int, b.len() - 4) =~= zb);
        lemma_zero_padded_value(n, 3);
        lemma_zero_padded_value(m, 3);
    }
}

/// A lowercase hexadecimal digit.
pub open spec fn is_lower_hex(c: char) -> bool {
    ('0' <= c && c <= '9') || ('a' <= c && c <= 'f')
}

/// `Uuid::new_v4().to_string()`: a random UUID in its hyphenated lowercase
/// form, 36 characters with hyphens at positions 8, 13, 18 and 23 and
/// lowercase hexadecimal digits elsewhere. The value is random, so nothing
/// else is promised.
#[verifier::external_body]
fn random_uuid_text() -> (s: String)
    ensures
        s@.len() == 36,
        forall|i: int|
            0 <= i < 36 ==> if i == 8 || i == 13 || i == 18 || i == 23 {
                #[trigger] s@[i] == '-'
            } else {
                is_lower_hex(s@[i])
            },
{
    uuid::Uuid::new_v4().to_string()
}

/// The prefix shared by the log files of one session:
/// `<session id>_<timestamp>`.
pub open spec fn session_prefix_text(session_id: Seq<char>, timestamp: Seq<char>) -> Seq<char> {
    session_id + seq!['_'] + timestamp
}

/// A fresh session prefix: the first eight hex digits of a random UUID and
/// the current UTC time as `YYYYMMDDTHHMMSS`.
pub fn new_session_prefix() -> (p: String)
    ensures
        exists|id: Seq<char>, secs: u64|
            id.len() == 8 && (forall|i: int| 0 <= i < 8 ==> is_lower_hex(#[trigger] id[i])) && p@
                == session_prefix_text(id, compact_timestamp_text(secs as nat)),
{
    let uuid = random_uuid_text();
    let chars = chars_of(uuid.as_str());
    let mut p = string_of(&chars, 0, 8);
    let ghost id = p@;
    proof {
        assert forall|i: int| 0 <= i < 8 implies is_lower_hex(#[trigger] id[i]) by {
            assert(id[i] == uuid@[i]);
        }
    }
    push_char(&mut p, '_');
    let ts = format_timestamp();
    p.append(ts.as_str());
    proof {
        let secs = choose|secs: u64| ts@ == compact_timestamp_text(secs as nat);
        assert(p@ =~= session_prefix_text(id, compact_timestamp_text(secs as nat)));
    }
    p
}

} // verus!
