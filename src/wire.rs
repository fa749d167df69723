use crate::task::InflightTask;
use vstd::prelude::*;

verus! {

/// A lowercase hexadecimal digit.
pub open spec fn hex_digit(d: int) -> char {
    if d < 10 {
        digit_char(d as nat)
    } else if d == 10 {
        'a'
    } else if d == 11 {
        'b'
    } else if d == 12 {
        'c'
    } else if d == 13 {
        'd'
    } else if d == 14 {
        'e'
    } else {
        'f'
    }
}

/// How serde_json writes one character inside a string literal: `"` and `\`
/// behind a backslash, the five control characters that have a short escape
/// as that escape, the other control characters below U+0020 as `\u00xx`,
/// and every other character as it is.
pub open spec fn json_escaped_char(c: char) -> Seq<char> {
    if c == '"' {
        seq!['\\', '"']
    } else if c == '\\' {
        seq!['\\', '\\']
    } else if c == '\x08' {
        seq!['\\', 'b']
    } else if c == '\t' {
        seq!['\\', 't']
    } else if c == '\n' {
        seq!['\\', 'n']
    } else if c == '\x0C' {
        seq!['\\', 'f']
    } else if c == '\r' {
        seq!['\\', 'r']
    } else if (c as u32) < 0x20 {
        seq!['\\', 'u', '0', '0', hex_digit((c as u32) as int / 16), hex_digit((c as u32) as int % 16)]
    } else {
        seq![c]
    }
}

/// The characters of a text, each escaped as serde_json writes it.
pub open spec fn json_escaped(s: Seq<char>) -> Seq<char>
    decreases s.len(),
{
    if s.len() == 0 {
        Seq::empty()
    } else {
        json_escaped(s.drop_last()) + json_escaped_char(s.last())
    }
}

/// The JSON string literal of a text, quotes and escapes included, as
/// serde_json writes it.
pub open spec fn json_quoted(s: Seq<char>) -> Seq<char> {
    seq!['"'] + json_escaped(s) + seq!['"']
}

/// The RFC 3339 text of a timestamp given in microseconds since the Unix
/// epoch, as chrono's serde support writes a `DateTime<Utc>`; `None` for a
/// timestamp outside chrono's range.
pub uninterp spec fn rfc3339_of(micros: int) -> Option<Seq<char>>;

/// Relies on serde_json::to_string on a `&str`: the text between quotes,
/// each character escaped by serde_json's escape table (`format_escaped_str`
/// and `ESCAPE` in its serializer). Serializing a `str` cannot fail.
#[verifier::external_body]
fn quote_json(s: &str) -> (r: String)
    ensures
        r@ == json_quoted(s@),
{
    match serde_json::to_string(s) {
        Ok(t) => t,
        Err(_) => String::new(),
    }
}

/// Relies on chrono::DateTime::<Utc>::from_timestamp_micros, `None` outside
/// chrono's range, and on DateTime::to_rfc3339_opts with SecondsFormat::AutoSi
/// and `Z`, which is the form chrono's `Serialize` writes.
#[verifier::external_body]
fn timestamp_text(micros: i64) -> (r: Option<String>)
    ensures
        match r {
            Some(t) => rfc3339_of(micros as int) == Some(t@),
            None => rfc3339_of(micros as int) is None,
        },
{
    match chrono::DateTime::<chrono::Utc>::from_timestamp_micros(micros) {
        Some(d) => Some(d.to_rfc3339_opts(chrono::SecondsFormat::AutoSi, true)),
        None => None,
    }
}

pub open spec fn digit_char(d: nat) -> char {
    if d == 0 { '0' }
    else if d == 1 { '1' }
    else if d == 2 { '2' }
    else if d == 3 { '3' }
    else if d == 4 { '4' }
    else if d == 5 { '5' }
    else if d == 6 { '6' }
    else if d == 7 { '7' }
    else if d == 8 { '8' }
    else { '9' }
}

/// The decimal digits of a natural number, without leading zeros.
pub open spec fn spec_digits(n: nat) -> Seq<char>
    decreases n,
{
    if n < 10 {
        seq![digit_char(n)]
    } else {
        spec_digits(n / 10).push(digit_char(n % 10))
    }
}

/// The decimal text of an integer, with a leading `-` when negative.
pub open spec fn spec_decimal(n: int) -> Seq<char> {
    if n < 0 {
        seq!['-'] + spec_digits((-n) as nat)
    } else {
        spec_digits(n as nat)
    }
}

fn digit_text(d: u32) -> (r: String)
    requires
        d < 10,
    ensures
        r@ == seq![digit_char(d as nat)],
{
    let s = match d {
        0 => "0",
        1 => "1",
        2 => "2",
        3 => "3",
        4 => "4",
        5 => "5",
        6 => "6",
        7 => "7",
        8 => "8",
        _ => "9",
    };
    proof {
        reveal_strlit("0");
        reveal_strlit("1");
        reveal_strlit("2");
        reveal_strlit("3");
        reveal_strlit("4");
        reveal_strlit("5");
        reveal_strlit("6");
        reveal_strlit("7");
        reveal_strlit("8");
        reveal_strlit("9");
    }
    let r = String::from_str(s);
    assert(r@ =~= seq![digit_char(d as nat)]);
    r
}

fn digits_text(n: u32) -> (r: String)
    ensures
        r@ == spec_digits(n as nat),
    decreases n,
{
    if n < 10 {
        digit_text(n)
    } else {
        let mut s = digits_text(n / 10);
        let last = digit_text(n % 10);
        s.append(last.as_str());
        assert(s@ =~= spec_digits(n as nat));
        s
    }
}

/// The decimal text of an integer.
pub fn decimal_text(n: i32) -> (r: String)
    ensures
        r@ == spec_decimal(n as int),
{
    if n < 0 {
        let magnitude: u32 = (-(n as i64)) as u32;
        let mut s = String::from_str("-");
        proof {
            reveal_strlit("-");
        }
        let digits = digits_text(magnitude);
        s.append(digits.as_str());
        assert(s@ =~= spec_decimal(n as int));
        s
    } else {
        digits_text(n as u32)
    }
}

/// The JSON body of an invocation, from its parts: the quoted job name, the
/// payload's JSON text, the retry counters and the quoted creation time.
pub open spec fn spec_invocation_json(
    job_json: Seq<char>,
    input: Seq<char>,
    retry_count: int,
    max_retries: int,
    created_json: Seq<char>,
) -> Seq<char> {
    "{\"jobName\":"@ + job_json + ",\"input\":"@ + input + ",\"retryCount\":"@ + spec_decimal(retry_count)
        + ",\"maxRetries\":"@ + spec_decimal(max_retries) + ",\"createdAt\":"@ + created_json + "}"@
}

/// Frames the JSON body of an invocation from its parts, in the order
/// `jobName`, `input`, `retryCount`, `maxRetries`, `createdAt`.
pub fn frame_invocation(job_json: &str, input: &str, retry_count: i32, max_retries: i32, created_json: &str) -> (r: String)
    ensures
        r@ == spec_invocation_json(job_json@, input@, retry_count as int, max_retries as int, created_json@),
{
    let mut s = String::from_str("{\"jobName\":");
    s.append(job_json);
    s.append(",\"input\":");
    s.append(input);
    s.append(",\"retryCount\":");
    let rc = decimal_text(retry_count);
    s.append(rc.as_str());
    s.append(",\"maxRetries\":");
    let mr = decimal_text(max_retries);
    s.append(mr.as_str());
    s.append(",\"createdAt\":");
    s.append(created_json);
    s.append("}");
    assert(s@ =~= spec_invocation_json(job_json@, input@, retry_count as int, max_retries as int, created_json@));
    s
}

/// The JSON body posted to a claimed task's endpoint: its job name, its
/// payload, its retry counters and its creation time. `None` when the
/// creation time cannot be written as a date.
pub fn invocation_body(task: &InflightTask) -> (r: Option<String>)
    ensures
        match r {
            Some(b) => rfc3339_of(task.created_at as int) matches Some(t) && b@ == spec_invocation_json(
                json_quoted(task.job_name@),
                task.data@,
                task.retry_count as int,
                task.max_retries as int,
                json_quoted(t),
            ),
            None => rfc3339_of(task.created_at as int) is None,
        },
{
    let created = match timestamp_text(task.created_at) {
        Some(t) => t,
        None => return None,
    };
    let job_json = quote_json(task.job_name.as_str());
    let created_json = quote_json(created.as_str());
    Some(frame_invocation(job_json.as_str(), task.data.as_str(), task.retry_count, task.max_retries, created_json.as_str()))
}

} // verus!
