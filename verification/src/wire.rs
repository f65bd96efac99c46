//! The text of a message on the wire: one JSON object, its members in a
//! fixed order, without white space.

use vstd::prelude::*;
use vstd::utf8::encode_utf8;
use crate::framing::{encode_frame, framed, incomplete, TransportError};
use crate::message::{envelope_of, Envelope, ErrorBody, Message};

verus! {

/// The decimal digits of `n`, the most significant first.
pub open spec fn decimal(n: nat) -> Seq<u8>
    decreases n,
{
    if n < 10 {
        seq![(48 + n) as u8]
    } else {
        decimal(n / 10).push((48 + n % 10) as u8)
    }
}

/// The decimal text of `n`, with a minus sign where it is negative.
pub open spec fn signed_decimal(n: int) -> Seq<u8> {
    if n < 0 {
        seq![45u8] + decimal((-n) as nat)
    } else {
        decimal(n as nat)
    }
}

/// The lower-case hexadecimal digit of `n`, which is below sixteen.
pub open spec fn hex_digit(n: u8) -> u8 {
    if n < 10 {
        (48 + n) as u8
    } else {
        (87 + n) as u8
    }
}

/// One byte of a string as it stands between the quotes: the quote and the
/// backslash behind a backslash, a control character as `\u00` and two
/// hexadecimal digits, every other byte as it is.
pub open spec fn escaped_byte(b: u8) -> Seq<u8> {
    if b == 34 || b == 92 {
        seq![92u8, b]
    } else if b < 32 {
        seq![92u8, 117u8, 48u8, 48u8, hex_digit(b / 16), hex_digit(b % 16)]
    } else {
        seq![b]
    }
}

/// The bytes of a string as they stand between the quotes.
pub open spec fn escaped(bytes: Seq<u8>) -> Seq<u8>
    decreases bytes.len(),
{
    if bytes.len() == 0 {
        Seq::empty()
    } else {
        escaped(bytes.drop_last()) + escaped_byte(bytes.last())
    }
}

/// The JSON string that holds `text`.
pub open spec fn quoted(text: Seq<char>) -> Seq<u8> {
    seq![34u8] + escaped(encode_utf8(text)) + seq![34u8]
}

/// The object `text`, still open, with one more member: after a comma,
/// unless it is the first, the key with its colon as `key` gives them, and
/// the value. An absent value adds nothing.
pub open spec fn with_member(text: Seq<u8>, key: Seq<char>, value: Option<Seq<u8>>) -> Seq<u8> {
    match value {
        Some(bytes) => (if text.len() == 1 {
            text
        } else {
            text.push(44u8)
        }) + encode_utf8(key) + bytes,
        None => text,
    }
}

/// The JSON object of an error: its code, then its message.
pub open spec fn error_text(body: ErrorBody) -> Seq<u8> {
    with_member(
        with_member(seq![123u8], "\"code\":"@, Some(signed_decimal(body.code as int))),
        "\"message\":"@,
        Some(quoted(body.message@)),
    ).push(125u8)
}

/// The JSON object of an envelope: of the members `id`, `method`, `params`,
/// `result` and `error`, in this order, those that are present. Parameters
/// and results stand as the bytes that they are.
pub open spec fn wire_text(env: Envelope) -> Seq<u8> {
    let id = match env.id {
        Some(id) => Some(decimal(id as nat)),
        None => None,
    };
    let method = match env.method {
        Some(method) => Some(quoted(method@)),
        None => None,
    };
    let params = match env.params {
        Some(params) => Some(params@),
        None => None,
    };
    let result = match env.result {
        Some(result) => Some(result@),
        None => None,
    };
    let error = match env.error {
        Some(body) => Some(error_text(body)),
        None => None,
    };
    with_member(
        with_member(
            with_member(
                with_member(with_member(seq![123u8], "\"id\":"@, id), "\"method\":"@, method),
                "\"params\":"@,
                params,
            ),
            "\"result\":"@,
            result,
        ),
        "\"error\":"@,
        error,
    ).push(125u8)
}

/// Appends `bytes` to `out`.
fn push_all(out: &mut Vec<u8>, bytes: &[u8])
    ensures
        final(out)@ == old(out)@ + bytes@,
{
    let mut i: usize = 0;
    while i < bytes.len()
        invariant
            i <= bytes@.len(),
            out@ == old(out)@ + bytes@.take(i as int),
        decreases bytes@.len() - i,
    {
        out.push(bytes[i]);
        i += 1;
        assert(out@ =~= old(out)@ + bytes@.take(i as int));
    }
    assert(bytes@.take(i as int) =~= bytes@);
}

/// Appends the decimal digits of `n` to `out`.
fn push_decimal(out: &mut Vec<u8>, n: u64)
    ensures
        final(out)@ == old(out)@ + decimal(n as nat),
    decreases n,
{
    if n >= 10 {
        push_decimal(out, n / 10);
    }
    let digit: u8 = (n % 10) as u8;
    out.push(48 + digit);
    assert(out@ =~= old(out)@ + decimal(n as nat));
}

/// The decimal text of `n`.
fn signed_decimal_text(n: i64) -> (out: Vec<u8>)
    ensures
        out@ == signed_decimal(n as int),
{
    let mut out: Vec<u8> = Vec::new();
    if n < 0 {
        out.push(45);
        let size: u64 = (-(n + 1)) as u64 + 1;
        push_decimal(&mut out, size);
    } else {
        push_decimal(&mut out, n as u64);
    }
    assert(out@ =~= signed_decimal(n as int));
    out
}

/// The hexadecimal digit of `n`.
fn hex_digit_of(n: u8) -> (res: u8)
    requires
        n < 16,
    ensures
        res == hex_digit(n),
{
    if n < 10 {
        48 + n
    } else {
        87 + n
    }
}

/// The JSON string that holds `text`.
fn quoted_text(text: &str) -> (out: Vec<u8>)
    ensures
        out@ == quoted(text@),
{
    let bytes = text.as_bytes();
    let mut out: Vec<u8> = Vec::new();
    out.push(34);
    let mut i: usize = 0;
    while i < bytes.len()
        invariant
            i <= bytes@.len(),
            out@ == seq![34u8] + escaped(bytes@.take(i as int)),
        decreases bytes@.len() - i,
    {
        let b: u8 = bytes[i];
        proof {
            let next = bytes@.take(i + 1);
            assert(next.drop_last() =~= bytes@.take(i as int));
            assert(next.last() == b);
        }
        if b == 34 || b == 92 {
            out.push(92);
            out.push(b);
        } else if b < 32 {
            out.push(92);
            out.push(117);
            out.push(48);
            out.push(48);
            out.push(hex_digit_of(b / 16));
            out.push(hex_digit_of(b % 16));
        } else {
            out.push(b);
        }
        i += 1;
        assert(out@ =~= seq![34u8] + escaped(bytes@.take(i as int)));
    }
    assert(bytes@.take(i as int) =~= bytes@);
    out.push(34);
    out
}

/// Adds a member to the open object in `out`.
fn push_member(out: &mut Vec<u8>, key: &str, value: &Vec<u8>)
    ensures
        final(out)@ == with_member(old(out)@, key@, Some(value@)),
{
    if out.len() != 1 {
        out.push(44);
    }
    push_all(out, key.as_bytes());
    push_all(out, value.as_slice());
}

/// The JSON object of an error.
fn error_object(body: &ErrorBody) -> (out: Vec<u8>)
    ensures
        out@ == error_text(*body),
{
    let mut out: Vec<u8> = Vec::new();
    out.push(123);
    let code = signed_decimal_text(body.code);
    push_member(&mut out, "\"code\":", &code);
    let message = quoted_text(body.message.as_str());
    push_member(&mut out, "\"message\":", &message);
    out.push(125);
    out
}

/// Writes an envelope as one JSON object.
pub fn encode_envelope(env: &Envelope) -> (out: Vec<u8>)
    ensures
        out@ == wire_text(*env),
{
    let mut out: Vec<u8> = Vec::new();
    out.push(123);
    match &env.id {
        Some(id) => {
            let mut digits: Vec<u8> = Vec::new();
            push_decimal(&mut digits, *id);
            push_member(&mut out, "\"id\":", &digits);
        },
        None => {},
    }
    match &env.method {
        Some(method) => {
            let text = quoted_text(method.as_str());
            push_member(&mut out, "\"method\":", &text);
        },
        None => {},
    }
    match &env.params {
        Some(params) => {
            push_member(&mut out, "\"params\":", params);
        },
        None => {},
    }
    match &env.result {
        Some(result) => {
            push_member(&mut out, "\"result\":", result);
        },
        None => {},
    }
    match &env.error {
        Some(body) => {
            let object = error_object(body);
            push_member(&mut out, "\"error\":", &object);
        },
        None => {},
    }
    out.push(125);
    out
}

/// Writes a message as one frame, ready to send. A message whose
/// parameters or result hold the frame delimiter cannot be sent as one
/// frame and is refused.
pub fn encode_message(msg: Message) -> (res: Result<Vec<u8>, TransportError>)
    ensures
        match res {
            Ok(bytes) => {
                &&& incomplete(wire_text(envelope_of(msg)))
                &&& bytes@ == framed(wire_text(envelope_of(msg)))
            },
            Err(TransportError::DelimiterInPayload) => !incomplete(wire_text(envelope_of(msg))),
            Err(_) => false,
        },
        res.is_ok() <==> on_one_line(envelope_of(msg).params) && on_one_line(
            envelope_of(msg).result,
        ),
{
    let env = msg.into_envelope();
    proof {
        theorem_wire_text_on_one_line(env);
    }
    let text = encode_envelope(&env);
    encode_frame(text.as_slice())
}

/// Two texts joined hold a line feed where one of them does.
pub proof fn lemma_incomplete_joined(a: Seq<u8>, b: Seq<u8>)
    ensures
        incomplete(a + b) <==> incomplete(a) && incomplete(b),
{
    let joined = a + b;
    if incomplete(joined) {
        assert forall|j: int| 0 <= j < a.len() implies a[j] != 10 by {
            assert(joined[j] == a[j]);
        }
        assert forall|j: int| 0 <= j < b.len() implies b[j] != 10 by {
            assert(joined[a.len() + j] == b[j]);
        }
    }
    if incomplete(a) && incomplete(b) {
        assert forall|j: int| 0 <= j < joined.len() implies joined[j] != 10 by {
            if j < a.len() {
                assert(joined[j] == a[j]);
            } else {
                assert(joined[j] == b[j - a.len()]);
            }
        }
    }
}

/// Decimal digits hold no line feed.
pub proof fn lemma_decimal_on_one_line(n: nat)
    ensures
        incomplete(decimal(n)),
    decreases n,
{
    if n >= 10 {
        lemma_decimal_on_one_line(n / 10);
        lemma_incomplete_joined(decimal(n / 10), seq![(48 + n % 10) as u8]);
        assert(decimal(n) =~= decimal(n / 10) + seq![(48 + n % 10) as u8]);
    }
}

/// What stands between the quotes of a written string holds no line feed.
pub proof fn lemma_escaped_on_one_line(bytes: Seq<u8>)
    ensures
        incomplete(escaped(bytes)),
    decreases bytes.len(),
{
    if bytes.len() > 0 {
        lemma_escaped_on_one_line(bytes.drop_last());
        lemma_incomplete_joined(escaped(bytes.drop_last()), escaped_byte(bytes.last()));
    }
}

/// A written string holds no line feed.
pub proof fn lemma_quoted_on_one_line(text: Seq<char>)
    ensures
        incomplete(quoted(text)),
{
    lemma_escaped_on_one_line(encode_utf8(text));
    lemma_incomplete_joined(seq![34u8], escaped(encode_utf8(text)));
    lemma_incomplete_joined(seq![34u8] + escaped(encode_utf8(text)), seq![34u8]);
}

/// Whether `key` is one of the keys that the writer writes.
pub open spec fn written_key(key: Seq<char>) -> bool {
    key == "\"id\":"@ || key == "\"method\":"@ || key == "\"params\":"@ || key == "\"result\":"@
        || key == "\"error\":"@ || key == "\"code\":"@ || key == "\"message\":"@
}

/// The keys that the writer writes hold no line feed.
pub proof fn lemma_keys_on_one_line(key: Seq<char>)
    requires
        written_key(key),
    ensures
        incomplete(encode_utf8(key)),
{
    reveal_strlit("\"id\":");
    reveal_strlit("\"method\":");
    reveal_strlit("\"params\":");
    reveal_strlit("\"result\":");
    reveal_strlit("\"error\":");
    reveal_strlit("\"code\":");
    reveal_strlit("\"message\":");
    assert(vstd::utf8::is_ascii_chars(key));
    vstd::utf8::is_ascii_chars_encode_utf8(key);
    assert forall|j: int| 0 <= j < encode_utf8(key).len() implies encode_utf8(key)[j] != 10 by {
        assert(key[j] as u8 == encode_utf8(key)[j]);
    }
}

/// An object with one more member holds a line feed where the object did
/// or the member's value does.
pub proof fn lemma_member_on_one_line(text: Seq<u8>, key: Seq<char>, value: Option<Seq<u8>>)
    requires
        written_key(key),
    ensures
        incomplete(with_member(text, key, value)) <==> incomplete(text) && match value {
            Some(bytes) => incomplete(bytes),
            None => true,
        },
{
    match value {
        Some(bytes) => {
            lemma_keys_on_one_line(key);
            let head = if text.len() == 1 {
                text
            } else {
                text.push(44u8)
            };
            lemma_incomplete_joined(text, seq![44u8]);
            assert(text.push(44u8) =~= text + seq![44u8]);
            lemma_incomplete_joined(head, encode_utf8(key));
            lemma_incomplete_joined(head + encode_utf8(key), bytes);
        },
        None => {},
    }
}

/// Whether bytes that may be absent hold no line feed.
pub open spec fn on_one_line(bytes: Option<Vec<u8>>) -> bool {
    match bytes {
        Some(bytes) => incomplete(bytes@),
        None => true,
    }
}

/// The text of an envelope holds a line feed exactly where its parameters
/// or its result hold one: identifiers, codes and texts are written without.
/// So a message can be sent as one frame exactly where its parameters and
/// its result stand on one line.
pub proof fn theorem_wire_text_on_one_line(env: Envelope)
    ensures
        incomplete(wire_text(env)) <==> on_one_line(env.params) && on_one_line(env.result),
{
    let id = match env.id {
        Some(id) => Some(decimal(id as nat)),
        None => None,
    };
    let method = match env.method {
        Some(method) => Some(quoted(method@)),
        None => None,
    };
    let params = match env.params {
        Some(params) => Some(params@),
        None => None,
    };
    let result = match env.result {
        Some(result) => Some(result@),
        None => None,
    };
    let error = match env.error {
        Some(body) => Some(error_text(body)),
        None => None,
    };
    if env.id.is_some() {
        lemma_decimal_on_one_line(env.id.unwrap() as nat);
    }
    if env.method.is_some() {
        lemma_quoted_on_one_line(env.method.unwrap()@);
    }
    if env.error.is_some() {
        let body = env.error.unwrap();
        let code = signed_decimal(body.code as int);
        if body.code < 0 {
            lemma_decimal_on_one_line((-(body.code as int)) as nat);
            lemma_incomplete_joined(seq![45u8], decimal((-(body.code as int)) as nat));
        } else {
            lemma_decimal_on_one_line(body.code as nat);
        }
        lemma_quoted_on_one_line(body.message@);
        let a = with_member(seq![123u8], "\"code\":"@, Some(code));
        lemma_member_on_one_line(seq![123u8], "\"code\":"@, Some(code));
        lemma_member_on_one_line(a, "\"message\":"@, Some(quoted(body.message@)));
        let b = with_member(a, "\"message\":"@, Some(quoted(body.message@)));
        lemma_incomplete_joined(b, seq![125u8]);
        assert(b.push(125u8) =~= b + seq![125u8]);
    }
    let t0 = seq![123u8];
    let t1 = with_member(t0, "\"id\":"@, id);
    let t2 = with_member(t1, "\"method\":"@, method);
    let t3 = with_member(t2, "\"params\":"@, params);
    let t4 = with_member(t3, "\"result\":"@, result);
    let t5 = with_member(t4, "\"error\":"@, error);
    lemma_member_on_one_line(t0, "\"id\":"@, id);
    lemma_member_on_one_line(t1, "\"method\":"@, method);
    lemma_member_on_one_line(t2, "\"params\":"@, params);
    lemma_member_on_one_line(t3, "\"result\":"@, result);
    lemma_member_on_one_line(t4, "\"error\":"@, error);
    lemma_incomplete_joined(t5, seq![125u8]);
    assert(t5.push(125u8) =~= t5 + seq![125u8]);
}

} // verus!
