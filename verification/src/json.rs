use vstd::prelude::*;

verus! {

/// The lower-case hexadecimal digit for a value below sixteen.
pub open spec fn hex_digit(n: int) -> char {
    if n < 10 {
        (48 + n) as char
    } else {
        (87 + n) as char
    }
}

/// How a JSON string literal writes one character: quote, backslash and the
/// control characters below U+0020 are escaped, everything else stands as is.
pub open spec fn json_escape_char(c: char) -> Seq<char> {
    if c == '"' {
        seq!['\\', '"']
    } else if c == '\\' {
        seq!['\\', '\\']
    } else if c == '\u{8}' {
        seq!['\\', 'b']
    } else if c == '\t' {
        seq!['\\', 't']
    } else if c == '\n' {
        seq!['\\', 'n']
    } else if c == '\u{c}' {
        seq!['\\', 'f']
    } else if c == '\r' {
        seq!['\\', 'r']
    } else if (c as int) < 32 {
        seq!['\\', 'u', '0', '0', hex_digit((c as int) / 16), hex_digit((c as int) % 16)]
    } else {
        seq![c]
    }
}

/// The escaped contents of a JSON string literal.
pub open spec fn json_escape(s: Seq<char>) -> Seq<char>
    decreases s.len(),
{
    if s.len() == 0 {
        Seq::empty()
    } else {
        json_escape(s.drop_last()) + json_escape_char(s.last())
    }
}

/// The compact JSON string literal that holds `s`.
pub open spec fn json_string_literal(s: Seq<char>) -> Seq<char> {
    seq!['"'] + json_escape(s) + seq!['"']
}

/// The text of an optional string.
pub open spec fn opt_view(o: Option<String>) -> Option<Seq<char>> {
    match o {
        Some(s) => Some(s@),
        None => None,
    }
}

/// The text of an optional optional string.
pub open spec fn opt_opt_view(o: Option<Option<String>>) -> Option<Option<Seq<char>>> {
    match o {
        Some(inner) => Some(opt_view(inner)),
        None => None,
    }
}

/// For a JSON text and a key: `None` when the text is not JSON; otherwise
/// `Some(Some(s))` when the text is an object whose member `key` is the string
/// `s`, and `Some(None)` when it is not (no such member, a member of another
/// type, or a text that is not an object).
pub uninterp spec fn json_string_member(text: Seq<char>, key: Seq<char>) -> Option<
    Option<Seq<char>>,
>;

/// For a JSON text: `None` when it is not JSON, else the compact form in which
/// serde_json writes the value back (object members ordered by key).
pub uninterp spec fn json_reencoded(text: Seq<char>) -> Option<Seq<char>>;

/// `serde_json::to_string` on a string slice: the string as a compact JSON
/// string literal. Serialising a string cannot fail.
#[verifier::external_body]
pub(crate) fn quote_json_string(s: &str) -> (r: String)
    ensures
        r@ == json_string_literal(s@),
{
    match serde_json::to_string(s) {
        Ok(t) => t,
        Err(_) => String::new(),
    }
}

/// `serde_json::from_str` into a `Value`, then the member `key` read as a
/// string (`Value`'s indexing by a key and `Value::as_str`).
#[verifier::external_body]
pub(crate) fn json_string_field(text: &str, key: &str) -> (r: Option<Option<String>>)
    ensures
        opt_opt_view(r) == json_string_member(text@, key@),
{
    match serde_json::from_str::<serde_json::Value>(text) {
        Ok(v) => match v[key].as_str() {
            Some(s) => Some(Some(s.to_string())),
            None => Some(None),
        },
        Err(_) => None,
    }
}

/// `serde_json::from_str` into a `Value`, written back with `Value`'s
/// `Display` (compact JSON).
#[verifier::external_body]
pub(crate) fn reencode_json(text: &str) -> (r: Option<String>)
    ensures
        opt_view(r) == json_reencoded(text@),
{
    match serde_json::from_str::<serde_json::Value>(text) {
        Ok(v) => Some(v.to_string()),
        Err(_) => None,
    }
}

/// The decimal digit for a value below ten.
pub open spec fn digit_char(d: nat) -> char {
    (48 + d) as char
}

/// The decimal numeral of `n`, without leading zeros.
pub open spec fn decimal(n: nat) -> Seq<char>
    decreases n,
{
    if n < 10 {
        seq![digit_char(n)]
    } else {
        decimal(n / 10) + seq![digit_char(n % 10)]
    }
}

fn digit_str(d: u64) -> (r: &'static str)
    requires
        d < 10,
    ensures
        r@ == seq![digit_char(d as nat)],
{
    if d == 0 {
        proof {
            reveal_strlit("0");
        }
        "0"
    } else if d == 1 {
        proof {
            reveal_strlit("1");
        }
        "1"
    } else if d == 2 {
        proof {
            reveal_strlit("2");
        }
        "2"
    } else if d == 3 {
        proof {
            reveal_strlit("3");
        }
        "3"
    } else if d == 4 {
        proof {
            reveal_strlit("4");
        }
        "4"
    } else if d == 5 {
        proof {
            reveal_strlit("5");
        }
        "5"
    } else if d == 6 {
        proof {
            reveal_strlit("6");
        }
        "6"
    } else if d == 7 {
        proof {
            reveal_strlit("7");
        }
        "7"
    } else if d == 8 {
        proof {
            reveal_strlit("8");
        }
        "8"
    } else {
        proof {
            reveal_strlit("9");
        }
        "9"
    }
}

/// Appends the decimal numeral of `n` to `out`.
pub fn append_decimal(out: &mut String, n: u64)
    ensures
        final(out)@ == old(out)@ + decimal(n as nat),
    decreases n,
{
    if n >= 10 {
        append_decimal(out, n / 10);
        let ghost mid = out@;
        out.append(digit_str(n % 10));
        proof {
            assert(mid + seq![digit_char((n % 10) as nat)] =~= old(out)@ + decimal(n as nat));
        }
    } else {
        out.append(digit_str(n));
        proof {
            assert(out@ =~= old(out)@ + decimal(n as nat));
        }
    }
}

/// The frame that carries a broadcast `message` (JSON text) to a subscriber
/// that subscribed under `channel`: a JSON object with the members
/// `identifier` and `message`, in that order.
pub open spec fn stream_frame_spec(channel: Seq<char>, message: Seq<char>) -> Seq<char> {
    "{\"identifier\":"@ + json_string_literal(channel) + ",\"message\":"@ + message + "}"@
}

/// The frame for a broadcast to a subscriber on `channel`.
pub fn stream_frame(channel: &str, message: &str) -> (r: String)
    ensures
        r@ == stream_frame_spec(channel@, message@),
{
    let mut out = "{\"identifier\":".to_owned();
    let quoted = quote_json_string(channel);
    out.append(quoted.as_str());
    out.append(",\"message\":");
    out.append(message);
    out.append("}");
    proof {
        assert(out@ =~= stream_frame_spec(channel@, message@));
    }
    out
}

/// The keep-alive frame: a JSON object with the members `message` (the
/// time stamp) and `type` (`ping`), in that order.
pub open spec fn ping_frame_spec(timestamp: nat) -> Seq<char> {
    "{\"message\":"@ + decimal(timestamp) + ",\"type\":\"ping\"}"@
}

/// The keep-alive frame for the time stamp `timestamp`.
pub fn ping_frame(timestamp: u64) -> (r: String)
    ensures
        r@ == ping_frame_spec(timestamp as nat),
{
    let mut out = "{\"message\":".to_owned();
    append_decimal(&mut out, timestamp);
    out.append(",\"type\":\"ping\"}");
    proof {
        assert(out@ =~= ping_frame_spec(timestamp as nat));
    }
    out
}

} // verus!
