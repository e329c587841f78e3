//! Deterministic text rendering for the serialized event form.
//!
//! Timestamps render as `YYYY-MM-DDTHH:MM:SS`; identifiers render in the
//! canonical hyphenated hexadecimal form (8-4-4-4-12 lowercase digits);
//! names render as JSON string contents with the standard minimal escapes.
use crate::event::EventView;
use crate::time::DateTime;
use vstd::prelude::*;

verus! {

/// The character for one digit value below 16: `0`-`9`, then `a`-`f`.
pub open spec fn hex_digit_char(d: int) -> char {
    if d == 0 {
        '0'
    } else if d == 1 {
        '1'
    } else if d == 2 {
        '2'
    } else if d == 3 {
        '3'
    } else if d == 4 {
        '4'
    } else if d == 5 {
        '5'
    } else if d == 6 {
        '6'
    } else if d == 7 {
        '7'
    } else if d == 8 {
        '8'
    } else if d == 9 {
        '9'
    } else if d == 10 {
        'a'
    } else if d == 11 {
        'b'
    } else if d == 12 {
        'c'
    } else if d == 13 {
        'd'
    } else if d == 14 {
        'e'
    } else {
        'f'
    }
}

/// Two decimal digits, zero padded.
pub open spec fn dec2(n: int) -> Seq<char> {
    seq![hex_digit_char((n / 10) % 10), hex_digit_char(n % 10)]
}

/// Four decimal digits, zero padded.
pub open spec fn dec4(n: int) -> Seq<char> {
    seq![
        hex_digit_char((n / 1000) % 10),
        hex_digit_char((n / 100) % 10),
        hex_digit_char((n / 10) % 10),
        hex_digit_char(n % 10),
    ]
}

/// `w` hexadecimal digits of `n`, most significant first, zero padded.
pub open spec fn hex_w(n: int, w: nat) -> Seq<char>
    decreases w,
{
    if w == 0 {
        Seq::empty()
    } else {
        hex_w(n / 16, (w - 1) as nat) + seq![hex_digit_char(n % 16)]
    }
}

/// A timestamp as `YYYY-MM-DDTHH:MM:SS`.
pub open spec fn dt_text(dt: DateTime) -> Seq<char> {
    dec4(dt.date.year as int) + seq!['-'] + dec2(dt.date.month as int) + seq!['-'] + dec2(
        dt.date.day as int,
    ) + seq!['T'] + dec2(dt.time.hour as int) + seq![':'] + dec2(dt.time.minute as int) + seq![':']
        + dec2(dt.time.second as int)
}

/// A 128-bit identifier in the canonical hyphenated form: five lowercase
/// hexadecimal groups of 8, 4, 4, 4 and 12 digits.
pub open spec fn uuid_text(id: u128) -> Seq<char> {
    hex_w((id as int) / 0x1000000000000000000000000, 8) + seq!['-'] + hex_w(
        ((id as int) / 0x100000000000000000000) % 0x10000,
        4,
    ) + seq!['-'] + hex_w(((id as int) / 0x10000000000000000) % 0x10000, 4) + seq!['-'] + hex_w(
        ((id as int) / 0x1000000000000) % 0x10000,
        4,
    ) + seq!['-'] + hex_w((id as int) % 0x1000000000000, 12)
}

/// How one character renders inside a JSON string: quote and backslash get
/// a backslash escape, the named control characters get their short forms,
/// other control characters get `\u00` and two lowercase hex digits, and
/// everything else stands for itself.
pub open spec fn escape_char(c: char) -> Seq<char> {
    if c == '"' {
        seq!['\\', '"']
    } else if c == '\\' {
        seq!['\\', '\\']
    } else if c == '\u{8}' {
        seq!['\\', 'b']
    } else if c == '\t' {
        seq!['\\', 't']
    } else if c == '\n' {
        seq!['\\', 'n']
    } else if c == '\u{c}' {
        seq!['\\', 'f']
    } else if c == '\r' {
        seq!['\\', 'r']
    } else if (c as u32) < 32 {
        seq!['\\', 'u', '0', '0', hex_digit_char(((c as u32) / 16) as int), hex_digit_char(
            ((c as u32) % 16) as int,
        )]
    } else {
        seq![c]
    }
}

/// A character sequence rendered as JSON string contents.
pub open spec fn json_escaped(s: Seq<char>) -> Seq<char>
    decreases s.len(),
{
    if s.len() == 0 {
        Seq::empty()
    } else {
        escape_char(s[0]) + json_escaped(s.drop_first())
    }
}

/// The serialized form of an event: a JSON object with the string fields
/// `start`, `end`, `name` and `id`, in that order.
pub open spec fn serial_text(v: EventView) -> Seq<char> {
    "{\"start\":\""@ + dt_text(v.start) + "\",\"end\":\""@ + dt_text(v.end) + "\",\"name\":\""@
        + json_escaped(v.name) + "\",\"id\":\""@ + uuid_text(v.id) + "\"}"@
}

/// Relies on std's `String::push`: appends exactly the given character.
#[verifier::external_body]
fn push_char(s: &mut String, c: char)
    ensures
        final(s)@ == old(s)@ + seq![c],
{
    s.push(c);
}

/// The one-character string for a digit value below 16.
fn hex_digit_str(d: u8) -> (r: &'static str)
    requires
        d < 16,
    ensures
        r@ == seq![hex_digit_char(d as int)],
{
    let r: &'static str = match d {
        0 => "0",
        1 => "1",
        2 => "2",
        3 => "3",
        4 => "4",
        5 => "5",
        6 => "6",
        7 => "7",
        8 => "8",
        9 => "9",
        10 => "a",
        11 => "b",
        12 => "c",
        13 => "d",
        14 => "e",
        _ => "f",
    };
    proof {
        reveal_strlit("0");
        reveal_strlit("1");
        reveal_strlit("2");
        reveal_strlit("3");
        reveal_strlit("4");
        reveal_strlit("5");
        reveal_strlit("6");
        reveal_strlit("7");
        reveal_strlit("8");
        reveal_strlit("9");
        reveal_strlit("a");
        reveal_strlit("b");
        reveal_strlit("c");
        reveal_strlit("d");
        reveal_strlit("e");
        reveal_strlit("f");
        assert(r@ =~= seq![hex_digit_char(d as int)]);
    }
    r
}

/// Appends two zero-padded decimal digits.
fn push_dec2(s: &mut String, n: u8)
    ensures
        final(s)@ == old(s)@ + dec2(n as int),
{
    s.append(hex_digit_str((n / 10) % 10));
    s.append(hex_digit_str(n % 10));
    proof {
        assert(s@ =~= old(s)@ + dec2(n as int));
    }
}

/// Appends four zero-padded decimal digits.
fn push_dec4(s: &mut String, n: u16)
    ensures
        final(s)@ == old(s)@ + dec4(n as int),
{
    s.append(hex_digit_str(((n / 1000) % 10) as u8));
    s.append(hex_digit_str(((n / 100) % 10) as u8));
    s.append(hex_digit_str(((n / 10) % 10) as u8));
    s.append(hex_digit_str((n % 10) as u8));
    proof {
        assert(s@ =~= old(s)@ + dec4(n as int));
    }
}

/// Appends `w` zero-padded lowercase hexadecimal digits of `n`, most
/// significant first.
fn push_hex(s: &mut String, n: u128, w: usize)
    ensures
        final(s)@ == old(s)@ + hex_w(n as int, w as nat),
    decreases w,
{
    if w == 0 {
        proof {
            assert(old(s)@ + hex_w(n as int, 0) =~= old(s)@);
        }
    } else {
        push_hex(s, n / 16, w - 1);
        s.append(hex_digit_str((n % 16) as u8));
        proof {
            assert(s@ =~= old(s)@ + hex_w(n as int, w as nat));
        }
    }
}

/// Appends a timestamp as `YYYY-MM-DDTHH:MM:SS`.
pub fn push_dt_text(s: &mut String, dt: &DateTime)
    ensures
        final(s)@ == old(s)@ + dt_text(*dt),
{
    push_dec4(s, dt.date.year);
    s.append("-");
    push_dec2(s, dt.date.month);
    s.append("-");
    push_dec2(s, dt.date.day);
    s.append("T");
    push_dec2(s, dt.time.hour);
    s.append(":");
    push_dec2(s, dt.time.minute);
    s.append(":");
    push_dec2(s, dt.time.second);
    proof {
        reveal_strlit("-");
        reveal_strlit("T");
        reveal_strlit(":");
        assert(s@ =~= old(s)@ + dt_text(*dt));
    }
}

/// Appends an identifier in the canonical hyphenated hexadecimal form.
pub fn push_uuid_text(s: &mut String, id: u128)
    ensures
        final(s)@ == old(s)@ + uuid_text(id),
{
    push_hex(s, id / 0x1000000000000000000000000, 8);
    s.append("-");
    push_hex(s, (id / 0x100000000000000000000) % 0x10000, 4);
    s.append("-");
    push_hex(s, (id / 0x10000000000000000) % 0x10000, 4);
    s.append("-");
    push_hex(s, (id / 0x1000000000000) % 0x10000, 4);
    s.append("-");
    push_hex(s, id % 0x1000000000000, 12);
    proof {
        reveal_strlit("-");
        assert(s@ =~= old(s)@ + uuid_text(id));
    }
}

/// Appends a name rendered as JSON string contents.
pub fn push_json_escaped(s: &mut String, name: &str)
    ensures
        final(s)@ == old(s)@ + json_escaped(name@),
{
    let n = name.unicode_len();
    let mut i: usize = 0;
    proof {
        assert(name@.skip(0) =~= name@);
    }
    while i < n
        invariant
            i <= n,
            n == name@.len(),
            old(s)@ + json_escaped(name@) == s@ + json_escaped(name@.skip(i as int)),
        decreases n - i,
    {
        let c = name.get_char(i);
        let ghost pre = s@;
        proof {
            assert(name@.skip(i as int)[0] == name@[i as int]);
            assert(name@.skip(i as int).drop_first() =~= name@.skip(i + 1));
        }
        if c == '"' {
            s.append("\\\"");
            proof {
                reveal_strlit("\\\"");
            }
        } else if c == '\\' {
            s.append("\\\\");
            proof {
                reveal_strlit("\\\\");
            }
        } else if c == '\u{8}' {
            s.append("\\b");
            proof {
                reveal_strlit("\\b");
            }
        } else if c == '\t' {
            s.append("\\t");
            proof {
                reveal_strlit("\\t");
            }
        } else if c == '\n' {
            s.append("\\n");
            proof {
                reveal_strlit("\\n");
            }
        } else if c == '\u{c}' {
            s.append("\\f");
            proof {
                reveal_strlit("\\f");
            }
        } else if c == '\r' {
            s.append("\\r");
            proof {
                reveal_strlit("\\r");
            }
        } else if (c as u32) < 32 {
            let cv = c as u32;
            s.append("\\u00");
            s.append(hex_digit_str((cv / 16) as u8));
            s.append(hex_digit_str((cv % 16) as u8));
            proof {
                reveal_strlit("\\u00");
            }
        } else {
            push_char(s, c);
        }
        proof {
            assert(s@ =~= pre + escape_char(name@[i as int]));
            assert(pre + (escape_char(name@[i as int]) + json_escaped(name@.skip(i + 1))) =~= s@
                + json_escaped(name@.skip(i + 1)));
        }
        i += 1;
    }
    proof {
        assert(json_escaped(name@.skip(n as int)) =~= Seq::<char>::empty());
        assert(s@ + Seq::<char>::empty() =~= s@);
    }
}

} // verus!
