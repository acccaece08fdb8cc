//! Type-directed JSON text rendering with the wire format's number rule:
//! a number whose text ends in ".0" is written without that suffix, so an
//! integral float renders as a plain integer.

use vstd::prelude::*;

use crate::json_value::{
    jv_entries_view, jv_entries_view_index, jv_seq_view, jv_seq_view_index, JsonVal, JsonValue,
};
use crate::util::{append_str, string_from_chars};

verus! {

/// One hex digit, lower case.
pub open spec fn hex_digit(n: int) -> char {
    if n == 0 {
        '0'
    } else if n == 1 {
        '1'
    } else if n == 2 {
        '2'
    } else if n == 3 {
        '3'
    } else if n == 4 {
        '4'
    } else if n == 5 {
        '5'
    } else if n == 6 {
        '6'
    } else if n == 7 {
        '7'
    } else if n == 8 {
        '8'
    } else if n == 9 {
        '9'
    } else if n == 10 {
        'a'
    } else if n == 11 {
        'b'
    } else if n == 12 {
        'c'
    } else if n == 13 {
        'd'
    } else if n == 14 {
        'e'
    } else {
        'f'
    }
}

/// How one character of a JSON string is written: quotes and backslashes
/// get a backslash escape, control characters their short or `\u00xx`
/// escape, everything else stands as itself.
pub open spec fn escape_char(c: char) -> Seq<char> {
    if c == '"' {
        seq!['\\', '"']
    } else if c == '\\' {
        seq!['\\', '\\']
    } else if c == '\u{8}' {
        seq!['\\', 'b']
    } else if c == '\u{c}' {
        seq!['\\', 'f']
    } else if c == '\n' {
        seq!['\\', 'n']
    } else if c == '\r' {
        seq!['\\', 'r']
    } else if c == '\t' {
        seq!['\\', 't']
    } else if (c as u32) < 0x20 {
        seq!['\\', 'u', '0', '0', hex_digit((c as u32) as int / 16), hex_digit((c as u32) as int % 16)]
    } else {
        seq![c]
    }
}

/// The escaped form of a whole string.
pub open spec fn escape_str(s: Seq<char>) -> Seq<char>
    decreases s.len(),
{
    if s.len() == 0 {
        Seq::empty()
    } else {
        escape_char(s[0]) + escape_str(s.skip(1))
    }
}

/// The rendered form of a number's decimal text: a trailing ".0" is cut,
/// any other text stands as it is.
pub open spec fn num_text(s: Seq<char>) -> Seq<char> {
    if s.len() >= 2 && s[s.len() - 2] == '.' && s[s.len() - 1] == '0' {
        s.take(s.len() - 2)
    } else {
        s
    }
}

/// The JSON text of a value.
pub open spec fn json_text(v: JsonVal) -> Seq<char>
    decreases v,
{
    match v {
        JsonVal::Null => "null"@,
        JsonVal::Bool(b) => if b {
            "true"@
        } else {
            "false"@
        },
        JsonVal::Num(s) => num_text(s),
        JsonVal::Str(s) => seq!['"'] + escape_str(s) + seq!['"'],
        JsonVal::Arr(items) => seq!['['] + items_text(items) + seq![']'],
        JsonVal::Obj(entries) => seq!['{'] + entries_text(entries) + seq!['}'],
    }
}

/// The comma-joined texts of an array's items.
pub open spec fn items_text(s: Seq<JsonVal>) -> Seq<char>
    decreases s,
{
    if s.len() == 0 {
        Seq::empty()
    } else if s.len() == 1 {
        json_text(s[0])
    } else {
        json_text(s[0]) + seq![','] + items_text(s.skip(1))
    }
}

/// The comma-joined `"key":value` texts of an object's entries.
pub open spec fn entries_text(s: Seq<(Seq<char>, JsonVal)>) -> Seq<char>
    decreases s,
{
    if s.len() == 0 {
        Seq::empty()
    } else if s.len() == 1 {
        entry_text(s[0])
    } else {
        entry_text(s[0]) + seq![','] + entries_text(s.skip(1))
    }
}

/// The `"key":value` text of one object entry.
pub open spec fn entry_text(e: (Seq<char>, JsonVal)) -> Seq<char>
    decreases e,
{
    seq!['"'] + escape_str(e.0) + seq!['"', ':'] + json_text(e.1)
}

proof fn escape_str_push(s: Seq<char>, c: char)
    ensures
        escape_str(s.push(c)) == escape_str(s) + escape_char(c),
    decreases s.len(),
{
    if s.len() == 0 {
        assert(s.push(c)[0] == c);
        assert(s.push(c).skip(1) =~= Seq::<char>::empty());
        assert(escape_str(s.push(c).skip(1)) == Seq::<char>::empty());
        assert(escape_str(s.push(c)) == escape_char(c) + escape_str(s.push(c).skip(1)));
        assert(escape_str(s) == Seq::<char>::empty());
        assert(escape_str(s.push(c)) =~= escape_str(s) + escape_char(c));
    } else {
        assert(s.push(c).skip(1) =~= s.skip(1).push(c));
        escape_str_push(s.skip(1), c);
        assert(escape_str(s.push(c)) =~= escape_str(s) + escape_char(c));
    }
}

proof fn items_text_push(s: Seq<JsonVal>, x: JsonVal)
    ensures
        items_text(s.push(x)) == if s.len() == 0 {
            json_text(x)
        } else {
            items_text(s) + seq![','] + json_text(x)
        },
    decreases s.len(),
{
    if s.len() == 0 {
        assert(s.push(x)[0] == x);
    } else {
        assert(s.push(x)[0] == s[0]);
        assert(s.push(x).skip(1) =~= s.skip(1).push(x));
        items_text_push(s.skip(1), x);
        if s.len() == 1 {
            assert(items_text(s.push(x)) =~= items_text(s) + seq![','] + json_text(x));
        } else {
            assert(items_text(s.push(x)) =~= items_text(s) + seq![','] + json_text(x));
        }
    }
}

proof fn entries_text_push(s: Seq<(Seq<char>, JsonVal)>, x: (Seq<char>, JsonVal))
    ensures
        entries_text(s.push(x)) == if s.len() == 0 {
            entry_text(x)
        } else {
            entries_text(s) + seq![','] + entry_text(x)
        },
    decreases s.len(),
{
    if s.len() == 0 {
        assert(s.push(x)[0] == x);
    } else {
        assert(s.push(x)[0] == s[0]);
        assert(s.push(x).skip(1) =~= s.skip(1).push(x));
        entries_text_push(s.skip(1), x);
        assert(entries_text(s.push(x)) =~= entries_text(s) + seq![','] + entry_text(x));
    }
}

/// One hex digit, lower case.
fn hex_char(n: u32) -> (c: char)
    requires
        n < 16,
    ensures
        c == hex_digit(n as int),
{
    match n {
        0 => '0',
        1 => '1',
        2 => '2',
        3 => '3',
        4 => '4',
        5 => '5',
        6 => '6',
        7 => '7',
        8 => '8',
        9 => '9',
        10 => 'a',
        11 => 'b',
        12 => 'c',
        13 => 'd',
        14 => 'e',
        _ => 'f',
    }
}

/// Appends the escaped form of `s`.
fn append_escaped(out: &mut Vec<char>, s: &str)
    ensures
        final(out)@ == old(out)@ + escape_str(s@),
{
    let n = s.unicode_len();
    let mut i: usize = 0;
    assert(escape_str(s@.take(0)) =~= Seq::<char>::empty());
    assert(out@ =~= old(out)@ + escape_str(s@.take(0)));
    while i < n
        invariant
            n == s@.len(),
            0 <= i <= n,
            out@ == old(out)@ + escape_str(s@.take(i as int)),
        decreases n - i,
    {
        let c = s.get_char(i);
        let ghost prefix = s@.take(i as int);
        if c == '"' {
            out.push('\\');
            out.push('"');
        } else if c == '\\' {
            out.push('\\');
            out.push('\\');
        } else if c == '\u{8}' {
            out.push('\\');
            out.push('b');
        } else if c == '\u{c}' {
            out.push('\\');
            out.push('f');
        } else if c == '\n' {
            out.push('\\');
            out.push('n');
        } else if c == '\r' {
            out.push('\\');
            out.push('r');
        } else if c == '\t' {
            out.push('\\');
            out.push('t');
        } else {
            let u = c as u32;
            if u < 0x20 {
                out.push('\\');
                out.push('u');
                out.push('0');
                out.push('0');
                out.push(hex_char(u / 16));
                out.push(hex_char(u % 16));
            } else {
                out.push(c);
            }
        }
        proof {
            escape_str_push(prefix, c);
            assert(prefix.push(c) =~= s@.take(i + 1));
            assert(out@ =~= old(out)@ + escape_str(s@.take(i + 1)));
        }
        i = i + 1;
    }
    assert(s@.take(n as int) =~= s@);
}

/// Appends the rendered form of a number's decimal text.
fn append_number(out: &mut Vec<char>, s: &str)
    ensures
        final(out)@ == old(out)@ + num_text(s@),
{
    let n = s.unicode_len();
    if n >= 2 && s.get_char(n - 2) == '.' && s.get_char(n - 1) == '0' {
        let end = n - 2;
        let mut i: usize = 0;
        while i < end
            invariant
                end <= n == s@.len(),
                0 <= i <= end,
                out@ == old(out)@ + s@.take(i as int),
            decreases end - i,
        {
            out.push(s.get_char(i));
            assert(out@ =~= old(out)@ + s@.take(i + 1));
            i = i + 1;
        }
    } else {
        append_str(out, s);
    }
}

/// Appends the JSON text of `v`.
#[verifier::loop_isolation(false)]
#[verifier::rlimit(60)]
pub fn write_json(v: &JsonValue, out: &mut Vec<char>)
    ensures
        final(out)@ == old(out)@ + json_text(v@),
    decreases *v,
{
    match v {
        JsonValue::Null => append_str(out, "null"),
        JsonValue::Bool(b) => {
            if *b {
                append_str(out, "true")
            } else {
                append_str(out, "false")
            }
        },
        JsonValue::Num(s) => append_number(out, s.as_str()),
        JsonValue::Str(s) => {
            out.push('"');
            append_escaped(out, s.as_str());
            out.push('"');
            assert(out@ =~= old(out)@ + json_text(v@));
        },
        JsonValue::Arr(items) => {
            proof {
                jv_seq_view_index(items@);
            }
            let ghost gitems = jv_seq_view(items@);
            out.push('[');
            let n = items.len();
            let mut i: usize = 0;
            assert(items_text(gitems.take(0)) =~= Seq::<char>::empty());
            assert(out@ =~= old(out)@ + seq!['['] + items_text(gitems.take(0)));
            while i < n
                invariant
                    0 <= i <= n,
                    out@ == old(out)@ + seq!['['] + items_text(gitems.take(i as int)),
                decreases n - i,
            {
                if i > 0 {
                    out.push(',');
                }
                let ghost mid = out@;
                assert(decreases_to!(*v => items@[i as int]));
                write_json(&items[i], out);
                proof {
                    items_text_push(gitems.take(i as int), gitems[i as int]);
                    assert(gitems.take(i as int).push(gitems[i as int]) =~= gitems.take(i + 1));
                    assert(out@ =~= old(out)@ + seq!['['] + items_text(gitems.take(i + 1)));
                }
                i = i + 1;
            }
            assert(gitems.take(n as int) =~= gitems);
            out.push(']');
            assert(out@ =~= old(out)@ + json_text(v@));
        },
        JsonValue::Obj(entries) => {
            proof {
                jv_entries_view_index(entries@);
            }
            let ghost gentries = jv_entries_view(entries@);
            out.push('{');
            let n = entries.len();
            let mut i: usize = 0;
            assert(entries_text(gentries.take(0)) =~= Seq::<char>::empty());
            assert(out@ =~= old(out)@ + seq!['{'] + entries_text(gentries.take(0)));
            while i < n
                invariant
                    0 <= i <= n,
                    out@ == old(out)@ + seq!['{'] + entries_text(gentries.take(i as int)),
                decreases n - i,
            {
                if i > 0 {
                    out.push(',');
                }
                let ghost mid = out@;
                out.push('"');
                append_escaped(out, entries[i].0.as_str());
                out.push('"');
                out.push(':');
                assert(decreases_to!(*v => entries@[i as int].1));
                write_json(&entries[i].1, out);
                proof {
                    entries_text_push(gentries.take(i as int), gentries[i as int]);
                    assert(gentries.take(i as int).push(gentries[i as int]) =~= gentries.take(
                        i + 1,
                    ));
                    assert(out@ =~= mid + entry_text(gentries[i as int]));
                    assert(out@ =~= old(out)@ + seq!['{'] + entries_text(gentries.take(i + 1)));
                }
                i = i + 1;
            }
            assert(gentries.take(n as int) =~= gentries);
            out.push('}');
            assert(out@ =~= old(out)@ + json_text(v@));
        },
    }
}

/// The custom outbound formatter: it renders numbers without a trailing
/// ".0" and leaves every other text untouched.
#[derive(Debug, Clone)]
pub struct JsonFormatter {}

impl JsonFormatter {
    /// A formatter value.
    pub fn new() -> (r: JsonFormatter) {
        JsonFormatter {  }
    }

    /// Writes a number's decimal text in the outbound form.
    pub fn write_number(&self, out: &mut Vec<char>, text: &str)
        ensures
            final(out)@ == old(out)@ + num_text(text@),
    {
        append_number(out, text)
    }
}

/// The JSON text of `value`, in the outbound wire form.
pub fn serialize_value(value: JsonValue) -> (r: String)
    ensures
        r@ == json_text(value@),
{
    value_to_string(&value)
}

/// The JSON text of `value`, in the outbound wire form.
pub fn value_to_string(value: &JsonValue) -> (r: String)
    ensures
        r@ == json_text(value@),
{
    let mut out: Vec<char> = Vec::new();
    write_json(value, &mut out);
    string_from_chars(&out)
}

} // verus!
