//! The text of one log record as the loggers write it out:
//! `[LEVEL] [file:line] - message` and a line feed.
use vstd::prelude::*;
use vstd::string::StrSliceExecFns;
use vstd::string::StringExecFns;

verus! {

/// Severity of a log record.
#[derive(Debug, Clone, Copy, PartialEq, Eq, Structural)]
pub enum Level {
    Error,
    Warn,
    Info,
    Debug,
    Trace,
}

/// The name of a level, in capitals.
pub open spec fn level_name(level: Level) -> Seq<char> {
    match level {
        Level::Error => seq!['E', 'R', 'R', 'O', 'R'],
        Level::Warn => seq!['W', 'A', 'R', 'N'],
        Level::Info => seq!['I', 'N', 'F', 'O'],
        Level::Debug => seq!['D', 'E', 'B', 'U', 'G'],
        Level::Trace => seq!['T', 'R', 'A', 'C', 'E'],
    }
}

/// Calls `log::Level::as_str`.
///
/// Trusted: `as_str` looks the level up in the crate's table of names,
/// `"ERROR"`, `"WARN"`, `"INFO"`, `"DEBUG"` and `"TRACE"`.
#[verifier::external_body]
fn level_as_str(level: Level) -> (name: &'static str)
    ensures
        name@ == level_name(level),
{
    let level = match level {
        Level::Error => log::Level::Error,
        Level::Warn => log::Level::Warn,
        Level::Info => log::Level::Info,
        Level::Debug => log::Level::Debug,
        Level::Trace => log::Level::Trace,
    };
    level.as_str()
}

/// `s` padded on the right with spaces to `width` characters.
pub open spec fn pad_right(s: Seq<char>, width: nat) -> Seq<char> {
    if s.len() < width {
        s + Seq::new((width - s.len()) as nat, |i: int| ' ')
    } else {
        s
    }
}

/// The decimal digit `d` as a character.
pub open spec fn digit_char(d: nat) -> char {
    (48 + d) as char
}

/// The decimal representation of `n`, without leading zeros.
pub open spec fn decimal(n: nat) -> Seq<char>
    decreases n,
{
    if n < 10 {
        seq![digit_char(n)]
    } else {
        decimal(n / 10).push(digit_char(n % 10))
    }
}

/// The number that a string of decimal digits stands for, each digit `d`
/// written as the character of code `48 + d`, most significant first.
pub open spec fn numeral_value(s: Seq<char>) -> int
    decreases s.len(),
{
    if s.len() == 0 {
        0
    } else {
        numeral_value(s.drop_last()) * 10 + (s.last() as int - 48)
    }
}

/// The line field is the base-10 numeral of the line number: it is made of
/// the characters `0` to `9` only, has no leading zero, and reads back as `n`.
pub proof fn lemma_decimal_reads_back(n: nat)
    ensures
        numeral_value(decimal(n)) == n,
        decimal(n).len() >= 1,
        forall|i: int| 0 <= i < decimal(n).len() ==> 48 <= (#[trigger] decimal(n)[i]) as int <= 57,
        decimal(n).len() > 1 ==> decimal(n)[0] != '0',
    decreases n,
{
    assert(numeral_value(Seq::<char>::empty()) == 0);
    if n < 10 {
        assert(decimal(n) == seq![digit_char(n)]);
        assert(seq![digit_char(n)].drop_last() =~= Seq::<char>::empty());
        assert(digit_char(n) as int == 48 + n);
    } else {
        lemma_decimal_reads_back(n / 10);
        let d = decimal(n);
        assert(d == decimal(n / 10).push(digit_char(n % 10)));
        assert(d.drop_last() =~= decimal(n / 10));
        assert(digit_char(n % 10) as int == 48 + n % 10);
        assert forall|i: int| 0 <= i < d.len() implies 48 <= (#[trigger] d[i]) as int <= 57 by {
            if i < d.len() - 1 {
                assert(d[i] == decimal(n / 10)[i]);
            }
        }
        if decimal(n / 10).len() > 1 {
            assert(d[0] == decimal(n / 10)[0]);
        } else {
            assert(d[0] == decimal(n / 10)[0]);
            assert(numeral_value(decimal(n / 10)) == decimal(n / 10)[0] as int - 48) by {
                assert(decimal(n / 10).drop_last() =~= Seq::<char>::empty());
                assert(decimal(n / 10).last() == decimal(n / 10)[0]);
            }
            assert(n / 10 >= 1);
        }
    }
}

/// The file name shown for a record that names none.
pub open spec fn unknown_file() -> Seq<char> {
    seq!['<', 'u', 'n', 'k', 'n', 'o', 'w', 'n', '>']
}

/// The text written for a log record: level padded to five characters, the
/// file (or `<unknown>`), the line (or 0), the message, and a line feed.
pub open spec fn log_line_text(
    level: Level,
    file: Option<Seq<char>>,
    line: Option<u32>,
    message: Seq<char>,
) -> Seq<char> {
    let file = match file {
        Some(f) => f,
        None => unknown_file(),
    };
    let line = match line {
        Some(l) => l,
        None => 0,
    };
    seq!['['] + pad_right(level_name(level), 5) + seq![']', ' ', '['] + file + seq![':'] + decimal(
        line as nat,
    ) + seq![']', ' ', '-', ' '] + message + seq!['\n']
}

/// The level field of a log line is always five characters wide.
pub proof fn lemma_level_field_width(level: Level)
    ensures
        pad_right(level_name(level), 5).len() == 5,
{
}

/// The digit `d` as a one-character string.
fn digit_str(d: u32) -> (s: &'static str)
    requires
        d < 10,
    ensures
        s@ == seq![digit_char(d as nat)],
{
    proof {
        reveal_strlit("0");
        reveal_strlit("1");
        reveal_strlit("2");
        reveal_strlit("3");
        reveal_strlit("4");
        reveal_strlit("5");
        reveal_strlit("6");
        reveal_strlit("7");
        reveal_strlit("8");
        reveal_strlit("9");
    }
    match d {
        0 => "0",
        1 => "1",
        2 => "2",
        3 => "3",
        4 => "4",
        5 => "5",
        6 => "6",
        7 => "7",
        8 => "8",
        _ => "9",
    }
}

/// Appends the decimal representation of `n` to `out`.
fn push_decimal(out: &mut String, n: u32)
    ensures
        final(out)@ == old(out)@ + decimal(n as nat),
    decreases n,
{
    if n >= 10 {
        push_decimal(out, n / 10);
    }
    out.append(digit_str(n % 10));
    assert(decimal(n as nat) == if n < 10 {
        seq![digit_char(n as nat)]
    } else {
        decimal((n / 10) as nat).push(digit_char((n % 10) as nat))
    });
}

/// Formats a log record as the loggers write it out.
pub fn log_line(level: Level, file: Option<&str>, line: Option<u32>, message: &str) -> (text:
    String)
    ensures
        text@ == log_line_text(
            level,
            match file {
                Some(f) => Some(f@),
                None => None,
            },
            line,
            message@,
        ),
{
    let file = match file {
        Some(f) => f,
        None => "<unknown>",
    };
    let line = match line {
        Some(l) => l,
        None => 0,
    };
    proof {
        reveal_strlit("<unknown>");
        reveal_strlit("[");
        reveal_strlit(" ");
        reveal_strlit("] [");
        reveal_strlit(":");
        reveal_strlit("] - ");
        reveal_strlit("\n");
    }
    let name = level_as_str(level);
    let mut text = String::from_str("[");
    text.append(name);
    let mut width = name.unicode_len();
    assert(name@.len() <= 5);
    while width < 5
        invariant
            name@.len() <= width <= 5,
            " "@ == seq![' '],
            text@ == seq!['['] + name@ + Seq::new((width - name@.len()) as nat, |i: int| ' '),
        decreases 5 - width,
    {
        text.append(" ");
        assert(seq!['['] + name@ + Seq::new((width + 1 - name@.len()) as nat, |i: int| ' ')
            =~= seq!['['] + name@ + Seq::new((width - name@.len()) as nat, |i: int| ' ') + " "@);
        width = width + 1;
    }
    assert(seq!['['] + name@ + Seq::new((width - name@.len()) as nat, |i: int| ' ') =~= seq!['[']
        + pad_right(name@, 5));
    text.append("] [");
    text.append(file);
    text.append(":");
    push_decimal(&mut text, line);
    text.append("] - ");
    text.append(message);
    text.append("\n");
    text
}

} // verus!
