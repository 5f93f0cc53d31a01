//! The log console: each line of the log is shown either split into its
//! fields, where it has the form `[CATEGORY] [seconds.fraction] [source]:
//! message`, or verbatim.
use vstd::prelude::*;
use vstd::string::*;

verus! {

/// The log console panel.
pub struct Console {}

/// The severity shown for a category.
#[derive(Clone, Copy, PartialEq, Eq, Structural, Debug)]
pub enum LogCategory {
    Info,
    Warn,
    Error,
    Unknown,
}

/// A log line split into its four fields.
pub struct LogEntry {
    pub category: String,
    pub timestamp: String,
    pub node: String,
    pub message: String,
}

/// The character classes that the fields of a log line are made of.
#[derive(Clone, Copy, PartialEq, Eq, Structural, Debug)]
pub enum CharClass {
    Upper,
    Digit,
    NotBracket,
    NotNewline,
}

pub open spec fn in_class(k: CharClass, c: char) -> bool {
    match k {
        CharClass::Upper => 'A' <= c && c <= 'Z',
        CharClass::Digit => '0' <= c && c <= '9',
        CharClass::NotBracket => c != ']',
        CharClass::NotNewline => c != '\n',
    }
}

pub open spec fn all_in(k: CharClass, s: Seq<char>) -> bool {
    forall|i: int| 0 <= i < s.len() ==> in_class(k, #[trigger] s[i])
}

/// Seconds with a fraction: digits, one dot, digits.
pub open spec fn is_timestamp(t: Seq<char>) -> bool {
    exists|k: int|
        0 < k < t.len() - 1 && t[k] == '.' && all_in(CharClass::Digit, t.subrange(0, k))
            && all_in(CharClass::Digit, t.subrange(k + 1, t.len() as int))
}

/// The fields form a log line: a category of capital letters, a timestamp,
/// a source without `]`, a message on one line; none of them empty.
pub open spec fn fields_ok(c: Seq<char>, t: Seq<char>, n: Seq<char>, m: Seq<char>) -> bool {
    &&& c.len() > 0 && all_in(CharClass::Upper, c)
    &&& is_timestamp(t)
    &&& n.len() > 0 && all_in(CharClass::NotBracket, n)
    &&& m.len() > 0 && all_in(CharClass::NotNewline, m)
}

/// The text of a log line with the given fields.
pub open spec fn log_line(c: Seq<char>, t: Seq<char>, n: Seq<char>, m: Seq<char>) -> Seq<char> {
    seq!['['] + c + seq![']', ' ', '['] + t + seq![']', ' ', '['] + n + seq![']', ':', ' '] + m
}

/// `line` has the form of a log line.
pub open spec fn is_log_line(line: Seq<char>) -> bool {
    exists|c: Seq<char>, t: Seq<char>, n: Seq<char>, m: Seq<char>|
        fields_ok(c, t, n, m) && line == log_line(c, t, n, m)
}

/// The category named by `s`: INFO, WARN and ERROR are known, anything
/// else is unknown.
pub open spec fn category_of(s: Seq<char>) -> LogCategory {
    if s == seq!['I', 'N', 'F', 'O'] {
        LogCategory::Info
    } else if s == seq!['W', 'A', 'R', 'N'] {
        LogCategory::Warn
    } else if s == seq!['E', 'R', 'R', 'O', 'R'] {
        LogCategory::Error
    } else {
        LogCategory::Unknown
    }
}

/// The first position at or after `from` whose character is not of class
/// `k`, or the end of the line.
fn scan(line: &str, len: usize, from: usize, k: CharClass) -> (r: usize)
    requires
        len == line@.len(),
        from <= len,
    ensures
        from <= r <= len,
        forall|j: int| from <= j < r ==> in_class(k, #[trigger] line@[j]),
        r < len ==> !in_class(k, line@[r as int]),
{
    let mut i = from;
    while i < len
        invariant
            len == line@.len(),
            from <= i <= len,
            forall|j: int| from <= j < i ==> in_class(k, #[trigger] line@[j]),
        decreases len - i,
    {
        let c = line.get_char(i);
        let ok = match k {
            CharClass::Upper => 'A' <= c && c <= 'Z',
            CharClass::Digit => '0' <= c && c <= '9',
            CharClass::NotBracket => c != ']',
            CharClass::NotNewline => c != '\n',
        };
        if !ok {
            return i;
        }
        i = i + 1;
    }
    i
}

/// The characters at `at`, `at + 1`, `at + 2` are `a`, `b`, `c`.
fn has3(line: &str, len: usize, at: usize, a: char, b: char, c: char) -> (r: bool)
    requires
        len == line@.len(),
    ensures
        r == (at + 3 <= len && line@[at as int] == a && line@[at + 1] == b && line@[at + 2] == c),
{
    if at >= len || len - at < 3 {
        return false;
    }
    line.get_char(at) == a && line.get_char(at + 1) == b && line.get_char(at + 2) == c
}

/// The first position at or after `from` that is not of class `k` is `p`,
/// where everything from `from` to `p` is of class `k` and `p` is not.
proof fn lemma_scan_stops(line: Seq<char>, from: int, p: int, r: int, k: CharClass)
    requires
        0 <= from <= p < line.len(),
        from <= r <= line.len(),
        forall|j: int| from <= j < p ==> in_class(k, #[trigger] line[j]),
        !in_class(k, line[p]),
        forall|j: int| from <= j < r ==> in_class(k, #[trigger] line[j]),
        r < line.len() ==> !in_class(k, line[r]),
    ensures
        r == p,
{
    if r < p {
        assert(in_class(k, line[r]));
    } else if r > p {
        assert(in_class(k, line[p]));
    }
}

/// Splits `line` into its fields where it has the form of a log line.
#[verifier::rlimit(60)]
pub fn parse_log_line(line: &str) -> (r: Option<LogEntry>)
    ensures
        r is Some <==> is_log_line(line@),
        r matches Some(e) ==> fields_ok(e.category@, e.timestamp@, e.node@, e.message@)
            && line@ == log_line(e.category@, e.timestamp@, e.node@, e.message@),
{
    let len = line.unicode_len();
    let ghost s = line@;
    // Where the line has the form, these are its fields, and each scan
    // below stops where they say it must.
    let ghost (gc, gt, gn, gm) = choose|c: Seq<char>, t: Seq<char>, n: Seq<char>, m: Seq<char>|
        fields_ok(c, t, n, m) && s == log_line(c, t, n, m);
    proof {
        if is_log_line(s) {
            lemma_log_line_shape(gc, gt, gn, gm);
        }
    }
    if len == 0 || line.get_char(0) != '[' {
        return None;
    }
    let a = scan(line, len, 1, CharClass::Upper);
    if a == 1 || !has3(line, len, a, ']', ' ', '[') {
        return None;
    }
    let b = a + 3;
    let b1 = scan(line, len, b, CharClass::Digit);
    proof {
        if is_log_line(s) {
            let k = choose|k: int|
                0 < k < gt.len() - 1 && gt[k] == '.' && all_in(CharClass::Digit, gt.subrange(0, k))
                    && all_in(CharClass::Digit, gt.subrange(k + 1, gt.len() as int));
            assert(a == 1 + gc.len());
            assert forall|j: int| b <= j < b + k implies in_class(CharClass::Digit, #[trigger] s[j]) by {
                assert(gt.subrange(0, k)[j - b] == gt[j - b]);
            }
            lemma_scan_stops(s, b as int, b + k, b1 as int, CharClass::Digit);
            assert forall|j: int| b + k + 1 <= j < b + gt.len() implies in_class(
                CharClass::Digit,
                #[trigger] s[j],
            ) by {
                assert(gt.subrange(k + 1, gt.len() as int)[j - b - k - 1] == gt[j - b]);
            }
            assert(!in_class(CharClass::Digit, s[b + gt.len()]));
        }
    }
    if b1 == b || b1 >= len || line.get_char(b1) != '.' {
        return None;
    }
    let b2 = scan(line, len, b1 + 1, CharClass::Digit);
    if b2 == b1 + 1 || !has3(line, len, b2, ']', ' ', '[') {
        return None;
    }
    let c0 = b2 + 3;
    let c1 = scan(line, len, c0, CharClass::NotBracket);
    if c1 == c0 || !has3(line, len, c1, ']', ':', ' ') {
        return None;
    }
    let m0 = c1 + 3;
    let end = scan(line, len, m0, CharClass::NotNewline);
    if m0 == len || end != len {
        return None;
    }
    let category = line.substring_char(1, a).to_owned();
    let timestamp = line.substring_char(b, b2).to_owned();
    let node = line.substring_char(c0, c1).to_owned();
    let message = line.substring_char(m0, len).to_owned();
    proof {
        let c = s.subrange(1, a as int);
        let t = s.subrange(b as int, b2 as int);
        let n = s.subrange(c0 as int, c1 as int);
        let m = s.subrange(m0 as int, len as int);
        assert(s =~= log_line(c, t, n, m));
        let k = b1 - b;
        assert(t[k] == '.');
        assert(t.subrange(0, k) =~= s.subrange(b as int, b1 as int));
        assert(t.subrange(k + 1, t.len() as int) =~= s.subrange(b1 + 1, b2 as int));
        assert(all_in(CharClass::Digit, t.subrange(0, k)));
        assert(all_in(CharClass::Digit, t.subrange(k + 1, t.len() as int)));
        assert(is_timestamp(t));
        assert(fields_ok(c, t, n, m));
    }
    Some(LogEntry { category, timestamp, node, message })
}

/// Where a line has the form of a log line, every position of it holds what
/// the fields put there.
proof fn lemma_log_line_shape(c: Seq<char>, t: Seq<char>, n: Seq<char>, m: Seq<char>)
    requires
        fields_ok(c, t, n, m),
    ensures
        ({
            let s = log_line(c, t, n, m);
            let a = 1 + c.len() as int;
            let b = a + 3;
            let c0 = b + t.len() as int + 3;
            let c1 = c0 + n.len() as int;
            &&& s.len() == c1 + 3 + m.len()
            &&& s[0] == '['
            &&& forall|j: int| 1 <= j < a ==> #[trigger] s[j] == c[j - 1]
            &&& s[a] == ']' && s[a + 1] == ' ' && s[a + 2] == '['
            &&& forall|j: int| b <= j < b + t.len() ==> #[trigger] s[j] == t[j - b]
            &&& s[b + t.len()] == ']' && s[b + t.len() + 1] == ' ' && s[b + t.len() + 2] == '['
            &&& forall|j: int| c0 <= j < c1 ==> #[trigger] s[j] == n[j - c0]
            &&& s[c1] == ']' && s[c1 + 1] == ':' && s[c1 + 2] == ' '
            &&& forall|j: int| c1 + 3 <= j < s.len() ==> #[trigger] s[j] == m[j - c1 - 3]
        }),
{
}

impl LogCategory {
    /// The category of the first field of a log line.
    pub fn from_field(s: &str) -> (r: LogCategory)
        ensures
            r == category_of(s@),
    {
        let n = s.unicode_len();
        if n == 4 {
            let c0 = s.get_char(0);
            let c1 = s.get_char(1);
            let c2 = s.get_char(2);
            let c3 = s.get_char(3);
            if c0 == 'I' && c1 == 'N' && c2 == 'F' && c3 == 'O' {
                assert(s@ =~= seq!['I', 'N', 'F', 'O']);
                return LogCategory::Info;
            }
            if c0 == 'W' && c1 == 'A' && c2 == 'R' && c3 == 'N' {
                assert(s@ =~= seq!['W', 'A', 'R', 'N']);
                return LogCategory::Warn;
            }
            assert(s@[0] != 'I' || s@[1] != 'N' || s@[2] != 'F' || s@[3] != 'O');
            assert(s@ != seq!['I', 'N', 'F', 'O']);
            assert(s@ != seq!['W', 'A', 'R', 'N']);
        } else if n == 5 {
            let c0 = s.get_char(0);
            let c1 = s.get_char(1);
            let c2 = s.get_char(2);
            let c3 = s.get_char(3);
            let c4 = s.get_char(4);
            if c0 == 'E' && c1 == 'R' && c2 == 'R' && c3 == 'O' && c4 == 'R' {
                assert(s@ =~= seq!['E', 'R', 'R', 'O', 'R']);
                return LogCategory::Error;
            }
            assert(s@ != seq!['E', 'R', 'R', 'O', 'R']);
        }
        LogCategory::Unknown
    }

    /// The word shown for the category.
    pub fn label(&self) -> (r: &'static str)
        ensures
            r@ == match *self {
                LogCategory::Info => "info"@,
                LogCategory::Warn => "warn"@,
                LogCategory::Error => "error"@,
                LogCategory::Unknown => "unknown"@,
            },
    {
        match self {
            LogCategory::Info => "info",
            LogCategory::Warn => "warn",
            LogCategory::Error => "error",
            LogCategory::Unknown => "unknown",
        }
    }
}

} // verus!
