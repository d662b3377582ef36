//! The persistence codec: the task list as the text of a single
//! object, `{"tasks":[...]}`, with one object per task. The encoder
//! writes a canonical, compact form with every member present. The
//! decoder is tolerant the way a stored file deserves: members may
//! come in any order, unknown members are skipped, missing members
//! take their defaults (empty text, zero seconds, not done), and
//! whitespace between tokens is allowed. Decoding an encoded list
//! gives the list back, proved below.
use vstd::prelude::*;
use vstd::string::StrSliceExecFns;

use crate::EngineError;
use crate::queue::Database;
use crate::task::{Task, TaskView};
use crate::text::chars_to_string;
use crate::timefmt::{digit_char, digit_char_of};

verus! {

// ---------------------------------------------------------------------
// Encoding
// ---------------------------------------------------------------------
/// The hexadecimal digit character for `d`, lower case.
pub open spec fn hex_char(d: int) -> char
    recommends
        0 <= d < 16,
{
    if d == 0 { '0' }
    else if d == 1 { '1' }
    else if d == 2 { '2' }
    else if d == 3 { '3' }
    else if d == 4 { '4' }
    else if d == 5 { '5' }
    else if d == 6 { '6' }
    else if d == 7 { '7' }
    else if d == 8 { '8' }
    else if d == 9 { '9' }
    else if d == 10 { 'a' }
    else if d == 11 { 'b' }
    else if d == 12 { 'c' }
    else if d == 13 { 'd' }
    else if d == 14 { 'e' }
    else { 'f' }
}

fn hex_char_of(d: u32) -> (c: char)
    requires
        d < 16,
    ensures
        c == hex_char(d as int),
{
    match d {
        0 => '0',
        1 => '1',
        2 => '2',
        3 => '3',
        4 => '4',
        5 => '5',
        6 => '6',
        7 => '7',
        8 => '8',
        9 => '9',
        10 => 'a',
        11 => 'b',
        12 => 'c',
        13 => 'd',
        14 => 'e',
        _ => 'f',
    }
}

/// The escape of one text character: quote and backslash get a
/// backslash, control characters are written as their named escapes or
/// as a four-digit unicode escape, everything else stands as itself.
pub open spec fn esc_char(c: char) -> Seq<char> {
    if c == '"' {
        seq!['\\', '"']
    } else if c == '\\' {
        seq!['\\', '\\']
    } else if c == '\n' {
        seq!['\\', 'n']
    } else if c == '\r' {
        seq!['\\', 'r']
    } else if c == '\t' {
        seq!['\\', 't']
    } else if c == '\u{8}' {
        seq!['\\', 'b']
    } else if c == '\u{c}' {
        seq!['\\', 'f']
    } else if (c as u32) < 0x20 {
        seq!['\\', 'u', '0', '0', hex_char((c as u32) as int / 16), hex_char((c as u32) as int % 16)]
    } else {
        seq![c]
    }
}

/// The escaped form of a whole text.
pub open spec fn esc_string(s: Seq<char>) -> Seq<char>
    decreases s.len(),
{
    if s.len() == 0 {
        Seq::<char>::empty()
    } else {
        esc_char(s[0]) + esc_string(s.drop_first())
    }
}

/// The decimal digits of `n`, most significant first, no leading zero
/// except for zero itself.
pub open spec fn dec_digits(n: nat) -> Seq<char>
    decreases n,
{
    if n < 10 {
        seq![digit_char(n as int)]
    } else {
        dec_digits(n / 10) + seq![digit_char((n % 10) as int)]
    }
}

/// The canonical encoding of one task.
pub open spec fn enc_task(t: TaskView) -> Seq<char> {
    seq!['{'] + "\"text\":"@ + seq!['"'] + esc_string(t.text) + seq!['"'] + seq![',']
        + "\"seconds_estimated\":"@ + dec_digits(t.seconds_estimated as nat) + seq![',']
        + "\"seconds_spent\":"@ + dec_digits(t.seconds_spent as nat) + seq![',']
        + "\"done\":"@ + (if t.done {
        "true"@
    } else {
        "false"@
    }) + seq!['}']
}

/// The encodings of the tasks, joined with commas.
pub open spec fn enc_tasks(ts: Seq<TaskView>) -> Seq<char>
    decreases ts.len(),
{
    if ts.len() == 0 {
        Seq::<char>::empty()
    } else if ts.len() == 1 {
        enc_task(ts[0])
    } else {
        enc_task(ts[0]) + seq![','] + enc_tasks(ts.drop_first())
    }
}

/// The canonical encoding of a whole task list.
pub open spec fn enc_db(ts: Seq<TaskView>) -> Seq<char> {
    seq!['{'] + "\"tasks\":"@ + seq!['['] + enc_tasks(ts) + seq![']'] + seq!['}']
}

/// Appends the characters of `lit` to the buffer.
fn push_lit(v: &mut Vec<char>, lit: &str)
    ensures
        final(v)@ == old(v)@ + lit@,
{
    let n = lit.unicode_len();
    let mut i: usize = 0;
    while i < n
        invariant
            n == lit@.len(),
            i <= n,
            v@ =~= old(v)@ + lit@.subrange(0, i as int),
        decreases n - i,
    {
        v.push(lit.get_char(i));
        i = i + 1;
        assert(v@ =~= old(v)@ + lit@.subrange(0, i as int));
    }
    assert(v@ =~= old(v)@ + lit@);
}

proof fn lemma_esc_string_snoc(s: Seq<char>, c: char)
    ensures
        esc_string(s.push(c)) == esc_string(s) + esc_char(c),
    decreases s.len(),
{
    if s.len() == 0 {
        assert(s.push(c).drop_first() =~= Seq::<char>::empty());
        assert(s.push(c)[0] == c);
        assert(esc_string(s.push(c)) == esc_char(c) + esc_string(Seq::<char>::empty()));
        assert(esc_char(c) + esc_string(Seq::<char>::empty()) =~= esc_string(s) + esc_char(c));
    } else {
        lemma_esc_string_snoc(s.drop_first(), c);
        assert(s.push(c).drop_first() =~= s.drop_first().push(c));
        assert(s.push(c)[0] == s[0]);
        assert(esc_string(s.push(c)) == esc_char(s[0]) + esc_string(s.drop_first().push(c)));
        assert(esc_char(s[0]) + (esc_string(s.drop_first()) + esc_char(c)) =~= (esc_char(s[0])
            + esc_string(s.drop_first())) + esc_char(c));
        assert(esc_string(s.push(c)) =~= esc_string(s) + esc_char(c));
    }
}

/// Appends the escaped form of `s` to the buffer.
fn push_escaped(v: &mut Vec<char>, s: &str)
    ensures
        final(v)@ == old(v)@ + esc_string(s@),
{
    let n = s.unicode_len();
    let mut i: usize = 0;
    while i < n
        invariant
            n == s@.len(),
            i <= n,
            v@ =~= old(v)@ + esc_string(s@.subrange(0, i as int)),
        decreases n - i,
    {
        let c = s.get_char(i);
        if c == '"' {
            v.push('\\');
            v.push('"');
        } else if c == '\\' {
            v.push('\\');
            v.push('\\');
        } else if c == '\n' {
            v.push('\\');
            v.push('n');
        } else if c == '\r' {
            v.push('\\');
            v.push('r');
        } else if c == '\t' {
            v.push('\\');
            v.push('t');
        } else if c == '\u{8}' {
            v.push('\\');
            v.push('b');
        } else if c == '\u{c}' {
            v.push('\\');
            v.push('f');
        } else if (c as u32) < 0x20 {
            let code = c as u32;
            v.push('\\');
            v.push('u');
            v.push('0');
            v.push('0');
            v.push(hex_char_of(code / 16));
            v.push(hex_char_of(code % 16));
        } else {
            v.push(c);
        }
        assert(v@ =~= old(v)@ + esc_string(s@.subrange(0, i as int)) + esc_char(c));
        proof {
            lemma_esc_string_snoc(s@.subrange(0, i as int), c);
            assert(s@.subrange(0, i as int).push(c) =~= s@.subrange(0, i as int + 1));
        }
        i = i + 1;
        assert(v@ =~= old(v)@ + esc_string(s@.subrange(0, i as int)));
    }
    assert(s@.subrange(0, n as int) =~= s@);
    assert(v@ =~= old(v)@ + esc_string(s@));
}

/// Appends the decimal digits of `n` to the buffer.
fn push_decimal(v: &mut Vec<char>, n: u64)
    ensures
        final(v)@ == old(v)@ + dec_digits(n as nat),
    decreases n,
{
    if n < 10 {
        v.push(digit_char_of(n as i64));
    } else {
        push_decimal(v, n / 10);
        v.push(digit_char_of((n % 10) as i64));
        assert(final(v)@ =~= old(v)@ + dec_digits(n as nat));
    }
}

/// Appends the canonical encoding of one task to the buffer.
fn push_task(v: &mut Vec<char>, t: &Task)
    requires
        t@.wf(),
    ensures
        final(v)@ == old(v)@ + enc_task(t@),
{
    v.push('{');
    push_lit(v, "\"text\":");
    v.push('"');
    push_escaped(v, t.text.as_str());
    v.push('"');
    v.push(',');
    push_lit(v, "\"seconds_estimated\":");
    push_decimal(v, t.seconds_estimated as u64);
    v.push(',');
    push_lit(v, "\"seconds_spent\":");
    push_decimal(v, t.seconds_spent as u64);
    v.push(',');
    push_lit(v, "\"done\":");
    if t.done {
        push_lit(v, "true");
    } else {
        push_lit(v, "false");
    }
    v.push('}');
    assert(final(v)@ =~= old(v)@ + enc_task(t@));
}

/// Appends the encodings of the tasks from `i` on, comma separated, to
/// the buffer.
fn push_tasks(v: &mut Vec<char>, db: &Database, i: usize)
    requires
        db.wf(),
        i < db@.len(),
    ensures
        final(v)@ == old(v)@ + enc_tasks(db@.skip(i as int)),
    decreases db@.len() - i,
{
    let ghost views = db@;
    let len = db.tasks.len();
    assert((db.tasks@[i as int])@ == views[i as int]);
    push_task(v, &db.tasks[i]);
    if i < len - 1 {
        v.push(',');
        push_tasks(v, db, i + 1);
        proof {
            assert(views.skip(i as int).drop_first() =~= views.skip(i as int + 1));
            assert(views.skip(i as int)[0] == views[i as int]);
            assert(final(v)@ =~= old(v)@ + enc_tasks(views.skip(i as int)));
        }
    } else {
        proof {
            assert(views.skip(i as int).len() == 1);
            assert(views.skip(i as int)[0] == views[i as int]);
            assert(final(v)@ =~= old(v)@ + enc_tasks(views.skip(i as int)));
        }
    }
}

/// Encodes the task list for storage. The result is exactly the
/// canonical encoding `enc_db` of the queue's contents.
pub fn encode_data(db: &Database) -> (r: String)
    requires
        db.wf(),
    ensures
        r@ == enc_db(db@),
{
    let mut v: Vec<char> = Vec::new();
    v.push('{');
    push_lit(&mut v, "\"tasks\":");
    v.push('[');
    if db.tasks.len() > 0 {
        push_tasks(&mut v, db, 0);
        proof {
            assert(db@.skip(0) =~= db@);
        }
    }
    v.push(']');
    v.push('}');
    assert(v@ =~= enc_db(db@));
    chars_to_string(&v)
}

// ---------------------------------------------------------------------
// Decoding
// ---------------------------------------------------------------------
/// The value of a decimal digit character, `-1` for any other
/// character.
pub open spec fn digit_val(c: char) -> int {
    if c == '0' { 0 }
    else if c == '1' { 1 }
    else if c == '2' { 2 }
    else if c == '3' { 3 }
    else if c == '4' { 4 }
    else if c == '5' { 5 }
    else if c == '6' { 6 }
    else if c == '7' { 7 }
    else if c == '8' { 8 }
    else if c == '9' { 9 }
    else { -1 }
}

pub open spec fn is_digit(c: char) -> bool {
    digit_val(c) >= 0
}

/// The value of a hexadecimal digit character, `-1` for any other
/// character.
pub open spec fn hex_val(c: char) -> int {
    if is_digit(c) { digit_val(c) }
    else if c == 'a' || c == 'A' { 10 }
    else if c == 'b' || c == 'B' { 11 }
    else if c == 'c' || c == 'C' { 12 }
    else if c == 'd' || c == 'D' { 13 }
    else if c == 'e' || c == 'E' { 14 }
    else if c == 'f' || c == 'F' { 15 }
    else { -1 }
}

/// JSON whitespace.
pub open spec fn is_ws(c: char) -> bool {
    c == ' ' || c == '\t' || c == '\n' || c == '\r'
}

/// The first position at or after `i` that holds no whitespace.
pub open spec fn p_ws(s: Seq<char>, i: int) -> int
    decreases s.len() - i,
{
    if 0 <= i < s.len() && is_ws(s[i]) {
        p_ws(s, i + 1)
    } else {
        i
    }
}

/// Whether the characters of `l` stand in `s` at position `i`.
pub open spec fn lit_at(s: Seq<char>, i: int, l: Seq<char>) -> bool {
    &&& 0 <= i
    &&& i + l.len() <= s.len()
    &&& s.subrange(i, i + l.len()) == l
}

/// The character named by a one-letter backslash escape, if the escape
/// is known.
pub open spec fn unescape_char(c: char) -> Option<char> {
    if c == '"' { Some('"') }
    else if c == '\\' { Some('\\') }
    else if c == '/' { Some('/') }
    else if c == 'n' { Some('\n') }
    else if c == 't' { Some('\t') }
    else if c == 'r' { Some('\r') }
    else if c == 'b' { Some('\u{8}') }
    else if c == 'f' { Some('\u{c}') }
    else { None }
}

/// The character with code point `code`.
pub open spec fn char_of(code: u32) -> char {
    code as char
}

/// Parses a string body from position `i` up to and over its closing
/// quote; yields the unescaped text and the position after the quote.
/// Unicode escapes cover the first 256 code points, which is all the
/// escapes a stored task list can hold.
pub open spec fn p_strbody(s: Seq<char>, i: int) -> Option<(Seq<char>, int)>
    decreases s.len() - i,
{
    if i < 0 || i >= s.len() {
        None
    } else if s[i] == '"' {
        Some((Seq::<char>::empty(), i + 1))
    } else if s[i] == '\\' {
        if i + 1 >= s.len() {
            None
        } else if s[i + 1] == 'u' {
            if i + 6 > s.len() {
                None
            } else {
                let v = hex_val(s[i + 2]) * 4096 + hex_val(s[i + 3]) * 256 + hex_val(s[i + 4]) * 16
                    + hex_val(s[i + 5]);
                if hex_val(s[i + 2]) < 0 || hex_val(s[i + 3]) < 0 || hex_val(s[i + 4]) < 0
                    || hex_val(s[i + 5]) < 0 || v > 0xFF {
                    None
                } else {
                    match p_strbody(s, i + 6) {
                        None => None,
                        Some((t, j)) => Some((seq![char_of(v as u32)] + t, j)),
                    }
                }
            }
        } else {
            match unescape_char(s[i + 1]) {
                None => None,
                Some(ec) => match p_strbody(s, i + 2) {
                    None => None,
                    Some((t, j)) => Some((seq![ec] + t, j)),
                },
            }
        }
    } else {
        match p_strbody(s, i + 1) {
            None => None,
            Some((t, j)) => Some((seq![s[i]] + t, j)),
        }
    }
}

/// Ten to the `n`.
pub open spec fn pow10(n: nat) -> int
    decreases n,
{
    if n == 0 {
        1
    } else {
        10 * pow10((n - 1) as nat)
    }
}

/// Parses a maximal run of decimal digits from position `i` onto the
/// accumulator `acc`; at most 19 digits in all are accepted, so the
/// value stays well inside an unsigned 64-bit word.
pub open spec fn p_digits(s: Seq<char>, i: int, acc: int, count: int) -> Option<(int, int)>
    decreases s.len() - i,
{
    if 0 <= i < s.len() && is_digit(s[i]) {
        if count >= 19 {
            None
        } else {
            p_digits(s, i + 1, acc * 10 + digit_val(s[i]), count + 1)
        }
    } else {
        if count == 0 {
            None
        } else {
            Some((acc, i))
        }
    }
}

/// Parses a non-negative decimal number that fits a signed 64-bit
/// word.
pub open spec fn p_number(s: Seq<char>, i: int) -> Option<(int, int)> {
    match p_digits(s, i, 0, 0) {
        None => None,
        Some((v, j)) => if v > i64::MAX as int {
            None
        } else {
            Some((v, j))
        },
    }
}

/// Parses a boolean literal.
pub open spec fn p_bool(s: Seq<char>, i: int) -> Option<(bool, int)> {
    if lit_at(s, i, "true"@) {
        Some((true, i + "true"@.len()))
    } else if lit_at(s, i, "false"@) {
        Some((false, i + "false"@.len()))
    } else {
        None
    }
}

/// Skips a maximal non-empty run of decimal digits.
pub open spec fn p_skip_digits(s: Seq<char>, i: int) -> Option<int>
    decreases s.len() - i,
{
    if 0 <= i < s.len() && is_digit(s[i]) {
        match p_skip_digits(s, i + 1) {
            Some(j) => Some(j),
            None => Some(i + 1),
        }
    } else {
        None
    }
}

/// Skips a number of any numeric shape, sign, fraction and exponent
/// included; only its extent matters.
pub open spec fn p_skip_number(s: Seq<char>, i: int) -> Option<int> {
    let i1 = if 0 <= i < s.len() && s[i] == '-' {
        i + 1
    } else {
        i
    };
    match p_skip_digits(s, i1) {
        None => None,
        Some(j) => {
            let fr = if 0 <= j < s.len() && s[j] == '.' {
                p_skip_digits(s, j + 1)
            } else {
                Some(j)
            };
            match fr {
                None => None,
                Some(j2) => if 0 <= j2 < s.len() && (s[j2] == 'e' || s[j2] == 'E') {
                    let j3 = if j2 + 1 < s.len() && (s[j2 + 1] == '+' || s[j2 + 1] == '-') {
                        j2 + 2
                    } else {
                        j2 + 1
                    };
                    p_skip_digits(s, j3)
                } else {
                    Some(j2)
                },
            }
        },
    }
}

/// Skips one value of an unknown member: a string, number, boolean,
/// null, array or object; only its extent matters.
pub open spec fn p_skip_value(s: Seq<char>, i: int, fuel: nat) -> Option<int>
    decreases fuel,
{
    if fuel == 0 {
        None
    } else if !(0 <= i < s.len()) {
        None
    } else if s[i] == '"' {
        match p_strbody(s, i + 1) {
            None => None,
            Some((t, j)) => Some(j),
        }
    } else if lit_at(s, i, "true"@) {
        Some(i + "true"@.len())
    } else if lit_at(s, i, "false"@) {
        Some(i + "false"@.len())
    } else if lit_at(s, i, "null"@) {
        Some(i + "null"@.len())
    } else if s[i] == '[' {
        let j = p_ws(s, i + 1);
        if j < s.len() && s[j] == ']' {
            Some(j + 1)
        } else {
            p_skip_list(s, j, (fuel - 1) as nat)
        }
    } else if s[i] == '{' {
        let j = p_ws(s, i + 1);
        if j < s.len() && s[j] == '}' {
            Some(j + 1)
        } else {
            p_skip_object(s, j, (fuel - 1) as nat)
        }
    } else if s[i] == '-' || is_digit(s[i]) {
        p_skip_number(s, i)
    } else {
        None
    }
}

/// Skips the elements of a non-empty array, from its first element.
pub open spec fn p_skip_list(s: Seq<char>, i: int, fuel: nat) -> Option<int>
    decreases fuel,
{
    if fuel == 0 {
        None
    } else {
        match p_skip_value(s, i, (fuel - 1) as nat) {
            None => None,
            Some(j) => {
                let j2 = p_ws(s, j);
                if j2 < s.len() && s[j2] == ',' {
                    p_skip_list(s, p_ws(s, j2 + 1), (fuel - 1) as nat)
                } else if j2 < s.len() && s[j2] == ']' {
                    Some(j2 + 1)
                } else {
                    None
                }
            },
        }
    }
}

/// Skips the members of a non-empty object, from its first key.
pub open spec fn p_skip_object(s: Seq<char>, i: int, fuel: nat) -> Option<int>
    decreases fuel,
{
    if fuel == 0 {
        None
    } else if !(0 <= i < s.len() && s[i] == '"') {
        None
    } else {
        match p_strbody(s, i + 1) {
            None => None,
            Some((k, jk)) => {
                let jc = p_ws(s, jk);
                if !(jc < s.len() && s[jc] == ':') {
                    None
                } else {
                    match p_skip_value(s, p_ws(s, jc + 1), (fuel - 1) as nat) {
                        None => None,
                        Some(j) => {
                            let j2 = p_ws(s, j);
                            if j2 < s.len() && s[j2] == ',' {
                                p_skip_object(s, p_ws(s, j2 + 1), (fuel - 1) as nat)
                            } else if j2 < s.len() && s[j2] == '}' {
                                Some(j2 + 1)
                            } else {
                                None
                            }
                        },
                    }
                }
            },
        }
    }
}

/// The defaults a stored task's missing members take: empty text, zero
/// seconds, not done.
pub open spec fn default_task_view() -> TaskView {
    TaskView { text: Seq::<char>::empty(), seconds_estimated: 0, seconds_spent: 0, done: false }
}

/// Parses one member of a task object from its key and applies it to
/// the record: known members in their canonical spelling fast, any
/// other member through its parsed key, unknown keys skipped.
pub open spec fn p_one_member(s: Seq<char>, i: int, rec: TaskView, fuel: nat) -> Option<(TaskView, int)> {
    if lit_at(s, i, "\"text\":"@) {
        let j = p_ws(s, i + "\"text\":"@.len());
        if j < s.len() && s[j] == '"' {
            match p_strbody(s, j + 1) {
                None => None,
                Some((text, j2)) => Some((TaskView { text: text, ..rec }, j2)),
            }
        } else {
            None
        }
    } else if lit_at(s, i, "\"seconds_estimated\":"@) {
        match p_number(s, p_ws(s, i + "\"seconds_estimated\":"@.len())) {
            None => None,
            Some((v, j2)) => Some((TaskView { seconds_estimated: v, ..rec }, j2)),
        }
    } else if lit_at(s, i, "\"seconds_spent\":"@) {
        match p_number(s, p_ws(s, i + "\"seconds_spent\":"@.len())) {
            None => None,
            Some((v, j2)) => Some((TaskView { seconds_spent: v, ..rec }, j2)),
        }
    } else if lit_at(s, i, "\"done\":"@) {
        match p_bool(s, p_ws(s, i + "\"done\":"@.len())) {
            None => None,
            Some((b, j2)) => Some((TaskView { done: b, ..rec }, j2)),
        }
    } else {
        p_general_member(s, i, rec, fuel)
    }
}

/// A member whose key is not in its canonical spelling: the key is
/// parsed as a string and dispatched by its unescaped characters.
pub open spec fn p_general_member(s: Seq<char>, i: int, rec: TaskView, fuel: nat) -> Option<(TaskView, int)> {
    if !(0 <= i < s.len() && s[i] == '"') {
        None
    } else {
        match p_strbody(s, i + 1) {
            None => None,
            Some((key, jk)) => {
                let jc = p_ws(s, jk);
                if !(jc < s.len() && s[jc] == ':') {
                    None
                } else {
                    let jv = p_ws(s, jc + 1);
                    if key == "text"@ {
                        if jv < s.len() && s[jv] == '"' {
                            match p_strbody(s, jv + 1) {
                                None => None,
                                Some((text, j2)) => Some((TaskView { text: text, ..rec }, j2)),
                            }
                        } else {
                            None
                        }
                    } else if key == "seconds_estimated"@ {
                        match p_number(s, jv) {
                            None => None,
                            Some((v, j2)) => Some((TaskView { seconds_estimated: v, ..rec }, j2)),
                        }
                    } else if key == "seconds_spent"@ {
                        match p_number(s, jv) {
                            None => None,
                            Some((v, j2)) => Some((TaskView { seconds_spent: v, ..rec }, j2)),
                        }
                    } else if key == "done"@ {
                        match p_bool(s, jv) {
                            None => None,
                            Some((b, j2)) => Some((TaskView { done: b, ..rec }, j2)),
                        }
                    } else {
                        match p_skip_value(s, jv, fuel) {
                            None => None,
                            Some(j2) => Some((rec, j2)),
                        }
                    }
                }
            },
        }
    }
}

/// Parses the members of a non-empty task object, from the first key
/// up to and over the closing brace.
pub open spec fn p_members(s: Seq<char>, i: int, rec: TaskView, fuel: nat) -> Option<(TaskView, int)>
    decreases fuel,
{
    if fuel == 0 {
        None
    } else {
        match p_one_member(s, i, rec, fuel) {
            None => None,
            Some((rec2, j2)) => {
                let j3 = p_ws(s, j2);
                if j3 < s.len() && s[j3] == ',' {
                    p_members(s, p_ws(s, j3 + 1), rec2, (fuel - 1) as nat)
                } else if j3 < s.len() && s[j3] == '}' {
                    Some((rec2, j3 + 1))
                } else {
                    None
                }
            },
        }
    }
}

/// Parses one task object: members in any order, unknown members
/// skipped, missing members at their defaults.
pub open spec fn p_task(s: Seq<char>, i: int, fuel: nat) -> Option<(TaskView, int)> {
    if !(0 <= i < s.len() && s[i] == '{') {
        None
    } else {
        let j = p_ws(s, i + 1);
        if j < s.len() && s[j] == '}' {
            Some((default_task_view(), j + 1))
        } else {
            p_members(s, j, default_task_view(), fuel)
        }
    }
}

/// Parses the elements of a non-empty task array, from the first task
/// up to and over the closing bracket.
pub open spec fn p_tasks(s: Seq<char>, i: int, fuel: nat) -> Option<(Seq<TaskView>, int)>
    decreases fuel,
{
    if fuel == 0 {
        None
    } else {
        match p_task(s, i, fuel) {
            None => None,
            Some((t, j)) => {
                let j2 = p_ws(s, j);
                if j2 < s.len() && s[j2] == ',' {
                    match p_tasks(s, p_ws(s, j2 + 1), (fuel - 1) as nat) {
                        None => None,
                        Some((ts, k)) => Some((seq![t] + ts, k)),
                    }
                } else if j2 < s.len() && s[j2] == ']' {
                    Some((seq![t], j2 + 1))
                } else {
                    None
                }
            },
        }
    }
}

/// Parses the value of the tasks member: an array of task objects.
pub open spec fn p_tasks_value(s: Seq<char>, i: int, fuel: nat) -> Option<(Seq<TaskView>, int)> {
    if !(0 <= i < s.len() && s[i] == '[') {
        None
    } else {
        let j = p_ws(s, i + 1);
        if j < s.len() && s[j] == ']' {
            Some((Seq::<TaskView>::empty(), j + 1))
        } else {
            p_tasks(s, j, fuel)
        }
    }
}

/// One member of the top-level object: the tasks member is kept, any
/// other member is skipped.
pub open spec fn p_db_one_member(
    s: Seq<char>,
    i: int,
    acc: Option<Seq<TaskView>>,
    fuel: nat,
) -> Option<(Option<Seq<TaskView>>, int)> {
    if lit_at(s, i, "\"tasks\":"@) {
        match p_tasks_value(s, p_ws(s, i + "\"tasks\":"@.len()), fuel) {
            None => None,
            Some((ts, j)) => Some((Some(ts), j)),
        }
    } else if 0 <= i < s.len() && s[i] == '"' {
        match p_strbody(s, i + 1) {
            None => None,
            Some((key, jk)) => {
                let jc = p_ws(s, jk);
                if !(jc < s.len() && s[jc] == ':') {
                    None
                } else {
                    let jv = p_ws(s, jc + 1);
                    if key == "tasks"@ {
                        match p_tasks_value(s, jv, fuel) {
                            None => None,
                            Some((ts, j)) => Some((Some(ts), j)),
                        }
                    } else {
                        match p_skip_value(s, jv, fuel) {
                            None => None,
                            Some(j) => Some((acc, j)),
                        }
                    }
                }
            },
        }
    } else {
        None
    }
}

/// Parses the members of the non-empty top-level object, from the
/// first key up to and over the closing brace.
pub open spec fn p_db_members(
    s: Seq<char>,
    i: int,
    acc: Option<Seq<TaskView>>,
    fuel: nat,
) -> Option<(Option<Seq<TaskView>>, int)>
    decreases fuel,
{
    if fuel == 0 {
        None
    } else {
        match p_db_one_member(s, i, acc, fuel) {
            None => None,
            Some((acc2, j)) => {
                let j2 = p_ws(s, j);
                if j2 < s.len() && s[j2] == ',' {
                    p_db_members(s, p_ws(s, j2 + 1), acc2, (fuel - 1) as nat)
                } else if j2 < s.len() && s[j2] == '}' {
                    Some((acc2, j2 + 1))
                } else {
                    None
                }
            },
        }
    }
}

/// Parses a whole stored task list: one object whose tasks member
/// holds the array, spanning the entire input up to trailing
/// whitespace. The tasks member is required, as the stored shape has
/// always carried it.
pub open spec fn p_db(s: Seq<char>) -> Option<Seq<TaskView>> {
    let i0 = p_ws(s, 0);
    if !(i0 < s.len() && s[i0] == '{') {
        None
    } else {
        let j = p_ws(s, i0 + 1);
        if j < s.len() && s[j] == '}' {
            None
        } else {
            match p_db_members(s, j, None, s.len()) {
                None => None,
                Some((acc, j2)) => if p_ws(s, j2) == s.len() {
                    acc
                } else {
                    None
                },
            }
        }
    }
}

/// Whether the characters of `lit` stand in `s` at position `i`,
/// executably.
fn match_lit(s: &Vec<char>, i: usize, lit: &str) -> (b: bool)
    ensures
        b == lit_at(s@, i as int, lit@),
{
    let n = lit.unicode_len();
    let len = s.len();
    if i > len || n > len - i {
        assert(!lit_at(s@, i as int, lit@));
        return false;
    }
    let mut k: usize = 0;
    while k < n
        invariant
            n == lit@.len(),
            len == s@.len(),
            i + n <= len,
            k <= n,
            forall|m: int| 0 <= m < k ==> s@[i + m] == lit@[m],
        decreases n - k,
    {
        if s[i + k] != lit.get_char(k) {
            assert(s@.subrange(i as int, i as int + lit@.len())[k as int] != lit@[k as int]);
            return false;
        }
        k = k + 1;
    }
    assert(s@.subrange(i as int, i as int + lit@.len()) =~= lit@);
    true
}

/// Whether the parsed characters are exactly those of `lit`.
fn chars_eq_lit(v: &Vec<char>, lit: &str) -> (b: bool)
    ensures
        b == (v@ == lit@),
{
    let n = lit.unicode_len();
    if v.len() != n {
        return false;
    }
    let mut k: usize = 0;
    while k < n
        invariant
            n == lit@.len(),
            v@.len() == n,
            k <= n,
            forall|m: int| 0 <= m < k ==> v@[m] == lit@[m],
        decreases n - k,
    {
        if v[k] != lit.get_char(k) {
            return false;
        }
        k = k + 1;
    }
    assert(v@ =~= lit@);
    true
}

fn skip_ws_x(s: &Vec<char>, i: usize) -> (j: usize)
    ensures
        j as int == p_ws(s@, i as int),
        i <= j,
    decreases s@.len() - i,
{
    if i < s.len() {
        let c = s[i];
        if c == ' ' || c == '\t' || c == '\n' || c == '\r' {
            return skip_ws_x(s, i + 1);
        }
    }
    i
}

fn unescape_char_x(c: char) -> (r: Option<char>)
    ensures
        r == unescape_char(c),
{
    match c {
        '"' => Some('"'),
        '\\' => Some('\\'),
        '/' => Some('/'),
        'n' => Some('\n'),
        't' => Some('\t'),
        'r' => Some('\r'),
        'b' => Some('\u{8}'),
        'f' => Some('\u{c}'),
        _ => None,
    }
}

fn digit_val_x(c: char) -> (r: i64)
    ensures
        r as int == digit_val(c),
{
    match c {
        '0' => 0,
        '1' => 1,
        '2' => 2,
        '3' => 3,
        '4' => 4,
        '5' => 5,
        '6' => 6,
        '7' => 7,
        '8' => 8,
        '9' => 9,
        _ => -1,
    }
}

fn hex_val_x(c: char) -> (r: i64)
    ensures
        r as int == hex_val(c),
{
    match c {
        '0' => 0,
        '1' => 1,
        '2' => 2,
        '3' => 3,
        '4' => 4,
        '5' => 5,
        '6' => 6,
        '7' => 7,
        '8' => 8,
        '9' => 9,
        'a' | 'A' => 10,
        'b' | 'B' => 11,
        'c' | 'C' => 12,
        'd' | 'D' => 13,
        'e' | 'E' => 14,
        'f' | 'F' => 15,
        _ => -1,
    }
}

fn p_strbody_x(s: &Vec<char>, i: usize) -> (r: Option<(Vec<char>, usize)>)
    ensures
        r is None <==> p_strbody(s@, i as int) is None,
        r matches Some((t, j)) ==> p_strbody(s@, i as int) == Some((t@, j as int)),
    decreases s@.len() - i,
{
    if i >= s.len() {
        None
    } else if s[i] == '"' {
        Some((Vec::new(), i + 1))
    } else if s[i] == '\\' {
        if i + 1 >= s.len() {
            None
        } else if s[i + 1] == 'u' {
            if s.len() - i < 6 {
                assert(i + 6 > s@.len());
                None
            } else {
                let h1 = hex_val_x(s[i + 2]);
                let h2 = hex_val_x(s[i + 3]);
                let h3 = hex_val_x(s[i + 4]);
                let h4 = hex_val_x(s[i + 5]);
                let v: i64 = h1 * 4096 + h2 * 256 + h3 * 16 + h4;
                if h1 < 0 || h2 < 0 || h3 < 0 || h4 < 0 || v > 0xFF {
                    None
                } else {
                    match p_strbody_x(s, i + 6) {
                        None => None,
                        Some((mut t, j)) => {
                            let c = (v as u8) as char;
                            assert(c == char_of(v as u32));
                            let ghost prev = t@;
                            t.insert(0, c);
                            assert(t@ =~= seq![c] + prev);
                            Some((t, j))
                        },
                    }
                }
            }
        } else {
            match unescape_char_x(s[i + 1]) {
                None => None,
                Some(ec) => match p_strbody_x(s, i + 2) {
                    None => None,
                    Some((mut t, j)) => {
                        let ghost prev = t@;
                        t.insert(0, ec);
                        assert(t@ =~= seq![ec] + prev);
                        Some((t, j))
                    },
                },
            }
        }
    } else {
        let c = s[i];
        match p_strbody_x(s, i + 1) {
            None => None,
            Some((mut t, j)) => {
                let ghost prev = t@;
                t.insert(0, c);
                assert(t@ =~= seq![c] + prev);
                Some((t, j))
            },
        }
    }
}

proof fn lemma_pow10_pos(n: nat)
    ensures
        pow10(n) >= 1,
    decreases n,
{
    if n > 0 {
        lemma_pow10_pos((n - 1) as nat);
    }
}

proof fn lemma_pow10_19()
    ensures
        pow10(19) == 10_000_000_000_000_000_000,
{
    assert(pow10(0) == 1);
    assert(pow10(1) == 10);
    assert(pow10(2) == 100);
    assert(pow10(3) == 1000);
    assert(pow10(4) == 10000);
    assert(pow10(5) == 100000);
    assert(pow10(6) == 1000000);
    assert(pow10(7) == 10000000);
    assert(pow10(8) == 100000000);
    assert(pow10(9) == 1000000000);
    assert(pow10(10) == 10000000000);
    assert(pow10(11) == 100000000000);
    assert(pow10(12) == 1000000000000);
    assert(pow10(13) == 10000000000000);
    assert(pow10(14) == 100000000000000);
    assert(pow10(15) == 1000000000000000);
    assert(pow10(16) == 10000000000000000);
    assert(pow10(17) == 100000000000000000);
    assert(pow10(18) == 1000000000000000000);
    assert(pow10(19) == 10000000000000000000);
}

proof fn lemma_pow10_mono(a: nat, b: nat)
    requires
        a <= b,
    ensures
        pow10(a) <= pow10(b),
    decreases b,
{
    if a < b {
        lemma_pow10_mono(a, (b - 1) as nat);
        lemma_pow10_pos((b - 1) as nat);
    }
}

fn p_digits_x(s: &Vec<char>, i: usize, acc: u64, count: u8) -> (r: Option<(u64, usize)>)
    requires
        count <= 19,
        acc < pow10(count as nat),
    ensures
        r is None <==> p_digits(s@, i as int, acc as int, count as int) is None,
        r matches Some((v, j)) ==> p_digits(s@, i as int, acc as int, count as int) == Some((v as int, j as int)),
    decreases s@.len() - i,
{
    if i < s.len() {
        let d = digit_val_x(s[i]);
        if d >= 0 {
            if count >= 19 {
                return None;
            }
            proof {
                lemma_pow10_mono((count + 1) as nat, 19);
                lemma_pow10_19();
                assert(pow10((count + 1) as nat) == 10 * pow10(count as nat));
            }
            return p_digits_x(s, i + 1, acc * 10 + (d as u64), count + 1);
        }
    }
    if count == 0 {
        None
    } else {
        Some((acc, i))
    }
}

fn p_number_x(s: &Vec<char>, i: usize) -> (r: Option<(i64, usize)>)
    ensures
        r is None <==> p_number(s@, i as int) is None,
        r matches Some((v, j)) ==> p_number(s@, i as int) == Some((v as int, j as int)),
{
    match p_digits_x(s, i, 0, 0) {
        None => None,
        Some((v, j)) => if v > i64::MAX as u64 {
            None
        } else {
            Some((v as i64, j))
        },
    }
}

fn p_bool_x(s: &Vec<char>, i: usize) -> (r: Option<(bool, usize)>)
    ensures
        r is None <==> p_bool(s@, i as int) is None,
        r matches Some((b, j)) ==> p_bool(s@, i as int) == Some((b, j as int)),
{
    let slen = s.len();
    assert(s@.len() == slen as int);
    let lt = "true";
    let lf = "false";
    if match_lit(s, i, lt) {
        Some((true, i + lt.unicode_len()))
    } else if match_lit(s, i, lf) {
        Some((false, i + lf.unicode_len()))
    } else {
        None
    }
}

fn p_skip_digits_x(s: &Vec<char>, i: usize) -> (r: Option<usize>)
    ensures
        r is None <==> p_skip_digits(s@, i as int) is None,
        r matches Some(j) ==> p_skip_digits(s@, i as int) == Some(j as int),
    decreases s@.len() - i,
{
    if i < s.len() && digit_val_x(s[i]) >= 0 {
        match p_skip_digits_x(s, i + 1) {
            Some(j) => Some(j),
            None => Some(i + 1),
        }
    } else {
        None
    }
}

fn p_skip_number_x(s: &Vec<char>, i: usize) -> (r: Option<usize>)
    ensures
        r is None <==> p_skip_number(s@, i as int) is None,
        r matches Some(j) ==> p_skip_number(s@, i as int) == Some(j as int),
{
    let slen = s.len();
    let i1 = if i < slen && s[i] == '-' {
        i + 1
    } else {
        i
    };
    match p_skip_digits_x(s, i1) {
        None => None,
        Some(j) => {
            let fr = if j < slen && s[j] == '.' {
                p_skip_digits_x(s, j + 1)
            } else {
                Some(j)
            };
            match fr {
                None => None,
                Some(j2) => {
                    if j2 < slen && (s[j2] == 'e' || s[j2] == 'E') {
                        let j3 = if j2 + 1 < slen && (s[j2 + 1] == '+' || s[j2 + 1] == '-') {
                            j2 + 2
                        } else {
                            j2 + 1
                        };
                        p_skip_digits_x(s, j3)
                    } else {
                        Some(j2)
                    }
                },
            }
        },
    }
}

fn p_skip_value_x(s: &Vec<char>, i: usize, fuel: usize) -> (r: Option<usize>)
    ensures
        r is None <==> p_skip_value(s@, i as int, fuel as nat) is None,
        r matches Some(j) ==> p_skip_value(s@, i as int, fuel as nat) == Some(j as int),
    decreases fuel,
{
    if fuel == 0 {
        return None;
    }
    let slen = s.len();
    assert(s@.len() == slen as int);
    if i >= slen {
        return None;
    }
    let c = s[i];
    if c == '"' {
        match p_strbody_x(s, i + 1) {
            None => None,
            Some((t, j)) => Some(j),
        }
    } else if match_lit(s, i, "true") {
        proof {
            reveal_strlit("true");
        }
        Some(i + 4)
    } else if match_lit(s, i, "false") {
        proof {
            reveal_strlit("false");
        }
        Some(i + 5)
    } else if match_lit(s, i, "null") {
        proof {
            reveal_strlit("null");
        }
        Some(i + 4)
    } else if c == '[' {
        let j = skip_ws_x(s, i + 1);
        if j < slen && s[j] == ']' {
            Some(j + 1)
        } else {
            p_skip_list_x(s, j, fuel - 1)
        }
    } else if c == '{' {
        let j = skip_ws_x(s, i + 1);
        if j < slen && s[j] == '}' {
            Some(j + 1)
        } else {
            p_skip_object_x(s, j, fuel - 1)
        }
    } else if c == '-' || digit_val_x(c) >= 0 {
        p_skip_number_x(s, i)
    } else {
        None
    }
}

fn p_skip_list_x(s: &Vec<char>, i: usize, fuel: usize) -> (r: Option<usize>)
    ensures
        r is None <==> p_skip_list(s@, i as int, fuel as nat) is None,
        r matches Some(j) ==> p_skip_list(s@, i as int, fuel as nat) == Some(j as int),
    decreases fuel,
{
    if fuel == 0 {
        return None;
    }
    let slen = s.len();
    match p_skip_value_x(s, i, fuel - 1) {
        None => None,
        Some(j) => {
            let j2 = skip_ws_x(s, j);
            if j2 < slen && s[j2] == ',' {
                p_skip_list_x(s, skip_ws_x(s, j2 + 1), fuel - 1)
            } else if j2 < slen && s[j2] == ']' {
                Some(j2 + 1)
            } else {
                None
            }
        },
    }
}

fn p_skip_object_x(s: &Vec<char>, i: usize, fuel: usize) -> (r: Option<usize>)
    ensures
        r is None <==> p_skip_object(s@, i as int, fuel as nat) is None,
        r matches Some(j) ==> p_skip_object(s@, i as int, fuel as nat) == Some(j as int),
    decreases fuel,
{
    if fuel == 0 {
        return None;
    }
    let slen = s.len();
    if !(i < slen && s[i] == '"') {
        return None;
    }
    match p_strbody_x(s, i + 1) {
        None => None,
        Some((k, jk)) => {
            let jc = skip_ws_x(s, jk);
            if !(jc < slen && s[jc] == ':') {
                return None;
            }
            match p_skip_value_x(s, skip_ws_x(s, jc + 1), fuel - 1) {
                None => None,
                Some(j) => {
                    let j2 = skip_ws_x(s, j);
                    if j2 < slen && s[j2] == ',' {
                        p_skip_object_x(s, skip_ws_x(s, j2 + 1), fuel - 1)
                    } else if j2 < slen && s[j2] == '}' {
                        Some(j2 + 1)
                    } else {
                        None
                    }
                },
            }
        },
    }
}

fn p_general_member_x(s: &Vec<char>, i: usize, rec: Task, fuel: usize) -> (r: Option<(Task, usize)>)
    ensures
        r is None <==> p_general_member(s@, i as int, rec@, fuel as nat) is None,
        r matches Some((t, j)) ==> p_general_member(s@, i as int, rec@, fuel as nat) == Some((t@, j as int)),
{
    let slen = s.len();
    if !(i < slen && s[i] == '"') {
        return None;
    }
    match p_strbody_x(s, i + 1) {
        None => None,
        Some((key, jk)) => {
            let jc = skip_ws_x(s, jk);
            if !(jc < slen && s[jc] == ':') {
                return None;
            }
            let jv = skip_ws_x(s, jc + 1);
            if chars_eq_lit(&key, "text") {
                if jv < slen && s[jv] == '"' {
                    match p_strbody_x(s, jv + 1) {
                        None => None,
                        Some((tv, j2)) => Some((Task { text: chars_to_string(&tv), ..rec }, j2)),
                    }
                } else {
                    None
                }
            } else if chars_eq_lit(&key, "seconds_estimated") {
                match p_number_x(s, jv) {
                    None => None,
                    Some((v, j2)) => Some((Task { seconds_estimated: v, ..rec }, j2)),
                }
            } else if chars_eq_lit(&key, "seconds_spent") {
                match p_number_x(s, jv) {
                    None => None,
                    Some((v, j2)) => Some((Task { seconds_spent: v, ..rec }, j2)),
                }
            } else if chars_eq_lit(&key, "done") {
                match p_bool_x(s, jv) {
                    None => None,
                    Some((b, j2)) => Some((Task { done: b, ..rec }, j2)),
                }
            } else {
                match p_skip_value_x(s, jv, fuel) {
                    None => None,
                    Some(j2) => Some((rec, j2)),
                }
            }
        },
    }
}

fn p_one_member_x(s: &Vec<char>, i: usize, rec: Task, fuel: usize) -> (r: Option<(Task, usize)>)
    ensures
        r is None <==> p_one_member(s@, i as int, rec@, fuel as nat) is None,
        r matches Some((t, j)) ==> p_one_member(s@, i as int, rec@, fuel as nat) == Some((t@, j as int)),
{
    let slen = s.len();
    assert(s@.len() == slen as int);
    let lt = "\"text\":";
    let le = "\"seconds_estimated\":";
    let ls = "\"seconds_spent\":";
    let ld = "\"done\":";
    if match_lit(s, i, lt) {
        let j = skip_ws_x(s, i + lt.unicode_len());
        if j < slen && s[j] == '"' {
            match p_strbody_x(s, j + 1) {
                None => None,
                Some((tv, j2)) => Some((Task { text: chars_to_string(&tv), ..rec }, j2)),
            }
        } else {
            None
        }
    } else if match_lit(s, i, le) {
        match p_number_x(s, skip_ws_x(s, i + le.unicode_len())) {
            None => None,
            Some((v, j2)) => Some((Task { seconds_estimated: v, ..rec }, j2)),
        }
    } else if match_lit(s, i, ls) {
        match p_number_x(s, skip_ws_x(s, i + ls.unicode_len())) {
            None => None,
            Some((v, j2)) => Some((Task { seconds_spent: v, ..rec }, j2)),
        }
    } else if match_lit(s, i, ld) {
        match p_bool_x(s, skip_ws_x(s, i + ld.unicode_len())) {
            None => None,
            Some((b, j2)) => Some((Task { done: b, ..rec }, j2)),
        }
    } else {
        p_general_member_x(s, i, rec, fuel)
    }
}

fn p_members_x(s: &Vec<char>, i: usize, rec: Task, fuel: usize) -> (r: Option<(Task, usize)>)
    ensures
        r is None <==> p_members(s@, i as int, rec@, fuel as nat) is None,
        r matches Some((t, j)) ==> p_members(s@, i as int, rec@, fuel as nat) == Some((t@, j as int)),
    decreases fuel,
{
    if fuel == 0 {
        return None;
    }
    let slen = s.len();
    match p_one_member_x(s, i, rec, fuel) {
        None => None,
        Some((rec2, j2)) => {
            let j3 = skip_ws_x(s, j2);
            if j3 < slen && s[j3] == ',' {
                p_members_x(s, skip_ws_x(s, j3 + 1), rec2, fuel - 1)
            } else if j3 < slen && s[j3] == '}' {
                Some((rec2, j3 + 1))
            } else {
                None
            }
        },
    }
}

fn p_task_x(s: &Vec<char>, i: usize, fuel: usize) -> (r: Option<(Task, usize)>)
    ensures
        r is None <==> p_task(s@, i as int, fuel as nat) is None,
        r matches Some((t, j)) ==> p_task(s@, i as int, fuel as nat) == Some((t@, j as int)),
{
    let slen = s.len();
    if !(i < slen && s[i] == '{') {
        return None;
    }
    let blank = Task {
        text: String::new(),
        seconds_estimated: 0,
        seconds_spent: 0,
        done: false,
    };
    assert(blank@ == default_task_view());
    let j = skip_ws_x(s, i + 1);
    if j < slen && s[j] == '}' {
        Some((blank, j + 1))
    } else {
        p_members_x(s, j, blank, fuel)
    }
}

fn p_tasks_x(s: &Vec<char>, i: usize, fuel: usize) -> (r: Option<(Vec<Task>, usize)>)
    ensures
        r is None <==> p_tasks(s@, i as int, fuel as nat) is None,
        r matches Some((ts, k)) ==> p_tasks(s@, i as int, fuel as nat) == Some((
            ts@.map_values(|x: Task| x@),
            k as int,
        )),
    decreases fuel,
{
    if fuel == 0 {
        return None;
    }
    let slen = s.len();
    match p_task_x(s, i, fuel) {
        None => None,
        Some((t, j)) => {
            let j2 = skip_ws_x(s, j);
            if j2 < slen && s[j2] == ',' {
                match p_tasks_x(s, skip_ws_x(s, j2 + 1), fuel - 1) {
                    None => None,
                    Some((mut ts, k)) => {
                        let ghost prev = ts@;
                        ts.insert(0, t);
                        assert(ts@.map_values(|x: Task| x@) =~= seq![t@] + prev.map_values(
                            |x: Task| x@,
                        ));
                        Some((ts, k))
                    },
                }
            } else if j2 < slen && s[j2] == ']' {
                let mut ts: Vec<Task> = Vec::new();
                ts.push(t);
                assert(ts@.map_values(|x: Task| x@) =~= seq![t@]);
                Some((ts, j2 + 1))
            } else {
                None
            }
        },
    }
}

fn p_tasks_value_x(s: &Vec<char>, i: usize, fuel: usize) -> (r: Option<(Vec<Task>, usize)>)
    ensures
        r is None <==> p_tasks_value(s@, i as int, fuel as nat) is None,
        r matches Some((ts, k)) ==> p_tasks_value(s@, i as int, fuel as nat) == Some((
            ts@.map_values(|x: Task| x@),
            k as int,
        )),
{
    let slen = s.len();
    if !(i < slen && s[i] == '[') {
        return None;
    }
    let j = skip_ws_x(s, i + 1);
    if j < slen && s[j] == ']' {
        let ts: Vec<Task> = Vec::new();
        assert(ts@.map_values(|x: Task| x@) =~= Seq::<TaskView>::empty());
        Some((ts, j + 1))
    } else {
        p_tasks_x(s, j, fuel)
    }
}

fn p_db_one_member_x(s: &Vec<char>, i: usize, acc: Option<Vec<Task>>, fuel: usize) -> (r: Option<
    (Option<Vec<Task>>, usize),
>)
    ensures
        r is None <==> p_db_one_member(s@, i as int, view_of_acc(acc), fuel as nat) is None,
        r matches Some((a, j)) ==> p_db_one_member(s@, i as int, view_of_acc(acc), fuel as nat)
            == Some((view_of_acc(a), j as int)),
{
    let slen = s.len();
    assert(s@.len() == slen as int);
    let lt = "\"tasks\":";
    if match_lit(s, i, lt) {
        match p_tasks_value_x(s, skip_ws_x(s, i + lt.unicode_len()), fuel) {
            None => None,
            Some((ts, j)) => Some((Some(ts), j)),
        }
    } else if i < slen && s[i] == '"' {
        match p_strbody_x(s, i + 1) {
            None => None,
            Some((key, jk)) => {
                let jc = skip_ws_x(s, jk);
                if !(jc < slen && s[jc] == ':') {
                    return None;
                }
                let jv = skip_ws_x(s, jc + 1);
                if chars_eq_lit(&key, "tasks") {
                    match p_tasks_value_x(s, jv, fuel) {
                        None => None,
                        Some((ts, j)) => Some((Some(ts), j)),
                    }
                } else {
                    match p_skip_value_x(s, jv, fuel) {
                        None => None,
                        Some(j) => Some((acc, j)),
                    }
                }
            },
        }
    } else {
        None
    }
}

fn p_db_members_x(s: &Vec<char>, i: usize, acc: Option<Vec<Task>>, fuel: usize) -> (r: Option<
    (Option<Vec<Task>>, usize),
>)
    ensures
        r is None <==> p_db_members(s@, i as int, view_of_acc(acc), fuel as nat) is None,
        r matches Some((a, j)) ==> p_db_members(s@, i as int, view_of_acc(acc), fuel as nat)
            == Some((view_of_acc(a), j as int)),
    decreases fuel,
{
    if fuel == 0 {
        return None;
    }
    let slen = s.len();
    match p_db_one_member_x(s, i, acc, fuel) {
        None => None,
        Some((acc2, j)) => {
            let j2 = skip_ws_x(s, j);
            if j2 < slen && s[j2] == ',' {
                p_db_members_x(s, skip_ws_x(s, j2 + 1), acc2, fuel - 1)
            } else if j2 < slen && s[j2] == '}' {
                Some((acc2, j2 + 1))
            } else {
                None
            }
        },
    }
}

/// The mathematical value of the optional tasks accumulator.
pub open spec fn view_of_acc(acc: Option<Vec<Task>>) -> Option<Seq<TaskView>> {
    match acc {
        None => None,
        Some(ts) => Some(ts@.map_values(|x: Task| x@)),
    }
}

// ---------------------------------------------------------------------
// Every decoded task is well formed
// ---------------------------------------------------------------------
proof fn lemma_p_digits_nonneg(s: Seq<char>, i: int, acc: int, count: int)
    requires
        acc >= 0,
    ensures
        p_digits(s, i, acc, count) matches Some((v, j)) ==> v >= 0,
    decreases s.len() - i,
{
    if 0 <= i < s.len() && is_digit(s[i]) && count < 19 {
        lemma_p_digits_nonneg(s, i + 1, acc * 10 + digit_val(s[i]), count + 1);
    }
}

proof fn lemma_p_number_nonneg(s: Seq<char>, i: int)
    ensures
        p_number(s, i) matches Some((v, j)) ==> 0 <= v <= i64::MAX as int,
{
    lemma_p_digits_nonneg(s, i, 0, 0);
}

/// Every task of the sequence is well formed.
pub open spec fn tasks_wf(ts: Seq<TaskView>) -> bool {
    forall|k: int| 0 <= k < ts.len() ==> (#[trigger] ts[k]).wf()
}

spec fn acc_wf(acc: Option<Seq<TaskView>>) -> bool {
    match acc {
        None => true,
        Some(ts) => tasks_wf(ts),
    }
}

proof fn lemma_p_general_member_wf(s: Seq<char>, i: int, rec: TaskView, fuel: nat)
    requires
        rec.wf(),
    ensures
        p_general_member(s, i, rec, fuel) matches Some((r2, j)) ==> r2.wf(),
{
    if 0 <= i < s.len() && s[i] == '"' {
        match p_strbody(s, i + 1) {
            None => {},
            Some((key, jk)) => {
                let jc = p_ws(s, jk);
                if jc < s.len() && s[jc] == ':' {
                    lemma_p_number_nonneg(s, p_ws(s, jc + 1));
                }
            },
        }
    }
}

proof fn lemma_p_one_member_wf(s: Seq<char>, i: int, rec: TaskView, fuel: nat)
    requires
        rec.wf(),
    ensures
        p_one_member(s, i, rec, fuel) matches Some((r2, j)) ==> r2.wf(),
{
    lemma_p_general_member_wf(s, i, rec, fuel);
    lemma_p_number_nonneg(s, p_ws(s, i + "\"seconds_estimated\":"@.len()));
    lemma_p_number_nonneg(s, p_ws(s, i + "\"seconds_spent\":"@.len()));
}

proof fn lemma_p_members_wf(s: Seq<char>, i: int, rec: TaskView, fuel: nat)
    requires
        rec.wf(),
    ensures
        p_members(s, i, rec, fuel) matches Some((t, j)) ==> t.wf(),
    decreases fuel,
{
    if fuel > 0 {
        lemma_p_one_member_wf(s, i, rec, fuel);
        match p_one_member(s, i, rec, fuel) {
            None => {},
            Some((rec2, j2)) => {
                let j3 = p_ws(s, j2);
                if j3 < s.len() && s[j3] == ',' {
                    lemma_p_members_wf(s, p_ws(s, j3 + 1), rec2, (fuel - 1) as nat);
                }
            },
        }
    }
}

proof fn lemma_p_task_wf(s: Seq<char>, i: int, fuel: nat)
    ensures
        p_task(s, i, fuel) matches Some((t, j)) ==> t.wf(),
{
    if 0 <= i < s.len() && s[i] == '{' {
        lemma_p_members_wf(s, p_ws(s, i + 1), default_task_view(), fuel);
    }
}

proof fn lemma_p_tasks_wf(s: Seq<char>, i: int, fuel: nat)
    ensures
        p_tasks(s, i, fuel) matches Some((ts, k)) ==> tasks_wf(ts),
    decreases fuel,
{
    if fuel > 0 {
        lemma_p_task_wf(s, i, fuel);
        match p_task(s, i, fuel) {
            None => {},
            Some((t, j)) => {
                let j2 = p_ws(s, j);
                if j2 < s.len() && s[j2] == ',' {
                    lemma_p_tasks_wf(s, p_ws(s, j2 + 1), (fuel - 1) as nat);
                }
            },
        }
    }
}

proof fn lemma_p_tasks_value_wf(s: Seq<char>, i: int, fuel: nat)
    ensures
        p_tasks_value(s, i, fuel) matches Some((ts, k)) ==> tasks_wf(ts),
{
    if 0 <= i < s.len() && s[i] == '[' {
        lemma_p_tasks_wf(s, p_ws(s, i + 1), fuel);
    }
}

proof fn lemma_p_db_one_member_wf(s: Seq<char>, i: int, acc: Option<Seq<TaskView>>, fuel: nat)
    requires
        acc_wf(acc),
    ensures
        p_db_one_member(s, i, acc, fuel) matches Some((a, j)) ==> acc_wf(a),
{
    lemma_p_tasks_value_wf(s, p_ws(s, i + "\"tasks\":"@.len()), fuel);
    if 0 <= i < s.len() && s[i] == '"' {
        match p_strbody(s, i + 1) {
            None => {},
            Some((key, jk)) => {
                let jc = p_ws(s, jk);
                if jc < s.len() && s[jc] == ':' {
                    lemma_p_tasks_value_wf(s, p_ws(s, jc + 1), fuel);
                }
            },
        }
    }
}

proof fn lemma_p_db_members_wf(s: Seq<char>, i: int, acc: Option<Seq<TaskView>>, fuel: nat)
    requires
        acc_wf(acc),
    ensures
        p_db_members(s, i, acc, fuel) matches Some((a, j)) ==> acc_wf(a),
    decreases fuel,
{
    if fuel > 0 {
        lemma_p_db_one_member_wf(s, i, acc, fuel);
        match p_db_one_member(s, i, acc, fuel) {
            None => {},
            Some((a2, j)) => {
                let j2 = p_ws(s, j);
                if j2 < s.len() && s[j2] == ',' {
                    lemma_p_db_members_wf(s, p_ws(s, j2 + 1), a2, (fuel - 1) as nat);
                }
            },
        }
    }
}

// ---------------------------------------------------------------------
// Decoding inverts encoding
// ---------------------------------------------------------------------
proof fn lemma_piece_at(s: Seq<char>, i: int, w: Seq<char>, off: int, p: Seq<char>)
    requires
        0 <= i,
        i + w.len() <= s.len(),
        s.subrange(i, i + w.len()) == w,
        0 <= off,
        off + p.len() <= w.len(),
        forall|m: int| 0 <= m < p.len() ==> #[trigger] p[m] == w[off + m],
    ensures
        s.subrange(i + off, i + off + p.len()) == p,
{
    assert forall|m: int| 0 <= m < p.len() implies s.subrange(i + off, i + off + p.len())[m]
        == p[m] by {
        assert(s.subrange(i + off, i + off + p.len())[m] == s[i + off + m]);
        assert(s.subrange(i, i + w.len())[off + m] == s[i + off + m]);
        assert(p[m] == w[off + m]);
    }
    assert(s.subrange(i + off, i + off + p.len()) =~= p);
}

proof fn lemma_char_at(s: Seq<char>, p: int, c: char)
    requires
        0 <= p,
        p + 1 <= s.len(),
        s.subrange(p, p + 1) == seq![c],
    ensures
        s[p] == c,
{
    assert(s.subrange(p, p + 1)[0] == s[p]);
    assert(seq![c][0] == c);
}

proof fn lemma_lit_char(s: Seq<char>, p: int, l: Seq<char>, k: int)
    requires
        lit_at(s, p, l),
        0 <= k < l.len(),
    ensures
        s[p + k] == l[k],
{
    assert(s.subrange(p, p + l.len())[k] == s[p + k]);
}

proof fn lemma_char_of_low(c: char)
    requires
        (c as u32) < 0x20,
    ensures
        char_of(c as u32) == c,
{
}

proof fn lemma_hex_char_val(x: int)
    requires
        0 <= x < 16,
    ensures
        hex_val(hex_char(x)) == x,
{
}

proof fn lemma_strbody_of_esc(s: Seq<char>, i: int, t: Seq<char>)
    requires
        0 <= i,
        i + esc_string(t).len() + 1 <= s.len(),
        s.subrange(i, i + esc_string(t).len()) == esc_string(t),
        s[i + esc_string(t).len()] == '"',
    ensures
        p_strbody(s, i) == Some((t, i + esc_string(t).len() + 1)),
    decreases t.len(),
{
    let e = esc_string(t);
    if t.len() == 0 {
        assert(s[i] == '"');
    } else {
        let c = t[0];
        let t2 = t.drop_first();
        let e2 = esc_string(t2);
        let ec = esc_char(c);
        assert(e == ec + e2);
        let k = ec.len() as int;
        assert forall|m: int| 0 <= m < k implies s[i + m] == ec[m] by {
            assert(s.subrange(i, i + e.len())[m] == s[i + m]);
            assert((ec + e2)[m] == ec[m]);
        }
        assert forall|m: int| 0 <= m < e2.len() implies #[trigger] e2[m] == e[k + m] by {
            assert((ec + e2)[k + m] == e2[m]);
        }
        lemma_piece_at(s, i, e, k, e2);
        lemma_strbody_of_esc(s, i + k, t2);
        assert(seq![c] + t2 =~= t);
        if c == '"' || c == '\\' {
            assert(ec == seq!['\\', c]);
            assert(s[i] == '\\' && s[i + 1] == c);
            assert(unescape_char(c) == Some(c));
        } else if c == '\n' {
            assert(ec == seq!['\\', 'n']);
            assert(s[i] == '\\' && s[i + 1] == 'n');
        } else if c == '\r' {
            assert(ec == seq!['\\', 'r']);
            assert(s[i] == '\\' && s[i + 1] == 'r');
        } else if c == '\t' {
            assert(ec == seq!['\\', 't']);
            assert(s[i] == '\\' && s[i + 1] == 't');
        } else if c == '\u{8}' {
            assert(ec == seq!['\\', 'b']);
            assert(s[i] == '\\' && s[i + 1] == 'b');
        } else if c == '\u{c}' {
            assert(ec == seq!['\\', 'f']);
            assert(s[i] == '\\' && s[i + 1] == 'f');
        } else if (c as u32) < 0x20 {
            let code = (c as u32) as int;
            assert(ec == seq!['\\', 'u', '0', '0', hex_char(code / 16), hex_char(code % 16)]);
            assert(s[i] == '\\');
            assert(s[i + 1] == 'u');
            assert(s[i + 2] == '0');
            assert(s[i + 3] == '0');
            assert(s[i + 4] == hex_char(code / 16));
            assert(s[i + 5] == hex_char(code % 16));
            lemma_hex_char_val(code / 16);
            lemma_hex_char_val(code % 16);
            assert(hex_val('0') == 0);
            let v = hex_val(s[i + 2]) * 4096 + hex_val(s[i + 3]) * 256 + hex_val(s[i + 4]) * 16
                + hex_val(s[i + 5]);
            assert(v == code);
            assert(0 <= v < 0x20);
            assert((v as u32) == c as u32);
            lemma_char_of_low(c);
            assert(char_of(v as u32) == c);
        } else {
            assert(ec == seq![c]);
            assert(s[i] == c);
        }
    }
}

/// The value a digit run parses to, folded onto an accumulator, front
/// first.
spec fn aval(d: Seq<char>, acc: int) -> int
    decreases d.len(),
{
    if d.len() == 0 {
        acc
    } else {
        aval(d.drop_first(), acc * 10 + digit_val(d[0]))
    }
}

proof fn lemma_p_digits_run(s: Seq<char>, i: int, d: Seq<char>, acc: int, count: int)
    requires
        0 <= i,
        i + d.len() <= s.len(),
        s.subrange(i, i + d.len()) == d,
        forall|m: int| 0 <= m < d.len() ==> is_digit(#[trigger] d[m]),
        i + d.len() == s.len() || !is_digit(s[i + d.len()]),
        count >= 0,
        count + d.len() <= 19,
        count + d.len() >= 1,
    ensures
        p_digits(s, i, acc, count) == Some((aval(d, acc), i + d.len())),
    decreases d.len(),
{
    if d.len() == 0 {
        assert(p_digits(s, i, acc, count) == Some((acc, i)));
    } else {
        assert(s[i] == d[0]) by {
            assert(s.subrange(i, i + d.len())[0] == s[i]);
        }
        assert(is_digit(s[i]));
        let d2 = d.drop_first();
        assert(s.subrange(i + 1, i + 1 + d2.len()) =~= d2) by {
            assert(forall|m: int| 0 <= m < d2.len() ==> #[trigger] s.subrange(i, i + d.len())[m + 1] == s[i
                + 1 + m]);
        }
        lemma_p_digits_run(s, i + 1, d2, acc * 10 + digit_val(s[i]), count + 1);
    }
}

proof fn lemma_aval_snoc(d: Seq<char>, c: char, acc: int)
    ensures
        aval(d.push(c), acc) == aval(d, acc) * 10 + digit_val(c),
    decreases d.len(),
{
    if d.len() == 0 {
        assert(d.push(c).drop_first() =~= Seq::<char>::empty());
        assert(d.push(c)[0] == c);
        assert(aval(d.push(c), acc) == aval(Seq::<char>::empty(), acc * 10 + digit_val(c)));
        assert(aval(Seq::<char>::empty(), acc * 10 + digit_val(c)) == acc * 10 + digit_val(c));
        assert(aval(d, acc) == acc);
    } else {
        assert(d.push(c).drop_first() =~= d.drop_first().push(c));
        assert(d.push(c)[0] == d[0]);
        lemma_aval_snoc(d.drop_first(), c, acc * 10 + digit_val(d[0]));
        assert(aval(d.push(c), acc) == aval(d.drop_first().push(c), acc * 10 + digit_val(d[0])));
        assert(aval(d, acc) == aval(d.drop_first(), acc * 10 + digit_val(d[0])));
    }
}

proof fn lemma_digit_char_val(x: int)
    requires
        0 <= x < 10,
    ensures
        digit_val(digit_char(x)) == x,
{
}

proof fn lemma_aval_of_dec(n: nat, acc: int)
    ensures
        aval(dec_digits(n), acc) == acc * pow10(dec_digits(n).len()) + n,
    decreases n,
{
    if n < 10 {
        lemma_digit_char_val(n as int);
        assert(dec_digits(n) == seq![digit_char(n as int)]);
        assert(dec_digits(n)[0] == digit_char(n as int));
        assert(dec_digits(n).drop_first() =~= Seq::<char>::empty());
        assert(aval(dec_digits(n), acc) == aval(
            Seq::<char>::empty(),
            acc * 10 + digit_val(digit_char(n as int)),
        ));
        assert(aval(dec_digits(n), acc) == acc * 10 + n);
        assert(pow10(0) == 1);
        assert(pow10(1) == 10);
        assert(dec_digits(n).len() == 1);
    } else {
        let d1 = dec_digits(n / 10);
        let c = digit_char((n % 10) as int);
        assert(dec_digits(n) == d1 + seq![c]);
        assert(d1 + seq![c] =~= d1.push(c));
        lemma_aval_snoc(d1, c, acc);
        lemma_aval_of_dec(n / 10, acc);
        lemma_digit_char_val((n % 10) as int);
        let l1 = d1.len();
        assert(aval(dec_digits(n), acc) == (acc * pow10(l1) + n / 10) * 10 + n % 10);
        assert(pow10(l1 + 1) == 10 * pow10(l1));
        assert((acc * pow10(l1)) * 10 == acc * (10 * pow10(l1))) by (nonlinear_arith);
        assert(aval(dec_digits(n), acc) == acc * pow10(l1 + 1) + n);
        assert(dec_digits(n).len() == l1 + 1);
    }
}

proof fn lemma_dec_digits_are_digits(n: nat)
    ensures
        forall|m: int| 0 <= m < dec_digits(n).len() ==> is_digit(#[trigger] dec_digits(n)[m]),
    decreases n,
{
    if n < 10 {
        lemma_digit_char_val(n as int);
    } else {
        lemma_dec_digits_are_digits(n / 10);
        lemma_digit_char_val((n % 10) as int);
        assert(forall|m: int| 0 <= m < dec_digits(n / 10).len() ==> #[trigger] dec_digits(n)[m]
            == dec_digits(n / 10)[m]);
        assert(dec_digits(n)[dec_digits(n).len() - 1] == digit_char((n % 10) as int));
    }
}

proof fn lemma_dec_digits_len(n: nat, k: nat)
    requires
        k >= 1,
        n < pow10(k),
    ensures
        dec_digits(n).len() <= k,
    decreases n,
{
    if n < 10 {
    } else {
        assert(pow10(k) == 10 * pow10((k - 1) as nat));
        if k == 1 {
            assert(pow10(0) == 1);
            assert(false);
        }
        lemma_dec_digits_len(n / 10, (k - 1) as nat);
    }
}

/// A number written in decimal parses back to itself when the run of
/// digits ends there.
proof fn lemma_p_number_of_dec(s: Seq<char>, i: int, n: nat)
    requires
        0 <= i,
        n <= i64::MAX as nat,
        i + dec_digits(n).len() <= s.len(),
        s.subrange(i, i + dec_digits(n).len()) == dec_digits(n),
        i + dec_digits(n).len() == s.len() || !is_digit(s[i + dec_digits(n).len()]),
    ensures
        p_number(s, i) == Some((n as int, i + dec_digits(n).len())),
{
    lemma_pow10_19();
    lemma_dec_digits_len(n, 19);
    lemma_dec_digits_are_digits(n);
    lemma_p_digits_run(s, i, dec_digits(n), 0, 0);
    lemma_aval_of_dec(n, 0);
}

proof fn lemma_enc_task_head(t: TaskView)
    ensures
        enc_task(t).len() >= 9,
        enc_task(t)[0] == '{',
{
    reveal_strlit("\"text\":");
    let l02 = seq!['{'] + "\"text\":"@;
    let l03 = l02 + seq!['"'];
    let l04 = l03 + esc_string(t.text);
    let l05 = l04 + seq!['"'];
    let l06 = l05 + seq![','];
    let l07 = l06 + "\"seconds_estimated\":"@;
    let l08 = l07 + dec_digits(t.seconds_estimated as nat);
    let l09 = l08 + seq![','];
    let l10 = l09 + "\"seconds_spent\":"@;
    let l11 = l10 + dec_digits(t.seconds_spent as nat);
    let l12 = l11 + seq![','];
    let l13 = l12 + "\"done\":"@;
    let l14 = l13 + (if t.done { "true"@ } else { "false"@ });
    assert(enc_task(t) == l14 + seq!['}']);
    assert(l02[0] == seq!['{'][0]);
    assert(l03[0] == l02[0]);
    assert(l04[0] == l03[0]);
    assert(l05[0] == l04[0]);
    assert(l06[0] == l05[0]);
    assert(l07[0] == l06[0]);
    assert(l08[0] == l07[0]);
    assert(l09[0] == l08[0]);
    assert(l10[0] == l09[0]);
    assert(l11[0] == l10[0]);
    assert(l12[0] == l11[0]);
    assert(l13[0] == l12[0]);
    assert(l14[0] == l13[0]);
    assert(enc_task(t)[0] == l14[0]);
}

proof fn lemma_enc_tasks_len_ge(ts: Seq<TaskView>)
    ensures
        enc_tasks(ts).len() >= ts.len(),
    decreases ts.len(),
{
    if ts.len() == 1 {
        lemma_enc_task_head(ts[0]);
    } else if ts.len() > 1 {
        lemma_enc_task_head(ts[0]);
        lemma_enc_tasks_len_ge(ts.drop_first());
    }
}

#[verifier::rlimit(100)]
proof fn lemma_p_task_of_enc(s: Seq<char>, i: int, t: TaskView, fuel: nat)
    requires
        0 <= i,
        t.wf(),
        t.seconds_estimated <= i64::MAX as int,
        t.seconds_spent <= i64::MAX as int,
        i + enc_task(t).len() <= s.len(),
        s.subrange(i, i + enc_task(t).len()) == enc_task(t),
        fuel >= 4,
    ensures
        p_task(s, i, fuel) == Some((t, i + enc_task(t).len())),
{
    reveal_strlit("\"text\":");
    reveal_strlit("\"seconds_estimated\":");
    reveal_strlit("\"seconds_spent\":");
    reveal_strlit("\"done\":");
    reveal_strlit("true");
    reveal_strlit("false");
    let e = esc_string(t.text);
    let d1 = dec_digits(t.seconds_estimated as nat);
    let d2 = dec_digits(t.seconds_spent as nat);
    let pb = if t.done { "true"@ } else { "false"@ };
    let l02 = seq!['{'] + "\"text\":"@;
    let l03 = l02 + seq!['"'];
    let l04 = l03 + e;
    let l05 = l04 + seq!['"'];
    let l06 = l05 + seq![','];
    let l07 = l06 + "\"seconds_estimated\":"@;
    let l08 = l07 + d1;
    let l09 = l08 + seq![','];
    let l10 = l09 + "\"seconds_spent\":"@;
    let l11 = l10 + d2;
    let l12 = l11 + seq![','];
    let l13 = l12 + "\"done\":"@;
    let l14 = l13 + pb;
    let w = enc_task(t);
    assert(w == l14 + seq!['}']);
    // Peel the pieces off the known subrange, outermost first.
    assert forall|m: int| 0 <= m < l14.len() implies #[trigger] l14[m] == w[m] by {
        assert((l14 + seq!['}'])[m] == l14[m]);
    }
    lemma_piece_at(s, i, w, 0, l14);
    assert forall|m: int| 0 <= m < 1 implies #[trigger] seq!['}'][m] == w[l14.len() + m] by {
        assert((l14 + seq!['}'])[l14.len() + m] == seq!['}'][m]);
    }
    lemma_piece_at(s, i, w, l14.len() as int, seq!['}']);
    assert forall|m: int| 0 <= m < l13.len() implies #[trigger] l13[m] == l14[m] by {
        assert((l13 + pb)[m] == l13[m]);
    }
    lemma_piece_at(s, i, l14, 0, l13);
    assert forall|m: int| 0 <= m < pb.len() implies #[trigger] pb[m] == l14[l13.len() + m] by {
        assert((l13 + pb)[l13.len() + m] == pb[m]);
    }
    lemma_piece_at(s, i, l14, l13.len() as int, pb);
    assert forall|m: int| 0 <= m < l12.len() implies #[trigger] l12[m] == l13[m] by {
        assert((l12 + "\"done\":"@)[m] == l12[m]);
    }
    lemma_piece_at(s, i, l13, 0, l12);
    assert forall|m: int| 0 <= m < "\"done\":"@.len() implies #[trigger] "\"done\":"@[m] == l13[l12.len()
        + m] by {
        assert((l12 + "\"done\":"@)[l12.len() + m] == "\"done\":"@[m]);
    }
    lemma_piece_at(s, i, l13, l12.len() as int, "\"done\":"@);
    assert forall|m: int| 0 <= m < l11.len() implies #[trigger] l11[m] == l12[m] by {
        assert((l11 + seq![','])[m] == l11[m]);
    }
    lemma_piece_at(s, i, l12, 0, l11);
    assert forall|m: int| 0 <= m < 1 implies #[trigger] seq![','][m] == l12[l11.len() + m] by {
        assert((l11 + seq![','])[l11.len() + m] == seq![','][m]);
    }
    lemma_piece_at(s, i, l12, l11.len() as int, seq![',']);
    assert forall|m: int| 0 <= m < l10.len() implies #[trigger] l10[m] == l11[m] by {
        assert((l10 + d2)[m] == l10[m]);
    }
    lemma_piece_at(s, i, l11, 0, l10);
    assert forall|m: int| 0 <= m < d2.len() implies #[trigger] d2[m] == l11[l10.len() + m] by {
        assert((l10 + d2)[l10.len() + m] == d2[m]);
    }
    lemma_piece_at(s, i, l11, l10.len() as int, d2);
    assert forall|m: int| 0 <= m < l09.len() implies #[trigger] l09[m] == l10[m] by {
        assert((l09 + "\"seconds_spent\":"@)[m] == l09[m]);
    }
    lemma_piece_at(s, i, l10, 0, l09);
    assert forall|m: int| 0 <= m < "\"seconds_spent\":"@.len() implies
        #[trigger] "\"seconds_spent\":"@[m] == l10[l09.len() + m] by {
        assert((l09 + "\"seconds_spent\":"@)[l09.len() + m] == "\"seconds_spent\":"@[m]);
    }
    lemma_piece_at(s, i, l10, l09.len() as int, "\"seconds_spent\":"@);
    assert forall|m: int| 0 <= m < l08.len() implies #[trigger] l08[m] == l09[m] by {
        assert((l08 + seq![','])[m] == l08[m]);
    }
    lemma_piece_at(s, i, l09, 0, l08);
    assert forall|m: int| 0 <= m < 1 implies #[trigger] seq![','][m] == l09[l08.len() + m] by {
        assert((l08 + seq![','])[l08.len() + m] == seq![','][m]);
    }
    lemma_piece_at(s, i, l09, l08.len() as int, seq![',']);
    assert forall|m: int| 0 <= m < l07.len() implies #[trigger] l07[m] == l08[m] by {
        assert((l07 + d1)[m] == l07[m]);
    }
    lemma_piece_at(s, i, l08, 0, l07);
    assert forall|m: int| 0 <= m < d1.len() implies #[trigger] d1[m] == l08[l07.len() + m] by {
        assert((l07 + d1)[l07.len() + m] == d1[m]);
    }
    lemma_piece_at(s, i, l08, l07.len() as int, d1);
    assert forall|m: int| 0 <= m < l06.len() implies #[trigger] l06[m] == l07[m] by {
        assert((l06 + "\"seconds_estimated\":"@)[m] == l06[m]);
    }
    lemma_piece_at(s, i, l07, 0, l06);
    assert forall|m: int| 0 <= m < "\"seconds_estimated\":"@.len() implies
        #[trigger] "\"seconds_estimated\":"@[m] == l07[l06.len() + m] by {
        assert((l06 + "\"seconds_estimated\":"@)[l06.len() + m] == "\"seconds_estimated\":"@[m]);
    }
    lemma_piece_at(s, i, l07, l06.len() as int, "\"seconds_estimated\":"@);
    assert forall|m: int| 0 <= m < l05.len() implies #[trigger] l05[m] == l06[m] by {
        assert((l05 + seq![','])[m] == l05[m]);
    }
    lemma_piece_at(s, i, l06, 0, l05);
    assert forall|m: int| 0 <= m < 1 implies #[trigger] seq![','][m] == l06[l05.len() + m] by {
        assert((l05 + seq![','])[l05.len() + m] == seq![','][m]);
    }
    lemma_piece_at(s, i, l06, l05.len() as int, seq![',']);
    assert forall|m: int| 0 <= m < l04.len() implies #[trigger] l04[m] == l05[m] by {
        assert((l04 + seq!['"'])[m] == l04[m]);
    }
    lemma_piece_at(s, i, l05, 0, l04);
    assert forall|m: int| 0 <= m < 1 implies #[trigger] seq!['"'][m] == l05[l04.len() + m] by {
        assert((l04 + seq!['"'])[l04.len() + m] == seq!['"'][m]);
    }
    lemma_piece_at(s, i, l05, l04.len() as int, seq!['"']);
    assert forall|m: int| 0 <= m < l03.len() implies #[trigger] l03[m] == l04[m] by {
        assert((l03 + e)[m] == l03[m]);
    }
    lemma_piece_at(s, i, l04, 0, l03);
    assert forall|m: int| 0 <= m < e.len() implies #[trigger] e[m] == l04[l03.len() + m] by {
        assert((l03 + e)[l03.len() + m] == e[m]);
    }
    lemma_piece_at(s, i, l04, l03.len() as int, e);
    assert forall|m: int| 0 <= m < l02.len() implies #[trigger] l02[m] == l03[m] by {
        assert((l02 + seq!['"'])[m] == l02[m]);
    }
    lemma_piece_at(s, i, l03, 0, l02);
    assert forall|m: int| 0 <= m < 1 implies #[trigger] seq!['"'][m] == l03[l02.len() + m] by {
        assert((l02 + seq!['"'])[l02.len() + m] == seq!['"'][m]);
    }
    lemma_piece_at(s, i, l03, l02.len() as int, seq!['"']);
    assert forall|m: int| 0 <= m < 1 implies #[trigger] seq!['{'][m] == l02[m] by {
        assert((seq!['{'] + "\"text\":"@)[m] == seq!['{'][m]);
    }
    lemma_piece_at(s, i, l02, 0, seq!['{']);
    assert forall|m: int| 0 <= m < "\"text\":"@.len() implies #[trigger] "\"text\":"@[m] == l02[1
        + m] by {
        assert((seq!['{'] + "\"text\":"@)[1 + m] == "\"text\":"@[m]);
    }
    lemma_piece_at(s, i, l02, 1, "\"text\":"@);
    // Positions of the pieces.
    let oe = i + 9;
    let oq2 = oe + e.len() as int;
    let oc1 = oq2 + 1;
    let olit2 = oc1 + 1;
    let od1 = olit2 + 20;
    let oc2 = od1 + d1.len() as int;
    let olit3 = oc2 + 1;
    let od2 = olit3 + 16;
    let oc3 = od2 + d2.len() as int;
    let olit4 = oc3 + 1;
    let ob = olit4 + 7;
    let obrace = ob + pb.len() as int;
    // Walk the parser along the members.
    lemma_char_at(s, i, '{');
    assert(lit_at(s, i + 1, "\"text\":"@));
    lemma_lit_char(s, i + 1, "\"text\":"@, 0);
    assert(s[i + 1] == '"');
    assert(p_ws(s, i + 1) == i + 1);
    lemma_char_at(s, i + 8, '"');
    assert(p_ws(s, i + 8) == i + 8);
    lemma_char_at(s, oq2, '"');
    lemma_strbody_of_esc(s, oe, t.text);
    lemma_char_at(s, oc1, ',');
    assert(p_ws(s, oc1) == oc1);
    let rec1 = TaskView { text: t.text, ..default_task_view() };
    assert(p_one_member(s, i + 1, default_task_view(), fuel) == Some((rec1, oc1)));
    // Second member: the canonical estimate key, not the text key.
    assert(lit_at(s, olit2, "\"seconds_estimated\":"@));
    lemma_lit_char(s, olit2, "\"seconds_estimated\":"@, 0);
    lemma_lit_char(s, olit2, "\"seconds_estimated\":"@, 1);
    assert(p_ws(s, olit2) == olit2);
    if lit_at(s, olit2, "\"text\":"@) {
        lemma_lit_char(s, olit2, "\"text\":"@, 1);
        assert(false);
    }
    lemma_dec_digits_are_digits(t.seconds_estimated as nat);
    assert(is_digit(d1[0]));
    assert(s[od1] == d1[0]) by {
        assert(s.subrange(od1, od1 + d1.len())[0] == s[od1]);
    }
    assert(p_ws(s, od1) == od1);
    lemma_char_at(s, oc2, ',');
    assert(!is_digit(',')) by {
        assert(digit_val(',') == -1);
    }
    lemma_p_number_of_dec(s, od1, t.seconds_estimated as nat);
    assert(p_ws(s, oc2) == oc2);
    let rec2 = TaskView { seconds_estimated: t.seconds_estimated, ..rec1 };
    assert(p_one_member(s, olit2, rec1, (fuel - 1) as nat) == Some((rec2, oc2)));
    // Third member: the spend key.
    assert(lit_at(s, olit3, "\"seconds_spent\":"@));
    lemma_lit_char(s, olit3, "\"seconds_spent\":"@, 0);
    lemma_lit_char(s, olit3, "\"seconds_spent\":"@, 1);
    lemma_lit_char(s, olit3, "\"seconds_spent\":"@, 9);
    assert(p_ws(s, olit3) == olit3);
    if lit_at(s, olit3, "\"text\":"@) {
        lemma_lit_char(s, olit3, "\"text\":"@, 1);
        assert(false);
    }
    if lit_at(s, olit3, "\"seconds_estimated\":"@) {
        lemma_lit_char(s, olit3, "\"seconds_estimated\":"@, 9);
        assert(false);
    }
    lemma_dec_digits_are_digits(t.seconds_spent as nat);
    assert(is_digit(d2[0]));
    assert(s[od2] == d2[0]) by {
        assert(s.subrange(od2, od2 + d2.len())[0] == s[od2]);
    }
    assert(p_ws(s, od2) == od2);
    lemma_char_at(s, oc3, ',');
    lemma_p_number_of_dec(s, od2, t.seconds_spent as nat);
    assert(p_ws(s, oc3) == oc3);
    let rec3 = TaskView { seconds_spent: t.seconds_spent, ..rec2 };
    assert(p_one_member(s, olit3, rec2, (fuel - 2) as nat) == Some((rec3, oc3)));
    // Fourth member: the done key.
    assert(lit_at(s, olit4, "\"done\":"@));
    lemma_lit_char(s, olit4, "\"done\":"@, 0);
    lemma_lit_char(s, olit4, "\"done\":"@, 1);
    assert(p_ws(s, olit4) == olit4);
    if lit_at(s, olit4, "\"text\":"@) {
        lemma_lit_char(s, olit4, "\"text\":"@, 1);
        assert(false);
    }
    if lit_at(s, olit4, "\"seconds_estimated\":"@) {
        lemma_lit_char(s, olit4, "\"seconds_estimated\":"@, 1);
        assert(false);
    }
    if lit_at(s, olit4, "\"seconds_spent\":"@) {
        lemma_lit_char(s, olit4, "\"seconds_spent\":"@, 1);
        assert(false);
    }
    assert(lit_at(s, ob, pb));
    lemma_lit_char(s, ob, pb, 0);
    assert(p_ws(s, ob) == ob);
    if !t.done {
        if lit_at(s, ob, "true"@) {
            lemma_lit_char(s, ob, "true"@, 0);
            assert(false);
        }
    }
    assert(p_bool(s, ob) == Some((t.done, obrace)));
    let rec4 = TaskView { done: t.done, ..rec3 };
    assert(p_one_member(s, olit4, rec3, (fuel - 3) as nat) == Some((rec4, obrace)));
    lemma_char_at(s, obrace, '}');
    assert(p_ws(s, obrace) == obrace);
    assert(rec4 == t);
    assert(p_members(s, olit4, rec3, (fuel - 3) as nat) == Some((t, obrace + 1)));
    assert(p_members(s, olit3, rec2, (fuel - 2) as nat) == Some((t, obrace + 1)));
    assert(p_members(s, olit2, rec1, (fuel - 1) as nat) == Some((t, obrace + 1)));
    assert(p_members(s, i + 1, default_task_view(), fuel) == Some((t, obrace + 1)));
    assert(obrace + 1 == i + w.len());
}

#[verifier::rlimit(100)]
proof fn lemma_p_tasks_of_enc(s: Seq<char>, i: int, ts: Seq<TaskView>, fuel: nat)
    requires
        0 <= i,
        ts.len() >= 1,
        forall|k: int| 0 <= k < ts.len() ==> (#[trigger] ts[k]).wf()
            && ts[k].seconds_estimated <= i64::MAX as int
            && ts[k].seconds_spent <= i64::MAX as int,
        i + enc_tasks(ts).len() + 1 <= s.len(),
        s.subrange(i, i + enc_tasks(ts).len()) == enc_tasks(ts),
        s[i + enc_tasks(ts).len()] == ']',
        fuel >= ts.len() + 3,
    ensures
        p_tasks(s, i, fuel) == Some((ts, i + enc_tasks(ts).len() + 1)),
    decreases ts.len(),
{
    let w = enc_tasks(ts);
    if ts.len() == 1 {
        assert(w == enc_task(ts[0]));
        lemma_p_task_of_enc(s, i, ts[0], fuel);
        let j = i + w.len();
        assert(p_ws(s, j) == j);
        assert(seq![ts[0]] =~= ts);
    } else {
        let e0 = enc_task(ts[0]);
        let rest = ts.drop_first();
        let er = enc_tasks(rest);
        let comma = seq![','];
        let l2 = e0 + comma;
        assert(w == e0 + comma + er);
        assert(w == l2 + er);
        assert forall|m: int| 0 <= m < l2.len() implies #[trigger] l2[m] == w[m] by {
            assert((l2 + er)[m] == l2[m]);
        }
        lemma_piece_at(s, i, w, 0, l2);
        assert forall|m: int| 0 <= m < er.len() implies #[trigger] er[m] == w[l2.len() + m] by {
            assert((l2 + er)[l2.len() + m] == er[m]);
        }
        lemma_piece_at(s, i, w, l2.len() as int, er);
        assert forall|m: int| 0 <= m < e0.len() implies #[trigger] e0[m] == l2[m] by {
            assert((e0 + comma)[m] == e0[m]);
        }
        lemma_piece_at(s, i, l2, 0, e0);
        assert forall|m: int| 0 <= m < comma.len() implies #[trigger] comma[m] == l2[e0.len()
            + m] by {
            assert((e0 + comma)[e0.len() + m] == comma[m]);
        }
        lemma_piece_at(s, i, l2, e0.len() as int, comma);
        lemma_p_task_of_enc(s, i, ts[0], fuel);
        let j = i + e0.len() as int;
        lemma_char_at(s, j, ',');
        assert(p_ws(s, j) == j);
        lemma_enc_task_head(rest[0]);
        assert(er[0] == '{') by {
            if rest.len() == 1 {
                assert(er == enc_task(rest[0]));
            } else {
                assert(er == enc_task(rest[0]) + seq![','] + enc_tasks(rest.drop_first()));
                assert(((enc_task(rest[0]) + seq![',']) + enc_tasks(rest.drop_first()))[0]
                    == (enc_task(rest[0]) + seq![','])[0]);
                assert((enc_task(rest[0]) + seq![','])[0] == enc_task(rest[0])[0]);
            }
        }
        assert(s[j + 1] == er[0]) by {
            assert(s.subrange(j + 1, j + 1 + er.len())[0] == s[j + 1]);
        }
        assert(p_ws(s, j + 1) == j + 1);
        assert(forall|k: int| 0 <= k < rest.len() ==> rest[k] == ts[k + 1]);
        lemma_p_tasks_of_enc(s, j + 1, rest, (fuel - 1) as nat);
        assert(seq![ts[0]] + rest =~= ts);
        assert(p_tasks(s, i, fuel) == Some((ts, i + w.len() + 1)));
    }
}

/// Saving then loading reproduces an identical ordered task list:
/// decoding the canonical encoding of any well-formed task list whose
/// durations fit the storage type yields exactly that list, with no
/// loss of text, estimate, spend or done flag.
#[verifier::rlimit(100)]
pub proof fn lemma_save_load_round_trip(ts: Seq<TaskView>)
    requires
        forall|k: int| 0 <= k < ts.len() ==> (#[trigger] ts[k]).wf()
            && ts[k].seconds_estimated <= i64::MAX as int
            && ts[k].seconds_spent <= i64::MAX as int,
    ensures
        p_db(enc_db(ts)) == Some(ts),
{
    reveal_strlit("\"tasks\":");
    let et = enc_tasks(ts);
    let s = enc_db(ts);
    let m02 = seq!['{'] + "\"tasks\":"@;
    let m03 = m02 + seq!['['];
    let m04 = m03 + et;
    let m05 = m04 + seq![']'];
    assert(s == m05 + seq!['}']);
    assert(s.subrange(0, s.len() as int) =~= s);
    assert forall|m: int| 0 <= m < m05.len() implies #[trigger] m05[m] == s[m] by {
        assert((m05 + seq!['}'])[m] == m05[m]);
    }
    lemma_piece_at(s, 0, s, 0, m05);
    assert forall|m: int| 0 <= m < 1 implies #[trigger] seq!['}'][m] == s[m05.len() + m] by {
        assert((m05 + seq!['}'])[m05.len() + m] == seq!['}'][m]);
    }
    lemma_piece_at(s, 0, s, m05.len() as int, seq!['}']);
    assert forall|m: int| 0 <= m < m04.len() implies #[trigger] m04[m] == m05[m] by {
        assert((m04 + seq![']'])[m] == m04[m]);
    }
    lemma_piece_at(s, 0, m05, 0, m04);
    assert forall|m: int| 0 <= m < 1 implies #[trigger] seq![']'][m] == m05[m04.len() + m] by {
        assert((m04 + seq![']'])[m04.len() + m] == seq![']'][m]);
    }
    lemma_piece_at(s, 0, m05, m04.len() as int, seq![']']);
    assert forall|m: int| 0 <= m < m03.len() implies #[trigger] m03[m] == m04[m] by {
        assert((m03 + et)[m] == m03[m]);
    }
    lemma_piece_at(s, 0, m04, 0, m03);
    assert forall|m: int| 0 <= m < et.len() implies #[trigger] et[m] == m04[m03.len() + m] by {
        assert((m03 + et)[m03.len() + m] == et[m]);
    }
    lemma_piece_at(s, 0, m04, m03.len() as int, et);
    assert forall|m: int| 0 <= m < m02.len() implies #[trigger] m02[m] == m03[m] by {
        assert((m02 + seq!['['])[m] == m02[m]);
    }
    lemma_piece_at(s, 0, m03, 0, m02);
    assert forall|m: int| 0 <= m < 1 implies #[trigger] seq!['['][m] == m03[m02.len() + m] by {
        assert((m02 + seq!['['])[m02.len() + m] == seq!['['][m]);
    }
    lemma_piece_at(s, 0, m03, m02.len() as int, seq!['[']);
    assert forall|m: int| 0 <= m < 1 implies #[trigger] seq!['{'][m] == m02[m] by {
        assert((seq!['{'] + "\"tasks\":"@)[m] == seq!['{'][m]);
    }
    lemma_piece_at(s, 0, m02, 0, seq!['{']);
    assert forall|m: int| 0 <= m < "\"tasks\":"@.len() implies #[trigger] "\"tasks\":"@[m] == m02[1
        + m] by {
        assert((seq!['{'] + "\"tasks\":"@)[1 + m] == "\"tasks\":"@[m]);
    }
    lemma_piece_at(s, 0, m02, 1, "\"tasks\":"@);
    // Walk the parser.
    lemma_char_at(s, 0, '{');
    assert(p_ws(s, 0) == 0);
    assert(lit_at(s, 1, "\"tasks\":"@));
    lemma_lit_char(s, 1, "\"tasks\":"@, 0);
    assert(s[1] == '"');
    assert(p_ws(s, 1) == 1);
    lemma_char_at(s, 9, '[');
    assert(p_ws(s, 9) == 9);
    let oe = 10 + et.len() as int;
    lemma_char_at(s, oe, ']');
    lemma_char_at(s, oe + 1, '}');
    let fuel = s.len();
    if ts.len() == 0 {
        assert(et =~= Seq::<char>::empty());
        assert(p_ws(s, 10) == 10);
        assert(p_tasks_value(s, 9, fuel) == Some((ts, 11int)));
    } else {
        lemma_enc_tasks_len_ge(ts);
        lemma_enc_task_head(ts[0]);
        assert(et[0] == '{') by {
            if ts.len() == 1 {
                assert(et == enc_task(ts[0]));
            } else {
                assert(et == enc_task(ts[0]) + seq![','] + enc_tasks(ts.drop_first()));
                assert(((enc_task(ts[0]) + seq![',']) + enc_tasks(ts.drop_first()))[0]
                    == (enc_task(ts[0]) + seq![','])[0]);
                assert((enc_task(ts[0]) + seq![','])[0] == enc_task(ts[0])[0]);
            }
        }
        assert(s[10] == et[0]) by {
            assert(s.subrange(10, 10 + et.len() as int)[0] == s[10]);
        }
        assert(p_ws(s, 10) == 10);
        lemma_p_tasks_of_enc(s, 10, ts, fuel);
        assert(p_tasks_value(s, 9, fuel) == Some((ts, oe + 1)));
    }
    assert(p_db_one_member(s, 1, None, fuel) == Some((Some(ts), oe + 1)));
    assert(p_ws(s, oe + 1) == oe + 1);
    assert(p_db_members(s, 1, None, fuel) == Some((Some(ts), oe + 2)));
    assert(p_ws(s, oe + 2) == s.len());
    assert(p_db(s) == Some(ts));
}

/// Decodes a stored task list. Succeeds exactly when the whole input
/// parses as `p_db`: members in any order, unknown members ignored,
/// missing members at their defaults, whitespace between tokens
/// allowed. The decoded queue is well formed.
pub fn decode_data(s: &str) -> (r: Result<Database, EngineError>)
    ensures
        r is Ok <==> p_db(s@) is Some,
        r matches Ok(db) ==> {
            &&& Some(db@) == p_db(s@)
            &&& db.wf()
        },
        r is Err ==> r == Result::<Database, EngineError>::Err(EngineError::PersistenceUnavailable),
{
    let chars = crate::text::string_to_chars(s);
    let slen = chars.len();
    assert(chars@ == s@);
    let i0 = skip_ws_x(&chars, 0);
    if !(i0 < slen && chars[i0] == '{') {
        return Err(EngineError::PersistenceUnavailable);
    }
    let j = skip_ws_x(&chars, i0 + 1);
    if j < slen && chars[j] == '}' {
        return Err(EngineError::PersistenceUnavailable);
    }
    match p_db_members_x(&chars, j, None, slen) {
        None => Err(EngineError::PersistenceUnavailable),
        Some((acc, j2)) => {
            if skip_ws_x(&chars, j2) == slen {
                match acc {
                    Some(ts) => {
                        let db = Database { tasks: ts };
                        proof {
                            lemma_p_db_members_wf(s@, j as int, None, s@.len());
                        }
                        Ok(db)
                    },
                    None => Err(EngineError::PersistenceUnavailable),
                }
            } else {
                Err(EngineError::PersistenceUnavailable)
            }
        },
    }
}

} // verus!
