//! The on-disk encoding of a task collection: a JSON array of records with
//! the fields `name`, `creation_date`, `due_date`, `color` and `note`, in
//! that order, with no extra whitespace. Quotes, backslashes and the common
//! control characters are escaped in strings; rarer control characters are
//! stored as they are. The decoder accepts exactly this canonical form, and
//! decoding an encoded collection gives the collection back.

use vstd::prelude::*;

use crate::color::Color;
use crate::date::Date;
use vstd::seq_lib::lemma_concat_associative;

use crate::storage::FileError;
use crate::task::{digit_val, is_digit, tasks_view, tasks_wf, Task, TaskData};

verus! {

// ---- The encoding, as specification ----------------------------------------

/// The decimal digit character for `n`.
pub open spec fn dig(n: int) -> char {
    if n == 0 {
        '0'
    } else if n == 1 {
        '1'
    } else if n == 2 {
        '2'
    } else if n == 3 {
        '3'
    } else if n == 4 {
        '4'
    } else if n == 5 {
        '5'
    } else if n == 6 {
        '6'
    } else if n == 7 {
        '7'
    } else if n == 8 {
        '8'
    } else {
        '9'
    }
}

/// How one character is written inside a quoted string: quotes, backslashes
/// and the common control characters get a backslash escape, everything else
/// stands for itself.
pub open spec fn escape_char(c: char) -> Seq<char> {
    if c == '"' {
        seq!['\\', '"']
    } else if c == '\\' {
        seq!['\\', '\\']
    } else if c == '\n' {
        seq!['\\', 'n']
    } else if c == '\r' {
        seq!['\\', 'r']
    } else if c == '\t' {
        seq!['\\', 't']
    } else if c as int == 8 {
        seq!['\\', 'b']
    } else if c as int == 12 {
        seq!['\\', 'f']
    } else {
        seq![c]
    }
}

/// A string's characters, each escaped.
pub open spec fn escape_string(s: Seq<char>) -> Seq<char>
    decreases s.len(),
{
    if s.len() == 0 {
        Seq::empty()
    } else {
        escape_char(s[0]) + escape_string(s.drop_first())
    }
}

/// A date as `YYYY-MM-DD`, zero padded.
pub open spec fn enc_date(d: Date) -> Seq<char> {
    seq![
        dig(d.year as int / 10 / 10 / 10 % 10),
        dig(d.year as int / 10 / 10 % 10),
        dig(d.year as int / 10 % 10),
        dig(d.year as int % 10),
        '-',
        dig(d.month as int / 10 % 10),
        dig(d.month as int % 10),
        '-',
        dig(d.day as int / 10 % 10),
        dig(d.day as int % 10),
    ]
}

/// A color tag's name.
pub open spec fn color_chars(c: Color) -> Seq<char> {
    match c {
        Color::Red => seq!['R', 'e', 'd'],
        Color::Yellow => seq!['Y', 'e', 'l', 'l', 'o', 'w'],
        Color::Green => seq!['G', 'r', 'e', 'e', 'n'],
        Color::Blue => seq!['B', 'l', 'u', 'e'],
        Color::Purple => seq!['P', 'u', 'r', 'p', 'l', 'e'],
    }
}

/// An optional date: `null`, or the date quoted.
pub open spec fn enc_opt_date(od: Option<Date>) -> Seq<char> {
    match od {
        None => seq!['n', 'u', 'l', 'l'],
        Some(d) => seq!['"'] + enc_date(d) + seq!['"'],
    }
}

/// An optional color: `null`, or the tag name quoted.
pub open spec fn enc_opt_color(oc: Option<Color>) -> Seq<char> {
    match oc {
        None => seq!['n', 'u', 'l', 'l'],
        Some(c) => seq!['"'] + color_chars(c) + seq!['"'],
    }
}

/// The record text up to and including the opening quote of the name.
pub open spec fn lit_name() -> Seq<char> {
    seq!['{', '"', 'n', 'a', 'm', 'e', '"', ':', '"']
}

/// The text between the name's closing quote (exclusive) and the creation
/// date, including the date's opening quote.
pub open spec fn lit_cre() -> Seq<char> {
    seq![',', '"', 'c', 'r', 'e', 'a', 't', 'i', 'o', 'n', '_', 'd', 'a', 't', 'e', '"', ':', '"']
}

/// The creation date's closing quote and the `due_date` key.
pub open spec fn lit_due() -> Seq<char> {
    seq!['"', ',', '"', 'd', 'u', 'e', '_', 'd', 'a', 't', 'e', '"', ':']
}

/// The `color` key.
pub open spec fn lit_color() -> Seq<char> {
    seq![',', '"', 'c', 'o', 'l', 'o', 'r', '"', ':']
}

/// The `note` key, including the note's opening quote.
pub open spec fn lit_note() -> Seq<char> {
    seq![',', '"', 'n', 'o', 't', 'e', '"', ':', '"']
}

/// One task as a JSON object.
#[verifier::opaque]
pub open spec fn enc_task(t: TaskData) -> Seq<char> {
    lit_name() + escape_string(t.name) + seq!['"'] + lit_cre() + enc_date(t.creation_date)
        + lit_due() + enc_opt_date(t.due_date) + lit_color() + enc_opt_color(t.color) + lit_note()
        + escape_string(t.note) + seq!['"', '}']
}

/// The second and later tasks, each preceded by a comma.
pub open spec fn enc_tasks_rest(ts: Seq<TaskData>) -> Seq<char>
    decreases ts.len(),
{
    if ts.len() == 0 {
        Seq::empty()
    } else {
        seq![','] + enc_task(ts[0]) + enc_tasks_rest(ts.drop_first())
    }
}

/// The comma-separated task records.
pub open spec fn enc_items(ts: Seq<TaskData>) -> Seq<char> {
    if ts.len() == 0 {
        Seq::empty()
    } else {
        enc_task(ts[0]) + enc_tasks_rest(ts.drop_first())
    }
}

/// A whole task collection as a JSON array.
pub open spec fn enc_doc(ts: Seq<TaskData>) -> Seq<char> {
    seq!['['] + enc_items(ts) + seq![']']
}

// ---- The executable encoder -------------------------------------------------

/// Relies on `String::push`: appends exactly the given character.
#[verifier::external_body]
pub(crate) fn push_char(s: &mut String, c: char)
    ensures
        final(s)@ == old(s)@.push(c),
{
    s.push(c);
}

/// Executable form of [`dig`].
fn digit_char(n: u16) -> (r: char)
    requires
        n < 10,
    ensures
        r == dig(n as int),
{
    match n {
        0 => '0',
        1 => '1',
        2 => '2',
        3 => '3',
        4 => '4',
        5 => '5',
        6 => '6',
        7 => '7',
        8 => '8',
        _ => '9',
    }
}

proof fn lemma_escape_push(s: Seq<char>, c: char)
    ensures
        escape_string(s.push(c)) == escape_string(s) + escape_char(c),
    decreases s.len(),
{
    if s.len() == 0 {
        assert(s.push(c)[0] == c);
        assert(s.push(c).drop_first() =~= Seq::<char>::empty());
        assert(escape_string(s.push(c)) =~= escape_char(c) + escape_string(Seq::<char>::empty()));
        assert(escape_char(c) + Seq::<char>::empty() =~= escape_char(c));
        assert(escape_string(s) + escape_char(c) =~= escape_char(c));
    } else {
        assert(s.push(c).drop_first() =~= s.drop_first().push(c));
        assert(s.push(c)[0] == s[0]);
        lemma_escape_push(s.drop_first(), c);
        assert(escape_char(s[0]) + (escape_string(s.drop_first()) + escape_char(c)) =~= (
        escape_char(s[0]) + escape_string(s.drop_first())) + escape_char(c));
    }
}

/// Appends the escaped form of `text` to `out`.
fn append_escaped(out: &mut String, text: &str)
    ensures
        final(out)@ == old(out)@ + escape_string(text@),
{
    let n = text.unicode_len();
    let mut i: usize = 0;
    while i < n
        invariant
            i <= n,
            n == text@.len(),
            out@ == old(out)@ + escape_string(text@.take(i as int)),
        decreases n - i,
    {
        let c = text.get_char(i);
        let cu = c as u32;
        if c == '"' {
            push_char(out, '\\');
            push_char(out, '"');
        } else if c == '\\' {
            push_char(out, '\\');
            push_char(out, '\\');
        } else if c == '\n' {
            push_char(out, '\\');
            push_char(out, 'n');
        } else if c == '\r' {
            push_char(out, '\\');
            push_char(out, 'r');
        } else if c == '\t' {
            push_char(out, '\\');
            push_char(out, 't');
        } else if cu == 8 {
            push_char(out, '\\');
            push_char(out, 'b');
        } else if cu == 12 {
            push_char(out, '\\');
            push_char(out, 'f');
        } else {
            push_char(out, c);
        }
        proof {
            lemma_escape_push(text@.take(i as int), text@[i as int]);
            assert(text@.take(i + 1) =~= text@.take(i as int).push(text@[i as int]));
            assert(out@ =~= old(out)@ + escape_string(text@.take(i + 1)));
        }
        i += 1;
    }
    proof {
        assert(text@.take(n as int) =~= text@);
    }
}

/// Appends `text` quoted and escaped to `out`.
fn append_quoted(out: &mut String, text: &str)
    ensures
        final(out)@ == old(out)@ + seq!['"'] + escape_string(text@) + seq!['"'],
{
    push_char(out, '"');
    append_escaped(out, text);
    push_char(out, '"');
    proof {
        assert(out@ =~= old(out)@ + seq!['"'] + escape_string(text@) + seq!['"']);
    }
}

/// Appends a date as `YYYY-MM-DD` to `out`.
fn append_date(out: &mut String, d: &Date)
    ensures
        final(out)@ == old(out)@ + enc_date(*d),
{
    push_char(out, digit_char(d.year / 10 / 10 / 10 % 10));
    push_char(out, digit_char(d.year / 10 / 10 % 10));
    push_char(out, digit_char(d.year / 10 % 10));
    push_char(out, digit_char(d.year % 10));
    push_char(out, '-');
    push_char(out, digit_char((d.month / 10 % 10) as u16));
    push_char(out, digit_char((d.month % 10) as u16));
    push_char(out, '-');
    push_char(out, digit_char((d.day / 10 % 10) as u16));
    push_char(out, digit_char((d.day % 10) as u16));
    proof {
        assert(out@ =~= old(out)@ + enc_date(*d));
    }
}

/// Appends an optional date (`null` or quoted) to `out`.
fn append_opt_date(out: &mut String, od: &Option<Date>)
    ensures
        final(out)@ == old(out)@ + enc_opt_date(*od),
{
    match od {
        Some(d) => {
            push_char(out, '"');
            append_date(out, d);
            push_char(out, '"');
            proof {
                assert(out@ =~= old(out)@ + (seq!['"'] + enc_date(*d) + seq!['"']));
            }
        },
        None => {
            out.append("null");
            proof {
                reveal_strlit("null");
                assert("null"@ =~= seq!['n', 'u', 'l', 'l']);
            }
        },
    }
}

/// Appends a color tag's name to `out`.
fn append_color_name(out: &mut String, c: &Color)
    ensures
        final(out)@ == old(out)@ + color_chars(*c),
{
    match c {
        Color::Red => {
            out.append("Red");
            proof {
                reveal_strlit("Red");
                assert("Red"@ =~= color_chars(Color::Red));
            }
        },
        Color::Yellow => {
            out.append("Yellow");
            proof {
                reveal_strlit("Yellow");
                assert("Yellow"@ =~= color_chars(Color::Yellow));
            }
        },
        Color::Green => {
            out.append("Green");
            proof {
                reveal_strlit("Green");
                assert("Green"@ =~= color_chars(Color::Green));
            }
        },
        Color::Blue => {
            out.append("Blue");
            proof {
                reveal_strlit("Blue");
                assert("Blue"@ =~= color_chars(Color::Blue));
            }
        },
        Color::Purple => {
            out.append("Purple");
            proof {
                reveal_strlit("Purple");
                assert("Purple"@ =~= color_chars(Color::Purple));
            }
        },
    }
}

/// Appends an optional color (`null` or the quoted name) to `out`.
fn append_opt_color(out: &mut String, oc: &Option<Color>)
    ensures
        final(out)@ == old(out)@ + enc_opt_color(*oc),
{
    match oc {
        Some(c) => {
            push_char(out, '"');
            append_color_name(out, c);
            push_char(out, '"');
            proof {
                assert(out@ =~= old(out)@ + (seq!['"'] + color_chars(*c) + seq!['"']));
            }
        },
        None => {
            out.append("null");
            proof {
                reveal_strlit("null");
                assert("null"@ =~= seq!['n', 'u', 'l', 'l']);
            }
        },
    }
}

/// Appends one task record to `out`.
#[verifier::rlimit(60)]
fn append_task(out: &mut String, t: &Task)
    ensures
        final(out)@ == old(out)@ + enc_task(t@),
{
    out.append("{\"name\":\"");
    proof {
        reveal_strlit("{\"name\":\"");
        assert("{\"name\":\""@ =~= lit_name());
    }
    append_escaped(out, t.name.as_str());
    proof {
        assert(out@ =~= old(out)@ + (lit_name() + escape_string(t@.name)));
    }
    out.append("\",\"creation_date\":\"");
    proof {
        reveal_strlit("\",\"creation_date\":\"");
        assert("\",\"creation_date\":\""@ =~= seq!['"'] + lit_cre());
        assert(out@ =~= old(out)@ + (lit_name() + escape_string(t@.name) + seq!['"'] + lit_cre()));
    }
    append_date(out, &t.creation_date);
    proof {
        assert(out@ =~= old(out)@ + (lit_name() + escape_string(t@.name) + seq!['"'] + lit_cre()
            + enc_date(t@.creation_date)));
    }
    out.append("\",\"due_date\":");
    proof {
        reveal_strlit("\",\"due_date\":");
        assert("\",\"due_date\":"@ =~= lit_due());
        assert(out@ =~= old(out)@ + (lit_name() + escape_string(t@.name) + seq!['"'] + lit_cre()
            + enc_date(t@.creation_date) + lit_due()));
    }
    append_opt_date(out, &t.due_date);
    proof {
        assert(out@ =~= old(out)@ + (lit_name() + escape_string(t@.name) + seq!['"'] + lit_cre()
            + enc_date(t@.creation_date) + lit_due() + enc_opt_date(t@.due_date)));
    }
    out.append(",\"color\":");
    proof {
        reveal_strlit(",\"color\":");
        assert(",\"color\":"@ =~= lit_color());
        assert(out@ =~= old(out)@ + (lit_name() + escape_string(t@.name) + seq!['"'] + lit_cre()
            + enc_date(t@.creation_date) + lit_due() + enc_opt_date(t@.due_date) + lit_color()));
    }
    append_opt_color(out, &t.color);
    proof {
        assert(out@ =~= old(out)@ + (lit_name() + escape_string(t@.name) + seq!['"'] + lit_cre()
            + enc_date(t@.creation_date) + lit_due() + enc_opt_date(t@.due_date) + lit_color()
            + enc_opt_color(t@.color)));
    }
    out.append(",\"note\":\"");
    proof {
        reveal_strlit(",\"note\":\"");
        assert(",\"note\":\""@ =~= lit_note());
        assert(out@ =~= old(out)@ + (lit_name() + escape_string(t@.name) + seq!['"'] + lit_cre()
            + enc_date(t@.creation_date) + lit_due() + enc_opt_date(t@.due_date) + lit_color()
            + enc_opt_color(t@.color) + lit_note()));
    }
    append_escaped(out, t.note.as_str());
    proof {
        assert(out@ =~= old(out)@ + (lit_name() + escape_string(t@.name) + seq!['"'] + lit_cre()
            + enc_date(t@.creation_date) + lit_due() + enc_opt_date(t@.due_date) + lit_color()
            + enc_opt_color(t@.color) + lit_note() + escape_string(t@.note)));
    }
    out.append("\"}");
    proof {
        reveal_strlit("\"}");
        assert("\"}"@ =~= seq!['"', '}']);
        reveal(enc_task);
        assert(out@ =~= old(out)@ + enc_task(t@));
    }
}

#[verifier::rlimit(60)]
proof fn lemma_enc_rest_push(ts: Seq<TaskData>, t: TaskData)
    ensures
        enc_tasks_rest(ts.push(t)) == enc_tasks_rest(ts) + seq![','] + enc_task(t),
    decreases ts.len(),
{
    let u = ts.push(t);
    if ts.len() == 0 {
        assert(u[0] == t);
        assert(u.drop_first() =~= Seq::<TaskData>::empty());
        assert(enc_tasks_rest(u) == seq![','] + enc_task(t) + enc_tasks_rest(
            Seq::<TaskData>::empty(),
        ));
        assert(enc_tasks_rest(ts) + seq![','] + enc_task(t) =~= seq![','] + enc_task(t)
            + Seq::<char>::empty());
        assert(seq![','] + enc_task(t) + Seq::<char>::empty() =~= seq![','] + enc_task(t)
            + enc_tasks_rest(Seq::<TaskData>::empty()));
    } else {
        assert(u[0] == ts[0]);
        assert(u.drop_first() =~= ts.drop_first().push(t));
        lemma_enc_rest_push(ts.drop_first(), t);
        assert(enc_tasks_rest(u) == seq![','] + enc_task(ts[0]) + enc_tasks_rest(u.drop_first()));
        assert(enc_tasks_rest(u.drop_first()) == enc_tasks_rest(ts.drop_first()) + seq![',']
            + enc_task(t));
        assert(enc_tasks_rest(ts) == seq![','] + enc_task(ts[0]) + enc_tasks_rest(
            ts.drop_first(),
        ));
        assert(seq![','] + enc_task(ts[0]) + (enc_tasks_rest(ts.drop_first()) + seq![',']
            + enc_task(t)) =~= (seq![','] + enc_task(ts[0]) + enc_tasks_rest(ts.drop_first()))
            + seq![','] + enc_task(t));
    }
}

proof fn lemma_enc_items_push(ts: Seq<TaskData>, t: TaskData)
    ensures
        enc_items(ts.push(t)) == enc_items(ts) + (if ts.len() == 0 {
            enc_task(t)
        } else {
            seq![','] + enc_task(t)
        }),
{
    if ts.len() == 0 {
        assert(ts.push(t)[0] == t);
        assert(ts.push(t).drop_first() =~= Seq::<TaskData>::empty());
        assert(enc_items(ts.push(t)) =~= enc_items(ts) + enc_task(t));
    } else {
        assert(ts.push(t)[0] == ts[0]);
        assert(ts.push(t).drop_first() =~= ts.drop_first().push(t));
        lemma_enc_rest_push(ts.drop_first(), t);
        assert(enc_items(ts.push(t)) =~= enc_items(ts) + seq![','] + enc_task(t));
    }
}

/// Encodes a task collection as its canonical document.
pub fn encode_tasks(tasks: &Vec<Task>) -> (r: String)
    ensures
        r@ == enc_doc(tasks_view(tasks@)),
{
    let mut out = String::new();
    push_char(&mut out, '[');
    let mut i: usize = 0;
    while i < tasks.len()
        invariant
            i <= tasks@.len(),
            out@ == seq!['['] + enc_items(tasks_view(tasks@).take(i as int)),
        decreases tasks@.len() - i,
    {
        if i > 0 {
            push_char(&mut out, ',');
        }
        append_task(&mut out, &tasks[i]);
        proof {
            let tv = tasks_view(tasks@);
            lemma_enc_items_push(tv.take(i as int), tv[i as int]);
            assert(tv.take(i + 1) =~= tv.take(i as int).push(tv[i as int]));
            assert(out@ =~= seq!['['] + enc_items(tv.take(i + 1)));
        }
        i += 1;
    }
    push_char(&mut out, ']');
    proof {
        assert(tasks_view(tasks@).take(tasks@.len() as int) =~= tasks_view(tasks@));
        assert(out@ =~= enc_doc(tasks_view(tasks@)));
    }
    out
}


// ---- The decoder, as specification -------------------------------------------

/// The character a backslash escape code stands for, when it is one the
/// encoder writes.
pub open spec fn unescape_code(e: char) -> Option<char> {
    if e == '"' {
        Some('"')
    } else if e == '\\' {
        Some('\\')
    } else if e == 'n' {
        Some('\n')
    } else if e == 'r' {
        Some('\r')
    } else if e == 't' {
        Some('\t')
    } else if e == 'b' {
        Some('\u{8}')
    } else if e == 'f' {
        Some('\u{c}')
    } else {
        None
    }
}

/// Parses a string body starting at `i`, up to and including its closing
/// quote: the unescaped contents and the position after the quote.
pub open spec fn p_string(s: Seq<char>, i: int) -> Option<(Seq<char>, int)>
    decreases s.len() - i,
{
    if i < 0 || i >= s.len() {
        None
    } else if s[i] == '"' {
        Some((Seq::empty(), i + 1))
    } else if s[i] == '\\' {
        if i + 1 >= s.len() {
            None
        } else {
            match unescape_code(s[i + 1]) {
                Some(c) => match p_string(s, i + 2) {
                    Some((x, n)) => Some((seq![c] + x, n)),
                    None => None,
                },
                None => None,
            }
        }
    } else {
        match p_string(s, i + 1) {
            Some((x, n)) => Some((seq![s[i]] + x, n)),
            None => None,
        }
    }
}

/// The text at position `i` starts with `lit`.
pub open spec fn lit_at(s: Seq<char>, i: int, lit: Seq<char>) -> bool {
    &&& 0 <= i
    &&& i + lit.len() <= s.len()
    &&& s.subrange(i, i + lit.len()) == lit
}

/// Ten characters of the `YYYY-MM-DD` shape stand at position `i`.
pub open spec fn date_digits_at(s: Seq<char>, i: int) -> bool {
    &&& 0 <= i && i + 10 <= s.len()
    &&& is_digit(s[i]) && is_digit(s[i + 1]) && is_digit(s[i + 2]) && is_digit(s[i + 3])
    &&& s[i + 4] == '-'
    &&& is_digit(s[i + 5]) && is_digit(s[i + 6])
    &&& s[i + 7] == '-'
    &&& is_digit(s[i + 8]) && is_digit(s[i + 9])
}

/// Parses a `YYYY-MM-DD` date at position `i`, requiring a month in `1..=12`
/// and a day in `1..=31`.
pub open spec fn p_date(s: Seq<char>, i: int) -> Option<(Date, int)> {
    if date_digits_at(s, i) {
        let y = digit_val(s[i]) * 1000 + digit_val(s[i + 1]) * 100 + digit_val(s[i + 2]) * 10
            + digit_val(s[i + 3]);
        let m = digit_val(s[i + 5]) * 10 + digit_val(s[i + 6]);
        let d = digit_val(s[i + 8]) * 10 + digit_val(s[i + 9]);
        if 1 <= m <= 12 && 1 <= d <= 31 {
            Some((Date { year: y as u16, month: m as u8, day: d as u8 }, i + 10))
        } else {
            None
        }
    } else {
        None
    }
}

/// Parses one of the five color tag names at position `i`.
pub open spec fn p_color(s: Seq<char>, i: int) -> Option<(Color, int)> {
    if lit_at(s, i, color_chars(Color::Red)) {
        Some((Color::Red, i + 3))
    } else if lit_at(s, i, color_chars(Color::Yellow)) {
        Some((Color::Yellow, i + 6))
    } else if lit_at(s, i, color_chars(Color::Green)) {
        Some((Color::Green, i + 5))
    } else if lit_at(s, i, color_chars(Color::Blue)) {
        Some((Color::Blue, i + 4))
    } else if lit_at(s, i, color_chars(Color::Purple)) {
        Some((Color::Purple, i + 6))
    } else {
        None
    }
}

/// Parses `null` or a quoted date at position `i`.
pub open spec fn p_opt_date(s: Seq<char>, i: int) -> Option<(Option<Date>, int)> {
    if lit_at(s, i, seq!['n', 'u', 'l', 'l']) {
        Some((None, i + 4))
    } else if 0 <= i < s.len() && s[i] == '"' {
        match p_date(s, i + 1) {
            Some((d, n)) => if n < s.len() && s[n] == '"' {
                Some((Some(d), n + 1))
            } else {
                None
            },
            None => None,
        }
    } else {
        None
    }
}

/// Parses `null` or a quoted color tag name at position `i`.
pub open spec fn p_opt_color(s: Seq<char>, i: int) -> Option<(Option<Color>, int)> {
    if lit_at(s, i, seq!['n', 'u', 'l', 'l']) {
        Some((None, i + 4))
    } else if 0 <= i < s.len() && s[i] == '"' {
        match p_color(s, i + 1) {
            Some((c, n)) => if n < s.len() && s[n] == '"' {
                Some((Some(c), n + 1))
            } else {
                None
            },
            None => None,
        }
    } else {
        None
    }
}

/// Parses one task record at position `i`.
pub open spec fn p_task(s: Seq<char>, i: int) -> Option<(TaskData, int)> {
    if !lit_at(s, i, lit_name()) {
        None
    } else {
        match p_string(s, i + lit_name().len()) {
            None => None,
            Some((name, n1)) => if !lit_at(s, n1, lit_cre()) {
                None
            } else {
                match p_date(s, n1 + lit_cre().len()) {
                    None => None,
                    Some((cd, n2)) => if !lit_at(s, n2, lit_due()) {
                        None
                    } else {
                        match p_opt_date(s, n2 + lit_due().len()) {
                            None => None,
                            Some((dd, n3)) => if !lit_at(s, n3, lit_color()) {
                                None
                            } else {
                                match p_opt_color(s, n3 + lit_color().len()) {
                                    None => None,
                                    Some((col, n4)) => if !lit_at(s, n4, lit_note()) {
                                        None
                                    } else {
                                        match p_string(s, n4 + lit_note().len()) {
                                            None => None,
                                            Some((note, n5)) => if n5 < s.len() && s[n5] == '}' {
                                                Some(
                                                    (
                                                        TaskData {
                                                            name,
                                                            creation_date: cd,
                                                            due_date: dd,
                                                            color: col,
                                                            note,
                                                        },
                                                        n5 + 1,
                                                    ),
                                                )
                                            } else {
                                                None
                                            },
                                        }
                                    },
                                }
                            },
                        }
                    },
                }
            },
        }
    }
}

/// Parses one or more comma-separated task records at position `i`. A record
/// always occupies at least one character, so a result that would not
/// advance is rejected outright; that keeps the recursion well founded.
pub open spec fn p_items(s: Seq<char>, i: int) -> Option<(Seq<TaskData>, int)>
    decreases s.len() - i,
{
    match p_task(s, i) {
        None => None,
        Some((t, n)) => if !(i < n <= s.len()) {
            None
        } else if n < s.len() && s[n] == ',' {
            match p_items(s, n + 1) {
                Some((ts, m)) => Some((seq![t] + ts, m)),
                None => None,
            }
        } else {
            Some((seq![t], n))
        },
    }
}

/// Parses a whole document: a bracketed, comma-separated list of task
/// records with nothing before or after it.
pub open spec fn p_doc(s: Seq<char>) -> Option<Seq<TaskData>> {
    if s.len() < 2 || s[0] != '[' {
        None
    } else if s.len() == 2 && s[1] == ']' {
        Some(Seq::empty())
    } else {
        match p_items(s, 1) {
            Some((ts, n)) => if n + 1 == s.len() && s[n] == ']' {
                Some(ts)
            } else {
                None
            },
            None => None,
        }
    }
}

// ---- The executable decoder ---------------------------------------------------

/// The characters of `s`, as a vector.
fn str_chars(s: &str) -> (r: Vec<char>)
    ensures
        r@ == s@,
{
    let n = s.unicode_len();
    let mut r: Vec<char> = Vec::new();
    let mut i: usize = 0;
    while i < n
        invariant
            i <= n,
            n == s@.len(),
            r@ == s@.take(i as int),
        decreases n - i,
    {
        r.push(s.get_char(i));
        proof {
            assert(s@.take(i + 1) =~= s@.take(i as int).push(s@[i as int]));
        }
        i += 1;
    }
    proof {
        assert(s@.take(n as int) =~= s@);
    }
    r
}

/// Scans a string body from `start`, returning the unescaped contents and
/// the position after the closing quote.
fn scan_string(v: &Vec<char>, start: usize) -> (r: Option<(String, usize)>)
    ensures
        match r {
            Some((x, n)) => p_string(v@, start as int) == Some((x@, n as int)) && start < n
                <= v@.len(),
            None => p_string(v@, start as int) is None,
        },
{
    if start >= v.len() {
        return None;
    }
    let mut out = String::new();
    let mut i: usize = start;
    loop
        invariant
            start <= i <= v@.len(),
            p_string(v@, start as int) == (match p_string(v@, i as int) {
                Some((x, n)) => Some((out@ + x, n)),
                None => None::<(Seq<char>, int)>,
            }),
        decreases v@.len() - i,
    {
        if i >= v.len() {
            return None;
        }
        let c = v[i];
        if c == '"' {
            proof {
                assert(out@ + Seq::<char>::empty() =~= out@);
            }
            return Some((out, i + 1));
        }
        let ghost out0 = out@;
        if c == '\\' {
            if i + 1 >= v.len() {
                return None;
            }
            let e = v[i + 1];
            let unescaped: char = match e {
                '"' => '"',
                '\\' => '\\',
                'n' => '\n',
                'r' => '\r',
                't' => '\t',
                'b' => '\u{8}',
                'f' => '\u{c}',
                _ => {
                    return None;
                },
            };
            push_char(&mut out, unescaped);
            proof {
                let p2 = p_string(v@, i + 2);
                if p2 is Some {
                    let pair = p2->0;
                    let x = pair.0;
                    assert(out0.push(unescaped) + x =~= out0 + (seq![unescaped] + x));
                }
            }
            i += 2;
        } else {
            push_char(&mut out, c);
            proof {
                let p2 = p_string(v@, i + 1);
                if p2 is Some {
                    let pair = p2->0;
                    let x = pair.0;
                    assert(out0.push(c) + x =~= out0 + (seq![c] + x));
                }
            }
            i += 1;
        }
    }
}

/// Checks that the text at `i` starts with `lit`.
fn scan_lit(v: &Vec<char>, i: usize, lit: &str) -> (r: bool)
    ensures
        r == lit_at(v@, i as int, lit@),
{
    proof {
        vstd::std_specs::vec::axiom_spec_len(v);
    }
    let len = lit.unicode_len();
    if i > v.len() || len > v.len() - i {
        return false;
    }
    let mut k: usize = 0;
    while k < len
        invariant
            k <= len,
            len == lit@.len(),
            i + len <= v@.len(),
            v@.len() <= usize::MAX,
            forall|k2: int| 0 <= k2 < k ==> v@[i + k2] == lit@[k2],
        decreases len - k,
    {
        if v[i + k] != lit.get_char(k) {
            proof {
                assert(v@.subrange(i as int, i + lit@.len())[k as int] == v@[i + k]);
            }
            return false;
        }
        k += 1;
    }
    proof {
        assert(v@.subrange(i as int, i + lit@.len()) =~= lit@);
    }
    true
}

/// The decimal value of the digit at `idx`, if it is one.
fn digit_at(v: &Vec<char>, idx: usize) -> (r: Option<u16>)
    requires
        idx < v@.len(),
    ensures
        match r {
            Some(d) => is_digit(v@[idx as int]) && d as int == digit_val(v@[idx as int]) && d < 10,
            None => !is_digit(v@[idx as int]),
        },
{
    let c = v[idx] as u32;
    proof {
        assert(c == v@[idx as int] as u32);
    }
    if 48 <= c && c <= 57 {
        Some((c - 48) as u16)
    } else {
        None
    }
}

/// Scans a `YYYY-MM-DD` date at `i`.
fn scan_date(v: &Vec<char>, i: usize) -> (r: Option<(Date, usize)>)
    ensures
        match r {
            Some((d, n)) => p_date(v@, i as int) == Some((d, n as int)) && d.wf() && n == i + 10,
            None => p_date(v@, i as int) is None,
        },
{
    if i > v.len() || v.len() - i < 10 {
        return None;
    }
    let d0 = match digit_at(v, i) {
        Some(d) => d,
        None => {
            return None;
        },
    };
    let d1 = match digit_at(v, i + 1) {
        Some(d) => d,
        None => {
            return None;
        },
    };
    let d2 = match digit_at(v, i + 2) {
        Some(d) => d,
        None => {
            return None;
        },
    };
    let d3 = match digit_at(v, i + 3) {
        Some(d) => d,
        None => {
            return None;
        },
    };
    if v[i + 4] != '-' {
        return None;
    }
    let d4 = match digit_at(v, i + 5) {
        Some(d) => d,
        None => {
            return None;
        },
    };
    let d5 = match digit_at(v, i + 6) {
        Some(d) => d,
        None => {
            return None;
        },
    };
    if v[i + 7] != '-' {
        return None;
    }
    let d6 = match digit_at(v, i + 8) {
        Some(d) => d,
        None => {
            return None;
        },
    };
    let d7 = match digit_at(v, i + 9) {
        Some(d) => d,
        None => {
            return None;
        },
    };
    let y: u16 = d0 * 1000 + d1 * 100 + d2 * 10 + d3;
    let m: u16 = d4 * 10 + d5;
    let d: u16 = d6 * 10 + d7;
    if 1 <= m && m <= 12 && 1 <= d && d <= 31 {
        Some((Date { year: y, month: m as u8, day: d as u8 }, i + 10))
    } else {
        None
    }
}

/// Scans `null` or a quoted date at `i`.
fn scan_opt_date(v: &Vec<char>, i: usize) -> (r: Option<(Option<Date>, usize)>)
    ensures
        match r {
            Some((od, n)) => p_opt_date(v@, i as int) == Some((od, n as int)) && i < n <= v@.len()
                && (od matches Some(d) ==> d.wf()),
            None => p_opt_date(v@, i as int) is None,
        },
{
    proof {
        vstd::std_specs::vec::axiom_spec_len(v);
    }
    if scan_lit(v, i, "null") {
        proof {
            reveal_strlit("null");
            assert("null"@ =~= seq!['n', 'u', 'l', 'l']);
        }
        return Some((None, i + 4));
    }
    proof {
        reveal_strlit("null");
        assert("null"@ =~= seq!['n', 'u', 'l', 'l']);
    }
    if i < v.len() && v[i] == '"' {
        match scan_date(v, i + 1) {
            Some((d, n)) => {
                if n < v.len() && v[n] == '"' {
                    Some((Some(d), n + 1))
                } else {
                    None
                }
            },
            None => None,
        }
    } else {
        None
    }
}

/// Scans one of the five color tag names at `i`.
fn scan_color(v: &Vec<char>, i: usize) -> (r: Option<(Color, usize)>)
    ensures
        match r {
            Some((c, n)) => p_color(v@, i as int) == Some((c, n as int)) && i < n <= v@.len(),
            None => p_color(v@, i as int) is None,
        },
{
    proof {
        vstd::std_specs::vec::axiom_spec_len(v);
    }
    proof {
        reveal_strlit("Red");
        reveal_strlit("Yellow");
        reveal_strlit("Green");
        reveal_strlit("Blue");
        reveal_strlit("Purple");
        assert("Red"@ =~= color_chars(Color::Red));
        assert("Yellow"@ =~= color_chars(Color::Yellow));
        assert("Green"@ =~= color_chars(Color::Green));
        assert("Blue"@ =~= color_chars(Color::Blue));
        assert("Purple"@ =~= color_chars(Color::Purple));
    }
    if scan_lit(v, i, "Red") {
        Some((Color::Red, i + 3))
    } else if scan_lit(v, i, "Yellow") {
        Some((Color::Yellow, i + 6))
    } else if scan_lit(v, i, "Green") {
        Some((Color::Green, i + 5))
    } else if scan_lit(v, i, "Blue") {
        Some((Color::Blue, i + 4))
    } else if scan_lit(v, i, "Purple") {
        Some((Color::Purple, i + 6))
    } else {
        None
    }
}

/// Scans `null` or a quoted color tag name at `i`.
fn scan_opt_color(v: &Vec<char>, i: usize) -> (r: Option<(Option<Color>, usize)>)
    ensures
        match r {
            Some((oc, n)) => p_opt_color(v@, i as int) == Some((oc, n as int)) && i < n
                <= v@.len(),
            None => p_opt_color(v@, i as int) is None,
        },
{
    proof {
        vstd::std_specs::vec::axiom_spec_len(v);
    }
    if scan_lit(v, i, "null") {
        proof {
            reveal_strlit("null");
            assert("null"@ =~= seq!['n', 'u', 'l', 'l']);
        }
        return Some((None, i + 4));
    }
    proof {
        reveal_strlit("null");
        assert("null"@ =~= seq!['n', 'u', 'l', 'l']);
    }
    if i < v.len() && v[i] == '"' {
        match scan_color(v, i + 1) {
            Some((c, n)) => {
                if n < v.len() && v[n] == '"' {
                    Some((Some(c), n + 1))
                } else {
                    None
                }
            },
            None => None,
        }
    } else {
        None
    }
}

/// Scans one task record at `i`.
#[verifier::rlimit(60)]
fn scan_task(v: &Vec<char>, i: usize) -> (r: Option<(Task, usize)>)
    ensures
        match r {
            Some((t, n)) => p_task(v@, i as int) == Some((t@, n as int)) && t.wf() && i < n
                <= v@.len(),
            None => p_task(v@, i as int) is None,
        },
{
    proof {
        vstd::std_specs::vec::axiom_spec_len(v);
        reveal_strlit("{\"name\":\"");
        assert("{\"name\":\""@ =~= lit_name());
        reveal_strlit(",\"creation_date\":\"");
        assert(",\"creation_date\":\""@ =~= lit_cre());
        reveal_strlit("\",\"due_date\":");
        assert("\",\"due_date\":"@ =~= lit_due());
        reveal_strlit(",\"color\":");
        assert(",\"color\":"@ =~= lit_color());
        reveal_strlit(",\"note\":\"");
        assert(",\"note\":\""@ =~= lit_note());
    }
    if !scan_lit(v, i, "{\"name\":\"") {
        return None;
    }
    let (name, n1) = match scan_string(v, i + 9) {
        Some(x) => x,
        None => {
            return None;
        },
    };
    if !scan_lit(v, n1, ",\"creation_date\":\"") {
        return None;
    }
    let (cd, n2) = match scan_date(v, n1 + 18) {
        Some(x) => x,
        None => {
            return None;
        },
    };
    if !scan_lit(v, n2, "\",\"due_date\":") {
        return None;
    }
    let (dd, n3) = match scan_opt_date(v, n2 + 13) {
        Some(x) => x,
        None => {
            return None;
        },
    };
    if !scan_lit(v, n3, ",\"color\":") {
        return None;
    }
    let (col, n4) = match scan_opt_color(v, n3 + 9) {
        Some(x) => x,
        None => {
            return None;
        },
    };
    if !scan_lit(v, n4, ",\"note\":\"") {
        return None;
    }
    let (note, n5) = match scan_string(v, n4 + 9) {
        Some(x) => x,
        None => {
            return None;
        },
    };
    if n5 < v.len() && v[n5] == '}' {
        let t = Task { name, creation_date: cd, due_date: dd, color: col, note };
        Some((t, n5 + 1))
    } else {
        None
    }
}

/// Scans one or more comma-separated task records at `i`.
fn scan_items(v: &Vec<char>, start: usize) -> (r: Option<(Vec<Task>, usize)>)
    ensures
        match r {
            Some((ts, n)) => p_items(v@, start as int) == Some((tasks_view(ts@), n as int))
                && tasks_wf(ts@) && start < n <= v@.len(),
            None => p_items(v@, start as int) is None,
        },
{
    if start > v.len() {
        return None;
    }
    let mut tasks: Vec<Task> = Vec::new();
    let mut i: usize = start;
    loop
        invariant
            start <= i <= v@.len(),
            tasks_wf(tasks@),
            p_items(v@, start as int) == (match p_items(v@, i as int) {
                Some((ts, m)) => Some((tasks_view(tasks@) + ts, m)),
                None => None::<(Seq<TaskData>, int)>,
            }),
        decreases v@.len() - i,
    {
        let ghost tasks0 = tasks@;
        let (t, n) = match scan_task(v, i) {
            Some(x) => x,
            None => {
                return None;
            },
        };
        tasks.push(t);
        proof {
            assert(tasks_view(tasks@) =~= tasks_view(tasks0).push(t@));
        }
        if n < v.len() && v[n] == ',' {
            proof {
                let p2 = p_items(v@, n + 1);
                if p2 is Some {
                    let pair = p2->0;
                    let ts = pair.0;
                    assert(tasks_view(tasks0).push(t@) + ts =~= tasks_view(tasks0) + (seq![t@]
                        + ts));
                }
            }
            i = n + 1;
        } else {
            proof {
                assert(tasks_view(tasks0).push(t@) =~= tasks_view(tasks0) + seq![t@]);
            }
            return Some((tasks, n));
        }
    }
}

/// Decodes a document back into a task collection; fails on anything that is
/// not the canonical encoding of one.
pub fn decode_tasks(s: &str) -> (r: Result<Vec<Task>, FileError>)
    ensures
        match r {
            Ok(ts) => p_doc(s@) == Some(tasks_view(ts@)) && tasks_wf(ts@),
            Err(e) => e == FileError::Deserialize && p_doc(s@) is None,
        },
{
    let v = str_chars(s);
    if v.len() < 2 || v[0] != '[' {
        return Err(FileError::Deserialize);
    }
    if v.len() == 2 && v[1] == ']' {
        let empty: Vec<Task> = Vec::new();
        proof {
            assert(tasks_view(empty@) =~= Seq::<TaskData>::empty());
        }
        return Ok(empty);
    }
    match scan_items(&v, 1) {
        Some((ts, n)) => {
            if n == v.len() - 1 && v[n] == ']' {
                Ok(ts)
            } else {
                Err(FileError::Deserialize)
            }
        },
        None => Err(FileError::Deserialize),
    }
}



// ---- Decoding inverts encoding ------------------------------------------------

proof fn lemma_lit_parses(pre: Seq<char>, lit: Seq<char>, rest: Seq<char>)
    ensures
        lit_at(pre + lit + rest, pre.len() as int, lit),
{
    assert((pre + lit + rest).subrange(pre.len() as int, pre.len() + lit.len() as int) =~= lit);
}

proof fn lemma_p_string_inverts(pre: Seq<char>, x: Seq<char>, rest: Seq<char>)
    ensures
        p_string(pre + escape_string(x) + seq!['"'] + rest, pre.len() as int) == Some(
            (x, (pre.len() + escape_string(x).len() + 1) as int),
        ),
    decreases x.len(),
{
    let s = pre + escape_string(x) + seq!['"'] + rest;
    let i = pre.len() as int;
    if x.len() == 0 {
        assert(s[i] == '"');
    } else {
        let c = x[0];
        let x1 = x.drop_first();
        assert(escape_string(x) == escape_char(c) + escape_string(x1));
        let pre2 = pre + escape_char(c);
        assert(s =~= pre2 + escape_string(x1) + seq!['"'] + rest);
        lemma_p_string_inverts(pre2, x1, rest);
        assert(seq![c] + x1 =~= x);
        if c == '"' || c == '\\' || c == '\n' || c == '\r' || c == '\t' || c as int == 8
            || c as int == 12 {
            assert(escape_char(c)[0] == '\\' && s[i] == '\\');
            assert(s[i + 1] == escape_char(c)[1]);
            assert(unescape_code(s[i + 1]) == Some(c));
        } else {
            assert(s[i] == c);
        }
    }
}

proof fn lemma_two_digits(m: int)
    requires
        0 <= m <= 99,
    ensures
        (m / 10 % 10) * 10 + m % 10 == m,
{
}

proof fn lemma_four_digits(y: int)
    requires
        0 <= y <= 9999,
    ensures
        (y / 10 / 10 / 10 % 10) * 1000 + (y / 10 / 10 % 10) * 100 + (y / 10 % 10) * 10 + y % 10
            == y,
{
}

proof fn lemma_dig_val(n: int)
    requires
        0 <= n <= 9,
    ensures
        is_digit(dig(n)),
        digit_val(dig(n)) == n,
{
}

proof fn lemma_p_date_inverts(pre: Seq<char>, d: Date, rest: Seq<char>)
    requires
        d.wf(),
    ensures
        p_date(pre + enc_date(d) + rest, pre.len() as int) == Some((d, (pre.len() + 10) as int)),
{
    let s = pre + enc_date(d) + rest;
    let i = pre.len() as int;
    let y = d.year as int;
    let m = d.month as int;
    let dy = d.day as int;
    assert forall|k: int| 0 <= k < 10 implies s[i + k] == enc_date(d)[k] by {}
    lemma_dig_val(y / 10 / 10 / 10 % 10);
    lemma_dig_val(y / 10 / 10 % 10);
    lemma_dig_val(y / 10 % 10);
    lemma_dig_val(y % 10);
    lemma_dig_val(m / 10 % 10);
    lemma_dig_val(m % 10);
    lemma_dig_val(dy / 10 % 10);
    lemma_dig_val(dy % 10);
    assert(date_digits_at(s, i));
    lemma_four_digits(y);
    lemma_two_digits(m);
    lemma_two_digits(dy);
    assert(digit_val(s[i]) * 1000 + digit_val(s[i + 1]) * 100 + digit_val(s[i + 2]) * 10
        + digit_val(s[i + 3]) == y);
    assert(digit_val(s[i + 5]) * 10 + digit_val(s[i + 6]) == m);
    assert(digit_val(s[i + 8]) * 10 + digit_val(s[i + 9]) == dy);
}

proof fn lemma_p_color_inverts(pre: Seq<char>, c: Color, rest: Seq<char>)
    ensures
        p_color(pre + color_chars(c) + rest, pre.len() as int) == Some(
            (c, (pre.len() + color_chars(c).len()) as int),
        ),
{
    let s = pre + color_chars(c) + rest;
    let i = pre.len() as int;
    lemma_lit_parses(pre, color_chars(c), rest);
    assert(s[i] == color_chars(c)[0]);
    if lit_at(s, i, color_chars(Color::Red)) {
        assert(s.subrange(i, i + 3)[0] == s[i]);
    }
    if lit_at(s, i, color_chars(Color::Yellow)) {
        assert(s.subrange(i, i + 6)[0] == s[i]);
    }
    if lit_at(s, i, color_chars(Color::Green)) {
        assert(s.subrange(i, i + 5)[0] == s[i]);
    }
    if lit_at(s, i, color_chars(Color::Blue)) {
        assert(s.subrange(i, i + 4)[0] == s[i]);
    }
    if lit_at(s, i, color_chars(Color::Purple)) {
        assert(s.subrange(i, i + 6)[0] == s[i]);
    }
}

proof fn lemma_p_opt_date_inverts(pre: Seq<char>, od: Option<Date>, rest: Seq<char>)
    requires
        od matches Some(d) ==> d.wf(),
    ensures
        p_opt_date(pre + enc_opt_date(od) + rest, pre.len() as int) == Some(
            (od, (pre.len() + enc_opt_date(od).len()) as int),
        ),
{
    let s = pre + enc_opt_date(od) + rest;
    let i = pre.len() as int;
    match od {
        None => {
            lemma_lit_parses(pre, seq!['n', 'u', 'l', 'l'], rest);
        },
        Some(d) => {
            assert(s[i] == '"');
            if lit_at(s, i, seq!['n', 'u', 'l', 'l']) {
                assert(s.subrange(i, i + 4)[0] == s[i]);
            }
            let pre2 = pre + seq!['"'];
            assert(s =~= pre2 + enc_date(d) + (seq!['"'] + rest));
            lemma_p_date_inverts(pre2, d, seq!['"'] + rest);
            assert(s[pre2.len() + 10 as int] == '"');
        },
    }
}

proof fn lemma_p_opt_color_inverts(pre: Seq<char>, oc: Option<Color>, rest: Seq<char>)
    ensures
        p_opt_color(pre + enc_opt_color(oc) + rest, pre.len() as int) == Some(
            (oc, (pre.len() + enc_opt_color(oc).len()) as int),
        ),
{
    let s = pre + enc_opt_color(oc) + rest;
    let i = pre.len() as int;
    match oc {
        None => {
            lemma_lit_parses(pre, seq!['n', 'u', 'l', 'l'], rest);
        },
        Some(c) => {
            assert(s[i] == '"');
            if lit_at(s, i, seq!['n', 'u', 'l', 'l']) {
                assert(s.subrange(i, i + 4)[0] == s[i]);
            }
            let pre2 = pre + seq!['"'];
            assert(s =~= pre2 + color_chars(c) + (seq!['"'] + rest));
            lemma_p_color_inverts(pre2, c, seq!['"'] + rest);
            assert(s[pre2.len() + color_chars(c).len() as int] == '"');
        },
    }
}

#[verifier::rlimit(100)]
proof fn lemma_p_task_pieces_a1(pre: Seq<char>, t: TaskData, rest: Seq<char>)
    requires
        t.wf(),
    ensures
        ({
            let s = pre + enc_task(t) + rest;
            let p0 = pre.len() as int;
            let n1 = p0 + 9 + escape_string(t.name).len() + 1;
            &&& lit_at(s, p0, lit_name())
            &&& p_string(s, p0 + 9) == Some((t.name, n1))
        }),
{
    reveal(enc_task);
    let s = pre + enc_task(t) + rest;
    let e1 = escape_string(t.name);
    let e2 = escape_string(t.note);
    let cd = enc_date(t.creation_date);
    let od = enc_opt_date(t.due_date);
    let oc = enc_opt_color(t.color);
    let pre1 = pre + lit_name();
    assert(lit_at(s, pre.len() as int, lit_name())) by {
        let r = e1 + seq!['"'] + lit_cre() + cd + lit_due() + od + lit_color() + oc + lit_note()
            + e2 + seq!['"', '}'] + rest;
        assert(s =~= pre + lit_name() + r);
        lemma_lit_parses(pre, lit_name(), r);
    }
    assert(p_string(s, pre1.len() as int) == Some(
        (t.name, (pre1.len() + e1.len() + 1) as int),
    )) by {
        let r = lit_cre() + cd + lit_due() + od + lit_color() + oc + lit_note() + e2
            + seq!['"', '}'] + rest;
        assert(s =~= pre1 + e1 + seq!['"'] + r);
        lemma_p_string_inverts(pre1, t.name, r);
    }
}

#[verifier::rlimit(100)]
proof fn lemma_p_task_pieces_a2(pre: Seq<char>, t: TaskData, rest: Seq<char>)
    requires
        t.wf(),
    ensures
        ({
            let s = pre + enc_task(t) + rest;
            let p0 = pre.len() as int;
            let n1 = p0 + 9 + escape_string(t.name).len() + 1;
            let n2 = n1 + 18 + 10;
            &&& lit_at(s, n1, lit_cre())
            &&& p_date(s, n1 + 18) == Some((t.creation_date, n2))
            &&& lit_at(s, n2, lit_due())
        }),
{
    reveal(enc_task);
    let s = pre + enc_task(t) + rest;
    let e1 = escape_string(t.name);
    let e2 = escape_string(t.note);
    let cd = enc_date(t.creation_date);
    let od = enc_opt_date(t.due_date);
    let oc = enc_opt_color(t.color);
    let pre2 = pre + lit_name() + e1 + seq!['"'];
    let pre3 = pre2 + lit_cre();
    let pre4 = pre3 + cd;
    assert(lit_at(s, pre2.len() as int, lit_cre())) by {
        let r = cd + lit_due() + od + lit_color() + oc + lit_note() + e2 + seq!['"', '}'] + rest;
        assert(s =~= pre2 + lit_cre() + r);
        lemma_lit_parses(pre2, lit_cre(), r);
    }
    assert(p_date(s, pre3.len() as int) == Some((t.creation_date, pre4.len() as int))) by {
        let r = lit_due() + od + lit_color() + oc + lit_note() + e2 + seq!['"', '}'] + rest;
        assert(s =~= pre3 + cd + r);
        lemma_p_date_inverts(pre3, t.creation_date, r);
    }
    assert(lit_at(s, pre4.len() as int, lit_due())) by {
        let r = od + lit_color() + oc + lit_note() + e2 + seq!['"', '}'] + rest;
        assert(s =~= pre4 + lit_due() + r);
        lemma_lit_parses(pre4, lit_due(), r);
    }
}

#[verifier::rlimit(100)]
proof fn lemma_p_task_pieces_b(pre: Seq<char>, t: TaskData, rest: Seq<char>)
    requires
        t.wf(),
    ensures
        ({
            let s = pre + enc_task(t) + rest;
            let p0 = pre.len() as int;
            let n2 = p0 + 9 + escape_string(t.name).len() + 1 + 18 + 10;
            let n3 = n2 + 13 + enc_opt_date(t.due_date).len();
            let n4 = n3 + 9 + enc_opt_color(t.color).len();
            let n5 = n4 + 9 + escape_string(t.note).len() + 1;
            &&& p_opt_date(s, n2 + 13) == Some((t.due_date, n3))
            &&& lit_at(s, n3, lit_color())
            &&& p_opt_color(s, n3 + 9) == Some((t.color, n4))
            &&& lit_at(s, n4, lit_note())
            &&& p_string(s, n4 + 9) == Some((t.note, n5))
            &&& s[n5] == '}'
            &&& n5 + 1 == p0 + enc_task(t).len()
        }),
{
    reveal(enc_task);
    let s = pre + enc_task(t) + rest;
    let e1 = escape_string(t.name);
    let e2 = escape_string(t.note);
    let cd = enc_date(t.creation_date);
    let od = enc_opt_date(t.due_date);
    let oc = enc_opt_color(t.color);
    let pre5 = pre + lit_name() + e1 + seq!['"'] + lit_cre() + cd + lit_due();
    let pre6 = pre5 + od;
    let pre7 = pre6 + lit_color();
    let pre8 = pre7 + oc;
    let pre9 = pre8 + lit_note();
    assert(p_opt_date(s, pre5.len() as int) == Some((t.due_date, pre6.len() as int))) by {
        let r = lit_color() + oc + lit_note() + e2 + seq!['"', '}'] + rest;
        assert(s =~= pre5 + od + r);
        lemma_p_opt_date_inverts(pre5, t.due_date, r);
    }
    assert(lit_at(s, pre6.len() as int, lit_color())) by {
        let r = oc + lit_note() + e2 + seq!['"', '}'] + rest;
        assert(s =~= pre6 + lit_color() + r);
        lemma_lit_parses(pre6, lit_color(), r);
    }
    assert(p_opt_color(s, pre7.len() as int) == Some((t.color, pre8.len() as int))) by {
        let r = lit_note() + e2 + seq!['"', '}'] + rest;
        assert(s =~= pre7 + oc + r);
        lemma_p_opt_color_inverts(pre7, t.color, r);
    }
    assert(lit_at(s, pre8.len() as int, lit_note())) by {
        let r = e2 + seq!['"', '}'] + rest;
        assert(s =~= pre8 + lit_note() + r);
        lemma_lit_parses(pre8, lit_note(), r);
    }
    assert(p_string(s, pre9.len() as int) == Some(
        (t.note, (pre9.len() + e2.len() + 1) as int),
    )) by {
        let r = seq!['}'] + rest;
        assert(s =~= pre9 + e2 + seq!['"'] + r);
        lemma_p_string_inverts(pre9, t.note, r);
    }
    assert(s[(pre9.len() + e2.len() + 1) as int] == '}') by {
        assert(s =~= pre9 + e2 + seq!['"'] + seq!['}'] + rest);
    }
}

#[verifier::rlimit(100)]
proof fn lemma_p_task_inverts(pre: Seq<char>, t: TaskData, rest: Seq<char>)
    requires
        t.wf(),
    ensures
        p_task(pre + enc_task(t) + rest, pre.len() as int) == Some(
            (t, (pre.len() + enc_task(t).len()) as int),
        ),
{
    let s = pre + enc_task(t) + rest;
    let i = pre.len() as int;
    lemma_p_task_pieces_a1(pre, t, rest);
    lemma_p_task_pieces_a2(pre, t, rest);
    lemma_p_task_pieces_b(pre, t, rest);
    assert(lit_name().len() == 9);
    assert(lit_cre().len() == 18);
    assert(lit_due().len() == 13);
    assert(lit_color().len() == 9);
    assert(lit_note().len() == 9);
}

#[verifier::rlimit(100)]
proof fn lemma_p_items_single(pre: Seq<char>, t0: TaskData, rest: Seq<char>)
    requires
        t0.wf(),
        rest.len() >= 1,
        rest[0] == ']',
    ensures
        p_items(pre + enc_task(t0) + rest, pre.len() as int) == Some(
            (seq![t0], (pre.len() + enc_task(t0).len()) as int),
        ),
{
    let s = pre + enc_task(t0) + rest;
    let i = pre.len() as int;
    lemma_p_task_inverts(pre, t0, rest);
    let n = (pre.len() + enc_task(t0).len()) as int;
    assert(s[n] == rest[0]);
}

#[verifier::rlimit(100)]
proof fn lemma_p_items_inverts(pre: Seq<char>, ts: Seq<TaskData>, rest: Seq<char>)
    requires
        ts.len() >= 1,
        forall|k: int| 0 <= k < ts.len() ==> (#[trigger] ts[k]).wf(),
        rest.len() >= 1,
        rest[0] == ']',
    ensures
        p_items(pre + enc_items(ts) + rest, pre.len() as int) == Some(
            (ts, (pre.len() + enc_items(ts).len()) as int),
        ),
    decreases ts.len(),
{
    let s = pre + enc_items(ts) + rest;
    let i = pre.len() as int;
    let t0 = ts[0];
    let dr = ts.drop_first();
    let n = (pre.len() + enc_task(t0).len()) as int;
    if ts.len() == 1 {
        assert(p_items(s, i) == Some((seq![t0], n))) by {
            assert(enc_items(ts) =~= enc_task(t0));
            assert(s =~= pre + enc_task(t0) + rest);
            lemma_p_items_single(pre, t0, rest);
        }
        assert(seq![t0] =~= ts);
    } else {
        assert(enc_tasks_rest(dr) =~= seq![','] + enc_items(dr));
        assert(p_task(s, i) == Some((t0, n))) by {
            let r1 = enc_tasks_rest(dr) + rest;
            assert(s =~= pre + enc_task(t0) + r1);
            lemma_p_task_inverts(pre, t0, r1);
        }
        assert(s[n] == ',') by {
            assert(s =~= pre + enc_task(t0) + (seq![','] + enc_items(dr)) + rest);
        }
        let pre2 = pre + enc_task(t0) + seq![','];
        assert(p_items(s, pre2.len() as int) == Some(
            (dr, (pre2.len() + enc_items(dr).len()) as int),
        )) by {
            assert(s =~= pre2 + enc_items(dr) + rest);
            assert(forall|k: int| 0 <= k < dr.len() ==> (#[trigger] dr[k]).wf());
            lemma_p_items_inverts(pre2, dr, rest);
        }
        assert(seq![t0] + dr =~= ts);
        assert(pre2.len() + enc_items(dr).len() == pre.len() + enc_items(ts).len());
    }
}

/// Decoding inverts encoding: the canonical document of any collection of
/// well-formed records parses back to exactly that collection.
pub proof fn lemma_decode_encode(ts: Seq<TaskData>)
    requires
        forall|k: int| 0 <= k < ts.len() ==> (#[trigger] ts[k]).wf(),
    ensures
        p_doc(enc_doc(ts)) == Some(ts),
{
    let s = enc_doc(ts);
    if ts.len() == 0 {
        assert(s =~= seq!['[', ']']);
    } else {
        assert(enc_task(ts[0]).len() >= 9) by {
            reveal(enc_task);
        }
        assert(enc_items(ts).len() >= 9);
        assert(s.len() > 2);
        assert(s[0] == '[');
        assert(s =~= seq!['['] + enc_items(ts) + seq![']']);
        lemma_p_items_inverts(seq!['['], ts, seq![']']);
        let n = 1 + enc_items(ts).len();
        assert(s[n as int] == ']');
        assert(n + 1 == s.len());
    }
}

/// Round trip: the encoding of any collection of well-formed tasks decodes
/// to that collection, field for field.
pub proof fn lemma_round_trip(ts: Seq<Task>)
    requires
        tasks_wf(ts),
    ensures
        p_doc(enc_doc(tasks_view(ts))) == Some(tasks_view(ts)),
{
    assert forall|k: int| 0 <= k < tasks_view(ts).len() implies (#[trigger] tasks_view(
        ts,
    )[k]).wf() by {
        assert(ts[k].wf());
    }
    lemma_decode_encode(tasks_view(ts));
}


} // verus!
