//! Read-only projections of the collection for display: the per-task summary
//! with its word-wrapped note, and the one-line-per-task listing. Rendering
//! (padding, colors, printing) is the command layer's business; these
//! functions compute what it shows.

use vstd::prelude::*;

use crate::color::Color;
use crate::date::Date;
use crate::task::{
    check_for_more_args, join_spec, matches_id_error, rest_args, the_id, valid_id, views_of,
    ArgError, Task,
};

verus! {

/// The width used when wrapping note text for display.
pub const NOTE_WIDTH: usize = 75;

/// The length at which a listed name is shortened.
pub const LIST_NAME_LIMIT: usize = 75;

/// How many characters of a long name the listing keeps.
pub const LIST_NAME_KEPT: usize = 71;

// ---- Splitting and greedy wrapping, as specification -----------------------

/// The pieces already completed and the piece being gathered after reading
/// `s`, splitting at `sep`.
pub open spec fn split_state(s: Seq<char>, sep: char) -> (Seq<Seq<char>>, Seq<char>)
    decreases s.len(),
{
    if s.len() == 0 {
        (Seq::empty(), Seq::empty())
    } else {
        let (acc, cur) = split_state(s.drop_last(), sep);
        if s.last() == sep {
            (acc.push(cur), Seq::empty())
        } else {
            (acc, cur.push(s.last()))
        }
    }
}

/// `s` split at every occurrence of `sep`; empty pieces are kept.
pub open spec fn split_on(s: Seq<char>, sep: char) -> Seq<Seq<char>> {
    split_state(s, sep).0.push(split_state(s, sep).1)
}

/// One step of greedy packing: the next word joins the current line when it
/// fits (keeping lines under `width`), and otherwise finishes that line and
/// starts the next one.
pub open spec fn pack_step(
    lines: Seq<Seq<char>>,
    cur: Seq<char>,
    w: Seq<char>,
    width: int,
) -> (Seq<Seq<char>>, Seq<char>) {
    if cur.len() == 0 {
        (lines, w)
    } else if cur.len() + w.len() < width {
        (lines, cur + seq![' '] + w)
    } else {
        (lines.push(cur), w)
    }
}

/// The finished lines and the line being gathered after packing `words`.
pub open spec fn pack_state(words: Seq<Seq<char>>, width: int) -> (Seq<Seq<char>>, Seq<char>)
    decreases words.len(),
{
    if words.len() == 0 {
        (Seq::empty(), Seq::empty())
    } else {
        let (lines, cur) = pack_state(words.drop_last(), width);
        pack_step(lines, cur, words.last(), width)
    }
}

/// `words` packed greedily into lines of less than `width` characters (a
/// single long word still gets a line of its own).
pub open spec fn pack_words_spec(words: Seq<Seq<char>>, width: int) -> Seq<Seq<char>> {
    pack_state(words, width).0.push(pack_state(words, width).1)
}

/// Each source line wrapped in turn, all wrapped lines concatenated.
pub open spec fn wrap_lines(lines: Seq<Seq<char>>, width: int) -> Seq<Seq<char>>
    decreases lines.len(),
{
    if lines.len() == 0 {
        Seq::empty()
    } else {
        wrap_lines(lines.drop_last(), width) + pack_words_spec(
            split_on(lines.last(), ' '),
            width,
        )
    }
}

/// A note wrapped for display: its lines split at line breaks, each one
/// word-wrapped to `width`.
pub open spec fn wrap_note(note: Seq<char>, width: int) -> Seq<Seq<char>> {
    wrap_lines(split_on(note, '\n'), width)
}

/// The name as the listing shows it: long names are shortened to their first
/// characters plus an ellipsis.
pub open spec fn display_name(name: Seq<char>) -> Seq<char> {
    if name.len() >= LIST_NAME_LIMIT {
        name.take(LIST_NAME_KEPT as int) + "..."@
    } else {
        name
    }
}

// ---- Executable splitting and wrapping --------------------------------------

/// Splits `s` at every occurrence of `sep`, keeping empty pieces.
fn split_chars(s: &str, sep: char) -> (r: Vec<String>)
    ensures
        views_of(r@) == split_on(s@, sep),
{
    let n = s.unicode_len();
    let mut parts: Vec<String> = Vec::new();
    let mut cur = String::new();
    let mut i: usize = 0;
    while i < n
        invariant
            i <= n,
            n == s@.len(),
            (views_of(parts@), cur@) == split_state(s@.take(i as int), sep),
        decreases n - i,
    {
        let c = s.get_char(i);
        let ghost parts0 = parts@;
        if c == sep {
            parts.push(cur);
            cur = String::new();
            proof {
                assert(views_of(parts@) =~= views_of(parts0).push(last_view(parts@)));
            }
        } else {
            crate::codec::push_char(&mut cur, c);
        }
        proof {
            assert(s@.take(i + 1).drop_last() =~= s@.take(i as int));
            assert(s@.take(i + 1).last() == s@[i as int]);
        }
        i += 1;
    }
    parts.push(cur);
    proof {
        assert(s@.take(n as int) =~= s@);
        assert(views_of(parts@) =~= split_on(s@, sep));
    }
    parts
}

/// The characters of the last string in `parts`.
pub open spec fn last_view(parts: Seq<String>) -> Seq<char> {
    parts.last()@
}

/// Packs `words` greedily into lines of less than `width` characters.
fn pack_words(words: &Vec<String>, width: usize) -> (r: Vec<String>)
    ensures
        views_of(r@) == pack_words_spec(views_of(words@), width as int),
{
    let mut lines: Vec<String> = Vec::new();
    let mut cur = String::new();
    let mut i: usize = 0;
    while i < words.len()
        invariant
            i <= words@.len(),
            (views_of(lines@), cur@) == pack_state(views_of(words@).take(i as int), width as int),
        decreases words@.len() - i,
    {
        let w = &words[i];
        let ghost lines0 = lines@;
        let cur_len = cur.as_str().unicode_len();
        let w_len = w.as_str().unicode_len();
        if cur_len == 0 {
            cur = w.clone();
        } else if (cur_len as u128) + (w_len as u128) < (width as u128) {
            cur.append(" ");
            cur.append(w.as_str());
            proof {
                reveal_strlit(" ");
                assert(" "@ =~= seq![' ']);
            }
        } else {
            lines.push(cur);
            cur = w.clone();
            proof {
                assert(views_of(lines@) =~= views_of(lines0).push(last_view(lines@)));
            }
        }
        proof {
            let vw = views_of(words@);
            assert(vw.take(i + 1).drop_last() =~= vw.take(i as int));
            assert(vw.take(i + 1).last() == words@[i as int]@);
        }
        i += 1;
    }
    proof {
        assert(views_of(words@).take(words@.len() as int) =~= views_of(words@));
    }
    lines.push(cur);
    proof {
        assert(views_of(lines@) =~= pack_words_spec(views_of(words@), width as int));
    }
    lines
}

/// A note wrapped for display.
fn wrap_note_exec(note: &str, width: usize) -> (r: Vec<String>)
    ensures
        views_of(r@) == wrap_note(note@, width as int),
{
    let lines = split_chars(note, '\n');
    let mut out: Vec<String> = Vec::new();
    let mut i: usize = 0;
    while i < lines.len()
        invariant
            i <= lines@.len(),
            views_of(lines@) == split_on(note@, '\n'),
            views_of(out@) == wrap_lines(views_of(lines@).take(i as int), width as int),
        decreases lines@.len() - i,
    {
        let words = split_chars(lines[i].as_str(), ' ');
        let mut packed = pack_words(&words, width);
        let ghost out0 = out@;
        let ghost packed0 = packed@;
        out.append(&mut packed);
        proof {
            let vl = views_of(lines@);
            assert(vl.take(i + 1).drop_last() =~= vl.take(i as int));
            assert(vl.take(i + 1).last() == lines@[i as int]@);
            assert(views_of(out@) =~= views_of(out0) + views_of(packed0));
        }
        i += 1;
    }
    proof {
        assert(views_of(lines@).take(lines@.len() as int) =~= views_of(lines@));
    }
    out
}

// ---- The projections --------------------------------------------------------

/// Everything the per-task summary shows.
pub struct TaskView {
    /// The task's 1-based id.
    pub id: usize,
    pub name: String,
    pub creation_date: Date,
    pub due_date: Option<Date>,
    pub color: Option<Color>,
    /// The note, word-wrapped to the display width.
    pub note_lines: Vec<String>,
}

/// Builds the structured summary of the addressed task, its note
/// word-wrapped for display.
pub fn show_task(tasks: &Vec<Task>, args: &Vec<String>) -> (r: Result<TaskView, ArgError>)
    ensures
        ({
            if valid_id(tasks@.len() as int, args@) && join_spec(rest_args(args@, 1)).len() == 0 {
                let i = the_id(args@);
                &&& r matches Ok(view)
                &&& view.id as int == i + 1
                &&& view.name@ == tasks@[i].name@
                &&& view.creation_date == tasks@[i].creation_date
                &&& view.due_date == tasks@[i].due_date
                &&& view.color == tasks@[i].color
                &&& views_of(view.note_lines@) == wrap_note(tasks@[i].note@, NOTE_WIDTH as int)
            } else {
                r matches Err(e) && (if valid_id(tasks@.len() as int, args@) {
                    e matches ArgError::TooManyArgs(m) && m@ == join_spec(rest_args(args@, 1))
                } else {
                    matches_id_error(e, tasks@.len() as int, args@)
                })
            }
        }),
{
    let task_id = match crate::task::parse_task_id(tasks.len(), args) {
        Ok(i) => i,
        Err(e) => {
            return Err(e);
        },
    };
    match check_for_more_args(args, 1) {
        Ok(()) => (),
        Err(e) => {
            return Err(e);
        },
    }
    let t = &tasks[task_id];
    let note_lines = wrap_note_exec(t.note.as_str(), NOTE_WIDTH);
    Ok(
        TaskView {
            id: task_id + 1,
            name: t.name.clone(),
            creation_date: t.creation_date,
            due_date: t.due_date,
            color: t.color,
            note_lines,
        },
    )
}

/// One line of the listing.
pub struct TaskListRow {
    /// The task's 1-based id.
    pub id: usize,
    pub color: Option<Color>,
    /// The name, shortened when it is long.
    pub name: String,
    pub creation_date: Date,
    pub due_date: Option<Date>,
    /// Whether the task carries a note.
    pub has_note: bool,
}

/// Builds the listing of the whole collection, one row per task in order.
pub fn list_tasks(tasks: &Vec<Task>, args: &Vec<String>) -> (r: Result<Vec<TaskListRow>, ArgError>)
    ensures
        ({
            let extra = join_spec(rest_args(args@, 0));
            if extra.len() == 0 {
                &&& r matches Ok(rows)
                &&& rows@.len() == tasks@.len()
                &&& forall|i: int|
                    0 <= i < tasks@.len() ==> {
                        let row = #[trigger] rows@[i];
                        &&& row.id as int == i + 1
                        &&& row.color == tasks@[i].color
                        &&& row.name@ == display_name(tasks@[i].name@)
                        &&& row.creation_date == tasks@[i].creation_date
                        &&& row.due_date == tasks@[i].due_date
                        &&& row.has_note == (tasks@[i].note@.len() != 0)
                    }
            } else {
                r matches Err(e) && e matches ArgError::TooManyArgs(m) && m@ == extra
            }
        }),
{
    match check_for_more_args(args, 0) {
        Ok(()) => (),
        Err(e) => {
            return Err(e);
        },
    }
    let mut rows: Vec<TaskListRow> = Vec::new();
    let mut i: usize = 0;
    while i < tasks.len()
        invariant
            i <= tasks@.len(),
            rows@.len() == i,
            forall|j: int|
                0 <= j < i ==> {
                    let row = #[trigger] rows@[j];
                    &&& row.id as int == j + 1
                    &&& row.color == tasks@[j].color
                    &&& row.name@ == display_name(tasks@[j].name@)
                    &&& row.creation_date == tasks@[j].creation_date
                    &&& row.due_date == tasks@[j].due_date
                    &&& row.has_note == (tasks@[j].note@.len() != 0)
                },
        decreases tasks@.len() - i,
    {
        let t = &tasks[i];
        let name_len = t.name.as_str().unicode_len();
        let name: String = if name_len >= LIST_NAME_LIMIT {
            let mut short = t.name.as_str().substring_char(0, LIST_NAME_KEPT).to_owned();
            short.append("...");
            proof {
                assert(short@ =~= display_name(tasks@[i as int].name@));
            }
            short
        } else {
            t.name.clone()
        };
        rows.push(
            TaskListRow {
                id: i + 1,
                color: t.color,
                name,
                creation_date: t.creation_date,
                due_date: t.due_date,
                has_note: t.note.as_str().unicode_len() != 0,
            },
        );
        i += 1;
    }
    Ok(rows)
}

} // verus!
