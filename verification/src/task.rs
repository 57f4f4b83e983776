//! The task record and the id-based operations over the ordered task
//! collection. Task ids are 1-based positions into the collection and are
//! validated before any operation touches a task.

use vstd::prelude::*;

use crate::color::Color;
use crate::date::{date_from_numbers, parse_ymd, parsed_ymd, today, Date};

verus! {

/// One tracked task.
#[derive(Debug, PartialEq)]
pub struct Task {
    /// Display name; non-empty names are enforced at creation only.
    pub name: String,
    /// Set once when the task is created; never mutated afterwards.
    pub creation_date: Date,
    /// Optional due date; unset by default.
    pub due_date: Option<Date>,
    /// Optional color tag; unset by default.
    pub color: Option<Color>,
    /// Free-form note; the empty string means "no note".
    pub note: String,
}

impl Task {
    /// Every date the task carries is well formed.
    pub open spec fn wf(self) -> bool {
        &&& self.creation_date.wf()
        &&& self.due_date matches Some(d) ==> d.wf()
    }

    /// A fresh task named `name`, created today, with no due date, no color
    /// and an empty note.
    pub fn new(name: String) -> (t: Task)
        ensures
            t.name == name,
            t.due_date is None,
            t.color is None,
            t.note@ == Seq::<char>::empty(),
            t.wf(),
    {
        Task {
            name,
            creation_date: today(),
            due_date: None,
            color: None,
            note: String::new(),
        }
    }
}

impl Clone for Task {
    /// An exact copy of the task.
    fn clone(&self) -> (r: Self)
        ensures
            r == *self,
    {
        Task {
            name: self.name.clone(),
            creation_date: self.creation_date,
            due_date: self.due_date,
            color: self.color,
            note: self.note.clone(),
        }
    }
}

/// The mathematical content of a task: its strings as character sequences.
#[verifier::ext_equal]
pub struct TaskData {
    pub name: Seq<char>,
    pub creation_date: Date,
    pub due_date: Option<Date>,
    pub color: Option<Color>,
    pub note: Seq<char>,
}

impl TaskData {
    /// Every date the record carries is well formed.
    pub open spec fn wf(self) -> bool {
        &&& self.creation_date.wf()
        &&& self.due_date matches Some(d) ==> d.wf()
    }
}

impl View for Task {
    type V = TaskData;

    open spec fn view(&self) -> TaskData {
        TaskData {
            name: self.name@,
            creation_date: self.creation_date,
            due_date: self.due_date,
            color: self.color,
            note: self.note@,
        }
    }
}

/// The mathematical contents of a task collection.
pub open spec fn tasks_view(ts: Seq<Task>) -> Seq<TaskData> {
    ts.map_values(|t: Task| t@)
}

/// Every task of the collection is well formed.
pub open spec fn tasks_wf(s: Seq<Task>) -> bool {
    forall|i: int| 0 <= i < s.len() ==> (#[trigger] s[i]).wf()
}

/// The typed argument errors an operation can report.
#[derive(Debug, PartialEq)]
pub enum ArgError {
    /// A required argument is absent; the payload names it.
    ArgMissing(String),
    /// Arguments remain after the operation consumed all it takes; the
    /// payload holds them joined by spaces.
    TooManyArgs(String),
    /// The task id does not parse as a positive integer; the payload is the
    /// offending token.
    InvalidTaskId(String),
    /// The task id parsed but lies outside `1..=len`.
    TaskNotFound,
    /// The due date is not of the `YYYY-MM-DD` form.
    IncorrectDateFormat,
    /// The color token names none of the five tags; the payload is the token.
    InvalidColor(String),
}

// ---- Parsing task ids ----------------------------------------------------

/// `c` is a decimal digit.
pub open spec fn is_digit(c: char) -> bool {
    48 <= c as u32 <= 57
}

/// The value of the digit `c`.
pub open spec fn digit_val(c: char) -> int {
    c as u32 - 48
}

/// Every character of `s` is a decimal digit.
pub open spec fn is_digit_seq(s: Seq<char>) -> bool {
    forall|i: int| 0 <= i < s.len() ==> is_digit(#[trigger] s[i])
}

/// The number a digit string denotes, most significant digit first.
pub open spec fn str_to_nat(s: Seq<char>) -> int
    decreases s.len(),
{
    if s.len() == 0 {
        0
    } else {
        str_to_nat(s.drop_last()) * 10 + digit_val(s.last())
    }
}

/// `s` is a string `usize::from_str` style parsing accepts as an index:
/// non-empty, all digits, and within the machine range.
pub open spec fn parses_as_index(s: Seq<char>) -> bool {
    &&& s.len() > 0
    &&& is_digit_seq(s)
    &&& str_to_nat(s) <= usize::MAX
}

proof fn lemma_str_to_nat_nonneg(s: Seq<char>)
    requires
        is_digit_seq(s),
    ensures
        str_to_nat(s) >= 0,
    decreases s.len(),
{
    if s.len() > 0 {
        assert(is_digit_seq(s.drop_last()));
        lemma_str_to_nat_nonneg(s.drop_last());
    }
}

proof fn lemma_str_to_nat_prefix(s: Seq<char>, i: int)
    requires
        is_digit_seq(s),
        0 <= i <= s.len(),
    ensures
        str_to_nat(s.take(i)) <= str_to_nat(s),
    decreases s.len() - i,
{
    if i < s.len() {
        assert(s.take(i + 1).drop_last() =~= s.take(i));
        assert(s.take(i + 1).last() == s[i]);
        assert(is_digit_seq(s.take(i)));
        lemma_str_to_nat_nonneg(s.take(i));
        assert(str_to_nat(s.take(i)) <= str_to_nat(s.take(i + 1)));
        lemma_str_to_nat_prefix(s, i + 1);
    } else {
        assert(s.take(i) =~= s);
    }
}

/// Parses a decimal string into a `usize`, rejecting empty strings,
/// non-digit characters and values over `usize::MAX`.
pub fn parse_usize(s: &str) -> (r: Option<usize>)
    ensures
        r is Some <==> parses_as_index(s@),
        r matches Some(v) ==> v as int == str_to_nat(s@),
{
    let n = s.unicode_len();
    if n == 0 {
        return None;
    }
    let mut acc: usize = 0;
    let mut i: usize = 0;
    while i < n
        invariant
            0 <= i <= n,
            n == s@.len(),
            is_digit_seq(s@.take(i as int)),
            acc as int == str_to_nat(s@.take(i as int)),
        decreases n - i,
    {
        let c = s.get_char(i);
        let cu = c as u32;
        if cu < 48 || cu > 57 {
            assert(!is_digit_seq(s@));
            return None;
        }
        let d = (cu - 48) as usize;
        proof {
            assert(s@.take(i + 1).drop_last() =~= s@.take(i as int));
            assert(s@.take(i + 1).last() == s@[i as int]);
            assert(is_digit_seq(s@.take(i + 1)));
        }
        let next = match acc.checked_mul(10) {
            Some(m) => m.checked_add(d),
            None => None,
        };
        match next {
            Some(v) => {
                acc = v;
            },
            None => {
                proof {
                    if is_digit_seq(s@) {
                        lemma_str_to_nat_prefix(s@, i + 1);
                    }
                }
                return None;
            },
        }
        i += 1;
    }
    proof {
        assert(s@.take(n as int) =~= s@);
    }
    Some(acc)
}

// ---- Contract vocabulary -------------------------------------------------

/// The character sequences of a vector of strings.
pub open spec fn views_of(args: Seq<String>) -> Seq<Seq<char>> {
    args.map_values(|s: String| s@)
}

/// The character sequences of the arguments from position `from` on.
pub open spec fn rest_args(args: Seq<String>, from: int) -> Seq<Seq<char>> {
    if from >= args.len() {
        Seq::empty()
    } else {
        views_of(args).skip(from)
    }
}

/// The given argument strings joined by single spaces.
pub open spec fn join_spec(ss: Seq<Seq<char>>) -> Seq<char>
    decreases ss.len(),
{
    if ss.len() == 0 {
        Seq::empty()
    } else if ss.len() == 1 {
        ss[0]
    } else {
        join_spec(ss.drop_last()) + seq![' '] + ss.last()
    }
}

/// The first argument names a task of a collection of length `len`: it
/// parses as a positive integer within `1..=len`.
pub open spec fn valid_id(len: int, args: Seq<String>) -> bool {
    &&& args.len() > 0
    &&& parses_as_index(args[0]@)
    &&& 1 <= str_to_nat(args[0]@) <= len
}

/// The 0-based position the first argument denotes.
pub open spec fn the_id(args: Seq<String>) -> int {
    str_to_nat(args[0]@) - 1
}

/// The error reported when the first argument fails to name a task: a
/// missing id, an unparseable id, or an id out of range, in that order.
pub open spec fn matches_id_error(e: ArgError, len: int, args: Seq<String>) -> bool {
    if args.len() == 0 {
        e matches ArgError::ArgMissing(m) && m@ == "task id"@
    } else if !parses_as_index(args[0]@) {
        e matches ArgError::InvalidTaskId(m) && m@ == args[0]@
    } else {
        e == ArgError::TaskNotFound
    }
}

/// Validates the 1-based task id in `args[0]` against a collection of
/// `tasks_len` tasks and translates it to a 0-based position.
pub(crate) fn parse_task_id(tasks_len: usize, args: &Vec<String>) -> (r: Result<usize, ArgError>)
    ensures
        r matches Ok(i) ==> valid_id(tasks_len as int, args@) && i as int == the_id(args@) && i
            < tasks_len,
        r matches Err(e) ==> !valid_id(tasks_len as int, args@) && matches_id_error(
            e,
            tasks_len as int,
            args@,
        ),
{
    if args.len() == 0 {
        return Err(ArgError::ArgMissing("task id".to_owned()));
    }
    let id_string = &args[0];
    match parse_usize(id_string.as_str()) {
        None => Err(ArgError::InvalidTaskId(id_string.clone())),
        Some(task_id) => {
            if task_id > tasks_len || task_id == 0 {
                Err(ArgError::TaskNotFound)
            } else {
                Ok(task_id - 1)
            }
        },
    }
}

/// Joins the arguments from position `start` on into one space-separated
/// string.
pub fn join_args(args: &Vec<String>, start: usize) -> (r: String)
    ensures
        r@ == join_spec(rest_args(args@, start as int)),
{
    let mut r = String::new();
    if start >= args.len() {
        return r;
    }
    let mut i: usize = start;
    while i < args.len()
        invariant
            start <= i <= args@.len(),
            r@ == join_spec(views_of(args@).subrange(start as int, i as int)),
        decreases args@.len() - i,
    {
        if i > start {
            r.append(" ");
        }
        r.append(args[i].as_str());
        proof {
            let vs = views_of(args@);
            assert(vs.subrange(start as int, i + 1).drop_last() =~= vs.subrange(
                start as int,
                i as int,
            ));
            assert(vs.subrange(start as int, i + 1).last() == args@[i as int]@);
            reveal_strlit(" ");
            assert(" "@ =~= seq![' ']);
        }
        i += 1;
    }
    proof {
        assert(views_of(args@).subrange(start as int, args@.len() as int) =~= rest_args(
            args@,
            start as int,
        ));
    }
    r
}

/// Reports [`ArgError::TooManyArgs`] when the arguments from position `used`
/// on join to a non-empty string, as the command layer does for arguments an
/// operation does not consume.
pub fn check_for_more_args(args: &Vec<String>, used: usize) -> (r: Result<(), ArgError>)
    ensures
        ({
            let extra = join_spec(rest_args(args@, used as int));
            if extra.len() == 0 {
                r is Ok
            } else {
                r matches Err(e) && e matches ArgError::TooManyArgs(m) && m@ == extra
            }
        }),
{
    let more_args = join_args(args, used);
    if more_args.as_str().unicode_len() == 0 {
        Ok(())
    } else {
        Err(ArgError::TooManyArgs(more_args))
    }
}

// ---- Operations ----------------------------------------------------------

/// Appends a new task named by all arguments joined with spaces; an empty
/// name is rejected and the collection left unchanged. Returns the new
/// task's 1-based id.
pub fn create_task(tasks: &mut Vec<Task>, args: &Vec<String>) -> (r: Result<usize, ArgError>)
    ensures
        ({
            let name = join_spec(views_of(args@));
            if name.len() == 0 {
                &&& r matches Err(e) && e matches ArgError::ArgMissing(m) && m@ == "task name"@
                &&& final(tasks)@ == old(tasks)@
            } else {
                &&& r matches Ok(id) && id as int == final(tasks)@.len()
                &&& final(tasks)@.len() == old(tasks)@.len() + 1
                &&& final(tasks)@.drop_last() == old(tasks)@
                &&& final(tasks)@.last().name@ == name
                &&& final(tasks)@.last().due_date is None
                &&& final(tasks)@.last().color is None
                &&& final(tasks)@.last().note@ == Seq::<char>::empty()
                &&& final(tasks)@.last().wf()
            }
        }),
        tasks_wf(old(tasks)@) ==> tasks_wf(final(tasks)@),
{
    let task_name = join_args(args, 0);
    proof {
        assert(views_of(args@).skip(0) =~= views_of(args@));
    }
    if task_name.as_str().unicode_len() == 0 {
        return Err(ArgError::ArgMissing("task name".to_owned()));
    }
    tasks.push(Task::new(task_name));
    proof {
        assert(tasks@.drop_last() =~= old(tasks)@);
    }
    Ok(tasks.len())
}

/// Replaces the name of the addressed task with all remaining arguments
/// joined by spaces; unlike creation, an empty new name is accepted.
pub fn rename_task(tasks: &mut Vec<Task>, args: &Vec<String>) -> (r: Result<(), ArgError>)
    ensures
        ({
            if valid_id(old(tasks)@.len() as int, args@) {
                let i = the_id(args@);
                &&& r is Ok
                &&& final(tasks)@.len() == old(tasks)@.len()
                &&& final(tasks)@[i] == (Task {
                    name: final(tasks)@[i].name,
                    ..old(tasks)@[i]
                })
                &&& final(tasks)@[i].name@ == join_spec(rest_args(args@, 1))
                &&& forall|j: int|
                    0 <= j < final(tasks)@.len() && j != i ==> final(tasks)@[j] == old(tasks)@[j]
            } else {
                &&& r matches Err(e) && matches_id_error(e, old(tasks)@.len() as int, args@)
                &&& final(tasks)@ == old(tasks)@
            }
        }),
        tasks_wf(old(tasks)@) ==> tasks_wf(final(tasks)@),
{
    let task_id = match parse_task_id(tasks.len(), args) {
        Ok(i) => i,
        Err(e) => {
            return Err(e);
        },
    };
    let name_new = join_args(args, 1);
    tasks[task_id].name = name_new;
    Ok(())
}

/// Removes the addressed task; every later task shifts one position down.
/// Returns the removed task's name for reporting.
pub fn delete_task(tasks: &mut Vec<Task>, args: &Vec<String>) -> (r: Result<String, ArgError>)
    ensures
        ({
            if valid_id(old(tasks)@.len() as int, args@) && join_spec(
                rest_args(args@, 1),
            ).len() == 0 {
                let i = the_id(args@);
                &&& r matches Ok(name) && name@ == old(tasks)@[i].name@
                &&& final(tasks)@.len() == old(tasks)@.len() - 1
                &&& forall|j: int| 0 <= j < i ==> final(tasks)@[j] == old(tasks)@[j]
                &&& forall|j: int| i <= j < final(tasks)@.len() ==> final(tasks)@[j] == old(tasks)@[j + 1]
            } else {
                &&& r matches Err(e) && (if valid_id(old(tasks)@.len() as int, args@) {
                    e matches ArgError::TooManyArgs(m) && m@ == join_spec(
                        rest_args(args@, 1),
                    )
                } else {
                    matches_id_error(e, old(tasks)@.len() as int, args@)
                })
                &&& final(tasks)@ == old(tasks)@
            }
        }),
        tasks_wf(old(tasks)@) ==> tasks_wf(final(tasks)@),
{
    let task_id = match parse_task_id(tasks.len(), args) {
        Ok(i) => i,
        Err(e) => {
            return Err(e);
        },
    };
    match check_for_more_args(args, 1) {
        Ok(()) => (),
        Err(e) => {
            return Err(e);
        },
    }
    let task_name = tasks[task_id].name.clone();
    let removed = tasks.remove(task_id);
    proof {
        assert(forall|j: int|
            the_id(args@) <= j < tasks@.len() ==> tasks@[j] == old(tasks)@[j + 1]);
    }
    Ok(task_name)
}

/// The color a token selects: one of the five tag names sets that tag,
/// `clear` unsets the tag, and anything else is invalid.
pub open spec fn color_token(s: Seq<char>) -> Option<Option<Color>> {
    if s == "red"@ {
        Some(Some(Color::Red))
    } else if s == "yellow"@ {
        Some(Some(Color::Yellow))
    } else if s == "green"@ {
        Some(Some(Color::Green))
    } else if s == "blue"@ {
        Some(Some(Color::Blue))
    } else if s == "purple"@ {
        Some(Some(Color::Purple))
    } else if s == "clear"@ {
        Some(None)
    } else {
        None
    }
}

/// `a`'s characters are exactly those of `lit`.
fn str_is(a: &String, lit: &str) -> (r: bool)
    ensures
        r == (a@ == lit@),
{
    a.eq(&lit.to_owned())
}

/// Sets or clears the color tag of the addressed task according to the
/// second argument.
pub fn set_task_color(tasks: &mut Vec<Task>, args: &Vec<String>) -> (r: Result<(), ArgError>)
    ensures
        ({
            let len = old(tasks)@.len() as int;
            if !valid_id(len, args@) {
                &&& r matches Err(e) && matches_id_error(e, len, args@)
                &&& final(tasks)@ == old(tasks)@
            } else if args@.len() < 2 {
                &&& r matches Err(e) && e matches ArgError::ArgMissing(m) && m@ == "task name"@
                &&& final(tasks)@ == old(tasks)@
            } else if color_token(args@[1]@) is None {
                &&& r matches Err(e) && e matches ArgError::InvalidColor(m) && m@ == args@[1]@
                &&& final(tasks)@ == old(tasks)@
            } else if join_spec(rest_args(args@, 2)).len() != 0 {
                &&& r matches Err(e) && e matches ArgError::TooManyArgs(m) && m@ == join_spec(
                    rest_args(args@, 2),
                )
                &&& final(tasks)@ == old(tasks)@
            } else {
                let i = the_id(args@);
                &&& r is Ok
                &&& final(tasks)@.len() == old(tasks)@.len()
                &&& final(tasks)@[i] == (Task { color: color_token(args@[1]@)->0, ..old(tasks)@[i] })
                &&& forall|j: int|
                    0 <= j < final(tasks)@.len() && j != i ==> final(tasks)@[j] == old(tasks)@[j]
            }
        }),
        tasks_wf(old(tasks)@) ==> tasks_wf(final(tasks)@),
{
    let task_id = match parse_task_id(tasks.len(), args) {
        Ok(i) => i,
        Err(e) => {
            return Err(e);
        },
    };
    if args.len() < 2 {
        return Err(ArgError::ArgMissing("task name".to_owned()));
    }
    let color_string = &args[1];
    let color: Option<Color> = if str_is(color_string, "red") {
        Some(Color::Red)
    } else if str_is(color_string, "yellow") {
        Some(Color::Yellow)
    } else if str_is(color_string, "green") {
        Some(Color::Green)
    } else if str_is(color_string, "blue") {
        Some(Color::Blue)
    } else if str_is(color_string, "purple") {
        Some(Color::Purple)
    } else if str_is(color_string, "clear") {
        None
    } else {
        return Err(ArgError::InvalidColor(color_string.clone()));
    };
    match check_for_more_args(args, 2) {
        Ok(()) => (),
        Err(e) => {
            return Err(e);
        },
    }
    tasks[task_id].color = color;
    Ok(())
}

/// The note text after applying `text` to `old_note`: `clear` empties the
/// note; any other text is appended on a fresh line (or becomes the whole
/// note when none was set).
pub open spec fn note_after(old_note: Seq<char>, text: Seq<char>) -> Seq<char> {
    if text == "clear"@ {
        Seq::empty()
    } else if old_note.len() == 0 {
        text
    } else {
        old_note + "\n"@ + text
    }
}

/// Applies the remaining arguments (joined by spaces) to the addressed
/// task's note: notes accumulate line by line, and only `clear` resets them.
pub fn add_note(tasks: &mut Vec<Task>, args: &Vec<String>) -> (r: Result<(), ArgError>)
    ensures
        ({
            if valid_id(old(tasks)@.len() as int, args@) {
                let i = the_id(args@);
                &&& r is Ok
                &&& final(tasks)@.len() == old(tasks)@.len()
                &&& final(tasks)@[i] == (Task { note: final(tasks)@[i].note, ..old(tasks)@[i] })
                &&& final(tasks)@[i].note@ == note_after(
                    old(tasks)@[i].note@,
                    join_spec(rest_args(args@, 1)),
                )
                &&& forall|j: int|
                    0 <= j < final(tasks)@.len() && j != i ==> final(tasks)@[j] == old(tasks)@[j]
            } else {
                &&& r matches Err(e) && matches_id_error(e, old(tasks)@.len() as int, args@)
                &&& final(tasks)@ == old(tasks)@
            }
        }),
        tasks_wf(old(tasks)@) ==> tasks_wf(final(tasks)@),
{
    let task_id = match parse_task_id(tasks.len(), args) {
        Ok(i) => i,
        Err(e) => {
            return Err(e);
        },
    };
    let note = join_args(args, 1);
    if str_is(&note, "clear") {
        tasks[task_id].note = String::new();
        return Ok(());
    }
    if tasks[task_id].note.as_str().unicode_len() == 0 {
        tasks[task_id].note = note;
    } else {
        tasks[task_id].note.append("\n");
        tasks[task_id].note.append(note.as_str());
    }
    Ok(())
}

/// Clearing wins: applying `clear` to a note leaves it empty whatever it
/// held before.
pub proof fn lemma_note_clear(old_note: Seq<char>)
    ensures
        note_after(old_note, "clear"@) == Seq::<char>::empty(),
{
}

/// Notes accumulate: adding text `a` to an empty note and then text `b`
/// yields `a`, a line break, then `b`.
pub proof fn lemma_note_accumulates(a: Seq<char>, b: Seq<char>)
    requires
        a != "clear"@,
        b != "clear"@,
        a.len() > 0,
    ensures
        note_after(note_after(Seq::empty(), a), b) == a + "\n"@ + b,
{
}

/// The due date a `YYYY-MM-DD` argument sets: what the date parser accepts,
/// restricted to the representable year range.
pub open spec fn due_date_of(s: Seq<char>) -> Option<Date> {
    match parsed_ymd(s) {
        Some(t) => {
            if 0 <= t.0 <= 9999 && 1 <= t.1 <= 12 && 1 <= t.2 <= 31 {
                Some(Date { year: t.0 as u16, month: t.1 as u8, day: t.2 as u8 })
            } else {
                None
            }
        },
        None => None,
    }
}

/// Sets the due date of the addressed task from a `YYYY-MM-DD` argument.
pub fn add_duedate(tasks: &mut Vec<Task>, args: &Vec<String>) -> (r: Result<(), ArgError>)
    ensures
        ({
            let len = old(tasks)@.len() as int;
            if !valid_id(len, args@) {
                &&& r matches Err(e) && matches_id_error(e, len, args@)
                &&& final(tasks)@ == old(tasks)@
            } else if args@.len() < 2 {
                &&& r matches Err(e) && e matches ArgError::ArgMissing(m) && m@ == "date"@
                &&& final(tasks)@ == old(tasks)@
            } else if due_date_of(args@[1]@) is None {
                &&& r == Err::<(), ArgError>(ArgError::IncorrectDateFormat)
                &&& final(tasks)@ == old(tasks)@
            } else if join_spec(rest_args(args@, 2)).len() != 0 {
                &&& r matches Err(e) && e matches ArgError::TooManyArgs(m) && m@ == join_spec(
                    rest_args(args@, 2),
                )
                &&& final(tasks)@ == old(tasks)@
            } else {
                let i = the_id(args@);
                &&& r is Ok
                &&& final(tasks)@.len() == old(tasks)@.len()
                &&& final(tasks)@[i] == (Task { due_date: due_date_of(args@[1]@), ..old(tasks)@[i] })
                &&& forall|j: int|
                    0 <= j < final(tasks)@.len() && j != i ==> final(tasks)@[j] == old(tasks)@[j]
            }
        }),
        tasks_wf(old(tasks)@) ==> tasks_wf(final(tasks)@),
{
    let task_id = match parse_task_id(tasks.len(), args) {
        Ok(i) => i,
        Err(e) => {
            return Err(e);
        },
    };
    if args.len() < 2 {
        return Err(ArgError::ArgMissing("date".to_owned()));
    }
    let due_date = match parse_ymd(args[1].as_str()) {
        Some((y, m, d)) => match date_from_numbers(y, m, d) {
            Some(date) => date,
            None => {
                return Err(ArgError::IncorrectDateFormat);
            },
        },
        None => {
            return Err(ArgError::IncorrectDateFormat);
        },
    };
    match check_for_more_args(args, 2) {
        Ok(()) => (),
        Err(e) => {
            return Err(e);
        },
    }
    tasks[task_id].due_date = Some(due_date);
    Ok(())
}

} // verus!
