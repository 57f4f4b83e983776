//! Stable sorting of the task collection by its composite key: tasks with a
//! color tag first (ascending by the tag's ordinal), then, within each group,
//! tasks with a due date first (ascending by date). Ties keep their prior
//! relative order.

use vstd::prelude::*;

use crate::date::Date;
use crate::task::{check_for_more_args, join_spec, rest_args, tasks_wf, ArgError, Task};

verus! {

/// Colored tasks come before uncolored ones.
pub open spec fn color_group(t: Task) -> int {
    if t.color is Some {
        0
    } else {
        1
    }
}

/// The ordinal of the task's color tag (0 when it has none).
pub open spec fn color_ord(t: Task) -> int {
    match t.color {
        Some(c) => c.ordinal_spec(),
        None => 0,
    }
}

/// Tasks with a due date come before tasks without one.
pub open spec fn due_group(t: Task) -> int {
    if t.due_date is Some {
        0
    } else {
        1
    }
}

/// A date collapsed to one integer that orders exactly as the calendar
/// (year, then month, then day).
pub open spec fn date_key(d: Date) -> int {
    d.year * 10000 + d.month * 100 + d.day
}

/// The due-date component of the key (0 when the task has no due date).
pub open spec fn due_key(t: Task) -> int {
    match t.due_date {
        Some(d) => date_key(d),
        None => 0,
    }
}

/// The composite sort key, as a total preorder: `a` sorts at or before `b`.
pub open spec fn key_le(a: Task, b: Task) -> bool {
    if color_group(a) != color_group(b) {
        color_group(a) < color_group(b)
    } else if color_ord(a) != color_ord(b) {
        color_ord(a) < color_ord(b)
    } else if due_group(a) != due_group(b) {
        due_group(a) < due_group(b)
    } else {
        due_key(a) <= due_key(b)
    }
}

/// Executable form of [`key_le`].
pub fn task_le(a: &Task, b: &Task) -> (r: bool)
    ensures
        r == key_le(*a, *b),
{
    let ag: u8 = if a.color.is_some() {
        0
    } else {
        1
    };
    let bg: u8 = if b.color.is_some() {
        0
    } else {
        1
    };
    if ag != bg {
        return ag < bg;
    }
    let ao: u8 = match a.color {
        Some(c) => c.ordinal(),
        None => 0,
    };
    let bo: u8 = match b.color {
        Some(c) => c.ordinal(),
        None => 0,
    };
    if ao != bo {
        return ao < bo;
    }
    let adg: u8 = if a.due_date.is_some() {
        0
    } else {
        1
    };
    let bdg: u8 = if b.due_date.is_some() {
        0
    } else {
        1
    };
    if adg != bdg {
        return adg < bdg;
    }
    let adk: u32 = match a.due_date {
        Some(d) => (d.year as u32) * 10000 + (d.month as u32) * 100 + (d.day as u32),
        None => 0,
    };
    let bdk: u32 = match b.due_date {
        Some(d) => (d.year as u32) * 10000 + (d.month as u32) * 100 + (d.day as u32),
        None => 0,
    };
    adk <= bdk
}

/// `s` is ordered by the composite key.
pub open spec fn sorted_spec(s: Seq<Task>) -> bool {
    forall|i: int, j: int| 0 <= i < j < s.len() ==> key_le(#[trigger] s[i], #[trigger] s[j])
}

/// `t` placed into the sorted sequence `s`, after every element that sorts
/// at or before it — the placement that keeps a stable order.
pub open spec fn insert_sorted(t: Task, s: Seq<Task>) -> Seq<Task>
    decreases s.len(),
{
    if s.len() == 0 {
        seq![t]
    } else if key_le(s[0], t) {
        seq![s[0]] + insert_sorted(t, s.drop_first())
    } else {
        seq![t] + s
    }
}

/// The stable sort of `s` by the composite key: each task in turn is placed
/// after its equals in the sorted prefix.
pub open spec fn sort_spec(s: Seq<Task>) -> Seq<Task>
    decreases s.len(),
{
    if s.len() == 0 {
        Seq::empty()
    } else {
        insert_sorted(s.last(), sort_spec(s.drop_last()))
    }
}

proof fn lemma_key_le_total(a: Task, b: Task)
    ensures
        key_le(a, b) || key_le(b, a),
{
}

proof fn lemma_insert_sorted_len_elems(t: Task, s: Seq<Task>)
    ensures
        insert_sorted(t, s).len() == s.len() + 1,
        forall|k: int|
            0 <= k < insert_sorted(t, s).len() ==> (#[trigger] insert_sorted(t, s)[k] == t
                || s.contains(insert_sorted(t, s)[k])),
    decreases s.len(),
{
    if s.len() == 0 {
    } else if key_le(s[0], t) {
        lemma_insert_sorted_len_elems(t, s.drop_first());
        assert forall|k: int| 0 <= k < insert_sorted(t, s).len() implies (#[trigger] insert_sorted(
            t,
            s,
        )[k] == t || s.contains(insert_sorted(t, s)[k])) by {
            if k == 0 {
                assert(s.contains(s[0]));
            } else {
                let r = insert_sorted(t, s.drop_first());
                assert(insert_sorted(t, s)[k] == r[k - 1]);
                if r[k - 1] != t {
                    let m = choose|m: int| 0 <= m < s.drop_first().len() && s.drop_first()[m] == r[
                        k - 1
                    ];
                    assert(s[m + 1] == r[k - 1]);
                }
            }
        }
    } else {
        assert forall|k: int| 0 <= k < insert_sorted(t, s).len() implies (#[trigger] insert_sorted(
            t,
            s,
        )[k] == t || s.contains(insert_sorted(t, s)[k])) by {
            if k > 0 {
                assert(insert_sorted(t, s)[k] == s[k - 1]);
            }
        }
    }
}

proof fn lemma_insert_sorted_sorted(t: Task, s: Seq<Task>)
    requires
        sorted_spec(s),
    ensures
        sorted_spec(insert_sorted(t, s)),
    decreases s.len(),
{
    if s.len() == 0 {
    } else if key_le(s[0], t) {
        assert(sorted_spec(s.drop_first()));
        lemma_insert_sorted_sorted(t, s.drop_first());
        lemma_insert_sorted_len_elems(t, s.drop_first());
        let r = insert_sorted(t, s);
        let rr = insert_sorted(t, s.drop_first());
        assert forall|i: int, j: int| 0 <= i < j < r.len() implies key_le(
            #[trigger] r[i],
            #[trigger] r[j],
        ) by {
            if i == 0 {
                assert(r[j] == rr[j - 1]);
                if rr[j - 1] != t {
                    let m = choose|m: int|
                        0 <= m < s.drop_first().len() && s.drop_first()[m] == rr[j - 1];
                    assert(s[m + 1] == rr[j - 1]);
                    assert(key_le(s[0], s[m + 1]));
                }
            } else {
                assert(r[i] == rr[i - 1] && r[j] == rr[j - 1]);
            }
        }
    } else {
        lemma_key_le_total(t, s[0]);
        let r = insert_sorted(t, s);
        assert forall|i: int, j: int| 0 <= i < j < r.len() implies key_le(
            #[trigger] r[i],
            #[trigger] r[j],
        ) by {
            if i == 0 {
                assert(r[0] == t && r[j] == s[j - 1]);
                if j >= 2 {
                    assert(key_le(s[0], s[j - 1]));
                }
            } else {
                assert(r[i] == s[i - 1] && r[j] == s[j - 1]);
            }
        }
    }
}

proof fn lemma_sort_spec_sorted(s: Seq<Task>)
    ensures
        sorted_spec(sort_spec(s)),
        sort_spec(s).len() == s.len(),
        forall|k: int|
            0 <= k < sort_spec(s).len() ==> s.contains(#[trigger] sort_spec(s)[k]),
    decreases s.len(),
{
    if s.len() > 0 {
        lemma_sort_spec_sorted(s.drop_last());
        lemma_insert_sorted_sorted(s.last(), sort_spec(s.drop_last()));
        lemma_insert_sorted_len_elems(s.last(), sort_spec(s.drop_last()));
        assert forall|k: int| 0 <= k < sort_spec(s).len() implies s.contains(
            #[trigger] sort_spec(s)[k],
        ) by {
            let x = sort_spec(s)[k];
            if x == s.last() {
                assert(s[s.len() - 1] == x);
            } else {
                assert(sort_spec(s.drop_last()).contains(x));
                let m = choose|m: int|
                    0 <= m < sort_spec(s.drop_last()).len() && sort_spec(s.drop_last())[m] == x;
                assert(s.drop_last().contains(sort_spec(s.drop_last())[m]));
                let m2 = choose|m2: int|
                    0 <= m2 < s.drop_last().len() && s.drop_last()[m2] == x;
                assert(s[m2] == x);
            }
        }
    }
}

proof fn lemma_insert_sorted_at_end(t: Task, s: Seq<Task>)
    requires
        forall|i: int| 0 <= i < s.len() ==> key_le(#[trigger] s[i], t),
    ensures
        insert_sorted(t, s) =~= s.push(t),
    decreases s.len(),
{
    if s.len() > 0 {
        assert(key_le(s[0], t));
        assert(forall|i: int|
            0 <= i < s.drop_first().len() ==> key_le(#[trigger] s.drop_first()[i], t));
        lemma_insert_sorted_at_end(t, s.drop_first());
    }
}

proof fn lemma_sorted_sort_spec_identity(s: Seq<Task>)
    requires
        sorted_spec(s),
    ensures
        sort_spec(s) =~= s,
    decreases s.len(),
{
    if s.len() > 0 {
        assert(sorted_spec(s.drop_last()));
        lemma_sorted_sort_spec_identity(s.drop_last());
        assert(forall|i: int|
            0 <= i < s.drop_last().len() ==> key_le(#[trigger] s.drop_last()[i], s.last()));
        lemma_insert_sorted_at_end(s.last(), s.drop_last());
        assert(s.drop_last().push(s.last()) =~= s);
    }
}

/// Sorting is idempotent: the sort of an already-sorted collection — in
/// particular of any sort result — is that collection itself.
pub proof fn lemma_sort_idempotent(s: Seq<Task>)
    ensures
        sort_spec(sort_spec(s)) == sort_spec(s),
        sorted_spec(sort_spec(s)),
{
    lemma_sort_spec_sorted(s);
    lemma_sorted_sort_spec_identity(sort_spec(s));
}

/// Reorders the whole collection by the composite key of [`key_le`],
/// stably; it takes no arguments beyond the command itself.
pub fn sort_tasks(tasks: &mut Vec<Task>, args: &Vec<String>) -> (r: Result<(), ArgError>)
    ensures
        ({
            let extra = join_spec(rest_args(args@, 0));
            if extra.len() == 0 {
                &&& r is Ok
                &&& final(tasks)@ == sort_spec(old(tasks)@)
            } else {
                &&& r matches Err(e) && e matches ArgError::TooManyArgs(m) && m@ == extra
                &&& final(tasks)@ == old(tasks)@
            }
        }),
        tasks_wf(old(tasks)@) ==> tasks_wf(final(tasks)@),
{
    match check_for_more_args(args, 0) {
        Ok(()) => (),
        Err(e) => {
            return Err(e);
        },
    }
    let mut out: Vec<Task> = Vec::new();
    let mut i: usize = 0;
    while i < tasks.len()
        invariant
            0 <= i <= tasks@.len(),
            out@ == sort_spec(tasks@.take(i as int)),
            out@.len() == i,
            sorted_spec(out@),
        decreases tasks@.len() - i,
    {
        let t = tasks[i].clone();
        // find the first position whose task must sort strictly after `t`
        let mut pos: usize = 0;
        while pos < out.len() && task_le(&out[pos], &t)
            invariant
                0 <= pos <= out@.len(),
                forall|k: int| 0 <= k < pos ==> key_le(#[trigger] out@[k], t),
            decreases out@.len() - pos,
        {
            pos += 1;
        }
        proof {
            lemma_insert_at_pos(t, out@, pos as int);
            assert(tasks@.take(i + 1).drop_last() =~= tasks@.take(i as int));
            assert(tasks@.take(i + 1).last() == tasks@[i as int]);
            lemma_insert_sorted_sorted(t, out@);
        }
        out.insert(pos, t);
        i += 1;
    }
    proof {
        assert(tasks@.take(tasks@.len() as int) =~= tasks@);
        lemma_sort_spec_sorted(tasks@);
    }
    *tasks = out;
    proof {
        if tasks_wf(old(tasks)@) {
            assert forall|k: int| 0 <= k < tasks@.len() implies (#[trigger] tasks@[k]).wf() by {
                assert(old(tasks)@.contains(tasks@[k]));
                let m = choose|m: int| 0 <= m < old(tasks)@.len() && old(tasks)@[m] == tasks@[k];
            }
        }
    }
    Ok(())
}

proof fn lemma_insert_at_pos(t: Task, s: Seq<Task>, pos: int)
    requires
        sorted_spec(s),
        0 <= pos <= s.len(),
        forall|k: int| 0 <= k < pos ==> key_le(#[trigger] s[k], t),
        pos < s.len() ==> !key_le(s[pos], t),
    ensures
        insert_sorted(t, s) =~= s.insert(pos, t),
    decreases s.len(),
{
    if s.len() == 0 {
        assert(insert_sorted(t, s) =~= s.insert(0, t));
    } else if pos == 0 {
        assert(!key_le(s[0], t));
    } else {
        assert(key_le(s[0], t));
        assert(sorted_spec(s.drop_first()));
        assert(forall|k: int|
            0 <= k < pos - 1 ==> key_le(#[trigger] s.drop_first()[k], t));
        lemma_insert_at_pos(t, s.drop_first(), pos - 1);
        assert(seq![s[0]] + s.drop_first().insert(pos - 1, t) =~= s.insert(pos, t));
    }
}

} // verus!
