use vstd::prelude::*;

use crate::order::{
    lemma_lex_total, lemma_lex_transitive, lemma_sorted_unique, lex_lt, str_less, strictly_sorted,
};
use crate::tasks::{divider, divider_string, task_line, Task, TaskStatus, Tasks};

verus! {

/// A section heading: a blank line, the title, and a rule as long as the title.
pub open spec fn heading(title: Seq<char>) -> Seq<char> {
    "\n"@ + title + "\n"@ + divider(title.len()) + "\n"@
}

/// The lines of the tasks with status `st`, in stored order.
pub open spec fn lines_with(s: Seq<Task>, st: TaskStatus) -> Seq<char>
    decreases s.len(),
{
    if s.len() == 0 {
        Seq::empty()
    } else {
        lines_with(s.drop_last(), st) + if s.last().status == st {
            task_line(s.last())
        } else {
            Seq::empty()
        }
    }
}

pub open spec fn has_status(s: Seq<Task>, st: TaskStatus) -> bool {
    exists|i: int| 0 <= i < s.len() && s[i].status == st
}

/// The heading `title`, when some task has status `st`, then that status's lines.
pub open spec fn section(s: Seq<Task>, st: TaskStatus, title: Seq<char>) -> Seq<char> {
    (if has_status(s, st) {
        heading(title)
    } else {
        Seq::empty()
    }) + lines_with(s, st)
}

/// The lines of the finished tasks whose day label is `day`, in stored order.
pub open spec fn done_lines(s: Seq<Task>, day: Seq<char>) -> Seq<char>
    decreases s.len(),
{
    if s.len() == 0 {
        Seq::empty()
    } else {
        done_lines(s.drop_last(), day) + if s.last().status == TaskStatus::Done
            && s.last().updated_at.label() == day {
            task_line(s.last())
        } else {
            Seq::empty()
        }
    }
}

/// The day labels of the finished tasks.
pub open spec fn done_days(s: Seq<Task>) -> Set<Seq<char>> {
    Set::new(
        |d: Seq<char>|
            exists|i: int|
                0 <= i < s.len() && s[i].status == TaskStatus::Done && s[i].updated_at.label() == d,
    )
}

/// One block per day in `days`, each a heading `Done <day>` and that day's lines.
pub open spec fn done_blocks(s: Seq<Task>, days: Seq<Seq<char>>) -> Seq<char>
    decreases days.len(),
{
    if days.len() == 0 {
        Seq::empty()
    } else {
        done_blocks(s, days.drop_last()) + heading("Done "@ + days.last()) + done_lines(
            s,
            days.last(),
        )
    }
}

/// The listing of `s` when `days` are its finished tasks' days in ascending order.
pub open spec fn listing_with(s: Seq<Task>, days: Seq<Seq<char>>) -> Seq<char> {
    done_blocks(s, days) + section(s, TaskStatus::InProgress, "In Progress"@) + section(
        s,
        TaskStatus::Todo,
        "Todo"@,
    ) + if s.len() == 0 {
        "\nNo tasks found!\n"@
    } else {
        Seq::empty()
    }
}

/// `out` is the listing of `s`: the finished tasks grouped by day, the days in
/// ascending string order, then the tasks in progress, then those to do.
pub open spec fn is_listing(s: Seq<Task>, out: Seq<char>) -> bool {
    exists|days: Seq<Seq<char>>|
        strictly_sorted(days) && days.to_set() == done_days(s) && out == listing_with(s, days)
}

pub open spec fn views(v: Seq<String>) -> Seq<Seq<char>> {
    v.map_values(|x: String| x@)
}

/// Listing the same collection twice gives the same text: the listing is a
/// function of the tasks and their order alone.
pub proof fn lemma_listing_deterministic(s: Seq<Task>, a: Seq<char>, b: Seq<char>)
    requires
        is_listing(s, a),
        is_listing(s, b),
    ensures
        a == b,
{
    let da = choose|d: Seq<Seq<char>>|
        strictly_sorted(d) && d.to_set() == done_days(s) && a == listing_with(s, d);
    let db = choose|d: Seq<Seq<char>>|
        strictly_sorted(d) && d.to_set() == done_days(s) && b == listing_with(s, d);
    lemma_sorted_unique(da, db);
}

/// An empty collection lists as the single line `No tasks found!`, after a
/// blank line, and no heading.
pub proof fn lemma_empty_listing(out: Seq<char>)
    requires
        is_listing(Seq::empty(), out),
    ensures
        out == "\nNo tasks found!\n"@,
{
    let s = Seq::<Task>::empty();
    let d = choose|d: Seq<Seq<char>>|
        strictly_sorted(d) && d.to_set() == done_days(s) && out == listing_with(s, d);
    assert(done_days(s) =~= Set::empty());
    if d.len() > 0 {
        assert(d.to_set().contains(d[0]));
    }
    assert(out =~= "\nNo tasks found!\n"@);
}

fn push_heading(out: &mut String, title: &str)
    ensures
        final(out)@ == old(out)@ + heading(title@),
{
    out.append("\n");
    out.append(title);
    out.append("\n");
    let rule = divider_string(title.unicode_len());
    out.append(rule.as_str());
    out.append("\n");
    assert(final(out)@ =~= old(out)@ + heading(title@));
}

fn push_section(out: &mut String, tasks: &Vec<Task>, st: TaskStatus, title: &str)
    ensures
        final(out)@ == old(out)@ + section(tasks@, st, title@),
{
    let mut lines = String::new();
    let mut found = false;
    let n = tasks.len();
    let mut i: usize = 0;
    while i < n
        invariant
            n == tasks@.len(),
            i <= n,
            lines@ == lines_with(tasks@.take(i as int), st),
            found == has_status(tasks@.take(i as int), st),
        decreases n - i,
    {
        let t = &tasks[i];
        assert(tasks@.take(i + 1).drop_last() =~= tasks@.take(i as int));
        if t.status == st {
            t.push_line(&mut lines);
            found = true;
            assert(tasks@.take(i + 1)[i as int] == tasks@[i as int]);
        }
        assert(has_status(tasks@.take(i + 1), st) == (has_status(tasks@.take(i as int), st)
            || tasks@[i as int].status == st)) by {
            let s0 = tasks@.take(i as int);
            let s1 = tasks@.take(i + 1);
            if has_status(s1, st) {
                let j = choose|j: int| 0 <= j < s1.len() && #[trigger] s1[j].status == st;
                if j < i {
                    assert(s0[j] == s1[j]);
                }
            }
            if has_status(s0, st) {
                let j = choose|j: int| 0 <= j < s0.len() && #[trigger] s0[j].status == st;
                assert(s0[j] == s1[j]);
            }
            if tasks@[i as int].status == st {
                assert(tasks@.take(i + 1)[i as int] == tasks@[i as int]);
            }
        }
        i = i + 1;
        assert(lines@ =~= lines_with(tasks@.take(i as int), st));
    }
    assert(tasks@.take(n as int) =~= tasks@);
    if found {
        push_heading(out, title);
    }
    out.append(lines.as_str());
    assert(final(out)@ =~= old(out)@ + section(tasks@, st, title@));
}

/// Inserts `day` into the ascending list `days` unless it is there already.
fn insert_day(days: &mut Vec<String>, day: String)
    requires
        strictly_sorted(views(old(days)@)),
    ensures
        strictly_sorted(views(final(days)@)),
        views(final(days)@).to_set() == views(old(days)@).to_set().insert(day@),
{
    let ghost old_v = views(days@);
    let n = days.len();
    let mut j: usize = 0;
    loop
        invariant
            n == days@.len(),
            old_v == views(days@),
            strictly_sorted(old_v),
            j <= n,
            forall|p: int| 0 <= p < j ==> lex_lt(#[trigger] old_v[p], day@),
        ensures
            n == days@.len(),
            old_v == views(days@),
            j <= n,
            forall|p: int| 0 <= p < j ==> lex_lt(#[trigger] old_v[p], day@),
            j < n ==> !lex_lt(old_v[j as int], day@),
        decreases n - j,
    {
        if j == n {
            break;
        }
        if !str_less(days[j].as_str(), day.as_str()) {
            break;
        }
        j = j + 1;
    }
    if j < n && days[j] == day {
        proof {
            assert(old_v[j as int] == day@);
            assert(old_v.to_set() =~= old_v.to_set().insert(day@));
        }
        return;
    }
    let ghost d = day@;
    days.insert(j, day);
    proof {
        let new_v = views(days@);
        assert(new_v =~= old_v.insert(j as int, d));
        if j < n {
            lemma_lex_total(old_v[j as int], d);
            assert(lex_lt(d, old_v[j as int]));
        }
        assert forall|p: int, q: int| 0 <= p < q < new_v.len() implies lex_lt(new_v[p], new_v[q]) by {
            if q < j {
            } else if q == j {
            } else if p < j {
                assert(lex_lt(old_v[p], old_v[q - 1]));
            } else if p == j {
                if q - 1 > j {
                    assert(lex_lt(old_v[j as int], old_v[q - 1]));
                    lemma_lex_transitive(d, old_v[j as int], old_v[q - 1]);
                }
            } else {
                assert(lex_lt(old_v[p - 1], old_v[q - 1]));
            }
        }
        assert forall|x: Seq<char>| new_v.to_set().contains(x) <==> old_v.to_set().insert(
            d,
        ).contains(x) by {
            if new_v.to_set().contains(x) {
                let k = choose|k: int| 0 <= k < new_v.len() && new_v[k] == x;
                if k < j {
                    assert(old_v[k] == x);
                } else if k > j {
                    assert(old_v[k - 1] == x);
                }
            }
            if old_v.to_set().contains(x) {
                let k = choose|k: int| 0 <= k < old_v.len() && old_v[k] == x;
                if k < j {
                    assert(new_v[k] == x);
                } else {
                    assert(new_v[k + 1] == x);
                }
            }
            if x == d {
                assert(new_v[j as int] == x);
            }
        }
        assert(new_v.to_set() =~= old_v.to_set().insert(d));
    }
}

/// The day labels of the finished tasks, each once, in ascending order.
fn sorted_done_days(tasks: &Vec<Task>) -> (days: Vec<String>)
    ensures
        strictly_sorted(views(days@)),
        views(days@).to_set() == done_days(tasks@),
{
    let mut days: Vec<String> = Vec::new();
    let n = tasks.len();
    let mut i: usize = 0;
    assert(views(days@).to_set() =~= done_days(tasks@.take(0)));
    while i < n
        invariant
            n == tasks@.len(),
            i <= n,
            strictly_sorted(views(days@)),
            views(days@).to_set() == done_days(tasks@.take(i as int)),
        decreases n - i,
    {
        let t = &tasks[i];
        let ghost s0 = tasks@.take(i as int);
        let ghost s1 = tasks@.take(i + 1);
        assert forall|k: int| 0 <= k < i implies s1[k] == s0[k] by {}
        assert(s1[i as int] == tasks@[i as int]);
        if t.status == TaskStatus::Done {
            let day = t.updated_at.date_label();
            insert_day(&mut days, day);
            assert(done_days(s1) =~= done_days(s0).insert(t.updated_at.label()));
        } else {
            assert(done_days(s1) =~= done_days(s0));
        }
        i = i + 1;
    }
    assert(tasks@.take(n as int) =~= tasks@);
    days
}

fn push_done_lines(out: &mut String, tasks: &Vec<Task>, day: &String)
    ensures
        final(out)@ == old(out)@ + done_lines(tasks@, day@),
{
    let n = tasks.len();
    let mut i: usize = 0;
    while i < n
        invariant
            n == tasks@.len(),
            i <= n,
            out@ == old(out)@ + done_lines(tasks@.take(i as int), day@),
        decreases n - i,
    {
        let t = &tasks[i];
        assert(tasks@.take(i + 1).drop_last() =~= tasks@.take(i as int));
        assert(tasks@.take(i + 1).last() == tasks@[i as int]);
        if t.status == TaskStatus::Done {
            let label = t.updated_at.date_label();
            if label == *day {
                t.push_line(out);
            }
        }
        i = i + 1;
        assert(out@ =~= old(out)@ + done_lines(tasks@.take(i as int), day@));
    }
    assert(tasks@.take(n as int) =~= tasks@);
}

fn push_done_blocks(out: &mut String, tasks: &Vec<Task>, days: &Vec<String>)
    ensures
        final(out)@ == old(out)@ + done_blocks(tasks@, views(days@)),
{
    let ghost v = views(days@);
    let n = days.len();
    let mut k: usize = 0;
    assert(out@ =~= old(out)@ + done_blocks(tasks@, v.take(0)));
    while k < n
        invariant
            n == days@.len(),
            v == views(days@),
            k <= n,
            out@ == old(out)@ + done_blocks(tasks@, v.take(k as int)),
        decreases n - k,
    {
        let mut title = String::from_str("Done ");
        title.append(days[k].as_str());
        push_heading(out, title.as_str());
        push_done_lines(out, tasks, &days[k]);
        assert(v.take(k + 1).drop_last() =~= v.take(k as int));
        assert(v.take(k + 1).last() == days@[k as int]@);
        k = k + 1;
        assert(out@ =~= old(out)@ + done_blocks(tasks@, v.take(k as int)));
    }
    assert(v.take(n as int) =~= v);
}

impl Tasks {
    /// The listing: finished tasks grouped under their day, then the tasks in
    /// progress, then those to do; a note when there are none.
    pub fn to_string(&self) -> (r: String)
        ensures
            is_listing(self.tasks@, r@),
    {
        let days = sorted_done_days(&self.tasks);
        let mut out = String::new();
        push_done_blocks(&mut out, &self.tasks, &days);
        push_section(&mut out, &self.tasks, TaskStatus::InProgress, "In Progress");
        push_section(&mut out, &self.tasks, TaskStatus::Todo, "Todo");
        if self.tasks.len() == 0 {
            out.append("\nNo tasks found!\n");
        }
        assert(out@ =~= listing_with(self.tasks@, views(days@)));
        out
    }
}

} // verus!
