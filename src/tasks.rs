use vstd::prelude::*;

use crate::timestamp::Timestamp;

verus! {

/// Where a task stands.
#[derive(Clone, Copy, Debug, PartialEq, Eq, Structural)]
pub enum TaskStatus {
    Todo,
    InProgress,
    Done,
}

/// One unit of work.
pub struct Task {
    pub id: u32,
    pub description: String,
    pub status: TaskStatus,
    pub updated_at: Timestamp,
}

impl Clone for Task {
    fn clone(&self) -> (r: Task)
        ensures
            r == *self,
    {
        Task {
            id: self.id,
            description: self.description.clone(),
            status: self.status,
            updated_at: self.updated_at.clone(),
        }
    }
}

/// The task collection, in stored order.
pub struct Tasks {
    pub tasks: Vec<Task>,
}

/// The decimal digit `d` (below ten).
pub open spec fn digit_char(d: int) -> char {
    if d == 0 {
        '0'
    } else if d == 1 {
        '1'
    } else if d == 2 {
        '2'
    } else if d == 3 {
        '3'
    } else if d == 4 {
        '4'
    } else if d == 5 {
        '5'
    } else if d == 6 {
        '6'
    } else if d == 7 {
        '7'
    } else if d == 8 {
        '8'
    } else {
        '9'
    }
}

/// The decimal digits of `n`, without leading zeros.
pub open spec fn decimal(n: nat) -> Seq<char>
    decreases n,
{
    if n < 10 {
        seq![digit_char(n as int)]
    } else {
        decimal(n / 10).push(digit_char((n % 10) as int))
    }
}

/// `n` in decimal, padded with zeros on the left to three characters at least.
pub open spec fn id_field(n: nat) -> Seq<char> {
    let d = decimal(n);
    if d.len() < 3 {
        Seq::new((3 - d.len()) as nat, |_i: int| '0') + d
    } else {
        d
    }
}

/// The line that shows a task: `#033: ring up john` and a newline.
pub open spec fn task_line(t: Task) -> Seq<char> {
    "#"@ + id_field(t.id as nat) + ": "@ + t.description@ + "\n"@
}

/// A rule of `n` equals signs.
pub open spec fn divider(n: nat) -> Seq<char> {
    Seq::new(n, |_i: int| '=')
}

proof fn lemma_decimal_len(n: nat)
    ensures
        n < 10 ==> decimal(n).len() == 1,
        10 <= n < 100 ==> decimal(n).len() == 2,
        100 <= n ==> decimal(n).len() >= 3,
    decreases n,
{
    if n >= 10 {
        lemma_decimal_len(n / 10);
    }
}

fn digit_str(d: u32) -> (r: &'static str)
    requires
        d < 10,
    ensures
        r@ == seq![digit_char(d as int)],
{
    proof {
        reveal_strlit("0");
        reveal_strlit("1");
        reveal_strlit("2");
        reveal_strlit("3");
        reveal_strlit("4");
        reveal_strlit("5");
        reveal_strlit("6");
        reveal_strlit("7");
        reveal_strlit("8");
        reveal_strlit("9");
    }
    if d == 0 {
        "0"
    } else if d == 1 {
        "1"
    } else if d == 2 {
        "2"
    } else if d == 3 {
        "3"
    } else if d == 4 {
        "4"
    } else if d == 5 {
        "5"
    } else if d == 6 {
        "6"
    } else if d == 7 {
        "7"
    } else if d == 8 {
        "8"
    } else {
        "9"
    }
}

fn push_decimal(out: &mut String, n: u32)
    ensures
        final(out)@ == old(out)@ + decimal(n as nat),
    decreases n,
{
    if n >= 10 {
        push_decimal(out, n / 10);
    }
    out.append(digit_str(n % 10));
    proof {
        assert(old(out)@ + decimal(n as nat) =~= final(out)@);
    }
}

fn push_id_field(out: &mut String, n: u32)
    ensures
        final(out)@ == old(out)@ + id_field(n as nat),
{
    proof {
        lemma_decimal_len(n as nat);
        reveal_strlit("00");
        reveal_strlit("0");
    }
    if n < 10 {
        out.append("00");
    } else if n < 100 {
        out.append("0");
    }
    push_decimal(out, n);
    proof {
        assert(final(out)@ =~= old(out)@ + id_field(n as nat));
    }
}

/// A string of `len` equals signs, the rule under a heading.
pub fn divider_string(len: usize) -> (r: String)
    ensures
        r@ == divider(len as nat),
{
    let mut s = String::new();
    let mut i: usize = 0;
    while i < len
        invariant
            i <= len,
            s@ == divider(i as nat),
        decreases len - i,
    {
        proof {
            reveal_strlit("=");
        }
        s.append("=");
        i = i + 1;
        assert(s@ =~= divider(i as nat));
    }
    s
}

impl Task {
    /// The task as one line of the listing.
    pub fn to_string(&self) -> (r: String)
        ensures
            r@ == task_line(*self),
    {
        let mut out = String::new();
        self.push_line(&mut out);
        out
    }

    pub(crate) fn push_line(&self, out: &mut String)
        ensures
            final(out)@ == old(out)@ + task_line(*self),
    {
        out.append("#");
        push_id_field(out, self.id);
        out.append(": ");
        out.append(self.description.as_str());
        out.append("\n");
        assert(final(out)@ =~= old(out)@ + task_line(*self));
    }
}

} // verus!
