//! The rows shown when a task list is listed: `<id> [<mark>] <description>`.
use crate::store::Task;
use vstd::prelude::*;
use vstd::string::StringExecFns;

verus! {

/// The decimal digit for `d` (below 10).
pub open spec fn digit_char(d: nat) -> char {
    if d == 0 {
        '0'
    } else if d == 1 {
        '1'
    } else if d == 2 {
        '2'
    } else if d == 3 {
        '3'
    } else if d == 4 {
        '4'
    } else if d == 5 {
        '5'
    } else if d == 6 {
        '6'
    } else if d == 7 {
        '7'
    } else if d == 8 {
        '8'
    } else {
        '9'
    }
}

/// The decimal digits of `n`, most significant first, without leading zeros.
pub open spec fn decimal(n: nat) -> Seq<char>
    decreases n,
{
    if n < 10 {
        seq![digit_char(n)]
    } else {
        decimal(n / 10) + seq![digit_char(n % 10)]
    }
}

/// `s` right-aligned in a field two characters wide.
pub open spec fn pad2(s: Seq<char>) -> Seq<char> {
    if s.len() < 2 {
        seq![' '] + s
    } else {
        s
    }
}

/// The completion mark: `x` for a done task, a space otherwise.
pub open spec fn mark_of(done: bool) -> char {
    if done {
        'x'
    } else {
        ' '
    }
}

/// The row shown for one task.
pub open spec fn row_of(t: Task) -> Seq<char> {
    pad2(decimal(t.id as nat)) + seq![' ', '[', mark_of(t.done), ']', ' '] + t.description@
}

proof fn lemma_decimal_nonempty(n: nat)
    ensures
        decimal(n).len() >= 1,
        n >= 10 ==> decimal(n).len() >= 2,
    decreases n,
{
    if n >= 10 {
        lemma_decimal_nonempty(n / 10);
    }
}

fn digit_str(d: usize) -> (r: &'static str)
    requires
        d < 10,
    ensures
        r@ == seq![digit_char(d as nat)],
{
    proof {
        reveal_strlit("0");
        reveal_strlit("1");
        reveal_strlit("2");
        reveal_strlit("3");
        reveal_strlit("4");
        reveal_strlit("5");
        reveal_strlit("6");
        reveal_strlit("7");
        reveal_strlit("8");
        reveal_strlit("9");
    }
    if d == 0 {
        "0"
    } else if d == 1 {
        "1"
    } else if d == 2 {
        "2"
    } else if d == 3 {
        "3"
    } else if d == 4 {
        "4"
    } else if d == 5 {
        "5"
    } else if d == 6 {
        "6"
    } else if d == 7 {
        "7"
    } else if d == 8 {
        "8"
    } else {
        "9"
    }
}

/// Appends the decimal digits of `n` to `out`.
fn push_decimal(out: &mut String, n: usize)
    ensures
        final(out)@ == old(out)@ + decimal(n as nat),
    decreases n,
{
    if n >= 10 {
        push_decimal(out, n / 10);
    }
    out.append(digit_str(n % 10));
    assert(final(out)@ =~= old(out)@ + decimal(n as nat));
}

/// The row shown for `t`: its id right-aligned in two columns, its mark in
/// brackets, then its description.
pub fn task_row(t: &Task) -> (r: String)
    ensures
        r@ == row_of(*t),
{
    proof {
        reveal_strlit(" ");
        reveal_strlit(" [");
        reveal_strlit("x");
        reveal_strlit("] ");
        lemma_decimal_nonempty(t.id as nat);
    }
    let mut out = String::new();
    if t.id < 10 {
        out.append(" ");
    }
    push_decimal(&mut out, t.id);
    out.append(" [");
    if t.done {
        out.append("x");
    } else {
        out.append(" ");
    }
    out.append("] ");
    out.append(t.description.as_str());
    assert(out@ =~= row_of(*t));
    out
}

/// A snapshot of the store for display: one row per task, in store order;
/// an empty store gives no rows.
pub fn list_tasks(tasks: &Vec<Task>) -> (r: Vec<String>)
    ensures
        r.len() == tasks.len(),
        forall|k: int| 0 <= k < tasks.len() ==> (#[trigger] r[k])@ == row_of(tasks@[k]),
{
    let mut rows: Vec<String> = Vec::new();
    let mut i: usize = 0;
    while i < tasks.len()
        invariant
            i <= tasks.len(),
            rows.len() == i,
            forall|k: int| 0 <= k < i ==> (#[trigger] rows[k])@ == row_of(tasks@[k]),
        decreases tasks.len() - i,
    {
        let row = task_row(&tasks[i]);
        rows.push(row);
        i += 1;
    }
    rows
}

} // verus!
