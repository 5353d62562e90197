//! The flat text form of a task list: one `<flag>|<description>` line per task.
use crate::store::{ids_dense, Task};
use vstd::prelude::*;
use vstd::std_specs::iter::IteratorSpec;
use vstd::string::{StrSliceExecFns, StringExecFns};

verus! {

/// Position of the first `c` in `s`, or the length of `s` when there is none.
pub open spec fn index_of(s: Seq<char>, c: char) -> nat
    decreases s.len(),
{
    if s.len() == 0 {
        0
    } else if s[0] == c {
        0
    } else {
        1 + index_of(s.drop_first(), c)
    }
}

/// A line without the carriage return of a `\r\n` ending.
pub open spec fn strip_cr(line: Seq<char>) -> Seq<char> {
    if line.len() > 0 && line.last() == '\r' {
        line.drop_last()
    } else {
        line
    }
}

/// The lines of `s`: split at each `\n`, a `\r` right before a `\n` dropped,
/// and no empty line after a final `\n`.
pub open spec fn lines_of(s: Seq<char>) -> Seq<Seq<char>>
    decreases s.len(),
{
    if s.len() == 0 {
        seq![]
    } else {
        let i = index_of(s, '\n');
        if i >= s.len() {
            seq![s]
        } else {
            seq![strip_cr(s.take(i as int))] + lines_of(s.skip((i + 1) as int))
        }
    }
}

/// The flag of a record: what stands before its first `|`, or all of it.
pub open spec fn record_flag(line: Seq<char>) -> Seq<char> {
    line.take(index_of(line, '|') as int)
}

/// A record is done exactly when its flag is `1`.
pub open spec fn record_done(line: Seq<char>) -> bool {
    record_flag(line) == seq!['1']
}

/// The description of a record: what follows its first `|`, or nothing.
pub open spec fn record_description(line: Seq<char>) -> Seq<char> {
    let p = index_of(line, '|');
    if p < line.len() {
        line.skip((p + 1) as int)
    } else {
        seq![]
    }
}

/// `tasks` is what the text `text` holds: one task per line, numbered from 1.
pub open spec fn decodes_to(tasks: Seq<Task>, text: Seq<char>) -> bool {
    let lines = lines_of(text);
    &&& tasks.len() == lines.len()
    &&& forall|k: int|
        0 <= k < tasks.len() ==> {
            &&& (#[trigger] tasks[k]).id == k + 1
            &&& tasks[k].done == record_done(lines[k])
            &&& tasks[k].description@ == record_description(lines[k])
        }
}

proof fn lemma_index_of(s: Seq<char>, c: char, p: int)
    requires
        0 <= p <= s.len(),
        forall|k: int| 0 <= k < p ==> s[k] != c,
        p == s.len() || s[p] == c,
    ensures
        index_of(s, c) == p,
    decreases p,
{
    if p > 0 {
        lemma_index_of(s.drop_first(), c, p - 1);
    }
}

proof fn lemma_lines_len(s: Seq<char>)
    ensures
        lines_of(s).len() <= s.len(),
    decreases s.len(),
{
    if s.len() > 0 {
        let i = index_of(s, '\n');
        if i < s.len() {
            lemma_lines_len(s.skip((i + 1) as int));
        }
    }
}

/// Position of the first `c` in `cs[from..end]`, or `end` when there is none.
fn find_from(cs: &Vec<char>, from: usize, end: usize, c: char) -> (r: usize)
    requires
        from <= end <= cs.len(),
    ensures
        from <= r <= end,
        r - from == index_of(cs@.subrange(from as int, end as int), c),
{
    let mut i: usize = from;
    while i < end && cs[i] != c
        invariant
            from <= i <= end <= cs.len(),
            forall|k: int| from <= k < i ==> cs@[k] != c,
        decreases end - i,
    {
        i += 1;
    }
    proof {
        lemma_index_of(cs@.subrange(from as int, end as int), c, i - from);
    }
    i
}

/// The characters of `s`, in order.
fn chars_of(s: &str) -> (r: Vec<char>)
    ensures
        r@ == s@,
{
    let mut out: Vec<char> = Vec::new();
    let mut it = s.chars();
    loop
        invariant
            out@ + it.remaining() == s@,
            it.decrease() is Some,
        ensures
            out@ == s@,
        decreases it.decrease()->0,
    {
        match it.next() {
            Some(c) => {
                out.push(c);
            },
            None => {
                assert(out@ =~= out@ + it.remaining());
                break;
            },
        }
    }
    out
}

/// The task with id `id` that the record `text[a..b]` holds (`cs` being the
/// characters of `text`).
fn decode_record(text: &str, cs: &Vec<char>, a: usize, b: usize, id: usize) -> (r: Task)
    requires
        cs@ == text@,
        a <= b <= cs.len(),
    ensures
        r.id == id,
        r.done == record_done(cs@.subrange(a as int, b as int)),
        r.description@ == record_description(cs@.subrange(a as int, b as int)),
{
    let ghost line = cs@.subrange(a as int, b as int);
    let p = find_from(cs, a, b, '|');
    let done = p > a && p - a == 1 && cs[a] == '1';
    proof {
        let flag = record_flag(line);
        assert(flag =~= cs@.subrange(a as int, p as int));
        if done {
            assert(flag =~= seq!['1']);
        }
        if flag == seq!['1'] {
            assert(flag.len() == 1 && flag[0] == '1');
        }
    }
    let description = if p < b {
        let d = text.substring_char(p + 1, b).to_owned();
        assert(d@ =~= record_description(line));
        d
    } else {
        String::new()
    };
    Task { id, description, done }
}

/// Reads a task list from its text form. Each line is one task, numbered by
/// its position; a malformed line still makes a task, never an error.
pub fn decode_tasks(text: &str) -> (r: Vec<Task>)
    ensures
        decodes_to(r@, text@),
        ids_dense(r@),
        text@.len() == 0 ==> r@.len() == 0,
{
    let cs = chars_of(text);
    let n = cs.len();
    let mut tasks: Vec<Task> = Vec::new();
    let mut pos: usize = 0;
    let ghost mut done_lines: Seq<Seq<char>> = seq![];
    proof {
        lemma_lines_len(text@);
        assert(text@.subrange(0, n as int) =~= text@);
    }
    while pos < n
        invariant
            cs@ == text@,
            n == cs.len(),
            pos <= n,
            lines_of(text@) == done_lines + lines_of(text@.subrange(pos as int, n as int)),
            lines_of(text@).len() <= n,
            tasks.len() == done_lines.len(),
            forall|k: int|
                0 <= k < tasks.len() ==> {
                    &&& (#[trigger] tasks@[k]).id == k + 1
                    &&& tasks@[k].done == record_done(done_lines[k])
                    &&& tasks@[k].description@ == record_description(done_lines[k])
                },
        decreases n - pos,
    {
        let ghost rest = text@.subrange(pos as int, n as int);
        let nl = find_from(&cs, pos, n, '\n');
        let mut end = nl;
        if nl < n && nl > pos && cs[nl - 1] == '\r' {
            end = nl - 1;
        }
        let ghost line = cs@.subrange(pos as int, end as int);
        proof {
            if nl < n {
                assert(line =~= strip_cr(rest.take((nl - pos) as int)));
                assert(rest.skip((nl - pos + 1) as int) =~= text@.subrange(nl + 1, n as int));
            } else {
                assert(line =~= rest);
                assert(text@.subrange(n as int, n as int) =~= seq![]);
            }
            assert(lines_of(rest) =~= seq![line] + lines_of(
                text@.subrange(if nl < n { nl + 1 } else { n as int }, n as int),
            ));
        }
        let task = decode_record(text, &cs, pos, end, tasks.len() + 1);
        tasks.push(task);
        proof {
            done_lines = done_lines.push(line);
        }
        pos = if nl < n {
            nl + 1
        } else {
            n
        };
        assert(lines_of(text@) =~= done_lines + lines_of(text@.subrange(pos as int, n as int)));
    }
    proof {
        assert(text@.subrange(pos as int, n as int) =~= seq![]);
        assert(done_lines =~= lines_of(text@));
    }
    tasks
}

/// The flag written for a completion state.
pub open spec fn flag_text(done: bool) -> Seq<char> {
    if done {
        seq!['1']
    } else {
        seq!['0']
    }
}

/// The line written for one task: `<flag>|<description>`.
pub open spec fn record_of(t: Task) -> Seq<char> {
    flag_text(t.done) + seq!['|'] + t.description@
}

/// The text form of a task list: its records joined by `\n`, with no
/// newline after the last one.
pub open spec fn encoded(tasks: Seq<Task>) -> Seq<char>
    decreases tasks.len(),
{
    if tasks.len() == 0 {
        seq![]
    } else if tasks.len() == 1 {
        record_of(tasks[0])
    } else {
        record_of(tasks[0]) + seq!['\n'] + encoded(tasks.drop_first())
    }
}

proof fn lemma_encoded_push(tasks: Seq<Task>, t: Task)
    requires
        tasks.len() > 0,
    ensures
        encoded(tasks.push(t)) == encoded(tasks) + seq!['\n'] + record_of(t),
    decreases tasks.len(),
{
    assert(tasks.push(t).drop_first() =~= tasks.drop_first().push(t));
    if tasks.len() == 1 {
        assert(tasks.drop_first().push(t) =~= seq![t]);
        assert(tasks.push(t)[0] == tasks[0]);
        assert(encoded(seq![t]) == record_of(t));
        assert(encoded(tasks.push(t)) =~= encoded(tasks) + seq!['\n'] + record_of(t));
    } else {
        lemma_encoded_push(tasks.drop_first(), t);
        assert(encoded(tasks.push(t)) =~= encoded(tasks) + seq!['\n'] + record_of(t));
    }
}

/// Appends the record of `t` to `out`.
fn push_record(out: &mut String, t: &Task)
    ensures
        final(out)@ == old(out)@ + record_of(*t),
{
    proof {
        reveal_strlit("1");
        reveal_strlit("0");
        reveal_strlit("|");
    }
    if t.done {
        out.append("1");
    } else {
        out.append("0");
    }
    out.append("|");
    out.append(t.description.as_str());
    assert(final(out)@ =~= old(out)@ + record_of(*t));
}

/// Writes a task list in its text form, one record per task in order.
pub fn encode_tasks(tasks: &Vec<Task>) -> (r: String)
    ensures
        r@ == encoded(tasks@),
{
    let mut out = String::new();
    let mut i: usize = 0;
    while i < tasks.len()
        invariant
            i <= tasks.len(),
            out@ == encoded(tasks@.take(i as int)),
        decreases tasks.len() - i,
    {
        let ghost before = tasks@.take(i as int);
        if i > 0 {
            proof {
                reveal_strlit("\n");
            }
            out.append("\n");
        }
        push_record(&mut out, &tasks[i]);
        proof {
            assert(tasks@.take(i + 1) =~= before.push(tasks@[i as int]));
            if i > 0 {
                lemma_encoded_push(before, tasks@[i as int]);
            } else {
                assert(out@ =~= record_of(tasks@[0]));
            }
        }
        i += 1;
    }
    assert(tasks@.take(i as int) =~= tasks@);
    out
}

/// The descriptions of `tasks` survive a trip through the text form: none
/// holds a line break, and none but the last ends with a carriage return
/// (which would read as half of a `\r\n` line ending).
pub open spec fn storable(tasks: Seq<Task>) -> bool {
    &&& forall|k: int| 0 <= k < tasks.len() ==> !(#[trigger] tasks[k]).description@.contains('\n')
    &&& forall|k: int|
        0 <= k < tasks.len() - 1 ==> (#[trigger] tasks[k]).description@.len() == 0
            || tasks[k].description@.last() != '\r'
}

proof fn lemma_record_parts(t: Task)
    ensures
        index_of(record_of(t), '|') == 1,
        record_done(record_of(t)) == t.done,
        record_description(record_of(t)) == t.description@,
{
    let r = record_of(t);
    lemma_index_of(r, '|', 1);
    assert(record_flag(r) =~= flag_text(t.done));
    assert(r.skip(2) =~= t.description@);
}

proof fn lemma_lines_of_encoded(tasks: Seq<Task>)
    requires
        storable(tasks),
    ensures
        lines_of(encoded(tasks)) == Seq::new(tasks.len(), |k: int| record_of(tasks[k])),
    decreases tasks.len(),
{
    let recs = Seq::new(tasks.len(), |k: int| record_of(tasks[k]));
    if tasks.len() == 0 {
        assert(lines_of(encoded(tasks)) =~= recs);
    } else {
        let r0 = record_of(tasks[0]);
        assert(!tasks[0].description@.contains('\n'));
        assert forall|k: int| 0 <= k < r0.len() implies r0[k] != '\n' by {
            if k >= 2 {
                assert(r0[k] == tasks[0].description@[k - 2]);
            }
        }
        if tasks.len() == 1 {
            lemma_index_of(r0, '\n', r0.len() as int);
            assert(lines_of(encoded(tasks)) =~= recs);
        } else {
            let rest = tasks.drop_first();
            let s = encoded(tasks);
            assert(s == r0 + seq!['\n'] + encoded(rest));
            lemma_index_of(s, '\n', r0.len() as int);
            assert(s.take(r0.len() as int) =~= r0);
            assert(s.skip((r0.len() + 1) as int) =~= encoded(rest));
            assert(tasks[0].description@.len() == 0 || tasks[0].description@.last() != '\r');
            assert(strip_cr(r0) == r0);
            assert forall|k: int| 0 <= k < rest.len() implies !(
            #[trigger] rest[k]).description@.contains('\n') by {
                assert(rest[k] == tasks[k + 1]);
            }
            assert forall|k: int| 0 <= k < rest.len() - 1 implies (
            #[trigger] rest[k]).description@.len() == 0 || rest[k].description@.last() != '\r' by {
                assert(rest[k] == tasks[k + 1]);
            }
            lemma_lines_of_encoded(rest);
            assert(lines_of(s) =~= recs);
        }
    }
}

/// Decoding the text form of a task list gives back its descriptions and
/// completion flags, in order, whenever the list is `storable`; the ids of the
/// result are renumbered 1..N.
pub proof fn round_trip(tasks: Seq<Task>, decoded: Seq<Task>)
    requires
        storable(tasks),
        decodes_to(decoded, encoded(tasks)),
    ensures
        decoded.len() == tasks.len(),
        ids_dense(decoded),
        forall|k: int|
            0 <= k < tasks.len() ==> (#[trigger] decoded[k]).description@
                == tasks[k].description@ && decoded[k].done == tasks[k].done,
{
    lemma_lines_of_encoded(tasks);
    assert forall|k: int| 0 <= k < tasks.len() implies (#[trigger] decoded[k]).description@
        == tasks[k].description@ && decoded[k].done == tasks[k].done by {
        lemma_record_parts(tasks[k]);
    }
}

} // verus!
