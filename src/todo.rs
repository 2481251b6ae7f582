//! A to-do list driven by one-line commands: `add`, `list`, `done`,
//! `remove` and `exit`. The caller prints the messages that each command
//! returns.
use vstd::prelude::*;
use crate::text::{decimal, format_decimal};

verus! {

/// The value of a run of decimal digits.
pub open spec fn digits_value(s: Seq<char>) -> nat
    decreases s.len(),
{
    if s.len() == 0 {
        0
    } else {
        digits_value(s.drop_last()) * 10 + ((s.last() as u32) - ('0' as u32)) as nat
    }
}

/// Whether every character is an ASCII digit.
pub open spec fn all_digits(s: Seq<char>) -> bool {
    forall|i: int| 0 <= i < s.len() ==> '0' <= #[trigger] s[i] && s[i] <= '9'
}

/// The unsigned number that `s` spells, as `usize::from_str` reads it: an
/// optional `+`, then at least one digit and nothing else, within `usize`.
pub open spec fn decimal_value(s: Seq<char>) -> Option<nat> {
    let d = if s.len() > 0 && s[0] == '+' {
        s.drop_first()
    } else {
        s
    };
    if d.len() > 0 && all_digits(d) && digits_value(d) <= usize::MAX {
        Some(digits_value(d))
    } else {
        None
    }
}

/// The list position that a task number names: one less than the number.
/// `None` for text that is no number, and for zero.
pub open spec fn index_of(s: Seq<char>) -> Option<nat> {
    match decimal_value(s) {
        Some(v) => if v >= 1 {
            Some((v - 1) as nat)
        } else {
            None
        },
        None => None,
    }
}

/// Reads an unsigned decimal number.
pub fn parse_decimal(s: &str) -> (r: Option<usize>)
    ensures
        match (r, decimal_value(s@)) {
            (Some(x), Some(v)) => x == v,
            (None, None) => true,
            _ => false,
        },
{
    let n = s.unicode_len();
    let mut start: usize = 0;
    if n > 0 && s.get_char(0) == '+' {
        start = 1;
    }
    let ghost d = if s@.len() > 0 && s@[0] == '+' {
        s@.drop_first()
    } else {
        s@
    };
    assert(d =~= s@.subrange(start as int, n as int));
    if start == n {
        return None;
    }
    let mut value: usize = 0;
    let mut i: usize = start;
    while i < n
        invariant
            n == s@.len(),
            start < n,
            start <= i <= n,
            d == s@.subrange(start as int, n as int),
            d == (if s@.len() > 0 && s@[0] == '+' {
                s@.drop_first()
            } else {
                s@
            }),
            all_digits(d.subrange(0, i - start)),
            value == digits_value(d.subrange(0, i - start)),
        decreases n - i,
    {
        let c = s.get_char(i);
        let ghost pre = d.subrange(0, i - start);
        let ghost next = d.subrange(0, i - start + 1);
        assert(next.drop_last() =~= pre);
        assert(next.last() == c);
        if c < '0' || c > '9' {
            assert(!all_digits(d)) by {
                assert(d[i - start] == c);
            }
            assert(decimal_value(s@) is None);
            return None;
        }
        let digit = (c as u32 - '0' as u32) as usize;
        if value > (usize::MAX - digit) / 10 {
            proof {
                assert(all_digits(next)) by {
                    assert forall|q: int| 0 <= q < next.len() implies '0' <= #[trigger] next[q] && next[q] <= '9' by {
                        if q < next.len() - 1 {
                            assert(next[q] == pre[q]);
                        }
                    }
                }
                assert(next =~= d.subrange(0, (i - start + 1) as int));
                lemma_digits_grow(d, (i - start + 1) as int);
                assert(digits_value(next) > usize::MAX) by (nonlinear_arith)
                    requires
                        digits_value(next) == value * 10 + digit,
                        value > (usize::MAX - digit) / 10,
                        digit <= 9;
                assert(decimal_value(s@) is None);
            }
            return None;
        }
        assert(value * 10 + digit <= usize::MAX) by (nonlinear_arith)
            requires
                value <= (usize::MAX - digit) / 10,
                digit <= 9;
        value = value * 10 + digit;
        proof {
            assert forall|q: int| 0 <= q < next.len() implies '0' <= #[trigger] next[q] && next[q] <= '9' by {
                if q < next.len() - 1 {
                    assert(next[q] == pre[q]);
                }
            }
        }
        i = i + 1;
    }
    assert(d.subrange(0, n - start) =~= d);
    Some(value)
}

/// A number spelled by a prefix of the digits is at most the whole number.
proof fn lemma_digits_grow(d: Seq<char>, k: int)
    requires
        0 <= k <= d.len(),
        all_digits(d.subrange(0, k)),
    ensures
        all_digits(d) ==> digits_value(d.subrange(0, k)) <= digits_value(d),
    decreases d.len() - k,
{
    if k < d.len() && all_digits(d) {
        assert(d.subrange(0, k + 1).drop_last() =~= d.subrange(0, k));
        lemma_digits_grow(d, k + 1);
    } else if k == d.len() {
        assert(d.subrange(0, k) =~= d);
    }
}

/// The list position named by task number `opt`.
pub fn convert_to_index(opt: &String) -> (r: Option<usize>)
    ensures
        match (r, index_of(opt@)) {
            (Some(x), Some(v)) => x == v,
            (None, None) => true,
            _ => false,
        },
{
    match parse_decimal(opt.as_str()) {
        Some(x) => if x >= 1 {
            Some(x - 1)
        } else {
            None
        },
        None => None,
    }
}

/// Whether task number `opt` names a task of a list of `list_len` tasks.
pub fn check_if_valid_index(list_len: usize, opt: &String) -> (r: bool)
    ensures
        r == (index_of(opt@) matches Some(v) && v < list_len),
{
    match convert_to_index(opt) {
        Some(val) => list_len > val,
        None => false,
    }
}

/// A task as the contracts see it: its text and whether it is done.
pub type TaskView = (Seq<char>, bool);

/// The views of the tasks, in order.
pub open spec fn tasks_view(list: Seq<(String, bool)>) -> Seq<TaskView> {
    list.map_values(|t: (String, bool)| (t.0@, t.1))
}

/// The line that shows task `k` (counted from zero) of a listing.
pub open spec fn task_line(k: nat, t: TaskView) -> Seq<char> {
    decimal(k + 1) + ". ["@ + (if t.1 {
        "X"@
    } else {
        " "@
    }) + "] "@ + t.0
}

/// What `list` prints.
pub open spec fn listing(tasks: Seq<TaskView>) -> Seq<Seq<char>> {
    if tasks.len() == 0 {
        seq!["List is empty!"@]
    } else {
        Seq::new(tasks.len(), |k: int| task_line(k as nat, tasks[k]))
    }
}

/// The tasks after a command, the messages it prints, and whether the
/// session goes on.
pub open spec fn todo_outcome(tasks: Seq<TaskView>, command: Seq<char>, opt: Seq<char>) -> (
    Seq<TaskView>,
    Seq<Seq<char>>,
    bool,
) {
    if command == "add"@ {
        let added = seq!["Task added: "@ + opt];
        (
            tasks.push((opt, false)),
            if opt.len() == 0 {
                seq!["Task is empty!"@] + added
            } else {
                added
            },
            true,
        )
    } else if command == "list"@ {
        (tasks, listing(tasks), true)
    } else if command == "done"@ {
        match index_of(opt) {
            Some(i) => if i < tasks.len() {
                (
                    tasks.update(i as int, (tasks[i as int].0, true)),
                    seq!["Task "@ + opt + " marked as done."@],
                    true,
                )
            } else {
                (tasks, Seq::empty(), true)
            },
            None => (tasks, Seq::empty(), true),
        }
    } else if command == "remove"@ {
        match index_of(opt) {
            Some(i) => if i < tasks.len() {
                (tasks.remove(i as int), Seq::empty(), true)
            } else {
                (tasks, Seq::empty(), true)
            },
            None => (tasks, Seq::empty(), true),
        }
    } else if command == "exit"@ {
        (tasks, seq!["Exiting..."@], false)
    } else {
        (tasks, Seq::empty(), true)
    }
}

fn one_message(m: String) -> (r: Vec<String>)
    ensures
        r@.map_values(|x: String| x@) == seq![m@],
{
    let mut r: Vec<String> = Vec::new();
    r.push(m);
    assert(r@.map_values(|x: String| x@) =~= seq![m@]);
    r
}

fn list_lines(list: &Vec<(String, bool)>) -> (r: Vec<String>)
    ensures
        r@.map_values(|x: String| x@) == listing(tasks_view(list@)),
{
    let ghost tasks = tasks_view(list@);
    if list.len() == 0 {
        return one_message(String::from_str("List is empty!"));
    }
    let mut r: Vec<String> = Vec::new();
    let n = list.len();
    let mut i: usize = 0;
    while i < n
        invariant
            n == list@.len(),
            n > 0,
            tasks == tasks_view(list@),
            i <= n,
            r@.len() == i,
            forall|k: int| 0 <= k < i ==> #[trigger] r@[k]@ == task_line(k as nat, tasks[k]),
        decreases n - i,
    {
        let mut line = format_decimal((i + 1) as u64);
        line.append(". [");
        if list[i].1 {
            line.append("X");
        } else {
            line.append(" ");
        }
        line.append("] ");
        line.append(list[i].0.as_str());
        assert(tasks[i as int] == (list@[i as int].0@, list@[i as int].1));
        r.push(line);
        i = i + 1;
    }
    assert(r@.map_values(|x: String| x@) =~= listing(tasks));
    r
}

/// Carries out one command on the list. Returns whether to go on, and the
/// messages to print, in order.
pub fn handle_command(list: &mut Vec<(String, bool)>, command: &str, opt: String) -> (r: (
    bool,
    Vec<String>,
))
    ensures
        (tasks_view(final(list)@), r.1@.map_values(|x: String| x@), r.0) == todo_outcome(
            tasks_view(old(list)@),
            command@,
            opt@,
        ),
{
    let ghost tasks = tasks_view(list@);
    let c = String::from_str(command);
    if c == String::from_str("add") {
        let mut msgs: Vec<String> = Vec::new();
        if opt.unicode_len() == 0 {
            msgs.push(String::from_str("Task is empty!"));
        }
        let mut added = String::from_str("Task added: ");
        added.append(opt.as_str());
        msgs.push(added);
        list.push((opt, false));
        assert(tasks_view(list@) =~= tasks.push((opt@, false)));
        assert(msgs@.map_values(|x: String| x@) =~= todo_outcome(tasks, command@, opt@).1);
        (true, msgs)
    } else if c == String::from_str("list") {
        (true, list_lines(list))
    } else if c == String::from_str("done") {
        let mut msgs: Vec<String> = Vec::new();
        if check_if_valid_index(list.len(), &opt) {
            match convert_to_index(&opt) {
                Some(i) => {
                    let text = list[i].0.clone();
                    list.set(i, (text, true));
                    assert(tasks_view(list@) =~= tasks.update(i as int, (tasks[i as int].0, true)));
                    let mut m = String::from_str("Task ");
                    m.append(opt.as_str());
                    m.append(" marked as done.");
                    msgs = one_message(m);
                },
                None => {},
            }
        }
        assert(msgs@.map_values(|x: String| x@) =~= todo_outcome(tasks, command@, opt@).1);
        (true, msgs)
    } else if c == String::from_str("remove") {
        if check_if_valid_index(list.len(), &opt) {
            match convert_to_index(&opt) {
                Some(i) => {
                    list.remove(i);
                    assert(tasks_view(list@) =~= tasks.remove(i as int));
                },
                None => {},
            }
        }
        let msgs: Vec<String> = Vec::new();
        assert(msgs@.map_values(|x: String| x@) =~= Seq::<Seq<char>>::empty());
        (true, msgs)
    } else if c == String::from_str("exit") {
        (false, one_message(String::from_str("Exiting...")))
    } else {
        let msgs: Vec<String> = Vec::new();
        assert(msgs@.map_values(|x: String| x@) =~= Seq::<Seq<char>>::empty());
        (true, msgs)
    }
}

} // verus!
