//! A single task, as the command line adds it to a todo file.
use vstd::prelude::*;
use vstd::string::*;

use crate::store::{entry_line, open_mark};

verus! {

/// Whether a task is still to be done or already finished.
#[derive(Debug, PartialEq, Eq, Structural)]
pub enum Status {
    Done,
    Open,
}

/// A task: its description and its status.
#[derive(Debug)]
pub struct Task {
    pub task: String,
    pub status: Status,
}

/// The text of a task given on the command line: the arguments after the
/// first (the program's own name), joined by single spaces.
pub open spec fn task_text(args: Seq<Seq<char>>) -> Seq<char>
    decreases args.len(),
{
    if args.len() <= 1 {
        seq![]
    } else if args.len() == 2 {
        args[1]
    } else {
        task_text(args.drop_last()) + seq![' '] + args.last()
    }
}

/// The views of a sequence of strings.
pub open spec fn strings_view(args: Seq<String>) -> Seq<Seq<char>> {
    args.map_values(|a: String| a@)
}

impl Task {
    /// Builds the open task that the command line describes: the arguments
    /// after the first, joined by single spaces.
    pub fn build(args: &[String]) -> (todo: Task)
        ensures
            todo.task@ == task_text(strings_view(args@)),
            todo.status == Status::Open,
    {
        let mut concated_task = String::new();
        let ghost a = strings_view(args@);
        if args.len() == 0 {
            return Task { task: concated_task, status: Status::Open };
        }
        let mut i: usize = 1;
        assert(task_text(a.take(1)) == Seq::<char>::empty());
        while i < args.len()
            invariant
                1 <= i,
                a == strings_view(args@),
                a.len() == args@.len(),
                i <= args.len(),
                concated_task@ == task_text(a.take(i as int)),
            decreases args.len() - i,
        {
            let ghost before = concated_task@;
            proof {
                reveal_strlit(" ");
                assert(" "@ =~= seq![' ']);
            }
            if i > 1 {
                concated_task.append(" ");
            }
            concated_task.append(args[i].as_str());
            assert(a.take(i + 1).drop_last() =~= a.take(i as int));
            assert(a[i as int] == args@[i as int]@);
            if i > 1 {
                assert(concated_task@ =~= before + seq![' '] + a[i as int]);
            } else {
                assert(concated_task@ =~= a[i as int]);
                assert(a.take(i + 1)[1] == a[1]);
            }
            i = i + 1;
        }
        assert(a.take(i as int) =~= a);
        Task { task: concated_task, status: Status::Open }
    }
}

/// The line that adds a task to the end of a todo file: the open mark `[ ]`,
/// a tab, the task's text and a newline (the task's own status is not
/// written: a new line always starts open).
pub fn new_todo_line(todo: &Task) -> (line: String)
    ensures
        line@ == entry_line((open_mark(), todo.task@)),
{
    let mut line = String::from_str("[ ]\t");
    line.append(todo.task.as_str());
    line.append("\n");
    proof {
        reveal_strlit("[ ]\t");
        reveal_strlit("\n");
        assert("[ ]\t"@ =~= open_mark() + seq!['\t']);
        assert("\n"@ =~= seq!['\n']);
        assert(line@ =~= entry_line((open_mark(), todo.task@)));
    }
    line
}

/// The text of a task, word by word: nothing without words, the word itself
/// for one word, and for more words the text of all but the last, one
/// space, and the last word.
pub proof fn law_task_text_joins_words(args: Seq<Seq<char>>)
    ensures
        args.len() <= 1 ==> task_text(args) == Seq::<char>::empty(),
        args.len() == 2 ==> task_text(args) == args[1],
        args.len() >= 3 ==> task_text(args) == task_text(args.drop_last()) + seq![' ']
            + args.last(),
        args.len() >= 3 ==> task_text(args).len() >= args[1].len() + 1 + args.last().len(),
{
    if args.len() >= 3 {
        lemma_task_text_len(args);
    }
}

/// The text starts with the first word, ends with the last word, and its
/// length is the words' lengths plus one space between each two words.
pub proof fn lemma_task_text_len(args: Seq<Seq<char>>)
    requires
        args.len() >= 2,
    ensures
        task_text(args).take(args[1].len() as int) == args[1],
        task_text(args).skip(task_text(args).len() - args.last().len()) == args.last(),
        task_text(args).len() >= args[1].len(),
        args.len() >= 3 ==> task_text(args).len() >= args[1].len() + 1 + args.last().len(),
    decreases args.len(),
{
    if args.len() == 2 {
        assert(args[1].take(args[1].len() as int) =~= args[1]);
        assert(args[1].skip(0) =~= args[1]);
    } else {
        let init = args.drop_last();
        lemma_task_text_len(init);
        let t = task_text(args);
        let ti = task_text(init);
        assert(t == ti + seq![' '] + args.last());
        assert(init[1] == args[1]);
        assert(t.take(args[1].len() as int) =~= ti.take(args[1].len() as int));
        assert(t.skip(t.len() - args.last().len()) =~= args.last());
    }
}

} // verus!
