//! The on-disk format of a todo list.
//!
//! A todo file is a sequence of lines; each line that holds a tab is one
//! entry, split at its first tab into a status mark (such as `[ ]` or `[X]`)
//! and a task description. Lines without a tab are ignored when reading.
use vstd::prelude::*;
use vstd::string::*;

verus! {

/// Position of the first `c` in `s`, or `s.len()` when `s` holds no `c`.
pub open spec fn find_char(s: Seq<char>, c: char) -> nat
    decreases s.len(),
{
    if s.len() == 0 {
        0
    } else if s[0] == c {
        0
    } else {
        1 + find_char(s.drop_first(), c)
    }
}

/// Drops one carriage return at the end of a line, if there is one.
pub open spec fn strip_cr(line: Seq<char>) -> Seq<char> {
    if line.len() > 0 && line.last() == '\r' {
        line.drop_last()
    } else {
        line
    }
}

/// The lines of a text, as `str::lines` yields them: the text is cut after
/// each `'\n'`; a line ended by `"\n"` or `"\r\n"` loses that ending; a last
/// line without `'\n'` is kept as it stands; an empty text has no lines.
pub open spec fn split_lines(s: Seq<char>) -> Seq<Seq<char>>
    decreases s.len(),
{
    if s.len() == 0 {
        seq![]
    } else {
        let n = find_char(s, '\n');
        if n >= s.len() {
            seq![s]
        } else {
            seq![strip_cr(s.take(n as int))] + split_lines(s.skip(n + 1 as int))
        }
    }
}

/// A line cut at its first tab into status mark and task, if it has a tab.
pub open spec fn split_entry(line: Seq<char>) -> Option<(Seq<char>, Seq<char>)> {
    let t = find_char(line, '\t');
    if t < line.len() {
        Some((line.take(t as int), line.skip(t + 1 as int)))
    } else {
        None
    }
}

/// The entries of a sequence of lines: one for each line that holds a tab.
pub open spec fn entries_of(lines: Seq<Seq<char>>) -> Seq<(Seq<char>, Seq<char>)>
    decreases lines.len(),
{
    if lines.len() == 0 {
        seq![]
    } else {
        match split_entry(lines[0]) {
            Some(e) => seq![e] + entries_of(lines.drop_first()),
            None => entries_of(lines.drop_first()),
        }
    }
}

/// The todo list that a file with the text `s` holds.
pub open spec fn parsed_list(s: Seq<char>) -> Seq<(Seq<char>, Seq<char>)> {
    entries_of(split_lines(s))
}

/// The line that stores one entry: status, tab, task, newline.
pub open spec fn entry_line(e: (Seq<char>, Seq<char>)) -> Seq<char> {
    e.0 + seq!['\t'] + e.1 + seq!['\n']
}

/// The text of a file that stores the given entries, one line each, in order.
pub open spec fn serialized_list(es: Seq<(Seq<char>, Seq<char>)>) -> Seq<char>
    decreases es.len(),
{
    if es.len() == 0 {
        seq![]
    } else {
        serialized_list(es.drop_last()) + entry_line(es.last())
    }
}

/// An entry that survives being written and read back: its status holds no
/// tab and no newline, its task holds no newline and does not end with a
/// carriage return.
pub open spec fn storable_entry(e: (Seq<char>, Seq<char>)) -> bool {
    &&& !e.0.contains('\t')
    &&& !e.0.contains('\n')
    &&& !e.1.contains('\n')
    &&& !(e.1.len() > 0 && e.1.last() == '\r')
}

/// The mark of an open task, `[ ]`.
pub open spec fn open_mark() -> Seq<char> {
    seq!['[', ' ', ']']
}

/// The mark of a finished task, `[X]`.
pub open spec fn done_mark() -> Seq<char> {
    seq!['[', 'X', ']']
}

// ---------------------------------------------------------------------------
// Lemmas on the format
// ---------------------------------------------------------------------------

/// `find_char` is the first position of `c`, or the length.
pub proof fn lemma_find_char(s: Seq<char>, c: char)
    ensures
        find_char(s, c) <= s.len(),
        forall|k: int| 0 <= k < find_char(s, c) ==> s[k] != c,
        find_char(s, c) < s.len() ==> s[find_char(s, c) as int] == c,
        find_char(s, c) == s.len() <==> !s.contains(c),
    decreases s.len(),
{
    if s.len() > 0 && s[0] != c {
        lemma_find_char(s.drop_first(), c);
        assert forall|k: int| 0 <= k < find_char(s, c) implies s[k] != c by {
            if k > 0 {
                assert(s[k] == s.drop_first()[k - 1]);
            }
        }
        if s.contains(c) {
            let j = choose|j: int| 0 <= j < s.len() && s[j] == c;
            assert(s.drop_first()[j - 1] == c);
        }
        if find_char(s, c) == s.len() {
            assert forall|j: int| 0 <= j < s.len() implies s[j] != c by {
                if j > 0 {
                    assert(s[j] == s.drop_first()[j - 1]);
                }
            }
        }
    }
}

/// A position with no `c` before it and `c` at it (or the end) is `find_char`.
pub proof fn lemma_find_char_at(s: Seq<char>, c: char, j: int)
    requires
        0 <= j <= s.len(),
        forall|k: int| 0 <= k < j ==> s[k] != c,
        j < s.len() ==> s[j] == c,
    ensures
        find_char(s, c) == j,
    decreases s.len(),
{
    if s.len() > 0 && j > 0 {
        lemma_find_char_at(s.drop_first(), c, j - 1);
    }
}

/// `find_char` over a concatenation.
pub proof fn lemma_find_char_append(a: Seq<char>, b: Seq<char>, c: char)
    ensures
        find_char(a + b, c) == if find_char(a, c) < a.len() {
            find_char(a, c) as int
        } else {
            (a.len() + find_char(b, c)) as int
        },
{
    lemma_find_char(a, c);
    lemma_find_char(b, c);
    let j = if find_char(a, c) < a.len() {
        find_char(a, c) as int
    } else {
        (a.len() + find_char(b, c)) as int
    };
    assert forall|k: int| 0 <= k < j implies (a + b)[k] != c by {
        if k >= a.len() {
            assert((a + b)[k] == b[k - a.len()]);
        }
    }
    if j < a.len() + b.len() && j >= a.len() {
        assert((a + b)[j] == b[j - a.len()]);
    }
    lemma_find_char_at(a + b, c, j);
}

/// Reading one line with its newline, then the rest.
pub proof fn lemma_split_lines_cons(l: Seq<char>, rest: Seq<char>)
    requires
        !l.contains('\n'),
    ensures
        split_lines(l + seq!['\n'] + rest) == seq![strip_cr(l)] + split_lines(rest),
{
    let s = l + seq!['\n'] + rest;
    lemma_find_char(l, '\n');
    lemma_find_char_append(l + seq!['\n'], rest, '\n');
    lemma_find_char_append(l, seq!['\n'], '\n');
    assert(find_char(seq!['\n'], '\n') == 0);
    assert(s.take(l.len() as int) =~= l);
    assert(s.skip(l.len() + 1 as int) =~= rest);
}

/// Lines of a text that ends with a newline, then of another text.
pub proof fn lemma_split_lines_append(a: Seq<char>, b: Seq<char>)
    requires
        a.len() == 0 || a.last() == '\n',
    ensures
        split_lines(a + b) == split_lines(a) + split_lines(b),
    decreases a.len(),
{
    if a.len() == 0 {
        assert(a + b =~= b);
        assert(split_lines(a) + split_lines(b) =~= split_lines(b));
    } else {
        let n = find_char(a, '\n');
        lemma_find_char(a, '\n');
        assert(a.contains('\n')) by {
            assert(a[a.len() - 1] == '\n');
        }
        lemma_find_char_append(a, b, '\n');
        let l = a.take(n as int);
        let r = a.skip(n + 1 as int);
        assert(a =~= l + seq!['\n'] + r);
        assert(!l.contains('\n')) by {
            assert forall|k: int| 0 <= k < l.len() implies l[k] != '\n' by {
                assert(l[k] == a[k]);
            }
        }
        assert(r.len() == 0 || r.last() == '\n') by {
            if r.len() > 0 {
                assert(r.last() == a.last());
            }
        }
        lemma_split_lines_append(r, b);
        lemma_split_lines_cons(l, r + b);
        lemma_split_lines_cons(l, r);
        assert(a + b =~= l + seq!['\n'] + (r + b));
        assert(seq![strip_cr(l)] + split_lines(r) + split_lines(b) =~= seq![strip_cr(l)] + (
        split_lines(r) + split_lines(b)));
    }
}

/// Entries of a sequence of lines that starts with a given line.
pub proof fn lemma_entries_cons(l: Seq<char>, ls: Seq<Seq<char>>)
    ensures
        entries_of(seq![l] + ls) == match split_entry(l) {
            Some(e) => seq![e] + entries_of(ls),
            None => entries_of(ls),
        },
{
    assert((seq![l] + ls)[0] == l);
    assert((seq![l] + ls).drop_first() =~= ls);
}

/// Entries of two sequences of lines, one after the other.
pub proof fn lemma_entries_append(l1: Seq<Seq<char>>, l2: Seq<Seq<char>>)
    ensures
        entries_of(l1 + l2) == entries_of(l1) + entries_of(l2),
    decreases l1.len(),
{
    if l1.len() == 0 {
        assert(l1 + l2 =~= l2);
        assert(entries_of(l1) + entries_of(l2) =~= entries_of(l2));
    } else {
        lemma_entries_append(l1.drop_first(), l2);
        assert((l1 + l2)[0] == l1[0]);
        assert((l1 + l2).drop_first() =~= l1.drop_first() + l2);
        match split_entry(l1[0]) {
            Some(e) => {
                assert(seq![e] + (entries_of(l1.drop_first()) + entries_of(l2)) =~= seq![e]
                    + entries_of(l1.drop_first()) + entries_of(l2));
            },
            None => {},
        }
    }
}

/// The line of a storable entry reads back as that entry.
pub proof fn lemma_entry_line_reads_back(e: (Seq<char>, Seq<char>), rest: Seq<char>)
    requires
        storable_entry(e),
    ensures
        parsed_list(entry_line(e) + rest) == seq![e] + parsed_list(rest),
{
    let l = e.0 + seq!['\t'] + e.1;
    assert(!l.contains('\n')) by {
        assert forall|k: int| 0 <= k < l.len() implies l[k] != '\n' by {
            if k < e.0.len() {
                assert(l[k] == e.0[k]);
            } else if k > e.0.len() {
                assert(l[k] == e.1[k - e.0.len() - 1]);
            }
        }
    }
    assert(entry_line(e) + rest =~= l + seq!['\n'] + rest);
    lemma_split_lines_cons(l, rest);
    assert(strip_cr(l) == l) by {
        if l.len() > 0 && l.last() == '\r' {
            if e.1.len() > 0 {
                assert(l.last() == e.1.last());
            }
        }
    }
    lemma_find_char(e.0, '\t');
    lemma_find_char_append(e.0 + seq!['\t'], e.1, '\t');
    lemma_find_char_append(e.0, seq!['\t'], '\t');
    assert(find_char(seq!['\t'], '\t') == 0);
    assert(l.take(e.0.len() as int) =~= e.0);
    assert(l.skip(e.0.len() + 1 as int) =~= e.1);
    lemma_entries_cons(l, split_lines(rest));
}

/// The text of a list starts with the line of its first entry.
pub proof fn lemma_serialized_cons(es: Seq<(Seq<char>, Seq<char>)>)
    requires
        es.len() > 0,
    ensures
        serialized_list(es) == entry_line(es[0]) + serialized_list(es.drop_first()),
    decreases es.len(),
{
    if es.len() == 1 {
        assert(es.drop_last() =~= seq![]);
        assert(es.drop_first() =~= seq![]);
        assert(serialized_list(es) =~= entry_line(es[0]) + serialized_list(es.drop_first()));
    } else {
        lemma_serialized_cons(es.drop_last());
        assert(es.drop_last().drop_first() =~= es.drop_first().drop_last());
        assert(es.drop_first().last() == es.last());
        assert(es.drop_last()[0] == es[0]);
        assert(serialized_list(es) =~= entry_line(es[0]) + serialized_list(es.drop_first()));
    }
}

/// Writing a list of storable entries and reading the text back gives the
/// same list.
pub proof fn law_serialized_list_reads_back(es: Seq<(Seq<char>, Seq<char>)>)
    requires
        forall|i: int| 0 <= i < es.len() ==> storable_entry(#[trigger] es[i]),
    ensures
        parsed_list(serialized_list(es)) == es,
    decreases es.len(),
{
    if es.len() == 0 {
        assert(parsed_list(seq![]) == Seq::<(Seq<char>, Seq<char>)>::empty());
    } else {
        lemma_serialized_cons(es);
        let rest = es.drop_first();
        assert forall|i: int| 0 <= i < rest.len() implies storable_entry(#[trigger] rest[i]) by {
            assert(rest[i] == es[i + 1]);
        }
        law_serialized_list_reads_back(rest);
        assert(storable_entry(es[0]));
        lemma_entry_line_reads_back(es[0], serialized_list(rest));
        assert(seq![es[0]] + rest =~= es);
    }
}

/// Appending the line of a storable entry to a text that is empty or ends
/// with a newline adds that entry at the end of the list that the text holds.
pub proof fn law_appended_line_reads_back(old_text: Seq<char>, e: (Seq<char>, Seq<char>))
    requires
        old_text.len() == 0 || old_text.last() == '\n',
        storable_entry(e),
    ensures
        parsed_list(old_text + entry_line(e)) == parsed_list(old_text).push(e),
{
    lemma_split_lines_append(old_text, entry_line(e));
    lemma_entries_append(split_lines(old_text), split_lines(entry_line(e)));
    lemma_entry_line_reads_back(e, seq![]);
    assert(entry_line(e) + seq![] =~= entry_line(e));
    assert(parsed_list(seq![]) == Seq::<(Seq<char>, Seq<char>)>::empty());
    assert(seq![e] + Seq::<(Seq<char>, Seq<char>)>::empty() =~= seq![e]);
}

/// The two marks hold no tab and no newline.
pub proof fn lemma_marks_storable()
    ensures
        !open_mark().contains('\t'),
        !open_mark().contains('\n'),
        !done_mark().contains('\t'),
        !done_mark().contains('\n'),
{
    assert forall|k: int| 0 <= k < 3 implies open_mark()[k] != '\t' && open_mark()[k] != '\n'
        && done_mark()[k] != '\t' && done_mark()[k] != '\n' by {}
}

/// A task added on the command line to a text that is empty or ends with a
/// newline is read back as an open entry at the end of the list, when its
/// text holds no newline and does not end with a carriage return.
pub proof fn law_added_task_reads_back(old_text: Seq<char>, task: Seq<char>)
    requires
        old_text.len() == 0 || old_text.last() == '\n',
        !task.contains('\n'),
        !(task.len() > 0 && task.last() == '\r'),
    ensures
        parsed_list(old_text + entry_line((open_mark(), task))) == parsed_list(old_text).push(
            (open_mark(), task),
        ),
{
    lemma_marks_storable();
    law_appended_line_reads_back(old_text, (open_mark(), task));
}

/// No line of a text holds a newline.
pub proof fn lemma_lines_have_no_newline(s: Seq<char>)
    ensures
        forall|i: int|
            0 <= i < split_lines(s).len() ==> !(#[trigger] split_lines(s)[i]).contains('\n'),
    decreases s.len(),
{
    if s.len() > 0 {
        let n = find_char(s, '\n');
        lemma_find_char(s, '\n');
        if n < s.len() {
            lemma_lines_have_no_newline(s.skip(n + 1 as int));
            let l = s.take(n as int);
            assert(!l.contains('\n')) by {
                assert forall|k: int| 0 <= k < l.len() implies l[k] != '\n' by {
                    assert(l[k] == s[k]);
                }
            }
            assert(!strip_cr(l).contains('\n')) by {
                if l.len() > 0 && l.last() == '\r' {
                    assert forall|k: int| 0 <= k < l.len() - 1 implies strip_cr(l)[k] != '\n' by {
                        assert(strip_cr(l)[k] == l[k]);
                    }
                }
            }
            let rest = split_lines(s.skip(n + 1 as int));
            assert forall|i: int| 0 <= i < split_lines(s).len() implies !(
            #[trigger] split_lines(s)[i]).contains('\n') by {
                if i > 0 {
                    assert(split_lines(s)[i] == rest[i - 1]);
                }
            }
        }
    }
}

/// What an entry read from lines without newlines looks like: a status
/// without tab or newline, a task without newline.
pub open spec fn read_entry_shape(e: (Seq<char>, Seq<char>)) -> bool {
    !e.0.contains('\t') && !e.0.contains('\n') && !e.1.contains('\n')
}

/// Every entry read from lines without newlines has the shape of a read
/// entry.
pub proof fn lemma_entries_shape(ls: Seq<Seq<char>>)
    requires
        forall|i: int| 0 <= i < ls.len() ==> !(#[trigger] ls[i]).contains('\n'),
    ensures
        forall|i: int|
            0 <= i < entries_of(ls).len() ==> read_entry_shape(#[trigger] entries_of(ls)[i]),
    decreases ls.len(),
{
    if ls.len() > 0 {
        let rest = ls.drop_first();
        assert forall|i: int| 0 <= i < rest.len() implies !(#[trigger] rest[i]).contains('\n') by {
            assert(rest[i] == ls[i + 1]);
        }
        lemma_entries_shape(rest);
        let l = ls[0];
        assert(!l.contains('\n'));
        match split_entry(l) {
            Some(e) => {
                let t = find_char(l, '\t');
                lemma_find_char(l, '\t');
                assert(!e.0.contains('\t') && !e.0.contains('\n')) by {
                    assert forall|k: int| 0 <= k < e.0.len() implies e.0[k] != '\t' && e.0[k]
                        != '\n' by {
                        assert(e.0[k] == l[k]);
                    }
                }
                assert(!e.1.contains('\n')) by {
                    assert forall|k: int| 0 <= k < e.1.len() implies e.1[k] != '\n' by {
                        assert(e.1[k] == l[k + t + 1]);
                    }
                }
                assert forall|i: int| 0 <= i < entries_of(ls).len() implies read_entry_shape(
                    #[trigger] entries_of(ls)[i],
                ) by {
                    if i > 0 {
                        assert(entries_of(ls)[i] == entries_of(rest)[i - 1]);
                    }
                }
            },
            None => {},
        }
    }
}

/// Saving a list just read and reading it again gives the same list, unless
/// some task read ends with a carriage return.
pub proof fn law_reread_unchanged(s: Seq<char>)
    requires
        forall|i: int|
            0 <= i < parsed_list(s).len() ==> !((#[trigger] parsed_list(s)[i]).1.len() > 0
                && parsed_list(s)[i].1.last() == '\r'),
    ensures
        parsed_list(serialized_list(parsed_list(s))) == parsed_list(s),
{
    lemma_lines_have_no_newline(s);
    lemma_entries_shape(split_lines(s));
    let es = parsed_list(s);
    assert forall|i: int| 0 <= i < es.len() implies storable_entry(#[trigger] es[i]) by {
        assert(read_entry_shape(es[i]));
    }
    law_serialized_list_reads_back(es);
}

/// The empty text holds no entries.
pub proof fn law_empty_text(s: Seq<char>)
    requires
        s.len() == 0,
    ensures
        parsed_list(s) == Seq::<(Seq<char>, Seq<char>)>::empty(),
{
}

/// A line is cut at its first tab: with no tab or newline before that tab
/// and no newline after it, the line ended by a newline reads as the entry
/// (text before the tab, text after it), followed by the entries of the rest.
pub proof fn law_line_cut_at_first_tab(a: Seq<char>, b: Seq<char>, rest: Seq<char>)
    requires
        !a.contains('\t'),
        !a.contains('\n'),
        !b.contains('\n'),
        !(b.len() > 0 && b.last() == '\r'),
    ensures
        parsed_list(a + seq!['\t'] + b + seq!['\n'] + rest) == seq![(a, b)] + parsed_list(rest),
{
    lemma_entry_line_reads_back((a, b), rest);
}

/// A line without a tab is skipped.
pub proof fn law_line_without_tab_is_skipped(l: Seq<char>, rest: Seq<char>)
    requires
        !l.contains('\t'),
        !l.contains('\n'),
    ensures
        parsed_list(l + seq!['\n'] + rest) == parsed_list(rest),
{
    lemma_split_lines_cons(l, rest);
    let sl = strip_cr(l);
    assert(!sl.contains('\t')) by {
        if l.len() > 0 && l.last() == '\r' {
            assert forall|k: int| 0 <= k < sl.len() implies sl[k] != '\t' by {
                assert(sl[k] == l[k]);
            }
        }
    }
    lemma_find_char(sl, '\t');
    lemma_entries_cons(sl, split_lines(rest));
}

/// A line ended by `"\r\n"` reads as the same line ended by `"\n"` (when
/// the line does not end with a carriage return of its own).
pub proof fn law_crlf_reads_as_lf(l: Seq<char>, rest: Seq<char>)
    requires
        !l.contains('\n'),
        !(l.len() > 0 && l.last() == '\r'),
    ensures
        parsed_list(l + seq!['\r', '\n'] + rest) == parsed_list(l + seq!['\n'] + rest),
{
    let lc = l.push('\r');
    assert(!lc.contains('\n')) by {
        assert forall|k: int| 0 <= k < lc.len() implies lc[k] != '\n' by {
            if k < l.len() {
                assert(lc[k] == l[k]);
            }
        }
    }
    assert(l + seq!['\r', '\n'] + rest =~= lc + seq!['\n'] + rest);
    lemma_split_lines_cons(lc, rest);
    lemma_split_lines_cons(l, rest);
    assert(strip_cr(lc) =~= l);
    assert(strip_cr(l) == l);
}

/// A last line without a newline reads as the same line with one, unless it
/// ends with a carriage return.
pub proof fn law_last_line_without_newline(l: Seq<char>)
    requires
        !l.contains('\n'),
        !(l.len() > 0 && l.last() == '\r'),
    ensures
        parsed_list(l) == parsed_list(l + seq!['\n']),
{
    lemma_split_lines_cons(l, seq![]);
    assert(l + seq!['\n'] + Seq::<char>::empty() =~= l + seq!['\n']);
    lemma_find_char(l, '\n');
    if l.len() > 0 {
        assert(split_lines(l) == seq![l]);
    } else {
        assert(split_lines(l) == Seq::<Seq<char>>::empty());
        assert(split_lines(Seq::<char>::empty()) == Seq::<Seq<char>>::empty());
        assert(seq![strip_cr(l)] + Seq::<Seq<char>>::empty() =~= seq![l]);
        lemma_entries_cons(l, Seq::<Seq<char>>::empty());
        lemma_find_char(l, '\t');
    }
    assert(seq![strip_cr(l)] + split_lines(Seq::<char>::empty()) =~= seq![l]);
}

/// A list is written entry after entry: one entry as its status, a tab, its
/// task and a newline; two lists one after the other as the text of the
/// first followed by the text of the second.
pub proof fn law_serialized_text(
    e: (Seq<char>, Seq<char>),
    a: Seq<(Seq<char>, Seq<char>)>,
    b: Seq<(Seq<char>, Seq<char>)>,
)
    ensures
        serialized_list(seq![e]) == e.0 + seq!['\t'] + e.1 + seq!['\n'],
        serialized_list(Seq::<(Seq<char>, Seq<char>)>::empty()) == Seq::<char>::empty(),
        serialized_list(a + b) == serialized_list(a) + serialized_list(b),
    decreases b.len(),
{
    assert(seq![e].drop_last() =~= Seq::<(Seq<char>, Seq<char>)>::empty());
    assert(serialized_list(seq![e].drop_last()) == Seq::<char>::empty());
    assert(seq![e].last() == e);
    assert(serialized_list(seq![e]) =~= Seq::<char>::empty() + entry_line(e));
    assert(serialized_list(seq![e]) =~= e.0 + seq!['\t'] + e.1 + seq!['\n']);
    if b.len() == 0 {
        assert(a + b =~= a);
        assert(serialized_list(a) + serialized_list(b) =~= serialized_list(a));
    } else {
        law_serialized_text(e, a, b.drop_last());
        assert((a + b).drop_last() =~= a + b.drop_last());
        assert((a + b).last() == b.last());
        assert(serialized_list(a + b) =~= serialized_list(a) + serialized_list(b));
    }
}

// ---------------------------------------------------------------------------
// Reading and writing
// ---------------------------------------------------------------------------

/// The characters of a text, in order.
fn chars_of(s: &str) -> (res: Vec<char>)
    ensures
        res@ == s@,
{
    let mut res: Vec<char> = Vec::new();
    for c in it: s.chars()
        invariant
            it.seq() == s@,
            res@ == s@.take(it.index() as int),
    {
        res.push(c);
    }
    res
}

/// One line of the text, read from `pos` on: the line is `s[pos..end]`, its
/// tab (if any before `end`) at `t`, and the next line starts at `next`.
proof fn lemma_parse_step(s: Seq<char>, pos: int, n: int, end: int, t: int, next: int)
    requires
        0 <= pos < n <= s.len() || (0 <= pos <= n < s.len()),
        forall|k: int| pos <= k < n ==> s[k] != '\n',
        n < s.len() ==> s[n] == '\n',
        end == if n < s.len() && n > pos && s[n - 1] == '\r' {
            n - 1
        } else {
            n
        },
        pos <= t <= end,
        forall|k: int| pos <= k < t ==> s[k] != '\t',
        t < end ==> s[t] == '\t',
        next == if n < s.len() {
            n + 1
        } else {
            s.len() as int
        },
    ensures
        entries_of(split_lines(s.skip(pos))) == (if t < end {
            seq![(s.subrange(pos, t), s.subrange(t + 1, end))]
        } else {
            seq![]
        }) + entries_of(split_lines(s.skip(next))),
{
    let r = s.skip(pos);
    assert forall|k: int| 0 <= k < n - pos implies r[k] != '\n' by {
        assert(r[k] == s[pos + k]);
    }
    if n < s.len() {
        assert(r[n - pos] == s[n]);
    }
    lemma_find_char_at(r, '\n', n - pos);
    let line = s.subrange(pos, end);
    if n < s.len() {
        assert(r.skip(n - pos + 1) =~= s.skip(next));
        assert(strip_cr(r.take(n - pos)) =~= line);
        assert(split_lines(r) == seq![line] + split_lines(s.skip(next)));
    } else {
        assert(s.skip(next) =~= seq![]);
        assert(r =~= line);
        assert(split_lines(r) == seq![line]);
        assert(seq![line] + split_lines(s.skip(next)) =~= seq![line]);
    }
    assert forall|k: int| 0 <= k < t - pos implies line[k] != '\t' by {
        assert(line[k] == s[pos + k]);
    }
    if t < end {
        assert(line[t - pos] == s[t]);
    }
    lemma_find_char_at(line, '\t', t - pos);
    if t < end {
        assert(line.take(t - pos) =~= s.subrange(pos, t));
        assert(line.skip(t - pos + 1) =~= s.subrange(t + 1, end));
    }
    lemma_entries_cons(line, split_lines(s.skip(next)));
    if t >= end {
        assert(Seq::<(Seq<char>, Seq<char>)>::empty() + entries_of(split_lines(s.skip(next)))
            =~= entries_of(split_lines(s.skip(next))));
    }
}

/// Reads a todo list from the text of a todo file: each line that holds a
/// tab gives one entry, its status before the first tab and its task after.
pub fn parse_todo_list(contents: &str) -> (todo_list: Vec<(String, String)>)
    ensures
        todo_list.deep_view() == parsed_list(contents@),
{
    let cs = chars_of(contents);
    let len = cs.len();
    let ghost s = contents@;
    let mut todo_list: Vec<(String, String)> = Vec::new();
    let mut pos: usize = 0;
    assert(s.skip(0) =~= s);
    while pos < len
        invariant
            cs@ == s,
            s == contents@,
            len == cs.len(),
            pos <= len,
            parsed_list(s) == todo_list.deep_view() + entries_of(split_lines(s.skip(pos as int))),
        decreases len - pos,
    {
        let mut n = pos;
        while n < len && cs[n] != '\n'
            invariant
                pos <= n <= len,
                cs@ == s,
                len == cs.len(),
                forall|k: int| pos <= k < n ==> s[k] != '\n',
            decreases len - n,
        {
            n = n + 1;
        }
        let mut end = n;
        if n < len && n > pos && cs[n - 1] == '\r' {
            end = n - 1;
        }
        let mut t = pos;
        while t < end && cs[t] != '\t'
            invariant
                pos <= t <= end,
                end <= n <= len,
                cs@ == s,
                len == cs.len(),
                forall|k: int| pos <= k < t ==> s[k] != '\t',
            decreases end - t,
        {
            t = t + 1;
        }
        let next = if n < len {
            n + 1
        } else {
            len
        };
        proof {
            lemma_parse_step(s, pos as int, n as int, end as int, t as int, next as int);
        }
        let ghost before = todo_list.deep_view();
        if t < end {
            let status = String::from_str(contents.substring_char(pos, t));
            let task = String::from_str(contents.substring_char(t + 1, end));
            todo_list.push((status, task));
            assert(todo_list.deep_view() =~= before + seq![(s.subrange(pos as int, t as int), s.subrange(t + 1, end as int))]);
        }
        pos = next;
    }
    assert(s.skip(len as int) =~= seq![]);
    assert(todo_list.deep_view() + Seq::<(Seq<char>, Seq<char>)>::empty() =~= todo_list.deep_view());
    todo_list
}

/// The text of a todo file that holds the given list: for each entry, in
/// order, its status, a tab, its task and a newline.
pub fn serialize_todo_list(todo_list: &Vec<(String, String)>) -> (text: String)
    ensures
        text@ == serialized_list(todo_list.deep_view()),
{
    let mut text = String::new();
    let ghost es = todo_list.deep_view();
    for i in 0..todo_list.len()
        invariant
            es == todo_list.deep_view(),
            es.len() == todo_list.len(),
            text@ == serialized_list(es.take(i as int)),
    {
        let ghost before = text@;
        proof {
            reveal_strlit("\t");
            reveal_strlit("\n");
            assert("\t"@ =~= seq!['\t']);
            assert("\n"@ =~= seq!['\n']);
        }
        text.append(todo_list[i].0.as_str());
        text.append("\t");
        text.append(todo_list[i].1.as_str());
        text.append("\n");
        assert(es.take(i + 1).drop_last() =~= es.take(i as int));
        assert(es[i as int] == (todo_list[i as int].0@, todo_list[i as int].1@));
        assert(text@ =~= before + entry_line(es[i as int]));
    }
    assert(es.take(todo_list.len() as int) =~= es);
    text
}

} // verus!
