//! The command line: what the arguments ask for.
use vstd::prelude::*;
use vstd::string::*;

use crate::task::strings_view;

verus! {

/// What the command line asks for.
pub enum Command {
    /// Open the interface on the named todo store.
    Tui { store: String },
    /// Print the usage.
    Help,
    /// Print the usage of `--file` and the known stores.
    FileHelp,
    /// Add a task to the named store; `args` is what `Task::build` reads
    /// (its first element stands for the program and is skipped).
    Add { store: String, args: Vec<String> },
}

/// The mathematical form of a command.
pub enum CommandModel {
    Tui { store: Seq<char> },
    Help,
    FileHelp,
    Add { store: Seq<char>, args: Seq<Seq<char>> },
}

impl View for Command {
    type V = CommandModel;

    open spec fn view(&self) -> CommandModel {
        match self {
            Command::Tui { store } => CommandModel::Tui { store: store@ },
            Command::Help => CommandModel::Help,
            Command::FileHelp => CommandModel::FileHelp,
            Command::Add { store, args } => CommandModel::Add {
                store: store@,
                args: strings_view(args@),
            },
        }
    }
}

/// `help`, `h`, `--help` or `-h`.
pub open spec fn is_help_flag(a: Seq<char>) -> bool {
    a == "help"@ || a == "h"@ || a == "--help"@ || a == "-h"@
}

/// `file`, `f`, `--file` or `-f`.
pub open spec fn is_file_flag(a: Seq<char>) -> bool {
    a == "file"@ || a == "f"@ || a == "--file"@ || a == "-f"@
}

/// The name of the store used when none is named.
pub open spec fn default_store() -> Seq<char> {
    "default"@
}

/// The command that the arguments (the program's name first) ask for.
pub open spec fn command_for(args: Seq<Seq<char>>) -> CommandModel {
    if args.len() == 1 {
        CommandModel::Tui { store: default_store() }
    } else if args.len() == 2 {
        if is_help_flag(args[1]) {
            CommandModel::Help
        } else if is_file_flag(args[1]) {
            CommandModel::FileHelp
        } else {
            CommandModel::Add { store: default_store(), args }
        }
    } else if args.len() == 3 {
        if is_file_flag(args[1]) {
            CommandModel::Tui { store: args[2] }
        } else {
            CommandModel::Add { store: default_store(), args }
        }
    } else if is_file_flag(args[1]) {
        CommandModel::Add { store: args[2], args: seq![args[0]] + args.skip(3) }
    } else {
        CommandModel::Add { store: default_store(), args }
    }
}

fn equals_literal(a: &String, lit: &str) -> (r: bool)
    ensures
        r == (a@ == lit@),
{
    let l = String::from_str(lit);
    *a == l
}

fn help_flag(a: &String) -> (r: bool)
    ensures
        r == is_help_flag(a@),
{
    equals_literal(a, "help") || equals_literal(a, "h") || equals_literal(a, "--help")
        || equals_literal(a, "-h")
}

fn file_flag(a: &String) -> (r: bool)
    ensures
        r == is_file_flag(a@),
{
    equals_literal(a, "file") || equals_literal(a, "f") || equals_literal(a, "--file")
        || equals_literal(a, "-f")
}

/// Copies of the arguments from `from` on, after a copy of the first one.
fn first_and_rest(args: &[String], from: usize) -> (r: Vec<String>)
    requires
        1 <= from <= args.len(),
    ensures
        strings_view(r@) == seq![strings_view(args@)[0]] + strings_view(args@).skip(from as int),
{
    let ghost a = strings_view(args@);
    let mut r: Vec<String> = Vec::new();
    r.push(args[0].clone());
    let mut i = from;
    while i < args.len()
        invariant
            1 <= from <= i <= args.len(),
            a == strings_view(args@),
            strings_view(r@) == seq![a[0]] + a.subrange(from as int, i as int),
        decreases args.len() - i,
    {
        let ghost before = strings_view(r@);
        r.push(args[i].clone());
        assert(strings_view(r@) =~= before.push(a[i as int]));
        assert(a.subrange(from as int, i + 1) =~= a.subrange(from as int, i as int).push(
            a[i as int],
        ));
        assert(seq![a[0]] + a.subrange(from as int, i + 1) =~= (seq![a[0]] + a.subrange(
            from as int,
            i as int,
        )).push(a[i as int]));
        i = i + 1;
    }
    assert(a.subrange(from as int, args.len() as int) =~= a.skip(from as int));
    r
}

/// Copies of all the arguments.
fn all_args(args: &[String]) -> (r: Vec<String>)
    ensures
        strings_view(r@) == strings_view(args@),
{
    let ghost a = strings_view(args@);
    let mut r: Vec<String> = Vec::new();
    let mut i: usize = 0;
    while i < args.len()
        invariant
            i <= args.len(),
            a == strings_view(args@),
            strings_view(r@) == a.take(i as int),
        decreases args.len() - i,
    {
        let ghost before = strings_view(r@);
        r.push(args[i].clone());
        assert(strings_view(r@) =~= before.push(a[i as int]));
        assert(a.take(i + 1) =~= a.take(i as int).push(a[i as int]));
        i = i + 1;
    }
    assert(a.take(args.len() as int) =~= a);
    r
}

/// Reads the command line (the program's name first): no argument opens
/// the default store; a help flag prints the usage; a file flag alone prints
/// the usage of stores, with a name opens that store, with a name and more
/// words adds those words as a task to that store; anything else adds the
/// words as a task to the default store.
pub fn parse_command(args: &[String]) -> (cmd: Command)
    requires
        args.len() >= 1,
    ensures
        cmd@ == command_for(strings_view(args@)),
{
    let ghost a = strings_view(args@);
    assert(a[1] == args@[1]@ || args.len() < 2);
    if args.len() == 1 {
        Command::Tui { store: String::from_str("default") }
    } else if args.len() == 2 {
        if help_flag(&args[1]) {
            Command::Help
        } else if file_flag(&args[1]) {
            Command::FileHelp
        } else {
            Command::Add { store: String::from_str("default"), args: all_args(args) }
        }
    } else if args.len() == 3 {
        if file_flag(&args[1]) {
            Command::Tui { store: args[2].clone() }
        } else {
            Command::Add { store: String::from_str("default"), args: all_args(args) }
        }
    } else if file_flag(&args[1]) {
        Command::Add { store: args[2].clone(), args: first_and_rest(args, 3) }
    } else {
        Command::Add { store: String::from_str("default"), args: all_args(args) }
    }
}

/// The store names to list: `default` first if it is one of the given
/// names, then every other given name in the given order.
pub open spec fn listed_stores(names: Seq<Seq<char>>) -> Seq<Seq<char>> {
    let others = names.filter(|n: Seq<char>| n != default_store());
    if names.contains(default_store()) {
        seq![default_store()] + others
    } else {
        others
    }
}

/// Whether one of the names is `default`.
fn has_default(names: &[String]) -> (r: bool)
    ensures
        r == strings_view(names@).contains(default_store()),
{
    let ghost a = strings_view(names@);
    let mut i: usize = 0;
    while i < names.len()
        invariant
            i <= names.len(),
            a == strings_view(names@),
            forall|k: int| 0 <= k < i ==> a[k] != default_store(),
        decreases names.len() - i,
    {
        assert(a[i as int] == names@[i as int]@);
        if equals_literal(&names[i], "default") {
            return true;
        }
        i = i + 1;
    }
    false
}

/// The store names to list, from the names that the configuration holds:
/// `default` first if it is one of them, then every other name in the
/// given order.
pub fn store_listing(names: &[String]) -> (listed: Vec<String>)
    ensures
        strings_view(listed@) == listed_stores(strings_view(names@)),
{
    let ghost a = strings_view(names@);
    let ghost pred = |n: Seq<char>| n != default_store();
    let with_default = has_default(names);
    let ghost head = if with_default {
        seq![default_store()]
    } else {
        Seq::<Seq<char>>::empty()
    };
    let mut listed: Vec<String> = Vec::new();
    if with_default {
        listed.push(String::from_str("default"));
    }
    let mut i: usize = 0;
    assert(a.take(0).filter(pred) =~= Seq::<Seq<char>>::empty()) by {
        reveal_with_fuel(Seq::<_>::filter, 1);
    }
    assert(strings_view(listed@) =~= head + a.take(0).filter(pred));
    while i < names.len()
        invariant
            i <= names.len(),
            a == strings_view(names@),
            pred == (|n: Seq<char>| n != default_store()),
            head == (if with_default {
                seq![default_store()]
            } else {
                Seq::<Seq<char>>::empty()
            }),
            strings_view(listed@) == head + a.take(i as int).filter(pred),
        decreases names.len() - i,
    {
        let ghost before = strings_view(listed@);
        assert(a.take(i + 1).drop_last() =~= a.take(i as int));
        assert(a.take(i + 1).last() == a[i as int]);
        assert(a.take(i + 1).filter(pred) == if pred(a[i as int]) {
            a.take(i as int).filter(pred).push(a[i as int])
        } else {
            a.take(i as int).filter(pred)
        }) by {
            reveal_with_fuel(Seq::<_>::filter, 1);
        }
        if !equals_literal(&names[i], "default") {
            listed.push(names[i].clone());
            assert(strings_view(listed@) =~= before.push(a[i as int]));
        }
        i = i + 1;
    }
    assert(a.take(names.len() as int) =~= a);
    listed
}

/// The file of the store `name`: the file of the first pair whose name it
/// is, if any.
pub open spec fn store_file(files: Seq<(Seq<char>, Seq<char>)>, name: Seq<char>) -> Option<
    Seq<char>,
>
    decreases files.len(),
{
    if files.len() == 0 {
        None
    } else if files[0].0 == name {
        Some(files[0].1)
    } else {
        store_file(files.drop_first(), name)
    }
}

/// Looks up the file of a store among (name, file) pairs of the
/// configuration; `None` when no store has that name.
pub fn find_store_file(files: &Vec<(String, String)>, name: &String) -> (file: Option<String>)
    ensures
        match file {
            Some(f) => store_file(files.deep_view(), name@) == Some(f@),
            None => store_file(files.deep_view(), name@) is None,
        },
{
    let ghost fs = files.deep_view();
    let mut i: usize = 0;
    assert(fs.skip(0) =~= fs);
    while i < files.len()
        invariant
            fs == files.deep_view(),
            i <= files.len(),
            store_file(fs, name@) == store_file(fs.skip(i as int), name@),
        decreases files.len() - i,
    {
        let ghost rest = fs.skip(i as int);
        assert(rest[0] == (files@[i as int].0@, files@[i as int].1@));
        if files[i].0 == *name {
            return Some(files[i].1.clone());
        }
        assert(rest.drop_first() =~= fs.skip(i + 1));
        i = i + 1;
    }
    None
}

// ---------------------------------------------------------------------------
// What the command line asks for, shape by shape
// ---------------------------------------------------------------------------

/// One of the words `file`, `f`, `--file`, `-f`.
pub open spec fn names_file_flag(a: Seq<char>) -> bool {
    a == "file"@ || a == "f"@ || a == "--file"@ || a == "-f"@
}

/// One of the words `help`, `h`, `--help`, `-h`.
pub open spec fn names_help_flag(a: Seq<char>) -> bool {
    a == "help"@ || a == "h"@ || a == "--help"@ || a == "-h"@
}

/// No word is both a help flag and a file flag.
pub proof fn lemma_flags_disjoint(a: Seq<char>)
    ensures
        names_file_flag(a) ==> !names_help_flag(a),
{
    reveal_strlit("help");
    reveal_strlit("h");
    reveal_strlit("--help");
    reveal_strlit("-h");
    reveal_strlit("file");
    reveal_strlit("f");
    reveal_strlit("--file");
    reveal_strlit("-f");
    if names_file_flag(a) && names_help_flag(a) {
        assert(a.len() == 4 ==> a[0] == 'f' && a[0] == 'h');
        assert(a.len() == 1 ==> a[0] == 'f' && a[0] == 'h');
        assert(a.len() == 6 ==> a[2] == 'f' && a[2] == 'h');
        assert(a.len() == 2 ==> a[1] == 'f' && a[1] == 'h');
    }
}

/// With a file flag, a store name and at least one more word, the command
/// adds the words after the store name (behind the program's name) to that
/// store.
pub proof fn law_file_flag_adds_to_named_store(args: Seq<Seq<char>>)
    requires
        args.len() >= 4,
        names_file_flag(args[1]),
    ensures
        command_for(args) == (CommandModel::Add {
            store: args[2],
            args: seq![args[0]] + args.subrange(3, args.len() as int),
        }),
{
    assert(args.skip(3) =~= args.subrange(3, args.len() as int));
}

/// A file flag and a store name open that store.
pub proof fn law_file_flag_opens_named_store(args: Seq<Seq<char>>)
    requires
        args.len() == 3,
        names_file_flag(args[1]),
    ensures
        command_for(args) == (CommandModel::Tui { store: args[2] }),
{
}

/// The program's name alone opens the store `default`; a help flag alone
/// asks for the usage, a file flag alone for the usage of stores.
pub proof fn law_short_command_lines(args: Seq<Seq<char>>)
    requires
        1 <= args.len() <= 2,
    ensures
        args.len() == 1 ==> command_for(args) == (CommandModel::Tui { store: "default"@ }),
        args.len() == 2 && names_help_flag(args[1]) ==> command_for(args) == CommandModel::Help,
        args.len() == 2 && names_file_flag(args[1]) ==> command_for(args)
            == CommandModel::FileHelp,
{
    if args.len() == 2 {
        lemma_flags_disjoint(args[1]);
    }
}

/// Words that do not start with a flag are added, all of them behind the
/// program's name, to the store `default`.
pub proof fn law_words_go_to_default_store(args: Seq<Seq<char>>)
    requires
        args.len() >= 2,
        !names_file_flag(args[1]),
        !(args.len() == 2 && names_help_flag(args[1])),
    ensures
        command_for(args) == (CommandModel::Add { store: "default"@, args }),
{
}

/// The lookup gives the file of the first pair with the name, wherever it
/// stands in the list, and nothing when no pair has the name.
pub proof fn law_store_file_first_match(
    files: Seq<(Seq<char>, Seq<char>)>,
    name: Seq<char>,
    i: int,
)
    requires
        0 <= i < files.len(),
        files[i].0 == name,
        forall|j: int| 0 <= j < i ==> #[trigger] files[j].0 != name,
    ensures
        store_file(files, name) == Some(files[i].1),
    decreases i,
{
    if i > 0 {
        assert(files[0].0 != name);
        let rest = files.drop_first();
        assert forall|j: int| 0 <= j < i - 1 implies #[trigger] rest[j].0 != name by {
            assert(rest[j] == files[j + 1]);
        }
        law_store_file_first_match(rest, name, i - 1);
    }
}

/// No pair has the name: the lookup gives nothing.
pub proof fn law_store_file_absent(files: Seq<(Seq<char>, Seq<char>)>, name: Seq<char>)
    requires
        forall|j: int| 0 <= j < files.len() ==> #[trigger] files[j].0 != name,
    ensures
        store_file(files, name) is None,
    decreases files.len(),
{
    if files.len() > 0 {
        let rest = files.drop_first();
        assert forall|j: int| 0 <= j < rest.len() implies #[trigger] rest[j].0 != name by {
            assert(rest[j] == files[j + 1]);
        }
        law_store_file_absent(rest, name);
    }
}

/// The listing holds `default` exactly when the names do, then only at the
/// front; every other listed name is one of the names, and every name other
/// than `default` is listed.
pub proof fn law_listing_contents(names: Seq<Seq<char>>)
    ensures
        names.contains("default"@) ==> listed_stores(names)[0] == "default"@,
        listed_stores(names).contains("default"@) <==> names.contains("default"@),
        forall|k: int|
            0 < k < listed_stores(names).len() ==> #[trigger] listed_stores(names)[k]
                != "default"@,
        forall|k: int|
            0 <= k < listed_stores(names).len() && listed_stores(names)[k] != "default"@
                ==> names.contains(#[trigger] listed_stores(names)[k]),
        forall|j: int|
            0 <= j < names.len() && names[j] != "default"@ ==> listed_stores(names).contains(
                #[trigger] names[j],
            ),
{
    let pred = |n: Seq<char>| n != default_store();
    let others = names.filter(pred);
    broadcast use vstd::seq_lib::group_filter_ensures;

    assert forall|k: int| 0 <= k < others.len() implies #[trigger] others[k] != "default"@
        && names.contains(others[k]) by {
        assert(pred(others[k]));
        assert(others.contains(others[k]));
        names.lemma_filter_contains_rev(pred, others[k]);
    }
    assert forall|j: int| 0 <= j < names.len() && names[j] != "default"@ implies others.contains(
        #[trigger] names[j],
    ) by {
        assert(pred(names[j]));
    }
    if names.contains("default"@) {
        let l = seq![default_store()] + others;
        assert forall|k: int| 0 < k < l.len() implies #[trigger] l[k] != "default"@ by {
            assert(l[k] == others[k - 1]);
        }
        assert forall|k: int| 0 <= k < l.len() && l[k] != "default"@ implies names.contains(
            #[trigger] l[k],
        ) by {
            assert(l[k] == others[k - 1]);
        }
        assert forall|j: int| 0 <= j < names.len() && names[j] != "default"@ implies l.contains(
            #[trigger] names[j],
        ) by {
            let k = choose|k: int| 0 <= k < others.len() && others[k] == names[j];
            assert(l[k + 1] == others[k]);
        }
        assert(l[0] == "default"@);
    } else {
        if others.contains("default"@) {
            let k = choose|k: int| 0 <= k < others.len() && others[k] == "default"@;
            assert(others[k] != "default"@);
        }
    }
}

/// After the leading `default` (if any), the listing is the names other
/// than `default`, in the given order.
pub proof fn law_listing_order(names: Seq<Seq<char>>)
    ensures
        names.contains("default"@) ==> listed_stores(names).drop_first() == names.filter(
            |n: Seq<char>| n != "default"@,
        ),
        !names.contains("default"@) ==> listed_stores(names) == names.filter(
            |n: Seq<char>| n != "default"@,
        ),
{
    let l = listed_stores(names);
    let p1 = |n: Seq<char>| n != "default"@;
    let p2 = |n: Seq<char>| n != default_store();
    assert(p1 =~= p2);
    assert(names.filter(p1) == names.filter(p2));
    if names.contains("default"@) {
        assert(l.drop_first() =~= names.filter(p2));
    }
}

} // verus!
