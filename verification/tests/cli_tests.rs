use td::cli::{find_store_file, parse_command, store_listing, Command};

fn args(words: &[&str]) -> Vec<String> {
    words.iter().map(|w| w.to_string()).collect()
}

fn tui_store(cmd: Command) -> String {
    match cmd {
        Command::Tui { store } => store,
        _ => panic!("not the interface"),
    }
}

fn add(cmd: Command) -> (String, Vec<String>) {
    match cmd {
        Command::Add { store, args } => (store, args),
        _ => panic!("not an addition"),
    }
}

#[test]
fn no_arguments_open_default_store() {
    assert_eq!(tui_store(parse_command(&args(&["td"]))), "default");
}

#[test]
fn help_flags() {
    for flag in ["help", "h", "--help", "-h"] {
        assert!(matches!(parse_command(&args(&["td", flag])), Command::Help));
    }
}

#[test]
fn file_flag_alone_prints_store_help() {
    for flag in ["file", "f", "--file", "-f"] {
        assert!(matches!(parse_command(&args(&["td", flag])), Command::FileHelp));
    }
}

#[test]
fn file_flag_with_name_opens_that_store() {
    assert_eq!(tui_store(parse_command(&args(&["td", "-f", "work"]))), "work");
}

#[test]
fn single_word_is_added_to_default_store() {
    let (store, a) = add(parse_command(&args(&["td", "groceries"])));
    assert_eq!(store, "default");
    assert_eq!(a, args(&["td", "groceries"]));
}

#[test]
fn two_words_are_added_to_default_store() {
    let (store, a) = add(parse_command(&args(&["td", "help", "me"])));
    assert_eq!(store, "default");
    assert_eq!(a, args(&["td", "help", "me"]));
}

#[test]
fn file_flag_with_name_and_words_adds_to_that_store() {
    let (store, a) = add(parse_command(&args(&["td", "--file", "work", "call", "bob"])));
    assert_eq!(store, "work");
    assert_eq!(a, args(&["td", "call", "bob"]));
}

#[test]
fn many_words_are_added_to_default_store() {
    let (store, a) = add(parse_command(&args(&["td", "a", "b", "c"])));
    assert_eq!(store, "default");
    assert_eq!(a, args(&["td", "a", "b", "c"]));
}

#[test]
fn store_listing_puts_default_first_once() {
    let listed = store_listing(&args(&["example", "default", "work"]));
    assert_eq!(listed, args(&["default", "example", "work"]));
    assert_eq!(store_listing(&Vec::new()), Vec::<String>::new());
}

#[test]
fn store_listing_without_default_lists_only_configured_stores() {
    assert_eq!(store_listing(&args(&["work"])), args(&["work"]));
    assert_eq!(store_listing(&args(&["b", "a"])), args(&["b", "a"]));
}

#[test]
fn store_file_lookup() {
    let files = vec![
        ("default".to_string(), "main.txt".to_string()),
        ("example".to_string(), "example.txt".to_string()),
    ];
    assert_eq!(find_store_file(&files, &"example".to_string()), Some("example.txt".to_string()));
    assert_eq!(find_store_file(&files, &"default".to_string()), Some("main.txt".to_string()));
    assert_eq!(find_store_file(&files, &"work".to_string()), None);
    assert_eq!(find_store_file(&Vec::new(), &"default".to_string()), None);
}
