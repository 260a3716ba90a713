use readline_hooks::command::{get_cmd, get_cmd_empty, get_cmd_nonspace_at_end, get_cmd_space_at_end, CommandParseResult};
use readline_hooks::dispatch::get_main;
use readline_hooks::handlers::Handler;
use readline_hooks::text::{chars_of, last_line_of};

fn found(r: CommandParseResult) -> Option<(String, String, String)> {
    match r {
        CommandParseResult::Found((f, c, j)) => Some((f.to_string(), c.to_string(), j.to_string())),
        _ => None,
    }
}

#[test]
fn empty_line_is_command_t() {
    assert_eq!(get_cmd(""), Ok(("", "t", "")));
    assert_eq!(found(get_cmd_empty("")), Some((String::new(), "t".to_string(), String::new())));
    assert!(matches!(get_cmd_empty("x"), CommandParseResult::NotFound));
}

#[test]
fn last_word_is_the_command() {
    assert_eq!(get_cmd("mv -iv ~/Downloads t"), Ok(("mv -iv ~/Downloads ", "t", "")));
    assert_eq!(get_cmd("view-pdf ~/bookshelf lr"), Ok(("view-pdf ~/bookshelf ", "lr", "")));
    assert_eq!(get_cmd("z"), Ok(("", "z", "")));
}

#[test]
fn trailing_space_means_t_with_space_join() {
    assert_eq!(get_cmd("cat /tmp "), Ok(("cat /tmp", "t", " ")));
    assert_eq!(get_cmd("cat /tmp \t  "), Ok(("cat /tmp", "t", " ")));
    assert_eq!(get_cmd("   "), Ok(("", "t", " ")));
    assert_eq!(found(get_cmd_space_at_end("a b ")), Some(("a b".to_string(), "t".to_string(), " ".to_string())));
    assert!(matches!(get_cmd_space_at_end("a b"), CommandParseResult::NotFound));
}

#[test]
fn unicode_whitespace_counts_as_space() {
    assert_eq!(get_cmd("ls\u{3000}"), Ok(("ls", "t", " ")));
    assert_eq!(get_cmd("ls\u{a0}T"), Ok(("ls\u{a0}", "T", "")));
    assert_eq!(get_cmd("\u{e9}t\u{e9}"), Ok(("", "\u{e9}t\u{e9}", "")));
}

#[test]
fn newline_before_the_command_is_an_error() {
    assert_eq!(get_cmd("a\nb c"), Err("ierror regex"));
    assert_eq!(get_cmd("a\nb "), Err("ierror regex"));
    assert!(matches!(get_cmd_nonspace_at_end("a\nb c"), CommandParseResult::Error("ierror regex")));
    assert!(matches!(get_cmd_space_at_end("a\nb "), CommandParseResult::NotFound));
    // a line feed inside the trailing whitespace is part of it
    assert_eq!(get_cmd("abc\n"), Ok(("abc", "t", " ")));
}

#[test]
fn nonspace_stage_splits_last_word() {
    assert_eq!(found(get_cmd_nonspace_at_end("cat x T")), Some(("cat x ".to_string(), "T".to_string(), String::new())));
    assert!(matches!(get_cmd_nonspace_at_end("x "), CommandParseResult::Error(_)));
}

#[test]
fn split_reassembles_line() {
    for line in ["a b c", "x", "foo   bar", "tab\tsep"] {
        let (f, c, j) = get_cmd(line).unwrap();
        assert_eq!(j, "");
        assert_eq!(format!("{}{}", f, c), line);
        assert!(!c.chars().any(|ch| ch.is_whitespace()));
    }
}

#[test]
fn dispatch_table_selects_each_keyword() {
    let main = get_main();
    assert_eq!(main.dispatchers.len(), 7);
    assert_eq!(main.find_handler("g"), Some(Handler::G));
    assert_eq!(main.find_handler("t"), Some(Handler::T));
    assert_eq!(main.find_handler("tr"), Some(Handler::Tr));
    assert_eq!(main.find_handler("l"), Some(Handler::L));
    assert_eq!(main.find_handler("lr"), Some(Handler::Lr));
    assert_eq!(main.find_handler("T"), Some(Handler::BigT));
    assert_eq!(main.find_handler("z"), Some(Handler::Z));
    assert_eq!(main.find_handler("x"), None);
    assert_eq!(main.find_handler("tt"), None);
    assert_eq!(main.find_handler(""), None);
}

#[test]
fn main_add_appends_entry() {
    let mut main = get_main();
    main.add("q", Handler::Z);
    assert_eq!(main.dispatchers.len(), 8);
    assert_eq!(main.find_handler("q"), Some(Handler::Z));
    main.add("g", Handler::Z);
    assert_eq!(main.find_handler("g"), Some(Handler::G));
}

#[test]
fn lines_and_last_line() {
    assert_eq!(chars_of("a\u{e9}"), vec!['a', '\u{e9}']);
    assert_eq!(last_line_of("a\nb\n"), "b");
    assert_eq!(last_line_of("a\r\nb\r\n"), "b");
    assert_eq!(last_line_of("a\rb"), "a\rb");
    assert_eq!(last_line_of("x\n\n"), "");
    assert_eq!(last_line_of(""), "");
    assert_eq!(last_line_of("one"), "one");
}
