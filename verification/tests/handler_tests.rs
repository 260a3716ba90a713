use readline_hooks::handlers::{
    git_commit, handle_T, handle_g, handle_l, handle_lr, handle_t, handle_tr, handle_z, handler_effect,
    handler_results, ls_args, ls_last_priv, try_handler_effect, DispatchData, Effect, Handler,
};
use readline_hooks::number::{parse_u32, u32_text};
use readline_hooks::readline::{get_output, get_readline_state, output, process, ReadlineState};
use readline_hooks::shell::{get_words, get_words_partition_right, try_get_words_partition_right};

fn data(s: &str) -> DispatchData {
    DispatchData { first_part: s.to_string() }
}

fn run_of(e: Effect) -> Option<(String, Vec<String>)> {
    match e {
        Effect::Run { bin, args } => Some((bin, args)),
        Effect::ReadHistory => None,
    }
}

fn st(line: &str, point: &str) -> ReadlineState {
    get_readline_state(line.to_string(), point.to_string())
}

#[test]
fn parse_u32_follows_str_parse() {
    assert_eq!(parse_u32("42"), Some(42));
    assert_eq!(parse_u32("+7"), Some(7));
    assert_eq!(parse_u32("007"), Some(7));
    assert_eq!(parse_u32("4294967295"), Some(u32::MAX));
    assert_eq!(parse_u32("4294967296"), None);
    assert_eq!(parse_u32("99999999999999999999"), None);
    assert_eq!(parse_u32(""), None);
    assert_eq!(parse_u32("+"), None);
    assert_eq!(parse_u32("-1"), None);
    assert_eq!(parse_u32("12a"), None);
    assert_eq!(parse_u32(" 1"), None);
}

#[test]
fn u32_text_is_decimal() {
    assert_eq!(u32_text(0), "0");
    assert_eq!(u32_text(1234), "1234");
    assert_eq!(u32_text(u32::MAX), "4294967295");
    for n in [0u32, 9, 10, 99, 100, 65535, 4000000000] {
        assert_eq!(parse_u32(&u32_text(n)), Some(n));
        assert_eq!(u32_text(n), n.to_string());
    }
}

#[test]
fn ls_args_leave_out_empty_parts() {
    assert_eq!(ls_args("-tr", ""), vec!["-tr".to_string()]);
    assert_eq!(ls_args("", ""), Vec::<String>::new());
    assert_eq!(ls_args("-tr", "/tmp"), vec!["-tr".to_string(), "/tmp".to_string()]);
    assert_eq!(ls_args("", "d"), vec!["d".to_string()]);
}

#[test]
fn ls_last_priv_takes_last_line() {
    assert_eq!(ls_last_priv("", Ok("a\nb\n".to_string())), Ok(("b".to_string(), false, true)));
    assert_eq!(ls_last_priv("", Ok(String::new())), Ok((String::new(), false, true)));
    assert_eq!(ls_last_priv("/tmp", Ok("x\nsub/\n".to_string())), Ok(("/tmp/sub".to_string(), false, true)));
    assert_eq!(ls_last_priv("/tmp", Ok("x//\n".to_string())), Ok(("/tmp/x/".to_string(), false, true)));
    assert_eq!(ls_last_priv("d", Ok(String::new())), Ok((String::new(), false, true)));
    assert_eq!(ls_last_priv("d", Err(())), Err(()));
}

#[test]
fn listing_handlers() {
    let listing = "old\nnew\n".to_string();
    assert_eq!(handle_t(Ok(listing.clone())), Ok(("new".to_string(), false, true)));
    assert_eq!(handle_tr(Ok(listing.clone())), Ok(("new".to_string(), false, true)));
    assert_eq!(handle_l(Ok(listing.clone())), Ok(("new".to_string(), false, true)));
    assert_eq!(handle_lr(Ok(listing)), Ok(("new".to_string(), false, true)));
    assert_eq!(handle_t(Err(())), Err(()));
}

#[test]
fn git_commit_uses_starred_branch() {
    assert_eq!(
        git_commit(Ok("  master\n* dev\n  other\n".to_string())),
        Ok(("gpcm 'dev ".to_string(), true, false))
    );
    assert_eq!(git_commit(Ok("  master\n".to_string())), Ok(("gpcm 'UNKNOWN BRANCH ".to_string(), true, false)));
    assert_eq!(git_commit(Ok("*x\n".to_string())), Ok(("gpcm 'UNKNOWN BRANCH ".to_string(), true, false)));
    assert_eq!(git_commit(Ok("* a\n* b\n".to_string())), Ok(("gpcm 'a ".to_string(), true, false)));
    assert_eq!(git_commit(Ok(" * a\n".to_string())), Ok(("gpcm 'UNKNOWN BRANCH ".to_string(), true, false)));
    assert_eq!(git_commit(Err(())), Err(()));
    assert_eq!(handle_g(Ok("* main\r\n".to_string())), Ok(("gpcm 'main ".to_string(), true, false)));
}

#[test]
fn handle_z_gives_history() {
    assert_eq!(handle_z(Ok("prev line".to_string())), Ok(("prev line".to_string(), true, false)));
    assert_eq!(handle_z(Err(())), Err(()));
}

#[test]
fn shell_words() {
    assert_eq!(get_words("a 'b c' d"), vec!["a".to_string(), "b c".to_string(), "d".to_string()]);
    assert_eq!(get_words_partition_right("cat \"my dir\""), ("cat".to_string(), "my dir".to_string()));
    assert_eq!(get_words_partition_right("a b c"), ("a b".to_string(), "c".to_string()));
    assert_eq!(get_words_partition_right(""), (String::new(), String::new()));
    assert_eq!(try_get_words_partition_right("x \"open"), None);
    assert_eq!(try_get_words_partition_right("x y"), Some(("x".to_string(), "y".to_string())));
}

#[test]
fn handle_big_t_quotes_the_path() {
    assert_eq!(
        handle_T(data("cat ~/dl"), Ok("f1\nmy file\n".to_string())),
        Ok(("cat \"~/dl/my file\"".to_string(), true, false))
    );
    assert_eq!(handle_T(data("less /tmp"), Ok("a\nb\n".to_string())), Ok(("less /tmp/b".to_string(), true, false)));
    assert_eq!(handle_T(data("less /tmp"), Err(())), Err(()));
}

#[test]
fn effects_of_each_command() {
    assert_eq!(run_of(handler_effect(Handler::T, &data(""))), Some(("ls".to_string(), vec!["-tr".to_string()])));
    assert_eq!(run_of(handler_effect(Handler::Tr, &data(""))), Some(("ls".to_string(), vec!["-t".to_string()])));
    assert_eq!(run_of(handler_effect(Handler::L, &data(""))), Some(("ls".to_string(), vec![])));
    assert_eq!(run_of(handler_effect(Handler::Lr, &data(""))), Some(("ls".to_string(), vec!["-r".to_string()])));
    assert_eq!(run_of(handler_effect(Handler::G, &data(""))), Some(("it".to_string(), vec!["branch".to_string()])));
    assert_eq!(
        run_of(handler_effect(Handler::BigT, &data("cat /tmp"))),
        Some(("ls".to_string(), vec!["-tr".to_string(), "/tmp".to_string()]))
    );
    assert_eq!(run_of(handler_effect(Handler::Z, &data("x"))), None);
    assert!(try_handler_effect(Handler::BigT, &data("cat \"open")).is_none());
    assert!(try_handler_effect(Handler::T, &data("cat \"open")).is_some());
}

#[test]
fn handler_results_dispatches() {
    assert_eq!(handler_results(Handler::Z, data("x "), Ok("h".to_string())), Ok(("h".to_string(), true, false)));
    assert_eq!(handler_results(Handler::L, data("x "), Ok("a\n".to_string())), Ok(("a".to_string(), false, true)));
    assert_eq!(handler_results(Handler::G, data(""), Ok("* b\n".to_string())), Ok(("gpcm 'b ".to_string(), true, false)));
}

#[test]
fn get_output_builds_line_and_point() {
    let s = get_output("10", "ls ".to_string(), "file".to_string(), false, String::new());
    assert_eq!(s.line, "ls file ");
    assert_eq!(s.point, "19");
    let s = get_output("0", "cat /tmp".to_string(), "x".to_string(), false, " ".to_string());
    assert_eq!(s.line, "cat /tmp x  ");
    assert_eq!(s.point, "14");
    let s = get_output("5", "dropped ".to_string(), "new".to_string(), true, String::new());
    assert_eq!(s.line, "new ");
    assert_eq!(s.point, "10");
    // the point counts bytes
    let s = get_output("+1", String::new(), "\u{e9}".to_string(), false, String::new());
    assert_eq!(s.line, "\u{e9} ");
    assert_eq!(s.point, "5");
}

#[test]
fn process_quotes_when_asked() {
    let state = st("ls a b", "3");
    let r = process("ls ", "", Ok(("a b".to_string(), false, true)), &state).unwrap();
    assert_eq!(r.line, "ls \"a b\" ");
    assert_eq!(r.point, "13");
    let r = process("ls ", "", Ok(("a b".to_string(), false, false)), &state).unwrap();
    assert_eq!(r.line, "ls a b ");
    assert!(process("ls ", "", Err(()), &state).is_err());
}

#[test]
fn undo_restores_history() {
    let state = st("foo bar z", "9");
    let results = handle_z(Ok("old line".to_string()));
    let r = process("foo bar ", "", results, &state).unwrap();
    assert_eq!(r.line, "old line ");
    assert_eq!(r.point, "19");
}

#[test]
fn new_point_reads_back() {
    let r = get_output("4294967000", String::new(), "ab".to_string(), false, String::new());
    assert_eq!(parse_u32(&r.point), Some(4294967004));
}

#[test]
fn output_is_shell_assignment() {
    assert_eq!(output(&st("ls", "3")), "READLINE_LINE=ls; READLINE_POINT=3");
    assert_eq!(output(&st("a b ", "5")), "READLINE_LINE=\"a b \"; READLINE_POINT=5");
    assert_eq!(output(&st("", "0")), "READLINE_LINE=\"\"; READLINE_POINT=0");
    assert_eq!(output(&st("say \"$x\"", "1")), "READLINE_LINE=\"say \\\"\\$x\\\"\"; READLINE_POINT=1");
}

#[test]
fn readline_state_keeps_its_parts() {
    let s = st("line", "4");
    assert_eq!(s.line, "line");
    assert_eq!(s.point, "4");
}
