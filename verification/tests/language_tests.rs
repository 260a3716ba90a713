use readline_hooks::handlers::{
    branch_lines_ok, handler_results_ok, pick_from_listing, try_handler_results, DispatchData, Effect, Handler,
};
use readline_hooks::language::{eq_form_of, parse_request};
use readline_hooks::readline::{get_output_ok, get_readline_state, process_ok, ReadlineState};
use readline_hooks::step::{finish, job_effect, start, Job};

fn eq(line: &str) -> Option<(String, Option<(Handler, String, u32)>)> {
    eq_form_of(line)
}

fn req(h: Handler, d: &str, n: u32) -> Option<(Handler, String, u32)> {
    Some((h, d.to_string(), n))
}

fn st(line: &str, point: &str) -> ReadlineState {
    get_readline_state(line.to_string(), point.to_string())
}

fn effect_of(job: &Job) -> Option<(String, Vec<String>)> {
    match job_effect(job) {
        Effect::Run { bin, args } => Some((bin, args)),
        Effect::ReadHistory => None,
    }
}

fn new_line(job: Job, outcome: Result<String, ()>, point: &str) -> Option<(String, String, String)> {
    let state = st("", point);
    finish(job, outcome, &state).unwrap().map(|(s, h)| (s.line, s.point, h))
}

#[test]
fn readme_examples_parse() {
    assert_eq!(eq("mv -iv = ~/Downloads"), Some(("mv -iv ".to_string(), req(Handler::T, "~/Downloads", 1))));
    assert_eq!(eq("view-pdf = ~/bookshelf l"), Some(("view-pdf ".to_string(), req(Handler::L, "~/bookshelf", 1))));
    assert_eq!(eq("cat = /tmp 3 t"), Some(("cat ".to_string(), req(Handler::T, "/tmp", 3))));
    assert_eq!(eq("x = z"), Some(("x ".to_string(), req(Handler::Z, "", 1))));
}

#[test]
fn eq_form_defaults() {
    assert_eq!(eq("cat ="), Some(("cat ".to_string(), req(Handler::T, "", 1))));
    assert_eq!(eq("cat = 2"), Some(("cat ".to_string(), req(Handler::T, "", 2))));
    assert_eq!(eq("cat = lr"), Some(("cat ".to_string(), req(Handler::Lr, "", 1))));
    assert_eq!(eq("= /d tr"), Some((String::new(), req(Handler::Tr, "/d", 1))));
    assert_eq!(eq("cat =   /d   4  "), Some(("cat ".to_string(), req(Handler::T, "/d", 4))));
}

#[test]
fn eq_form_rejects_other_words() {
    assert_eq!(eq("a = b c d"), Some(("a ".to_string(), None)));
    assert_eq!(eq("a = /d 0"), Some(("a ".to_string(), None)));
    assert_eq!(eq("a = 3 z"), Some(("a ".to_string(), None)));
    assert_eq!(eq("a = z 3"), Some(("a ".to_string(), req(Handler::T, "z", 3))));
    assert_eq!(eq("a = 3 /d"), Some(("a ".to_string(), None)));
    assert_eq!(eq("a = 99999999999"), Some(("a ".to_string(), None)));
    assert_eq!(eq("a = g"), Some(("a ".to_string(), req(Handler::T, "g", 1))));
}

#[test]
fn only_a_standalone_eq_counts() {
    assert_eq!(eq("a=b t"), None);
    assert_eq!(eq("x == y"), None);
    assert_eq!(eq("a = b = c"), Some(("a = b ".to_string(), req(Handler::T, "c", 1))));
    assert_eq!(eq("\t=\tl"), Some(("\t".to_string(), req(Handler::L, "", 1))));
}

#[test]
fn parse_request_reads_words() {
    let w = |v: &[&str]| v.iter().map(|s| s.to_string()).collect::<Vec<String>>();
    assert_eq!(parse_request(&w(&[])), req(Handler::T, "", 1));
    assert_eq!(parse_request(&w(&["/tmp", "3", "t"])), req(Handler::T, "/tmp", 3));
    assert_eq!(parse_request(&w(&["z"])), req(Handler::Z, "", 1));
    assert_eq!(parse_request(&w(&["a", "b"])), None);
}

#[test]
fn pick_counts_from_the_end() {
    let l = "a\nb\nc\nd\n".to_string();
    assert_eq!(pick_from_listing("/tmp", 3, Ok(l.clone())), Ok(("/tmp/b".to_string(), false, true)));
    assert_eq!(pick_from_listing("", 1, Ok(l.clone())), Ok(("d".to_string(), false, true)));
    assert_eq!(pick_from_listing("", 4, Ok(l.clone())), Ok(("a".to_string(), false, true)));
    assert_eq!(pick_from_listing("", 5, Ok(l.clone())), Ok((String::new(), false, true)));
    assert_eq!(pick_from_listing("d", 1, Ok(String::new())), Ok((String::new(), false, true)));
    assert_eq!(pick_from_listing("d", 1, Err(())), Err(()));
}

#[test]
fn eq_form_rewrite_replaces_from_eq() {
    let job = start("cat = /tmp 3 t").unwrap().unwrap();
    assert!(job.eq_form);
    assert_eq!(job.keep, "cat ");
    assert_eq!(job.store, "cat = /tmp 3 t");
    assert_eq!(effect_of(&job), Some(("ls".to_string(), vec!["-tr".to_string(), "/tmp".to_string()])));
    assert_eq!(
        new_line(job, Ok("a\nb\nc\nd\n".to_string()), "0"),
        Some(("cat /tmp/b ".to_string(), "12".to_string(), "cat = /tmp 3 t".to_string()))
    );
}

#[test]
fn eq_form_quotes_and_lists_current_dir() {
    let job = start("view-pdf = l").unwrap().unwrap();
    assert_eq!(effect_of(&job), Some(("ls".to_string(), vec![])));
    assert_eq!(
        new_line(job, Ok("my book.pdf\n".to_string()), "9"),
        Some(("view-pdf \"my book.pdf\" ".to_string(), "33".to_string(), "view-pdf = l".to_string()))
    );
}

#[test]
fn eq_z_reverts() {
    let job = start("cat /tmp/b = z").unwrap().unwrap();
    assert_eq!(effect_of(&job), None);
    assert_eq!(
        new_line(job, Ok("cat = /tmp 3 t".to_string()), "0"),
        Some(("cat = /tmp 3 t ".to_string(), "16".to_string(), "cat /tmp/b = z".to_string()))
    );
}

#[test]
fn plain_form_runs_on_first_part() {
    let job = start("foo t").unwrap().unwrap();
    assert!(!job.eq_form);
    assert_eq!(job.keep, "foo ");
    assert_eq!(job.join, "");
    assert_eq!(job.store, "foo ");
    assert_eq!(effect_of(&job), Some(("ls".to_string(), vec!["-tr".to_string()])));
    assert_eq!(
        new_line(job, Ok("x\n".to_string()), "5"),
        Some(("foo x ".to_string(), "12".to_string(), "foo ".to_string()))
    );
    let job = start("less /var/log T").unwrap().unwrap();
    assert_eq!(effect_of(&job), Some(("ls".to_string(), vec!["-tr".to_string(), "/var/log".to_string()])));
    assert_eq!(new_line(job, Ok("syslog\n".to_string()), "0").unwrap().0, "less /var/log/syslog ");
}

#[test]
fn start_without_command_or_with_error() {
    assert!(start("foo qq").unwrap().is_none());
    assert!(start("a = b c d").unwrap().is_none());
    assert_eq!(start("a\nb c").err(), Some("ierror regex".to_string()));
    assert_eq!(start("cat \"open T").err(), Some("couldn't shlex".to_string()));
}

#[test]
fn finish_failures() {
    // the command failed: nothing to write, nothing to store
    let job = start("foo t").unwrap().unwrap();
    assert_eq!(new_line(job, Err(()), "0"), None);
    // an undecodable starred branch line stops the program
    let job = start("g").unwrap().unwrap();
    assert!(finish(job, Ok("*\u{e9}\n".to_string()), &st("", "0")).is_err());
    // so does a cursor position that is not a number
    let job = start("foo t").unwrap().unwrap();
    assert!(finish(job, Ok("x\n".to_string()), &st("", "x")).is_err());
}

#[test]
fn checks_agree_with_definedness() {
    assert!(branch_lines_ok("* main\n  dev\n"));
    assert!(branch_lines_ok("*x\n"));
    assert!(!branch_lines_ok("  a\n*\u{e9}\n"));
    let d = DispatchData { first_part: "cat \"open".to_string() };
    assert!(!handler_results_ok(Handler::BigT, &d, &Ok(String::new())));
    assert!(handler_results_ok(Handler::T, &d, &Ok(String::new())));
    assert_eq!(try_handler_results(Handler::BigT, d, Ok(String::new())), None);
    let d = DispatchData { first_part: "x".to_string() };
    assert_eq!(try_handler_results(Handler::Z, d, Ok("h".to_string())), Some(Ok(("h".to_string(), true, false))));
    assert!(get_output_ok("1", "a", "b", false, ""));
    assert!(!get_output_ok("", "a", "b", false, ""));
    assert!(!get_output_ok("4294967295", "a", "b", false, ""));
    assert!(process_ok("a", "", &Err(()), "not a number"));
    assert!(!process_ok("a", "", &Ok(("b".to_string(), false, true)), "not a number"));
}
