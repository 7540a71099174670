use dl_res::fetch::{step, Action, Event, Fetch, Outcome, Phase, Work};
use dl_res::resource::Resource;
use dl_res::notice::{Level, Notice};
use dl_res::schedule::Scheduler;
use dl_res::startup::check_out_dir;
use dl_res::urls::parse_urls;
use std::collections::HashMap;
use std::path::PathBuf;

/// A stand-in for the network and the disk: what each address answers, and
/// which files are there.
struct World {
    answers: HashMap<String, Option<(u16, Vec<u8>)>>,
    files: HashMap<String, Vec<u8>>,
    requests: Vec<String>,
    log: Vec<(Level, String)>,
    progress: u64,
}

fn world(answers: &[(&str, Option<(u16, &str)>)]) -> World {
    let mut map = HashMap::new();
    for (url, answer) in answers {
        map.insert(url.to_string(), answer.map(|(status, body)| (status, body.as_bytes().to_vec())));
    }
    World { answers: map, files: HashMap::new(), requests: Vec::new(), log: Vec::new(), progress: 0 }
}

fn joined(dir: &str, name: &str) -> String {
    let mut path = PathBuf::from(dir);
    path.push(name);
    path.to_str().unwrap().to_string()
}

fn fetch(world: &mut World, resource: &Resource) -> Outcome {
    let mut fetch = Fetch::new(resource);
    let mut answer: Vec<u8> = Vec::new();
    loop {
        let event = match fetch.work() {
            Work::CheckDestination { path } => {
                Event::Destination { exists: world.files.contains_key(path) }
            }
            Work::SendRequest { url } => {
                world.requests.push(url.to_string());
                match world.answers.get(url).cloned().flatten() {
                    Some((status, bytes)) => {
                        answer = bytes;
                        Event::Response { status }
                    }
                    None => Event::RequestFailed,
                }
            }
            Work::ReadBody => Event::BodyRead { body: answer.clone() },
            Work::CreateFile { path } => {
                world.files.insert(path.to_string(), Vec::new());
                Event::Created
            }
            Work::WriteBody { bytes } => {
                world.files.insert(resource.fp.clone(), bytes.to_vec());
                Event::Written
            }
            Work::Finish(outcome) => {
                world.progress += 1;
                return outcome;
            }
        };
        let reply = fetch.step(event);
        if let Some(notice) = reply.notice {
            world.log.push((notice.level(), format!("{} {}", notice.text(), resource.url)));
        }
    }
}

fn run(world: &mut World, content: &str, n: usize) -> Vec<Outcome> {
    let mut scheduler = Scheduler::new(parse_urls(content), n, "out".to_string());
    let mut outcomes = Vec::new();
    while let Some(batch) = scheduler.next_batch() {
        for url in &batch.excluded {
            let notice = Notice::NoFileName;
            world.log.push((notice.level(), format!("{} {}", notice.text(), url)));
        }
        for resource in &batch.resources {
            outcomes.push(fetch(world, resource));
        }
    }
    outcomes
}

#[test]
fn happy_path() {
    let mut w = world(&[
        ("http://h/a", Some((200, "body a"))),
        ("http://h/b", Some((200, "body b"))),
        ("http://h/c", Some((200, "body c"))),
    ]);
    let outcomes = run(&mut w, "http://h/a\nhttp://h/b\nhttp://h/c", 2);
    assert_eq!(outcomes, vec![Outcome::Completed; 3]);
    assert_eq!(w.files.len(), 3);
    assert_eq!(w.files[&joined("out", "a")], b"body a");
    assert_eq!(w.files[&joined("out", "b")], b"body b");
    assert_eq!(w.files[&joined("out", "c")], b"body c");
    assert_eq!(w.progress, 3);
    assert!(w.log.is_empty());
}

#[test]
fn idempotent_skip() {
    let mut w = world(&[
        ("http://h/a", Some((200, "new a"))),
        ("http://h/b", Some((200, "body b"))),
        ("http://h/c", Some((200, "new c"))),
    ]);
    w.files.insert(joined("out", "a"), b"old a".to_vec());
    w.files.insert(joined("out", "c"), b"old c".to_vec());
    let outcomes = run(&mut w, "http://h/a\nhttp://h/b\nhttp://h/c", 2);
    assert_eq!(outcomes, vec![Outcome::Skipped, Outcome::Completed, Outcome::Skipped]);
    assert_eq!(w.requests, vec!["http://h/b"]);
    assert_eq!(w.files[&joined("out", "a")], b"old a");
    assert_eq!(w.files[&joined("out", "b")], b"body b");
    assert_eq!(w.files[&joined("out", "c")], b"old c");
    assert_eq!(w.progress, 3);
    assert_eq!(
        w.log,
        vec![
            (Level::Info, "skipping http://h/a".to_string()),
            (Level::Info, "skipping http://h/c".to_string()),
        ]
    );
}

#[test]
fn a_second_run_asks_the_network_for_nothing() {
    let mut w = world(&[("http://h/a", Some((200, "a"))), ("http://h/b", Some((200, "b")))]);
    run(&mut w, "http://h/a\nhttp://h/b", 2);
    assert_eq!(w.requests.len(), 2);
    w.requests.clear();
    let outcomes = run(&mut w, "http://h/a\nhttp://h/b", 2);
    assert_eq!(outcomes, vec![Outcome::Skipped; 2]);
    assert!(w.requests.is_empty());
}

#[test]
fn per_url_failure_isolation() {
    let mut w = world(&[
        ("http://h/ok", Some((200, "ok"))),
        ("http://bad.invalid/x", None),
        ("http://h/ok2", Some((200, "ok2"))),
    ]);
    let outcomes = run(&mut w, "http://h/ok\nhttp://bad.invalid/x\nhttp://h/ok2", 3);
    assert_eq!(outcomes, vec![Outcome::Completed, Outcome::Failed, Outcome::Completed]);
    assert!(w.files.contains_key(&joined("out", "ok")));
    assert!(w.files.contains_key(&joined("out", "ok2")));
    assert!(!w.files.contains_key(&joined("out", "x")));
    assert_eq!(w.log, vec![(Level::Error, "request error http://bad.invalid/x".to_string())]);
    assert_eq!(w.progress, 3);
}

#[test]
fn non_200_still_writes() {
    let mut w = world(&[("http://h/missing", Some((404, "not found")))]);
    let outcomes = run(&mut w, "http://h/missing", 10);
    assert_eq!(outcomes, vec![Outcome::Completed]);
    assert_eq!(w.log, vec![(Level::Error, "none 200 resp on http://h/missing".to_string())]);
    assert_eq!(w.files[&joined("out", "missing")], b"not found");
    assert_eq!(w.progress, 1);
}

#[test]
fn empty_basename() {
    let mut w = world(&[("http://h/", Some((200, "index")))]);
    let outcomes = run(&mut w, "http://h/", 10);
    assert!(outcomes.is_empty());
    assert_eq!(
        w.log,
        vec![(Level::Error, "unable to make a file name for http://h/".to_string())]
    );
    assert!(w.requests.is_empty());
    assert!(w.files.is_empty());
    assert_eq!(w.progress, 0);
}

#[test]
fn progress_ends_at_list_less_excluded_for_every_batch_size() {
    let content = "http://h/a\nhttp://h/\n\nhttp://bad.invalid/x\nhttp://h/b\n";
    let mut n = 1;
    while n <= 7 {
        let mut w = world(&[("http://h/a", Some((200, "a"))), ("http://h/b", Some((500, "b")))]);
        run(&mut w, content, n);
        assert_eq!(parse_urls(content).len(), 6);
        assert_eq!(w.progress, 6 - 3);
        n += 1;
    }
}

#[test]
fn fatal_output_dir() {
    assert_eq!(
        check_out_dir("/tmp/some-file", true, false),
        Err("/tmp/some-file is not a valid folder".to_string())
    );
}

#[test]
fn a_missing_output_dir_is_fatal_too() {
    assert_eq!(check_out_dir("out", false, false), Err("out is not a valid folder".to_string()));
    assert_eq!(check_out_dir("out", false, true), Err("out is not a valid folder".to_string()));
}

#[test]
fn an_existing_directory_is_accepted() {
    assert_eq!(check_out_dir("out", true, true), Ok(()));
}

#[test]
fn the_step_after_the_end_is_rest() {
    let reply = step(Phase::Done(Outcome::Completed), &Event::Written);
    assert_eq!(reply.action, Action::Rest);
}
