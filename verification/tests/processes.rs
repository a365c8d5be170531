use lish::compiler::compile_string;
use lish::object::AssocVal;
use lish::object::Node;
use lish::vm::Action;
use lish::vm::Event;
use lish::vm::Outcome;
use lish::vm::VM;

const RUN_FUEL: u64 = 1_000_000;

/// Performs one captured command the way the shell driver would, with a
/// real child process, and hands the event back.
fn perform_capture(argv: &[String]) -> Event {
    if argv.is_empty() {
        return Event::SpawnFailed { message: "empty command".to_string() };
    }
    let expr = duct::cmd(&argv[0], &argv[1..])
        .unchecked()
        .stdin_null()
        .stdout_capture()
        .stderr_capture();
    match expr.run() {
        Ok(out) => Event::Output {
            stdout: String::from_utf8(out.stdout).unwrap_or_default(),
            stderr: String::from_utf8(out.stderr).unwrap_or_default(),
            status: out.status.code().unwrap_or(255) as u64,
        },
        Err(e) => Event::SpawnFailed { message: format!("{}", e) },
    }
}

/// Performs a captured pipeline with real child processes.
fn perform_pipeline(stages: &[Vec<String>]) -> Event {
    let mut expr: Option<duct::Expression> = None;
    for stage in stages {
        if stage.is_empty() {
            return Event::SpawnFailed { message: "empty pipeline stage".to_string() };
        }
        let cmd = duct::cmd(&stage[0], &stage[1..]);
        expr = Some(match expr {
            None => cmd,
            Some(prev) => prev.pipe(cmd),
        });
    }
    let expr = match expr {
        Some(e) => e,
        None => return Event::SpawnFailed { message: "empty pipeline".to_string() },
    };
    match expr.unchecked().stdin_null().stdout_capture().stderr_capture().run() {
        Ok(out) => Event::Output {
            stdout: String::from_utf8(out.stdout).unwrap_or_default(),
            stderr: String::from_utf8(out.stderr).unwrap_or_default(),
            status: out.status.code().unwrap_or(255) as u64,
        },
        Err(e) => Event::SpawnFailed { message: format!("{}", e) },
    }
}

/// Runs a program to completion, spawning real processes for its command
/// actions.
fn run_with_processes(vm: &mut VM, src: &str) -> Outcome {
    let prog = compile_string(src, "<test>").expect("program should parse");
    let mut out = vm.run(&prog, RUN_FUEL);
    loop {
        match out {
            Outcome::More => {
                out = vm.keep_going(RUN_FUEL);
            },
            Outcome::Pending { ref action } => {
                let event = match action {
                    Action::RunCommand { argv, capture } => {
                        assert!(capture, "these tests run non-interactively");
                        perform_capture(argv)
                    },
                    Action::RunPipeline { stages, capture } => {
                        assert!(capture, "these tests run non-interactively");
                        perform_pipeline(stages)
                    },
                    _ => panic!("unexpected action in these tests"),
                };
                assert!(vm.expects(&event));
                out = vm.resume(event, RUN_FUEL);
            },
            other => return other,
        }
    }
}

fn assoc_parts(value: Node) -> (String, String, u64) {
    match value {
        Node::Assoc(entries) => {
            assert_eq!(entries.len(), 3);
            assert_eq!(entries[0].0, ":stdout");
            assert_eq!(entries[1].0, ":stderr");
            assert_eq!(entries[2].0, ":status");
            let stdout = match &entries[0].1 {
                AssocVal::Str(s) => s.clone(),
                _ => panic!("expected a string"),
            };
            let stderr = match &entries[1].1 {
                AssocVal::Str(s) => s.clone(),
                _ => panic!("expected a string"),
            };
            let status = match &entries[2].1 {
                AssocVal::Num(n) => *n,
                _ => panic!("expected a number"),
            };
            (stdout, stderr, status)
        },
        _ => panic!("expected a mapping"),
    }
}

#[test]
fn captured_echo_returns_its_output() {
    let mut vm = VM::new();
    let out = run_with_processes(&mut vm, "(call \"echo\" \"hi\")");
    match out {
        Outcome::Done { value } => {
            let (stdout, stderr, status) = assoc_parts(value);
            assert_eq!(stdout, "hi");
            assert_eq!(stderr, "");
            assert_eq!(status, 0);
        },
        _ => panic!("expected a finished run"),
    }
}

#[test]
fn captured_false_reports_status_one() {
    let mut vm = VM::new();
    let out = run_with_processes(&mut vm, "(call \"false\")");
    match out {
        Outcome::Done { value } => {
            let (_, _, status) = assoc_parts(value);
            assert_eq!(status, 1);
        },
        _ => panic!("expected a finished run"),
    }
}

#[test]
fn two_stage_pipeline_captures_only_the_final_stage() {
    let mut vm = VM::new();
    let out = run_with_processes(&mut vm, "(pipe (\"echo\" \"hello\") (\"wc\" \"-c\"))");
    match out {
        Outcome::Done { value } => {
            let (stdout, stderr, status) = assoc_parts(value);
            assert_eq!(stdout.trim(), "6");
            assert_eq!(stderr, "");
            assert_eq!(status, 0);
        },
        _ => panic!("expected a finished run"),
    }
}

#[test]
fn fallback_words_run_as_commands() {
    let mut vm = VM::new();
    let out = run_with_processes(&mut vm, "(echo \"from-fallback\")");
    match out {
        Outcome::Done { value } => {
            let (stdout, _, status) = assoc_parts(value);
            assert_eq!(stdout, "from-fallback");
            assert_eq!(status, 0);
        },
        _ => panic!("expected a finished run"),
    }
}

#[test]
fn command_output_feeds_back_into_bindings() {
    let mut vm = VM::new();
    let out = run_with_processes(&mut vm, "(defvar r (call \"echo\" \"bound\"))");
    match out {
        Outcome::Done { .. } => {},
        _ => panic!("expected a finished run"),
    }
    let id = vm.env.get_symbol(0, "R");
    match &vm.env.symbol_at(id).value {
        Some(Node::Assoc(entries)) => {
            match &entries[0].1 {
                AssocVal::Str(s) => assert_eq!(s, "bound"),
                _ => panic!("expected captured output"),
            }
        },
        _ => panic!("expected R bound to the mapping"),
    }
}
