use lish::compiler::compile_string;
use lish::object::Node;
use lish::object::node_clone;
use lish::object::node_display;
use lish::vm::Action;
use lish::vm::Event;
use lish::vm::Outcome;
use lish::vm::VM;

const FUEL: u64 = 1_000_000;

fn vm_run(vm: &mut VM, src: &str) -> Outcome {
    let prog = compile_string(src, "<test>").expect("program should parse");
    vm.run(&prog, FUEL)
}

fn global_value(vm: &mut VM, name: &str) -> Option<Node> {
    let id = vm.env.get_symbol(0, name);
    vm.env.symbol_at(id).value.as_ref().map(node_clone)
}

fn done_value(o: Outcome) -> Node {
    match o {
        Outcome::Done { value } => value,
        Outcome::Error { message } => panic!("unexpected error: {}", message),
        _ => panic!("expected a finished run"),
    }
}

fn error_message(o: Outcome) -> String {
    match o {
        Outcome::Error { message } => message,
        _ => panic!("expected an error"),
    }
}

#[test]
fn empty_program_is_nil() {
    let mut vm = VM::new();
    match vm_run(&mut vm, "") {
        Outcome::Done { value: Node::Empty } => {},
        _ => panic!("expected nil"),
    }
}

#[test]
fn defvar_binds_an_evaluated_value() {
    let mut vm = VM::new();
    let out = done_value(vm_run(&mut vm, "(defvar x 5)"));
    assert_eq!(node_display(&out), "X");
    match global_value(&mut vm, "X") {
        Some(Node::Number(5)) => {},
        _ => panic!("expected X = 5"),
    }
}

#[test]
fn defvar_copies_the_value_not_a_reference() {
    let mut vm = VM::new();
    done_value(vm_run(&mut vm, "(defvar x 5) (defvar y x)"));
    match global_value(&mut vm, "Y") {
        Some(Node::Number(5)) => {},
        _ => panic!("expected Y = 5"),
    }
    // rebinding x later leaves y untouched
    done_value(vm_run(&mut vm, "(defvar x 7)"));
    match global_value(&mut vm, "Y") {
        Some(Node::Number(5)) => {},
        _ => panic!("expected Y still 5"),
    }
    match global_value(&mut vm, "X") {
        Some(Node::Number(7)) => {},
        _ => panic!("expected X = 7"),
    }
}

#[test]
fn defvar_arity_and_type_errors() {
    let mut vm = VM::new();
    let m = error_message(vm_run(&mut vm, "(defvar x)"));
    assert_eq!(m, "defvar expected 2 args, got 1");
    let m2 = error_message(vm_run(&mut vm, "(defvar 1 2)"));
    assert_eq!(m2, "defvar expected a symbol as arg 1");
}

#[test]
fn sequencing_returns_the_last_value() {
    let mut vm = VM::new();
    let out = done_value(vm_run(&mut vm, "(defvar a 1) (prompt)"));
    match out {
        Node::Str(s) => assert_eq!(s, "lish$ "),
        _ => panic!("expected the prompt string"),
    }
}

#[test]
fn nested_calls_evaluate_inside_out() {
    let mut vm = VM::new();
    done_value(vm_run(&mut vm, "(defvar p (prompt))"));
    match global_value(&mut vm, "P") {
        Some(Node::Str(s)) => assert_eq!(s, "lish$ "),
        _ => panic!("expected P bound to the prompt"),
    }
}

#[test]
fn non_symbol_call_head_is_an_error() {
    let mut vm = VM::new();
    let m = error_message(vm_run(&mut vm, "((1) 2)"));
    assert_eq!(m, "Cannot evaluate non-symbol object");
}

#[test]
fn exit_clamps_to_255_and_defaults_to_0() {
    let mut vm = VM::new();
    match vm_run(&mut vm, "(exit 300)") {
        Outcome::Exit { status: 255 } => {},
        _ => panic!("expected a clamped exit"),
    }
    match vm_run(&mut vm, "(exit)") {
        Outcome::Exit { status: 0 } => {},
        _ => panic!("expected exit 0"),
    }
    match vm_run(&mut vm, "(exit 7)") {
        Outcome::Exit { status: 7 } => {},
        _ => panic!("expected exit 7"),
    }
    match vm_run(&mut vm, "(exit \"no\")") {
        Outcome::Exit { status: 255 } => {},
        _ => panic!("expected exit 255 for a non-number"),
    }
}

#[test]
fn pwd_reports_the_modeled_directory() {
    let mut vm = VM::new();
    vm.set_working_dir("/a/b".to_string());
    match done_value(vm_run(&mut vm, "(pwd)")) {
        Node::Str(s) => assert_eq!(s, "/a/b"),
        _ => panic!("expected the working directory"),
    }
}

#[test]
fn cd_resolves_relative_paths_and_updates_on_success() {
    let mut vm = VM::new();
    vm.set_working_dir("/a/b".to_string());
    let out = vm_run(&mut vm, "(cd \"subdir\")");
    match out {
        Outcome::Pending { action: Action::SetCwd { ref path } } => {
            assert_eq!(path, "/a/b/subdir");
        },
        _ => panic!("expected a change-directory action"),
    }
    match vm.resume(Event::CwdOk, FUEL) {
        Outcome::Done { value: Node::Empty } => {},
        _ => panic!("expected nil"),
    }
    assert_eq!(vm.cwd, "/a/b/subdir");
}

#[test]
fn cd_takes_absolute_paths_as_they_are() {
    let mut vm = VM::new();
    vm.set_working_dir("/a/b".to_string());
    match vm_run(&mut vm, "(cd \"/x/y\")") {
        Outcome::Pending { action: Action::SetCwd { ref path } } => {
            assert_eq!(path, "/x/y");
        },
        _ => panic!("expected a change-directory action"),
    }
    match vm.resume(Event::CwdOk, FUEL) {
        Outcome::Done { .. } => {},
        _ => panic!("expected success"),
    }
    assert_eq!(vm.cwd, "/x/y");
}

#[test]
fn cd_surfaces_the_os_error() {
    let mut vm = VM::new();
    match vm_run(&mut vm, "(cd \"gone\")") {
        Outcome::Pending { .. } => {},
        _ => panic!("expected a pending action"),
    }
    let m = error_message(vm.resume(Event::CwdErr { message: "No such directory".to_string() }, FUEL));
    assert_eq!(m, "No such directory");
    assert_eq!(vm.cwd, "/");
}

#[test]
fn cd_validates_its_argument() {
    let mut vm = VM::new();
    let m = error_message(vm_run(&mut vm, "(cd)"));
    assert_eq!(m, "cd expected 1 args, got 0");
    let m2 = error_message(vm_run(&mut vm, "(cd 5)"));
    assert_eq!(m2, "cd expected a string");
}

#[test]
fn call_captures_output_when_not_interactive() {
    let mut vm = VM::new();
    let out = vm_run(&mut vm, "(call \"echo\" \"hi\")");
    match out {
        Outcome::Pending { action: Action::RunCommand { ref argv, capture } } => {
            assert_eq!(argv, &vec!["echo".to_string(), "hi".to_string()]);
            assert!(capture);
        },
        _ => panic!("expected a run-command action"),
    }
    let done = vm.resume(
        Event::Output { stdout: "hi\n".to_string(), stderr: "".to_string(), status: 0 },
        FUEL,
    );
    match done_value(done) {
        Node::Assoc(entries) => {
            assert_eq!(entries.len(), 3);
            assert_eq!(entries[0].0, ":stdout");
            match &entries[0].1 {
                lish::object::AssocVal::Str(s) => assert_eq!(s, "hi"),
                _ => panic!("expected a string"),
            }
            assert_eq!(entries[1].0, ":stderr");
            assert_eq!(entries[2].0, ":status");
            match &entries[2].1 {
                lish::object::AssocVal::Num(0) => {},
                _ => panic!("expected status 0"),
            }
        },
        _ => panic!("expected a mapping"),
    }
}

#[test]
fn interactive_call_records_the_last_status() {
    let mut vm = VM::new();
    vm.set_interactive(true);
    match vm_run(&mut vm, "(call \"x\")") {
        Outcome::Pending { action: Action::RunCommand { capture, .. } } => {
            assert!(!capture);
        },
        _ => panic!("expected a run-command action"),
    }
    match vm.resume(Event::Status { status: 3 }, FUEL) {
        Outcome::Done { value: Node::Empty } => {},
        _ => panic!("expected nil"),
    }
    match global_value(&mut vm, "LAST-STATUS") {
        Some(Node::Number(3)) => {},
        _ => panic!("expected last-status 3"),
    }
}

#[test]
fn missing_command_is_reported_by_name() {
    let mut vm = VM::new();
    vm.set_interactive(true);
    match vm_run(&mut vm, "(call \"nosuch\")") {
        Outcome::Pending { .. } => {},
        _ => panic!("expected a pending action"),
    }
    let m = error_message(vm.resume(Event::NotFound, FUEL));
    assert_eq!(m, "Command not found nosuch");
    match global_value(&mut vm, "LAST-STATUS") {
        Some(Node::Number(255)) => {},
        _ => panic!("expected last-status 255"),
    }
}

#[test]
fn unknown_symbol_spawns_a_lower_cased_command() {
    let mut vm = VM::new();
    match vm_run(&mut vm, "(FOO \"bar\" baz)") {
        Outcome::Pending { action: Action::RunCommand { ref argv, capture } } => {
            assert_eq!(
                argv,
                &vec!["foo".to_string(), "bar".to_string(), "BAZ".to_string()]
            );
            assert!(capture);
        },
        _ => panic!("expected the command-not-found fallback"),
    }
}

#[test]
fn call_requires_an_argument() {
    let mut vm = VM::new();
    let m = error_message(vm_run(&mut vm, "(call)"));
    assert_eq!(m, "call expected at least 1 args, got 0");
}

#[test]
fn capc_captures_and_restores_the_flag() {
    let mut vm = VM::new();
    vm.set_interactive(true);
    match vm_run(&mut vm, "(capc \"echo\" \"x\")") {
        Outcome::Pending { action: Action::RunCommand { capture, .. } } => {
            assert!(capture, "capc must capture even in interactive mode");
        },
        _ => panic!("expected a run-command action"),
    }
    let out = vm.resume(
        Event::Output { stdout: "x\n".to_string(), stderr: "".to_string(), status: 0 },
        FUEL,
    );
    match out {
        Outcome::Done { value: Node::Assoc(_) } => {},
        _ => panic!("expected a mapping"),
    }
    assert!(vm.is_interactive(), "the interactive flag must be restored");
}

#[test]
fn capc_restores_the_flag_on_errors_too() {
    let mut vm = VM::new();
    vm.set_interactive(true);
    let m = error_message(vm_run(&mut vm, "(capc)"));
    assert_eq!(m, "call expected at least 1 args, got 0");
    assert!(vm.is_interactive(), "the flag must be restored on the error path");
}

#[test]
fn capc_restores_the_flag_to_its_previous_state() {
    // the flag goes back to what it was, not blindly to interactive
    let mut vm = VM::new();
    match vm_run(&mut vm, "(capc \"echo\")") {
        Outcome::Pending { .. } => {},
        _ => panic!("expected a run-command action"),
    }
    let _ = vm.resume(
        Event::Output { stdout: "".to_string(), stderr: "".to_string(), status: 0 },
        FUEL,
    );
    assert!(!vm.is_interactive());
}

#[test]
fn pipe_builds_every_stage_then_runs_once() {
    let mut vm = VM::new();
    let out = vm_run(&mut vm, "(pipe (\"echo\" \"hello\") (\"wc\" \"-c\"))");
    match out {
        Outcome::Pending { action: Action::RunPipeline { ref stages, capture } } => {
            assert_eq!(stages.len(), 2);
            assert_eq!(stages[0], vec!["echo".to_string(), "hello".to_string()]);
            assert_eq!(stages[1], vec!["wc".to_string(), "-c".to_string()]);
            assert!(capture);
        },
        _ => panic!("expected a pipeline action"),
    }
    let done = vm.resume(
        Event::Output { stdout: "6\n".to_string(), stderr: "".to_string(), status: 0 },
        FUEL,
    );
    match done_value(done) {
        Node::Assoc(entries) => {
            match &entries[0].1 {
                // pipeline output is not trimmed
                lish::object::AssocVal::Str(s) => assert_eq!(s, "6\n"),
                _ => panic!("expected a string"),
            }
        },
        _ => panic!("expected a mapping"),
    }
}

#[test]
fn pipe_rejects_non_list_stages() {
    let mut vm = VM::new();
    let m = error_message(vm_run(&mut vm, "(pipe 5)"));
    assert_eq!(m, "pipe args must by lists, got Number");
}

#[test]
fn export_reads_the_real_binding() {
    let mut vm = VM::new();
    vm.bind_env_var("MYVAR", "v1".to_string());
    match vm_run(&mut vm, "(export MYVAR)") {
        Outcome::Pending { action: Action::SetEnvVar { ref name, ref value } } => {
            assert_eq!(name, "MYVAR");
            assert_eq!(value, "v1");
        },
        _ => panic!("expected a set-env action"),
    }
    match vm.resume(Event::Done, FUEL) {
        Outcome::Done { value: Node::Empty } => {},
        _ => panic!("expected nil"),
    }
}

#[test]
fn export_requires_a_symbol() {
    let mut vm = VM::new();
    let m = error_message(vm_run(&mut vm, "(export 5)"));
    assert_eq!(m, "export requires a Symbol as the first argument");
}

#[test]
fn unexport_removes_by_name() {
    let mut vm = VM::new();
    match vm_run(&mut vm, "(unexport MYVAR)") {
        Outcome::Pending { action: Action::RemoveEnvVar { ref name } } => {
            assert_eq!(name, "MYVAR");
        },
        _ => panic!("expected a remove-env action"),
    }
}

#[test]
fn glob_splits_the_pattern_and_builds_a_list() {
    let mut vm = VM::new();
    match vm_run(&mut vm, "(glob \"/a/*.txt\" 2)") {
        Outcome::Pending { action: Action::Glob { ref base, ref pattern, max_depth } } => {
            assert_eq!(base, "/a");
            assert_eq!(pattern, "*.txt");
            assert_eq!(max_depth, 2);
        },
        _ => panic!("expected a glob action"),
    }
    let done = vm.resume(
        Event::GlobOk { paths: vec!["/a/1.txt".to_string(), "/a/2.txt".to_string()] },
        FUEL,
    );
    match done_value(done) {
        Node::List(l) => {
            let v = l.to_vec();
            assert_eq!(v.len(), 2);
            match &v[0] {
                Node::Str(s) => assert_eq!(s, "/a/1.txt"),
                _ => panic!("expected a path string"),
            }
        },
        _ => panic!("expected a list of paths"),
    }
}

#[test]
fn print_renders_all_arguments() {
    let mut vm = VM::new();
    match vm_run(&mut vm, "(print 1 \"a\")") {
        Outcome::Pending { action: Action::Print { ref text } } => {
            assert_eq!(text, "1 \"a\" \n");
        },
        _ => panic!("expected a print action"),
    }
    match vm.resume(Event::Done, FUEL) {
        Outcome::Done { value: Node::Empty } => {},
        _ => panic!("expected nil"),
    }
}

#[test]
fn user_definitions_bind_parameters_lexically() {
    let mut vm = VM::new();
    let out = done_value(vm_run(&mut vm, "(define id (x) x)"));
    assert_eq!(node_display(&out), "ID");
    let r = done_value(vm_run(&mut vm, "(id 41)"));
    match r {
        Node::Number(41) => {},
        _ => panic!("expected the argument back"),
    }
    // parameters shadow globals and disappear after the call
    done_value(vm_run(&mut vm, "(defvar x 9)"));
    done_value(vm_run(&mut vm, "(id 1)"));
    match global_value(&mut vm, "X") {
        Some(Node::Number(9)) => {},
        _ => panic!("expected the outer binding untouched"),
    }
}

#[test]
fn user_definition_arity_is_checked() {
    let mut vm = VM::new();
    done_value(vm_run(&mut vm, "(define id (x) x)"));
    let m = error_message(vm_run(&mut vm, "(id 1 2)"));
    assert_eq!(m, "ID expected 1 args, got 2");
}

#[test]
fn define_keeps_the_interactive_flag() {
    let mut vm = VM::new();
    vm.set_interactive(true);
    done_value(vm_run(&mut vm, "(define f () 1)"));
    assert!(vm.is_interactive());
}

#[test]
fn fuel_runs_out_and_the_run_continues() {
    let mut vm = VM::new();
    let prog = compile_string("(defvar x 5)", "<test>").expect("parses");
    let mut out = vm.run(&prog, 1);
    let mut spins = 0;
    loop {
        match out {
            Outcome::More => {
                out = vm.keep_going(1);
                spins += 1;
                assert!(spins < 1000, "the run should finish");
            },
            Outcome::Done { .. } => break,
            _ => panic!("expected the run to finish"),
        }
    }
    match global_value(&mut vm, "X") {
        Some(Node::Number(5)) => {},
        _ => panic!("expected X = 5"),
    }
}

#[test]
fn prompt_is_programmable() {
    let mut vm = VM::new();
    done_value(vm_run(&mut vm, "(define prompt () \"mine> \")"));
    match done_value(vm_run(&mut vm, "(prompt)")) {
        Node::Str(s) => assert_eq!(s, "mine> "),
        _ => panic!("expected the overridden prompt"),
    }
}

#[test]
fn unexport_requires_a_symbol() {
    let mut vm = VM::new();
    let m = error_message(vm_run(&mut vm, "(unexport 5)"));
    assert_eq!(m, "unexport requires a Symbol as the first argument");
}

#[test]
fn apply_event_records_the_status_before_the_run_goes_on() {
    let mut vm = VM::new();
    vm.set_interactive(true);
    match vm_run(&mut vm, "(call \"x\")") {
        Outcome::Pending { .. } => {},
        _ => panic!("expected a pending action"),
    }
    match vm.apply_event(Event::Status { status: 9 }) {
        Outcome::More => {},
        _ => panic!("expected a paused run"),
    }
    match global_value(&mut vm, "LAST-STATUS") {
        Some(Node::Number(9)) => {},
        _ => panic!("expected last-status 9"),
    }
    match vm.keep_going(FUEL) {
        Outcome::Done { value: Node::Empty } => {},
        _ => panic!("expected nil"),
    }
}

#[test]
fn a_literal_top_level_form_evaluates_to_itself() {
    let mut vm = VM::new();
    let prog = lish::object::ConsList::new().append(Node::Number(42));
    match vm.run(&prog, 1_000) {
        Outcome::Done { value: Node::Number(42) } => {},
        _ => panic!("expected the literal back"),
    }
}

#[test]
fn a_program_of_literals_yields_the_last_one() {
    let mut vm = VM::new();
    let prog = lish::object::ConsList::new()
        .append(Node::Str("last".to_string()))
        .append(Node::Number(1));
    // the program reads 1 then "last"; the final form's value comes back
    match vm.run(&prog, 1_000) {
        Outcome::Done { value: Node::Str(s) } => assert_eq!(s, "last"),
        _ => panic!("expected the final literal"),
    }
}
