use vstd::prelude::*;
use vstd::string::StringExecFns;
use crate::env::Env;
use crate::object::AssocVal;
use crate::object::AssocValV;
use crate::object::Builtin;
use crate::object::Callable;
use crate::object::ConsList;
use crate::object::Function;
use crate::object::Node;
use crate::object::NodeV;
use crate::object::Program;
use crate::object::Symbol;
use crate::object::cons_clone;
use crate::object::node_arg_string;
use crate::object::node_clone;
use crate::object::node_display;
use crate::strutil::trim_spec;
use crate::strutil::trim_string;
use crate::strutil::u64_to_dec;

verus! {

// ---------------------------------------------------------------------------
// Actions and events
// ---------------------------------------------------------------------------
/// Work the evaluator asks its embedder to do.  The machine suspends with
/// one action and is resumed with the matching [`Event`].
pub enum Action {
    /// Run one external command; capture its output instead of inheriting
    /// the terminal when `capture` holds.
    RunCommand { argv: Vec<String>, capture: bool },
    /// Run a multi-stage pipeline, each stage one argument vector.
    RunPipeline { stages: Vec<Vec<String>>, capture: bool },
    /// Change the process working directory.
    SetCwd { path: String },
    /// Write a process environment variable.
    SetEnvVar { name: String, value: String },
    /// Remove a process environment variable.
    RemoveEnvVar { name: String },
    /// Walk the filesystem from `base` for paths matching `pattern`.
    Glob { base: String, pattern: String, max_depth: u64 },
    /// Write text to standard output.
    Print { text: String },
}

/// What came back from the embedder for the pending action.
pub enum Event {
    /// An inherited-terminal command or pipeline finished with this status.
    Status { status: u64 },
    /// The command could not be spawned because it does not exist.
    NotFound,
    /// The command or pipeline could not be run for another reason.
    SpawnFailed { message: String },
    /// A captured command or pipeline finished.
    Output { stdout: String, stderr: String, status: u64 },
    /// The working directory was changed.
    CwdOk,
    /// The working directory could not be changed.
    CwdErr { message: String },
    /// The glob walk produced these paths.
    GlobOk { paths: Vec<String> },
    /// The glob pattern or walk failed.
    GlobErr { message: String },
    /// An action with no interesting result finished.
    Done,
}

/// How a run of the machine pauses or ends.
pub enum Outcome {
    /// The program finished with this value.
    Done { value: Node },
    /// The program asked the whole process to end with this status.
    Exit { status: u8 },
    /// Evaluation failed; the run is over.
    Error { message: String },
    /// The machine needs the embedder to perform this action and hand the
    /// event back through `resume`.
    Pending { action: Action },
    /// The fuel ran out; call `keep_going` to continue.
    More,
}

/// What evaluated arguments are collected for.
enum ArgsK {
    /// The `call` builtin: the first value names the program.
    Call,
    /// The command-not-found fallback: the program is already known.
    CallNamed { program: String },
    /// The `print` builtin.
    Print,
    /// The `cd` builtin.
    Cd,
    /// The `exit` builtin.
    Exit,
    /// The `glob` builtin.
    Glob,
    /// Applying a user-defined callable.
    Apply { name: String, f: Function },
}

/// One suspended piece of evaluation on the machine's stack.
#[allow(inconsistent_fields)]
enum Frame {
    /// Evaluate the remaining forms in order; the value of the last one is
    /// the value of the sequence.
    Sequence { rest: ConsList },
    /// Restore the current scope after a callable's body.
    Restore { scope: usize },
    /// Restore the interactive flag, whatever happened inside.
    RestoreInteractive { prev: bool },
    /// Evaluate the remaining argument forms, then finish `k`.
    Args { rest: ConsList, done: Vec<Node>, k: ArgsK },
    /// Bind the coming value to the named symbol's cell.
    DefvarBind { name: String },
    /// Evaluate the remaining pipeline stages.
    Stages { rest: ConsList, done: Vec<Vec<String>>, cur_rest: ConsList, cur_done: Vec<String> },
}

/// Which action the machine is waiting on.
enum Pend {
    Call { program: String },
    Pipe,
    Cd { path: String },
    Glob,
    Simple,
}

/// What the machine is about to do.
enum Ctrl {
    Idle,
    Eval(Node),
    Value(Node),
}

/// A step either goes on inside the machine or surfaces an outcome.
enum Step {
    Continue,
    Out(Outcome),
}

// ---------------------------------------------------------------------------
// Small verified pieces of builtin behavior
// ---------------------------------------------------------------------------
/// The process exit status `(exit ...)` asks for: no argument is status 0, a
/// number in range is itself, anything else is clamped to 255.  Statuses are
/// unsigned: the surface syntax has no negative literals, and every
/// non-number argument already falls into the clamp.
pub fn exit_status_of(arg: Option<&Node>) -> (r: u8)
    ensures
        match arg {
            Option::None => r == 0,
            Option::Some(n) => match n@ {
                NodeV::Number(v) => if v <= 255 {
                    r == v
                } else {
                    r == 255
                },
                _ => r == 255,
            },
        },
{
    match arg {
        Option::None => 0,
        Option::Some(n) => match n {
            Node::Number(v) => if *v <= 255 {
                *v as u8
            } else {
                255
            },
            _ => 255,
        },
    }
}

/// The mapping a captured run turns into: exactly the keys `:stdout`,
/// `:stderr` and `:status`, in that order; the two streams are trimmed when
/// `trim` holds.
pub open spec fn capture_view(stdout: Seq<char>, stderr: Seq<char>, status: u64, trim: bool) -> NodeV {
    NodeV::Assoc(
        seq![
            (":stdout"@, AssocValV::Str(if trim {
                trim_spec(stdout)
            } else {
                stdout
            })),
            (":stderr"@, AssocValV::Str(if trim {
                trim_spec(stderr)
            } else {
                stderr
            })),
            (":status"@, AssocValV::Num(status)),
        ],
    )
}

/// Builds the result mapping of a captured run.
pub fn capture_assoc(stdout: String, stderr: String, status: u64, trim: bool) -> (r: Node)
    ensures
        r@ == capture_view(stdout@, stderr@, status, trim),
{
    let so = if trim {
        trim_string(&stdout)
    } else {
        stdout
    };
    let se = if trim {
        trim_string(&stderr)
    } else {
        stderr
    };
    let mut entries: Vec<(String, AssocVal)> = Vec::new();
    let k1 = String::from_str(":stdout");
    let k2 = String::from_str(":stderr");
    let k3 = String::from_str(":status");
    entries.push((k1, AssocVal::Str(so)));
    entries.push((k2, AssocVal::Str(se)));
    entries.push((k3, AssocVal::Num(status)));
    let r = Node::Assoc(entries);
    proof {
        let m = r->Assoc_0@.map_values(
            |p: (String, AssocVal)| (p.0@, crate::object::assoc_val_view(p.1)),
        );
        assert(m =~= seq![
            (":stdout"@, AssocValV::Str(if trim {
                trim_spec(stdout@)
            } else {
                stdout@
            })),
            (":stderr"@, AssocValV::Str(if trim {
                trim_spec(stderr@)
            } else {
                stderr@
            })),
            (":status"@, AssocValV::Num(status)),
        ]);
    }
    r
}

// ---------------------------------------------------------------------------
// The machine
// ---------------------------------------------------------------------------
/// The interactive flag after every stacked restore frame has run, from the
/// top of the stack down: the bottom-most restore decides.
spec fn flag_after_unwind(stack: Seq<Frame>, cur: bool) -> bool
    decreases stack.len(),
{
    if stack.len() == 0 {
        cur
    } else {
        match stack[0] {
            Frame::RestoreInteractive { prev } => prev,
            _ => flag_after_unwind(stack.skip(1), cur),
        }
    }
}

proof fn lemma_flag_after_pop(stack: Seq<Frame>, f: Frame, cur: bool)
    ensures
        flag_after_unwind(stack.push(f), cur) == (match f {
            Frame::RestoreInteractive { prev } => flag_after_unwind(stack, prev),
            _ => flag_after_unwind(stack, cur),
        }),
    decreases stack.len(),
{
    if stack.len() == 0 {
        assert(stack.push(f)[0] == f);
        assert(stack.push(f).skip(1) =~= Seq::<Frame>::empty());
        match f {
            Frame::RestoreInteractive { prev } => {
                assert(flag_after_unwind(stack.push(f), cur) == prev);
                assert(flag_after_unwind(stack, prev) == prev);
            },
            _ => {
                assert(flag_after_unwind(stack.push(f), cur) == flag_after_unwind(
                    stack.push(f).skip(1),
                    cur,
                ));
                assert(flag_after_unwind(Seq::<Frame>::empty(), cur) == cur);
                assert(flag_after_unwind(stack, cur) == cur);
            },
        }
    } else {
        assert(stack.push(f)[0] == stack[0]);
        assert(stack.push(f).skip(1) =~= stack.skip(1).push(f));
        lemma_flag_after_pop(stack.skip(1), f, cur);
        match f {
            Frame::RestoreInteractive { prev } => {
                if stack[0] is RestoreInteractive {
                    assert(flag_after_unwind(stack.push(f), cur) == flag_after_unwind(
                        stack,
                        prev,
                    ));
                } else {
                    assert(flag_after_unwind(stack.push(f), cur) == flag_after_unwind(
                        stack.skip(1).push(f),
                        cur,
                    ));
                    assert(flag_after_unwind(stack.skip(1).push(f), cur) == flag_after_unwind(
                        stack.skip(1),
                        prev,
                    ));
                    assert(flag_after_unwind(stack, prev) == flag_after_unwind(
                        stack.skip(1),
                        prev,
                    ));
                }
            },
            _ => {
                if stack[0] is RestoreInteractive {
                } else {
                    assert(flag_after_unwind(stack.push(f), cur) == flag_after_unwind(
                        stack.skip(1).push(f),
                        cur,
                    ));
                    assert(flag_after_unwind(stack.skip(1).push(f), cur) == flag_after_unwind(
                        stack.skip(1),
                        cur,
                    ));
                    assert(flag_after_unwind(stack, cur) == flag_after_unwind(
                        stack.skip(1),
                        cur,
                    ));
                }
            },
        }
    }
}

/// The tree-walking evaluator: the environment, the shell-visible state it
/// models (working directory, interactive flag), and the machine state of a
/// run in progress.
pub struct VM {
    pub env: Env,
    pub cur_scope: usize,
    pub interactive: bool,
    pub cwd: String,
    stack: Vec<Frame>,
    ctrl: Ctrl,
    pending: Option<Pend>,
}

/// The home directory the environment knows from the given scope: the
/// string value the name `HOME` resolves to, or the empty string.
pub open spec fn home_view(env: Env, scope: int) -> Seq<char> {
    match env.lookup(scope, "HOME"@) {
        Option::Some(id) => (match env.syms@[id as int].value {
            Option::Some(Node::Str(h)) => h@,
            _ => Seq::<char>::empty(),
        }),
        Option::None => Seq::<char>::empty(),
    }
}

/// Whether the step surfaces an error with exactly this message.
spec fn is_error_step(r: Step, message: Seq<char>) -> bool {
    match r {
        Step::Out(Outcome::Error { message: m }) => m@ == message,
        _ => false,
    }
}

/// Whether a suspended state and the action surfaced with it belong
/// together: the pending command remembers the surfaced program, the pending
/// directory change remembers the surfaced target.
spec fn pend_matches_action(p: Pend, a: Action) -> bool {
    match p {
        Pend::Call { program } => (match a {
            Action::RunCommand { argv, .. } => argv@.len() >= 1 && argv@[0]@ == program@,
            _ => false,
        }),
        Pend::Pipe => a is RunPipeline,
        Pend::Cd { path } => (match a {
            Action::SetCwd { path: target } => target@ == path@,
            _ => false,
        }),
        Pend::Glob => a is Glob,
        Pend::Simple => (a is SetEnvVar) || (a is RemoveEnvVar) || (a is Print),
    }
}

/// Whether every form is a self-evaluating literal: not a symbol and not a
/// call form.
pub open spec fn all_literals(forms: Seq<NodeV>) -> bool {
    forall|i: int| 0 <= i < forms.len() ==> !(((#[trigger] forms[i]) is Symbol) || (forms[i]
        is List))
}

/// The forms a fresh run is about to evaluate: the one under evaluation in
/// front of the sequence frame's rest.
spec fn entry_forms(vm: VM) -> Option<Seq<NodeV>> {
    match vm.ctrl {
        Ctrl::Eval(n) => if vm.stack@.len() == 1 {
            match vm.stack@[0] {
                Frame::Sequence { rest } => Option::Some(seq![n@] + rest@),
                _ => Option::None,
            }
        } else {
            Option::None
        },
        _ => Option::None,
    }
}

/// The machine is about to evaluate form `k`, the later forms waiting in
/// the sequence frame.
spec fn lit_eval_cfg(vm: VM, forms: Seq<NodeV>, k: int) -> bool {
    &&& 0 <= k < forms.len()
    &&& (match vm.ctrl {
        Ctrl::Eval(n) => n@ == forms[k],
        _ => false,
    })
    &&& vm.stack@.len() == 1
    &&& (match vm.stack@[0] {
        Frame::Sequence { rest } => rest@ == forms.skip(k + 1),
        _ => false,
    })
}

/// Form `k` is evaluated and its value is about to meet the sequence frame.
spec fn lit_val_cfg(vm: VM, forms: Seq<NodeV>, k: int) -> bool {
    &&& 0 <= k < forms.len()
    &&& (match vm.ctrl {
        Ctrl::Value(v) => v@ == forms[k],
        _ => false,
    })
    &&& vm.stack@.len() == 1
    &&& (match vm.stack@[0] {
        Frame::Sequence { rest } => rest@ == forms.skip(k + 1),
        _ => false,
    })
}

/// The last form's value is about to surface as the run's result.
spec fn lit_done_cfg(vm: VM, forms: Seq<NodeV>) -> bool {
    &&& forms.len() >= 1
    &&& (match vm.ctrl {
        Ctrl::Value(v) => v@ == forms.last(),
        _ => false,
    })
    &&& vm.stack@.len() == 0
}

/// The run invariant of an all-literal program: the machine is working
/// through the forms in order with enough fuel left to finish.
spec fn lit_run_inv(vm: VM, forms: Seq<NodeV>, f: u64) -> bool {
    ||| exists|k: int|
        #[trigger] lit_eval_cfg(vm, forms, k) && f >= 2 * (forms.len() - k) + 1
    ||| exists|k: int| #[trigger] lit_val_cfg(vm, forms, k) && f >= 2 * (forms.len() - k)
    ||| (lit_done_cfg(vm, forms) && f >= 1)
}

spec fn frame_wf(f: Frame, nscopes: int) -> bool {
    match f {
        Frame::Restore { scope } => (scope as int) < nscopes,
        _ => true,
    }
}

impl VM {
    /// The machine's state is consistent: the environment is well formed,
    /// the current scope and every stacked scope exist.
    pub closed spec fn wf(&self) -> bool {
        &&& self.env.wf()
        &&& (self.cur_scope as int) < self.env.scopes@.len()
        &&& forall|i: int|
            0 <= i < self.stack@.len() ==> frame_wf(#[trigger] self.stack@[i], self.env.scopes@.len() as int)
    }

    /// The interactive flag, as specifications see it.
    pub closed spec fn interactive_flag(&self) -> bool {
        self.interactive
    }

    /// The modeled working directory, as specifications see it.
    pub closed spec fn working_dir(&self) -> Seq<char> {
        self.cwd@
    }

    /// The environment, as specifications see it.
    pub closed spec fn env_state(&self) -> Env {
        self.env
    }

    /// The scope evaluation happens in, as specifications see it.
    pub closed spec fn scope_now(&self) -> int {
        self.cur_scope as int
    }

    /// No run is in progress.
    pub closed spec fn idle(&self) -> bool {
        self.stack@.len() == 0 && (self.ctrl is Idle) && self.pending is None
    }

    /// A run is suspended on an action and waits for its event.
    pub closed spec fn awaiting(&self) -> bool {
        (self.ctrl is Idle) && self.pending is Some
    }

    /// A run is in progress and ran out of fuel.
    pub closed spec fn paused(&self) -> bool {
        !(self.ctrl is Idle) && self.pending is None
    }

    /// Whether the given event answers the pending action.
    pub closed spec fn expects_spec(&self, e: Event) -> bool {
        match self.pending {
            Option::Some(p) => match p {
                Pend::Call { .. } => (e is Status) || (e is NotFound) || (e is SpawnFailed) || (
                e is Output),
                Pend::Pipe => (e is Status) || (e is SpawnFailed) || (e is Output),
                Pend::Cd { .. } => (e is CwdOk) || (e is CwdErr),
                Pend::Glob => (e is GlobOk) || (e is GlobErr),
                Pend::Simple => e is Done,
            },
            Option::None => false,
        }
    }

    /// Whether the given event answers the pending action, decided at run
    /// time; an embedder checks this before calling `resume`.
    pub fn expects(&self, e: &Event) -> (r: bool)
        ensures
            r == self.expects_spec(*e),
    {
        match &self.pending {
            Option::Some(p) => match p {
                Pend::Call { .. } => matches!(
                    e,
                    Event::Status { .. } | Event::NotFound | Event::SpawnFailed { .. }
                        | Event::Output { .. }
                ),
                Pend::Pipe => matches!(
                    e,
                    Event::Status { .. } | Event::SpawnFailed { .. } | Event::Output { .. }
                ),
                Pend::Cd { .. } => matches!(e, Event::CwdOk | Event::CwdErr { .. }),
                Pend::Glob => matches!(e, Event::GlobOk { .. } | Event::GlobErr { .. }),
                Pend::Simple => matches!(e, Event::Done),
            },
            Option::None => false,
        }
    }

    /// The program name of the pending command action, when a command is
    /// pending.
    pub closed spec fn pending_call_program(&self) -> Option<Seq<char>> {
        match self.pending {
            Option::Some(Pend::Call { program }) => Option::Some(program@),
            _ => Option::None,
        }
    }

    /// The target of the pending change-directory action, when one is
    /// pending.
    pub closed spec fn pending_cd_path(&self) -> Option<Seq<char>> {
        match self.pending {
            Option::Some(Pend::Cd { path }) => Option::Some(path@),
            _ => Option::None,
        }
    }

    /// Whether a pipeline action is pending.
    pub closed spec fn pending_is_pipe(&self) -> bool {
        self.pending matches Option::Some(Pend::Pipe)
    }

    /// The value about to be handed back to the suspended computation, when
    /// the machine is paused on one.
    pub closed spec fn control_value(&self) -> Option<NodeV> {
        match self.ctrl {
            Ctrl::Value(v) => Option::Some(crate::object::node_view(v)),
            _ => Option::None,
        }
    }

    /// How a surfaced outcome and the machine's state fit together: a final
    /// outcome leaves the machine idle, a pending one leaves it awaiting
    /// exactly the kind of event that answers the surfaced action, and
    /// more-fuel leaves it paused.
    pub closed spec fn outcome_state(&self, o: Outcome) -> bool {
        match o {
            Outcome::Done { .. } => self.idle(),
            Outcome::Exit { .. } => self.idle(),
            Outcome::Error { .. } => self.idle(),
            Outcome::Pending { action } => self.awaiting() && (match self.pending {
                Option::Some(p) => pend_matches_action(p, action),
                Option::None => false,
            }),
            Outcome::More => self.paused(),
        }
    }

    /// What each outcome says about the machine: a final outcome leaves it
    /// idle and ready for a fresh run, a pending action leaves it awaiting
    /// the matching event, and running out of fuel leaves it paused.
    pub proof fn lemma_outcome_states(&self, o: Outcome)
        requires
            self.outcome_state(o),
        ensures
            (o is Pending) ==> self.awaiting(),
            ((o is Done) || (o is Error) || (o is Exit)) ==> self.idle(),
            (o is More) ==> self.paused(),
    {
    }

    spec fn stepped(&self, r: Step) -> bool {
        match r {
            Step::Continue => !(self.ctrl is Idle) && self.pending is None,
            Step::Out(o) => self.outcome_state(o),
        }
    }

    /// A fresh evaluator: the shell builtins are registered in the global
    /// frame, the last process status is 0, the interactive flag is off and
    /// the modeled working directory is the root.
    pub fn new() -> (r: VM)
        ensures
            r.wf(),
            r.idle(),
            r.scope_now() == 0,
            r.interactive_flag() == false,
            r.working_dir() == "/"@,
            has_builtin(r.env_state(), "DEFVAR"@, Builtin::Defvar),
            has_builtin(r.env_state(), "PRINT"@, Builtin::Print),
            has_builtin(r.env_state(), "_DEFINE"@, Builtin::DefineInner),
            has_builtin(r.env_state(), "DEFINE"@, Builtin::Define),
            has_builtin(r.env_state(), "EXIT"@, Builtin::Exit),
            has_builtin(r.env_state(), "PWD"@, Builtin::Pwd),
            has_builtin(r.env_state(), "CD"@, Builtin::Cd),
            has_builtin(r.env_state(), "CAPC"@, Builtin::Capc),
            has_builtin(r.env_state(), "CALL"@, Builtin::Call),
            has_builtin(r.env_state(), "PIPE"@, Builtin::Pipe),
            has_builtin(r.env_state(), "|"@, Builtin::Pipe),
            has_builtin(r.env_state(), "EXPORT"@, Builtin::Export),
            has_builtin(r.env_state(), "UNEXPORT"@, Builtin::Unexport),
            has_builtin(r.env_state(), "PROMPT"@, Builtin::Prompt),
            has_builtin(r.env_state(), "GLOB"@, Builtin::Glob),
            has_global_value(r.env_state(), "LAST-STATUS"@, NodeV::Number(0)),
    {
        proof {
            lemma_names_distinct();
        }
        let mut env = Env::new();
        register_builtin(&mut env, "DEFVAR", Builtin::Defvar);
        register_builtin(&mut env, "PRINT", Builtin::Print);
        register_builtin(&mut env, "_DEFINE", Builtin::DefineInner);
        // each proof block restates the bindings made so far, so that the
        // preservation facts need only be chained a few steps at a time
        proof {
            assert(has_builtin(env, "DEFVAR"@, Builtin::Defvar));
            assert(has_builtin(env, "PRINT"@, Builtin::Print));
            assert(has_builtin(env, "_DEFINE"@, Builtin::DefineInner));
        }
        register_builtin(&mut env, "DEFINE", Builtin::Define);
        register_builtin(&mut env, "EXIT", Builtin::Exit);
        register_builtin(&mut env, "PWD", Builtin::Pwd);
        proof {
            assert(has_builtin(env, "DEFVAR"@, Builtin::Defvar));
            assert(has_builtin(env, "PRINT"@, Builtin::Print));
            assert(has_builtin(env, "_DEFINE"@, Builtin::DefineInner));
            assert(has_builtin(env, "DEFINE"@, Builtin::Define));
            assert(has_builtin(env, "EXIT"@, Builtin::Exit));
            assert(has_builtin(env, "PWD"@, Builtin::Pwd));
        }
        register_builtin(&mut env, "CD", Builtin::Cd);
        register_builtin(&mut env, "CAPC", Builtin::Capc);
        register_builtin(&mut env, "CALL", Builtin::Call);
        proof {
            assert(has_builtin(env, "DEFVAR"@, Builtin::Defvar));
            assert(has_builtin(env, "PRINT"@, Builtin::Print));
            assert(has_builtin(env, "_DEFINE"@, Builtin::DefineInner));
            assert(has_builtin(env, "DEFINE"@, Builtin::Define));
            assert(has_builtin(env, "EXIT"@, Builtin::Exit));
            assert(has_builtin(env, "PWD"@, Builtin::Pwd));
            assert(has_builtin(env, "CD"@, Builtin::Cd));
            assert(has_builtin(env, "CAPC"@, Builtin::Capc));
            assert(has_builtin(env, "CALL"@, Builtin::Call));
        }
        register_builtin(&mut env, "PIPE", Builtin::Pipe);
        register_builtin(&mut env, "|", Builtin::Pipe);
        register_builtin(&mut env, "EXPORT", Builtin::Export);
        proof {
            assert(has_builtin(env, "DEFVAR"@, Builtin::Defvar));
            assert(has_builtin(env, "PRINT"@, Builtin::Print));
            assert(has_builtin(env, "_DEFINE"@, Builtin::DefineInner));
            assert(has_builtin(env, "DEFINE"@, Builtin::Define));
            assert(has_builtin(env, "EXIT"@, Builtin::Exit));
            assert(has_builtin(env, "PWD"@, Builtin::Pwd));
            assert(has_builtin(env, "CD"@, Builtin::Cd));
            assert(has_builtin(env, "CAPC"@, Builtin::Capc));
            assert(has_builtin(env, "CALL"@, Builtin::Call));
            assert(has_builtin(env, "PIPE"@, Builtin::Pipe));
            assert(has_builtin(env, "|"@, Builtin::Pipe));
            assert(has_builtin(env, "EXPORT"@, Builtin::Export));
        }
        register_builtin(&mut env, "UNEXPORT", Builtin::Unexport);
        register_builtin(&mut env, "PROMPT", Builtin::Prompt);
        register_builtin(&mut env, "GLOB", Builtin::Glob);
        register_global_value(&mut env, "LAST-STATUS", Node::Number(0));
        VM {
            env,
            cur_scope: 0,
            interactive: false,
            cwd: String::from_str("/"),
            stack: Vec::new(),
            ctrl: Ctrl::Idle,
            pending: Option::None,
        }
    }

    /// Turns the interactive flag on or off.
    pub fn set_interactive(&mut self, i: bool)
        requires
            old(self).wf(),
        ensures
            final(self).wf(),
            final(self).interactive_flag() == i,
            final(self).env_state() == old(self).env_state(),
            final(self).working_dir() == old(self).working_dir(),
            final(self).idle() == old(self).idle(),
    {
        self.interactive = i;
    }

    /// Whether the shell runs interactively.
    pub fn is_interactive(&self) -> (r: bool)
        ensures
            r == self.interactive_flag(),
    {
        self.interactive
    }

    /// Sets the modeled working directory; the embedder keeps it equal to
    /// the process working directory.
    pub fn set_working_dir(&mut self, cwd: String)
        requires
            old(self).wf(),
        ensures
            final(self).wf(),
            final(self).working_dir() == cwd@,
            final(self).idle() == old(self).idle(),
    {
        self.cwd = cwd;
    }

    /// Binds a global string-valued symbol, as done for every inherited
    /// environment variable at setup.
    pub fn bind_env_var(&mut self, key: &str, value: String)
        requires
            old(self).wf(),
        ensures
            final(self).wf(),
            final(self).idle() == old(self).idle(),
            final(self).scope_now() == old(self).scope_now(),
            final(self).interactive_flag() == old(self).interactive_flag(),
            final(self).working_dir() == old(self).working_dir(),
            has_global_value(
                final(self).env_state(),
                crate::strutil::upper_seq(key@),
                NodeV::Str(value@),
            ),
            forall|n: Seq<char>, bb: Builtin|
                n != crate::strutil::upper_seq(key@) && #[trigger] has_builtin(
                    old(self).env_state(),
                    n,
                    bb,
                ) ==> has_builtin(final(self).env_state(), n, bb),
            forall|n: Seq<char>, vv: NodeV|
                n != crate::strutil::upper_seq(key@) && #[trigger] has_global_value(
                    old(self).env_state(),
                    n,
                    vv,
                ) ==> has_global_value(final(self).env_state(), n, vv),
    {
        let upper = crate::strutil::to_upper_ascii(key);
        register_global_value(&mut self.env, upper.as_str(), Node::Str(value));
    }

    /// Places a symbol cell in the global frame, binding its name to it;
    /// every other global binding stays as it was.
    pub fn add_symbol(&mut self, sym: Symbol)
        requires
            old(self).wf(),
        ensures
            final(self).wf(),
            final(self).idle() == old(self).idle(),
            final(self).scope_now() == old(self).scope_now(),
            has_global_cell(final(self).env_state(), sym.name@, sym@),
            forall|n: Seq<char>, bb: Builtin|
                n != sym.name@ && #[trigger] has_builtin(old(self).env_state(), n, bb)
                    ==> has_builtin(final(self).env_state(), n, bb),
            forall|n: Seq<char>, vv: NodeV|
                n != sym.name@ && #[trigger] has_global_value(old(self).env_state(), n, vv)
                    ==> has_global_value(final(self).env_state(), n, vv),
            forall|n: Seq<char>, c: crate::object::SymbolV|
                n != sym.name@ && #[trigger] has_global_cell(old(self).env_state(), n, c)
                    ==> has_global_cell(final(self).env_state(), n, c),
    {
        set_global_cell(&mut self.env, sym);
    }

    /// Starts evaluating a program: each top-level form in order, the value
    /// of the last form the result.  The run goes on until it finishes, an
    /// action is needed, or the fuel runs out.
    pub fn run(&mut self, program: &Program, fuel: u64) -> (r: Outcome)
        requires
            old(self).wf(),
            old(self).idle(),
        ensures
            final(self).wf(),
            final(self).outcome_state(r),
            program@.len() == 0 ==> (match r {
                Outcome::Done { value } => value@ == NodeV::Empty && *final(self) == *old(self),
                _ => false,
            }),
            (program@.len() >= 1 && all_literals(program@) && fuel >= 2 * program@.len() + 1)
                ==> (match r {
                Outcome::Done { value } => value@ == program@.last(),
                _ => false,
            }),
    {
        match program.head() {
            Option::None => {
                return Outcome::Done { value: Node::Empty };
            },
            Option::Some(h) => {
                let first = node_clone(h);
                self.stack.push(Frame::Sequence { rest: program.tail() });
                self.ctrl = Ctrl::Eval(first);
                proof {
                    assert(self.stack@.len() == 1);
                    match self.stack@[0] {
                        Frame::Sequence { rest } => {
                            assert(seq![crate::object::node_view(first)] + rest@ =~= program@);
                        },
                        _ => {
                            assert(false);
                        },
                    }
                    assert(entry_forms(*self) == Option::Some(program@));
                }
            },
        }
        self.step_loop(fuel)
    }

    /// Hands the event for the pending action back and lets the run go on:
    /// `apply_event`, whose contract fixes each event's exact effect,
    /// followed by further stepping.
    pub fn resume(&mut self, event: Event, fuel: u64) -> (r: Outcome)
        requires
            old(self).wf(),
            old(self).awaiting(),
            old(self).expects_spec(event),
        ensures
            final(self).wf(),
            final(self).outcome_state(r),
    {
        let first = self.apply_event(event);
        match first {
            Outcome::More => self.step_loop(fuel),
            other => other,
        }
    }

    /// Applies the event for the pending action, and nothing more: the run
    /// stays paused so that each event's effect is fixed exactly.
    ///
    /// A finished command or pipeline records its status in `last-status`;
    /// captured output becomes the result mapping, trimmed for a single
    /// command and untrimmed for a pipeline; a successful directory change
    /// makes the pending target the working directory; glob results become
    /// the list of their paths; a missing command names itself in the error
    /// and records status 255.
    pub fn apply_event(&mut self, event: Event) -> (r: Outcome)
        requires
            old(self).wf(),
            old(self).awaiting(),
            old(self).expects_spec(event),
        ensures
            final(self).wf(),
            final(self).outcome_state(r),
            match event {
                Event::Status { status } => {
                    &&& r is More
                    &&& final(self).control_value() == Option::Some(NodeV::Empty)
                    &&& has_global_value(
                        final(self).env_state(),
                        "LAST-STATUS"@,
                        NodeV::Number(status),
                    )
                    &&& final(self).working_dir() == old(self).working_dir()
                },
                Event::NotFound => {
                    &&& has_global_value(
                        final(self).env_state(),
                        "LAST-STATUS"@,
                        NodeV::Number(255),
                    )
                    &&& (match r {
                        Outcome::Error { message } => (match old(self).pending_call_program() {
                            Option::Some(p) => message@ == "Command not found "@ + p,
                            Option::None => false,
                        }),
                        _ => false,
                    })
                },
                Event::SpawnFailed { message } => {
                    &&& r == (Outcome::Error { message })
                    &&& has_global_value(
                        final(self).env_state(),
                        "LAST-STATUS"@,
                        NodeV::Number(255),
                    )
                },
                Event::Output { stdout, stderr, status } => {
                    &&& r is More
                    &&& final(self).control_value() == Option::Some(
                        capture_view(
                            stdout@,
                            stderr@,
                            status,
                            old(self).pending_call_program() is Some,
                        ),
                    )
                    &&& final(self).env_state() == old(self).env_state()
                    &&& final(self).working_dir() == old(self).working_dir()
                },
                Event::CwdOk => {
                    &&& r is More
                    &&& final(self).control_value() == Option::Some(NodeV::Empty)
                    &&& (match old(self).pending_cd_path() {
                        Option::Some(p) => final(self).working_dir() == p,
                        Option::None => false,
                    })
                    &&& final(self).env_state() == old(self).env_state()
                },
                Event::CwdErr { message } => {
                    &&& r == (Outcome::Error { message })
                    &&& final(self).working_dir() == old(self).working_dir()
                    &&& final(self).env_state() == old(self).env_state()
                },
                Event::GlobOk { paths } => {
                    &&& r is More
                    &&& final(self).control_value() == Option::Some(
                        NodeV::List(paths@.map_values(|s: String| NodeV::Str(s@))),
                    )
                    &&& final(self).env_state() == old(self).env_state()
                    &&& final(self).working_dir() == old(self).working_dir()
                },
                Event::GlobErr { message } => {
                    &&& r == (Outcome::Error { message })
                    &&& final(self).env_state() == old(self).env_state()
                },
                Event::Done => {
                    &&& r is More
                    &&& final(self).control_value() == Option::Some(NodeV::Empty)
                    &&& final(self).env_state() == old(self).env_state()
                    &&& final(self).working_dir() == old(self).working_dir()
                },
            },
    {
        let mut pend_opt: Option<Pend> = Option::None;
        core::mem::swap(&mut pend_opt, &mut self.pending);
        let pend = match pend_opt {
            Option::Some(p) => p,
            Option::None => {
                proof {
                    assert(false);
                }
                Pend::Simple
            },
        };
        let step = match pend {
            Pend::Call { program } => match event {
                Event::Status { status } => {
                    self.set_last_status(status);
                    self.ctrl = Ctrl::Value(Node::Empty);
                    Step::Continue
                },
                Event::NotFound => {
                    self.set_last_status(255);
                    let mut m = String::from_str("Command not found ");
                    m.append(program.as_str());
                    Step::Out(self.fail(m))
                },
                Event::SpawnFailed { message } => {
                    self.set_last_status(255);
                    Step::Out(self.fail(message))
                },
                Event::Output { stdout, stderr, status } => {
                    self.ctrl = Ctrl::Value(capture_assoc(stdout, stderr, status, true));
                    Step::Continue
                },
                _ => {
                    proof {
                        assert(false);
                    }
                    Step::Continue
                },
            },
            Pend::Pipe => match event {
                Event::Status { status } => {
                    self.set_last_status(status);
                    self.ctrl = Ctrl::Value(Node::Empty);
                    Step::Continue
                },
                Event::SpawnFailed { message } => {
                    self.set_last_status(255);
                    Step::Out(self.fail(message))
                },
                Event::Output { stdout, stderr, status } => {
                    self.ctrl = Ctrl::Value(capture_assoc(stdout, stderr, status, false));
                    Step::Continue
                },
                _ => {
                    proof {
                        assert(false);
                    }
                    Step::Continue
                },
            },
            Pend::Cd { path } => match event {
                Event::CwdOk => {
                    self.cwd = path;
                    self.ctrl = Ctrl::Value(Node::Empty);
                    Step::Continue
                },
                Event::CwdErr { message } => Step::Out(self.fail(message)),
                _ => {
                    proof {
                        assert(false);
                    }
                    Step::Continue
                },
            },
            Pend::Glob => match event {
                Event::GlobOk { paths } => {
                    let mut nodes: Vec<Node> = Vec::new();
                    let mut i: usize = 0;
                    while i < paths.len()
                        invariant
                            i <= paths@.len(),
                            nodes@.len() == i,
                            forall|j: int|
                                0 <= j < i ==> #[trigger] nodes@[j]@ == NodeV::Str(paths@[j]@),
                        decreases paths@.len() - i,
                    {
                        nodes.push(Node::Str(paths[i].clone()));
                        i = i + 1;
                    }
                    let l = ConsList::from_vec(&nodes);
                    proof {
                        assert(l@ =~= paths@.map_values(|s: String| NodeV::Str(s@)));
                    }
                    self.ctrl = Ctrl::Value(Node::List(l));
                    Step::Continue
                },
                Event::GlobErr { message } => Step::Out(self.fail(message)),
                _ => {
                    proof {
                        assert(false);
                    }
                    Step::Continue
                },
            },
            Pend::Simple => match event {
                Event::Done => {
                    self.ctrl = Ctrl::Value(Node::Empty);
                    Step::Continue
                },
                _ => {
                    proof {
                        assert(false);
                    }
                    Step::Continue
                },
            },
        };
        match step {
            Step::Continue => Outcome::More,
            Step::Out(o) => o,
        }
    }

    /// Continues a run whose fuel ran out.
    pub fn keep_going(&mut self, fuel: u64) -> (r: Outcome)
        requires
            old(self).wf(),
            old(self).paused(),
        ensures
            final(self).wf(),
            final(self).outcome_state(r),
    {
        self.step_loop(fuel)
    }

    /// Records the last process exit status in the global `last-status`
    /// symbol; that spelling, with the hyphen, is the one canonical name.
    fn set_last_status(&mut self, status: u64)
        requires
            old(self).wf(),
        ensures
            final(self).wf(),
            final(self).stack@ == old(self).stack@,
            final(self).ctrl == old(self).ctrl,
            final(self).pending == old(self).pending,
            final(self).cur_scope == old(self).cur_scope,
            final(self).interactive == old(self).interactive,
            final(self).cwd == old(self).cwd,
            has_global_value(final(self).env_state(), "LAST-STATUS"@, NodeV::Number(status)),
            forall|n: Seq<char>, bb: Builtin|
                n != "LAST-STATUS"@ && #[trigger] has_builtin(old(self).env_state(), n, bb)
                    ==> has_builtin(final(self).env_state(), n, bb),
            forall|n: Seq<char>, vv: NodeV|
                n != "LAST-STATUS"@ && #[trigger] has_global_value(old(self).env_state(), n, vv)
                    ==> has_global_value(final(self).env_state(), n, vv),
    {
        register_global_value(&mut self.env, "LAST-STATUS", Node::Number(status));
    }

    /// Abandons the run with an error: every suspended restore frame still
    /// runs, so the interactive flag ends as the deepest restore demands,
    /// whatever went wrong in between.
    fn fail(&mut self, message: String) -> (r: Outcome)
        requires
            old(self).wf(),
            old(self).pending is None,
        ensures
            final(self).wf(),
            final(self).idle(),
            final(self).outcome_state(r),
            r == (Outcome::Error { message }),
            final(self).interactive == flag_after_unwind(old(self).stack@, old(self).interactive),
            final(self).env == old(self).env,
            final(self).cwd == old(self).cwd,
    {
        while self.stack.len() > 0
            invariant
                self.wf(),
                self.pending is None,
                self.ctrl == old(self).ctrl,
                self.env == old(self).env,
                self.cwd == old(self).cwd,
                flag_after_unwind(old(self).stack@, old(self).interactive) == flag_after_unwind(
                    self.stack@,
                    self.interactive,
                ),
            decreases self.stack@.len(),
        {
            let ghost pre = self.stack@;
            let f = match self.stack.pop() {
                Option::Some(f) => f,
                Option::None => {
                    proof {
                        assert(false);
                    }
                    Frame::Sequence { rest: ConsList::new() }
                },
            };
            proof {
                assert(pre.drop_last() =~= self.stack@);
                assert(pre == self.stack@.push(f));
                lemma_flag_after_pop(self.stack@, f, self.interactive);
            }
            match f {
                Frame::Restore { scope } => {
                    self.cur_scope = scope;
                },
                Frame::RestoreInteractive { prev } => {
                    self.interactive = prev;
                },
                _ => {},
            }
        }
        self.ctrl = Ctrl::Idle;
        Outcome::Error { message }
    }
}

/// Registers one native callable under its symbol name.
/// Whether the environment's global frame binds `name` to the given native
/// callable.
pub open spec fn has_builtin(env: Env, name: Seq<char>, b: Builtin) -> bool {
    match env.lookup(0, name) {
        Option::Some(id) => {
            &&& (id as int) < env.syms@.len()
            &&& match env.syms@[id as int].function {
                Option::Some(c) => crate::object::callable_view(c) == crate::object::CallableV::Builtin(b),
                Option::None => false,
            }
        },
        Option::None => false,
    }
}

/// Whether the environment's global frame binds `name` to exactly the given
/// cell.
pub open spec fn has_global_cell(env: Env, name: Seq<char>, cell: crate::object::SymbolV) -> bool {
    match env.lookup(0, name) {
        Option::Some(id) => {
            &&& (id as int) < env.syms@.len()
            &&& crate::object::symbol_view(env.syms@[id as int]) == cell
        },
        Option::None => false,
    }
}

/// Whether the environment's global frame binds `name` to the given value.
pub open spec fn has_global_value(env: Env, name: Seq<char>, v: NodeV) -> bool {
    match env.lookup(0, name) {
        Option::Some(id) => {
            &&& (id as int) < env.syms@.len()
            &&& match env.syms@[id as int].value {
                Option::Some(n) => crate::object::node_view(n) == v,
                Option::None => false,
            }
        },
        Option::None => false,
    }
}

/// The names of the registered globals are pairwise distinct, so each
/// registration leaves the others in place.
proof fn lemma_names_distinct()
    ensures
        "DEFVAR"@ != "PRINT"@,
        "DEFVAR"@ != "_DEFINE"@,
        "DEFVAR"@ != "DEFINE"@,
        "DEFVAR"@ != "EXIT"@,
        "DEFVAR"@ != "PWD"@,
        "DEFVAR"@ != "CD"@,
        "DEFVAR"@ != "CAPC"@,
        "DEFVAR"@ != "CALL"@,
        "DEFVAR"@ != "PIPE"@,
        "DEFVAR"@ != "|"@,
        "DEFVAR"@ != "EXPORT"@,
        "DEFVAR"@ != "UNEXPORT"@,
        "DEFVAR"@ != "PROMPT"@,
        "DEFVAR"@ != "GLOB"@,
        "DEFVAR"@ != "LAST-STATUS"@,
        "PRINT"@ != "_DEFINE"@,
        "PRINT"@ != "DEFINE"@,
        "PRINT"@ != "EXIT"@,
        "PRINT"@ != "PWD"@,
        "PRINT"@ != "CD"@,
        "PRINT"@ != "CAPC"@,
        "PRINT"@ != "CALL"@,
        "PRINT"@ != "PIPE"@,
        "PRINT"@ != "|"@,
        "PRINT"@ != "EXPORT"@,
        "PRINT"@ != "UNEXPORT"@,
        "PRINT"@ != "PROMPT"@,
        "PRINT"@ != "GLOB"@,
        "PRINT"@ != "LAST-STATUS"@,
        "_DEFINE"@ != "DEFINE"@,
        "_DEFINE"@ != "EXIT"@,
        "_DEFINE"@ != "PWD"@,
        "_DEFINE"@ != "CD"@,
        "_DEFINE"@ != "CAPC"@,
        "_DEFINE"@ != "CALL"@,
        "_DEFINE"@ != "PIPE"@,
        "_DEFINE"@ != "|"@,
        "_DEFINE"@ != "EXPORT"@,
        "_DEFINE"@ != "UNEXPORT"@,
        "_DEFINE"@ != "PROMPT"@,
        "_DEFINE"@ != "GLOB"@,
        "_DEFINE"@ != "LAST-STATUS"@,
        "DEFINE"@ != "EXIT"@,
        "DEFINE"@ != "PWD"@,
        "DEFINE"@ != "CD"@,
        "DEFINE"@ != "CAPC"@,
        "DEFINE"@ != "CALL"@,
        "DEFINE"@ != "PIPE"@,
        "DEFINE"@ != "|"@,
        "DEFINE"@ != "EXPORT"@,
        "DEFINE"@ != "UNEXPORT"@,
        "DEFINE"@ != "PROMPT"@,
        "DEFINE"@ != "GLOB"@,
        "DEFINE"@ != "LAST-STATUS"@,
        "EXIT"@ != "PWD"@,
        "EXIT"@ != "CD"@,
        "EXIT"@ != "CAPC"@,
        "EXIT"@ != "CALL"@,
        "EXIT"@ != "PIPE"@,
        "EXIT"@ != "|"@,
        "EXIT"@ != "EXPORT"@,
        "EXIT"@ != "UNEXPORT"@,
        "EXIT"@ != "PROMPT"@,
        "EXIT"@ != "GLOB"@,
        "EXIT"@ != "LAST-STATUS"@,
        "PWD"@ != "CD"@,
        "PWD"@ != "CAPC"@,
        "PWD"@ != "CALL"@,
        "PWD"@ != "PIPE"@,
        "PWD"@ != "|"@,
        "PWD"@ != "EXPORT"@,
        "PWD"@ != "UNEXPORT"@,
        "PWD"@ != "PROMPT"@,
        "PWD"@ != "GLOB"@,
        "PWD"@ != "LAST-STATUS"@,
        "CD"@ != "CAPC"@,
        "CD"@ != "CALL"@,
        "CD"@ != "PIPE"@,
        "CD"@ != "|"@,
        "CD"@ != "EXPORT"@,
        "CD"@ != "UNEXPORT"@,
        "CD"@ != "PROMPT"@,
        "CD"@ != "GLOB"@,
        "CD"@ != "LAST-STATUS"@,
        "CAPC"@ != "CALL"@,
        "CAPC"@ != "PIPE"@,
        "CAPC"@ != "|"@,
        "CAPC"@ != "EXPORT"@,
        "CAPC"@ != "UNEXPORT"@,
        "CAPC"@ != "PROMPT"@,
        "CAPC"@ != "GLOB"@,
        "CAPC"@ != "LAST-STATUS"@,
        "CALL"@ != "PIPE"@,
        "CALL"@ != "|"@,
        "CALL"@ != "EXPORT"@,
        "CALL"@ != "UNEXPORT"@,
        "CALL"@ != "PROMPT"@,
        "CALL"@ != "GLOB"@,
        "CALL"@ != "LAST-STATUS"@,
        "PIPE"@ != "|"@,
        "PIPE"@ != "EXPORT"@,
        "PIPE"@ != "UNEXPORT"@,
        "PIPE"@ != "PROMPT"@,
        "PIPE"@ != "GLOB"@,
        "PIPE"@ != "LAST-STATUS"@,
        "|"@ != "EXPORT"@,
        "|"@ != "UNEXPORT"@,
        "|"@ != "PROMPT"@,
        "|"@ != "GLOB"@,
        "|"@ != "LAST-STATUS"@,
        "EXPORT"@ != "UNEXPORT"@,
        "EXPORT"@ != "PROMPT"@,
        "EXPORT"@ != "GLOB"@,
        "EXPORT"@ != "LAST-STATUS"@,
        "UNEXPORT"@ != "PROMPT"@,
        "UNEXPORT"@ != "GLOB"@,
        "UNEXPORT"@ != "LAST-STATUS"@,
        "PROMPT"@ != "GLOB"@,
        "PROMPT"@ != "LAST-STATUS"@,
        "GLOB"@ != "LAST-STATUS"@,
{
    broadcast use vstd::string::group_string_axioms;

    reveal_strlit("DEFVAR");
    reveal_strlit("PRINT");
    reveal_strlit("_DEFINE");
    reveal_strlit("DEFINE");
    reveal_strlit("EXIT");
    reveal_strlit("PWD");
    reveal_strlit("CD");
    reveal_strlit("CAPC");
    reveal_strlit("CALL");
    reveal_strlit("PIPE");
    reveal_strlit("|");
    reveal_strlit("EXPORT");
    reveal_strlit("UNEXPORT");
    reveal_strlit("PROMPT");
    reveal_strlit("GLOB");
    reveal_strlit("LAST-STATUS");
    assert("DEFVAR"@ =~= seq!['D', 'E', 'F', 'V', 'A', 'R']);
    assert("PRINT"@ =~= seq!['P', 'R', 'I', 'N', 'T']);
    assert("_DEFINE"@ =~= seq!['_', 'D', 'E', 'F', 'I', 'N', 'E']);
    assert("DEFINE"@ =~= seq!['D', 'E', 'F', 'I', 'N', 'E']);
    assert("EXIT"@ =~= seq!['E', 'X', 'I', 'T']);
    assert("PWD"@ =~= seq!['P', 'W', 'D']);
    assert("CD"@ =~= seq!['C', 'D']);
    assert("CAPC"@ =~= seq!['C', 'A', 'P', 'C']);
    assert("CALL"@ =~= seq!['C', 'A', 'L', 'L']);
    assert("PIPE"@ =~= seq!['P', 'I', 'P', 'E']);
    assert("|"@ =~= seq!['|']);
    assert("EXPORT"@ =~= seq!['E', 'X', 'P', 'O', 'R', 'T']);
    assert("UNEXPORT"@ =~= seq!['U', 'N', 'E', 'X', 'P', 'O', 'R', 'T']);
    assert("PROMPT"@ =~= seq!['P', 'R', 'O', 'M', 'P', 'T']);
    assert("GLOB"@ =~= seq!['G', 'L', 'O', 'B']);
    assert("LAST-STATUS"@ =~= seq!['L', 'A', 'S', 'T', '-', 'S', 'T', 'A', 'T', 'U', 'S']);
}

fn register_builtin(env: &mut Env, name: &str, b: Builtin)
    requires
        old(env).wf(),
        old(env).scopes@.len() >= 1,
    ensures
        final(env).wf(),
        final(env).scopes@.len() == old(env).scopes@.len(),
        final(env).scopes@[0].parent == old(env).scopes@[0].parent,
        has_builtin(*final(env), name@, b),
        forall|n: Seq<char>, bb: Builtin|
            n != name@ && #[trigger] has_builtin(*old(env), n, bb) ==> has_builtin(
                *final(env),
                n,
                bb,
            ),
        forall|n: Seq<char>, v: NodeV|
            n != name@ && #[trigger] has_global_value(*old(env), n, v) ==> has_global_value(
                *final(env),
                n,
                v,
            ),
{
    let sym = Symbol {
        name: String::from_str(name),
        value: Option::None,
        function: Option::Some(Callable::Builtin(b)),
        properties: Option::None,
    };
    let ghost pre = *env;
    let id = env.set_symbol(0, sym);
    proof {
        lemma_global_binding(pre, *env, name@, id);
    }
}

/// Binds a global symbol that carries a value, as `last-status` does.
fn register_global_value(env: &mut Env, name: &str, v: Node)
    requires
        old(env).wf(),
        old(env).scopes@.len() >= 1,
    ensures
        final(env).wf(),
        final(env).scopes@.len() == old(env).scopes@.len(),
        final(env).scopes@[0].parent == old(env).scopes@[0].parent,
        has_global_value(*final(env), name@, v@),
        forall|n: Seq<char>, bb: Builtin|
            n != name@ && #[trigger] has_builtin(*old(env), n, bb) ==> has_builtin(
                *final(env),
                n,
                bb,
            ),
        forall|n: Seq<char>, vv: NodeV|
            n != name@ && #[trigger] has_global_value(*old(env), n, vv) ==> has_global_value(
                *final(env),
                n,
                vv,
            ),
{
    let ghost vv = v@;
    let sym = Symbol {
        name: String::from_str(name),
        value: Option::Some(v),
        function: Option::None,
        properties: Option::None,
    };
    let ghost pre = *env;
    let id = env.set_symbol(0, sym);
    proof {
        lemma_global_binding(pre, *env, name@, id);
    }
}

/// Places an arbitrary cell in the global frame, binding its name to it and
/// leaving every other global binding as it was.
fn set_global_cell(env: &mut Env, sym: Symbol)
    requires
        old(env).wf(),
        old(env).scopes@.len() >= 1,
    ensures
        final(env).wf(),
        final(env).scopes@.len() == old(env).scopes@.len(),
        final(env).scopes@[0].parent == old(env).scopes@[0].parent,
        has_global_cell(*final(env), sym.name@, sym@),
        forall|n: Seq<char>, c: crate::object::SymbolV|
            n != sym.name@ && #[trigger] has_global_cell(*old(env), n, c) ==> has_global_cell(
                *final(env),
                n,
                c,
            ),
        forall|n: Seq<char>, bb: Builtin|
            n != sym.name@ && #[trigger] has_builtin(*old(env), n, bb) ==> has_builtin(
                *final(env),
                n,
                bb,
            ),
        forall|n: Seq<char>, vv: NodeV|
            n != sym.name@ && #[trigger] has_global_value(*old(env), n, vv) ==> has_global_value(
                *final(env),
                n,
                vv,
            ),
{
    let ghost pre = *env;
    let ghost name = sym.name@;
    let id = env.set_symbol(0, sym);
    proof {
        lemma_global_binding(pre, *env, name, id);
    }
}

/// After one global `set_symbol`, the new name resolves to the new cell and
/// every other name resolves as before.
proof fn lemma_global_binding(pre: Env, post: Env, name: Seq<char>, id: usize)
    requires
        pre.wf(),
        post.wf(),
        pre.scopes@.len() >= 1,
        post.scopes@.len() == pre.scopes@.len(),
        post.syms@.len() == pre.syms@.len() + 1,
        (id as int) == pre.syms@.len(),
        forall|j: int| 0 <= j < pre.syms@.len() ==> post.syms@[j] == pre.syms@[j],
        crate::env::frame_find(post.scopes@[0].names@, name) == Option::Some(id),
        forall|n: Seq<char>|
            n != name ==> #[trigger] crate::env::frame_find(post.scopes@[0].names@, n)
                == crate::env::frame_find(pre.scopes@[0].names@, n),
        post.scopes@[0].parent == pre.scopes@[0].parent,
    ensures
        post.lookup(0, name) == Option::Some(id),
        forall|n: Seq<char>|
            n != name && (#[trigger] pre.lookup(0, n)) is Some ==> post.lookup(0, n) == pre.lookup(
                0,
                n,
            ),
{
    assert(post.lookup(0, name) == Option::Some(id));
    assert forall|n: Seq<char>| n != name && (#[trigger] pre.lookup(0, n)) is Some implies
        post.lookup(0, n) == pre.lookup(0, n) by {
        match crate::env::frame_find(pre.scopes@[0].names@, n) {
            Option::Some(_) => {},
            Option::None => {
                match pre.scopes@[0].parent {
                    Option::Some(p) => {
                        assert(p < 0);
                    },
                    Option::None => {},
                }
            },
        }
    }
}

/// An arity diagnostic: `<name> expected <want> args, got <got>`.
pub open spec fn arity_text(name: Seq<char>, want: Seq<char>, got: int) -> Seq<char> {
    name + " expected "@ + want + " args, got "@ + crate::strutil::dec_chars(got as nat)
}

fn arity_msg(name: &str, want: &str, got: usize) -> (m: String)
    ensures
        m@ == arity_text(name@, want@, got as int),
{
    let mut m = String::from_str(name);
    m.append(" expected ");
    m.append(want);
    m.append(" args, got ");
    let g = u64_to_dec(got as u64);
    m.append(g.as_str());
    m
}

impl VM {
    /// Runs machine steps until the program finishes, an action is needed,
    /// or the fuel runs out.
    fn step_loop(&mut self, fuel: u64) -> (r: Outcome)
        requires
            old(self).wf(),
            old(self).pending is None,
            !(old(self).ctrl is Idle),
        ensures
            final(self).wf(),
            final(self).outcome_state(r),
            (match entry_forms(*old(self)) {
                Option::Some(forms) => (all_literals(forms) && fuel >= 2 * forms.len() + 1) ==> (
                match r {
                    Outcome::Done { value } => value@ == forms.last(),
                    _ => false,
                }),
                Option::None => true,
            }),
    {
        let ghost goal: Option<Seq<NodeV>> = (match entry_forms(*old(self)) {
            Option::Some(forms) => if all_literals(forms) && fuel >= 2 * forms.len() + 1 {
                Option::Some(forms)
            } else {
                Option::None
            },
            Option::None => Option::None,
        });
        proof {
            match goal {
                Option::Some(forms) => {
                    match &self.ctrl {
                        Ctrl::Eval(n) => {
                            match self.stack@[0] {
                                Frame::Sequence { rest } => {
                                    assert(forms == seq![n@] + rest@);
                                    assert(forms.skip(1) =~= rest@);
                                    assert(forms[0] == n@);
                                    assert(lit_eval_cfg(*self, forms, 0) && fuel >= 2 * (forms.len()
                                        - 0) + 1);
                                },
                                _ => {
                                    assert(false);
                                },
                            }
                        },
                        _ => {
                            assert(false);
                        },
                    }
                },
                Option::None => {},
            }
        }
        let mut f = fuel;
        loop
            invariant
                self.wf(),
                self.pending is None,
                !(self.ctrl is Idle),
                goal == (match entry_forms(*old(self)) {
                    Option::Some(forms) => if all_literals(forms) && fuel >= 2 * forms.len() + 1 {
                        Option::<Seq<NodeV>>::Some(forms)
                    } else {
                        Option::<Seq<NodeV>>::None
                    },
                    Option::None => Option::<Seq<NodeV>>::None,
                }),
                (match goal {
                    Option::Some(forms) => lit_run_inv(*self, forms, f),
                    Option::None => true,
                }),
            decreases f,
        {
            let ghost head = *self;
            let ghost head_f = f;
            if f == 0 {
                proof {
                    if goal is Some {
                        assert(false);
                    }
                }
                return Outcome::More;
            }
            f = f - 1;
            let mut c = Ctrl::Idle;
            core::mem::swap(&mut c, &mut self.ctrl);
            let ghost c0 = c;
            let step = match c {
                Ctrl::Idle => {
                    proof {
                        assert(false);
                    }
                    Step::Continue
                },
                Ctrl::Eval(n) => self.eval_node(n),
                Ctrl::Value(v) => {
                    if self.stack.len() == 0 {
                        proof {
                            match goal {
                                Option::Some(forms) => {
                                    assert(lit_done_cfg(head, forms));
                                    assert(v@ == forms.last());
                                },
                                Option::None => {},
                            }
                        }
                        return Outcome::Done { value: v };
                    }
                    self.apply_value(v)
                },
            };
            proof {
                match goal {
                    Option::Some(forms) => {
                        if exists|k: int|
                            #[trigger] lit_eval_cfg(head, forms, k) && head_f >= 2 * (forms.len()
                                - k) + 1 {
                            let k = choose|k: int|
                                #[trigger] lit_eval_cfg(head, forms, k) && head_f >= 2 * (
                                forms.len() - k) + 1;
                            assert(!((forms[k] is Symbol) || (forms[k] is List)));
                            assert(lit_val_cfg(*self, forms, k) && f >= 2 * (forms.len() - k));
                            assert(step is Continue);
                        } else if exists|k: int|
                            #[trigger] lit_val_cfg(head, forms, k) && head_f >= 2 * (forms.len()
                                - k) {
                            let k = choose|k: int|
                                #[trigger] lit_val_cfg(head, forms, k) && head_f >= 2 * (
                                forms.len() - k);
                            if k == forms.len() - 1 {
                                assert(forms.skip(k + 1).len() == 0);
                                assert(lit_done_cfg(*self, forms) && f >= 1);
                            } else {
                                assert(forms.skip(k + 1)[0] == forms[k + 1]);
                                assert(forms.skip(k + 1).skip(1) =~= forms.skip(k + 2));
                                assert(lit_eval_cfg(*self, forms, k + 1) && f >= 2 * (forms.len()
                                    - (k + 1)) + 1);
                            }
                            assert(step is Continue);
                        } else {
                            assert(lit_done_cfg(head, forms));
                            assert(false);
                        }
                    },
                    Option::None => {},
                }
            }
            match step {
                Step::Continue => {},
                Step::Out(o) => {
                    proof {
                        if goal is Some {
                            assert(false);
                        }
                    }
                    return o;
                },
            }
        }
    }

    /// Evaluates one node: numbers, strings and other data stand for
    /// themselves; a symbol resolves to its bound value, or to a string of
    /// its own name when unbound; a list is a call form.
    fn eval_node(&mut self, n: Node) -> (r: Step)
        requires
            old(self).wf(),
            old(self).pending is None,
            old(self).ctrl is Idle,
        ensures
            final(self).wf(),
            final(self).stepped(r),
            !((n@ is Symbol) || (n@ is List)) ==> ({
                &&& r is Continue
                &&& final(self).control_value() == Option::Some(n@)
                &&& final(self).env_state() == old(self).env_state()
                &&& final(self).working_dir() == old(self).working_dir()
                &&& final(self).stack@ == old(self).stack@
            }),
            (match n@ {
                NodeV::Symbol(name) => {
                    &&& r is Continue
                    &&& (match old(self).env_state().lookup(old(self).scope_now(), name) {
                        Option::Some(id) => {
                            &&& final(self).env_state().syms@ == old(self).env_state().syms@
                            &&& final(self).env_state().scopes@ == old(self).env_state().scopes@
                            &&& final(self).control_value() == Option::Some(
                                crate::object::symbol_value_view(
                                    crate::object::symbol_view(
                                        old(self).env_state().syms@[id as int],
                                    ),
                                ),
                            )
                        },
                        Option::None => final(self).control_value() == Option::Some(
                            NodeV::Str(crate::strutil::upper_seq(name)),
                        ),
                    })
                },
                _ => true,
            }),
    {
        match n {
            Node::Symbol(name) => {
                let id = self.env.get_symbol(self.cur_scope, name.as_str());
                let v = self.env.symbol_at(id).value();
                self.ctrl = Ctrl::Value(v);
                Step::Continue
            },
            Node::List(l) => self.eval_list(l),
            other => {
                self.ctrl = Ctrl::Value(other);
                Step::Continue
            },
        }
    }

    /// Evaluates a call form: the head must be a symbol; it is dispatched to
    /// its user definition, its builtin, or the command-not-found fallback.
    fn eval_list(&mut self, l: ConsList) -> (r: Step)
        requires
            old(self).wf(),
            old(self).pending is None,
            old(self).ctrl is Idle,
        ensures
            final(self).wf(),
            final(self).stepped(r),
            l@.len() == 0 ==> ({
                &&& r is Continue
                &&& final(self).control_value() == Option::Some(NodeV::Empty)
                &&& final(self).env_state() == old(self).env_state()
            }),
            (l@.len() > 0 && !(l@[0] is Symbol)) ==> ({
                &&& final(self).env_state() == old(self).env_state()
                &&& (match r {
                    Step::Out(Outcome::Error { message }) => message@
                        == "Cannot evaluate non-symbol object"@,
                    _ => false,
                })
            }),
            (match (l@.len() == 1, (if l@.len() == 1 {
                l@[0]
            } else {
                NodeV::Empty
            })) {
                (true, NodeV::Symbol(name)) => (match old(self).env_state().lookup(
                    old(self).scope_now(),
                    name,
                ) {
                    Option::Some(id) => old(self).env_state().syms@[id as int].function is None,
                    Option::None => true,
                }) ==> (match r {
                    Step::Out(Outcome::Pending { action }) => (match action {
                        Action::RunCommand { argv, capture } => argv@.len() == 1 && argv@[0]@
                            == crate::strutil::lower_seq(name) && capture == !old(
                            self,
                        ).interactive_flag(),
                        _ => false,
                    }),
                    _ => false,
                }),
                _ => true,
            }),
    {
        let head = match l.head() {
            Option::None => {
                self.ctrl = Ctrl::Value(Node::Empty);
                return Step::Continue;
            },
            Option::Some(h) => h,
        };
        let name = match head {
            Node::Symbol(nm) => nm.clone(),
            _ => {
                return Step::Out(self.fail(String::from_str("Cannot evaluate non-symbol object")));
            },
        };
        let id = self.env.get_symbol(self.cur_scope, name.as_str());
        let func = match &self.env.symbol_at(id).function {
            Option::Some(c) => Option::Some(crate::object::callable_clone(c)),
            Option::None => Option::None,
        };
        match func {
            Option::Some(Callable::User(f)) => {
                if f.is_macro {
                    let raw = l.tail().to_vec();
                    self.apply_function(name, f, raw)
                } else {
                    self.start_args(l.tail(), Vec::new(), ArgsK::Apply { name, f })
                }
            },
            Option::Some(Callable::Builtin(b)) => self.builtin_start(b, l.tail()),
            Option::None => {
                let program = crate::strutil::to_lower_ascii(name.as_str());
                self.start_args(l.tail(), Vec::new(), ArgsK::CallNamed { program })
            },
        }
    }

    /// Binds the arguments in a fresh scope and begins the callable's body.
    fn apply_function(&mut self, name: String, f: Function, args: Vec<Node>) -> (r: Step)
        requires
            old(self).wf(),
            old(self).pending is None,
            old(self).ctrl is Idle,
        ensures
            final(self).wf(),
            final(self).stepped(r),
    {
        if f.params.len() != args.len() {
            let want = u64_to_dec(f.params.len() as u64);
            return Step::Out(self.fail(arity_msg(name.as_str(), want.as_str(), args.len())));
        }
        let ghost oldlen = self.env.scopes@.len();
        let ns = self.env.new_with_parent(self.cur_scope);
        proof {
            assert forall|i: int| 0 <= i < self.stack@.len() implies frame_wf(
                #[trigger] self.stack@[i],
                self.env.scopes@.len() as int,
            ) by {
                assert(frame_wf(self.stack@[i], oldlen as int));
            }
        }
        let mut i: usize = 0;
        while i < args.len()
            invariant
                self.wf(),
                self.pending is None,
                self.ctrl is Idle,
                ns < self.env.scopes@.len(),
                (self.cur_scope as int) < self.env.scopes@.len(),
                f.params@.len() == args@.len(),
                i <= args@.len(),
                self.stack@ == old(self).stack@,
            decreases args@.len() - i,
        {
            let ghost oldlen2 = self.env.scopes@.len();
            let sym = Symbol {
                name: f.params[i].clone(),
                value: Option::Some(node_clone(&args[i])),
                function: Option::None,
                properties: Option::None,
            };
            self.env.set_symbol(ns, sym);
            proof {
                assert forall|j: int| 0 <= j < self.stack@.len() implies frame_wf(
                    #[trigger] self.stack@[j],
                    self.env.scopes@.len() as int,
                ) by {
                    assert(frame_wf(self.stack@[j], oldlen2 as int));
                }
            }
            i = i + 1;
        }
        let prev = self.cur_scope;
        self.stack.push(Frame::Restore { scope: prev });
        proof {
            assert(self.stack@.last() == (Frame::Restore { scope: prev }));
            assert forall|j: int| 0 <= j < self.stack@.len() implies frame_wf(
                #[trigger] self.stack@[j],
                self.env.scopes@.len() as int,
            ) by {
                if j < self.stack@.len() - 1 {
                    assert(self.stack@[j] == old(self).stack@[j]);
                }
            }
        }
        self.cur_scope = ns;
        match f.body.head() {
            Option::None => {
                self.ctrl = Ctrl::Value(Node::Empty);
            },
            Option::Some(h) => {
                let hh = node_clone(h);
                self.push_plain(Frame::Sequence { rest: f.body.tail() });
                self.ctrl = Ctrl::Eval(hh);
            },
        }
        Step::Continue
    }

    /// Pushes a frame that holds no scope reference.
    fn push_plain(&mut self, fr: Frame)
        requires
            old(self).wf(),
            !(fr is Restore),
        ensures
            final(self).wf(),
            final(self).env == old(self).env,
            final(self).ctrl == old(self).ctrl,
            final(self).pending == old(self).pending,
            final(self).cur_scope == old(self).cur_scope,
            final(self).interactive == old(self).interactive,
            final(self).cwd == old(self).cwd,
            final(self).stack@ == old(self).stack@.push(fr),
    {
        let ghost pre = self.stack@;
        self.stack.push(fr);
        proof {
            assert forall|j: int| 0 <= j < self.stack@.len() implies frame_wf(
                #[trigger] self.stack@[j],
                self.env.scopes@.len() as int,
            ) by {
                if j < pre.len() {
                    assert(self.stack@[j] == pre[j]);
                } else {
                    assert(self.stack@[j] == fr);
                }
            }
        }
    }

    /// Evaluates the remaining argument forms one at a time, then finishes
    /// the collected call.
    fn start_args(&mut self, rest: ConsList, done: Vec<Node>, k: ArgsK) -> (r: Step)
        requires
            old(self).wf(),
            old(self).pending is None,
            old(self).ctrl is Idle,
        ensures
            final(self).wf(),
            final(self).stepped(r),
            (match k {
                ArgsK::CallNamed { program } => (rest@.len() == 0 && done@.len() == 0) ==> (
                match r {
                    Step::Out(Outcome::Pending { action }) => (match action {
                        Action::RunCommand { argv, capture } => argv@.len() == 1 && argv@[0]@
                            == program@ && capture == !old(self).interactive_flag(),
                        _ => false,
                    }),
                    _ => false,
                }),
                _ => true,
            }),
    {
        match rest.head() {
            Option::None => self.finish_args(done, k),
            Option::Some(h) => {
                let hh = node_clone(h);
                self.push_plain(Frame::Args { rest: rest.tail(), done, k });
                self.ctrl = Ctrl::Eval(hh);
                Step::Continue
            },
        }
    }

    /// Acts on a call whose arguments are all evaluated.
    fn finish_args(&mut self, done: Vec<Node>, k: ArgsK) -> (r: Step)
        requires
            old(self).wf(),
            old(self).pending is None,
            old(self).ctrl is Idle,
        ensures
            final(self).wf(),
            final(self).stepped(r),
            ((k is Cd) && done@.len() == 1) ==> (match done@[0] {
                Node::Str(arg) => ({
                    let target = crate::paths::resolve_spec(
                        old(self).working_dir(),
                        crate::paths::tilde_spec(
                            arg@,
                            home_view(old(self).env_state(), old(self).scope_now()),
                        ),
                    );
                    match r {
                        Step::Out(Outcome::Pending { action }) => (match action {
                            Action::SetCwd { path } => path@ == target,
                            _ => false,
                        }),
                        _ => false,
                    }
                }),
                _ => is_error_step(r, "cd expected a string"@),
            }),
            (match k {
                ArgsK::CallNamed { program } => (match r {
                    Step::Out(Outcome::Pending { action }) => (match action {
                        Action::RunCommand { argv, capture } => {
                            &&& argv@.len() == done@.len() + 1
                            &&& argv@[0]@ == program@
                            &&& (forall|j: int|
                                0 <= j < done@.len() ==> (#[trigger] argv@[j + 1])@
                                    == crate::object::arg_chars(done@[j]@))
                            &&& capture == !old(self).interactive_flag()
                        },
                        _ => false,
                    }),
                    _ => false,
                }),
                ArgsK::Call => done@.len() >= 1 ==> (match r {
                    Step::Out(Outcome::Pending { action }) => (match action {
                        Action::RunCommand { argv, capture } => {
                            &&& argv@.len() == done@.len()
                            &&& (forall|j: int|
                                0 <= j < done@.len() ==> (#[trigger] argv@[j])@
                                    == crate::object::arg_chars(done@[j]@))
                            &&& capture == !old(self).interactive_flag()
                        },
                        _ => false,
                    }),
                    _ => false,
                }),
                _ => true,
            }),
            ((k is Glob) && done@.len() >= 1) ==> (match r {
                Step::Out(Outcome::Pending { action }) => (match action {
                    Action::Glob { max_depth, .. } => max_depth == (if done@.len() > 1 {
                        (match done@[1] {
                            Node::Number(n) => n,
                            _ => 1u64,
                        })
                    } else {
                        1u64
                    }),
                    _ => false,
                }),
                _ => false,
            }),
    {
        match k {
            ArgsK::Call => {
                if done.len() == 0 {
                    return Step::Out(self.fail(arity_msg("call", "at least 1", 0)));
                }
                let program = node_arg_string(&done[0]);
                let mut argv: Vec<String> = Vec::new();
                argv.push(program.clone());
                proof {
                    assert(argv@[0]@ == crate::object::arg_chars(done@[0]@));
                }
                let mut i: usize = 1;
                while i < done.len()
                    invariant
                        1 <= i <= done@.len(),
                        argv@.len() == i,
                        argv@[0]@ == program@,
                        forall|j: int|
                            0 <= j < i ==> (#[trigger] argv@[j])@ == crate::object::arg_chars(
                                done@[j]@,
                            ),
                    decreases done@.len() - i,
                {
                    argv.push(node_arg_string(&done[i]));
                    i = i + 1;
                }
                let capture = !self.interactive;
                self.pending = Option::Some(Pend::Call { program });
                Step::Out(Outcome::Pending { action: Action::RunCommand { argv, capture } })
            },
            ArgsK::CallNamed { program } => {
                let mut argv: Vec<String> = Vec::new();
                argv.push(program.clone());
                let mut i: usize = 0;
                while i < done.len()
                    invariant
                        i <= done@.len(),
                        argv@.len() == i + 1,
                        argv@[0]@ == program@,
                        forall|j: int|
                            0 <= j < i ==> (#[trigger] argv@[j + 1])@ == crate::object::arg_chars(
                                done@[j]@,
                            ),
                    decreases done@.len() - i,
                {
                    argv.push(node_arg_string(&done[i]));
                    i = i + 1;
                }
                let capture = !self.interactive;
                self.pending = Option::Some(Pend::Call { program });
                Step::Out(Outcome::Pending { action: Action::RunCommand { argv, capture } })
            },
            ArgsK::Print => {
                let mut text = String::new();
                let mut i: usize = 0;
                while i < done.len()
                    invariant
                        i <= done@.len(),
                    decreases done@.len() - i,
                {
                    let d = node_display(&done[i]);
                    text.append(d.as_str());
                    text.append(" ");
                    i = i + 1;
                }
                text.append("\n");
                self.pending = Option::Some(Pend::Simple);
                Step::Out(Outcome::Pending { action: Action::Print { text } })
            },
            ArgsK::Cd => {
                if done.len() != 1 {
                    return Step::Out(self.fail(arity_msg("cd", "1", done.len())));
                }
                match &done[0] {
                    Node::Str(s) => {
                        let home = self.home_dir();
                        let expanded = crate::paths::tilde_expand(s.as_str(), home.as_str());
                        let target = crate::paths::resolve_path(
                            self.cwd.as_str(),
                            expanded.as_str(),
                        );
                        self.pending = Option::Some(Pend::Cd { path: target.clone() });
                        Step::Out(Outcome::Pending { action: Action::SetCwd { path: target } })
                    },
                    _ => Step::Out(self.fail(String::from_str("cd expected a string"))),
                }
            },
            ArgsK::Exit => {
                let status = if done.len() == 0 {
                    exit_status_of(Option::None)
                } else {
                    exit_status_of(Option::Some(&done[0]))
                };
                self.stack = Vec::new();
                self.ctrl = Ctrl::Idle;
                Step::Out(Outcome::Exit { status })
            },
            ArgsK::Glob => {
                if done.len() == 0 {
                    return Step::Out(self.fail(arity_msg("glob", "at least 1", 0)));
                }
                let pattern = match &done[0] {
                    Node::Str(s) => {
                        let home = self.home_dir();
                        crate::paths::tilde_expand(s.as_str(), home.as_str())
                    },
                    _ => String::new(),
                };
                let max_depth: u64 = if done.len() > 1 {
                    match &done[1] {
                        Node::Number(n) => *n,
                        _ => 1,
                    }
                } else {
                    1
                };
                let (base, patt) = crate::paths::glob_split(pattern.as_str());
                self.pending = Option::Some(Pend::Glob);
                Step::Out(
                    Outcome::Pending {
                        action: Action::Glob { base, pattern: patt, max_depth },
                    },
                )
            },
            ArgsK::Apply { name, f } => self.apply_function(name, f, done),
        }
    }

    /// The home directory the environment knows, for tilde expansion: the
    /// string value of the `HOME` symbol, or nothing usable.
    fn home_dir(&mut self) -> (r: String)
        requires
            old(self).wf(),
        ensures
            final(self).wf(),
            final(self).stack@ == old(self).stack@,
            final(self).ctrl == old(self).ctrl,
            final(self).pending == old(self).pending,
            final(self).cur_scope == old(self).cur_scope,
            final(self).interactive == old(self).interactive,
            final(self).cwd == old(self).cwd,
            r@ == home_view(old(self).env_state(), old(self).scope_now()),
    {
        let id = self.env.get_symbol(self.cur_scope, "HOME");
        match &self.env.symbol_at(id).value {
            Option::Some(Node::Str(s)) => s.clone(),
            _ => String::new(),
        }
    }

    /// Starts evaluating the next pipeline stage, or asks for the pipeline
    /// to run once every stage is built.
    fn next_stage(&mut self, rest: ConsList, done: Vec<Vec<String>>) -> (r: Step)
        requires
            old(self).wf(),
            old(self).pending is None,
            old(self).ctrl is Idle,
        ensures
            final(self).wf(),
            final(self).stepped(r),
            (rest@.len() > 0 && !(rest@[0] is List)) ==> is_error_step(
                r,
                "pipe args must by lists, got "@ + crate::object::type_chars(rest@[0]),
            ),
        decreases rest@.len(), 0nat,
    {
        match rest.head() {
            Option::None => {
                let capture = !self.interactive;
                self.pending = Option::Some(Pend::Pipe);
                Step::Out(
                    Outcome::Pending { action: Action::RunPipeline { stages: done, capture } },
                )
            },
            Option::Some(h) => match h {
                Node::List(sl) => {
                    let cur = cons_clone(sl);
                    let rest2 = rest.tail();
                    self.stage_step(rest2, done, cur, Vec::new())
                },
                other => {
                    let mut m = String::from_str("pipe args must by lists, got ");
                    m.append(other.type_str());
                    Step::Out(self.fail(m))
                },
            },
        }
    }

    /// Evaluates the elements of the current pipeline stage one at a time.
    fn stage_step(
        &mut self,
        rest: ConsList,
        done: Vec<Vec<String>>,
        cur_rest: ConsList,
        cur_done: Vec<String>,
    ) -> (r: Step)
        requires
            old(self).wf(),
            old(self).pending is None,
            old(self).ctrl is Idle,
        ensures
            final(self).wf(),
            final(self).stepped(r),
        decreases rest@.len(), 1nat,
    {
        match cur_rest.head() {
            Option::Some(h) => {
                let hh = node_clone(h);
                self.push_plain(
                    Frame::Stages { rest, done, cur_rest: cur_rest.tail(), cur_done },
                );
                self.ctrl = Ctrl::Eval(hh);
                Step::Continue
            },
            Option::None => {
                let mut done2 = done;
                done2.push(cur_done);
                self.next_stage(rest, done2)
            },
        }
    }

    /// Starts one builtin: arguments are validated first, and evaluated only
    /// as the builtin itself demands.
    fn builtin_start(&mut self, b: Builtin, args: ConsList) -> (r: Step)
        requires
            old(self).wf(),
            old(self).pending is None,
            old(self).ctrl is Idle,
        ensures
            final(self).wf(),
            final(self).stepped(r),
            b == Builtin::Pwd ==> ({
                &&& r is Continue
                &&& final(self).control_value() == Option::Some(
                    NodeV::Str(old(self).working_dir()),
                )
                &&& final(self).env_state() == old(self).env_state()
            }),
            b == Builtin::Prompt ==> ({
                &&& r is Continue
                &&& final(self).control_value() == Option::Some(NodeV::Str("lish$ "@))
                &&& final(self).env_state() == old(self).env_state()
            }),
            b == Builtin::Define ==> (r is Continue && final(self).interactive_flag() == false),
            (b == Builtin::Exit && args@.len() == 0) ==> r == Step::Out(
                Outcome::Exit { status: 0 },
            ),
            (b == Builtin::Defvar && args@.len() != 2) ==> is_error_step(
                r,
                arity_text("defvar"@, "2"@, args@.len() as int),
            ) && final(self).env_state() == old(self).env_state(),
            (b == Builtin::Defvar && args@.len() == 2 && !(args@[0] is Symbol)) ==> is_error_step(
                r,
                "defvar expected a symbol as arg 1"@,
            ) && final(self).env_state() == old(self).env_state(),
            (b == Builtin::Cd && args@.len() != 1) ==> is_error_step(
                r,
                arity_text("cd"@, "1"@, args@.len() as int),
            ),
            (b == Builtin::Call && args@.len() == 0) ==> is_error_step(
                r,
                arity_text("call"@, "at least 1"@, 0),
            ),
            (b == Builtin::Pipe && args@.len() == 0) ==> is_error_step(
                r,
                arity_text("pipe"@, "at least 1"@, 0),
            ),
            (b == Builtin::Glob && args@.len() == 0) ==> is_error_step(
                r,
                arity_text("glob"@, "at least 1"@, 0),
            ),
            (b == Builtin::Export && args@.len() != 1) ==> is_error_step(
                r,
                arity_text("export"@, "1"@, args@.len() as int),
            ),
            (b == Builtin::Export && args@.len() == 1 && !(args@[0] is Symbol)) ==> is_error_step(
                r,
                "export requires a Symbol as the first argument"@,
            ),
            (b == Builtin::Export && args@.len() == 1) ==> (match args@[0] {
                NodeV::Symbol(nm) => (match r {
                    Step::Out(Outcome::Pending { action }) => (match action {
                        Action::SetEnvVar { name, value } => (match old(self).env_state().lookup(
                            old(self).scope_now(),
                            nm,
                        ) {
                            Option::Some(id) => name@ == old(
                                self,
                            ).env_state().syms@[id as int].name@ && value@
                                == crate::object::sym_val_chars(
                                crate::object::symbol_view(
                                    old(self).env_state().syms@[id as int],
                                ),
                            ),
                            Option::None => name@ == crate::strutil::upper_seq(nm) && value@
                                == crate::strutil::upper_seq(nm),
                        }),
                        _ => false,
                    }),
                    _ => false,
                }),
                _ => true,
            }),
            (b == Builtin::Unexport && args@.len() != 1) ==> is_error_step(
                r,
                arity_text("unexport"@, "1"@, args@.len() as int),
            ),
            (b == Builtin::Unexport && args@.len() == 1 && !(args@[0] is Symbol))
                ==> is_error_step(r, "unexport requires a Symbol as the first argument"@),
            (b == Builtin::Unexport && args@.len() == 1) ==> (match args@[0] {
                NodeV::Symbol(nm) => (match r {
                    Step::Out(Outcome::Pending { action }) => (match action {
                        Action::RemoveEnvVar { name } => name@ == nm,
                        _ => false,
                    }),
                    _ => false,
                }),
                _ => true,
            }),
    {
        match b {
            Builtin::Defvar => {
                let v = args.to_vec();
                if v.len() != 2 {
                    return Step::Out(self.fail(arity_msg("defvar", "2", v.len())));
                }
                proof {
                    assert(v@[0]@ == args@[0]);
                }
                match &v[0] {
                    Node::Symbol(nm) => {
                        let name = nm.clone();
                        let second = node_clone(&v[1]);
                        self.push_plain(Frame::DefvarBind { name });
                        self.ctrl = Ctrl::Eval(second);
                        Step::Continue
                    },
                    _ => Step::Out(
                        self.fail(String::from_str("defvar expected a symbol as arg 1")),
                    ),
                }
            },
            Builtin::Print => self.start_args(args, Vec::new(), ArgsK::Print),
            Builtin::Define => {
                let prev = self.interactive;
                self.push_plain(Frame::RestoreInteractive { prev });
                self.interactive = false;
                let inner = args.append(Node::Symbol(String::from_str("_DEFINE")));
                self.ctrl = Ctrl::Eval(Node::List(inner));
                Step::Continue
            },
            Builtin::DefineInner => self.define_inner(args),
            Builtin::Exit => {
                let v = args.to_vec();
                if v.len() == 0 {
                    self.stack = Vec::new();
                    self.ctrl = Ctrl::Idle;
                    return Step::Out(Outcome::Exit { status: 0 });
                }
                let first = node_clone(&v[0]);
                self.push_plain(
                    Frame::Args { rest: ConsList::new(), done: Vec::new(), k: ArgsK::Exit },
                );
                self.ctrl = Ctrl::Eval(first);
                Step::Continue
            },
            Builtin::Pwd => {
                self.ctrl = Ctrl::Value(Node::Str(self.cwd.clone()));
                Step::Continue
            },
            Builtin::Cd => {
                let v = args.to_vec();
                if v.len() != 1 {
                    return Step::Out(self.fail(arity_msg("cd", "1", v.len())));
                }
                self.start_args(args, Vec::new(), ArgsK::Cd)
            },
            Builtin::Capc => {
                let prev = self.interactive;
                self.push_plain(Frame::RestoreInteractive { prev });
                self.interactive = false;
                if args.is_empty() {
                    return Step::Out(self.fail(arity_msg("call", "at least 1", 0)));
                }
                self.start_args(args, Vec::new(), ArgsK::Call)
            },
            Builtin::Call => {
                if args.is_empty() {
                    return Step::Out(self.fail(arity_msg("call", "at least 1", 0)));
                }
                self.start_args(args, Vec::new(), ArgsK::Call)
            },
            Builtin::Pipe => {
                if args.is_empty() {
                    return Step::Out(self.fail(arity_msg("pipe", "at least 1", 0)));
                }
                self.next_stage(args, Vec::new())
            },
            Builtin::Export => {
                let v = args.to_vec();
                if v.len() != 1 {
                    return Step::Out(self.fail(arity_msg("export", "1", v.len())));
                }
                proof {
                    assert(v@[0]@ == args@[0]);
                }
                match &v[0] {
                    Node::Symbol(nm) => {
                        let id = self.env.get_symbol(self.cur_scope, nm.as_str());
                        let name = self.env.symbol_at(id).name().to_owned();
                        let value = self.env.symbol_at(id).to_val_string();
                        self.pending = Option::Some(Pend::Simple);
                        Step::Out(
                            Outcome::Pending { action: Action::SetEnvVar { name, value } },
                        )
                    },
                    _ => Step::Out(
                        self.fail(
                            String::from_str("export requires a Symbol as the first argument"),
                        ),
                    ),
                }
            },
            Builtin::Unexport => {
                let v = args.to_vec();
                if v.len() != 1 {
                    return Step::Out(self.fail(arity_msg("unexport", "1", v.len())));
                }
                proof {
                    assert(v@[0]@ == args@[0]);
                }
                match &v[0] {
                    Node::Symbol(nm) => {
                        let name = nm.clone();
                        self.pending = Option::Some(Pend::Simple);
                        Step::Out(Outcome::Pending { action: Action::RemoveEnvVar { name } })
                    },
                    _ => Step::Out(
                        self.fail(
                            String::from_str("unexport requires a Symbol as the first argument"),
                        ),
                    ),
                }
            },
            Builtin::Prompt => {
                self.ctrl = Ctrl::Value(Node::Str(String::from_str("lish$ ")));
                Step::Continue
            },
            Builtin::Glob => {
                let v = args.to_vec();
                if v.len() == 0 {
                    return Step::Out(self.fail(arity_msg("glob", "at least 1", 0)));
                }
                let mut lim: Vec<Node> = Vec::new();
                lim.push(node_clone(&v[0]));
                if v.len() > 1 {
                    lim.push(node_clone(&v[1]));
                }
                self.start_args(ConsList::from_vec(&lim), Vec::new(), ArgsK::Glob)
            },
        }
    }

    /// Installs a user-defined callable: a name, a parameter list, and the
    /// body forms.
    fn define_inner(&mut self, args: ConsList) -> (r: Step)
        requires
            old(self).wf(),
            old(self).pending is None,
            old(self).ctrl is Idle,
        ensures
            final(self).wf(),
            final(self).stepped(r),
    {
        let v = args.to_vec();
        if v.len() < 2 {
            return Step::Out(self.fail(arity_msg("define", "at least 2", v.len())));
        }
        let name = match &v[0] {
            Node::Symbol(nm) => nm.clone(),
            _ => {
                return Step::Out(self.fail(String::from_str("define expected a symbol as arg 1")));
            },
        };
        let mut params: Vec<String> = Vec::new();
        match &v[1] {
            Node::List(pl) => {
                let pv = pl.to_vec();
                let mut i: usize = 0;
                while i < pv.len()
                    invariant
                        self == old(self),
                        self.wf(),
                        self.pending is None,
                        i <= pv@.len(),
                    decreases pv@.len() - i,
                {
                    match &pv[i] {
                        Node::Symbol(p) => {
                            params.push(p.clone());
                        },
                        _ => {
                            return Step::Out(
                                self.fail(
                                    String::from_str("define expected a list of parameter symbols"),
                                ),
                            );
                        },
                    }
                    i = i + 1;
                }
            },
            Node::Empty => {},
            _ => {
                return Step::Out(
                    self.fail(String::from_str("define expected a list of parameter symbols")),
                );
            },
        }
        let mut body: Vec<Node> = Vec::new();
        let mut i: usize = 2;
        while i < v.len()
            invariant
                self == old(self),
                2 <= i <= v@.len() || v@.len() < 2,
            decreases v@.len() - i,
        {
            body.push(node_clone(&v[i]));
            i = i + 1;
        }
        let f = Function { is_macro: false, params, body: ConsList::from_vec(&body) };
        let id = self.env.get_symbol(self.cur_scope, name.as_str());
        self.env.set_function(id, Option::Some(Callable::User(f)));
        self.env.bind(self.cur_scope, id);
        self.ctrl = Ctrl::Value(Node::Symbol(name));
        Step::Continue
    }

    /// Hands a finished value to the frame that waited for it.
    fn apply_value(&mut self, v: Node) -> (r: Step)
        requires
            old(self).wf(),
            old(self).pending is None,
            old(self).ctrl is Idle,
            old(self).stack@.len() > 0,
        ensures
            final(self).wf(),
            final(self).stepped(r),
            (match old(self).stack@.last() {
                Frame::Sequence { rest } => ({
                    &&& (rest@.len() == 0 ==> ({
                        &&& r is Continue
                        &&& final(self).control_value() == Option::Some(v@)
                        &&& final(self).env_state() == old(self).env_state()
                        &&& final(self).stack@ == old(self).stack@.drop_last()
                    }))
                    &&& (rest@.len() > 0 ==> ({
                        &&& r is Continue
                        &&& (match final(self).ctrl {
                            Ctrl::Eval(h) => h@ == rest@[0],
                            _ => false,
                        })
                        &&& final(self).env_state() == old(self).env_state()
                        &&& final(self).stack@.len() == old(self).stack@.len()
                        &&& final(self).stack@.drop_last() == old(self).stack@.drop_last()
                        &&& (match final(self).stack@.last() {
                            Frame::Sequence { rest: more } => more@ == rest@.skip(1),
                            _ => false,
                        })
                    }))
                }),
                Frame::Restore { scope } => ({
                    &&& r is Continue
                    &&& final(self).control_value() == Option::Some(v@)
                    &&& final(self).scope_now() == scope as int
                    &&& final(self).env_state() == old(self).env_state()
                }),
                Frame::RestoreInteractive { prev } => ({
                    &&& r is Continue
                    &&& final(self).control_value() == Option::Some(v@)
                    &&& final(self).interactive_flag() == prev
                    &&& final(self).env_state() == old(self).env_state()
                }),
                Frame::DefvarBind { name } => ({
                    &&& r is Continue
                    &&& final(self).control_value() == Option::Some(NodeV::Symbol(name@))
                }),
                _ => true,
            }),
    {
        let fr = match self.stack.pop() {
            Option::Some(f) => f,
            Option::None => {
                proof {
                    assert(false);
                }
                Frame::Sequence { rest: ConsList::new() }
            },
        };
        match fr {
            Frame::Sequence { rest } => {
                match rest.head() {
                    Option::None => {
                        self.ctrl = Ctrl::Value(v);
                    },
                    Option::Some(h) => {
                        let hh = node_clone(h);
                        self.push_plain(Frame::Sequence { rest: rest.tail() });
                        self.ctrl = Ctrl::Eval(hh);
                    },
                }
                Step::Continue
            },
            Frame::Restore { scope } => {
                self.cur_scope = scope;
                self.ctrl = Ctrl::Value(v);
                Step::Continue
            },
            Frame::RestoreInteractive { prev } => {
                self.interactive = prev;
                self.ctrl = Ctrl::Value(v);
                Step::Continue
            },
            Frame::Args { rest, done, k } => {
                let mut done2 = done;
                done2.push(v);
                self.start_args(rest, done2, k)
            },
            Frame::DefvarBind { name } => {
                let id = self.env.get_symbol(self.cur_scope, name.as_str());
                self.env.set_value(id, Option::Some(v));
                self.env.bind(self.cur_scope, id);
                self.ctrl = Ctrl::Value(Node::Symbol(name));
                Step::Continue
            },
            Frame::Stages { rest, done, cur_rest, cur_done } => {
                let mut cd = cur_done;
                cd.push(node_arg_string(&v));
                self.stage_step(rest, done, cur_rest, cd)
            },
        }
    }
}

} // verus!
