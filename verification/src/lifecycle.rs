//! Component lifecycle decisions: what the external orchestration tool is
//! asked to do for start, stop, destroy and exec, decided from the observed
//! running state.  Nothing here spawns a process; each function returns the
//! invocations to perform, and the caller reports back what it observed.
use vstd::prelude::*;
use vstd::string::*;

use crate::config::{GlobalOptions, Mode};
use crate::errors::EngineError;
use crate::ordmap::{ctx_contains, ctx_value, lemma_ctx_lookup, str_views, Ctx, OrdMap};
use crate::strutil::{dec_str, u32_to_string};
use crate::workspace::{comp_eq, dfs, resolve_deps, Component, Workspace};

verus! {

/// One external-tool invocation: the argument vector, the environment (the
/// component's full context) and whether the standard streams are inherited.
#[derive(Debug)]
pub struct Invocation {
    pub command: Vec<String>,
    pub env: OrdMap<String>,
    pub interactive: bool,
}

/// The argument vector of a compose invocation against `compose_file`.
pub open spec fn compose_argv(compose_file: Seq<char>, verb: Seq<Seq<char>>) -> Seq<Seq<char>> {
    seq!["docker"@, "compose"@, "-f"@, compose_file] + verb
}

impl Component {
    /// The compose invocation for this component: the external tool, the
    /// component's compose file, the verb tokens, and the full context as
    /// environment.  A context without `COMPOSE_FILE` is a fatal
    /// configuration error.
    pub fn compose_invocation(&self, compose_command: &Vec<String>, interactive: bool) -> (r:
        Result<Invocation, EngineError>)
        requires
            self.wf(),
        ensures
            r is Ok <==> (self.context is Some && ctx_contains(
                self.context.unwrap().ctx(),
                "COMPOSE_FILE"@,
            )),
            match r {
                Ok(inv) => {
                    &&& str_views(inv.command@) == compose_argv(
                        ctx_value(self.context.unwrap().ctx(), "COMPOSE_FILE"@),
                        str_views(compose_command@),
                    )
                    &&& inv.env.wf()
                    &&& inv.env.ctx() == self.context.unwrap().ctx()
                    &&& inv.interactive == interactive
                },
                Err(e) => e matches EngineError::Config { .. },
            },
    {
        let ctx = match &self.context {
            Some(c) => c,
            None => {
                return Err(
                    EngineError::Config {
                        message: String::from_str("component context is not initialised"),
                    },
                );
            },
        };
        proof {
            lemma_ctx_lookup(ctx, "COMPOSE_FILE"@);
        }
        let compose_file = match ctx.get("COMPOSE_FILE") {
            Some(f) => f.clone(),
            None => {
                return Err(
                    EngineError::Config {
                        message: String::from_str("COMPOSE_FILE is not set in the context"),
                    },
                );
            },
        };
        let mut command: Vec<String> = Vec::new();
        command.push(String::from_str("docker"));
        command.push(String::from_str("compose"));
        command.push(String::from_str("-f"));
        command.push(compose_file);
        crate::config::extend_string_vec(&mut command, compose_command);
        proof {
            assert(str_views(command@) =~= compose_argv(
                ctx_value(self.context.unwrap().ctx(), "COMPOSE_FILE"@),
                str_views(compose_command@),
            ));
        }
        Ok(Invocation { command, env: ctx.duplicate(), interactive })
    }

    /// The invocation that queries the running container of this component.
    pub fn ps_invocation(&self) -> (r: Result<Invocation, EngineError>)
        requires
            self.wf(),
        ensures
            r is Ok <==> (self.context is Some && ctx_contains(
                self.context.unwrap().ctx(),
                "COMPOSE_FILE"@,
            )),
            match r {
                Ok(inv) => {
                    &&& str_views(inv.command@) == compose_argv(
                        ctx_value(self.context.unwrap().ctx(), "COMPOSE_FILE"@),
                        seq!["ps"@, "--status=running"@, "-q"@],
                    )
                    &&& inv.env.wf()
                    &&& inv.env.ctx() == self.context.unwrap().ctx()
                    &&& !inv.interactive
                },
                Err(e) => e matches EngineError::Config { .. },
            },
    {
        let mut verb: Vec<String> = Vec::new();
        verb.push(String::from_str("ps"));
        verb.push(String::from_str("--status=running"));
        verb.push(String::from_str("-q"));
        proof {
            assert(str_views(verb@) =~= seq!["ps"@, "--status=running"@, "-q"@]);
        }
        self.compose_invocation(&verb, false)
    }
}

/// A component is observed Running exactly when the container query printed a
/// container id.
pub fn is_running_output(container_id: &str) -> (r: bool)
    ensures
        r == (container_id@.len() != 0),
{
    container_id.unicode_len() != 0
}

/// The component has a context and it carries `COMPOSE_FILE`: what every
/// compose invocation needs.
pub open spec fn has_compose_file(c: &Component) -> bool {
    c.context is Some && ctx_contains(c.context.unwrap().ctx(), "COMPOSE_FILE"@)
}

/// Every named component is ready to be composed against.
pub open spec fn deps_ready(ws: &Workspace, names: Seq<Seq<char>>) -> bool {
    forall|i: int|
        0 <= i < names.len() ==> has_compose_file(&ws.components.value_of(#[trigger] names[i]))
}

/// Observationally equal components agree on compose readiness.
proof fn lemma_comp_eq_compose(a: &Component, b: &Component)
    requires
        comp_eq(a, b),
    ensures
        has_compose_file(a) == has_compose_file(b),
{
}

/// A dependency is brought up exactly when its own observed container is
/// absent, or the whole start is forced.
pub fn dep_needs_up(container_id: &str, force: bool) -> (r: bool)
    ensures
        r == (container_id@.len() == 0 || force),
{
    container_id.unicode_len() == 0 || force
}

/// What one requested invocation becomes: skipped with empty successful
/// output under dry-run, otherwise handed on for spawning.
#[derive(Debug)]
pub enum ToolAction {
    Skip { output: String },
    Spawn { invocation: Invocation },
}

/// Honors dry-run: under `dryRun` every invocation short-circuits to an empty
/// successful result and no process is spawned; otherwise the invocation is
/// performed as given.
pub fn plan_invocation(options: &GlobalOptions, inv: Invocation) -> (r: ToolAction)
    ensures
        options.dry_run ==> (r matches ToolAction::Skip { output } && output@ == Seq::<
            char,
        >::empty()),
        !options.dry_run ==> (r matches ToolAction::Spawn { invocation } && invocation == inv),
{
    if options.dry_run {
        ToolAction::Skip { output: String::new() }
    } else {
        ToolAction::Spawn { invocation: inv }
    }
}

/// One dependency to ensure running before the target: its name and the
/// invocation that brings it up, to be spawned only if the dependency's own
/// observed state asks for it (not running, or `force`).
#[derive(Debug)]
pub struct DepUp {
    pub name: String,
    pub invocation: Invocation,
}

/// The decided start operation: either an already-running message and nothing
/// to do, or the ordered dependency bring-ups followed by the target's own
/// bring-up.
#[derive(Debug)]
pub struct StartPlan {
    pub message: Option<String>,
    pub dep_ups: Vec<DepUp>,
    pub target_up: Option<Invocation>,
}

/// The mode a start operation runs under: the requested one, or `Default`.
pub open spec fn opt_mode(options: &GlobalOptions) -> Mode {
    if options.mode is Some {
        options.mode.unwrap()
    } else {
        Mode::Default
    }
}

/// The dependency expansion a start operation performs: the mode-filtered
/// dependency names of the target, expanded depth-first over the workspace.
pub open spec fn start_dep_names(
    component: &Component,
    workspace: &Workspace,
    options: &GlobalOptions,
) -> Result<Seq<Seq<char>>, Seq<char>> {
    dfs(
        workspace,
        crate::config::active_deps(&component.config, opt_mode(options)),
        Set::<Seq<char>>::empty(),
    )
}

/// The up verb.
pub open spec fn up_verb() -> Seq<Seq<char>> {
    seq!["up"@, "-d"@]
}

fn up_command() -> (r: Vec<String>)
    ensures
        str_views(r@) == up_verb(),
{
    let mut verb: Vec<String> = Vec::new();
    verb.push(String::from_str("up"));
    verb.push(String::from_str("-d"));
    proof {
        assert(str_views(verb@) =~= up_verb());
    }
    verb
}

/// The already-running notice for a component.
pub open spec fn already_running_msg(name: Seq<char>) -> Seq<char> {
    "Component \""@ + name + "\" is already running"@
}

/// The already-stopped notice for a component.
pub open spec fn already_stopped_msg(name: Seq<char>) -> Seq<char> {
    "Component \""@ + name + "\" is already stopped"@
}

fn notice(name: &str, tail: &str) -> (r: String)
    ensures
        r@ == "Component \""@ + name@ + tail@,
{
    let mut r = String::from_str("Component \"");
    r.append(name);
    r.append(tail);
    r
}

/// Decides `start`: a component observed Running is reported as already
/// running without any invocation unless `force` is set; otherwise the active
/// dependencies for the current mode are resolved transitively, each paired
/// with its bring-up invocation, and the target's own bring-up comes last.
pub fn start_plan(
    component: &Component,
    workspace: &Workspace,
    options: &GlobalOptions,
    container_id: &str,
) -> (r: Result<StartPlan, EngineError>)
    requires
        component.wf(),
        workspace.wf(),
    ensures
        match r {
            Ok(plan) => {
                &&& (container_id@.len() != 0 && !options.force) ==> {
                    &&& plan.message is Some
                    &&& plan.message.unwrap()@ == already_running_msg(component.name@)
                    &&& plan.dep_ups@.len() == 0
                    &&& plan.target_up is None
                }
                &&& !(container_id@.len() != 0 && !options.force) ==> {
                    &&& plan.message is None
                    &&& start_dep_names(component, workspace, options) is Ok
                    &&& plan.dep_ups@.len() == start_dep_names(
                        component,
                        workspace,
                        options,
                    )->Ok_0.len()
                    &&& forall|i: int|
                        0 <= i < plan.dep_ups@.len() ==> (#[trigger] plan.dep_ups@[i]).name@
                            == start_dep_names(component, workspace, options)->Ok_0[i]
                    &&& forall|i: int|
                        0 <= i < plan.dep_ups@.len() ==> str_views(
                            (#[trigger] plan.dep_ups@[i]).invocation.command@,
                        ) == compose_argv(
                            ctx_value(
                                workspace.components.value_of(
                                    start_dep_names(component, workspace, options)->Ok_0[i],
                                ).context.unwrap().ctx(),
                                "COMPOSE_FILE"@,
                            ),
                            up_verb(),
                        ) && plan.dep_ups@[i].invocation.interactive
                    &&& plan.target_up is Some
                    &&& str_views(plan.target_up.unwrap().command@) == compose_argv(
                        ctx_value(component.context.unwrap().ctx(), "COMPOSE_FILE"@),
                        up_verb(),
                    )
                }
            },
            Err(e) => !(container_id@.len() != 0 && !options.force) && (e
                matches EngineError::Reference { .. } || e matches EngineError::Config { .. }),
        },
        (container_id@.len() != 0 && !options.force) ==> r is Ok,
        !(container_id@.len() != 0 && !options.force) ==> (r is Ok <==> {
            &&& start_dep_names(component, workspace, options) is Ok
            &&& has_compose_file(component)
            &&& deps_ready(workspace, start_dep_names(component, workspace, options)->Ok_0)
        }),
{
    let running = is_running_output(container_id);
    if running && !options.force {
        let message = notice(component.name.as_str(), "\" is already running");
        return Ok(StartPlan { message: Some(message), dep_ups: Vec::new(), target_up: None });
    }
    let mode = match &options.mode {
        Some(m) => *m,
        None => Mode::Default,
    };
    let deps = crate::config::get_deps(&component.config, &mode);
    proof {
        assert(mode == opt_mode(options));
        assert(str_views(deps@) =~= crate::config::active_deps(&component.config, opt_mode(options)));
    }
    let comps = match resolve_deps(workspace, &deps) {
        Ok(c) => c,
        Err(e) => {
            return Err(e);
        },
    };
    let mut dep_ups: Vec<DepUp> = Vec::new();
    let ghost names = start_dep_names(component, workspace, options)->Ok_0;
    let mut i: usize = 0;
    while i < comps.len()
        invariant
            !(container_id@.len() != 0 && !options.force),
            start_dep_names(component, workspace, options) is Ok,
            names == start_dep_names(component, workspace, options)->Ok_0,
            i <= comps@.len(),
            comps@.len() == names.len(),
            forall|j: int| 0 <= j < comps@.len() ==> (#[trigger] comps@[j]).wf(),
            forall|j: int| 0 <= j < comps@.len() ==> (#[trigger] comps@[j]).name@ == names[j],
            dep_ups@.len() == i,
            forall|j: int| 0 <= j < i ==> (#[trigger] dep_ups@[j]).name@ == names[j],
            forall|j: int|
                0 <= j < comps@.len() ==> comp_eq(
                    &(#[trigger] comps@[j]),
                    &workspace.components.value_of(names[j]),
                ),
            forall|j: int|
                0 <= j < i ==> str_views((#[trigger] dep_ups@[j]).invocation.command@)
                    == compose_argv(
                    ctx_value(
                        workspace.components.value_of(names[j]).context.unwrap().ctx(),
                        "COMPOSE_FILE"@,
                    ),
                    up_verb(),
                ) && dep_ups@[j].invocation.interactive,
            forall|j: int|
                0 <= j < i ==> has_compose_file(
                    &workspace.components.value_of(#[trigger] names[j]),
                ),
        decreases comps.len() - i,
    {
        let verb = up_command();
        match comps[i].compose_invocation(&verb, true) {
            Ok(inv) => {
                proof {
                    let vo = workspace.components.value_of(names[i as int]);
                    assert(comp_eq(&comps@[i as int], &vo));
                    assert(comps@[i as int].context is Some);
                    assert(vo.context.unwrap().ctx() == comps@[i as int].context.unwrap().ctx());
                    assert(has_compose_file(&vo));
                }
                dep_ups.push(DepUp { name: comps[i].name.clone(), invocation: inv });
            },
            Err(e) => {
                proof {
                    let vo = workspace.components.value_of(names[i as int]);
                    lemma_comp_eq_compose(&comps@[i as int], &vo);
                    assert(!has_compose_file(&vo));
                    assert(!deps_ready(workspace, names)) by {
                        assert(0 <= i < names.len() && !has_compose_file(
                            &workspace.components.value_of(names[i as int]),
                        ));
                    }
                }
                return Err(e);
            },
        }
        i = i + 1;
    }
    proof {
        assert(deps_ready(workspace, names));
    }
    let verb = up_command();
    match component.compose_invocation(&verb, true) {
        Ok(inv) => Ok(StartPlan { message: None, dep_ups, target_up: Some(inv) }),
        Err(e) => Err(e),
    }
}

/// The decided operation for stop and destroy: a notice, an invocation, or
/// nothing.
#[derive(Debug)]
pub struct OpPlan {
    pub message: Option<String>,
    pub invocation: Option<Invocation>,
}

/// Decides `stop`: a component observed Stopped is reported as already
/// stopped; otherwise the stop verb is invoked interactively.
pub fn stop_plan(component: &Component, container_id: &str) -> (r: Result<OpPlan, EngineError>)
    requires
        component.wf(),
    ensures
        match r {
            Ok(plan) => {
                &&& container_id@.len() == 0 ==> {
                    &&& plan.message is Some
                    &&& plan.message.unwrap()@ == already_stopped_msg(component.name@)
                    &&& plan.invocation is None
                }
                &&& container_id@.len() != 0 ==> {
                    &&& plan.message is None
                    &&& plan.invocation is Some
                    &&& str_views(plan.invocation.unwrap().command@) == compose_argv(
                        ctx_value(component.context.unwrap().ctx(), "COMPOSE_FILE"@),
                        seq!["stop"@],
                    )
                    &&& plan.invocation.unwrap().interactive
                }
            },
            Err(e) => e matches EngineError::Config { .. },
        },
        r is Ok <==> (container_id@.len() == 0 || has_compose_file(component)),
{
    if !is_running_output(container_id) {
        let message = notice(component.name.as_str(), "\" is already stopped");
        return Ok(OpPlan { message: Some(message), invocation: None });
    }
    let mut verb: Vec<String> = Vec::new();
    verb.push(String::from_str("stop"));
    proof {
        assert(str_views(verb@) =~= seq!["stop"@]);
    }
    match component.compose_invocation(&verb, true) {
        Ok(inv) => Ok(OpPlan { message: None, invocation: Some(inv) }),
        Err(e) => Err(e),
    }
}

/// Decides `destroy`: a Running component gets the teardown verb, a Stopped
/// one needs nothing.
pub fn destroy_plan(component: &Component, container_id: &str) -> (r: Result<OpPlan, EngineError>)
    requires
        component.wf(),
    ensures
        match r {
            Ok(plan) => {
                &&& plan.message is None
                &&& container_id@.len() == 0 ==> plan.invocation is None
                &&& container_id@.len() != 0 ==> {
                    &&& plan.invocation is Some
                    &&& str_views(plan.invocation.unwrap().command@) == compose_argv(
                        ctx_value(component.context.unwrap().ctx(), "COMPOSE_FILE"@),
                        seq!["down"@],
                    )
                    &&& plan.invocation.unwrap().interactive
                }
            },
            Err(e) => e matches EngineError::Config { .. },
        },
        r is Ok <==> (container_id@.len() == 0 || has_compose_file(component)),
{
    if !is_running_output(container_id) {
        return Ok(OpPlan { message: None, invocation: None });
    }
    let mut verb: Vec<String> = Vec::new();
    verb.push(String::from_str("down"));
    proof {
        assert(str_views(verb@) =~= seq!["down"@]);
    }
    match component.compose_invocation(&verb, true) {
        Ok(inv) => Ok(OpPlan { message: None, invocation: Some(inv) }),
        Err(e) => Err(e),
    }
}

/// Decides the first half of `restart`: a hard restart tears the component
/// down, a soft one stops it; either way the caller then re-observes the
/// running state and performs a fresh start.
pub fn restart_plan(component: &Component, hard: bool, container_id: &str) -> (r: Result<
    OpPlan,
    EngineError,
>)
    requires
        component.wf(),
    ensures
        r is Ok <==> (container_id@.len() == 0 || has_compose_file(component)),
        match r {
            Ok(plan) => {
                &&& container_id@.len() == 0 ==> plan.invocation is None
                &&& container_id@.len() != 0 ==> {
                    &&& plan.message is None
                    &&& plan.invocation is Some
                    &&& str_views(plan.invocation.unwrap().command@) == compose_argv(
                        ctx_value(component.context.unwrap().ctx(), "COMPOSE_FILE"@),
                        (if hard {
                            seq!["down"@]
                        } else {
                            seq!["stop"@]
                        }),
                    )
                    &&& plan.invocation.unwrap().interactive
                }
                &&& hard ==> plan.message is None
                &&& (!hard && container_id@.len() == 0) ==> (plan.message is Some
                    && plan.message.unwrap()@ == already_stopped_msg(component.name@))
            },
            Err(e) => e matches EngineError::Config { .. },
        },
{
    if hard {
        destroy_plan(component, container_id)
    } else {
        stop_plan(component, container_id)
    }
}

/// Decides what a captured invocation produced: a successful exit hands back
/// its standard output, a failing one is an external-tool error carrying the
/// captured standard error.
pub fn captured_outcome(success: bool, stdout: String, stderr: String) -> (r: Result<
    String,
    EngineError,
>)
    ensures
        r is Ok <==> success,
        success ==> (r matches Ok(out) && out@ == stdout@),
        !success ==> (r matches Err(e) && e matches EngineError::ExternalTool { stderr: s } && s@
            == stderr@),
{
    if success {
        Ok(stdout)
    } else {
        Err(EngineError::ExternalTool { stderr })
    }
}

/// The working-directory tokens of an exec invocation.
pub open spec fn wd_part(options: &GlobalOptions) -> Seq<Seq<char>> {
    match options.working_dir {
        Some(wd) => seq!["-w"@, wd@],
        None => Seq::empty(),
    }
}

/// The run-as-user tokens of an exec invocation: the explicit UID option, or
/// else the `USER_ID:GROUP_ID` pair from the context.
pub open spec fn uid_part(ctx: Ctx, options: &GlobalOptions) -> Seq<Seq<char>> {
    match options.uid {
        Some(u) => seq!["-u"@, dec_str(u as nat)],
        None => seq!["-u"@, ctx_value(ctx, "USER_ID"@) + ":"@ + ctx_value(ctx, "GROUP_ID"@)],
    }
}

/// The pseudo-TTY tokens: allocation is disabled when asked for or when the
/// calling process has no interactive terminal.
pub open spec fn tty_part(options: &GlobalOptions, stdout_tty: bool) -> Seq<Seq<char>> {
    if options.no_tty || !stdout_tty {
        seq!["-T"@]
    } else {
        Seq::empty()
    }
}

/// The full argument vector of an exec against the fixed in-compose service.
pub open spec fn custom_args(ctx: Ctx, options: &GlobalOptions, stdout_tty: bool) -> Seq<
    Seq<char>,
> {
    seq!["exec"@] + wd_part(options) + uid_part(ctx, options) + tty_part(options, stdout_tty)
        + seq!["app"@] + str_views(options.cmd.unwrap()@)
}

/// The run-as user cannot be determined: no explicit UID and no
/// `USER_ID`/`GROUP_ID` pair in the context.
pub open spec fn uid_missing(ctx: Ctx, options: &GlobalOptions) -> bool {
    options.uid is None && (!ctx_contains(ctx, "USER_ID"@) || !ctx_contains(ctx, "GROUP_ID"@))
}

/// Builds the exec argument vector: working directory, run-as user (explicit
/// UID or the context's `USER_ID:GROUP_ID`, whose absence is a fatal error),
/// TTY control, the fixed in-compose service name, then the user's command.
pub fn custom_exec_args(component: &Component, options: &GlobalOptions, stdout_tty: bool) -> (r:
    Result<Vec<String>, EngineError>)
    requires
        component.wf(),
        component.context is Some,
        options.cmd is Some,
    ensures
        r is Err <==> uid_missing(component.context.unwrap().ctx(), options),
        match r {
            Ok(v) => str_views(v@) == custom_args(
                component.context.unwrap().ctx(),
                options,
                stdout_tty,
            ),
            Err(e) => e matches EngineError::Config { message } && message@ == (
            if !ctx_contains(component.context.unwrap().ctx(), "USER_ID"@) {
                "variable \"USER_ID\" is not set"@
            } else {
                "variable \"GROUP_ID\" is not set"@
            }),
        },
{
    let ctx = component.context.as_ref().unwrap();
    let ghost gctx = ctx.ctx();
    let mut cmd: Vec<String> = Vec::new();
    cmd.push(String::from_str("exec"));
    if let Some(wd) = &options.working_dir {
        cmd.push(String::from_str("-w"));
        cmd.push(wd.clone());
    }
    match &options.uid {
        Some(u) => {
            cmd.push(String::from_str("-u"));
            cmd.push(u32_to_string(*u));
        },
        None => {
            proof {
                lemma_ctx_lookup(ctx, "USER_ID"@);
                lemma_ctx_lookup(ctx, "GROUP_ID"@);
            }
            let user = match ctx.get("USER_ID") {
                Some(u) => u.clone(),
                None => {
                    return Err(
                        EngineError::Config {
                            message: String::from_str("variable \"USER_ID\" is not set"),
                        },
                    );
                },
            };
            let group = match ctx.get("GROUP_ID") {
                Some(g) => g.clone(),
                None => {
                    return Err(
                        EngineError::Config {
                            message: String::from_str("variable \"GROUP_ID\" is not set"),
                        },
                    );
                },
            };
            let mut ug = user;
            ug.append(":");
            ug.append(group.as_str());
            cmd.push(String::from_str("-u"));
            cmd.push(ug);
        },
    }
    if options.no_tty || !stdout_tty {
        cmd.push(String::from_str("-T"));
    }
    cmd.push(String::from_str("app"));
    crate::config::extend_string_vec(&mut cmd, options.cmd.as_ref().unwrap());
    proof {
        assert(str_views(cmd@) =~= custom_args(gctx, options, stdout_tty));
    }
    Ok(cmd)
}

/// Relies on atty::is: whether standard output is attached to an interactive
/// terminal.  The answer depends on the process's environment, so nothing is
/// promised of it.
#[verifier::external_body]
fn stdout_is_tty() -> bool {
    atty::is(atty::Stream::Stdout)
}

/// The exec invocation against this component, with the terminal state
/// observed from the calling process: for some observed terminal state, the
/// exact argument vector of `custom_args`.
pub fn custom_exec_invocation(component: &Component, options: &GlobalOptions) -> (r: Result<
    Invocation,
    EngineError,
>)
    requires
        component.wf(),
        component.context is Some,
        options.cmd is Some,
    ensures
        r is Err <==> (uid_missing(component.context.unwrap().ctx(), options) || !ctx_contains(
            component.context.unwrap().ctx(),
            "COMPOSE_FILE"@,
        )),
        match r {
            Ok(inv) => {
                &&& exists|t: bool|
                    str_views(inv.command@) == compose_argv(
                        ctx_value(component.context.unwrap().ctx(), "COMPOSE_FILE"@),
                        custom_args(component.context.unwrap().ctx(), options, t),
                    )
                &&& inv.env.wf()
                &&& inv.env.ctx() == component.context.unwrap().ctx()
                &&& inv.interactive
            },
            Err(e) => e matches EngineError::Config { .. },
        },
{
    let tty = stdout_is_tty();
    let args = match custom_exec_args(component, options, tty) {
        Ok(a) => a,
        Err(e) => {
            return Err(e);
        },
    };
    match component.compose_invocation(&args, true) {
        Ok(inv) => {
            proof {
                assert(str_views(inv.command@) == compose_argv(
                    ctx_value(component.context.unwrap().ctx(), "COMPOSE_FILE"@),
                    custom_args(component.context.unwrap().ctx(), options, tty),
                ));
            }
            Ok(inv)
        },
        Err(e) => Err(e),
    }
}

/// One row of the status table: the display state and the shortened
/// container id (at most twelve characters).
pub fn scan_entry(container_id: &str) -> (r: (String, String))
    ensures
        container_id@.len() == 0 ==> r.0@ == "Exited"@ && r.1@ == Seq::<char>::empty(),
        container_id@.len() != 0 ==> r.0@ == "Running"@ && r.1@ == (if container_id@.len() >= 12 {
            container_id@.take(12)
        } else {
            container_id@
        }),
{
    let n = container_id.unicode_len();
    if n == 0 {
        (String::from_str("Exited"), String::new())
    } else {
        let cut = if n >= 12 {
            12
        } else {
            n
        };
        let cs = crate::strutil::str_to_chars(container_id);
        let head = crate::subst::copy_range(&cs, 0, cut);
        let short = crate::strutil::chars_to_string(&head);
        proof {
            if container_id@.len() >= 12 {
                assert(container_id@.subrange(0, 12) =~= container_id@.take(12));
            } else {
                assert(container_id@.subrange(0, container_id@.len() as int) =~= container_id@);
            }
        }
        (String::from_str("Running"), short)
    }
}

} // verus!
