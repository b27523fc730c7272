use uniform::config::{
    get_deps, merge_component_configs, ComponentConfig, GlobalOptions, Mode, WorkspaceConfig,
};
use uniform::errors::EngineError;
use uniform::lifecycle::{
    captured_outcome, dep_needs_up, plan_invocation, restart_plan, start_plan, stop_plan,
    Invocation, ToolAction,
};
use uniform::ordmap::OrdMap;
use uniform::paths::SystemPath;
use uniform::subst::subst_vars;
use uniform::workspace::{create_workspace, resolve_deps, Workspace};

fn vars(pairs: &[(&str, &str)]) -> OrdMap<String> {
    let mut m = OrdMap::new();
    for (k, v) in pairs {
        m.insert(String::from(*k), String::from(*v));
    }
    m
}

fn options() -> GlobalOptions {
    GlobalOptions {
        workspace_name: None,
        debug: false,
        cmd: None,
        force: false,
        mode: None,
        working_dir: None,
        uid: None,
        tag: None,
        dry_run: false,
        no_tty: false,
    }
}

fn component_with(path: &str) -> ComponentConfig {
    let mut c = ComponentConfig::empty();
    c.path = Some(String::from(path));
    c
}

fn workspace_with(configs: Vec<(&str, ComponentConfig)>, variables: &[(&str, &str)]) -> Workspace {
    let mut components = OrdMap::new();
    for (name, cfg) in configs {
        components.insert(String::from(name), cfg);
    }
    let mut ws = create_workspace(SystemPath::new("/ws"), "/cwd");
    ws.config = Some(WorkspaceConfig {
        name: String::from("acme"),
        version: String::from("1"),
        variables: vars(variables),
        components,
    });
    ws
}

#[test]
fn substitute_bound_name() {
    let m = vars(&[("FOO", "bar")]);
    assert_eq!(subst_vars("${FOO}", &m), "bar");
}

#[test]
fn substitute_literal_default() {
    let m = vars(&[]);
    assert_eq!(subst_vars("${FOO:default}", &m), "default");
}

#[test]
fn substitute_indirect_default() {
    let m = vars(&[("BAR", "baz")]);
    assert_eq!(subst_vars("${FOO:$BAR}", &m), "baz");
}

#[test]
fn substitute_quoted_default() {
    let m = vars(&[]);
    assert_eq!(subst_vars("${FOO:'literal'}", &m), "literal");
    assert_eq!(subst_vars("${FOO:\"literal\"}", &m), "literal");
}

#[test]
fn substitute_context_beats_default() {
    let m = vars(&[("FOO", "bound")]);
    assert_eq!(subst_vars("${FOO:default}", &m), "bound");
}

#[test]
fn substitute_missing_name_without_default_is_empty() {
    let m = vars(&[]);
    assert_eq!(subst_vars("a${FOO}b", &m), "ab");
}

#[test]
fn substitute_trims_plain_defaults() {
    let m = vars(&[]);
    assert_eq!(subst_vars("${FOO: padded }", &m), "padded");
}

#[test]
fn substitute_leaves_non_placeholders_alone() {
    let m = vars(&[("FOO", "x")]);
    assert_eq!(subst_vars("${foo} ${FOO:} $FOO {FOO}", &m), "${foo} ${FOO:} $FOO {FOO}");
    assert_eq!(subst_vars("pre ${FOO} post", &m), "pre x post");
}

#[test]
fn substitute_single_pass_no_recursion() {
    let m = vars(&[("A", "${B}"), ("B", "deep")]);
    assert_eq!(subst_vars("${A}", &m), "${B}");
}

#[test]
fn context_builder_plain_component() {
    let mut ws = workspace_with(
        vec![("web", component_with("${ROOT}/web"))],
        &[("ROOT", "/srv")],
    );
    ws.init(&options()).unwrap();
    let web = ws.components.get("web").unwrap();
    let ctx = web.context.as_ref().unwrap();
    assert_eq!(ctx.get("SVC_PATH").unwrap(), "/srv/web");
    assert_eq!(ctx.get("COMPOSE_FILE").unwrap(), "/srv/web/docker-compose.yml");
    assert_eq!(ctx.get("APP_NAME").unwrap(), "web");
    assert_eq!(ctx.get("COMPOSE_PROJECT_NAME").unwrap(), "acme-web");
    assert_eq!(ctx.get("WORKSPACE_NAME").unwrap(), "acme");
    assert_eq!(ctx.get("WORKSPACE_PATH").unwrap(), "/ws");
}

#[test]
fn context_builder_with_extends() {
    let mut tpl = component_with("${ROOT}/tpl");
    tpl.is_template = true;
    tpl.variables.insert(String::from("X"), String::from("1"));
    let mut web = component_with("${ROOT}/web");
    web.extends = Some(String::from("tpl"));
    let mut ws = workspace_with(vec![("tpl", tpl), ("web", web)], &[("ROOT", "/srv")]);
    ws.init(&options()).unwrap();
    let web = ws.components.get("web").unwrap();
    let ctx = web.context.as_ref().unwrap();
    assert_eq!(ctx.get("TPL_PATH").unwrap(), "/srv/tpl");
    assert_eq!(ctx.get("X").unwrap(), "1");
    assert_eq!(ctx.get("SVC_PATH").unwrap(), "/srv/web");
    assert_eq!(ctx.get("COMPOSE_FILE").unwrap(), "/srv/tpl/docker-compose.yml");
}

#[test]
fn component_compose_file_overrides_template() {
    let mut tpl = component_with("${ROOT}/tpl");
    tpl.is_template = true;
    let mut web = component_with("${ROOT}/web");
    web.extends = Some(String::from("tpl"));
    web.compose_file = Some(String::from("${SVC_PATH}/custom.yml"));
    let mut ws = workspace_with(vec![("tpl", tpl), ("web", web)], &[("ROOT", "/srv")]);
    ws.init(&options()).unwrap();
    let ctx = ws.components.get("web").unwrap().context.as_ref().unwrap().duplicate();
    assert_eq!(ctx.get("COMPOSE_FILE").unwrap(), "/srv/web/custom.yml");
}

#[test]
fn unknown_extends_enumerates_components() {
    let mut web = component_with("/web");
    web.extends = Some(String::from("ghost"));
    let mut ws = workspace_with(
        vec![("web", web), ("db", component_with("/db"))],
        &[],
    );
    let err = ws.init(&options()).unwrap_err();
    match &err {
        EngineError::Reference { missing, known } => {
            assert_eq!(missing, "ghost");
            assert_eq!(known.len(), 2);
            assert_eq!(known[0], "web");
            assert_eq!(known[1], "db");
        }
        _ => panic!("expected a reference error"),
    }
    let text = err.message();
    assert!(text.contains("web"));
    assert!(text.contains("db"));
    assert_eq!(text, "ghost is not defined. Known components: web, db");
}

#[test]
fn dependency_filter_by_mode() {
    let mut cc = component_with("/svc");
    cc.dependencies.insert(String::from("redis"), vec![Mode::Default]);
    assert_eq!(get_deps(&cc, &Mode::Hook).len(), 0);
    let active = get_deps(&cc, &Mode::Default);
    assert_eq!(active, vec![String::from("redis")]);
}

#[test]
fn merge_replace_returns_override() {
    let mut base = component_with("/base");
    base.tags.push(String::from("old"));
    let mut over = component_with("/over");
    over.replace = true;
    over.alias = Some(String::from("o"));
    let merged = merge_component_configs(&base, &over);
    assert_eq!(merged.path, Some(String::from("/over")));
    assert_eq!(merged.alias, Some(String::from("o")));
    assert!(merged.tags.is_empty());
    assert!(merged.replace);
}

#[test]
fn merge_concatenates_tags_and_unions_modes() {
    let mut base = component_with("/base");
    base.tags.push(String::from("a"));
    base.tags.push(String::from("b"));
    base.dependencies.insert(String::from("redis"), vec![Mode::Default]);
    let mut over = ComponentConfig::empty();
    over.tags.push(String::from("b"));
    over.dependencies.insert(String::from("redis"), vec![Mode::Hook, Mode::Default]);
    over.dependencies.insert(String::from("pg"), vec![Mode::Hook]);
    let merged = merge_component_configs(&base, &over);
    assert_eq!(merged.tags, vec![String::from("a"), String::from("b"), String::from("b")]);
    assert_eq!(merged.path, Some(String::from("/base")));
    let redis = merged.dependencies.get("redis").unwrap();
    assert_eq!(redis, &vec![Mode::Default, Mode::Hook]);
    let pg = merged.dependencies.get("pg").unwrap();
    assert_eq!(pg, &vec![Mode::Hook]);
}

#[test]
fn workspace_merge_overlays() {
    let a = workspace_with(vec![("web", component_with("/web"))], &[("K", "1")]);
    let mut b_components = OrdMap::new();
    let mut web2 = ComponentConfig::empty();
    web2.alias = Some(String::from("w"));
    b_components.insert(String::from("web"), web2);
    b_components.insert(String::from("db"), component_with("/db"));
    let overlay = WorkspaceConfig {
        name: String::from("other"),
        version: String::from("2"),
        variables: vars(&[("K", "2"), ("L", "3")]),
        components: b_components,
    };
    let merged = a.config.as_ref().unwrap().merge(&overlay);
    assert_eq!(merged.name, "acme");
    assert_eq!(merged.variables.get("K").unwrap(), "2");
    assert_eq!(merged.variables.get("L").unwrap(), "3");
    let web = merged.components.get("web").unwrap();
    assert_eq!(web.alias, Some(String::from("w")));
    assert_eq!(web.path, Some(String::from("/web")));
    assert!(merged.components.get("db").is_some());
}

fn init_ws(ws: &mut Workspace) {
    ws.init(&options()).unwrap();
}

#[test]
fn resolve_deps_transitive_preorder() {
    let mut a = component_with("/a");
    a.dependencies.insert(String::from("b"), vec![Mode::Default]);
    let mut b = component_with("/b");
    b.dependencies.insert(String::from("d"), vec![Mode::Default]);
    let c = component_with("/c");
    let d = component_with("/d");
    let mut ws = workspace_with(vec![("a", a), ("b", b), ("c", c), ("d", d)], &[]);
    init_ws(&mut ws);
    let out = resolve_deps(&ws, &vec![String::from("a"), String::from("c")]).unwrap();
    let names: Vec<&str> = out.iter().map(|c| c.name.as_str()).collect();
    assert_eq!(names, vec!["a", "b", "d", "c"]);
}

#[test]
fn resolve_deps_diamond_is_expanded_once() {
    let mut a = component_with("/a");
    a.dependencies.insert(String::from("b"), vec![Mode::Default]);
    a.dependencies.insert(String::from("c"), vec![Mode::Default]);
    let mut b = component_with("/b");
    b.dependencies.insert(String::from("d"), vec![Mode::Default]);
    let mut c = component_with("/c");
    c.dependencies.insert(String::from("d"), vec![Mode::Default]);
    let d = component_with("/d");
    let mut ws = workspace_with(vec![("a", a), ("b", b), ("c", c), ("d", d)], &[]);
    init_ws(&mut ws);
    let out = resolve_deps(&ws, &vec![String::from("a")]).unwrap();
    let names: Vec<&str> = out.iter().map(|c| c.name.as_str()).collect();
    assert_eq!(names, vec!["a", "b", "d", "c"]);
}

#[test]
fn resolve_deps_cycle_terminates() {
    let mut a = component_with("/a");
    a.dependencies.insert(String::from("b"), vec![Mode::Default]);
    let mut b = component_with("/b");
    b.dependencies.insert(String::from("a"), vec![Mode::Default]);
    let mut ws = workspace_with(vec![("a", a), ("b", b)], &[]);
    init_ws(&mut ws);
    let out = resolve_deps(&ws, &vec![String::from("a")]).unwrap();
    let names: Vec<&str> = out.iter().map(|c| c.name.as_str()).collect();
    assert_eq!(names, vec!["a", "b"]);
}

#[test]
fn resolve_deps_unknown_name_is_reference_error() {
    let mut ws = workspace_with(vec![("a", component_with("/a"))], &[]);
    init_ws(&mut ws);
    let err = resolve_deps(&ws, &vec![String::from("nope")]).unwrap_err();
    match err {
        EngineError::Reference { missing, known } => {
            assert_eq!(missing, "nope");
            assert_eq!(known, vec![String::from("a")]);
        }
        _ => panic!("expected a reference error"),
    }
}

#[test]
fn start_already_running_makes_no_invocations() {
    let mut ws = workspace_with(vec![("web", component_with("/web"))], &[]);
    init_ws(&mut ws);
    let web = ws.components.get("web").unwrap();
    let opts = options();
    let plan = start_plan(web, &ws, &opts, "c0ffee").unwrap();
    assert_eq!(plan.message.unwrap(), "Component \"web\" is already running");
    assert!(plan.dep_ups.is_empty());
    assert!(plan.target_up.is_none());
}

#[test]
fn start_stopped_brings_deps_then_target() {
    let mut web = component_with("/web");
    web.dependencies.insert(String::from("db"), vec![Mode::Default]);
    let db = component_with("/db");
    let mut ws = workspace_with(vec![("web", web), ("db", db)], &[]);
    init_ws(&mut ws);
    let web = ws.components.get("web").unwrap();
    let opts = options();
    let plan = start_plan(web, &ws, &opts, "").unwrap();
    assert!(plan.message.is_none());
    assert_eq!(plan.dep_ups.len(), 1);
    assert_eq!(plan.dep_ups[0].name, "db");
    let dep_cmd: Vec<&str> = plan.dep_ups[0].invocation.command.iter().map(|s| s.as_str()).collect();
    assert_eq!(dep_cmd, vec!["docker", "compose", "-f", "/db/docker-compose.yml", "up", "-d"]);
    let target = plan.target_up.unwrap();
    let cmd: Vec<&str> = target.command.iter().map(|s| s.as_str()).collect();
    assert_eq!(cmd, vec!["docker", "compose", "-f", "/web/docker-compose.yml", "up", "-d"]);
    assert!(target.interactive);
}

#[test]
fn start_forced_while_running_still_invokes() {
    let mut ws = workspace_with(vec![("web", component_with("/web"))], &[]);
    init_ws(&mut ws);
    let web = ws.components.get("web").unwrap();
    let mut opts = options();
    opts.force = true;
    let plan = start_plan(web, &ws, &opts, "c0ffee").unwrap();
    assert!(plan.message.is_none());
    assert!(plan.target_up.is_some());
}

#[test]
fn stop_plans() {
    let mut ws = workspace_with(vec![("web", component_with("/web"))], &[]);
    init_ws(&mut ws);
    let web = ws.components.get("web").unwrap();
    let stopped = stop_plan(web, "").unwrap();
    assert_eq!(stopped.message.unwrap(), "Component \"web\" is already stopped");
    assert!(stopped.invocation.is_none());
    let running = stop_plan(web, "c0ffee").unwrap();
    assert!(running.message.is_none());
    let cmd: Vec<String> = running.invocation.unwrap().command;
    assert_eq!(cmd.last().unwrap(), "stop");
}

#[test]
fn dry_run_skips_every_invocation() {
    let mut opts = options();
    opts.dry_run = true;
    let inv = Invocation { command: vec![String::from("docker")], env: OrdMap::new(), interactive: true };
    match plan_invocation(&opts, inv) {
        ToolAction::Skip { output } => assert_eq!(output, ""),
        ToolAction::Spawn { .. } => panic!("dry run must not spawn"),
    }
    // and without dry-run the invocation is spawned as given
    opts.dry_run = false;
    let inv = Invocation { command: vec![String::from("docker")], env: OrdMap::new(), interactive: true };
    match plan_invocation(&opts, inv) {
        ToolAction::Skip { .. } => panic!("must spawn without dry run"),
        ToolAction::Spawn { invocation } => assert_eq!(invocation.command[0], "docker"),
    }
}

#[test]
fn dry_run_covers_start_and_exec_plans() {
    let mut ws = workspace_with(vec![("web", component_with("/web"))], &[]);
    init_ws(&mut ws);
    let web = ws.components.get("web").unwrap();
    let mut opts = options();
    opts.dry_run = true;
    let plan = start_plan(web, &ws, &opts, "").unwrap();
    let up = plan.target_up.unwrap();
    match plan_invocation(&opts, up) {
        ToolAction::Skip { output } => assert_eq!(output, ""),
        ToolAction::Spawn { .. } => panic!("dry run must not spawn for start"),
    }
    opts.cmd = Some(vec![String::from("ls")]);
    opts.uid = Some(42);
    let exec_inv = uniform::lifecycle::custom_exec_invocation(web, &opts).unwrap();
    match plan_invocation(&opts, exec_inv) {
        ToolAction::Skip { output } => assert_eq!(output, ""),
        ToolAction::Spawn { .. } => panic!("dry run must not spawn for exec"),
    }
}

#[test]
fn custom_exec_args_use_uid_or_context() {
    let mut ws = workspace_with(vec![("web", component_with("/web"))], &[]);
    init_ws(&mut ws);
    let web = ws.components.get("web").unwrap();
    let mut opts = options();
    opts.cmd = Some(vec![String::from("bash"), String::from("-l")]);
    opts.uid = Some(1000);
    opts.no_tty = true;
    let args = uniform::lifecycle::custom_exec_args(web, &opts, false).unwrap();
    let v: Vec<&str> = args.iter().map(|s| s.as_str()).collect();
    assert_eq!(v, vec!["exec", "-u", "1000", "-T", "app", "bash", "-l"]);

    opts.uid = None;
    let err = uniform::lifecycle::custom_exec_args(web, &opts, false).unwrap_err();
    match err {
        EngineError::Config { message } => assert_eq!(message, "variable \"USER_ID\" is not set"),
        _ => panic!("expected a configuration error"),
    }
}

#[test]
fn custom_exec_args_take_ids_from_context() {
    let mut web = component_with("/web");
    web.variables.insert(String::from("USER_ID"), String::from("501"));
    web.variables.insert(String::from("GROUP_ID"), String::from("20"));
    let mut ws = workspace_with(vec![("web", web)], &[]);
    init_ws(&mut ws);
    let web = ws.components.get("web").unwrap();
    let mut opts = options();
    opts.cmd = Some(vec![String::from("id")]);
    opts.working_dir = Some(String::from("/srv"));
    let args = uniform::lifecycle::custom_exec_args(web, &opts, true).unwrap();
    let v: Vec<&str> = args.iter().map(|s| s.as_str()).collect();
    assert_eq!(v, vec!["exec", "-w", "/srv", "-u", "501:20", "app", "id"]);
}

#[test]
fn ps_invocation_queries_running_containers() {
    let mut ws = workspace_with(vec![("web", component_with("/web"))], &[]);
    init_ws(&mut ws);
    let web = ws.components.get("web").unwrap();
    let inv = web.ps_invocation().unwrap();
    let v: Vec<&str> = inv.command.iter().map(|s| s.as_str()).collect();
    assert_eq!(v, vec!["docker", "compose", "-f", "/web/docker-compose.yml", "ps", "--status=running", "-q"]);
    assert!(!inv.interactive);
    assert_eq!(inv.env.get("APP_NAME").unwrap(), "web");
}

#[test]
fn scan_entry_states_and_short_id() {
    let (state, id) = uniform::lifecycle::scan_entry("");
    assert_eq!(state, "Exited");
    assert_eq!(id, "");
    let (state, id) = uniform::lifecycle::scan_entry("0123456789abcdef0123");
    assert_eq!(state, "Running");
    assert_eq!(id, "0123456789ab");
    let (state, id) = uniform::lifecycle::scan_entry("abc");
    assert_eq!(state, "Running");
    assert_eq!(id, "abc");
}

#[test]
fn destroy_plans() {
    let mut ws = workspace_with(vec![("web", component_with("/web"))], &[]);
    init_ws(&mut ws);
    let web = ws.components.get("web").unwrap();
    let stopped = uniform::lifecycle::destroy_plan(web, "").unwrap();
    assert!(stopped.message.is_none());
    assert!(stopped.invocation.is_none());
    let running = uniform::lifecycle::destroy_plan(web, "c0ffee").unwrap();
    let cmd: Vec<String> = running.invocation.unwrap().command;
    assert_eq!(cmd.last().unwrap(), "down");
}

#[test]
fn restart_plans_pick_the_first_step() {
    let mut ws = workspace_with(vec![("web", component_with("/web"))], &[]);
    init_ws(&mut ws);
    let web = ws.components.get("web").unwrap();
    let hard = restart_plan(web, true, "c0ffee").unwrap();
    assert_eq!(hard.invocation.unwrap().command.last().unwrap(), "down");
    let soft = restart_plan(web, false, "c0ffee").unwrap();
    assert_eq!(soft.invocation.unwrap().command.last().unwrap(), "stop");
    let idle = restart_plan(web, false, "").unwrap();
    assert!(idle.invocation.is_none());
    assert_eq!(idle.message.unwrap(), "Component \"web\" is already stopped");
}

#[test]
fn dependency_gating_checks_the_dependency_itself() {
    assert!(dep_needs_up("", false));
    assert!(dep_needs_up("", true));
    assert!(dep_needs_up("c0ffee", true));
    assert!(!dep_needs_up("c0ffee", false));
}

#[test]
fn captured_outcome_follows_the_exit() {
    let ok = captured_outcome(true, String::from("out"), String::from("err")).unwrap();
    assert_eq!(ok, "out");
    match captured_outcome(false, String::from("out"), String::from("boom")) {
        Err(EngineError::ExternalTool { stderr }) => assert_eq!(stderr, "boom"),
        _ => panic!("expected an external-tool error"),
    }
}

#[test]
fn custom_exec_args_name_the_missing_group() {
    let mut web = component_with("/web");
    web.variables.insert(String::from("USER_ID"), String::from("501"));
    let mut ws = workspace_with(vec![("web", web)], &[]);
    init_ws(&mut ws);
    let web = ws.components.get("web").unwrap();
    let mut opts = options();
    opts.cmd = Some(vec![String::from("id")]);
    match uniform::lifecycle::custom_exec_args(web, &opts, true) {
        Err(EngineError::Config { message }) => {
            assert_eq!(message, "variable \"GROUP_ID\" is not set")
        }
        _ => panic!("expected a configuration error"),
    }
}

#[test]
fn require_executable_distinguishes_unknown_from_template() {
    let mut tpl = component_with("/tpl");
    tpl.is_template = true;
    let mut ws = workspace_with(vec![("tpl", tpl), ("web", component_with("/web"))], &[]);
    init_ws(&mut ws);
    assert_eq!(ws.require_executable("web").unwrap().name, "web");
    match ws.require_executable("ghost") {
        Err(EngineError::Reference { missing, known }) => {
            assert_eq!(missing, "ghost");
            assert_eq!(known, vec![String::from("web")]);
        }
        _ => panic!("expected a reference error"),
    }
    match ws.require_executable("tpl") {
        Err(EngineError::State { message }) => {
            assert_eq!(
                message,
                "You can't operate on a service template, please use instances: web"
            );
        }
        _ => panic!("expected a state error"),
    }
}

#[test]
fn workspace_init_rebuilds_the_component_map() {
    let mut ws = workspace_with(vec![("web", component_with("/web"))], &[]);
    init_ws(&mut ws);
    // a second initialisation rebuilds the map wholesale
    init_ws(&mut ws);
    assert_eq!(ws.components.len(), 1);
    assert!(ws.components.get("web").is_some());
}
