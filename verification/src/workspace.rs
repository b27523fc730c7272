//! The workspace: the loaded configuration, the per-workspace variable
//! context, and the runtime view of every declared component.
use vstd::prelude::*;
use vstd::string::*;

use crate::config::{cfg_eq, ComponentConfig, GlobalOptions, WorkspaceConfig};
use crate::errors::EngineError;
use crate::ordmap::{
    ctx_insert, lemma_ctx_insert, lemma_ctx_lookup, lemma_key_index, str_views, Ctx, OrdMap,
};
use crate::paths::SystemPath;
use crate::strutil::str_eq;
use crate::subst::{insert_all_subst, insert_vars_subst, subst_spec, subst_vars};

verus! {

/// The runtime view of one component: its declaration, the resolved template
/// it extends (if any), and its fully resolved variable context.
#[derive(Debug)]
pub struct Component {
    pub name: String,
    pub config: ComponentConfig,
    pub template: Option<ComponentConfig>,
    pub just_started: Option<bool>,
    pub context: Option<OrdMap<String>>,
}

impl Component {
    pub open spec fn wf(&self) -> bool {
        &&& self.config.wf()
        &&& self.config.path is Some
        &&& match self.template {
            Some(t) => t.wf(),
            None => true,
        }
        &&& match self.context {
            Some(c) => c.wf(),
            None => true,
        }
    }
}

/// Observational equality of two runtime components.
pub open spec fn comp_eq(a: &Component, b: &Component) -> bool {
    &&& a.name@ == b.name@
    &&& cfg_eq(&a.config, &b.config)
    &&& match (a.template, b.template) {
        (Some(ta), Some(tb)) => cfg_eq(&ta, &tb),
        (None, None) => true,
        _ => false,
    }
    &&& a.just_started == b.just_started
    &&& match (a.context, b.context) {
        (Some(ca), Some(cb)) => ca.ctx() == cb.ctx(),
        (None, None) => true,
        _ => false,
    }
}

impl Component {
    /// A fresh component observationally equal to this one.
    pub fn duplicate(&self) -> (r: Component)
        requires
            self.wf(),
        ensures
            r.wf(),
            comp_eq(&r, self),
    {
        Component {
            name: self.name.clone(),
            config: self.config.duplicate(),
            template: match &self.template {
                Some(t) => Some(t.duplicate()),
                None => None,
            },
            just_started: self.just_started,
            context: match &self.context {
                Some(c) => Some(c.duplicate()),
                None => None,
            },
        }
    }
}

/// One development environment: configuration, shared context and components.
#[derive(Debug)]
pub struct Workspace {
    pub aliases: OrdMap<String>,
    pub components: OrdMap<Component>,
    pub cwd: String,
    pub config_path: SystemPath,
    pub context: OrdMap<String>,
    pub config: Option<WorkspaceConfig>,
}

impl Workspace {
    pub open spec fn wf(&self) -> bool {
        &&& self.aliases.wf()
        &&& self.components.wf()
        &&& self.context.wf()
        &&& forall|i: int|
            0 <= i < self.components.val_seq().len() ==> (#[trigger] self.components.val_seq()[i]).wf()
                && self.components.val_seq()[i].name@ == self.components.key_seq()[i]
        &&& match self.config {
            Some(cfg) => cfg.wf() && forall|i: int|
                0 <= i < cfg.components.val_seq().len() ==> cfg.components.val_seq()[i].path
                    is Some,
            None => true,
        }
    }
}

/// An empty workspace rooted at `ws_path`, before its configuration is set.
pub fn create_workspace(ws_path: SystemPath, cwd: &str) -> (r: Workspace)
    ensures
        r.wf(),
        r.aliases.key_seq() == Seq::<Seq<char>>::empty(),
        r.components.key_seq() == Seq::<Seq<char>>::empty(),
        r.cwd@ == cwd@,
        r.config_path == ws_path,
        r.context.key_seq() == Seq::<Seq<char>>::empty(),
        r.config is None,
{
    Workspace {
        aliases: OrdMap::new(),
        components: OrdMap::new(),
        cwd: String::from_str(cwd),
        config_path: ws_path,
        context: OrdMap::new(),
        config: None,
    }
}

/// The per-workspace context: `WORKSPACE_PATH`, then — when a configuration
/// is loaded — `WORKSPACE_NAME` and every workspace variable in declaration
/// order, each substituted against the context built so far.
pub open spec fn ws_ctx(ws: &Workspace) -> Ctx {
    let c0 = ctx_insert(Seq::empty(), "WORKSPACE_PATH"@, ws.config_path.normal@);
    match ws.config {
        None => c0,
        Some(cfg) => insert_all_subst(
            ctx_insert(c0, "WORKSPACE_NAME"@, cfg.name@),
            cfg.variables.key_seq(),
            str_views(cfg.variables.val_seq()),
            0,
        ),
    }
}

impl Workspace {
    /// Builds the per-workspace context from the configuration.
    pub fn create_context(&self) -> (r: OrdMap<String>)
        requires
            self.wf(),
        ensures
            r.wf(),
            r.ctx() == ws_ctx(self),
    {
        let mut ctx: OrdMap<String> = OrdMap::new();
        let ghost e: OrdMap<String> = ctx;
        ctx.insert(String::from_str("WORKSPACE_PATH"), self.config_path.normal.clone());
        proof {
            assert(e.ctx() =~= Seq::<(Seq<char>, Seq<char>)>::empty());
            lemma_ctx_insert(&e, &ctx, "WORKSPACE_PATH"@, self.config_path.normal);
        }
        match &self.config {
            None => {},
            Some(cfg) => {
                let ghost c1 = ctx;
                ctx.insert(String::from_str("WORKSPACE_NAME"), cfg.name.clone());
                proof {
                    lemma_ctx_insert(&c1, &ctx, "WORKSPACE_NAME"@, cfg.name);
                }
                insert_vars_subst(&mut ctx, &cfg.variables);
            },
        }
        ctx
    }

    /// Every declared component name, in declaration order.
    pub fn get_component_names(&self) -> (r: Vec<String>)
        requires
            self.wf(),
        ensures
            str_views(r@) == self.components.key_seq(),
    {
        self.components.keys_cloned()
    }

    /// The names whose components are not templates, in declaration order.
    pub fn get_executable_component_names(&self) -> (r: Vec<String>)
        requires
            self.wf(),
        ensures
            str_views(r@) == executable_names(self.components.key_seq(), self.components.val_seq(), 0),
    {
        let ghost keys = self.components.key_seq();
        let ghost vals = self.components.val_seq();
        let mut r: Vec<String> = Vec::new();
        let n = self.components.len();
        let mut i: usize = 0;
        while i < n
            invariant
                self.wf(),
                i <= n,
                n == keys.len(),
                keys == self.components.key_seq(),
                vals == self.components.val_seq(),
                str_views(r@) + executable_names(keys, vals, i as int) == executable_names(
                    keys,
                    vals,
                    0,
                ),
            decreases n - i,
        {
            let ghost prev = str_views(r@);
            if !self.components.val_at(i).config.is_template {
                r.push(self.components.val_at(i).name.clone());
                proof {
                    assert(str_views(r@) =~= prev + seq![vals[i as int].name@]);
                }
            }
            i = i + 1;
        }
        proof {
            assert(executable_names(keys, vals, n as int) == Seq::<Seq<char>>::empty());
            assert(str_views(r@) + Seq::<Seq<char>>::empty() =~= str_views(r@));
        }
        r
    }

    /// A component that may be operated on: declared and not a template.
    pub fn find_executable_component(&self, name: &str) -> (r: Option<&Component>)
        requires
            self.wf(),
        ensures
            match r {
                Some(c) => self.components.contains_key(name@) && *c == self.components.value_of(
                    name@,
                ) && !c.config.is_template,
                None => !self.components.contains_key(name@)
                    || self.components.value_of(name@).config.is_template,
            },
    {
        match self.components.get(name) {
            None => None,
            Some(component) => {
                if component.config.is_template {
                    None
                } else {
                    Some(component)
                }
            },
        }
    }
}

/// The stored template next to its declaration: equal in every field, except
/// that a missing `composeFile` has been defaulted to the template-relative
/// compose file location.
pub open spec fn tpl_like(src: &ComponentConfig, t: &ComponentConfig) -> bool {
    &&& t.alias == src.alias
    &&& t.dependencies.key_seq() == src.dependencies.key_seq()
    &&& t.exec_path == src.exec_path
    &&& t.extends == src.extends
    &&& t.hosted_in == src.hosted_in
    &&& t.hostname == src.hostname
    &&& t.is_template == src.is_template
    &&& t.path == src.path
    &&& t.replace == src.replace
    &&& t.variables.key_seq() == src.variables.key_seq()
    &&& t.variables.val_seq() == src.variables.val_seq()
    &&& t.repository == src.repository
    &&& t.tags@ == src.tags@
    &&& t.after_clone_hook == src.after_clone_hook
    &&& (src.compose_file is Some ==> t.compose_file == src.compose_file)
    &&& (src.compose_file is None ==> t.compose_file is Some && t.compose_file.unwrap()@
        == "${TPL_PATH}/docker-compose.yml"@)
}

/// The compose-file template the stored template carries: the declared one,
/// or the template-relative default.
pub open spec fn tpl_compose_src(src: &ComponentConfig) -> Seq<char> {
    if src.compose_file is Some {
        src.compose_file.unwrap()@
    } else {
        "${TPL_PATH}/docker-compose.yml"@
    }
}

/// The fully resolved context of one component, built over the workspace
/// context `base`: `APP_NAME` and `COMPOSE_PROJECT_NAME`, then `SVC_PATH`
/// from the component's own path, then — under `extends` — `TPL_PATH`, the
/// template's `COMPOSE_FILE` and the template variables, then the component's
/// own `COMPOSE_FILE` (or the service-relative default), then the component
/// variables, each value substituted against the context built so far.
pub open spec fn component_ctx(
    base: Ctx,
    cfg: &WorkspaceConfig,
    name: Seq<char>,
    cc: &ComponentConfig,
) -> Ctx {
    let c1 = ctx_insert(base, "APP_NAME"@, name);
    let c2 = ctx_insert(c1, "COMPOSE_PROJECT_NAME"@, cfg.name@ + "-"@ + name);
    let c3 = ctx_insert(c2, "SVC_PATH"@, subst_spec(cc.path.unwrap()@, c2));
    let c6 = if cc.extends is Some && cfg.components.contains_key(cc.extends.unwrap()@) {
        let tpl = cfg.components.value_of(cc.extends.unwrap()@);
        let c4 = ctx_insert(c3, "TPL_PATH"@, subst_spec(tpl.path.unwrap()@, c3));
        let c5 = ctx_insert(c4, "COMPOSE_FILE"@, subst_spec(tpl_compose_src(&tpl), c4));
        insert_all_subst(c5, tpl.variables.key_seq(), str_views(tpl.variables.val_seq()), 0)
    } else {
        c3
    };
    let c7 = if cc.compose_file is Some {
        ctx_insert(c6, "COMPOSE_FILE"@, subst_spec(cc.compose_file.unwrap()@, c6))
    } else if !crate::ordmap::ctx_contains(c6, "COMPOSE_FILE"@) {
        ctx_insert(c6, "COMPOSE_FILE"@, subst_spec("${SVC_PATH}/docker-compose.yml"@, c6))
    } else {
        c6
    };
    insert_all_subst(c7, cc.variables.key_seq(), str_views(cc.variables.val_seq()), 0)
}

impl Component {
    /// Resolves this component against the workspace: looks up its `extends`
    /// target (an unknown target is a reference error naming every declared
    /// component) and builds its full variable context over the workspace
    /// context.
    pub fn init(&self, workspace: &Workspace) -> (r: Result<Component, EngineError>)
        requires
            self.wf(),
            workspace.wf(),
            workspace.config is Some,
        ensures
            r is Err <==> (self.config.extends is Some
                && !workspace.config.unwrap().components.contains_key(
                self.config.extends.unwrap()@,
            )),
            match r {
                Ok(c) => {
                    &&& c.wf()
                    &&& c.name@ == self.name@
                    &&& cfg_eq(&c.config, &self.config)
                    &&& c.just_started == self.just_started
                    &&& c.context is Some
                    &&& c.context.unwrap().ctx() == component_ctx(
                        workspace.context.ctx(),
                        &workspace.config.unwrap(),
                        self.name@,
                        &self.config,
                    )
                    &&& match self.config.extends {
                        None => c.template is None,
                        Some(x) => c.template is Some && tpl_like(
                            &workspace.config.unwrap().components.value_of(x@),
                            &c.template.unwrap(),
                        ),
                    }
                },
                Err(e) => e matches EngineError::Reference { missing, known } && missing@
                    == self.config.extends.unwrap()@ && str_views(known@) == workspace.config.unwrap().components.key_seq(),
            },
    {
        let cfg = workspace.config.as_ref().unwrap();
        let ghost base = workspace.context.ctx();
        let mut ctx = workspace.context.duplicate();
        proof {
            assert(ctx.ctx() =~= base);
        }

        let ghost g0 = ctx;
        ctx.insert(String::from_str("APP_NAME"), self.name.clone());
        proof {
            lemma_ctx_insert(&g0, &ctx, "APP_NAME"@, self.name);
        }
        let ghost c1 = ctx.ctx();

        let mut pname = cfg.name.clone();
        pname.append("-");
        pname.append(self.name.as_str());
        let ghost gpname = pname;
        let ghost g1 = ctx;
        ctx.insert(String::from_str("COMPOSE_PROJECT_NAME"), pname);
        proof {
            lemma_ctx_insert(&g1, &ctx, "COMPOSE_PROJECT_NAME"@, gpname);
        }
        let ghost c2 = ctx.ctx();

        let svc = subst_vars(self.config.path.as_ref().unwrap().as_str(), &ctx);
        let ghost gsvc = svc;
        let ghost g2 = ctx;
        ctx.insert(String::from_str("SVC_PATH"), svc);
        proof {
            lemma_ctx_insert(&g2, &ctx, "SVC_PATH"@, gsvc);
        }
        let ghost c3 = ctx.ctx();

        let mut template_opt: Option<ComponentConfig> = None;
        if let Some(x) = &self.config.extends {
            match cfg.components.get(x.as_str()) {
                None => {
                    return Err(
                        EngineError::Reference {
                            missing: x.clone(),
                            known: cfg.components.keys_cloned(),
                        },
                    );
                },
                Some(tpl_src) => {
                    proof {
                        lemma_key_index(cfg.components.key_seq(), x@);
                        assert(cfg.components.val_seq()[crate::ordmap::key_index(
                            cfg.components.key_seq(),
                            x@,
                        )].wf());
                    }
                    let mut tpl = tpl_src.duplicate();
                    let tpl_path = subst_vars(tpl.path.as_ref().unwrap().as_str(), &ctx);
                    let ghost gtp = tpl_path;
                    let ghost g3 = ctx;
                    ctx.insert(String::from_str("TPL_PATH"), tpl_path);
                    proof {
                        lemma_ctx_insert(&g3, &ctx, "TPL_PATH"@, gtp);
                    }
                    if tpl.compose_file.is_none() {
                        tpl.compose_file = Some(
                            String::from_str("${TPL_PATH}/docker-compose.yml"),
                        );
                    }
                    proof {
                        assert(tpl.compose_file.unwrap()@ == tpl_compose_src(tpl_src));
                    }
                    let cf = subst_vars(tpl.compose_file.as_ref().unwrap().as_str(), &ctx);
                    let ghost gcf = cf;
                    let ghost g4 = ctx;
                    ctx.insert(String::from_str("COMPOSE_FILE"), cf);
                    proof {
                        lemma_ctx_insert(&g4, &ctx, "COMPOSE_FILE"@, gcf);
                    }
                    insert_vars_subst(&mut ctx, &tpl.variables);
                    template_opt = Some(tpl);
                },
            }
        }
        let ghost c6 = ctx.ctx();

        if let Some(cf_tpl) = &self.config.compose_file {
            let v = subst_vars(cf_tpl.as_str(), &ctx);
            let ghost gv = v;
            let ghost g6 = ctx;
            ctx.insert(String::from_str("COMPOSE_FILE"), v);
            proof {
                lemma_ctx_insert(&g6, &ctx, "COMPOSE_FILE"@, gv);
            }
        } else {
            proof {
                lemma_ctx_lookup(&ctx, "COMPOSE_FILE"@);
            }
            if !ctx.has("COMPOSE_FILE") {
                let v = subst_vars("${SVC_PATH}/docker-compose.yml", &ctx);
                let ghost gv = v;
                let ghost g6 = ctx;
                ctx.insert(String::from_str("COMPOSE_FILE"), v);
                proof {
                    lemma_ctx_insert(&g6, &ctx, "COMPOSE_FILE"@, gv);
                }
            }
        }

        insert_vars_subst(&mut ctx, &self.config.variables);

        Ok(
            Component {
                name: self.name.clone(),
                config: self.config.duplicate(),
                template: template_opt,
                just_started: self.just_started,
                context: Some(ctx),
            },
        )
    }
}

/// The stored template field matches the declaration's `extends` link.
pub open spec fn tpl_rel(cfg: &WorkspaceConfig, cc: &ComponentConfig, t: &Option<
    ComponentConfig,
>) -> bool {
    match cc.extends {
        None => *t is None,
        Some(x) => *t is Some && tpl_like(&cfg.components.value_of(x@), &t.unwrap()),
    }
}

/// Every declared `extends` link names a declared component.
pub open spec fn extends_all_ok(cfg: &WorkspaceConfig) -> bool {
    forall|i: int|
        0 <= i < cfg.components.val_seq().len() ==> match (#[trigger] cfg.components.val_seq()[i]).extends {
            None => true,
            Some(x) => cfg.components.contains_key(x@),
        }
}

/// The component context depends only on the observable fields of the
/// declaration.
pub proof fn lemma_component_ctx_eq(
    base: Ctx,
    cfg: &WorkspaceConfig,
    name: Seq<char>,
    a: &ComponentConfig,
    b: &ComponentConfig,
)
    requires
        cfg_eq(a, b),
    ensures
        component_ctx(base, cfg, name, a) == component_ctx(base, cfg, name, b),
{
    assert(str_views(a.variables.val_seq()) == str_views(b.variables.val_seq()));
}

impl Workspace {
    /// Resolves and initialises every declared component, in declaration
    /// order: the workspace context is built once, then each component gets
    /// its full context; an unknown `extends` target aborts with a reference
    /// error naming every declared component.
    pub fn init(&mut self, global_options: &GlobalOptions) -> (r: Result<(), EngineError>)
        requires
            old(self).wf(),
        ensures
            final(self).wf(),
            final(self).config == old(self).config,
            final(self).context.ctx() == ws_ctx(old(self)),
            match old(self).config {
                None => r is Ok && final(self).components == old(self).components,
                Some(cfg) => {
                    &&& (r is Ok <==> extends_all_ok(&cfg))
                    &&& match r {
                        Ok(_) => {
                            &&& final(self).components.key_seq() == cfg.components.key_seq()
                            &&& forall|i: int|
                                0 <= i < cfg.components.val_seq().len() ==> {
                                    let c = #[trigger] final(self).components.val_seq()[i];
                                    &&& c.wf()
                                    &&& c.name@ == cfg.components.key_seq()[i]
                                    &&& cfg_eq(&c.config, &cfg.components.val_seq()[i])
                                    &&& c.context is Some
                                    &&& c.context.unwrap().ctx() == component_ctx(
                                        ws_ctx(old(self)),
                                        &cfg,
                                        cfg.components.key_seq()[i],
                                        &cfg.components.val_seq()[i],
                                    )
                                    &&& tpl_rel(&cfg, &cfg.components.val_seq()[i], &c.template)
                                }
                        },
                        Err(e) => {
                            &&& e matches EngineError::Reference { missing, known }
                                && str_views(known@) == cfg.components.key_seq()
                                && !cfg.components.contains_key(missing@) && exists|i: int|
                                0 <= i < cfg.components.val_seq().len()
                                    && cfg.components.val_seq()[i].extends is Some
                                    && (#[trigger] cfg.components.val_seq()[i].extends.unwrap())@
                                    == missing@
                        },
                    }
                },
            },
    {
        let new_ctx = self.create_context();
        self.context = new_ctx;
        if self.config.is_none() {
            return Ok(());
        }
        let ghost cfg_g = self.config.unwrap();
        let ghost keys = cfg_g.components.key_seq();
        let ghost vals = cfg_g.components.val_seq();
        let ghost base = self.context.ctx();
        let n = self.config.as_ref().unwrap().components.len();
        let mut comps: OrdMap<Component> = OrdMap::new();
        let mut i: usize = 0;
        proof {
            assert(comps.key_seq() =~= keys.subrange(0, 0int));
        }
        while i < n
            invariant
                self.wf(),
                self.config == old(self).config,
                self.config is Some,
                self.context.ctx() == ws_ctx(old(self)),
                base == self.context.ctx(),
                cfg_g == self.config.unwrap(),
                keys == cfg_g.components.key_seq(),
                vals == cfg_g.components.val_seq(),
                i <= n,
                n == keys.len(),
                comps.wf(),
                comps.key_seq() == keys.subrange(0, i as int),
                comps.val_seq().len() == i,
                forall|j: int|
                    0 <= j < i ==> match (#[trigger] vals[j]).extends {
                        None => true,
                        Some(x) => cfg_g.components.contains_key(x@),
                    },
                forall|j: int|
                    0 <= j < i ==> {
                        let c = #[trigger] comps.val_seq()[j];
                        &&& c.wf()
                        &&& c.name@ == keys[j]
                        &&& cfg_eq(&c.config, &vals[j])
                        &&& c.context is Some
                        &&& c.context.unwrap().ctx() == component_ctx(base, &cfg_g, keys[j], &vals[j])
                        &&& tpl_rel(&cfg_g, &vals[j], &c.template)
                    },
            decreases n - i,
        {
            let cfg = self.config.as_ref().unwrap();
            let name = cfg.components.key_at(i).clone();
            proof {
                crate::ordmap::lemma_index_of_position(keys, i as int);
                assert(vals[i as int].wf());
            }
            let initial = Component {
                name: name.clone(),
                config: cfg.components.val_at(i).duplicate(),
                template: None,
                just_started: None,
                context: Some(self.context.duplicate()),
            };
            match initial.init(self) {
                Err(e) => {
                    proof {
                        assert(vals[i as int].extends is Some);
                        assert(initial.config.extends == vals[i as int].extends);
                    }
                    return Err(e);
                },
                Ok(c) => {
                    proof {
                        lemma_component_ctx_eq(
                            base,
                            &cfg_g,
                            name@,
                            &initial.config,
                            &vals[i as int],
                        );
                        assert(!comps.contains_key(name@)) by {
                            if comps.key_seq().contains(name@) {
                                let j = choose|j: int|
                                    0 <= j < comps.key_seq().len() && comps.key_seq()[j] == name@;
                                assert(keys[j] == keys[i as int]);
                            }
                        }
                    }
                    let ghost prev = comps;
                    comps.insert(name, c);
                    proof {
                        assert(comps.key_seq() =~= keys.subrange(0, i + 1));
                    }
                },
            }
            i = i + 1;
        }
        proof {
            assert(keys.subrange(0, n as int) =~= keys);
        }
        self.components = comps;
        Ok(())
    }
}

/// The set of declared component names.
pub open spec fn comp_key_set(ws: &Workspace) -> Set<Seq<char>> {
    ws.components.key_seq().to_set()
}

/// The names of a sequence of components, in order.
pub open spec fn comp_names(s: Seq<Component>) -> Seq<Seq<char>> {
    s.map_values(|c: Component| c.name@)
}

/// Depth-first, pre-order dependency expansion over a work list, with a
/// visited set: the head name is looked up (a missing name is the error),
/// skipped if already visited, and otherwise emitted with all of its declared
/// dependency keys prepended to the work list.  A name reached twice — by a
/// diamond or by a cycle — is expanded only once.
pub open spec fn dfs(ws: &Workspace, stack: Seq<Seq<char>>, visited: Set<Seq<char>>) -> Result<
    Seq<Seq<char>>,
    Seq<char>,
>
    decreases comp_key_set(ws).difference(visited).len(), stack.len()
        when visited.finite()
        via dfs_decreases
{
    if stack.len() == 0 {
        Ok(Seq::empty())
    } else {
        let n = stack[0];
        if !ws.components.contains_key(n) {
            Err(n)
        } else if visited.contains(n) {
            dfs(ws, stack.drop_first(), visited)
        } else {
            match dfs(
                ws,
                ws.components.value_of(n).config.dependencies.key_seq() + stack.drop_first(),
                visited.insert(n),
            ) {
                Ok(rest) => Ok(seq![n] + rest),
                Err(e) => Err(e),
            }
        }
    }
}

#[via_fn]
proof fn dfs_decreases(ws: &Workspace, stack: Seq<Seq<char>>, visited: Set<Seq<char>>) {
    if stack.len() > 0 {
        let n = stack[0];
        if ws.components.contains_key(n) && !visited.contains(n) {
            let keys = ws.components.key_seq();
            vstd::seq_lib::seq_to_set_is_finite(keys);
            assert(comp_key_set(ws).contains(n));
            comp_key_set(ws).lemma_set_insert_diff_decreases(visited, n);
        }
    }
}

fn names_contains(v: &Vec<String>, s: &str) -> (r: bool)
    ensures
        r == str_views(v@).contains(s@),
{
    let mut i: usize = 0;
    while i < v.len()
        invariant
            i <= v@.len(),
            forall|j: int| 0 <= j < i ==> v@[j]@ != s@,
        decreases v.len() - i,
    {
        if str_eq(v[i].as_str(), s) {
            proof {
                assert(str_views(v@)[i as int] == s@);
            }
            return true;
        }
        i = i + 1;
    }
    proof {
        if str_views(v@).contains(s@) {
            let j = choose|j: int| 0 <= j < str_views(v@).len() && str_views(v@)[j] == s@;
            assert(v@[j]@ != s@);
        }
    }
    false
}

/// Expands dependency names transitively, depth-first and pre-order, into the
/// components that must be ensured running, each expanded only once; an
/// undeclared name is a reference error naming every declared component.
pub fn resolve_deps(workspace: &Workspace, deps: &Vec<String>) -> (r: Result<
    Vec<Component>,
    EngineError,
>)
    requires
        workspace.wf(),
    ensures
        r is Ok <==> dfs(workspace, str_views(deps@), Set::<Seq<char>>::empty()) is Ok,
        match r {
            Ok(comps) => dfs(workspace, str_views(deps@), Set::<Seq<char>>::empty()) matches Ok(
                names,
            ) && comps@.len() == names.len() && forall|i: int|
                0 <= i < comps@.len() ==> (#[trigger] comps@[i]).wf() && comps@[i].name@ == names[i]
                    && comp_eq(&comps@[i], &workspace.components.value_of(names[i])),
            Err(e) => dfs(workspace, str_views(deps@), Set::<Seq<char>>::empty()) matches Err(m)
                && e matches EngineError::Reference { missing, known } && missing@ == m
                && str_views(known@) == workspace.components.key_seq()
                && !workspace.components.contains_key(m),
        },
{
    let ghost dtop = dfs(workspace, str_views(deps@), Set::<Seq<char>>::empty());
    let mut stack: Vec<String> = crate::config::clone_string_vec(deps);
    let mut visited: Vec<String> = Vec::new();
    let ghost mut vset: Set<Seq<char>> = Set::empty();
    let mut out: Vec<Component> = Vec::new();
    proof {
        assert(str_views(stack@) == str_views(deps@));
        assert(comp_names(out@) =~= Seq::<Seq<char>>::empty());
    }
    while stack.len() > 0
        invariant
            workspace.wf(),
            vset.finite(),
            dtop == dfs(workspace, str_views(deps@), Set::<Seq<char>>::empty()),
            (match dfs(workspace, str_views(stack@), vset) {
                Ok(tail) => dtop == Ok::<Seq<Seq<char>>, Seq<char>>(comp_names(out@) + tail),
                Err(m) => dtop == Err::<Seq<Seq<char>>, Seq<char>>(m),
            }),
            forall|k: Seq<char>| str_views(visited@).contains(k) <==> vset.contains(k),
            forall|i: int|
                0 <= i < out@.len() ==> (#[trigger] out@[i]).wf()
                    && workspace.components.contains_key(out@[i].name@) && comp_eq(
                    &out@[i],
                    &workspace.components.value_of(out@[i].name@),
                ),
        decreases comp_key_set(workspace).difference(vset).len(), stack@.len(),
    {
        let ghost stack0 = str_views(stack@);
        let n = stack.remove(0);
        proof {
            assert(stack0[0] == n@);
            assert(str_views(stack@) =~= stack0.drop_first());
        }
        match workspace.components.get(n.as_str()) {
            None => {
                return Err(
                    EngineError::Reference {
                        missing: n,
                        known: workspace.components.keys_cloned(),
                    },
                );
            },
            Some(c) => {
                proof {
                    lemma_key_index(workspace.components.key_seq(), n@);
                    let ki = crate::ordmap::key_index(workspace.components.key_seq(), n@);
                    assert(workspace.components.val_seq()[ki].wf());
                    assert(workspace.components.val_seq()[ki].name@
                        == workspace.components.key_seq()[ki]);
                }
                if names_contains(&visited, n.as_str()) {
                    // already expanded: the head is dropped
                } else {
                    let ghost vis0 = visited@;
                    visited.push(n.clone());
                    let ghost vset0 = vset;
                    proof {
                        vset = vset.insert(n@);
                        assert(visited@ == vis0.push(n));
                        assert forall|k: Seq<char>|
                            str_views(visited@).contains(k) <==> vset.contains(k) by {
                            let vv = str_views(visited@);
                            let v0 = str_views(vis0);
                            assert(vv.len() == v0.len() + 1);
                            assert(forall|j: int| 0 <= j < v0.len() ==> vv[j] == v0[j]);
                            assert(vv[v0.len() as int] == n@);
                            if vv.contains(k) {
                                let j = choose|j: int| 0 <= j < vv.len() && vv[j] == k;
                                if j < v0.len() {
                                    assert(v0[j] == k);
                                    assert(v0.contains(k));
                                }
                            }
                            if vset.contains(k) {
                                if k == n@ {
                                    assert(vv[v0.len() as int] == k);
                                } else {
                                    assert(vset0.contains(k));
                                    assert(v0.contains(k));
                                    let j = choose|j: int| 0 <= j < v0.len() && v0[j] == k;
                                    assert(vv[j] == k);
                                }
                            }
                        }
                        vstd::seq_lib::seq_to_set_is_finite(workspace.components.key_seq());
                        assert(comp_key_set(workspace).contains(n@));
                        comp_key_set(workspace).lemma_set_insert_diff_decreases(vset0, n@);
                    }
                    let dup = c.duplicate();
                    let ghost out0 = out@;
                    out.push(dup);
                    proof {
                        assert(comp_names(out@) =~= comp_names(out0).push(n@));
                    }
                    let mut new_stack = c.config.dependencies.keys_cloned();
                    crate::config::extend_string_vec(&mut new_stack, &stack);
                    stack = new_stack;
                    proof {
                        assert(str_views(stack@) =~= workspace.components.value_of(
                            n@,
                        ).config.dependencies.key_seq() + stack0.drop_first());
                        match dfs(workspace, str_views(stack@), vset) {
                            Ok(tail) => {
                                assert(dfs(workspace, stack0, vset0) == Ok::<
                                    Seq<Seq<char>>,
                                    Seq<char>,
                                >(seq![n@] + tail));
                                assert(comp_names(out0) + (seq![n@] + tail) =~= comp_names(out@)
                                    + tail);
                            },
                            Err(m) => {},
                        }
                    }
                }
            },
        }
    }
    proof {
        assert(str_views(stack@).len() == 0);
        assert(dfs(workspace, str_views(stack@), vset) == Ok::<Seq<Seq<char>>, Seq<char>>(
            Seq::empty(),
        ));
        assert(comp_names(out@) + Seq::<Seq<char>>::empty() =~= comp_names(out@));
    }
    Ok(out)
}

/// Inserting variables never removes a binding that is already present.
pub proof fn lemma_insert_all_subst_keeps(
    c: Ctx,
    keys: Seq<Seq<char>>,
    vals: Seq<Seq<char>>,
    i: int,
    k: Seq<char>,
)
    requires
        0 <= i <= keys.len(),
        crate::ordmap::ctx_contains(c, k),
    ensures
        crate::ordmap::ctx_contains(insert_all_subst(c, keys, vals, i), k),
    decreases keys.len() - i,
{
    if i < keys.len() {
        let c2 = ctx_insert(c, keys[i], subst_spec(vals[i], c));
        crate::ordmap::lemma_ctx_insert_contains(c, keys[i], subst_spec(vals[i], c));
        lemma_insert_all_subst_keeps(c2, keys, vals, i + 1, k);
    }
}

/// Law: the context built for a component always carries the keys every
/// lifecycle operation relies on — `APP_NAME`, `COMPOSE_PROJECT_NAME`,
/// `SVC_PATH` and `COMPOSE_FILE`.
pub proof fn lemma_component_ctx_required_keys(
    base: Ctx,
    cfg: &WorkspaceConfig,
    name: Seq<char>,
    cc: &ComponentConfig,
)
    ensures
        crate::ordmap::ctx_contains(component_ctx(base, cfg, name, cc), "APP_NAME"@),
        crate::ordmap::ctx_contains(component_ctx(base, cfg, name, cc), "COMPOSE_PROJECT_NAME"@),
        crate::ordmap::ctx_contains(component_ctx(base, cfg, name, cc), "SVC_PATH"@),
        crate::ordmap::ctx_contains(component_ctx(base, cfg, name, cc), "COMPOSE_FILE"@),
{
    let c1 = ctx_insert(base, "APP_NAME"@, name);
    crate::ordmap::lemma_ctx_insert_contains(base, "APP_NAME"@, name);
    let c2 = ctx_insert(c1, "COMPOSE_PROJECT_NAME"@, cfg.name@ + "-"@ + name);
    crate::ordmap::lemma_ctx_insert_contains(c1, "COMPOSE_PROJECT_NAME"@, cfg.name@ + "-"@ + name);
    let c3 = ctx_insert(c2, "SVC_PATH"@, subst_spec(cc.path.unwrap()@, c2));
    crate::ordmap::lemma_ctx_insert_contains(c2, "SVC_PATH"@, subst_spec(cc.path.unwrap()@, c2));
    assert(("APP_NAME"@) != ("COMPOSE_PROJECT_NAME"@) && ("APP_NAME"@) != ("SVC_PATH"@)
        && ("COMPOSE_PROJECT_NAME"@) != ("SVC_PATH"@) && ("COMPOSE_FILE"@) != ("APP_NAME"@)
        && ("COMPOSE_FILE"@) != ("COMPOSE_PROJECT_NAME"@) && ("COMPOSE_FILE"@) != ("SVC_PATH"@))
        by {
        reveal_strlit("APP_NAME");
        reveal_strlit("COMPOSE_PROJECT_NAME");
        reveal_strlit("SVC_PATH");
        reveal_strlit("COMPOSE_FILE");
        assert(("APP_NAME"@).len() == 8);
        assert(("COMPOSE_PROJECT_NAME"@).len() == 20);
        assert(("SVC_PATH"@).len() == 8);
        assert(("COMPOSE_FILE"@).len() == 12);
        assert(("APP_NAME"@)[0] == 'A');
        assert(("SVC_PATH"@)[0] == 'S');
    }
    let c6 = if cc.extends is Some && cfg.components.contains_key(cc.extends.unwrap()@) {
        let tpl = cfg.components.value_of(cc.extends.unwrap()@);
        let c4 = ctx_insert(c3, "TPL_PATH"@, subst_spec(tpl.path.unwrap()@, c3));
        crate::ordmap::lemma_ctx_insert_contains(c3, "TPL_PATH"@, subst_spec(tpl.path.unwrap()@, c3));
        let c5 = ctx_insert(c4, "COMPOSE_FILE"@, subst_spec(tpl_compose_src(&tpl), c4));
        crate::ordmap::lemma_ctx_insert_contains(c4, "COMPOSE_FILE"@, subst_spec(tpl_compose_src(&tpl), c4));
        lemma_insert_all_subst_keeps(c5, tpl.variables.key_seq(), str_views(tpl.variables.val_seq()), 0, "APP_NAME"@);
        lemma_insert_all_subst_keeps(c5, tpl.variables.key_seq(), str_views(tpl.variables.val_seq()), 0, "COMPOSE_PROJECT_NAME"@);
        lemma_insert_all_subst_keeps(c5, tpl.variables.key_seq(), str_views(tpl.variables.val_seq()), 0, "SVC_PATH"@);
        lemma_insert_all_subst_keeps(c5, tpl.variables.key_seq(), str_views(tpl.variables.val_seq()), 0, "COMPOSE_FILE"@);
        insert_all_subst(c5, tpl.variables.key_seq(), str_views(tpl.variables.val_seq()), 0)
    } else {
        c3
    };
    let c7 = if cc.compose_file is Some {
        crate::ordmap::lemma_ctx_insert_contains(c6, "COMPOSE_FILE"@, subst_spec(cc.compose_file.unwrap()@, c6));
        ctx_insert(c6, "COMPOSE_FILE"@, subst_spec(cc.compose_file.unwrap()@, c6))
    } else if !crate::ordmap::ctx_contains(c6, "COMPOSE_FILE"@) {
        crate::ordmap::lemma_ctx_insert_contains(c6, "COMPOSE_FILE"@, subst_spec("${SVC_PATH}/docker-compose.yml"@, c6));
        ctx_insert(c6, "COMPOSE_FILE"@, subst_spec("${SVC_PATH}/docker-compose.yml"@, c6))
    } else {
        c6
    };
    lemma_insert_all_subst_keeps(c7, cc.variables.key_seq(), str_views(cc.variables.val_seq()), 0, "APP_NAME"@);
    lemma_insert_all_subst_keeps(c7, cc.variables.key_seq(), str_views(cc.variables.val_seq()), 0, "COMPOSE_PROJECT_NAME"@);
    lemma_insert_all_subst_keeps(c7, cc.variables.key_seq(), str_views(cc.variables.val_seq()), 0, "SVC_PATH"@);
    lemma_insert_all_subst_keeps(c7, cc.variables.key_seq(), str_views(cc.variables.val_seq()), 0, "COMPOSE_FILE"@);
}

impl Workspace {
    /// Looks up a component a caller may operate on.  An undeclared name is a
    /// reference error carrying every executable component name; a declared
    /// template is a state error, since templates are only `extends` targets.
    pub fn require_executable(&self, name: &str) -> (r: Result<&Component, EngineError>)
        requires
            self.wf(),
        ensures
            r is Ok <==> (self.components.contains_key(name@) && !self.components.value_of(
                name@,
            ).config.is_template),
            match r {
                Ok(c) => *c == self.components.value_of(name@),
                Err(e) => {
                    &&& !self.components.contains_key(name@) ==> (e
                        matches EngineError::Reference { missing, known } && missing@ == name@
                        && str_views(known@) == executable_names(
                        self.components.key_seq(),
                        self.components.val_seq(),
                        0,
                    ))
                    &&& self.components.contains_key(name@) ==> (e
                        matches EngineError::State { message } && message@
                        == template_target_msg(executable_names(
                        self.components.key_seq(),
                        self.components.val_seq(),
                        0,
                    )))
                },
            },
    {
        match self.components.get(name) {
            None => Err(
                EngineError::Reference {
                    missing: String::from_str(name),
                    known: self.get_executable_component_names(),
                },
            ),
            Some(component) => {
                if component.config.is_template {
                    let names = self.get_executable_component_names();
                    let joined = crate::strutil::join_strings(&names, ",");
                    let mut message = String::from_str(
                        "You can't operate on a service template, please use instances: ",
                    );
                    message.append(joined.as_str());
                    Err(EngineError::State { message })
                } else {
                    Ok(component)
                }
            },
        }
    }
}

/// The notice given when an operation targets a template.
pub open spec fn template_target_msg(instances: Seq<Seq<char>>) -> Seq<char> {
    "You can't operate on a service template, please use instances: "@
        + crate::strutil::join_seq(instances, ","@)
}

/// The names of the non-template components, from position `i` on.
pub open spec fn executable_names(keys: Seq<Seq<char>>, vals: Seq<Component>, i: int) -> Seq<
    Seq<char>,
>
    decreases keys.len() - i when 0 <= i <= keys.len() && keys.len() == vals.len()
{
    if i >= keys.len() {
        Seq::empty()
    } else if !vals[i].config.is_template {
        seq![vals[i].name@] + executable_names(keys, vals, i + 1)
    } else {
        executable_names(keys, vals, i + 1)
    }
}

} // verus!
