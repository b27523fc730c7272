//! Component configuration: the declaration of one service or template, the
//! merge of two declarations, and the mode-gated dependency filter.
use vstd::prelude::*;

use crate::ordmap::{key_index, keys_not_in, lemma_key_index, lemma_key_index_push, OrdMap};

verus! {

/// Execution context gating which dependency edges apply.
#[derive(Clone, Copy, PartialEq, Eq, Structural, Debug)]
pub enum Mode {
    Default,
    Hook,
}

pub open spec fn mode_str(m: Mode) -> Seq<char> {
    match m {
        Mode::Default => "default"@,
        Mode::Hook => "hook"@,
    }
}

impl Mode {
    pub fn from_str(s: &str) -> (r: Result<Mode, ()>)
        ensures
            r == Ok::<Mode, ()>(Mode::Default) <==> s@ == "default"@,
            r == Ok::<Mode, ()>(Mode::Hook) <==> s@ == "hook"@,
            r is Err <==> s@ != "default"@ && s@ != "hook"@,
    {
        proof {
            reveal_strlit("default");
            reveal_strlit("hook");
            assert(("default"@).len() == 7);
            assert(("hook"@).len() == 4);
            assert("default"@ != "hook"@);
        }
        if crate::strutil::str_eq(s, "default") {
            Ok(Mode::Default)
        } else if crate::strutil::str_eq(s, "hook") {
            Ok(Mode::Hook)
        } else {
            Err(())
        }
    }

    pub fn name(&self) -> (r: &'static str)
        ensures
            r@ == mode_str(*self),
    {
        match self {
            Mode::Default => "default",
            Mode::Hook => "hook",
        }
    }
}

pub type ModeList = Vec<Mode>;

/// The options a caller hands to every engine operation.
#[derive(Debug)]
pub struct GlobalOptions {
    pub workspace_name: Option<String>,
    pub debug: bool,
    pub cmd: Option<Vec<String>>,
    pub force: bool,
    pub mode: Option<Mode>,
    pub working_dir: Option<String>,
    pub uid: Option<u32>,
    pub tag: Option<String>,
    pub dry_run: bool,
    pub no_tty: bool,
}

/// The declaration of one component: a concrete service or a reusable
/// template.
#[derive(Debug)]
pub struct ComponentConfig {
    pub alias: Option<String>,
    pub compose_file: Option<String>,
    pub dependencies: OrdMap<ModeList>,
    pub exec_path: Option<String>,
    pub extends: Option<String>,
    pub hosted_in: Option<String>,
    pub hostname: Option<String>,
    pub is_template: bool,
    pub path: Option<String>,
    pub replace: bool,
    pub variables: OrdMap<String>,
    pub repository: Option<String>,
    pub tags: Vec<String>,
    pub after_clone_hook: Option<String>,
}

impl ComponentConfig {
    pub open spec fn wf(&self) -> bool {
        &&& self.dependencies.wf()
        &&& self.variables.wf()
    }

    /// An empty declaration: nothing set, nothing declared.
    pub fn empty() -> (r: ComponentConfig)
        ensures
            r.wf(),
            r.alias is None,
            r.compose_file is None,
            r.dependencies.key_seq() == Seq::<Seq<char>>::empty(),
            r.exec_path is None,
            r.extends is None,
            r.hosted_in is None,
            r.hostname is None,
            !r.is_template,
            r.path is None,
            !r.replace,
            r.variables.key_seq() == Seq::<Seq<char>>::empty(),
            r.repository is None,
            r.tags@ == Seq::<String>::empty(),
            r.after_clone_hook is None,
    {
        let r = ComponentConfig {
            alias: None,
            compose_file: None,
            dependencies: OrdMap::new(),
            exec_path: None,
            extends: None,
            hosted_in: None,
            hostname: None,
            is_template: false,
            path: None,
            replace: false,
            variables: OrdMap::new(),
            repository: None,
            tags: Vec::new(),
            after_clone_hook: None,
        };
        proof {
            assert(r.tags@ =~= Seq::<String>::empty());
        }
        r
    }
}

/// Two mode lists with the same modes in the same order.
pub open spec fn mode_lists_eq(a: Seq<ModeList>, b: Seq<ModeList>) -> bool {
    a.len() == b.len() && forall|i: int| 0 <= i < a.len() ==> a[i]@ == b[i]@
}

/// Field-for-field observational equality of two declarations.
pub open spec fn cfg_eq(a: &ComponentConfig, b: &ComponentConfig) -> bool {
    &&& a.alias == b.alias
    &&& a.compose_file == b.compose_file
    &&& a.dependencies.key_seq() == b.dependencies.key_seq()
    &&& mode_lists_eq(a.dependencies.val_seq(), b.dependencies.val_seq())
    &&& a.exec_path == b.exec_path
    &&& a.extends == b.extends
    &&& a.hosted_in == b.hosted_in
    &&& a.hostname == b.hostname
    &&& a.is_template == b.is_template
    &&& a.path == b.path
    &&& a.replace == b.replace
    &&& a.variables.key_seq() == b.variables.key_seq()
    &&& a.variables.val_seq() == b.variables.val_seq()
    &&& a.repository == b.repository
    &&& a.tags@ == b.tags@
    &&& a.after_clone_hook == b.after_clone_hook
}

fn clone_opt_string(o: &Option<String>) -> (r: Option<String>)
    ensures
        r == *o,
{
    match o {
        None => None,
        Some(s) => Some(s.clone()),
    }
}

pub(crate) fn clone_string_vec(v: &Vec<String>) -> (r: Vec<String>)
    ensures
        r@ == v@,
{
    let mut r: Vec<String> = Vec::new();
    let mut i: usize = 0;
    while i < v.len()
        invariant
            i <= v@.len(),
            r@ =~= v@.subrange(0, i as int),
        decreases v.len() - i,
    {
        r.push(v[i].clone());
        i = i + 1;
    }
    proof {
        assert(r@ =~= v@);
    }
    r
}

fn clone_mode_list(v: &ModeList) -> (r: ModeList)
    ensures
        r@ == v@,
{
    let mut r: ModeList = Vec::new();
    let mut i: usize = 0;
    while i < v.len()
        invariant
            i <= v@.len(),
            r@ =~= v@.subrange(0, i as int),
        decreases v.len() - i,
    {
        r.push(v[i]);
        i = i + 1;
    }
    proof {
        assert(r@ =~= v@);
    }
    r
}

impl OrdMap<ModeList> {
    /// A fresh map with the same keys and mode lists.
    pub fn duplicate(&self) -> (r: Self)
        requires
            self.wf(),
        ensures
            r.wf(),
            r.key_seq() == self.key_seq(),
            mode_lists_eq(r.val_seq(), self.val_seq()),
    {
        let mut r: OrdMap<ModeList> = OrdMap::new();
        let n = self.len();
        let mut i: usize = 0;
        while i < n
            invariant
                self.wf(),
                r.wf(),
                i <= n,
                n == self.key_seq().len(),
                r.key_seq() =~= self.key_seq().subrange(0, i as int),
                r.val_seq().len() == i,
                forall|j: int| 0 <= j < i ==> r.val_seq()[j]@ == self.val_seq()[j]@,
            decreases n - i,
        {
            let k = self.key_at(i).clone();
            let v = clone_mode_list(self.val_at(i));
            proof {
                assert(self.key_seq().no_duplicates());
                assert(forall|j: int| 0 <= j < i ==> r.key_seq()[j] != k@);
                assert(!r.key_seq().contains(k@)) by {
                    if r.key_seq().contains(k@) {
                        let j = choose|j: int|
                            0 <= j < r.key_seq().len() && r.key_seq()[j] == k@;
                        assert(r.key_seq()[j] != k@);
                    }
                }
            }
            r.insert(k, v);
            proof {
                assert(r.key_seq() =~= self.key_seq().subrange(0, i + 1));
            }
            i = i + 1;
        }
        proof {
            assert(r.key_seq() =~= self.key_seq());
        }
        r
    }
}

impl ComponentConfig {
    /// A fresh declaration observationally equal to this one.
    pub fn duplicate(&self) -> (r: ComponentConfig)
        requires
            self.wf(),
        ensures
            r.wf(),
            cfg_eq(&r, self),
    {
        ComponentConfig {
            alias: clone_opt_string(&self.alias),
            compose_file: clone_opt_string(&self.compose_file),
            dependencies: self.dependencies.duplicate(),
            exec_path: clone_opt_string(&self.exec_path),
            extends: clone_opt_string(&self.extends),
            hosted_in: clone_opt_string(&self.hosted_in),
            hostname: clone_opt_string(&self.hostname),
            is_template: self.is_template,
            path: clone_opt_string(&self.path),
            replace: self.replace,
            variables: self.variables.duplicate(),
            repository: clone_opt_string(&self.repository),
            tags: clone_string_vec(&self.tags),
            after_clone_hook: clone_opt_string(&self.after_clone_hook),
        }
    }
}

fn mode_list_contains(v: &ModeList, m: Mode) -> (r: bool)
    ensures
        r == v@.contains(m),
{
    let mut i: usize = 0;
    while i < v.len()
        invariant
            i <= v@.len(),
            forall|j: int| 0 <= j < i ==> v@[j] != m,
        decreases v.len() - i,
    {
        if v[i] == m {
            return true;
        }
        i = i + 1;
    }
    proof {
        if v@.contains(m) {
            let j = choose|j: int| 0 <= j < v@.len() && v@[j] == m;
            assert(v@[j] != m);
        }
    }
    false
}

/// `a` followed by those modes of `b` not already present, in order, without
/// introducing duplicates from `b`.
pub open spec fn mode_union(a: Seq<Mode>, b: Seq<Mode>) -> Seq<Mode>
    decreases b.len(),
{
    if b.len() == 0 {
        a
    } else if a.contains(b[0]) {
        mode_union(a, b.drop_first())
    } else {
        mode_union(a.push(b[0]), b.drop_first())
    }
}

fn mode_union_exec(a: ModeList, b: &ModeList) -> (r: ModeList)
    ensures
        r@ == mode_union(a@, b@),
{
    let mut r = a;
    proof {
        assert(b@.skip(0int) =~= b@);
    }
    let mut j: usize = 0;
    while j < b.len()
        invariant
            j <= b@.len(),
            mode_union(r@, b@.skip(j as int)) == mode_union(a@, b@),
        decreases b.len() - j,
    {
        proof {
            assert(b@.skip(j as int)[0] == b@[j as int]);
            assert(b@.skip(j as int).drop_first() =~= b@.skip(j + 1));
        }
        if !mode_list_contains(&r, b[j]) {
            r.push(b[j]);
        }
        j = j + 1;
    }
    proof {
        assert(b@.skip(b@.len() as int) =~= Seq::<Mode>::empty());
    }
    r
}

/// Key-wise overwrite: every entry of `src` is written into `dst`, existing
/// keys keeping their position, new keys appended in `src` order.
pub fn overwrite_all(dst: &mut OrdMap<String>, src: &OrdMap<String>)
    requires
        old(dst).wf(),
        src.wf(),
    ensures
        final(dst).wf(),
        final(dst).key_seq() == old(dst).key_seq() + keys_not_in(
            src.key_seq(),
            old(dst).key_seq(),
        ),
        forall|k: Seq<char>|
            final(dst).contains_key(k) <==> (old(dst).contains_key(k) || src.contains_key(k)),
        forall|k: Seq<char>|
            src.contains_key(k) ==> final(dst).value_of(k) == src.value_of(k),
        forall|k: Seq<char>|
            old(dst).contains_key(k) && !src.contains_key(k) ==> final(dst).value_of(k) == old(
                dst,
            ).value_of(k),
{
    let ghost base = old(dst).key_seq();
    let ghost sk = src.key_seq();
    let n = src.len();
    let mut i: usize = 0;
    proof {
        assert(sk.take(0int) =~= Seq::<Seq<char>>::empty());
        assert(base + keys_not_in(sk.take(0int), base) =~= base);
    }
    while i < n
        invariant
            dst.wf(),
            src.wf(),
            i <= n,
            n == sk.len(),
            sk == src.key_seq(),
            base == old(dst).key_seq(),
            dst.key_seq() == base + keys_not_in(sk.take(i as int), base),
            forall|k: Seq<char>|
                dst.contains_key(k) <==> (old(dst).contains_key(k) || sk.take(i as int).contains(
                    k,
                )),
            forall|j: int| 0 <= j < i ==> dst.value_of(sk[j]) == src.val_seq()[j],
            forall|k: Seq<char>|
                old(dst).contains_key(k) && !sk.take(i as int).contains(k) ==> dst.value_of(k)
                    == old(dst).value_of(k),
        decreases n - i,
    {
        let ghost prev = *dst;
        let k = src.key_at(i).clone();
        let v = src.val_at(i).clone();
        proof {
            crate::ordmap::lemma_index_of_position(sk, i as int);
            assert(sk.take(i + 1) =~= sk.take(i as int).push(k@));
            lemma_key_index_push(sk.take(i as int), k@, k@);
            // src keys are unique, so k@ is not among the first i of them
            assert(!sk.take(i as int).contains(k@)) by {
                if sk.take(i as int).contains(k@) {
                    let j = choose|j: int| 0 <= j < i && sk.take(i as int)[j] == k@;
                    assert(sk[j] == sk[i as int]);
                }
            }
        }
        dst.insert(k, v);
        proof {
            crate::ordmap::lemma_keys_not_in_push(sk.take(i as int), base, sk[i as int]);
            assert(dst.key_seq() =~= base + keys_not_in(sk.take(i + 1), base));
            assert forall|k2: Seq<char>|
                dst.contains_key(k2) <==> (old(dst).contains_key(k2) || sk.take(i + 1).contains(
                    k2,
                )) by {
                lemma_key_index_push(sk.take(i as int), sk[i as int], k2);
            }
            assert forall|j: int| 0 <= j <= i implies dst.value_of(sk[j]) == src.val_seq()[j] by {
                if j < i {
                    assert(sk[j] != sk[i as int]);
                    assert(sk.take(i as int)[j] == sk[j]);
                    assert(sk.take(i as int).contains(sk[j]));
                    assert(prev.contains_key(sk[j]));
                    assert(prev.value_of(sk[j]) == src.val_seq()[j]);
                } else {
                    assert(sk[j] == sk[i as int]);
                    assert(dst.value_of(sk[i as int]) == src.val_seq()[i as int]);
                }
            }
            assert forall|k2: Seq<char>|
                old(dst).contains_key(k2) && !sk.take(i + 1).contains(k2) implies dst.value_of(k2)
                == old(dst).value_of(k2) by {
                lemma_key_index_push(sk.take(i as int), sk[i as int], k2);
                assert(k2 != sk[i as int]);
            }
        }
        i = i + 1;
    }
    proof {
        assert(sk.take(n as int) =~= sk);
        assert forall|k: Seq<char>|
            src.contains_key(k) implies dst.value_of(k) == src.value_of(k) by {
            lemma_key_index(sk, k);
            let j = key_index(sk, k);
            assert(sk[j] == k);
        }
    }
}

/// Key-wise dependency union: every entry of `src` is united into `dst`,
/// mode lists unioned without duplicates, new keys appended in `src` order.
fn union_deps(dst: &mut OrdMap<ModeList>, src: &OrdMap<ModeList>)
    requires
        old(dst).wf(),
        src.wf(),
    ensures
        final(dst).wf(),
        final(dst).key_seq() == old(dst).key_seq() + keys_not_in(
            src.key_seq(),
            old(dst).key_seq(),
        ),
        forall|k: Seq<char>|
            final(dst).contains_key(k) <==> (old(dst).contains_key(k) || src.contains_key(k)),
        forall|k: Seq<char>|
            old(dst).contains_key(k) && !src.contains_key(k) ==> final(dst).value_of(k)@ == old(
                dst,
            ).value_of(k)@,
        forall|k: Seq<char>|
            src.contains_key(k) && old(dst).contains_key(k) ==> final(dst).value_of(k)@
                == mode_union(old(dst).value_of(k)@, src.value_of(k)@),
        forall|k: Seq<char>|
            src.contains_key(k) && !old(dst).contains_key(k) ==> final(dst).value_of(k)@
                == mode_union(Seq::<Mode>::empty(), src.value_of(k)@),
{
    let ghost base = old(dst).key_seq();
    let ghost sk = src.key_seq();
    let n = src.len();
    let mut i: usize = 0;
    proof {
        assert(sk.take(0int) =~= Seq::<Seq<char>>::empty());
        assert(base + keys_not_in(sk.take(0int), base) =~= base);
    }
    while i < n
        invariant
            dst.wf(),
            src.wf(),
            i <= n,
            n == sk.len(),
            sk == src.key_seq(),
            base == old(dst).key_seq(),
            dst.key_seq() == base + keys_not_in(sk.take(i as int), base),
            forall|k: Seq<char>|
                dst.contains_key(k) <==> (old(dst).contains_key(k) || sk.take(i as int).contains(
                    k,
                )),
            forall|j: int|
                0 <= j < i && old(dst).contains_key(sk[j]) ==> dst.value_of(sk[j])@ == mode_union(
                    old(dst).value_of(sk[j])@,
                    src.val_seq()[j]@,
                ),
            forall|j: int|
                0 <= j < i && !old(dst).contains_key(sk[j]) ==> dst.value_of(sk[j])@ == mode_union(
                    Seq::<Mode>::empty(),
                    src.val_seq()[j]@,
                ),
            forall|k: Seq<char>|
                old(dst).contains_key(k) && !sk.take(i as int).contains(k) ==> dst.value_of(k)@
                    == old(dst).value_of(k)@,
        decreases n - i,
    {
        let ghost prev = *dst;
        let k = src.key_at(i).clone();
        let modes = src.val_at(i);
        proof {
            crate::ordmap::lemma_index_of_position(sk, i as int);
            assert(sk.take(i + 1) =~= sk.take(i as int).push(k@));
            assert(!sk.take(i as int).contains(k@)) by {
                if sk.take(i as int).contains(k@) {
                    let j = choose|j: int| 0 <= j < i && sk.take(i as int)[j] == k@;
                    assert(sk[j] == sk[i as int]);
                }
            }
        }
        let cur: ModeList = match dst.get(k.as_str()) {
            Some(v) => clone_mode_list(v),
            None => Vec::new(),
        };
        proof {
            if !old(dst).contains_key(k@) {
                assert(cur@ =~= Seq::<Mode>::empty());
            }
        }
        let merged = mode_union_exec(cur, modes);
        dst.insert(k, merged);
        proof {
            crate::ordmap::lemma_keys_not_in_push(sk.take(i as int), base, sk[i as int]);
            assert(dst.key_seq() =~= base + keys_not_in(sk.take(i + 1), base));
            assert forall|k2: Seq<char>|
                dst.contains_key(k2) <==> (old(dst).contains_key(k2) || sk.take(i + 1).contains(
                    k2,
                )) by {
                lemma_key_index_push(sk.take(i as int), sk[i as int], k2);
            }
            assert forall|j: int|
                0 <= j <= i && old(dst).contains_key(sk[j]) implies dst.value_of(sk[j])@
                == mode_union(old(dst).value_of(sk[j])@, src.val_seq()[j]@) by {
                if j < i {
                    assert(sk[j] != sk[i as int]);
                    assert(sk.take(i as int)[j] == sk[j]);
                    assert(sk.take(i as int).contains(sk[j]));
                    assert(prev.contains_key(sk[j]));
                    assert(dst.value_of(sk[j]) == prev.value_of(sk[j]));
                } else {
                    assert(sk[j] == sk[i as int]);
                    assert(!sk.take(i as int).contains(sk[i as int]));
                    assert(prev.value_of(sk[i as int])@ == old(dst).value_of(sk[i as int])@);
                }
            }
            assert forall|j: int|
                0 <= j <= i && !old(dst).contains_key(sk[j]) implies dst.value_of(sk[j])@
                == mode_union(Seq::<Mode>::empty(), src.val_seq()[j]@) by {
                if j < i {
                    assert(sk[j] != sk[i as int]);
                    assert(sk.take(i as int)[j] == sk[j]);
                    assert(sk.take(i as int).contains(sk[j]));
                    assert(dst.value_of(sk[j]) == prev.value_of(sk[j]));
                } else {
                    assert(sk[j] == sk[i as int]);
                }
            }
            assert forall|k2: Seq<char>|
                old(dst).contains_key(k2) && !sk.take(i + 1).contains(k2) implies dst.value_of(
                k2,
            )@ == old(dst).value_of(k2)@ by {
                lemma_key_index_push(sk.take(i as int), sk[i as int], k2);
                assert(k2 != sk[i as int]);
            }
        }
        i = i + 1;
    }
    proof {
        assert(sk.take(n as int) =~= sk);
        assert forall|k: Seq<char>|
            src.contains_key(k) && old(dst).contains_key(k) implies dst.value_of(k)@ == mode_union(
            old(dst).value_of(k)@,
            src.value_of(k)@,
        ) by {
            lemma_key_index(sk, k);
            let j = key_index(sk, k);
            assert(sk[j] == k);
        }
        assert forall|k: Seq<char>|
            src.contains_key(k) && !old(dst).contains_key(k) implies dst.value_of(k)@
            == mode_union(Seq::<Mode>::empty(), src.value_of(k)@) by {
            lemma_key_index(sk, k);
            let j = key_index(sk, k);
            assert(sk[j] == k);
        }
    }
}

/// Appends clones of all of `src` to `dst`.
pub(crate) fn extend_string_vec(dst: &mut Vec<String>, src: &Vec<String>)
    ensures
        final(dst)@ == old(dst)@ + src@,
{
    let mut i: usize = 0;
    while i < src.len()
        invariant
            i <= src@.len(),
            dst@ =~= old(dst)@ + src@.subrange(0, i as int),
        decreases src.len() - i,
    {
        dst.push(src[i].clone());
        proof {
            assert(dst@ =~= old(dst)@ + src@.subrange(0, i + 1));
        }
        i = i + 1;
    }
    proof {
        assert(dst@ =~= old(dst)@ + src@);
    }
}

/// What `merge_component_configs(base, over)` returns: `over` itself when its
/// `replace` flag is set; otherwise scalars right-biased, tags concatenated,
/// variables overwritten key-wise, dependency mode lists unioned per key.
pub open spec fn is_merged(base: &ComponentConfig, over: &ComponentConfig, r: &ComponentConfig) -> bool {
    if over.replace {
        cfg_eq(r, over)
    } else {
        &&& r.alias == (if over.alias is Some { over.alias } else { base.alias })
        &&& r.compose_file == (if over.compose_file is Some {
            over.compose_file
        } else {
            base.compose_file
        })
        &&& r.exec_path == (if over.exec_path is Some { over.exec_path } else { base.exec_path })
        &&& r.extends == (if over.extends is Some { over.extends } else { base.extends })
        &&& r.hosted_in == (if over.hosted_in is Some { over.hosted_in } else { base.hosted_in })
        &&& r.hostname == (if over.hostname is Some { over.hostname } else { base.hostname })
        &&& r.path == (if over.path is Some { over.path } else { base.path })
        &&& r.repository == (if over.repository is Some {
            over.repository
        } else {
            base.repository
        })
        &&& r.after_clone_hook == (if over.after_clone_hook is Some {
            over.after_clone_hook
        } else {
            base.after_clone_hook
        })
        &&& r.is_template == base.is_template
        &&& r.replace == base.replace
        &&& r.tags@ == base.tags@ + over.tags@
        &&& r.variables.wf()
        &&& r.variables.key_seq() == base.variables.key_seq() + keys_not_in(
            over.variables.key_seq(),
            base.variables.key_seq(),
        )
        &&& forall|k: Seq<char>|
            over.variables.contains_key(k) ==> r.variables.value_of(k) == over.variables.value_of(
                k,
            )
        &&& forall|k: Seq<char>|
            base.variables.contains_key(k) && !over.variables.contains_key(k)
                ==> r.variables.value_of(k) == base.variables.value_of(k)
        &&& r.dependencies.wf()
        &&& r.dependencies.key_seq() == base.dependencies.key_seq() + keys_not_in(
            over.dependencies.key_seq(),
            base.dependencies.key_seq(),
        )
        &&& forall|k: Seq<char>|
            base.dependencies.contains_key(k) && !over.dependencies.contains_key(k)
                ==> r.dependencies.value_of(k)@ == base.dependencies.value_of(k)@
        &&& forall|k: Seq<char>|
            base.dependencies.contains_key(k) && over.dependencies.contains_key(k)
                ==> r.dependencies.value_of(k)@ == mode_union(
                base.dependencies.value_of(k)@,
                over.dependencies.value_of(k)@,
            )
        &&& forall|k: Seq<char>|
            over.dependencies.contains_key(k) && !base.dependencies.contains_key(k)
                ==> r.dependencies.value_of(k)@ == mode_union(
                Seq::<Mode>::empty(),
                over.dependencies.value_of(k)@,
            )
    }
}

/// Merges an override declaration onto a base one, as a workspace overlay
/// does: `over.replace` short-circuits to the override verbatim; otherwise
/// scalar fields are right-biased, tags concatenate (base first, duplicates
/// kept), variables are overwritten key-wise and dependency mode lists are
/// unioned per key.
#[verifier::rlimit(50)]
pub fn merge_component_configs(cc: &ComponentConfig, cc2: &ComponentConfig) -> (r: ComponentConfig)
    requires
        cc.wf(),
        cc2.wf(),
    ensures
        r.wf(),
        is_merged(cc, cc2, &r),
{
    if cc2.replace {
        return cc2.duplicate();
    }
    let mut result = cc.duplicate();
    if cc2.path.is_some() {
        result.path = clone_opt_string(&cc2.path);
    }
    if cc2.compose_file.is_some() {
        result.compose_file = clone_opt_string(&cc2.compose_file);
    }
    if cc2.extends.is_some() {
        result.extends = clone_opt_string(&cc2.extends);
    }
    if cc2.hosted_in.is_some() {
        result.hosted_in = clone_opt_string(&cc2.hosted_in);
    }
    if cc2.hostname.is_some() {
        result.hostname = clone_opt_string(&cc2.hostname);
    }
    if cc2.exec_path.is_some() {
        result.exec_path = clone_opt_string(&cc2.exec_path);
    }
    if cc2.alias.is_some() {
        result.alias = clone_opt_string(&cc2.alias);
    }
    if cc2.repository.is_some() {
        result.repository = clone_opt_string(&cc2.repository);
    }
    if cc2.after_clone_hook.is_some() {
        result.after_clone_hook = clone_opt_string(&cc2.after_clone_hook);
    }
    proof {
        // the duplicated variables and dependencies look up like the originals
        assert forall|k: Seq<char>|
            cc.variables.contains_key(k) implies result.variables.value_of(k)
            == cc.variables.value_of(k) by {
            lemma_key_index(cc.variables.key_seq(), k);
        }
        assert forall|k: Seq<char>|
            cc.dependencies.contains_key(k) implies result.dependencies.value_of(k)@
            == cc.dependencies.value_of(k)@ by {
            lemma_key_index(cc.dependencies.key_seq(), k);
        }
    }
    let ghost vars_before = result.variables;
    overwrite_all(&mut result.variables, &cc2.variables);
    let ghost deps_before = result.dependencies;
    union_deps(&mut result.dependencies, &cc2.dependencies);
    let mut tags = clone_string_vec(&cc.tags);
    extend_string_vec(&mut tags, &cc2.tags);
    result.tags = tags;
    result
}
pub open spec fn active_deps_from(
    keys: Seq<Seq<char>>,
    vals: Seq<ModeList>,
    mode: Mode,
    i: int,
) -> Seq<Seq<char>>
    decreases keys.len() - i when 0 <= i <= keys.len() && keys.len() == vals.len()
{
    if i >= keys.len() {
        Seq::empty()
    } else if vals[i]@.contains(mode) {
        seq![keys[i]] + active_deps_from(keys, vals, mode, i + 1)
    } else {
        active_deps_from(keys, vals, mode, i + 1)
    }
}

/// The dependency names applicable under `mode`, in declaration order.
pub open spec fn active_deps(cc: &ComponentConfig, mode: Mode) -> Seq<Seq<char>> {
    active_deps_from(cc.dependencies.key_seq(), cc.dependencies.val_seq(), mode, 0)
}

/// Every dependency key whose declared mode list contains `mode`, in the
/// dependency map's declaration order.
pub fn get_deps(cc: &ComponentConfig, mode: &Mode) -> (r: Vec<String>)
    requires
        cc.wf(),
    ensures
        r@.map_values(|s: String| s@) == active_deps(cc, *mode),
{
    let ghost keys = cc.dependencies.key_seq();
    let ghost vals = cc.dependencies.val_seq();
    let mut r: Vec<String> = Vec::new();
    let n = cc.dependencies.len();
    let mut i: usize = 0;
    while i < n
        invariant
            cc.wf(),
            i <= n,
            n == keys.len(),
            keys == cc.dependencies.key_seq(),
            vals == cc.dependencies.val_seq(),
            r@.map_values(|s: String| s@) + active_deps_from(keys, vals, *mode, i as int)
                == active_deps_from(keys, vals, *mode, 0),
        decreases n - i,
    {
        let ghost prev = r@.map_values(|s: String| s@);
        if mode_list_contains(cc.dependencies.val_at(i), *mode) {
            r.push(cc.dependencies.key_at(i).clone());
            proof {
                assert(r@.map_values(|s: String| s@) =~= prev + seq![keys[i as int]]);
            }
        }
        i = i + 1;
    }
    proof {
        assert(active_deps_from(keys, vals, *mode, n as int) == Seq::<Seq<char>>::empty());
        assert(r@.map_values(|s: String| s@) + Seq::<Seq<char>>::empty() =~= r@.map_values(
            |s: String| s@,
        ));
    }
    r
}

impl OrdMap<ComponentConfig> {
    /// A fresh map with the same keys and observationally equal declarations.
    pub fn duplicate(&self) -> (r: Self)
        requires
            self.wf(),
            forall|i: int| 0 <= i < self.val_seq().len() ==> self.val_seq()[i].wf(),
        ensures
            r.wf(),
            r.key_seq() == self.key_seq(),
            r.val_seq().len() == self.val_seq().len(),
            forall|i: int|
                0 <= i < r.val_seq().len() ==> r.val_seq()[i].wf() && cfg_eq(
                    &r.val_seq()[i],
                    &self.val_seq()[i],
                ),
    {
        let mut r: OrdMap<ComponentConfig> = OrdMap::new();
        let n = self.len();
        let mut i: usize = 0;
        while i < n
            invariant
                self.wf(),
                forall|j: int| 0 <= j < self.val_seq().len() ==> self.val_seq()[j].wf(),
                r.wf(),
                i <= n,
                n == self.key_seq().len(),
                r.key_seq() =~= self.key_seq().subrange(0, i as int),
                r.val_seq().len() == i,
                forall|j: int|
                    0 <= j < i ==> r.val_seq()[j].wf() && cfg_eq(
                        &r.val_seq()[j],
                        &self.val_seq()[j],
                    ),
            decreases n - i,
        {
            let k = self.key_at(i).clone();
            let v = self.val_at(i).duplicate();
            proof {
                assert(!r.key_seq().contains(k@)) by {
                    if r.key_seq().contains(k@) {
                        let j = choose|j: int|
                            0 <= j < r.key_seq().len() && r.key_seq()[j] == k@;
                        assert(r.key_seq()[j] != k@);
                    }
                }
            }
            r.insert(k, v);
            proof {
                assert(r.key_seq() =~= self.key_seq().subrange(0, i + 1));
            }
            i = i + 1;
        }
        proof {
            assert(r.key_seq() =~= self.key_seq());
        }
        r
    }
}

/// The root document of a workspace: its name, version, shared variables and
/// component declarations, the latter two in declaration order.
#[derive(Debug)]
pub struct WorkspaceConfig {
    pub name: String,
    pub version: String,
    pub variables: OrdMap<String>,
    pub components: OrdMap<ComponentConfig>,
}

impl WorkspaceConfig {
    pub open spec fn wf(&self) -> bool {
        &&& self.variables.wf()
        &&& self.components.wf()
        &&& forall|i: int|
            0 <= i < self.components.val_seq().len() ==> self.components.val_seq()[i].wf()
    }

    /// Overlays `other` onto this workspace: new components are appended,
    /// existing components are merged field-wise, variables are overwritten
    /// by key.  Returns the overlaid document; neither input is changed.
    pub fn merge(&self, other: &WorkspaceConfig) -> (r: WorkspaceConfig)
        requires
            self.wf(),
            other.wf(),
        ensures
            r.wf(),
            r.name@ == self.name@,
            r.version@ == self.version@,
            r.variables.key_seq() == self.variables.key_seq() + keys_not_in(
                other.variables.key_seq(),
                self.variables.key_seq(),
            ),
            forall|k: Seq<char>|
                other.variables.contains_key(k) ==> r.variables.value_of(k)
                    == other.variables.value_of(k),
            forall|k: Seq<char>|
                self.variables.contains_key(k) && !other.variables.contains_key(k)
                    ==> r.variables.value_of(k) == self.variables.value_of(k),
            r.components.key_seq() == self.components.key_seq() + keys_not_in(
                other.components.key_seq(),
                self.components.key_seq(),
            ),
            forall|k: Seq<char>|
                r.components.contains_key(k) <==> (self.components.contains_key(k)
                    || other.components.contains_key(k)),
            forall|k: Seq<char>|
                self.components.contains_key(k) && !other.components.contains_key(k) ==> cfg_eq(
                    &r.components.value_of(k),
                    &self.components.value_of(k),
                ),
            forall|k: Seq<char>|
                other.components.contains_key(k) && !self.components.contains_key(k) ==> cfg_eq(
                    &r.components.value_of(k),
                    &other.components.value_of(k),
                ),
            forall|k: Seq<char>|
                self.components.contains_key(k) && other.components.contains_key(k) ==> is_merged(
                    &self.components.value_of(k),
                    &other.components.value_of(k),
                    &r.components.value_of(k),
                ),
    {
        let ghost base = self.components.key_seq();
        let ghost sk = other.components.key_seq();
        let mut components = self.components.duplicate();
        proof {
            assert(sk.take(0int) =~= Seq::<Seq<char>>::empty());
            assert(base + keys_not_in(sk.take(0int), base) =~= base);
            assert forall|k: Seq<char>|
                self.components.contains_key(k) implies cfg_eq(
                &components.value_of(k),
                &self.components.value_of(k),
            ) by {
                lemma_key_index(base, k);
            }
        }
        let n = other.components.len();
        let mut i: usize = 0;
        while i < n
            invariant
                self.wf(),
                other.wf(),
                components.wf(),
                i <= n,
                n == sk.len(),
                sk == other.components.key_seq(),
                base == self.components.key_seq(),
                forall|j: int| 0 <= j < components.val_seq().len() ==> components.val_seq()[j].wf(),
                components.key_seq() == base + keys_not_in(sk.take(i as int), base),
                forall|k: Seq<char>|
                    components.contains_key(k) <==> (self.components.contains_key(k) || sk.take(
                        i as int,
                    ).contains(k)),
                forall|k: Seq<char>|
                    self.components.contains_key(k) && !sk.take(i as int).contains(k) ==> cfg_eq(
                        &components.value_of(k),
                        &self.components.value_of(k),
                    ),
                forall|j: int|
                    0 <= j < i && !self.components.contains_key(sk[j]) ==> cfg_eq(
                        &components.value_of(sk[j]),
                        &other.components.val_seq()[j],
                    ),
                forall|j: int|
                    0 <= j < i && self.components.contains_key(sk[j]) ==> is_merged(
                        &self.components.value_of(sk[j]),
                        &other.components.val_seq()[j],
                        &components.value_of(sk[j]),
                    ),
            decreases n - i,
        {
            let ghost prev = components;
            let k = other.components.key_at(i).clone();
            let v = other.components.val_at(i);
            proof {
                crate::ordmap::lemma_index_of_position(sk, i as int);
                assert(sk.take(i + 1) =~= sk.take(i as int).push(k@));
                assert(!sk.take(i as int).contains(k@)) by {
                    if sk.take(i as int).contains(k@) {
                        let j = choose|j: int| 0 <= j < i && sk.take(i as int)[j] == k@;
                        assert(sk[j] == sk[i as int]);
                    }
                }
            }
            proof {
                lemma_key_index(base, k@);
                if self.components.contains_key(k@) {
                    assert(self.components.value_of(k@).wf());
                }
                assert(v.wf());
            }
            let merged = match self.components.get(k.as_str()) {
                Some(old_cfg) => merge_component_configs(old_cfg, v),
                None => v.duplicate(),
            };
            proof {
                assert(merged.wf());
            }
            components.insert(k, merged);
            proof {
                assert forall|j: int|
                    0 <= j < components.val_seq().len() implies components.val_seq()[j].wf() by {
                    if prev.contains_key(sk[i as int]) {
                        lemma_key_index(prev.key_seq(), sk[i as int]);
                        let ki = key_index(prev.key_seq(), sk[i as int]);
                        if j != ki {
                            assert(components.val_seq()[j] == prev.val_seq()[j]);
                        }
                    } else {
                        if j < prev.val_seq().len() {
                            assert(components.val_seq()[j] == prev.val_seq()[j]);
                        }
                    }
                }
                crate::ordmap::lemma_keys_not_in_push(sk.take(i as int), base, sk[i as int]);
                assert(components.key_seq() =~= base + keys_not_in(sk.take(i + 1), base));
                assert forall|k2: Seq<char>|
                    components.contains_key(k2) <==> (self.components.contains_key(k2) || sk.take(
                        i + 1,
                    ).contains(k2)) by {
                    lemma_key_index_push(sk.take(i as int), sk[i as int], k2);
                }
                assert forall|k2: Seq<char>|
                    self.components.contains_key(k2) && !sk.take(i + 1).contains(k2) implies cfg_eq(
                    &components.value_of(k2),
                    &self.components.value_of(k2),
                ) by {
                    lemma_key_index_push(sk.take(i as int), sk[i as int], k2);
                    assert(k2 != sk[i as int]);
                    assert(components.value_of(k2) == prev.value_of(k2));
                }
                assert forall|j: int|
                    0 <= j <= i && !self.components.contains_key(sk[j]) implies cfg_eq(
                    &components.value_of(sk[j]),
                    &other.components.val_seq()[j],
                ) by {
                    if j < i {
                        assert(sk[j] != sk[i as int]);
                        assert(sk.take(i as int)[j] == sk[j]);
                        assert(sk.take(i as int).contains(sk[j]));
                        assert(prev.contains_key(sk[j]));
                        assert(components.value_of(sk[j]) == prev.value_of(sk[j]));
                    } else {
                        assert(sk[j] == sk[i as int]);
                    }
                }
                assert forall|j: int|
                    0 <= j <= i && self.components.contains_key(sk[j]) implies is_merged(
                    &self.components.value_of(sk[j]),
                    &other.components.val_seq()[j],
                    &components.value_of(sk[j]),
                ) by {
                    if j < i {
                        assert(sk[j] != sk[i as int]);
                        assert(sk.take(i as int)[j] == sk[j]);
                        assert(sk.take(i as int).contains(sk[j]));
                        assert(prev.contains_key(sk[j]));
                        assert(components.value_of(sk[j]) == prev.value_of(sk[j]));
                    } else {
                        assert(sk[j] == sk[i as int]);
                    }
                }
            }
            i = i + 1;
        }
        proof {
            assert(sk.take(n as int) =~= sk);
        }
        let mut variables = self.variables.duplicate();
        overwrite_all(&mut variables, &other.variables);
        let r = WorkspaceConfig {
            name: self.name.clone(),
            version: self.version.clone(),
            variables,
            components,
        };
        proof {
            assert forall|k: Seq<char>|
                other.components.contains_key(k) && !self.components.contains_key(k) implies cfg_eq(
                &r.components.value_of(k),
                &other.components.value_of(k),
            ) by {
                lemma_key_index(sk, k);
                let j = key_index(sk, k);
                assert(sk[j] == k);
            }
            assert forall|k: Seq<char>|
                self.components.contains_key(k) && other.components.contains_key(k) implies
                is_merged(
                &self.components.value_of(k),
                &other.components.val_seq()[key_index(sk, k)],
                &r.components.value_of(k),
            ) by {
                lemma_key_index(sk, k);
                let j = key_index(sk, k);
                assert(sk[j] == k);
            }
        }
        r
    }
}

} // verus!
