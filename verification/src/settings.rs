//! The project registry: the set of named workspace roots and the active one.
use vstd::prelude::*;
use vstd::string::*;

use crate::errors::EngineError;
use crate::ordmap::{key_index, OrdMap};
use crate::paths::{to_unix_spec, wsl_spec, SystemPath};

verus! {

/// The persisted registry: project name to workspace path, plus the name of
/// the active project (empty when none is set).
#[derive(Debug)]
pub struct Settings {
    pub active_project: String,
    pub projects: OrdMap<String>,
}

impl Settings {
    pub open spec fn wf(&self) -> bool {
        self.projects.wf()
    }

    /// A registry with no projects and no active project.
    pub fn new() -> (r: Settings)
        ensures
            r.wf(),
            r.active_project@ == Seq::<char>::empty(),
            r.projects.key_seq() == Seq::<Seq<char>>::empty(),
    {
        Settings { active_project: String::new(), projects: OrdMap::new() }
    }

    /// The workspace path of the active project: a state error when no
    /// project is active, a reference error when the active name is not
    /// registered.
    pub fn get_active_project_path(&self) -> (r: Result<SystemPath, EngineError>)
        requires
            self.wf(),
        ensures
            self.active_project@.len() == 0 ==> (r matches Err(e) && e matches EngineError::State {
                ..
            }),
            self.active_project@.len() != 0 && self.projects.contains_key(self.active_project@)
                ==> (r matches Ok(p) && p.original@ == self.projects.value_of(
                self.active_project@,
            )@ && p.normal@ == to_unix_spec(self.projects.value_of(self.active_project@)@)
                && p.universal@ == wsl_spec(self.projects.value_of(self.active_project@)@)),
            self.active_project@.len() != 0 && !self.projects.contains_key(self.active_project@)
                ==> (r matches Err(e) && e matches EngineError::Reference { missing, known }
                && missing@ == self.active_project@ && crate::ordmap::str_views(known@)
                == self.projects.key_seq()),
    {
        if self.active_project.as_str().unicode_len() == 0 {
            return Err(
                EngineError::State { message: String::from_str("Active project is not set") },
            );
        }
        match self.projects.get(self.active_project.as_str()) {
            Some(path) => Ok(SystemPath::new(path.as_str())),
            None => Err(
                EngineError::Reference {
                    missing: self.active_project.clone(),
                    known: self.projects.keys_cloned(),
                },
            ),
        }
    }

    /// Registers a project path under a name.  A missing path is an I/O
    /// error; an already-registered name needs `force`; the first registered
    /// project becomes the active one.
    pub fn add_project(&mut self, name: &str, path: &str, force: bool, path_exists: bool) -> (r:
        Result<(), EngineError>)
        requires
            old(self).wf(),
        ensures
            final(self).wf(),
            !path_exists ==> (r matches Err(e) && e matches EngineError::Io { .. } && *final(self)
                == *old(self)),
            path_exists && old(self).projects.contains_key(name@) && !force ==> (r matches Err(e)
                && e matches EngineError::State { .. } && *final(self) == *old(self)),
            path_exists && (!old(self).projects.contains_key(name@) || force) ==> {
                &&& r is Ok
                &&& final(self).projects.contains_key(name@)
                &&& final(self).projects.value_of(name@)@ == path@
                &&& forall|k: Seq<char>|
                    final(self).projects.contains_key(k) <==> (old(self).projects.contains_key(k)
                        || k == name@)
                &&& forall|k: Seq<char>|
                    k != name@ && old(self).projects.contains_key(k) ==> final(self).projects.value_of(k)
                        == old(self).projects.value_of(k)
                &&& final(self).active_project@ == (if old(self).active_project@.len() == 0 {
                    name@
                } else {
                    old(self).active_project@
                })
            },
    {
        if !path_exists {
            return Err(
                EngineError::Io { message: String::from_str("the project path does not exist") },
            );
        }
        if self.projects.has(name) && !force {
            return Err(
                EngineError::State {
                    message: String::from_str(
                        "a project with this name is already defined; pass force to override it",
                    ),
                },
            );
        }
        self.projects.insert(String::from_str(name), String::from_str(path));
        if self.active_project.as_str().unicode_len() == 0 {
            self.active_project = String::from_str(name);
        }
        Ok(())
    }

    /// Removes a registered project; removing the active one clears the
    /// active selection.  An unknown name is a reference error.
    pub fn remove_project(&mut self, name: &str) -> (r: Result<(), EngineError>)
        requires
            old(self).wf(),
        ensures
            final(self).wf(),
            !old(self).projects.contains_key(name@) ==> (r matches Err(e) && e
                matches EngineError::Reference { missing, known } && missing@ == name@
                && crate::ordmap::str_views(known@) == old(self).projects.key_seq() && *final(self)
                == *old(self)),
            old(self).projects.contains_key(name@) ==> {
                &&& r is Ok
                &&& final(self).projects.key_seq() == old(self).projects.key_seq().remove(
                    key_index(old(self).projects.key_seq(), name@),
                )
                &&& final(self).active_project@ == (if old(self).active_project@ == name@ {
                    Seq::<char>::empty()
                } else {
                    old(self).active_project@
                })
            },
    {
        if !self.projects.has(name) {
            return Err(
                EngineError::Reference {
                    missing: String::from_str(name),
                    known: self.projects.keys_cloned(),
                },
            );
        }
        if crate::strutil::str_eq(self.active_project.as_str(), name) {
            self.active_project = String::new();
        }
        self.projects.remove(name);
        Ok(())
    }
}

impl Default for Settings {
    /// The default registry is empty.
    fn default() -> (r: Settings)
        ensures
            r.wf(),
            r.active_project@ == Seq::<char>::empty(),
            r.projects.key_seq() == Seq::<Seq<char>>::empty(),
    {
        Settings::new()
    }
}

} // verus!
