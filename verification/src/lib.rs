pub mod cli;
pub mod config;
pub mod errors;
pub mod lifecycle;
pub mod ordmap;
pub mod paths;
pub mod settings;
pub mod strutil;
pub mod subst;
pub mod workspace;

use vstd::prelude::*;

verus! {

} // verus!
