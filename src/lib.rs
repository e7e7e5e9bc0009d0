//! Build-time resolution of natively loaded libraries named in Python source,
//! and the rewriting of the call sites that name them.
pub mod paths;
pub mod dyld;
pub mod posix;
pub mod scope;
pub mod rewrite;
pub mod patch;
pub mod tree;

pub use dyld::{
    DyldEnv, FrameworkInfo, apply_image_suffix, darwin_candidates, darwin_variants, dyld_candidates,
    dyld_default_search, dyld_env, dyld_executable_path_search, dyld_fallback_framework_path,
    dyld_fallback_library_path, dyld_find, dyld_framework_search, dyld_library_search,
    dyld_loader_search, find_library_darwin, framework_info,
};
pub use patch::{apply_replacements, select_replacements, splice};
pub use posix::{compiler_args, is_elf, linker_args, select_elf, trace_candidates, trace_pattern};
pub use rewrite::{Arg, Callee, Event, Lookup, Replacement, Replacer, RewriteError, Span, Target, rewrite};
pub use scope::Scope;
pub use tree::{Alias, Expr, Stmt, module_events};
