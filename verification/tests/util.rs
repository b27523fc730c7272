use uniform::cli::{parse_global_options, AppArgs, CommandType, PsCommand};
use uniform::config::Mode;
use uniform::errors::{CliError, EngineError};
use uniform::paths::{
    env_transform_paths, generate_hook_script, path_to_unix, path_to_windows, resolve_path,
    wsl_path, SystemPath,
};
use uniform::ordmap::OrdMap;
use uniform::settings::Settings;
use uniform::strutil::{join_strings, str_eq, u32_to_string};

#[test]
fn path_separator_rewrites() {
    assert_eq!(path_to_unix("a\\b\\c"), "a/b/c");
    assert_eq!(path_to_unix("a/b"), "a/b");
    assert_eq!(path_to_windows("a/b/c"), "a\\b\\c");
}

#[test]
fn wsl_path_rewrites_drive_letters() {
    assert_eq!(wsl_path("C:\\Users\\dev"), "/mnt/c/Users/dev");
    assert_eq!(wsl_path("/already/posix"), "/already/posix");
    assert_eq!(wsl_path("D:\\"), "/mnt/d/");
}

#[test]
fn system_path_spellings() {
    let p = SystemPath::new("C:\\ws");
    assert_eq!(p.original, "C:\\ws");
    assert_eq!(p.normal, "C:/ws");
    assert_eq!(p.universal, "/mnt/c/ws");
}

#[test]
fn resolve_path_absolute_and_relative() {
    assert_eq!(resolve_path("/abs/x", "/base"), "/abs/x");
    assert_eq!(resolve_path("rel/x", "/base"), "/base/rel/x");
    assert_eq!(resolve_path("rel", "/base/"), "/base/rel");
    assert_eq!(resolve_path("win\\part", "/base"), "/base/win/part");
}

#[test]
fn env_transform_rewrites_path_keys_only() {
    let mut env = OrdMap::new();
    env.insert(String::from("SVC_PATH"), String::from("C:/srv/web"));
    env.insert(String::from("OTHER"), String::from("C:/srv/web"));
    let transformed = env_transform_paths(&env, true);
    assert_eq!(transformed.get("SVC_PATH").unwrap(), "/mnt/c/srv/web");
    assert_eq!(transformed.get("OTHER").unwrap(), "C:/srv/web");
    let untouched = env_transform_paths(&env, false);
    assert_eq!(untouched.get("SVC_PATH").unwrap(), "C:/srv/web");
}

#[test]
fn hook_script_layout() {
    let scripts = vec![String::from("migrate"), String::from("seed")];
    let out = generate_hook_script(&scripts, "uniform");
    let expected = "#!/bin/bash\nset -e\nprintf \"\\x1b[0;34m%s\\x1b[39;49;00m\\n\" \"Run hook in Uniform CLI\"\nuniform --mode=hook --no-tty migrate\nuniform --mode=hook --no-tty seed";
    assert_eq!(out, expected);
}

#[test]
fn mode_parsing() {
    assert_eq!(Mode::from_str("default"), Ok(Mode::Default));
    assert_eq!(Mode::from_str("hook"), Ok(Mode::Hook));
    assert_eq!(Mode::from_str("other"), Err(()));
    assert_eq!(Mode::Default.name(), "default");
    assert_eq!(Mode::Hook.name(), "hook");
}

#[test]
fn global_options_from_args() {
    let args = AppArgs {
        name: Some(String::from("acme")),
        debug: true,
        force: false,
        mode: Some(String::from("hook")),
        uid: Some(7),
        tag: None,
        dry_run: true,
        no_tty: false,
        command: CommandType::Ps(PsCommand {}),
    };
    let opts = parse_global_options(&args);
    assert_eq!(opts.workspace_name, Some(String::from("acme")));
    assert!(opts.debug);
    assert!(opts.cmd.is_none());
    assert_eq!(opts.mode, Some(Mode::Hook));
    assert_eq!(opts.uid, Some(7));
    assert!(opts.dry_run);
    let args2 = AppArgs { mode: Some(String::from("bogus")), ..args };
    assert!(parse_global_options(&args2).mode.is_none());
}

#[test]
fn settings_active_project_errors() {
    let s = Settings::new();
    match s.get_active_project_path() {
        Err(EngineError::State { message }) => assert_eq!(message, "Active project is not set"),
        _ => panic!("expected a state error"),
    }
    let mut s = Settings::new();
    s.active_project = String::from("gone");
    s.projects.insert(String::from("here"), String::from("/h"));
    match s.get_active_project_path() {
        Err(EngineError::Reference { missing, known }) => {
            assert_eq!(missing, "gone");
            assert_eq!(known, vec![String::from("here")]);
        }
        _ => panic!("expected a reference error"),
    }
}

#[test]
fn settings_add_and_remove_projects() {
    let mut s = Settings::default();
    s.add_project("one", "/one", false, true).unwrap();
    assert_eq!(s.active_project, "one");
    assert_eq!(s.projects.get("one").unwrap(), "/one");
    // a second project does not steal the active slot
    s.add_project("two", "/two", false, true).unwrap();
    assert_eq!(s.active_project, "one");
    // redefinition needs force
    assert!(s.add_project("one", "/other", false, true).is_err());
    s.add_project("one", "/other", true, true).unwrap();
    assert_eq!(s.projects.get("one").unwrap(), "/other");
    // a missing path is an i/o error
    match s.add_project("three", "/three", false, false) {
        Err(EngineError::Io { .. }) => {}
        _ => panic!("expected an i/o error"),
    }
    // removing the active project clears the selection
    s.remove_project("one").unwrap();
    assert_eq!(s.active_project, "");
    assert!(s.projects.get("one").is_none());
    match s.remove_project("ghost") {
        Err(EngineError::Reference { missing, .. }) => assert_eq!(missing, "ghost"),
        _ => panic!("expected a reference error"),
    }
}

#[test]
fn cli_error_text() {
    let e = CliError::new("bad input");
    assert_eq!(e.text(), "bad input");
}

#[test]
fn engine_error_messages() {
    let e = EngineError::ExternalTool { stderr: String::from("boom") };
    assert_eq!(e.message(), "external tool failed: boom");
    let e = EngineError::Config { message: String::from("no file") };
    assert_eq!(e.message(), "no file");
}

#[test]
fn string_helpers() {
    assert!(str_eq("abc", "abc"));
    assert!(!str_eq("abc", "abd"));
    assert!(!str_eq("abc", "ab"));
    assert_eq!(u32_to_string(0), "0");
    assert_eq!(u32_to_string(12345), "12345");
    let items = vec![String::from("a"), String::from("b"), String::from("c")];
    assert_eq!(join_strings(&items, ", "), "a, b, c");
    assert_eq!(join_strings(&vec![], ", "), "");
}
