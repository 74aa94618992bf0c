use port_handshake::launch::{LaunchSpec, StdioPolicy};

#[test]
fn launch_spec_keeps_executable_and_arguments_verbatim() {
    let spec = LaunchSpec::new(
        "../../node_modules/.bin/tsx".to_string(),
        vec!["../../packages/server/src/main.ts".to_string(), " --flag=a b ".to_string(), String::new()],
    );
    assert_eq!(spec.executable(), "../../node_modules/.bin/tsx");
    assert_eq!(
        spec.args(),
        &vec!["../../packages/server/src/main.ts".to_string(), " --flag=a b ".to_string(), String::new()]
    );
}

#[test]
fn launch_spec_captures_stdout_and_inherits_stderr() {
    let spec = LaunchSpec::new("server".to_string(), Vec::new());
    assert_eq!(spec.stdout(), StdioPolicy::Captured);
    assert_eq!(spec.stderr(), StdioPolicy::Inherited);
    assert!(spec.args().is_empty());
}
