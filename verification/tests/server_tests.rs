use mdbook_lang::server::{
    build_reply, builder_for, join_path, listen_address, pkl_command, remove_dir_from_error, sandbox_args,
    service_address,
    start_lang_server, Builder, ServerAction, ServerEvent, ServerPhase,
};

#[test]
fn builders() {
    assert_eq!(builder_for("cpp"), Builder::Cpp);
    assert_eq!(builder_for("c"), Builder::C);
    assert_eq!(builder_for("java"), Builder::Java);
    assert_eq!(builder_for("python"), Builder::Python);
    assert_eq!(builder_for("go"), Builder::Go);
    assert_eq!(builder_for("javascript"), Builder::JavaScript);
    assert_eq!(builder_for("typescript"), Builder::TypeScript);
    assert_eq!(builder_for("scheme"), Builder::Scheme);
    assert_eq!(builder_for("pkl"), Builder::Pkl);
    assert_eq!(builder_for("rust"), Builder::Cpp);
}

#[test]
fn sandbox_command_line() {
    assert!(sandbox_args(None, Some("a:b".to_string())).is_empty());
    assert_eq!(
        sandbox_args(Some("firejail".to_string()), Some("--profile=/p:--quiet".to_string())),
        vec!["firejail", "--profile=/p", "--quiet"]
    );
    assert_eq!(sandbox_args(Some("firejail".to_string()), None), vec!["firejail", ""]);
}

#[test]
fn pkl_commands() {
    let (cmd, args) = pkl_command(&vec![], "/tmp/x/input.pkl");
    assert_eq!(cmd, "pkl");
    assert_eq!(args, vec!["eval", "/tmp/x/input.pkl"]);
    let sandbox = vec!["firejail".to_string(), "--quiet".to_string(), "pkl".to_string()];
    let (cmd, args) = pkl_command(&sandbox, "f.pkl");
    assert_eq!(cmd, "firejail");
    assert_eq!(args, vec!["--quiet", "pkl", "eval", "f.pkl"]);
}

#[test]
fn replies_are_json() {
    assert_eq!(build_reply("key = \"value\"\n"), "{\"result\":\"key = \\\"value\\\"\\n\"}");
    assert_eq!(build_reply("a\\b\t\u{1}é"), "{\"result\":\"a\\\\b\\t\\u0001é\"}");
}

#[test]
fn addresses_and_paths() {
    assert_eq!(listen_address("127.0.0.1", "3333"), "127.0.0.1:3333");
    assert_eq!(join_path("/tmp", "a"), "/tmp/a");
    assert_eq!(join_path("/tmp/", "a"), "/tmp/a");
    assert_eq!(join_path("", "a"), "a");
    let args = vec!["svc".to_string(), "0.0.0.0".to_string(), "80".to_string()];
    assert_eq!(
        service_address(&args, ("h".to_string(), "p".to_string())),
        ("0.0.0.0".to_string(), "80".to_string())
    );
    assert_eq!(
        service_address(&vec!["svc".to_string()], ("h".to_string(), "p".to_string())),
        ("h".to_string(), "p".to_string())
    );
}

fn remove_path(a: &ServerAction) -> String {
    match a {
        ServerAction::RemoveFile { path } => path.clone(),
        _ => panic!("expected a removal"),
    }
}

#[test]
fn server_start_steps() {
    let mut s = start_lang_server("127.0.0.1", "3333");
    let a = s.step(ServerEvent::Start { temp_dir: "/tmp".to_string(), work_dir: "/book".to_string() });
    assert_eq!(remove_path(&a), "/tmp/mdbook-lang-server.pid");
    match s.step(ServerEvent::Done) {
        ServerAction::CreateLogFiles { stdout, stderr } => {
            assert_eq!(stdout, "/tmp/mdbook-lang-server.out");
            assert_eq!(stderr, "/tmp/mdbook-lang-server.err");
        }
        _ => panic!("expected log files"),
    }
    match s.step(ServerEvent::Done) {
        ServerAction::Daemonize { pid_file, work_dir, umask, .. } => {
            assert_eq!(pid_file, "/tmp/mdbook-lang-server.pid");
            assert_eq!(work_dir, "/book");
            assert_eq!(umask, 0o077);
        }
        _ => panic!("expected daemonizing"),
    }
    assert!(matches!(s.step(ServerEvent::Signal), ServerAction::Nothing));
    assert!(matches!(s.step(ServerEvent::Daemonized { ok: false }), ServerAction::WatchSignals));
    match s.step(ServerEvent::Done) {
        ServerAction::Serve { address } => assert_eq!(address, "127.0.0.1:3333"),
        _ => panic!("expected serving"),
    }
    let a = s.step(ServerEvent::Served { ok: false });
    assert_eq!(remove_path(&a), "/tmp/mdbook-lang-server.pid");
    assert!(matches!(s.step(ServerEvent::Done), ServerAction::Exit { code: -2 }));
    assert!(matches!(s.phase, ServerPhase::Finished));
}

#[test]
fn server_signal_and_clean_return() {
    let mut s = start_lang_server("h", "1");
    s.step(ServerEvent::Start { temp_dir: "/t".to_string(), work_dir: "/".to_string() });
    s.step(ServerEvent::Done);
    s.step(ServerEvent::Done);
    s.step(ServerEvent::Daemonized { ok: true });
    s.step(ServerEvent::Done);
    let a = s.step(ServerEvent::Signal);
    assert_eq!(remove_path(&a), "/t/mdbook-lang-server.pid");
    assert!(matches!(s.step(ServerEvent::Done), ServerAction::Exit { code: -1 }));

    let mut s = start_lang_server("h", "1");
    s.step(ServerEvent::Start { temp_dir: "/t".to_string(), work_dir: "/".to_string() });
    s.step(ServerEvent::Done);
    s.step(ServerEvent::Done);
    s.step(ServerEvent::Daemonized { ok: true });
    s.step(ServerEvent::Done);
    s.step(ServerEvent::Served { ok: true });
    assert!(matches!(s.step(ServerEvent::Done), ServerAction::Return));
}

#[test]
fn build_directory_taken_out_of_messages() {
    assert_eq!(
        remove_dir_from_error("/tmp/mdbook-lang-1/input.pkl:3: error", "input.pkl"),
        "input.pkl:3: error"
    );
    assert_eq!(
        remove_dir_from_error("at 'C:\\t\\x\\input.cpp' and /a/input.cpp", "input.cpp"),
        "at 'input.cpp' and input.cpp"
    );
    assert_eq!(remove_dir_from_error("input.cpp alone", "input.cpp"), "input.cpp alone");
    assert_eq!(remove_dir_from_error("/d/inputXcpp", "input.cpp"), "/d/inputXcpp");
}
