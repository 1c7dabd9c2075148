use anemoia::injector::ProcessInfo;
use anemoia::launcher::{process_entry, version_in, InjectorCall, InjectorRun, LauncherApp, ProcessEntry};

fn proc_info(pid: u32, name: &str, cmd: &[&str]) -> ProcessInfo {
    ProcessInfo { pid, name: name.to_string(), cmd: cmd.iter().map(|s| s.to_string()).collect() }
}

fn game(pid: u32, jar: &str) -> ProcessInfo {
    proc_info(pid, "java", &["/usr/bin/java", "-cp", jar, "com/mojang/minecraft/Main"])
}

fn app() -> LauncherApp {
    LauncherApp::new("/bin/anemoia-inject".to_string(), "agent.so".to_string(), "client.so".to_string())
}

#[test]
fn version_comes_from_the_client_jar() {
    let v: String = version_in(&"java -cp /x/lib.jar:/y/minecraft-1.21.4-client.jar Main".chars().collect::<Vec<_>>())
        .into_iter()
        .collect();
    assert_eq!(v, "1.21.4");
    let none: String = version_in(&"java -jar server.jar".chars().collect::<Vec<_>>()).into_iter().collect();
    assert_eq!(none, "?");
}

#[test]
fn process_entry_labels_game_processes() {
    let e = process_entry(&game(4242, "/v/minecraft-26.1.2-client.jar")).expect("a game process");
    assert_eq!(e, ProcessEntry { pid: 4242, label: "  4242  Minecraft 26.1.2  (java)".to_string() });
    let wide = process_entry(&game(12345678, "x.jar")).expect("a game process");
    assert_eq!(wide.label, "12345678  Minecraft ?  (java)");
}

#[test]
fn process_entry_skips_other_processes() {
    assert!(process_entry(&proc_info(1, "javaw", &["com/mojang/minecraft"])).is_none());
    assert!(process_entry(&proc_info(2, "java", &["-jar", "server.jar"])).is_none());
    assert!(process_entry(&proc_info(3, "JAVA", &["COM/MOJANG/MINECRAFT"])).is_some());
}

#[test]
fn refresh_sorts_by_pid_and_selects_the_first() {
    let mut a = app();
    a.refresh_processes(&vec![game(30, "a"), proc_info(5, "bash", &["bash"]), game(10, "b"), game(20, "c")]);
    let pids: Vec<u32> = a.processes.iter().map(|p| p.pid).collect();
    assert_eq!(pids, vec![10, 20, 30]);
    assert_eq!(a.selected_pid, Some(10));
    a.select(30);
    a.refresh_processes(&vec![game(10, "b")]);
    assert_eq!(a.selected_pid, Some(30));
}

#[test]
fn inject_needs_a_selection_and_an_injector() {
    let mut a = app();
    assert_eq!(a.inject(true), None);
    assert_eq!(a.status, "No process selected.");
    assert!(!a.status_ok);
    a.select(99);
    assert_eq!(a.inject(false), None);
    assert_eq!(a.status, "Injector not found: /bin/anemoia-inject");
    a.injector_path = "  ".to_string();
    assert_eq!(a.inject(true), None);
    assert_eq!(a.status, "Injector not found: ");
    a.injector_path = " /bin/inj ".to_string();
    assert_eq!(a.inject(true), Some(InjectorCall { injector: "/bin/inj".to_string(), pid: 99 }));
    assert_eq!(a.status, "Injecting into PID 99...");
    assert!(a.status_ok);
}

#[test]
fn set_status_replaces_the_status_line() {
    let mut a = app();
    assert_eq!(a.status, "Ready.");
    a.set_status("Boom", false);
    assert_eq!(a.status, "Boom");
    assert!(!a.status_ok);
}

#[test]
fn injector_output_goes_to_the_log() {
    let mut a = app();
    a.record_injector_run(&InjectorRun::Finished {
        stdout: "one\ntwo\n".to_string(),
        stderr: "warn\n".to_string(),
        success: true,
        status: "exit status: 0".to_string(),
    });
    a.record_injector_run(&InjectorRun::Finished {
        stdout: String::new(),
        stderr: String::new(),
        success: false,
        status: "exit status: 1".to_string(),
    });
    a.record_injector_run(&InjectorRun::SpawnFailed("no such file".to_string()));
    assert_eq!(
        a.log_lines,
        vec![
            "one",
            "two",
            "warn",
            "[injector] OK",
            "[injector] exited with status exit status: 1",
            "[injector] spawn error: no such file"
        ]
    );
}

#[test]
fn client_log_replaces_the_log_and_only_its_tail_shows() {
    let mut a = app();
    let text: String = (0..250).map(|i| format!("line {}\n", i)).collect();
    a.refresh_client_log(Some(&text));
    assert_eq!(a.log_lines.len(), 250);
    assert_eq!(a.log_start(), 50);
    a.refresh_client_log(None);
    assert_eq!(a.log_lines.len(), 250);
    a.refresh_client_log(Some("x"));
    assert_eq!(a.log_start(), 0);
}
