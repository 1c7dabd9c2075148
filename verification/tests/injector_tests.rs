use anemoia::injector::{
    agent_reply, attach_message, attach_outcome, attach_return_code, find_minecraft_pid, inject,
    is_lib_mapped, parse_pid, socket_path, trigger_name, AttachFailure, PidArg, PidError, ProcessInfo,
};

fn args(v: &[&str]) -> Vec<String> {
    v.iter().map(|s| s.to_string()).collect()
}

fn proc_info(pid: u32, name: &str, cmd: &[&str]) -> ProcessInfo {
    ProcessInfo { pid, name: name.to_string(), cmd: args(cmd) }
}

#[test]
fn pid_flag_takes_the_next_argument() {
    assert_eq!(parse_pid(&args(&["inject", "--pid", "4242"])), Ok(PidArg::Given(4242)));
    assert_eq!(parse_pid(&args(&["inject", "x", "--pid", "7", "--pid", "9"])), Ok(PidArg::Given(7)));
}

#[test]
fn pid_flag_without_value_is_an_error() {
    assert_eq!(parse_pid(&args(&["inject", "--pid"])), Err(PidError::MissingValue));
}

#[test]
fn pid_flag_with_bad_value_is_an_error() {
    assert_eq!(parse_pid(&args(&["inject", "--pid", "abc"])), Err(PidError::Invalid("abc".to_string())));
    assert_eq!(parse_pid(&args(&["inject", "--pid", "-3"])), Err(PidError::Invalid("-3".to_string())));
}

#[test]
fn single_numeric_argument_is_the_pid() {
    assert_eq!(parse_pid(&args(&["inject", "1234"])), Ok(PidArg::Given(1234)));
}

#[test]
fn otherwise_the_process_is_detected() {
    assert_eq!(parse_pid(&args(&["inject"])), Ok(PidArg::Detect));
    assert_eq!(parse_pid(&args(&["inject", "abc"])), Ok(PidArg::Detect));
    assert_eq!(parse_pid(&args(&["inject", "1", "2"])), Ok(PidArg::Detect));
}

#[test]
fn minecraft_process_is_preferred_over_plain_java() {
    let procs = vec![
        proc_info(10, "bash", &["bash"]),
        proc_info(20, "java", &["java", "-jar", "server.jar"]),
        proc_info(30, "java", &["/usr/bin/java", "-cp", "Minecraft.jar", "net.minecraft.client.main.Main"]),
    ];
    assert_eq!(find_minecraft_pid(&procs), Some(30));
}

#[test]
fn first_java_process_when_none_mentions_minecraft() {
    let procs = vec![
        proc_info(5, "zsh", &["zsh"]),
        proc_info(8, "JavaUpdater", &["updater"]),
        proc_info(9, "java", &["java"]),
    ];
    assert_eq!(find_minecraft_pid(&procs), Some(8));
    assert_eq!(find_minecraft_pid(&vec![proc_info(1, "init", &["init"])]), None);
}

#[test]
fn attach_message_fields_are_nul_terminated() {
    let m = attach_message("/opt/libagent.so");
    assert_eq!(m, b"1\0load\0/opt/libagent.so\0true\0\0".to_vec());
}

#[test]
fn attach_return_code_reads_the_first_line() {
    assert_eq!(attach_return_code("0\n"), 0);
    assert_eq!(attach_return_code(" 100 \nsome output\n"), 100);
    assert_eq!(attach_return_code("-2\r\n"), -2);
    assert_eq!(attach_return_code(""), -1);
    assert_eq!(attach_return_code("oops\n0\n"), -1);
}

#[test]
fn attach_outcome_reports_the_code_and_answer() {
    assert_eq!(attach_outcome("0\n"), Ok(()));
    assert_eq!(
        attach_outcome("101\nload failed\n"),
        Err(AttachFailure { code: 101, response: "101\nload failed".to_string() })
    );
}

#[test]
fn attach_paths_carry_the_pid() {
    assert_eq!(socket_path(4321), "/tmp/.java_pid4321");
    assert_eq!(trigger_name(0), ".attach_pid0");
}

#[test]
fn lib_mapped_looks_at_file_names_only() {
    let maps = vec![None, Some("/usr/lib/libc.so.6".to_string()), Some("/tmp/libagent_loader.so".to_string())];
    assert!(is_lib_mapped(&maps, "libagent_loader"));
    assert!(!is_lib_mapped(&maps, "libanemoia"));
    assert!(!is_lib_mapped(&vec![None], ""));
}

#[test]
fn inject_plans_attach_only_when_the_agent_is_absent() {
    let plan = inject(77, "/a/libagent_loader.so", "/a/libanemoia_client.so", false);
    assert_eq!(plan.command, "reload /a/libanemoia_client.so");
    let attach = plan.attach.expect("attach needed");
    assert_eq!(attach.socket_path, "/tmp/.java_pid77");
    assert_eq!(attach.trigger_name, ".attach_pid77");
    assert_eq!(attach.message, b"1\0load\0/a/libagent_loader.so\0true\0\0".to_vec());
    let plan2 = inject(77, "/a/libagent_loader.so", "/a/libanemoia_client.so", true);
    assert!(plan2.attach.is_none());
}

#[test]
fn agent_reply_refuses_err_answers() {
    assert_eq!(agent_reply("OK\n"), Ok(()));
    assert_eq!(agent_reply("ERR: unknown command\n"), Err("ERR: unknown command".to_string()));
}
