use anemoia::agent::{command_reply, dispatch_command, temp_client_path, AgentCommand, HealthMonitor};
use anemoia::maps::{find_all_swap_buffers, lib_candidates, libjvm_paths, swap_buffer_candidates};

#[test]
fn commands_are_read() {
    assert_eq!(dispatch_command("reload /tmp/lib.so"), AgentCommand::Reload("/tmp/lib.so".to_string()));
    assert_eq!(dispatch_command("reload "), AgentCommand::Reload(String::new()));
    assert_eq!(dispatch_command("unload"), AgentCommand::Unload);
    assert_eq!(dispatch_command("unload now"), AgentCommand::Unknown);
    assert_eq!(dispatch_command("reload"), AgentCommand::Unknown);
    assert_eq!(dispatch_command(""), AgentCommand::Unknown);
}

#[test]
fn replies() {
    let r = AgentCommand::Reload("/x".to_string());
    assert_eq!(command_reply(&r, None), "OK");
    assert_eq!(command_reply(&r, Some("copy failed")), "ERR: copy failed");
    assert_eq!(command_reply(&AgentCommand::Unload, None), "OK");
    assert_eq!(command_reply(&AgentCommand::Unknown, None), "ERR: unknown command");
}

#[test]
fn three_failed_checks_in_a_row_give_up() {
    let mut m = HealthMonitor::new();
    let s = m.check(false);
    assert_eq!((s.warn, s.unload), (Some(1), false));
    let s = m.check(true);
    assert_eq!((s.warn, s.unload), (None, false));
    m.check(false);
    let s = m.check(false);
    assert_eq!((s.warn, s.unload), (Some(2), false));
    let s = m.check(false);
    assert_eq!((s.warn, s.unload), (Some(3), true));
}

#[test]
fn temp_path_is_named_by_time() {
    assert_eq!(temp_client_path(1700000000123), "/tmp/anemoia_client_1700000000123.so");
}

const MAPS: &str = "7f00-7f10 r-xp 00000000 08:01 1 /usr/lib/jvm/lib/server/libjvm.so\n\
7f10-7f20 r--p 00000000 00:00 0 \n\
7f20-7f30 r-xp 00000000 08:01 2 /usr/lib/libGL.so.1\n\
7f30-7f40 r-xp 00000000 08:01 3 [libGL-heap]\n\
7f40-7f50 r-xp 00000000 08:01 4 /usr/lib/libGLX.so.0\n";

#[test]
fn libjvm_is_found_in_the_maps() {
    assert_eq!(libjvm_paths(MAPS), vec!["/usr/lib/jvm/lib/server/libjvm.so"]);
    assert_eq!(libjvm_paths("nothing here\n"), Vec::<String>::new());
}

#[test]
fn library_candidates_are_absolute_paths_in_order() {
    assert_eq!(lib_candidates(MAPS, "libGL"), vec!["/usr/lib/libGL.so.1", "/usr/lib/libGLX.so.0"]);
    assert_eq!(lib_candidates("a b /x/libEGL.so\n  libEGL\n/y/libEGL.so\n", "libEGL"), vec!["/x/libEGL.so", "/y/libEGL.so"]);
}

#[test]
fn swap_buffers_keep_the_found_ones() {
    let c = swap_buffer_candidates();
    assert_eq!(c[0], ("glXSwapBuffers".to_string(), "libGL".to_string()));
    assert_eq!(c[1], ("eglSwapBuffers".to_string(), "libEGL".to_string()));
    assert_eq!(find_all_swap_buffers(&vec![None, Some(0x1000)]), vec![(0x1000, "eglSwapBuffers".to_string())]);
    assert_eq!(find_all_swap_buffers(&vec![None, None]), vec![]);
    assert_eq!(find_all_swap_buffers(&vec![Some(1), Some(2)]).len(), 2);
}
