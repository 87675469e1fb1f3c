use pidof_rs::process::{Process, ProcessLinks};
use pidof_rs::utils::base_name;
use pidof_rs::{CheckRoot, CheckScripts, CheckWorkers};

fn entry(short_name: &str, arguments: &[&str]) -> Process {
    Process {
        id: 42,
        parent_id: 1,
        group_id: 42,
        short_name: short_name.to_owned(),
        arguments: arguments.iter().map(|argument| (*argument).to_owned()).collect(),
    }
}

fn links(root: Option<&str>, exe: Option<&str>) -> ProcessLinks {
    ProcessLinks { root: root.map(str::to_owned), exe: exe.map(str::to_owned) }
}

fn plain(process: &Process, name: &str) -> bool {
    process.matches(name, &CheckRoot::No, CheckWorkers::No, CheckScripts::No, &links(None, None))
}

#[test]
fn base_name_is_what_follows_the_last_slash() {
    assert_eq!(base_name("/usr/bin/foo"), "foo");
    assert_eq!(base_name("foo"), "foo");
    assert_eq!(base_name("bin/foo"), "foo");
    assert_eq!(base_name("/usr/bin/"), "");
    assert_eq!(base_name("/"), "");
    assert_eq!(base_name(""), "");
    assert_eq!(base_name("/größe/日本"), "日本");
}

#[test]
fn argument_zero_matches_verbatim_and_by_base_name() {
    let process = entry("foo", &["/usr/bin/foo"]);

    assert!(plain(&process, "foo"));
    assert!(plain(&process, "/usr/bin/foo"));
    assert!(!plain(&process, "bin/foo"));
    assert!(!plain(&process, "fo"));
    assert!(!plain(&process, "bar"));
}

#[test]
fn a_path_matches_a_bare_argument_zero_by_its_base_name() {
    let process = entry("foo", &["foo"]);

    assert!(plain(&process, "/usr/bin/foo"));
    assert!(plain(&process, "/opt/foo"));
    assert!(!plain(&process, "/usr/bin/foo/"));
}

#[test]
fn a_login_shell_alone_never_matches() {
    let process = entry("bash", &["-bash"]);
    let resolved = links(Some("/"), Some("/bin/bash"));

    for name in ["bash", "-bash", "/bin/bash", ""] {
        assert!(!plain(&process, name));
        assert!(!process.matches(
            name,
            &CheckRoot::No,
            CheckWorkers::Yes,
            CheckScripts::Yes,
            &resolved
        ));
    }
}

#[test]
fn an_entry_without_arguments_never_matches() {
    let process = entry("kworker", &[]);

    assert!(!process.matches(
        "kworker",
        &CheckRoot::No,
        CheckWorkers::Yes,
        CheckScripts::Yes,
        &links(None, Some("kworker"))
    ));
}

#[test]
fn arguments_with_the_login_marker_are_passed_over() {
    let process = entry("sh", &["-sh", "-l", "/bin/dash", "-x", "/opt/run.sh"]);

    assert!(plain(&process, "dash"));
    assert!(!plain(&process, "sh"));
    assert!(process.matches(
        "run.sh",
        &CheckRoot::No,
        CheckWorkers::No,
        CheckScripts::Yes,
        &links(None, None)
    ));
}

#[test]
fn an_empty_argument_carries_no_login_marker() {
    let process = entry("sh", &["", "x"]);

    assert!(plain(&process, ""));
    assert!(!plain(&process, "x"));
}

#[test]
fn the_short_name_matches_only_with_workers() {
    let process = entry("kworker", &["[kworker/0:1]"]);
    let none = links(None, None);

    assert!(!process.matches("kworker", &CheckRoot::No, CheckWorkers::No, CheckScripts::No, &none));
    assert!(process.matches("kworker", &CheckRoot::No, CheckWorkers::Yes, CheckScripts::No, &none));
}

#[test]
fn the_executable_link_matches_verbatim_and_by_base_name() {
    let process = entry("python3", &["python"]);
    let resolved = links(None, Some("/usr/bin/python3.11"));
    let check = |name: &str, with: &ProcessLinks| {
        process.matches(name, &CheckRoot::No, CheckWorkers::No, CheckScripts::No, with)
    };

    assert!(check("python3.11", &resolved));
    assert!(check("/usr/bin/python3.11", &resolved));
    assert!(!check("bin/python3.11", &resolved));
    assert!(!check("python3.11", &links(None, None)));
}

#[test]
fn an_unresolved_executable_link_leaves_the_other_rules() {
    let process = entry("foo", &["/usr/bin/foo", "/opt/run.sh"]);
    let none = links(None, None);

    assert!(process.matches("foo", &CheckRoot::No, CheckWorkers::No, CheckScripts::No, &none));
    assert!(process.matches("run.sh", &CheckRoot::No, CheckWorkers::No, CheckScripts::Yes, &none));
}

#[test]
fn scripts_match_by_the_second_argument() {
    let process = entry("run.sh", &["/bin/sh", "/opt/tool/run.sh"]);
    let none = links(None, None);
    let check = |name: &str, scripts: CheckScripts| {
        process.matches(name, &CheckRoot::No, CheckWorkers::No, scripts, &none)
    };

    assert!(check("run.sh", CheckScripts::Yes));
    assert!(check("/opt/tool/run.sh", CheckScripts::Yes));
    assert!(!check("run.sh", CheckScripts::No));
    assert!(!check("/opt/tool/run.sh", CheckScripts::No));
    assert!(check("sh", CheckScripts::No));
}

#[test]
fn a_script_named_as_the_short_name_matches_any_name() {
    let process = entry("run.sh", &["/bin/sh", "/opt/tool/run.sh"]);
    let none = links(None, None);

    assert!(process.matches("other", &CheckRoot::No, CheckWorkers::No, CheckScripts::Yes, &none));
    assert!(!process.matches("other", &CheckRoot::No, CheckWorkers::No, CheckScripts::No, &none));
}

#[test]
fn a_path_matches_a_bare_script_by_its_base_name() {
    let process = entry("sh", &["/bin/sh", "run.sh"]);
    let none = links(None, None);

    assert!(process.matches(
        "/opt/run.sh",
        &CheckRoot::No,
        CheckWorkers::No,
        CheckScripts::Yes,
        &none
    ));
}

#[test]
fn scripts_need_a_second_argument() {
    let process = entry("sh", &["/bin/sh"]);
    let none = links(None, None);

    assert!(!process.matches("", &CheckRoot::No, CheckWorkers::No, CheckScripts::Yes, &none));
    assert!(!process.matches("x", &CheckRoot::No, CheckWorkers::No, CheckScripts::Yes, &none));
}

#[test]
fn an_underscore_in_argument_zero_recovers_the_short_name() {
    let process = entry("my_long_program", &["/opt/my_long_program_name"]);
    let plain_name = entry("program", &["/opt/programname"]);

    assert!(plain(&process, "my_long_program"));
    assert!(!plain(&process, "my_long"));
    assert!(!plain(&plain_name, "program"));
}

#[test]
fn another_root_never_matches() {
    let process = entry("foo", &["/usr/bin/foo_bar", "foo"]);
    let own = CheckRoot::Yes("/".to_owned());
    let check = |with: &ProcessLinks| {
        process.matches("foo", &own, CheckWorkers::Yes, CheckScripts::Yes, with)
    };

    assert!(check(&links(Some("/"), Some("/usr/bin/foo"))));
    assert!(!check(&links(Some("/var/jail"), Some("/usr/bin/foo"))));
    assert!(!check(&links(Some(""), Some("/usr/bin/foo"))));
    assert!(!check(&links(None, Some("/usr/bin/foo"))));
}

#[test]
fn the_root_link_is_not_read_without_the_check() {
    let process = entry("foo", &["foo"]);

    assert!(process.matches(
        "foo",
        &CheckRoot::No,
        CheckWorkers::No,
        CheckScripts::No,
        &links(Some("/var/jail"), None)
    ));
}
