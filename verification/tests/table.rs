use pidof_rs::process::ProcessLinks;
use pidof_rs::process_table::{hide_kernel_thread, read_processes, ScanError};
use pidof_rs::procfs::{read_process, EntryFiles, ProcessFiles};
use pidof_rs::{CheckRoot, CheckScripts, CheckThreads, CheckWorkers, ProcessTable};

fn files(name: &str, stat: Option<&str>, cmdline: Option<&str>) -> EntryFiles {
    EntryFiles {
        name: name.to_owned(),
        stat: stat.map(str::to_owned),
        cmdline: cmdline.map(str::to_owned),
    }
}

fn process(id: i32, short_name: &str, parent_id: i32, cmdline: &str) -> ProcessFiles {
    let stat = format!("{id} ({short_name}) S {parent_id} {id}");
    ProcessFiles { entry: files(&id.to_string(), Some(&stat), Some(cmdline)), tasks: None }
}

fn with_tasks(mut listed: ProcessFiles, tasks: &[(i32, &str)]) -> ProcessFiles {
    let cmdline = listed.entry.cmdline.clone();
    listed.tasks = Some(
        tasks
            .iter()
            .map(|(id, short_name)| {
                let stat = format!("{id} ({short_name}) S 1 {id}");
                files(&id.to_string(), Some(&stat), cmdline.as_deref())
            })
            .collect(),
    );
    listed
}

fn listing() -> Vec<ProcessFiles> {
    vec![
        process(1, "init", 0, "/sbin/init\0"),
        process(2, "kthreadd", 0, "kthreadd\0"),
        process(17, "kworker", 2, "kworker\0"),
        ProcessFiles { entry: files("self", Some("300 (foo) S 1"), Some("foo\0")), tasks: None },
        process(300, "foo", 1, "/usr/bin/foo\0--serve\0"),
        ProcessFiles { entry: files("301", None, None), tasks: None },
        process(250, "foo", 1, "foo\0"),
        process(400, "bash", 300, "-bash\0"),
    ]
}

fn unresolved(count: usize) -> Vec<ProcessLinks> {
    vec![ProcessLinks { root: None, exe: None }; count]
}

fn query(table: &ProcessTable, name: &str) -> Vec<i32> {
    let links = unresolved(table.entries().len());
    table.pid_of(name, &CheckRoot::No, CheckWorkers::No, CheckScripts::No, &links)
}

#[test]
fn a_failed_listing_is_the_one_error() {
    let error = ScanError { reason: "permission denied".to_owned() };

    let table = ProcessTable::populate(Err(error.clone()), CheckThreads::No, false);

    assert_eq!(table.err(), Some(error));
}

#[test]
fn an_empty_listing_gives_an_empty_table() {
    let table = ProcessTable::populate(Ok(Vec::new()), CheckThreads::Yes, true).unwrap();

    assert_eq!(table.ids(), Vec::<i32>::new());
    assert_eq!(query(&table, "foo"), Vec::<i32>::new());
}

#[test]
fn the_table_keeps_the_order_of_the_listing() {
    let table = ProcessTable::populate(Ok(listing()), CheckThreads::No, false).unwrap();

    assert_eq!(table.ids(), vec![1, 2, 17, 300, 250, 400]);
    assert_eq!(table.entries().len(), 6);
    assert_eq!(table.entries()[3].short_name, "foo");
    assert_eq!(table.entries()[3].arguments, vec!["/usr/bin/foo", "--serve"]);
}

#[test]
fn a_query_returns_the_matching_identifiers_in_table_order() {
    let table = ProcessTable::populate(Ok(listing()), CheckThreads::No, false).unwrap();

    assert_eq!(query(&table, "foo"), vec![300, 250]);
    assert_eq!(query(&table, "/usr/bin/foo"), vec![300, 250]);
    assert_eq!(query(&table, "init"), vec![1]);
    assert_eq!(query(&table, "bash"), Vec::<i32>::new());
    assert_eq!(query(&table, "nothing"), Vec::<i32>::new());
}

#[test]
fn a_query_returns_identifiers_of_the_table_only_and_none_twice() {
    let table = ProcessTable::populate(Ok(listing()), CheckThreads::No, false).unwrap();
    let ids = table.ids();

    for name in ["foo", "init", "kworker", "kthreadd", "bash", "/sbin/init", ""] {
        let found = query(&table, name);
        for (position, id) in found.iter().enumerate() {
            assert!(ids.contains(id));
            assert!(!found[..position].contains(id));
        }
    }
}

#[test]
fn hidden_kernel_workers_are_in_no_query_result() {
    let hidden = ProcessTable::populate(Ok(listing()), CheckThreads::No, true).unwrap();
    let shown = ProcessTable::populate(Ok(listing()), CheckThreads::No, false).unwrap();

    assert_eq!(hidden.ids(), vec![1, 300, 250, 400]);
    assert_eq!(query(&hidden, "kworker"), Vec::<i32>::new());
    assert_eq!(query(&hidden, "kthreadd"), Vec::<i32>::new());
    assert_eq!(query(&shown, "kworker"), vec![17]);
    assert_eq!(query(&shown, "kthreadd"), vec![2]);
}

#[test]
fn hiding_tells_the_daemon_and_its_children() {
    let entry = |name: &str, stat: &str| read_process(&files(name, Some(stat), Some("x\0"))).unwrap();
    let daemon = entry("2", "2 (kthreadd) S 0");
    let child = entry("17", "17 (kworker) S 2");
    let other = entry("20", "20 (foo) S 1");

    assert!(!hide_kernel_thread(true, &daemon));
    assert!(!hide_kernel_thread(true, &child));
    assert!(hide_kernel_thread(true, &other));
    assert!(hide_kernel_thread(false, &daemon));
    assert!(hide_kernel_thread(false, &child));
    assert!(hide_kernel_thread(false, &other));
}

#[test]
fn threads_are_listed_in_front_of_their_process() {
    let listed = vec![
        with_tasks(process(300, "foo", 1, "/usr/bin/foo\0"), &[(300, "foo"), (305, "foo-io")]),
        process(310, "bar", 1, "bar\0"),
        with_tasks(process(320, "foo", 1, "foo\0"), &[]),
    ];

    let threads = read_processes(&listed, CheckThreads::Yes, false);
    let plain = read_processes(&listed, CheckThreads::No, false);

    let ids = |entries: &Vec<pidof_rs::Process>| -> Vec<(i32, i32)> {
        entries.iter().map(|entry| (entry.id, entry.group_id)).collect()
    };
    assert_eq!(ids(&threads), vec![(300, 300), (305, 300), (300, 300), (310, 310), (320, 320)]);
    assert_eq!(ids(&plain), vec![(300, 300), (310, 310), (320, 320)]);
}

#[test]
fn threads_are_matched_like_processes() {
    let listed =
        vec![with_tasks(process(300, "foo", 1, "/usr/bin/foo\0"), &[(305, "foo-io"), (306, "x")])];
    let table = ProcessTable::populate(Ok(listed), CheckThreads::Yes, false).unwrap();

    assert_eq!(query(&table, "foo"), vec![305, 306, 300]);
}

#[test]
fn hidden_kernel_workers_take_their_threads_along() {
    let listed = vec![
        with_tasks(process(17, "kworker", 2, "kworker\0"), &[(18, "kworker")]),
        with_tasks(process(2, "kthreadd", 0, "kthreadd\0"), &[(2, "kthreadd")]),
    ];

    let entries = read_processes(&listed, CheckThreads::Yes, true);

    let ids: Vec<i32> = entries.iter().map(|entry| entry.id).collect();
    assert_eq!(ids, vec![18]);
}

#[test]
fn each_entry_is_judged_with_its_own_links() {
    let table = ProcessTable::populate(Ok(listing()), CheckThreads::No, false).unwrap();
    let own = CheckRoot::Yes("/".to_owned());
    let link = |root: &str, exe: &str| ProcessLinks {
        root: Some(root.to_owned()),
        exe: Some(exe.to_owned()),
    };
    let links = vec![
        link("/", "/sbin/init"),
        ProcessLinks { root: Some("/".to_owned()), exe: None },
        ProcessLinks { root: Some("/".to_owned()), exe: None },
        link("/var/jail", "/usr/bin/foo"),
        link("/", "/usr/bin/foo"),
        link("/", "/usr/bin/foo"),
    ];

    let found = table.pid_of("foo", &own, CheckWorkers::No, CheckScripts::No, &links);
    let by_link = table.pid_of("/usr/bin/foo", &own, CheckWorkers::No, CheckScripts::No, &links);

    assert_eq!(found, vec![250]);
    assert_eq!(by_link, vec![250]);
}

#[test]
fn entries_without_links_count_as_unresolved() {
    let table = ProcessTable::populate(Ok(listing()), CheckThreads::No, false).unwrap();
    let own = CheckRoot::Yes("/".to_owned());
    let links = vec![ProcessLinks { root: Some("/".to_owned()), exe: None }; 4];

    assert_eq!(
        table.pid_of("foo", &own, CheckWorkers::No, CheckScripts::No, &links),
        vec![300]
    );
    assert_eq!(
        table.pid_of("foo", &CheckRoot::No, CheckWorkers::No, CheckScripts::No, &Vec::new()),
        vec![300, 250]
    );
}

#[test]
fn workers_are_matched_by_short_name_on_request() {
    let listed = vec![process(17, "kworker/0:1", 2, "[kworker/0:1-events]\0")];
    let table = ProcessTable::populate(Ok(listed), CheckThreads::No, false).unwrap();
    let links = unresolved(1);

    assert_eq!(
        table.pid_of("kworker/0:1", &CheckRoot::No, CheckWorkers::Yes, CheckScripts::No, &links),
        vec![17]
    );
    assert_eq!(
        table.pid_of("kworker/0:1", &CheckRoot::No, CheckWorkers::No, CheckScripts::No, &links),
        Vec::<i32>::new()
    );
}
