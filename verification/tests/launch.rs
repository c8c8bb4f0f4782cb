use whatsapp_lite::launch::{
    prevents_exit, relaunch_argument, relaunch_predecessor, starts_hidden, wants_devtools,
    PREDECESSOR_WAIT_MS,
};

fn args(list: &[&str]) -> Vec<String> {
    list.iter().map(|a| a.to_string()).collect()
}

#[test]
fn successor_reads_what_its_predecessor_wrote() {
    assert_eq!(relaunch_argument(4321), "--relaunch-after=4321");
    for pid in [0, 1, 9, 10, 4321, u32::MAX] {
        let list = vec![
            "app".to_string(),
            "--hidden".to_string(),
            relaunch_argument(pid),
            "x".to_string(),
        ];
        assert_eq!(relaunch_predecessor(&list), Some(pid));
    }
}

#[test]
fn first_readable_predecessor_counts() {
    assert_eq!(
        relaunch_predecessor(&args(&[
            "app",
            "--relaunch-after=x",
            "--relaunch-after=7",
            "--relaunch-after=8"
        ])),
        Some(7)
    );
}

#[test]
fn unreadable_predecessors_are_passed_over() {
    for arg in [
        "--relaunch-after=",
        "--relaunch-after=+",
        "--relaunch-after=-1",
        "--relaunch-after=4294967296",
        "--relaunch-after= 1",
        "relaunch-after=1",
    ] {
        assert_eq!(relaunch_predecessor(&args(&["app", arg])), None);
    }
    assert_eq!(
        relaunch_predecessor(&args(&["--relaunch-after=+0012"])),
        Some(12)
    );
    assert_eq!(relaunch_predecessor(&[]), None);
    assert_eq!(PREDECESSOR_WAIT_MS, 10_000);
}

#[test]
fn hidden_start_needs_its_argument() {
    assert!(starts_hidden(&args(&["app", "--hidden"])));
    assert!(!starts_hidden(&args(&["app", "--hidden=1"])));
    assert!(!starts_hidden(&[]));
}

#[test]
fn developer_tools_need_the_variable() {
    assert!(wants_devtools(Some("1")));
    assert!(!wants_devtools(Some("true")));
    assert!(!wants_devtools(None));
}

#[test]
fn only_an_exit_with_a_code_ends_the_app() {
    assert!(prevents_exit(None));
    assert!(!prevents_exit(Some(0)));
    assert!(!prevents_exit(Some(1)));
}
