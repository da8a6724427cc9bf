use authd::files::{next_uid, parse_group_file, parse_passwd_file, parse_shadow_file};
use authd::{FileSnapshot, FileTime, Files, Reloadable, StoreError, Table};

fn at(secs: u64) -> FileTime {
    FileTime { secs, nanos: 0 }
}

fn snap(secs: u64, text: &str) -> FileSnapshot {
    FileSnapshot { modified: at(secs), contents: text.to_string() }
}

fn store() -> Files {
    Files::new(
        "/etc/auth/passwd".to_string(),
        "/etc/auth/group".to_string(),
        "/etc/auth/shadow".to_string(),
    )
}

const BOB: &str = "bob:x:1002:1002:Bob:/home/bob:/bin/sh\n";
const ALICE: &str = "alice:x:1001:1001:Alice Example:/home/alice:/bin/sh\n";
const GROUPS: &str = "auth-admins:x:900:root\nwheel:x:10:bob\n";
const SHADOW: &str = "bob:!:19000:0:99999:7:::\n";

#[test]
fn new_store_is_empty_and_unread() {
    let f = store();
    assert_eq!(f.passwd.pth, "/etc/auth/passwd");
    assert!(f.passwd.latest_ts.is_none());
    assert!(f.get_all_passwd().is_empty());
    assert!(f.get_all_groups().is_empty());
    assert!(f.get_all_shadow().is_empty());
}

#[test]
fn first_refresh_always_loads() {
    let mut f = store();
    assert!(f.refresh(&snap(0, BOB), &snap(0, GROUPS), &snap(0, SHADOW)).is_ok());
    assert_eq!(f.get_all_passwd().len(), 1);
    assert_eq!(f.get_all_groups().len(), 2);
    assert_eq!(f.get_all_shadow().len(), 1);
    assert_eq!(f.passwd.latest_ts, Some(at(0)));
}

#[test]
fn reload_after_mtime_bump() {
    let mut f = store();
    f.refresh(&snap(100, BOB), &snap(100, GROUPS), &snap(100, SHADOW)).unwrap();
    assert!(f.passwd_by_name(&"alice".to_string()).is_none());

    let appended = format!("{}{}", BOB, ALICE);
    f.refresh(&snap(101, &appended), &snap(100, GROUPS), &snap(100, SHADOW)).unwrap();
    let alice = f.passwd_by_name(&"alice".to_string()).expect("alice after reload");
    assert_eq!(alice.id, 1001);
    assert_eq!(alice.gecos, "Alice Example");
    assert_eq!(f.get_all_passwd().len(), 2);
}

#[test]
fn no_reload_without_mtime_bump() {
    let mut f = store();
    f.refresh(&snap(100, BOB), &snap(100, GROUPS), &snap(100, SHADOW)).unwrap();
    let appended = format!("{}{}", BOB, ALICE);
    f.refresh(&snap(100, &appended), &snap(100, GROUPS), &snap(100, SHADOW)).unwrap();
    assert!(f.passwd_by_name(&"alice".to_string()).is_none());
    f.refresh(&snap(99, &appended), &snap(100, GROUPS), &snap(100, SHADOW)).unwrap();
    assert!(f.passwd_by_name(&"alice".to_string()).is_none());
}

#[test]
fn nanosecond_bump_reloads() {
    let mut t = Reloadable::<authd::Passwd>::new("p".to_string());
    assert!(t.needs_reload(at(5)));
    t.latest_ts = Some(at(5));
    assert!(!t.needs_reload(at(5)));
    assert!(t.needs_reload(FileTime { secs: 5, nanos: 1 }));
    assert!(!t.needs_reload(FileTime { secs: 4, nanos: 999_999_999 }));
}

#[test]
fn malformed_file_fails_and_keeps_cache() {
    let mut f = store();
    f.refresh(&snap(1, BOB), &snap(1, GROUPS), &snap(1, SHADOW)).unwrap();
    let r = f.refresh(&snap(2, "broken line\n"), &snap(2, ""), &snap(2, ""));
    assert_eq!(r, Err(StoreError::Malformed(Table::Passwd)));
    assert_eq!(f.get_all_passwd().len(), 1);
    assert_eq!(f.passwd.latest_ts, Some(at(1)));
    assert_eq!(f.get_all_groups().len(), 2);
    // A later good text is picked up on the next refresh.
    f.refresh(&snap(2, ALICE), &snap(1, GROUPS), &snap(1, SHADOW)).unwrap();
    assert!(f.passwd_by_name(&"alice".to_string()).is_some());
}

#[test]
fn refresh_stops_at_first_bad_table() {
    let mut f = store();
    let r = f.refresh(&snap(1, BOB), &snap(1, "wheel:x:ten:\n"), &snap(1, SHADOW));
    assert_eq!(r, Err(StoreError::Malformed(Table::Group)));
    assert_eq!(f.get_all_passwd().len(), 1);
    assert!(f.get_all_groups().is_empty());
    assert!(f.get_all_shadow().is_empty());
    let r = f.refresh(&snap(1, BOB), &snap(2, GROUPS), &snap(1, "bob:!:x:0:0:0:::\n"));
    assert_eq!(r, Err(StoreError::Malformed(Table::Shadow)));
    assert_eq!(f.get_all_groups().len(), 2);
}

#[test]
fn empty_lines_are_skipped() {
    let text = format!("\n{}\n\n{}", BOB, ALICE);
    let all = parse_passwd_file(&text).unwrap();
    assert_eq!(all.len(), 2);
    assert_eq!(all[0].name, "bob");
    assert_eq!(all[1].name, "alice");
    assert_eq!(parse_passwd_file("").unwrap().len(), 0);
    assert!(parse_group_file("a:x:1:\nbad\n").is_none());
    assert_eq!(parse_shadow_file(SHADOW).unwrap().len(), 1);
}

#[test]
fn lookups_take_first_match() {
    let mut f = store();
    let passwd = "bob:x:1002:1002:First:/home/bob:/bin/sh\nbob:x:1003:1003:Second:/home/bob:/bin/sh\n";
    let groups = "wheel:x:10:a\nwheel:x:11:b\nstaff:x:10:c\n";
    let shadow = "bob:first:1:0:0:0:::\nbob:second:1:0:0:0:::\n";
    f.refresh(&snap(1, passwd), &snap(1, groups), &snap(1, shadow)).unwrap();
    assert_eq!(f.passwd_by_name(&"bob".to_string()).unwrap().gecos, "First");
    assert_eq!(f.passwd_by_uid(1003).unwrap().gecos, "Second");
    assert!(f.passwd_by_uid(7).is_none());
    assert_eq!(f.group_by_name(&"wheel".to_string()).unwrap().gid, 10);
    assert_eq!(f.group_by_gid(10).unwrap().name, "wheel");
    assert_eq!(f.group_by_gid(11).unwrap().members, vec!["b".to_string()]);
    assert!(f.group_by_name(&"nope".to_string()).is_none());
    assert_eq!(f.shadow_by_name(&"bob".to_string()).unwrap().passwd, "first");
    assert!(f.shadow_by_name(&"alice".to_string()).is_none());
}

#[test]
fn next_uid_follows_the_largest() {
    let all = parse_passwd_file(&format!("{}{}", ALICE, BOB)).unwrap();
    assert_eq!(next_uid(&all), Some(1003));
    assert_eq!(next_uid(&Vec::new()), Some(2));
    let zero = parse_passwd_file("root:x:0:0:::\n").unwrap();
    assert_eq!(next_uid(&zero), Some(1));
    let full = parse_passwd_file("max:x:4294967295:0:::\n").unwrap();
    assert_eq!(next_uid(&full), None);
}

#[test]
fn new_account_only_when_name_is_free() {
    let mut f = store();
    f.refresh(&snap(1, BOB), &snap(1, GROUPS), &snap(1, SHADOW)).unwrap();
    let (gecos, dir, shell) = (String::new(), "/nonexistent".to_string(), "/bin/false".to_string());
    assert!(f.account_for_new_user(&"bob".to_string(), 5, &gecos, &dir, &shell).is_none());
    let carol = f.account_for_new_user(&"carol".to_string(), 1100, &gecos, &dir, &shell).unwrap();
    assert_eq!(carol.format_line(), "carol:x:1100:1100::/nonexistent:/bin/false");
}

#[test]
fn appended_line_is_seen_after_bump() {
    let mut f = store();
    f.refresh(&snap(10, BOB), &snap(10, GROUPS), &snap(10, SHADOW)).unwrap();
    assert!(f.passwd_by_name(&"alice".to_string()).is_none());
    let text = format!("{}{}", BOB, ALICE);
    f.refresh(&snap(11, &text), &snap(10, GROUPS), &snap(10, SHADOW)).unwrap();
    let a = f.passwd_by_name(&"alice".to_string()).unwrap();
    assert_eq!(a.format_line(), "alice:x:1001:1001:Alice Example:/home/alice:/bin/sh");
}
