use authd::{Group, Passwd, Shadow};

fn alice() -> Passwd {
    Passwd {
        name: "alice".to_string(),
        id: 1001,
        gecos: "Alice Example".to_string(),
        dir: "/home/alice".to_string(),
        shell: "/bin/sh".to_string(),
    }
}

fn same_passwd(a: &Passwd, b: &Passwd) -> bool {
    a.name == b.name && a.id == b.id && a.gecos == b.gecos && a.dir == b.dir && a.shell == b.shell
}

fn same_shadow(a: &Shadow, b: &Shadow) -> bool {
    a.name == b.name
        && a.passwd == b.passwd
        && a.last_change == b.last_change
        && a.change_min_days == b.change_min_days
        && a.change_max_days == b.change_max_days
        && a.change_warn_days == b.change_warn_days
        && a.change_inactive_days == b.change_inactive_days
        && a.expire_date == b.expire_date
}

#[test]
fn parse_passwd_line_scenario() {
    let line = "alice:x:1001:1001:Alice Example:/home/alice:/bin/sh";
    let p = Passwd::parse_line(line).expect("valid line");
    assert!(same_passwd(&p, &alice()));
    assert_eq!(p.format_line(), line);
}

#[test]
fn passwd_gid_is_emitted_equal_to_uid() {
    let p = Passwd::parse_line("bob:secret:1002:50:Bob:/home/bob:/bin/bash").unwrap();
    assert_eq!(p.id, 1002);
    assert_eq!(p.format_line(), "bob:x:1002:1002:Bob:/home/bob:/bin/bash");
}

#[test]
fn passwd_round_trip_with_empty_fields() {
    let p = Passwd {
        name: "svc".to_string(),
        id: 0,
        gecos: String::new(),
        dir: "/".to_string(),
        shell: String::new(),
    };
    let line = p.format_line();
    assert_eq!(line, "svc:x:0:0::/:");
    assert!(same_passwd(&Passwd::parse_line(&line).unwrap(), &p));
}

#[test]
fn passwd_largest_uid() {
    let p = Passwd::parse_line("max:x:4294967295:0:::").unwrap();
    assert_eq!(p.id, u32::MAX);
    assert!(Passwd::parse_line("max:x:4294967296:0:::").is_none());
}

#[test]
fn passwd_malformed_lines() {
    assert!(Passwd::parse_line("alice:x:1001:1001:Alice:/home/alice").is_none());
    assert!(Passwd::parse_line("alice:x:1001:1001:Alice:/home/alice:/bin/sh:extra").is_none());
    assert!(Passwd::parse_line("alice:x:10a1:1001:Alice:/home/alice:/bin/sh").is_none());
    assert!(Passwd::parse_line("alice:x::1001:Alice:/home/alice:/bin/sh").is_none());
    assert!(Passwd::parse_line("alice:x:-1:1001:Alice:/home/alice:/bin/sh").is_none());
    assert!(Passwd::parse_line(":x:1:1:Alice:/home/alice:/bin/sh").is_none());
    assert!(Passwd::parse_line("").is_none());
}

#[test]
fn group_parse_and_format() {
    let g = Group::parse_line("wheel:x:10:alice,bob").unwrap();
    assert_eq!(g.name, "wheel");
    assert_eq!(g.gid, 10);
    assert_eq!(g.members, vec!["alice".to_string(), "bob".to_string()]);
    assert_eq!(g.format_line(), "wheel:x:10:alice,bob");
}

#[test]
fn group_without_members() {
    let g = Group::parse_line("empty:x:20:").unwrap();
    assert!(g.members.is_empty());
    assert_eq!(g.format_line(), "empty:x:20:");
}

#[test]
fn group_round_trip() {
    let g = Group {
        name: "auth-admins".to_string(),
        gid: 4242,
        members: vec!["root".to_string()],
    };
    let line = g.format_line();
    assert_eq!(line, "auth-admins:x:4242:root");
    let back = Group::parse_line(&line).unwrap();
    assert_eq!(back.name, g.name);
    assert_eq!(back.gid, g.gid);
    assert_eq!(back.members, g.members);
}

#[test]
fn group_malformed_lines() {
    assert!(Group::parse_line("wheel:x:10").is_none());
    assert!(Group::parse_line("wheel:x:ten:alice").is_none());
    assert!(Group::parse_line("wheel:x:10:alice:bob").is_none());
}

#[test]
fn shadow_parse_with_absent_counts() {
    let s = Shadow::parse_line("alice:!:19000:0:99999:7:::").unwrap();
    assert_eq!(s.name, "alice");
    assert_eq!(s.passwd, "!");
    assert_eq!(s.last_change, 19000);
    assert_eq!(s.change_min_days, 0);
    assert_eq!(s.change_max_days, 99999);
    assert_eq!(s.change_warn_days, 7);
    assert_eq!(s.change_inactive_days, None);
    assert_eq!(s.expire_date, None);
    assert_eq!(s.format_line(), "alice:!:19000:0:99999:7:::");
}

#[test]
fn shadow_absent_differs_from_zero() {
    let s = Shadow::parse_line("bob:hash:1:2:3:4:0:0:").unwrap();
    assert_eq!(s.change_inactive_days, Some(0));
    assert_eq!(s.expire_date, Some(0));
    assert_eq!(s.format_line(), "bob:hash:1:2:3:4:0:0:");
}

#[test]
fn shadow_round_trip_extremes() {
    let s = Shadow {
        name: "edge".to_string(),
        passwd: "$2y$12$abc".to_string(),
        last_change: i64::MIN,
        change_min_days: -1,
        change_max_days: i64::MAX,
        change_warn_days: 0,
        change_inactive_days: Some(-30),
        expire_date: None,
    };
    let line = s.format_line();
    assert_eq!(
        line,
        "edge:$2y$12$abc:-9223372036854775808:-1:9223372036854775807:0:-30::"
    );
    assert!(same_shadow(&Shadow::parse_line(&line).unwrap(), &s));
}

#[test]
fn shadow_malformed_lines() {
    assert!(Shadow::parse_line("alice:!:19000:0:99999:7::").is_none());
    assert!(Shadow::parse_line("alice:!:19000:0:99999:x:::").is_none());
    assert!(Shadow::parse_line("alice:!:-:0:99999:7:::").is_none());
    assert!(Shadow::parse_line("alice:!:9223372036854775808:0:1:7:::").is_none());
}

#[test]
fn canonical_lines_reformat_identically() {
    for line in [
        "root:x:0:0:root:/root:/bin/bash",
        "nobody:x:65534:65534:Nobody:/nonexistent:/usr/sbin/nologin",
    ] {
        assert_eq!(Passwd::parse_line(line).unwrap().format_line(), line);
    }
    for line in ["adm:x:4:syslog,alice", "users:x:100:"] {
        assert_eq!(Group::parse_line(line).unwrap().format_line(), line);
    }
    for line in ["root:*:19000:0:99999:7:::", "x:y:-5:0:0:0:3:20000:"] {
        assert_eq!(Shadow::parse_line(line).unwrap().format_line(), line);
    }
}

#[test]
fn duplicate_keeps_fields() {
    let p = alice();
    assert!(same_passwd(&p.duplicate(), &p));
    let g = Group::parse_line("g:x:1:a,b").unwrap().duplicate();
    assert_eq!(g.members, vec!["a".to_string(), "b".to_string()]);
}

#[test]
fn numbers_may_carry_a_plus_sign() {
    let p = Passwd::parse_line("pat:x:+1005:1005:Pat:/home/pat:/bin/sh").unwrap();
    assert_eq!(p.id, 1005);
    assert_eq!(p.format_line(), "pat:x:1005:1005:Pat:/home/pat:/bin/sh");
    let g = Group::parse_line("g:x:+7:").unwrap();
    assert_eq!(g.gid, 7);
    let s = Shadow::parse_line("pat:!:+19000:-1:+0:7:+3::").unwrap();
    assert_eq!(s.last_change, 19000);
    assert_eq!(s.change_min_days, -1);
    assert_eq!(s.change_max_days, 0);
    assert_eq!(s.change_inactive_days, Some(3));
    assert!(Passwd::parse_line("pat:x:+:1005:Pat:/home/pat:/bin/sh").is_none());
    assert!(Passwd::parse_line("pat:x:++5:1005:Pat:/home/pat:/bin/sh").is_none());
    assert!(Passwd::parse_line("pat:x:-0:1005:Pat:/home/pat:/bin/sh").is_none());
    assert!(Shadow::parse_line("pat:!:+-1:0:0:7:::").is_none());
}
