use backup_btrfs::actions::ActionsSystem;
use backup_btrfs::btrfs::Btrfs;
use backup_btrfs::command::{CommandMock, Context};
use backup_btrfs::naming::Timestamp;
use backup_btrfs::objects::{MountInformation, Subvolume, SubvolumeInfo};
use backup_btrfs::retention::CustomDuration;
use chrono::{TimeZone, Utc};
use uuid::Uuid;

const HEADER: &str = "ID gen parent top level parent_uuid received_uuid uuid path\n-- --- ------ --------- ----------- ------------- ---- ----\n";
const PARENT: &str = "5f0b151b-52e4-4445-aa94-d07056733a1f";
const SNAPSHOT: &str = "5f0b151b-52e4-4445-aa94-d07056733a1e";

fn uuid(s: &str) -> u128 {
    Uuid::parse_str(s).unwrap().as_u128()
}

fn context_local() -> Context {
    Context::Local { user: "test_user".into() }
}

fn context_remote() -> Context {
    Context::Remote {
        user: "remote_user".into(),
        host: "remote_host".into(),
        identity: "remote_identity".into(),
    }
}

fn mounts() -> Vec<MountInformation> {
    vec![MountInformation {
        device: String::from("/dev/some/device"),
        fs_type: String::from("btrfs"),
        mount_point: String::from("/data"),
        root: String::from("/subvolume"),
        properties: Vec::new(),
    }]
}

fn snapshot() -> SubvolumeInfo {
    SubvolumeInfo {
        fs_path: String::from("/backup/path"),
        btrfs_path: String::from("/root/path"),
        uuid: uuid(SNAPSHOT),
    }
}

fn send_cycle(child_path: &str, received: &str, send: &str) -> ActionsSystem<CommandMock> {
    let show = format!("btrfs/path\n    Name: path\n    UUID: {}\n", PARENT);
    let local = format!(
        "{}256 1 5 5 - - {} subvolume/path\n257 1 5 5 {} - {} {}\n",
        HEADER, PARENT, PARENT, SNAPSHOT, child_path
    );
    let remote = format!(
        "{}300 1 5 5 - {} 00000000-0000-0000-0000-000000000000 backup/path/2019-05-10T12:00:00Z_test\n",
        HEADER, received
    );
    ActionsSystem {
        commander: Btrfs {
            command: CommandMock {
                log: Vec::new(),
                commands: vec![
                    (String::from("sudo btrfs receive \"/data/snapshots\""), context_remote()),
                    (String::from(send), context_local()),
                    (String::from("sudo btrfs subvolume list -tupqR --sort=rootid /"), context_remote()),
                    (String::from("sudo btrfs subvolume list -tupqR --sort=rootid /subvolume/path"), context_local()),
                    (String::from("sudo btrfs subvolume show \"/fs/path\""), context_local()),
                ],
                responses: vec![String::new(), String::new(), remote, local, show],
            },
        },
    }
}

fn run_send(actions: &mut ActionsSystem<CommandMock>) {
    actions
        .send_snapshot(
            "/fs/path",
            "/dev/some/device",
            "/subvolume/path",
            &mounts(),
            &snapshot(),
            &context_local(),
            "/",
            "/data/snapshots",
            &context_remote(),
        )
        .unwrap();
    assert!(actions.commander.command.commands.is_empty());
}

#[test]
fn mod_send_snapshot_parent() {
    let mut actions = send_cycle(
        "subvolume/2020-05-10T12:00:00Z_test",
        SNAPSHOT,
        "sudo btrfs send -p \"/data/2020-05-10T12:00:00Z_test\" \"/backup/path\"",
    );
    run_send(&mut actions);
}

#[test]
fn mod_send_snapshot_no_parent() {
    let mut actions = send_cycle(
        "other/2020-05-10T12:00:00Z_test",
        PARENT,
        "sudo btrfs send \"/backup/path\"",
    );
    run_send(&mut actions);
}

#[test]
fn tests_send_snapshot_parent() {
    let mut actions = send_cycle(
        "subvolume/2020-05-10T12:00:00Z_test",
        SNAPSHOT,
        "sudo btrfs send -p \"/data/2020-05-10T12:00:00Z_test\" \"/backup/path\"",
    );
    run_send(&mut actions);
}

#[test]
fn tests_send_snapshot_no_parent() {
    let mut actions = send_cycle(
        "other/2020-05-10T12:00:00Z_test",
        PARENT,
        "sudo btrfs send \"/backup/path\"",
    );
    run_send(&mut actions);
}

fn police_listing() -> String {
    format!(
        "{}256 1 5 5 - - {} subvolume/path\n257 1 5 5 {} - 4f0b151b-52e4-4445-aa94-d07056733a1f other/2020-05-10T12:00:00Z_test\n",
        HEADER, PARENT, PARENT
    )
}

fn police_other_suffix() {
    let mut actions = ActionsSystem {
        commander: Btrfs {
            command: CommandMock {
                log: Vec::new(),
                commands: vec![(
                    String::from("sudo btrfs subvolume list -tupqR --sort=rootid /"),
                    context_local(),
                )],
                responses: vec![police_listing()],
            },
        },
    };
    let latest = SubvolumeInfo {
        btrfs_path: "/snapshots/home/2020-05-01T13:00:00Z_test2".into(),
        uuid: 0,
        fs_path: String::from("/some/path"),
    };
    let timestamp = Timestamp::from_seconds(Utc.with_ymd_and_hms(2020, 5, 10, 12, 0, 0).unwrap().timestamp());
    actions
        .police_snapshots(
            "/",
            &context_local(),
            &latest,
            &vec![CustomDuration::minutes(10)],
            &timestamp,
            "test2",
            "/dev/some/device",
            &mounts(),
        )
        .unwrap();
    assert!(actions.commander.command.commands.is_empty());
}

#[test]
fn mod_police_local_snapshots() {
    police_other_suffix();
}

#[test]
fn tests_police_local_snapshots() {
    police_other_suffix();
}

fn dated(path: &str, id: u128, received: Option<u128>) -> Subvolume {
    Subvolume { btrfs_path: path.into(), uuid: id, parent_uuid: Some(1), received_uuid: received }
}

#[test]
fn police_spares_the_latest_and_resolves() {
    let subvolumes = vec![
        dated("/subvolume/2020-01-02T09:30:00Z_s", 30, None),
        dated("/subvolume/2020-01-02T09:20:00Z_s", 20, None),
        dated("/subvolume/2020-01-02T09:10:00Z_s", 10, None),
        dated("/subvolume/2020-01-02T09:25:00Z_other", 25, None),
    ];
    let now = Timestamp::from_seconds(Utc.with_ymd_and_hms(2020, 1, 2, 9, 35, 0).unwrap().timestamp());
    let latest = SubvolumeInfo { btrfs_path: String::new(), fs_path: String::new(), uuid: 20 };
    let paths = ActionsSystem::<CommandMock>::snapshots_to_delete(
        &subvolumes,
        &latest,
        &Vec::new(),
        &now,
        "s",
        "/dev/some/device",
        &mounts(),
    )
    .unwrap();
    assert_eq!(paths, vec![String::from("/data/2020-01-02T09:10:00Z_s")]);
}

#[test]
fn police_fails_where_a_path_cannot_be_resolved() {
    let subvolumes = vec![
        dated("/elsewhere/2020-01-02T09:30:00Z_s", 30, None),
        dated("/elsewhere/2020-01-02T09:20:00Z_s", 20, None),
    ];
    let now = Timestamp::from_seconds(Utc.with_ymd_and_hms(2020, 1, 2, 9, 35, 0).unwrap().timestamp());
    let latest = SubvolumeInfo { btrfs_path: String::new(), fs_path: String::new(), uuid: 99 };
    let r = ActionsSystem::<CommandMock>::snapshots_to_delete(
        &subvolumes,
        &latest,
        &Vec::new(),
        &now,
        "s",
        "/dev/some/device",
        &mounts(),
    );
    assert_eq!(r, Err(backup_btrfs::error::BackupError::PathConversionError));
}

#[test]
fn incremental_parent_resolves_the_common_snapshot() {
    let local = vec![
        Subvolume { btrfs_path: "/subvolume/a".into(), uuid: 5, parent_uuid: Some(1), received_uuid: None },
        Subvolume { btrfs_path: "/subvolume/b".into(), uuid: 6, parent_uuid: Some(2), received_uuid: None },
    ];
    let remote = vec![
        Subvolume { btrfs_path: "/r/a".into(), uuid: 50, parent_uuid: None, received_uuid: Some(5) },
        Subvolume { btrfs_path: "/r/b".into(), uuid: 60, parent_uuid: None, received_uuid: Some(6) },
    ];
    let r = ActionsSystem::<CommandMock>::incremental_parent(&local, 1, &remote, "/dev/some/device", &mounts())
        .unwrap()
        .unwrap();
    assert_eq!(
        r,
        SubvolumeInfo { btrfs_path: "/subvolume/a".into(), fs_path: "/data/a".into(), uuid: 5 }
    );
    assert_eq!(
        ActionsSystem::<CommandMock>::incremental_parent(&local, 3, &remote, "/dev/some/device", &mounts()),
        Ok(None)
    );
}

#[test]
fn police_deletes_through_canonical_paths() {
    let listing = format!(
        "{}256 1 5 5 {} - 00000000-0000-0000-0000-000000000001 subvolume/2020-01-02T09:30:00Z_s\n\
         257 1 5 5 {} - 00000000-0000-0000-0000-000000000002 subvolume/2020-01-02T09:20:00Z_s\n\
         258 1 5 5 {} - 00000000-0000-0000-0000-000000000003 subvolume/2020-01-02T09:10:00Z_s\n",
        HEADER, PARENT, PARENT, PARENT
    );
    let mut actions = ActionsSystem {
        commander: Btrfs {
            command: CommandMock {
                log: Vec::new(),
                commands: vec![
                    (String::from("sudo btrfs subvolume delete \"/data/2020-01-02T09:10:00Z_s\""), context_local()),
                    (String::from("readlink -f \"/data/2020-01-02T09:10:00Z_s\""), context_local()),
                    (String::from("sudo btrfs subvolume delete \"/data/2020-01-02T09:20:00Z_s\""), context_local()),
                    (String::from("readlink -f \"/data/2020-01-02T09:20:00Z_s\""), context_local()),
                    (String::from("sudo btrfs subvolume list -tupqR --sort=rootid /subvolume"), context_local()),
                ],
                responses: vec![
                    String::new(),
                    String::from("/data/2020-01-02T09:10:00Z_s\n"),
                    String::new(),
                    String::from("/data/2020-01-02T09:20:00Z_s\n"),
                    listing,
                ],
            },
        },
    };
    let latest = SubvolumeInfo { btrfs_path: String::new(), fs_path: String::new(), uuid: 99 };
    let now = Timestamp::from_seconds(Utc.with_ymd_and_hms(2020, 1, 2, 9, 35, 0).unwrap().timestamp());
    actions
        .police_snapshots(
            "/subvolume",
            &context_local(),
            &latest,
            &Vec::new(),
            &now,
            "s",
            "/dev/some/device",
            &mounts(),
        )
        .unwrap();
    assert!(actions.commander.command.commands.is_empty());
}

#[test]
fn police_refuses_a_restricted_canonical_path() {
    let listing = format!(
        "{}256 1 5 5 {} - 00000000-0000-0000-0000-000000000001 subvolume/2020-01-02T09:30:00Z_s\n\
         257 1 5 5 {} - 00000000-0000-0000-0000-000000000002 subvolume/2020-01-02T09:20:00Z_s\n",
        HEADER, PARENT, PARENT
    );
    let mut actions = ActionsSystem {
        commander: Btrfs {
            command: CommandMock {
                log: Vec::new(),
                commands: vec![
                    (String::from("readlink -f \"/data/2020-01-02T09:20:00Z_s\""), context_local()),
                    (String::from("sudo btrfs subvolume list -tupqR --sort=rootid /subvolume"), context_local()),
                ],
                responses: vec![String::from("/home\n"), listing],
            },
        },
    };
    let latest = SubvolumeInfo { btrfs_path: String::new(), fs_path: String::new(), uuid: 99 };
    let now = Timestamp::from_seconds(Utc.with_ymd_and_hms(2020, 1, 2, 9, 35, 0).unwrap().timestamp());
    let r = actions.police_snapshots(
        "/subvolume",
        &context_local(),
        &latest,
        &Vec::new(),
        &now,
        "s",
        "/dev/some/device",
        &mounts(),
    );
    assert!(matches!(r, Err(backup_btrfs::error::BackupError::DeleteSubvolume(_))));
}

fn create_snapshot_case() {
    let subvolume_path = "/subvolume/path";
    let snapshot_path = "/snapshot/path";
    let snapshot_suffix = "snapshot_suffix";
    let context = Context::Local { user: "test_user".into() };
    let new_snapshot_path = "/snapshot/path/2022-12-11T20:24:04Z_snapshot_suffix";
    let timestamp = Timestamp::from_seconds(
        chrono::DateTime::parse_from_rfc3339("2022-12-11T21:24:04+01:00").unwrap().timestamp(),
    );
    let mut actions = ActionsSystem {
        commander: Btrfs {
            command: CommandMock::new(
                vec![
                    (format!("sudo btrfs subvolume show \"{}\"", new_snapshot_path), context.clone()),
                    (
                        format!(
                            "sudo btrfs subvolume snapshot -r \"{}\" \"{}\"",
                            subvolume_path, new_snapshot_path
                        ),
                        context.clone(),
                    ),
                ],
                vec![
                    format!("btrfs/path\n    UUID: {}\n", Uuid::nil()),
                    String::new(),
                ],
            ),
        },
    };
    let info = actions
        .create_snapshot(subvolume_path, snapshot_path, snapshot_suffix, &context, &timestamp)
        .unwrap();
    assert_eq!(
        info,
        SubvolumeInfo {
            btrfs_path: "/btrfs/path".into(),
            fs_path: new_snapshot_path.into(),
            uuid: Uuid::nil().as_u128(),
        }
    );
    assert_eq!(actions.commander.command.log.len(), 2);
}

#[test]
fn mod_create_snapshot() {
    create_snapshot_case();
}

#[test]
fn tests_create_snapshot() {
    create_snapshot_case();
}

#[test]
fn send_returns_the_parent_used() {
    let mut actions = send_cycle(
        "subvolume/2020-05-10T12:00:00Z_test",
        SNAPSHOT,
        "sudo btrfs send -p \"/data/2020-05-10T12:00:00Z_test\" \"/backup/path\"",
    );
    let parent = actions
        .send_snapshot(
            "/fs/path",
            "/dev/some/device",
            "/subvolume/path",
            &mounts(),
            &snapshot(),
            &context_local(),
            "/",
            "/data/snapshots",
            &context_remote(),
        )
        .unwrap()
        .unwrap();
    assert_eq!(parent.fs_path, "/data/2020-05-10T12:00:00Z_test");
    assert_eq!(parent.uuid, uuid(SNAPSHOT));
    let log = &actions.commander.command.log;
    assert_eq!(log.len(), 4);
    assert_eq!(log[3].0.len(), 2);
    assert_eq!(log[3].0[1].0, "sudo btrfs receive \"/data/snapshots\"");
}
