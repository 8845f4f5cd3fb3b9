use backup_btrfs::btrfs::Btrfs;
use backup_btrfs::command::{CommandMock, Context};
use backup_btrfs::error::BackupError;
use backup_btrfs::naming::Timestamp;
use backup_btrfs::objects::{Subvolume, SubvolumeInfo};
use chrono::{TimeZone, Utc};
use uuid::Uuid;

fn uuid(s: &str) -> u128 {
    Uuid::parse_str(s).unwrap().as_u128()
}

fn local(user: &str) -> Context {
    Context::Local { user: user.into() }
}

fn remote() -> Context {
    Context::Remote {
        host: "host".into(),
        user: "user".into(),
        identity: "/home/test/.ssh".into(),
    }
}

fn btrfs_with(commands: Vec<(String, Context)>, responses: Vec<String>) -> Btrfs<CommandMock> {
    Btrfs { command: CommandMock::new(commands, responses) }
}

const LOCAL_LISTING: &str = r#"ID      gen     parent  top level       parent_uuid     received_uuid   uuid    path
--      ---     ------  ---------       -----------     -------------   ----    ----
256     119496  5       5               -                                       -                                       11eed410-7829-744e-8288-35c21d278f8e    home
359     119496  5       5               -                                       -                                       32c672fa-d3ce-0b4e-8eaa-ab9205f377ca    root
360     119446  359     359             -                                       -                                       5f0b151b-52e4-4445-aa94-d07056733a1f    opt/btrfs_test
367     118687  359     359             5f0b151b-52e4-4445-aa94-d07056733a1f    -                                       7f305e3e-851b-974b-a476-e2f206e7a407    snapshots/2021-05-02T07:40:32Z_inf_btrfs_test
370     119446  359     359             5f0b151b-52e4-4445-aa94-d07056733a1f    -                                       1bd1da76-b61f-db41-a2d2-c3474a31f38f    snapshots/2021-05-02T13:38:49Z_inf_btrfs_test
"#;

const REMOTE_LISTING: &str = r#"ID      gen     parent  top level       parent_uuid     received_uuid   uuid    path
--      ---     ------  ---------       -----------     -------------   ----    ----
256     10789   5       5               -                                       -                                       0b5cc138-af8e-2744-be4f-bdede1b509ef    root
259     9051    256     256             -                                       -                                       574fef8d-7951-3e45-aa29-7167b9d4590a    var/lib/portables
270     4965    256     256             -                                       dc4e1039-9241-cd47-9c10-a5d1ce15ba20    d1bd727c-8a02-bb44-bdd2-bae468651e98    backups/2021-05-04T19:48:42Z_inf_btrfs_test
328     7505    256     256             19391f90-9007-3e4b-b757-6e5d2421b9bd    53bb5cfa-f45e-d147-9407-006271609062    54b52286-8265-9444-8603-214e7e0533e0    backups/2021-05-10T06:14:04Z_inf_btrfs_test
"#;

fn local_expected() -> Vec<Subvolume> {
    vec![
        Subvolume { uuid: uuid("11eed410-7829-744e-8288-35c21d278f8e"), btrfs_path: String::from("/home"), parent_uuid: None, received_uuid: None },
        Subvolume { uuid: uuid("32c672fa-d3ce-0b4e-8eaa-ab9205f377ca"), btrfs_path: String::from("/root"), parent_uuid: None, received_uuid: None },
        Subvolume { uuid: uuid("5f0b151b-52e4-4445-aa94-d07056733a1f"), btrfs_path: String::from("/opt/btrfs_test"), parent_uuid: None, received_uuid: None },
        Subvolume { uuid: uuid("7f305e3e-851b-974b-a476-e2f206e7a407"), btrfs_path: String::from("/snapshots/2021-05-02T07:40:32Z_inf_btrfs_test"), parent_uuid: Some(uuid("5f0b151b-52e4-4445-aa94-d07056733a1f")), received_uuid: None },
        Subvolume { uuid: uuid("1bd1da76-b61f-db41-a2d2-c3474a31f38f"), btrfs_path: String::from("/snapshots/2021-05-02T13:38:49Z_inf_btrfs_test"), parent_uuid: Some(uuid("5f0b151b-52e4-4445-aa94-d07056733a1f")), received_uuid: None },
    ]
}

fn remote_expected() -> Vec<Subvolume> {
    vec![
        Subvolume { uuid: uuid("0b5cc138-af8e-2744-be4f-bdede1b509ef"), btrfs_path: String::from("/root"), parent_uuid: None, received_uuid: None },
        Subvolume { uuid: uuid("574fef8d-7951-3e45-aa29-7167b9d4590a"), btrfs_path: String::from("/var/lib/portables"), parent_uuid: None, received_uuid: None },
        Subvolume { uuid: uuid("d1bd727c-8a02-bb44-bdd2-bae468651e98"), btrfs_path: String::from("/backups/2021-05-04T19:48:42Z_inf_btrfs_test"), parent_uuid: None, received_uuid: Some(uuid("dc4e1039-9241-cd47-9c10-a5d1ce15ba20")) },
        Subvolume { uuid: uuid("54b52286-8265-9444-8603-214e7e0533e0"), btrfs_path: String::from("/backups/2021-05-10T06:14:04Z_inf_btrfs_test"), parent_uuid: Some(uuid("19391f90-9007-3e4b-b757-6e5d2421b9bd")), received_uuid: Some(uuid("53bb5cfa-f45e-d147-9407-006271609062")) },
    ]
}

fn delete_btrfs(path: &str) -> Btrfs<CommandMock> {
    btrfs_with(
        vec![(format!("sudo btrfs subvolume delete \"{}\"", path), local("test"))],
        vec![String::new()],
    )
}

#[test]
fn btrfs_delete_subvolume() {
    let mut btrfs = delete_btrfs("/tmp");
    assert!(btrfs.delete_subvolume("/tmp", &local("test")).is_ok());
}

#[test]
fn btrfs_delete_subvolume_home() {
    let mut btrfs = delete_btrfs("/home");
    assert!(btrfs.delete_subvolume("/home", &local("test")).is_err());
}

#[test]
fn btrfs_delete_subvolume_root() {
    let mut btrfs = delete_btrfs("/");
    assert!(btrfs.delete_subvolume("/", &local("test")).is_err());
}

#[test]
fn tests_delete_subvolume() {
    let mut btrfs = delete_btrfs("/tmp");
    assert!(btrfs.delete_subvolume("/tmp", &local("test")).is_ok());
}

#[test]
fn tests_delete_subvolume_home() {
    let mut btrfs = delete_btrfs("/home");
    assert!(btrfs.delete_subvolume("/home", &local("test")).is_err());
}

#[test]
fn tests_delete_subvolume_root() {
    let mut btrfs = delete_btrfs("/");
    assert!(btrfs.delete_subvolume("/", &local("test")).is_err());
}

#[test]
fn delete_subvolume_delete_subvolume() {
    let mut btrfs = delete_btrfs("/tmp");
    assert!(btrfs.delete_local_subvolume("/tmp", "test").is_ok());
    assert!(btrfs.command.commands.is_empty());
    assert_eq!(btrfs.command.log.len(), 1);
    assert_eq!(btrfs.command.log[0].0[0].0, "sudo btrfs subvolume delete \"/tmp\"");
    assert_eq!(btrfs.command.log[0].1, Some(String::new()));
}

#[test]
fn delete_subvolume_delete_subvolume_home() {
    let mut btrfs = btrfs_with(Vec::new(), Vec::new());
    assert!(btrfs.delete_local_subvolume("/home", "test").is_err());
}

#[test]
fn delete_subvolume_delete_subvolume_root() {
    let mut btrfs = btrfs_with(Vec::new(), Vec::new());
    assert!(btrfs.delete_local_subvolume("/", "test").is_err());
}

#[test]
fn restricted_names_run_nothing() {
    for name in ["home", "/home", "root", "/"] {
        let mut btrfs = delete_btrfs(name);
        assert!(matches!(
            btrfs.delete_subvolume(name, &local("test")),
            Err(BackupError::DeleteSubvolume(_))
        ));
        assert_eq!(btrfs.command.commands.len(), 1);
        assert!(btrfs.command.log.is_empty());
    }
}

#[test]
fn delete_remote_subvolume_runs_remotely() {
    let mut btrfs = btrfs_with(
        vec![(String::from("sudo btrfs subvolume delete \"/backups/x\""), remote())],
        vec![String::new()],
    );
    assert!(btrfs.delete_remote_subvolume("/backups/x", "user", "host", "/home/test/.ssh").is_ok());
}

#[test]
fn btrfs_get_local_subvolumes() {
    let mut btrfs = btrfs_with(
        vec![(String::from("sudo btrfs subvolume list -tupqR --sort=rootid /"), local("test"))],
        vec![String::from(LOCAL_LISTING)],
    );
    assert_eq!(btrfs.get_local_subvolumes("test").unwrap(), local_expected());
}

#[test]
fn btrfs_get_remote_subvolumes() {
    let mut btrfs = btrfs_with(
        vec![(String::from("sudo btrfs subvolume list -tupqR --sort=rootid /"), remote())],
        vec![String::from(REMOTE_LISTING)],
    );
    assert_eq!(
        btrfs.get_remote_subvolumes("host", "user", "/home/test/.ssh").unwrap(),
        remote_expected()
    );
}

#[test]
fn tests_get_local_subvolumes() {
    let mut btrfs = btrfs_with(
        vec![(String::from("sudo btrfs subvolume list -tupqR --sort=rootid /"), local("test"))],
        vec![String::from(LOCAL_LISTING)],
    );
    assert_eq!(btrfs.get_local_subvolumes("test").unwrap(), local_expected());
}

#[test]
fn tests_get_remote_subvolumes() {
    let mut btrfs = btrfs_with(
        vec![(String::from("sudo btrfs subvolume list -tupqR --sort=rootid /"), remote())],
        vec![String::from(REMOTE_LISTING)],
    );
    assert_eq!(
        btrfs.get_remote_subvolumes("host", "user", "/home/test/.ssh").unwrap(),
        remote_expected()
    );
}

#[test]
fn get_subvolumes_get_local_subvolumes() {
    let mut btrfs = btrfs_with(
        vec![(String::from("sudo btrfs subvolume list -tupqR --sort=rootid /"), local("test"))],
        vec![String::from(LOCAL_LISTING)],
    );
    assert_eq!(btrfs.get_subvolumes("/", &local("test")).unwrap(), local_expected());
}

#[test]
fn get_subvolumes_get_remote_subvolumes() {
    let mut btrfs = btrfs_with(
        vec![(String::from("sudo btrfs subvolume list -tupqR --sort=rootid /"), remote())],
        vec![String::from(REMOTE_LISTING)],
    );
    assert_eq!(btrfs.get_subvolumes("/", &remote()).unwrap(), remote_expected());
}

const INFO_DATA: &str = r#"/
            Name:                   <FS_TREE>
            UUID:                   672e900c-a5dd-47e2-b5c8-59587ee1fae3
            Parent UUID:            -
            Received UUID:          -
            Creation time:          2022-11-12 11:27:32 +0100
            Subvolume ID:           5
            Generation:             539
            Gen at creation:        0
            Parent ID:              0
            Top level ID:           0
            Flags:                  -
            Send transid:           0
            Send time:              2022-11-12 11:27:32 +0100
            Receive transid:        0
            Receive time:           -
            Snapshot(s):
    "#;

const INFO_HOME: &str = r#"home
                    Name:                   home
                    UUID:                   11eed410-7829-744e-8288-35c21d278f8e
                    Parent UUID:            -
                    Received UUID:          -
                    Creation time:          2021-04-02 05:53:59 +0200
                    Subvolume ID:           256
                    Generation:             966689
                    Gen at creation:        6
                    Parent ID:              5
                    Top level ID:           5
                    Flags:                  -
                    Send transid:           0
                    Send time:              2021-04-02 05:53:59 +0200
                    Receive transid:        0
                    Receive time:           -
                    Snapshot(s):
                                            root/snapshots/2022-12-03T19:07:26Z_inf_home
                                            root/snapshots/2022-12-03T20:37:50Z_inf_home
                                            root/snapshots/2022-12-03T21:38:49Z_inf_home
                                            root/snapshots/2022-12-03T21:54:05Z_inf_home"#;

#[test]
fn get_subvolume_info_1() {
    let mut btrfs = btrfs_with(
        vec![(String::from("sudo btrfs subvolume show \"/data\""), remote())],
        vec![String::from(INFO_DATA)],
    );
    assert_eq!(
        btrfs.get_subvolume_info("/data", &remote()).unwrap(),
        SubvolumeInfo {
            btrfs_path: "/".to_string(),
            fs_path: "/data".to_string(),
            uuid: uuid("672e900c-a5dd-47e2-b5c8-59587ee1fae3")
        }
    );
}

#[test]
fn get_subvolume_info_2() {
    let mut btrfs = btrfs_with(
        vec![(String::from("sudo btrfs subvolume show \"/home\""), remote())],
        vec![String::from(INFO_HOME)],
    );
    assert_eq!(
        btrfs.get_subvolume_info("/home", &remote()).unwrap(),
        SubvolumeInfo {
            btrfs_path: "/home".to_string(),
            fs_path: "/home".to_string(),
            uuid: uuid("11eed410-7829-744e-8288-35c21d278f8e")
        }
    );
}

#[test]
fn subvolume_info_without_uuid_fails() {
    let r = backup_btrfs::info::parse_subvolume_info("/\n  Name: x\n  Parent UUID: -\n", "/data");
    assert!(matches!(r, Err(BackupError::SubvolumeInfoParsing(_))));
    let empty = backup_btrfs::info::parse_subvolume_info("", "/data");
    assert!(matches!(empty, Err(BackupError::SubvolumeInfoParsing(_))));
    let bad = backup_btrfs::info::parse_subvolume_info("/\n  UUID: nonsense\n", "/data");
    assert_eq!(bad, Err(BackupError::Uuid(String::from("nonsense"))));
}

#[test]
fn snapshot_subvolume() {
    let timestamp = Utc.with_ymd_and_hms(2022, 11, 2, 12, 13, 14).unwrap();
    let mut btrfs = btrfs_with(
        vec![(
            String::from(
                "sudo btrfs subvolume snapshot -r \"/home\" \"/snapshots/2022-11-02T12:13:14Z_test_test\"",
            ),
            remote(),
        )],
        vec![String::new()],
    );
    let path = btrfs
        .snapshot_subvolume(
            "/home",
            "/snapshots",
            "test_test",
            &Timestamp::from_seconds(timestamp.timestamp()),
            &remote(),
        )
        .unwrap();
    assert_eq!(path, "/snapshots/2022-11-02T12:13:14Z_test_test");
}

#[test]
fn snapshot_outside_four_digit_years_fails() {
    let mut btrfs = btrfs_with(Vec::new(), Vec::new());
    let r = btrfs.snapshot_subvolume(
        "/home",
        "/snapshots",
        "s",
        &Timestamp::from_seconds(253402300800),
        &remote(),
    );
    assert!(matches!(r, Err(BackupError::SnapshotSubvolume(_))));
}

#[test]
fn send_snapshot_send_snapshot_no_parent() {
    let ctx_local = local("test");
    let ctx_remote = Context::Remote {
        host: "test".into(),
        user: "test".into(),
        identity: "/tmp/ident".into(),
    };
    let mut btrfs = btrfs_with(
        vec![
            (String::from("sudo btrfs receive \"/backups/to_be_received\""), ctx_remote.clone()),
            (String::from("sudo btrfs send \"/snapshots/to_be_sent\""), ctx_local.clone()),
        ],
        vec![String::new(), String::new()],
    );
    let snapshot = SubvolumeInfo {
        fs_path: "/snapshots/to_be_sent".into(),
        btrfs_path: "/btrfs/path".into(),
        uuid: Uuid::nil().as_u128(),
    };
    assert!(btrfs
        .send_snapshot(&snapshot, None, &ctx_local, "/backups/to_be_received", &ctx_remote)
        .is_ok());
    assert!(btrfs.command.commands.is_empty());
}

#[test]
fn send_snapshot_send_snapshot_parent() {
    let ctx_local = local("test");
    let ctx_remote = Context::Remote {
        host: "test".into(),
        user: "test".into(),
        identity: "/tmp/ident".into(),
    };
    let mut btrfs = btrfs_with(
        vec![
            (String::from("sudo btrfs receive \"/backups/to_be_received\""), ctx_remote.clone()),
            (
                String::from("sudo btrfs send -p \"/snapshots/parent\" \"/snapshots/to_be_sent\""),
                ctx_local.clone(),
            ),
        ],
        vec![String::new(), String::new()],
    );
    let snapshot = SubvolumeInfo {
        fs_path: "/snapshots/to_be_sent".into(),
        btrfs_path: "/btrfs/path".into(),
        uuid: Uuid::nil().as_u128(),
    };
    let parent = SubvolumeInfo {
        fs_path: "/snapshots/parent".into(),
        btrfs_path: "/root/snapshots/parent".into(),
        uuid: Uuid::nil().as_u128(),
    };
    assert!(btrfs
        .send_snapshot(&snapshot, Some(&parent), &ctx_local, "/backups/to_be_received", &ctx_remote)
        .is_ok());
    assert!(btrfs.command.commands.is_empty());
}

#[test]
fn create_local_snapshot_runs_one_snapshot_command() {
    let mut btrfs = btrfs_with(
        vec![(
            String::from(
                "sudo btrfs subvolume snapshot -r \"/home\" \"/snapshots/2022-11-02T12:13:14Z_s\"",
            ),
            local("me"),
        )],
        vec![String::new()],
    );
    let t = Timestamp::from_seconds(Utc.with_ymd_and_hms(2022, 11, 2, 12, 13, 14).unwrap().timestamp());
    assert!(btrfs.create_local_snapshot("/home", "/snapshots", "s", "me", &t).is_ok());
    assert_eq!(btrfs.command.log.len(), 1);
}

#[test]
fn executor_failure_fails_the_call() {
    let mut btrfs = btrfs_with(Vec::new(), Vec::new());
    assert!(matches!(btrfs.delete_subvolume("/tmp", &local("test")), Err(BackupError::Command(_))));
    assert_eq!(btrfs.command.log.len(), 1);
    assert_eq!(btrfs.command.log[0].1, None);
}

struct Echo {}

impl backup_btrfs::command::Command for Echo {
    fn run(&mut self, command: &str, _context: &Context) -> Result<String, BackupError> {
        if command.contains("fail") {
            Err(BackupError::Command(String::from("failed")))
        } else {
            Ok(format!("{}\n", command))
        }
    }

    fn run_piped(&mut self, commands: &Vec<(String, Context)>) -> Result<String, BackupError> {
        Ok(commands.iter().map(|c| c.0.clone()).collect::<Vec<String>>().join("|"))
    }
}

#[test]
fn recorder_keeps_every_exchange() {
    let mut btrfs = Btrfs { command: backup_btrfs::command::Recorder::new(Echo {}) };
    let links = btrfs.read_link("/a/b", &local("u")).unwrap();
    assert_eq!(links, vec![String::from("/a/b"), String::from("readlink -f \"/a/b\"")]);
    assert!(btrfs.delete_subvolume("/fail", &local("u")).is_err());
    let log = &btrfs.command.log;
    assert_eq!(log.len(), 2);
    assert_eq!(log[0].0[0].0, "readlink -f \"/a/b\"");
    assert_eq!(log[1].0[0].0, "sudo btrfs subvolume delete \"/fail\"");
    assert_eq!(log[1].1, None);
}
