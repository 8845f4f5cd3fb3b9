use backup_btrfs::naming::Timestamp;
use backup_btrfs::objects::Subvolume;
use backup_btrfs::retention::{find_backups_to_be_deleted, CustomDuration};
use backup_btrfs::snapshot::{Snapshot, SnapshotLocal, SnapshotRemote};
use backup_btrfs::utils::{get_common_parent, get_subvolume_by_path};
use chrono::{TimeZone, Utc};
use uuid::Uuid;

fn uuid(s: &str) -> u128 {
    Uuid::parse_str(s).unwrap().as_u128()
}

fn at(y: i32, mo: u32, d: u32, h: u32, mi: u32, s: u32) -> Timestamp {
    Timestamp::from_seconds(Utc.with_ymd_and_hms(y, mo, d, h, mi, s).unwrap().timestamp())
}

fn local(path: &str, t: Timestamp, id: &str, suffix: &str) -> SnapshotLocal {
    SnapshotLocal {
        path: path.into(),
        timestamp: t,
        uuid: uuid(id),
        parent_uuid: uuid("5f0b151b-52e4-4445-aa94-d07056733a1f"),
        suffix: suffix.into(),
    }
}

fn remote(received: &str) -> SnapshotRemote {
    SnapshotRemote {
        path: "/test/path".into(),
        timestamp: at(2021, 5, 2, 7, 40, 32),
        uuid: uuid("11eed410-7829-744e-8288-35c21d278f8e"),
        received_uuid: uuid(received),
        suffix: "inf_btrfs_test".into(),
    }
}

fn listed() -> Vec<Subvolume> {
    vec![
        Subvolume {
            uuid: uuid("0b5cc138-af8e-2744-be4f-bdede1b509ef"),
            btrfs_path: String::from("/root"),
            parent_uuid: None,
            received_uuid: None,
        },
        Subvolume {
            uuid: uuid("574fef8d-7951-3e45-aa29-7167b9d4590a"),
            btrfs_path: String::from("/var/lib/portables"),
            parent_uuid: None,
            received_uuid: None,
        },
        Subvolume {
            uuid: uuid("d1bd727c-8a02-bb44-bdd2-bae468651e98"),
            btrfs_path: String::from("/backups/2021-05-04T19:48:42Z_inf_btrfs_test"),
            parent_uuid: None,
            received_uuid: Some(uuid("dc4e1039-9241-cd47-9c10-a5d1ce15ba20")),
        },
    ]
}

#[test]
fn utils_get_subvolume_by_path() {
    let subvolumes = listed();
    assert_eq!(get_subvolume_by_path("/root", &subvolumes).unwrap().uuid, subvolumes[0].uuid);
    assert!(get_subvolume_by_path("/missing", &subvolumes).is_err());
}

#[test]
fn tests_get_subvolume_by_path() {
    let subvolumes = listed();
    assert_eq!(
        get_subvolume_by_path("/backups/2021-05-04T19:48:42Z_inf_btrfs_test", &subvolumes)
            .unwrap()
            .uuid,
        subvolumes[2].uuid,
    );
}

fn common_parent_1() {
    let sl = vec![local(
        "/snapshots/2021-05-02T07:40:32Z_inf_btrfs_test",
        at(2021, 5, 2, 7, 40, 32),
        "7f305e3e-851b-974b-a476-e2f206e7a407",
        "inf_btrfs_test",
    )];
    let sr = vec![remote("7f305e3e-851b-974b-a476-e2f206e7a407")];

    assert_eq!(
        Some(&local(
            "/snapshots/2021-05-02T07:40:32Z_inf_btrfs_test",
            at(2021, 5, 2, 7, 40, 32),
            "7f305e3e-851b-974b-a476-e2f206e7a407",
            "inf_btrfs_test",
        )),
        get_common_parent(&sl, &sr)
    );
}

fn common_parent_2() {
    let sl = vec![local(
        "/snapshots/2021-05-02T07:40:32Z_inf_btrfs_test",
        at(2021, 5, 2, 7, 40, 32),
        "7f305e3e-851b-974b-a476-e2f206e7a408",
        "inf_btrfs_test",
    )];
    let sr = vec![remote("7f305e3e-851b-974b-a476-e2f206e7a407")];

    assert_eq!(None, get_common_parent(&sl, &sr));
}

fn common_parent_3() {
    let sl = vec![
        local(
            "/snapshots/2021-05-02T07:40:32Z_inf_btrfs_test",
            at(2021, 5, 2, 7, 40, 32),
            "7f305e3e-851b-974b-a476-e2f206e7a408",
            "inf_btrfs_test",
        ),
        local(
            "/snapshots/2021-05-02T07:40:32Z_inf_btrfs_test",
            at(2021, 5, 2, 7, 40, 32),
            "7f305e3e-851b-974b-a476-e2f206e7a407",
            "inf_btrfs_test",
        ),
    ];
    let sr = vec![
        remote("7f305e3e-851b-974b-a476-e2f206e7a407"),
        remote("7f305e3e-851b-974b-a476-e2f206e7a408"),
    ];

    assert_eq!(
        Some(&local(
            "/snapshots/2021-05-02T07:40:32Z_inf_btrfs_test",
            at(2021, 5, 2, 7, 40, 32),
            "7f305e3e-851b-974b-a476-e2f206e7a408",
            "inf_btrfs_test",
        )),
        get_common_parent(&sl, &sr)
    );
}

#[test]
fn utils_get_common_parent_1() {
    common_parent_1();
}

#[test]
fn utils_get_common_parent_2() {
    common_parent_2();
}

#[test]
fn utils_get_common_parent_3() {
    common_parent_3();
}

#[test]
fn tests_get_common_parent_1() {
    common_parent_1();
}

#[test]
fn tests_get_common_parent_2() {
    common_parent_2();
}

#[test]
fn tests_get_common_parent_3() {
    common_parent_3();
}

fn three_backups() -> Vec<SnapshotLocal> {
    let id = "7f305e3e-851b-974b-a476-e2f206e7a408";
    vec![
        local("/snapshots/2020-01-02T09:00:00Z_host_subvolume", at(2020, 1, 2, 9, 0, 0), id, "host_subvolume"),
        local("/snapshots/2020-01-02T09:30:00Z_host_subvolume", at(2020, 1, 2, 9, 30, 0), id, "host_subvolume"),
        local("/snapshots/2020-01-03T09:00:00Z_host_subvolume", at(2020, 1, 3, 9, 0, 0), id, "host_subvolume"),
    ]
}

fn seven_backups() -> Vec<SnapshotLocal> {
    let id = "7f305e3e-851b-974b-a476-e2f206e7a408";
    vec![
        local("/snapshots/2019-12-31T09:00:00Z_host_subvolume", at(2019, 12, 31, 9, 0, 0), id, "host_subvolume"),
        local("/snapshots/2020-01-01T09:00:00Z_host_subvolume", at(2020, 1, 1, 9, 0, 0), id, "host_subvolume"),
        local("/snapshots/2020-01-02T09:00:00Z_host_subvolume", at(2020, 1, 2, 9, 0, 0), id, "host_subvolume"),
        local("/snapshots/2020-01-02T09:12:00Z_host2_subvolume", at(2020, 1, 2, 9, 12, 0), id, "host2_subvolume"),
        local("/snapshots/2020-01-02T09:15:00Z_host_subvolume", at(2020, 1, 2, 9, 15, 0), id, "host_subvolume"),
        local("/snapshots/2020-01-02T09:07:00Z_host_subvolume", at(2020, 1, 2, 9, 7, 0), id, "host_subvolume"),
        local("/snapshots/2020-01-02T09:30:00Z_host_subvolume", at(2020, 1, 2, 9, 30, 0), id, "host_subvolume"),
    ]
}

#[test]
fn find_backups_to_be_deleted_1() {
    let current = at(2020, 1, 4, 10, 0, 0);
    let policy = vec![CustomDuration::minutes(15)];
    let backups = three_backups();

    let res = find_backups_to_be_deleted(
        &current,
        &policy,
        &backups.iter().collect(),
        &String::from("host_subvolume"),
    )
    .unwrap();

    assert_eq!(res.len(), 2);
    assert_eq!(res[0].path(), "/snapshots/2020-01-02T09:30:00Z_host_subvolume");
    assert_eq!(res[1].path(), "/snapshots/2020-01-02T09:00:00Z_host_subvolume");
}

#[test]
fn find_backups_to_be_deleted_2() {
    let current = at(2020, 1, 4, 10, 0, 0);
    let policy = vec![CustomDuration::days(1), CustomDuration::days(2)];
    let backups = three_backups();
    let res = find_backups_to_be_deleted(
        &current,
        &policy,
        &backups.iter().collect(),
        &String::from("host_subvolume"),
    )
    .unwrap();

    assert_eq!(res.len(), 1);
    assert_eq!(res[0].path(), "/snapshots/2020-01-02T09:00:00Z_host_subvolume");
}

#[test]
fn find_backups_to_be_deleted_3() {
    let current = at(2020, 1, 2, 9, 35, 0);
    let policy = vec![CustomDuration::minutes(15), CustomDuration::days(1)];
    let backups = seven_backups();
    let res = find_backups_to_be_deleted(
        &current,
        &policy,
        &backups.iter().collect(),
        &String::from("host_subvolume"),
    )
    .unwrap();

    assert_eq!(res.len(), 3);
    assert_eq!(res[0].path(), "/snapshots/2020-01-02T09:15:00Z_host_subvolume");
    assert_eq!(res[1].path(), "/snapshots/2020-01-02T09:07:00Z_host_subvolume");
    assert_eq!(res[2].path(), "/snapshots/2019-12-31T09:00:00Z_host_subvolume");
}

#[test]
fn find_backups_to_be_deleted_4() {
    let current = at(2020, 1, 2, 9, 35, 0);
    let policy: Vec<CustomDuration> = Vec::new();
    let backups = seven_backups();
    let res = find_backups_to_be_deleted(
        &current,
        &policy,
        &backups.iter().collect(),
        &String::from("host_subvolume"),
    )
    .unwrap();
    assert_eq!(res.len(), 5);
    assert_eq!(res[0].path(), "/snapshots/2020-01-02T09:15:00Z_host_subvolume");
    assert_eq!(res[1].path(), "/snapshots/2020-01-02T09:07:00Z_host_subvolume");
    assert_eq!(res[2].path(), "/snapshots/2020-01-02T09:00:00Z_host_subvolume");
    assert_eq!(res[3].path(), "/snapshots/2020-01-01T09:00:00Z_host_subvolume");
    assert_eq!(res[4].path(), "/snapshots/2019-12-31T09:00:00Z_host_subvolume");
}
