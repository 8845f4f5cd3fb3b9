use backup_btrfs::actions::ActionsSystem;
use backup_btrfs::btrfs::Btrfs;
use backup_btrfs::command::{CommandMock, Context};
use backup_btrfs::error::BackupError;
use backup_btrfs::mount::parse_mount_information;
use backup_btrfs::objects::MountInformation;

const FINDMNT: &str = "findmnt -lnvt btrfs -o FSROOT,TARGET,FSTYPE,SOURCE,OPTIONS";

fn actions_answering(output: &str) -> ActionsSystem<CommandMock> {
    ActionsSystem {
        commander: Btrfs {
            command: CommandMock {
                log: Vec::new(),
                commands: vec![(String::from(FINDMNT), Context::Local { user: String::from("test") })],
                responses: vec![String::from(output)],
            },
        },
    }
}

fn props(list: &[(&str, Option<&str>)]) -> Vec<(String, Option<String>)> {
    list.iter().map(|(k, v)| (k.to_string(), v.map(|v| v.to_string()))).collect()
}

#[test]
fn get_mount_information_btrfs_1() {
    let mut actions = actions_answering(
        r#"/root           /          btrfs  /dev/dm-0 rw,relatime,ssd,space_cache=v2,subvolid=256,subvol=/root
/root/nix/store /nix/store btrfs  /dev/dm-0 ro,relatime,ssd,space_cache=v2,subvolid=256,subvol=/root
/swap           /swap      btrfs  /dev/dm-0 rw,relatime,ssd,space_cache=v2,subvolid=259,subvol=/swap
"#,
    );

    assert_eq!(
        actions.get_mount_information(&Context::Local { user: String::from("test") }).unwrap(),
        vec![
            MountInformation {
                device: String::from("/dev/dm-0"),
                fs_type: String::from("btrfs"),
                mount_point: String::from("/"),
                root: String::from("/root"),
                properties: props(&[
                    ("rw", None),
                    ("relatime", None),
                    ("ssd", None),
                    ("space_cache", Some("v2")),
                    ("subvolid", Some("256")),
                    ("subvol", Some("/root")),
                ]),
            },
            MountInformation {
                device: String::from("/dev/dm-0"),
                fs_type: String::from("btrfs"),
                mount_point: String::from("/nix/store"),
                root: String::from("/root/nix/store"),
                properties: props(&[
                    ("ro", None),
                    ("relatime", None),
                    ("ssd", None),
                    ("space_cache", Some("v2")),
                    ("subvolid", Some("256")),
                    ("subvol", Some("/root")),
                ]),
            },
            MountInformation {
                device: String::from("/dev/dm-0"),
                fs_type: String::from("btrfs"),
                mount_point: String::from("/swap"),
                root: String::from("/swap"),
                properties: props(&[
                    ("rw", None),
                    ("relatime", None),
                    ("ssd", None),
                    ("space_cache", Some("v2")),
                    ("subvolid", Some("259")),
                    ("subvol", Some("/swap")),
                ]),
            },
        ]
    );
}

#[test]
fn get_mount_information_btrfs_2() {
    let context = Context::Local { user: String::from("test") };
    let mut actions = actions_answering(
        r#"/ /data btrfs  /dev/mapper/data  rw,relatime,space_cache=v2,subvolid=5,subvol=/"#,
    );

    assert_eq!(
        actions.get_mount_information(&context).unwrap(),
        vec![MountInformation {
            device: String::from("/dev/mapper/data"),
            fs_type: String::from("btrfs"),
            mount_point: String::from("/data"),
            root: String::from("/"),
            properties: props(&[
                ("rw", None),
                ("relatime", None),
                ("space_cache", Some("v2")),
                ("subvolid", Some("5")),
                ("subvol", Some("/")),
            ]),
        },]
    );
}

#[test]
fn get_mount_information_any_1() {
    let context = Context::Local { user: String::from("test") };
    let mut actions = actions_answering(
        r#"/ /data btrfs  /dev/mapper/data  rw,relatime,space_cache=v2,subvolid=5,subvol=/
/ /raid btrfs  /dev/mapper/raid0 rw,relatime,space_cache=v2,subvolid=5,subvol=/"#,
    );

    actions.get_mount_information(&context).unwrap();
}

#[test]
fn get_mount_information_any_2() {
    let context = Context::Local { user: String::from("test") };
    let mut actions = actions_answering(
        r#"/ /data btrfs  /dev/mapper/data  rw,relatime,space_cache=v2,subvolid=5,subvol=/
/ /raid btrfs  /dev/mapper/raid0 rw,relatime,space_cache=v2,subvolid=5,subvol=/"#,
    );

    actions.get_mount_information(&context).unwrap();
}

#[test]
fn mount_line_missing_field_names_it() {
    assert_eq!(
        parse_mount_information("/ /data btrfs\n"),
        Err(BackupError::MountParsing(String::from("could not find device")))
    );
    assert_eq!(
        parse_mount_information("/ /data btrfs /dev/x\n"),
        Err(BackupError::MountParsing(String::from("could not find properties")))
    );
    assert_eq!(
        parse_mount_information("   \n"),
        Err(BackupError::MountParsing(String::from("could not find root")))
    );
}

#[test]
fn mount_options_keep_each_key_once() {
    let m = parse_mount_information("/ /data btrfs /dev/x a=1,b,a=2,c=x=y\n\n").unwrap();
    assert_eq!(m.len(), 1);
    assert_eq!(
        m[0].properties,
        props(&[("a", Some("2")), ("b", None), ("c", Some("x=y"))])
    );
}

#[test]
fn empty_mount_listing_is_empty() {
    assert_eq!(parse_mount_information(""), Ok(Vec::new()));
    assert_eq!(parse_mount_information("\r\n\n"), Ok(Vec::new()));
}
