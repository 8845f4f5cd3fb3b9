use vstd::prelude::*;

use crate::command::{
    delete_command, delete_text, is_restricted, list_command, list_text, one_more, pipeline_view,
    readlink_command, readlink_text, receive_command, receive_text, restricted, send_command,
    send_text, show_command, show_text, snapshot_command, snapshot_text, LoggedCommand, Context,
    Exchange,
};
use crate::error::BackupError;
use crate::info::{info_of, parse_subvolume_info};
use crate::mount::{join_path, join_text};
use crate::naming::{encode_snapshot_name, encoded_name, Timestamp, EARLIEST_SECONDS, LATEST_SECONDS};
use crate::objects::{Subvolume, SubvolumeInfo};
use crate::subvolumes::{listing_of, parse_subvolume_list, subvolume_views};
use crate::text::{same_text, trim, trimmed, views};

verus! {

/// Whether `r` is what the listing `output` gives: an error where the
/// executor failed or the listing is malformed, else its subvolumes.
pub open spec fn gives_listing(output: Option<Seq<char>>, r: Result<Vec<Subvolume>, BackupError>) -> bool {
    match output {
        None => r is Err,
        Some(out) => match listing_of(out) {
            None => r is Err,
            Some(v) => r matches Ok(s) && subvolume_views(s@) == v,
        },
    }
}

/// Whether `r` is what the point lookup `output` of `path` gives.
pub open spec fn gives_info(
    output: Option<Seq<char>>,
    path: Seq<char>,
    r: Result<SubvolumeInfo, BackupError>,
) -> bool {
    match output {
        None => r is Err,
        Some(out) => match info_of(out) {
            None => r is Err,
            Some((p, u)) => r matches Ok(i) && i.btrfs_path@ == p && i.fs_path@ == path && i.uuid
                == u,
        },
    }
}

/// Whether `c` is the local context of `user`.
pub open spec fn is_local(c: Context, user: Seq<char>) -> bool {
    c matches Context::Local { user: u } && u@ == user
}

/// Whether `c` is the remote context of `user` on `host` with `identity`.
pub open spec fn is_remote(c: Context, host: Seq<char>, user: Seq<char>, identity: Seq<char>) -> bool {
    c matches Context::Remote { host: h, user: u, identity: i } && h@ == host && u@ == user && i@
        == identity
}

/// Whether `new` is `old` with one more exchange, which handed over the
/// single command `command`.
pub open spec fn one_command(old: Seq<Exchange>, new: Seq<Exchange>, command: Seq<char>) -> bool {
    &&& new == old.push(new.last())
    &&& (new.last().output is Some <==> new.last().failure is None)
    &&& new.last().commands.len() == 1
    &&& new.last().commands[0].0 == command
}

/// A path and, where it differs, the target it resolves to.
pub open spec fn link_paths(path: Seq<char>, target: Seq<char>) -> Seq<Seq<char>> {
    if path == target {
        seq![path]
    } else {
        seq![path, target]
    }
}

/// The subvolume commands of btrfs, run through `command`.
pub struct Btrfs<C: LoggedCommand> {
    pub command: C,
}

/// The path of the snapshot named for `t` and `suffix` in the directory
/// `snapshot_path`.
pub open spec fn snapshot_target(snapshot_path: Seq<char>, suffix: Seq<char>, t: Timestamp) -> Seq<
    char,
> {
    join_path(snapshot_path, encoded_name(t, suffix))
}

impl<C: LoggedCommand> Btrfs<C> {
    /// The subvolumes below `subvolume_path`, as listed in `context`.
    pub fn get_subvolumes(&mut self, subvolume_path: &str, context: &Context) -> (r: Result<
        Vec<Subvolume>,
        BackupError,
    >)
        ensures
            one_more(
                old(self).command.log(),
                final(self).command.log(),
                seq![(list_text(subvolume_path@), *context)],
            ),
            gives_listing(final(self).command.log().last().output, r),
            final(self).command.log().last().failure matches Some(e) ==> r == Err::<
                Vec<Subvolume>,
                BackupError,
            >(e),
    {
        let output = self.command.run(list_command(subvolume_path).as_str(), context);
        match output {
            Ok(o) => parse_subvolume_list(o.as_str()),
            Err(e) => Err(e),
        }
    }

    /// All subvolumes of the local filesystem, listed as `user`.
    pub fn get_local_subvolumes(&mut self, user: &str) -> (r: Result<Vec<Subvolume>, BackupError>)
        ensures
            one_command(old(self).command.log(), final(self).command.log(), list_text("/"@)),
            is_local(final(self).command.log().last().commands[0].1, user@),
            gives_listing(final(self).command.log().last().output, r),
    {
        self.get_subvolumes("/", &Context::Local { user: user.to_owned() })
    }

    /// All subvolumes of the filesystem on `host`, listed over SSH as `user`
    /// with the identity file `identity`.
    pub fn get_remote_subvolumes(&mut self, host: &str, user: &str, identity: &str) -> (r: Result<
        Vec<Subvolume>,
        BackupError,
    >)
        ensures
            one_command(old(self).command.log(), final(self).command.log(), list_text("/"@)),
            is_remote(final(self).command.log().last().commands[0].1, host@, user@, identity@),
            gives_listing(final(self).command.log().last().output, r),
    {
        self.get_subvolumes(
            "/",
            &Context::Remote {
                host: host.to_owned(),
                user: user.to_owned(),
                identity: identity.to_owned(),
            },
        )
    }

    /// The subvolume at `subvolume_path`, looked up in `context`.
    pub fn get_subvolume_info(&mut self, subvolume_path: &str, context: &Context) -> (r: Result<
        SubvolumeInfo,
        BackupError,
    >)
        ensures
            one_more(
                old(self).command.log(),
                final(self).command.log(),
                seq![(show_text(subvolume_path@), *context)],
            ),
            gives_info(final(self).command.log().last().output, subvolume_path@, r),
    {
        let output = self.command.run(show_command(subvolume_path).as_str(), context);
        match output {
            Ok(o) => parse_subvolume_info(o.as_str(), subvolume_path),
            Err(e) => Err(e),
        }
    }

    /// Takes a read-only snapshot of `subvolume_path`, named for the instant
    /// `timestamp` and `snapshot_suffix`, in the directory `snapshot_path`,
    /// and gives back the snapshot's path. Fails without running anything
    /// where the instant lies outside the years 0 to 9999, which the name
    /// cannot hold.
    pub fn snapshot_subvolume(
        &mut self,
        subvolume_path: &str,
        snapshot_path: &str,
        snapshot_suffix: &str,
        timestamp: &Timestamp,
        context: &Context,
    ) -> (r: Result<String, BackupError>)
        ensures
            !(EARLIEST_SECONDS <= timestamp.seconds <= LATEST_SECONDS) ==> (r matches Err(e)
                && e is SnapshotSubvolume) && *final(self) == *old(self),
            (EARLIEST_SECONDS <= timestamp.seconds <= LATEST_SECONDS) ==> {
                &&& one_more(
                    old(self).command.log(),
                    final(self).command.log(),
                    seq![
                        (
                            snapshot_text(
                                subvolume_path@,
                                snapshot_target(snapshot_path@, snapshot_suffix@, *timestamp),
                            ),
                            *context,
                        ),
                    ],
                )
                &&& final(self).command.log().last().output is None ==> r is Err
                &&& final(self).command.log().last().output is Some ==> (r matches Ok(p) && p@
                    == snapshot_target(snapshot_path@, snapshot_suffix@, *timestamp))
            },
    {
        if timestamp.seconds < EARLIEST_SECONDS || timestamp.seconds > LATEST_SECONDS {
            return Err(
                BackupError::SnapshotSubvolume(
                    String::from_str("the time lies outside the years 0 to 9999"),
                ),
            );
        }
        let name = encode_snapshot_name(timestamp, snapshot_suffix);
        let target = join_text(snapshot_path, name.as_str());
        match self.command.run(snapshot_command(subvolume_path, target.as_str()).as_str(), context) {
            Ok(_) => Ok(target),
            Err(e) => Err(e),
        }
    }

    /// Takes a read-only snapshot of `subvolume_path` in the directory
    /// `snapshot_path`, named for the instant `timestamp` and
    /// `snapshot_suffix`, as the local `user`.
    pub fn create_local_snapshot(
        &mut self,
        subvolume_path: &str,
        snapshot_path: &str,
        snapshot_suffix: &str,
        user: &str,
        timestamp: &Timestamp,
    ) -> (r: Result<(), BackupError>)
        ensures
            !(EARLIEST_SECONDS <= timestamp.seconds <= LATEST_SECONDS) ==> r is Err && *final(self)
                == *old(self),
            (EARLIEST_SECONDS <= timestamp.seconds <= LATEST_SECONDS) ==> {
                &&& one_command(
                    old(self).command.log(),
                    final(self).command.log(),
                    snapshot_text(
                        subvolume_path@,
                        snapshot_target(snapshot_path@, snapshot_suffix@, *timestamp),
                    ),
                )
                &&& is_local(final(self).command.log().last().commands[0].1, user@)
                &&& (r is Ok <==> final(self).command.log().last().output is Some)
            },
    {
        self.snapshot_subvolume(
            subvolume_path,
            snapshot_path,
            snapshot_suffix,
            timestamp,
            &Context::Local { user: user.to_owned() },
        )?;
        Ok(())
    }

    /// Deletes the subvolume at the canonical path `subvolume` in `context`.
    /// The paths `home`, `/home`, `root` and `/` are refused without running
    /// anything. The caller makes the path canonical first (as
    /// `ActionsSystem::police_snapshots` does with `read_link`): only these four
    /// texts are refused, so `/home/` is not.
    pub fn delete_subvolume(&mut self, subvolume: &str, context: &Context) -> (r: Result<
        (),
        BackupError,
    >)
        ensures
            restricted(subvolume@) ==> (r matches Err(e) && e is DeleteSubvolume) && *final(self)
                == *old(self),
            !restricted(subvolume@) ==> one_more(
                old(self).command.log(),
                final(self).command.log(),
                seq![(delete_text(subvolume@), *context)],
            ) && (r is Ok <==> final(self).command.log().last().output is Some),
            !restricted(subvolume@) ==> (final(self).command.log().last().failure matches Some(e)
                ==> r == Err::<(), BackupError>(e)),
    {
        if is_restricted(subvolume) {
            return Err(
                BackupError::DeleteSubvolume(
                    String::from_str(
                        "subvolume cannot be deleted as its name is on the restricted names list (home, /home, /, root)",
                    ),
                ),
            );
        }
        match self.command.run(delete_command(subvolume).as_str(), context) {
            Ok(_) => Ok(()),
            Err(e) => Err(e),
        }
    }

    /// Deletes the subvolume at the canonical path `subvolume_path` as the
    /// local `user`; the caller makes the path canonical first.
    pub fn delete_local_subvolume(&mut self, subvolume_path: &str, user: &str) -> (r: Result<
        (),
        BackupError,
    >)
        ensures
            restricted(subvolume_path@) ==> (r matches Err(e) && e is DeleteSubvolume)
                && *final(self) == *old(self),
            !restricted(subvolume_path@) ==> {
                &&& one_command(
                    old(self).command.log(),
                    final(self).command.log(),
                    delete_text(subvolume_path@),
                )
                &&& is_local(final(self).command.log().last().commands[0].1, user@)
                &&& (r is Ok <==> final(self).command.log().last().output is Some)
                &&& (final(self).command.log().last().failure matches Some(e) ==> r == Err::<
                    (),
                    BackupError,
                >(e))
            },
    {
        self.delete_subvolume(subvolume_path, &Context::Local { user: user.to_owned() })
    }

    /// Deletes the subvolume at the canonical path `subvolume_path` on `host`,
    /// over SSH as `user` with the identity file `identity`; the caller makes
    /// the path canonical first.
    pub fn delete_remote_subvolume(
        &mut self,
        subvolume_path: &str,
        user: &str,
        host: &str,
        identity: &str,
    ) -> (r: Result<(), BackupError>)
        ensures
            restricted(subvolume_path@) ==> (r matches Err(e) && e is DeleteSubvolume)
                && *final(self) == *old(self),
            !restricted(subvolume_path@) ==> {
                &&& one_command(
                    old(self).command.log(),
                    final(self).command.log(),
                    delete_text(subvolume_path@),
                )
                &&& is_remote(
                    final(self).command.log().last().commands[0].1,
                    host@,
                    user@,
                    identity@,
                )
                &&& (r is Ok <==> final(self).command.log().last().output is Some)
                &&& (final(self).command.log().last().failure matches Some(e) ==> r == Err::<
                    (),
                    BackupError,
                >(e))
            },
    {
        self.delete_subvolume(
            subvolume_path,
            &Context::Remote {
                host: host.to_owned(),
                user: user.to_owned(),
                identity: identity.to_owned(),
            },
        )
    }

    /// The path `path` and, where it is a link, what it resolves to, as
    /// `readlink -f` reports it in `context`.
    pub fn read_link(&mut self, path: &str, context: &Context) -> (r: Result<
        Vec<String>,
        BackupError,
    >)
        ensures
            one_more(
                old(self).command.log(),
                final(self).command.log(),
                seq![(readlink_text(path@), *context)],
            ),
            match final(self).command.log().last().output {
                None => r is Err,
                Some(out) => r matches Ok(v) && views(v@) == link_paths(path@, trim(out)),
            },
            final(self).command.log().last().failure matches Some(e) ==> r == Err::<
                Vec<String>,
                BackupError,
            >(e),
    {
        let output = match self.command.run(readlink_command(path).as_str(), context) {
            Ok(o) => o,
            Err(e) => {
                return Err(e);
            },
        };
        let target = trimmed(output.as_str());
        let mut result: Vec<String> = Vec::new();
        result.push(path.to_owned());
        if !same_text(path, target.as_str()) {
            result.push(target);
        }
        assert(views(result@) =~= link_paths(path@, trim(output@)));
        Ok(result)
    }

    /// Sends `local_snapshot` from `context_local` into `backup_path` in
    /// `context_remote`, as the difference to `common_parent` where there is
    /// one: one pipeline of `btrfs send` and `btrfs receive`.
    pub fn send_snapshot(
        &mut self,
        local_snapshot: &SubvolumeInfo,
        common_parent: Option<&SubvolumeInfo>,
        context_local: &Context,
        backup_path: &str,
        context_remote: &Context,
    ) -> (r: Result<(), BackupError>)
        ensures
            one_more(
                old(self).command.log(),
                final(self).command.log(),
                seq![
                    (
                        send_text(
                            local_snapshot.fs_path@,
                            match common_parent {
                                Some(p) => Some(p.fs_path@),
                                None => None,
                            },
                        ),
                        *context_local,
                    ),
                    (receive_text(backup_path@), *context_remote),
                ],
            ),
            r is Ok <==> final(self).command.log().last().output is Some,
            final(self).command.log().last().failure matches Some(e) ==> r == Err::<(), BackupError>(
                e,
            ),
    {
        let parent = match common_parent {
            Some(p) => Some(p.fs_path.as_str()),
            None => None,
        };
        let mut commands: Vec<(String, Context)> = Vec::new();
        commands.push((send_command(local_snapshot.fs_path.as_str(), parent), context_local.copy()));
        commands.push((receive_command(backup_path), context_remote.copy()));
        assert(pipeline_view(commands@) =~= seq![
            (
                send_text(
                    local_snapshot.fs_path@,
                    match common_parent {
                        Some(p) => Some(p.fs_path@),
                        None => None,
                    },
                ),
                *context_local,
            ),
            (receive_text(backup_path@), *context_remote),
        ]);
        match self.command.run_piped(&commands) {
            Ok(_) => Ok(()),
            Err(e) => Err(e),
        }
    }
}

} // verus!
