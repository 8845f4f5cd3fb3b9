use vstd::prelude::*;

use crate::error::BackupError;
use crate::text::same_text;

verus! {

/// Where and as whom a command runs.
#[derive(Debug, Clone, PartialEq)]
pub enum Context {
    /// On this machine, as `user`.
    Local { user: String },
    /// Over SSH on `host`, as `user`, with the identity file `identity`.
    Remote { host: String, user: String, identity: String },
}

/// Whether `a` and `b` name the same context.
pub open spec fn same_context_spec(a: Context, b: Context) -> bool {
    match (a, b) {
        (Context::Local { user: u1 }, Context::Local { user: u2 }) => u1@ == u2@,
        (
            Context::Remote { host: h1, user: u1, identity: i1 },
            Context::Remote { host: h2, user: u2, identity: i2 },
        ) => h1@ == h2@ && u1@ == u2@ && i1@ == i2@,
        _ => false,
    }
}

/// Whether `a` and `b` name the same context.
pub fn same_context(a: &Context, b: &Context) -> (r: bool)
    ensures
        r == same_context_spec(*a, *b),
{
    match (a, b) {
        (Context::Local { user: u1 }, Context::Local { user: u2 }) => same_text(
            u1.as_str(),
            u2.as_str(),
        ),
        (
            Context::Remote { host: h1, user: u1, identity: i1 },
            Context::Remote { host: h2, user: u2, identity: i2 },
        ) => same_text(h1.as_str(), h2.as_str()) && same_text(u1.as_str(), u2.as_str())
            && same_text(i1.as_str(), i2.as_str()),
        _ => false,
    }
}

impl Context {
    /// A copy of this context.
    pub fn copy(&self) -> (r: Context)
        ensures
            r == *self,
    {
        match self {
            Context::Local { user } => Context::Local { user: user.clone() },
            Context::Remote { host, user, identity } => Context::Remote {
                host: host.clone(),
                user: user.clone(),
                identity: identity.clone(),
            },
        }
    }
}

/// One hand-over to the executor: the commands of a pipeline with their
/// contexts, what the last one printed where all of them succeeded, and the
/// error where they did not.
pub struct Exchange {
    pub commands: Seq<(Seq<char>, Context)>,
    pub output: Option<Seq<char>>,
    pub failure: Option<BackupError>,
}

/// The error of an executor's answer, where it failed.
pub open spec fn failure(r: Result<String, BackupError>) -> Option<BackupError> {
    match r {
        Ok(_) => None,
        Err(e) => Some(e),
    }
}

/// What an executor's answer printed, where it succeeded.
pub open spec fn answer(r: Result<String, BackupError>) -> Option<Seq<char>> {
    match r {
        Ok(s) => Some(s@),
        Err(_) => None,
    }
}

/// The commands of a pipeline, as characters.
pub open spec fn pipeline_view(c: Seq<(String, Context)>) -> Seq<(Seq<char>, Context)> {
    c.map_values(|e: (String, Context)| (e.0@, e.1))
}

/// Whether `new` is `old` with one more exchange, which handed over
/// `commands`.
pub open spec fn one_more(
    old: Seq<Exchange>,
    new: Seq<Exchange>,
    commands: Seq<(Seq<char>, Context)>,
) -> bool {
    &&& new == old.push(new.last())
    &&& new.last().commands == commands
    &&& (new.last().output is Some <==> new.last().failure is None)
}

/// What one more exchange leaves of the earlier ones.
pub proof fn lemma_one_more_keeps(old: Seq<Exchange>, new: Seq<Exchange>)
    requires
        new == old.push(new.last()),
    ensures
        new.len() == old.len() + 1,
        new.take(old.len() as int) == old,
        new[old.len() as int] == new.last(),
        forall|k: int| 0 <= k < old.len() ==> #[trigger] new[k] == old[k],
{
    assert(new.take(old.len() as int) =~= old);
}

/// Runs shell commands: a command line in a context, or a pipeline of them.
/// What comes back is the standard output of the (last) command.
pub trait Command {
    /// Runs `command` in `context`.
    fn run(&mut self, command: &str, context: &Context) -> Result<String, BackupError>;

    /// Runs `commands` one after the other, each one's output piped into the
    /// next.
    fn run_piped(&mut self, commands: &Vec<(String, Context)>) -> Result<String, BackupError>;
}

/// An executor whose exchanges are on record: every call adds one exchange
/// to the log, with what was handed over and what came back.
pub trait LoggedCommand {
    /// The exchanges so far, oldest first.
    spec fn log(&self) -> Seq<Exchange>;

    /// Runs `command` in `context`.
    fn run(&mut self, command: &str, context: &Context) -> (r: Result<String, BackupError>)
        ensures
            final(self).log() == old(self).log().push(
                Exchange { commands: seq![(command@, *context)], output: answer(r), failure: failure(r) },
            ),
    ;

    /// Runs `commands` one after the other, each one's output piped into the
    /// next.
    fn run_piped(&mut self, commands: &Vec<(String, Context)>) -> (r: Result<String, BackupError>)
        ensures
            final(self).log() == old(self).log().push(
                Exchange { commands: pipeline_view(commands@), output: answer(r), failure: failure(r) },
            ),
    ;
}

/// A stand-in for the shell that expects a fixed list of commands and
/// answers each with a fixed response. Both lists are used from their ends;
/// `log` records every exchange.
pub struct CommandMock {
    pub commands: Vec<(String, Context)>,
    pub responses: Vec<String>,
    pub log: Vec<(Vec<(String, Context)>, Option<String>, Option<BackupError>)>,
}

/// The view of an optional string.
pub open spec fn text_view(o: Option<String>) -> Option<Seq<char>> {
    match o {
        Some(s) => Some(s@),
        None => None,
    }
}

impl CommandMock {
    /// A stand-in that expects `commands` and answers with `responses`.
    pub fn new(commands: Vec<(String, Context)>, responses: Vec<String>) -> (r: CommandMock)
        ensures
            r.log@.len() == 0,
    {
        CommandMock { commands, responses, log: Vec::new() }
    }

    /// Answers one command, without logging it.
    fn answer_one(&mut self, command: &str, context: &Context) -> (r: Result<String, BackupError>)
        ensures
            final(self).log == old(self).log,
    {
        let (expected, expected_context) = match self.commands.pop() {
            Some(c) => c,
            None => {
                return Err(BackupError::Command(String::from_str("no more commands expected")));
            },
        };
        if !same_text(command, expected.as_str()) || !same_context(context, &expected_context) {
            return Err(BackupError::Command(String::from_str("unexpected command")));
        }
        match self.responses.pop() {
            Some(out) => Ok(out),
            None => Err(BackupError::Command(String::from_str("no more responses found"))),
        }
    }

    /// Records an exchange.
    fn record(&mut self, commands: Vec<(String, Context)>, r: &Result<String, BackupError>)
        ensures
            final(self).log@ == old(self).log@.push(
                (commands, final(self).log@.last().1, final(self).log@.last().2),
            ),
            text_view(final(self).log@.last().1) == answer(*r),
            final(self).log@.last().2 == failure(*r),
            final(self).commands == old(self).commands,
            final(self).responses == old(self).responses,
    {
        let out = answer_text(r);
        let err = failure_of(r);
        self.log.push((commands, out, err));
    }
}

impl LoggedCommand for CommandMock {
    open spec fn log(&self) -> Seq<Exchange> {
        self.log@.map_values(
            |e: (Vec<(String, Context)>, Option<String>, Option<BackupError>)|
                Exchange { commands: pipeline_view(e.0@), output: text_view(e.1), failure: e.2 },
        )
    }

    fn run(&mut self, command: &str, context: &Context) -> (r: Result<String, BackupError>) {
        let r = self.answer_one(command, context);
        let mut commands: Vec<(String, Context)> = Vec::new();
        commands.push((command.to_owned(), context.copy()));
        let ghost before = self.log@;
        self.record(commands, &r);
        assert(pipeline_view(commands@) =~= seq![(command@, *context)]);
        assert(self.log() =~= old(self).log().push(
            Exchange { commands: seq![(command@, *context)], output: answer(r), failure: failure(r) },
        ));
        r
    }

    fn run_piped(&mut self, commands: &Vec<(String, Context)>) -> (r: Result<String, BackupError>) {
        let mut resp: Result<String, BackupError> = Err(
            BackupError::Command(String::from_str("no output found")),
        );
        let mut i: usize = 0;
        while i < commands.len()
            invariant
                self.log@ == old(self).log@,
                i <= commands@.len(),
            decreases commands@.len() - i,
        {
            match self.answer_one(commands[i].0.as_str(), &commands[i].1) {
                Ok(out) => {
                    resp = Ok(out);
                },
                Err(e) => {
                    resp = Err(e);
                    break;
                },
            }
            i = i + 1;
        }
        let copy = copy_pipeline(commands);
        self.record(copy, &resp);
        assert(self.log() =~= old(self).log().push(
            Exchange { commands: pipeline_view(commands@), output: answer(resp), failure: failure(resp) },
        ));
        resp
    }
}

/// An executor `inner` with a record of its exchanges in `log`.
pub struct Recorder<C: Command> {
    pub inner: C,
    pub log: Vec<(Vec<(String, Context)>, Option<String>, Option<BackupError>)>,
}

/// The exchanges of a record.
pub open spec fn exchanges(log: Seq<(Vec<(String, Context)>, Option<String>, Option<BackupError>)>) -> Seq<Exchange> {
    log.map_values(
        |e: (Vec<(String, Context)>, Option<String>, Option<BackupError>)|
            Exchange { commands: pipeline_view(e.0@), output: text_view(e.1), failure: e.2 },
    )
}

/// A copy of the pipeline `commands`.
fn copy_pipeline(commands: &Vec<(String, Context)>) -> (r: Vec<(String, Context)>)
    ensures
        pipeline_view(r@) == pipeline_view(commands@),
{
    let mut copy: Vec<(String, Context)> = Vec::new();
    let mut k: usize = 0;
    while k < commands.len()
        invariant
            k <= commands@.len(),
            pipeline_view(copy@) == pipeline_view(commands@.take(k as int)),
        decreases commands@.len() - k,
    {
        let ghost before = copy@;
        let entry = (commands[k].0.clone(), commands[k].1.copy());
        copy.push(entry);
        assert(commands@.take(k + 1) =~= commands@.take(k as int).push(commands@[k as int]));
        assert(pipeline_view(copy@) =~= pipeline_view(before).push((entry.0@, entry.1)));
        assert(pipeline_view(commands@.take(k + 1)) =~= pipeline_view(commands@.take(k as int)).push(
            (commands@[k as int].0@, commands@[k as int].1),
        ));
        k = k + 1;
    }
    assert(commands@.take(k as int) =~= commands@);
    copy
}

/// A copy of what an executor answered, where it succeeded.
fn answer_text(r: &Result<String, BackupError>) -> (o: Option<String>)
    ensures
        text_view(o) == answer(*r),
{
    match r {
        Ok(s) => Some(s.clone()),
        Err(_) => None,
    }
}

/// A copy of the error of an executor's answer, where it failed.
fn failure_of(r: &Result<String, BackupError>) -> (o: Option<BackupError>)
    ensures
        o == failure(*r),
{
    match r {
        Ok(_) => None,
        Err(e) => Some(e.copy()),
    }
}

impl<C: Command> Recorder<C> {
    /// `inner`, with nothing on record yet.
    pub fn new(inner: C) -> (r: Recorder<C>)
        ensures
            r.log@.len() == 0,
    {
        Recorder { inner, log: Vec::new() }
    }
}

impl<C: Command> LoggedCommand for Recorder<C> {
    open spec fn log(&self) -> Seq<Exchange> {
        exchanges(self.log@)
    }

    fn run(&mut self, command: &str, context: &Context) -> (r: Result<String, BackupError>) {
        let r = self.inner.run(command, context);
        let mut commands: Vec<(String, Context)> = Vec::new();
        commands.push((command.to_owned(), context.copy()));
        let out = answer_text(&r);
        let err = failure_of(&r);
        self.log.push((commands, out, err));
        assert(pipeline_view(commands@) =~= seq![(command@, *context)]);
        assert(exchanges(self.log@) =~= exchanges(old(self).log@).push(
            Exchange { commands: seq![(command@, *context)], output: answer(r), failure: failure(r) },
        ));
        r
    }

    fn run_piped(&mut self, commands: &Vec<(String, Context)>) -> (r: Result<String, BackupError>) {
        let r = self.inner.run_piped(commands);
        let copy = copy_pipeline(commands);
        let out = answer_text(&r);
        let err = failure_of(&r);
        self.log.push((copy, out, err));
        assert(exchanges(self.log@) =~= exchanges(old(self).log@).push(
            Exchange { commands: pipeline_view(commands@), output: answer(r), failure: failure(r) },
        ));
        r
    }
}

/// `"<s>"`: `s` in double quotes.
pub open spec fn quoted(s: Seq<char>) -> Seq<char> {
    "\""@ + s + "\""@
}

/// `s` in double quotes.
pub fn quote_text(s: &str) -> (r: String)
    ensures
        r@ == quoted(s@),
{
    String::from_str("\"").concat(s).concat("\"")
}

/// The command that lists the subvolumes below `path`.
pub open spec fn list_text(path: Seq<char>) -> Seq<char> {
    "sudo btrfs subvolume list -tupqR --sort=rootid "@ + path
}

/// The command that shows the subvolume at `path`.
pub open spec fn show_text(path: Seq<char>) -> Seq<char> {
    "sudo btrfs subvolume show "@ + quoted(path)
}

/// The command that deletes the subvolume at `path`.
pub open spec fn delete_text(path: Seq<char>) -> Seq<char> {
    "sudo btrfs subvolume delete "@ + quoted(path)
}

/// The command that snapshots `subvolume` read-only at `target`.
pub open spec fn snapshot_text(subvolume: Seq<char>, target: Seq<char>) -> Seq<char> {
    "sudo btrfs subvolume snapshot -r "@ + quoted(subvolume) + " "@ + quoted(target)
}

/// The command that sends `snapshot`, as the difference to `parent` where
/// there is one.
pub open spec fn send_text(snapshot: Seq<char>, parent: Option<Seq<char>>) -> Seq<char> {
    match parent {
        None => "sudo btrfs send "@ + quoted(snapshot),
        Some(p) => "sudo btrfs send -p "@ + quoted(p) + " "@ + quoted(snapshot),
    }
}

/// The command that receives a sent snapshot into `path`.
pub open spec fn receive_text(path: Seq<char>) -> Seq<char> {
    "sudo btrfs receive "@ + quoted(path)
}

/// The command that resolves `path` to its canonical form.
pub open spec fn readlink_text(path: Seq<char>) -> Seq<char> {
    "readlink -f "@ + quoted(path)
}

/// The command that lists the btrfs mounts.
pub open spec fn mount_text() -> Seq<char> {
    "findmnt -lnvt btrfs -o FSROOT,TARGET,FSTYPE,SOURCE,OPTIONS"@
}

/// The command that lists the btrfs mounts: root, mount point, type, device
/// and options of each.
pub fn mount_command() -> (r: String)
    ensures
        r@ == mount_text(),
{
    String::from_str("findmnt -lnvt btrfs -o FSROOT,TARGET,FSTYPE,SOURCE,OPTIONS")
}

/// The command that resolves `path` to its canonical form.
pub fn readlink_command(path: &str) -> (r: String)
    ensures
        r@ == readlink_text(path@),
{
    let q = quote_text(path);
    let r = String::from_str("readlink -f ").concat(q.as_str());
    assert(r@ =~= readlink_text(path@));
    r
}

/// The command that lists the subvolumes below `path`, with their parent and
/// received UUIDs, in the order of their ids.
pub fn list_command(path: &str) -> (r: String)
    ensures
        r@ == list_text(path@),
{
    String::from_str("sudo btrfs subvolume list -tupqR --sort=rootid ").concat(path)
}

/// The command that shows the subvolume at `path`.
pub fn show_command(path: &str) -> (r: String)
    ensures
        r@ == show_text(path@),
{
    let q = quote_text(path);
    let r = String::from_str("sudo btrfs subvolume show ").concat(q.as_str());
    assert(r@ =~= "sudo btrfs subvolume show "@ + quoted(path@));
    r
}

/// The command that deletes the subvolume at `path`.
pub fn delete_command(path: &str) -> (r: String)
    ensures
        r@ == delete_text(path@),
{
    let q = quote_text(path);
    let r = String::from_str("sudo btrfs subvolume delete ").concat(q.as_str());
    assert(r@ =~= "sudo btrfs subvolume delete "@ + quoted(path@));
    r
}

/// The command that takes a read-only snapshot of `subvolume` at `target`.
pub fn snapshot_command(subvolume: &str, target: &str) -> (r: String)
    ensures
        r@ == snapshot_text(subvolume@, target@),
{
    let a = quote_text(subvolume);
    let b = quote_text(target);
    let r = String::from_str("sudo btrfs subvolume snapshot -r ").concat(a.as_str()).concat(
        " ",
    ).concat(b.as_str());
    assert(r@ =~= "sudo btrfs subvolume snapshot -r "@ + quoted(subvolume@) + " "@ + quoted(
        target@,
    ));
    r
}

/// The command that sends the snapshot at `snapshot`, as the difference to
/// `parent` where there is one.
pub fn send_command(snapshot: &str, parent: Option<&str>) -> (r: String)
    ensures
        r@ == send_text(
            snapshot@,
            match parent {
                Some(p) => Some(p@),
                None => None,
            },
        ),
{
    let s = quote_text(snapshot);
    match parent {
        None => {
            let r = String::from_str("sudo btrfs send ").concat(s.as_str());
            assert(r@ =~= "sudo btrfs send "@ + quoted(snapshot@));
            r
        },
        Some(p) => {
            let q = quote_text(p);
            let r = String::from_str("sudo btrfs send -p ").concat(q.as_str()).concat(" ").concat(
                s.as_str(),
            );
            assert(r@ =~= "sudo btrfs send -p "@ + quoted(p@) + " "@ + quoted(snapshot@));
            r
        },
    }
}

/// The command that receives a sent snapshot into `path`.
pub fn receive_command(path: &str) -> (r: String)
    ensures
        r@ == receive_text(path@),
{
    let q = quote_text(path);
    let r = String::from_str("sudo btrfs receive ").concat(q.as_str());
    assert(r@ =~= "sudo btrfs receive "@ + quoted(path@));
    r
}

/// The paths that are never deleted.
pub open spec fn restricted(path: Seq<char>) -> bool {
    path == "home"@ || path == "/home"@ || path == "root"@ || path == "/"@
}

/// Whether `path` is one that is never deleted: `home`, `/home`, `root` or
/// `/`.
pub fn is_restricted(path: &str) -> (r: bool)
    ensures
        r == restricted(path@),
{
    same_text(path, "home") || same_text(path, "/home") || same_text(path, "root") || same_text(
        path,
        "/",
    )
}

} // verus!
