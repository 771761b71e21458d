//! The steps of `POST /api/mesh/sync-repo`: update this node's checkout
//! (`git pull`), rebuild the daemon and reinstall the CLI. The endpoint
//! runs commands, so it is off unless `CONVERGIO_SYNC_REPO_ENABLED=1`.

use vstd::prelude::*;
use crate::text::{chars_of, extend_str, string_of, trim, trim_chars};

verus! {

/// A command to run: program, arguments, and the directory to run it in
/// (`None`: the current one).
#[derive(Debug, Clone)]
pub struct RepoCommand {
    pub program: String,
    pub args: Vec<String>,
    pub dir: Option<String>,
}

/// How a command ended: it ran, successfully or not, with its output read
/// as text; or it could not be started.
#[derive(Debug, Clone)]
pub enum CommandOutcome {
    Ran { success: bool, stdout: String, stderr: String },
    NotStarted { error: String },
}

/// The reply of the endpoint.
#[derive(Debug, Clone, PartialEq)]
pub enum SyncRepoReply {
    /// The pull succeeded; `build` is `success` or `failed`, `cli_update`
    /// is `success` or `skipped_or_failed`.
    Updated { git_pull: String, build: String, cli_update: String },
    Failed { error: String },
}

/// Where the update stands. Each state but `Done` has one command to run
/// next ([`SyncRepo::command`]); its outcome gives the next state.
#[derive(Debug, Clone)]
pub enum SyncRepo {
    Locating,
    Resetting { root: String },
    Pulling { root: String },
    Building { root: String, git_pull: String },
    Installing { root: String, git_pull: String },
    Done(SyncRepoReply),
}

pub open spec fn disabled_message() -> Seq<char> {
    "sync-repo is disabled (set CONVERGIO_SYNC_REPO_ENABLED=1 to enable it)"@
}

/// Whether `CONVERGIO_SYNC_REPO_ENABLED` enables the endpoint.
pub open spec fn enabled_by(env_value: Option<Seq<char>>) -> bool {
    env_value == Some("1"@)
}

pub open spec fn built_label(ok: bool) -> Seq<char> {
    if ok { "success"@ } else { "failed"@ }
}

pub open spec fn cli_label(ok: bool) -> Seq<char> {
    if ok { "success"@ } else { "skipped_or_failed"@ }
}

pub open spec fn daemon_dir(root: Seq<char>) -> Seq<char> {
    root + "/daemon"@
}

pub open spec fn strs_view(v: Seq<String>) -> Seq<Seq<char>> {
    v.map_values(|s: String| s@)
}

/// The command each state runs: program, arguments, directory.
pub open spec fn command_spec(st: SyncRepo) -> Option<(Seq<char>, Seq<Seq<char>>, Option<Seq<char>>)> {
    match st {
        SyncRepo::Locating => Some(("git"@, seq!["rev-parse"@, "--show-toplevel"@], None)),
        SyncRepo::Resetting { root } => Some(("git"@, seq!["checkout"@, "--"@, "."@], Some(root@))),
        SyncRepo::Pulling { root } => Some(("git"@, seq!["pull"@, "origin"@, "main"@], Some(root@))),
        SyncRepo::Building { root, .. } => Some(("cargo"@, seq!["build"@, "--release"@], Some(daemon_dir(root@)))),
        SyncRepo::Installing { root, .. } => Some(
            ("cargo"@, seq!["install"@, "--path"@, "crates/convergio-cli"@, "--force"@], Some(daemon_dir(root@))),
        ),
        SyncRepo::Done(_) => None,
    }
}

pub open spec fn command_view(c: Option<RepoCommand>) -> Option<(Seq<char>, Seq<Seq<char>>, Option<Seq<char>>)> {
    match c {
        Some(c) => Some((c.program@, strs_view(c.args@), crate::sync_cursor::opt_string_view(c.dir))),
        None => None,
    }
}

fn strings(parts: &[&str]) -> (r: Vec<String>)
    ensures
        strs_view(r@) == parts@.map_values(|s: &str| s@),
{
    let mut out: Vec<String> = Vec::new();
    let mut i: usize = 0;
    while i < parts.len()
        invariant
            i <= parts@.len(),
            strs_view(out@) == parts@.take(i as int).map_values(|s: &str| s@),
        decreases parts.len() - i,
    {
        let ghost o = out@;
        out.push(parts[i].to_owned());
        assert(strs_view(out@) =~= strs_view(o).push(parts@[i as int]@));
        assert(parts@.take(i + 1).map_values(|s: &str| s@) =~= parts@.take(i as int).map_values(
            |s: &str| s@,
        ).push(parts@[i as int]@));
        i = i + 1;
    }
    assert(parts@.take(parts@.len() as int) == parts@);
    out
}

fn text(s: &str) -> (r: String)
    ensures
        r@ == s@,
{
    s.to_owned()
}

fn in_daemon(root: &String) -> (r: String)
    ensures
        r@ == daemon_dir(root@),
{
    let mut out: Vec<char> = Vec::new();
    extend_str(&mut out, root.as_str());
    extend_str(&mut out, "/daemon");
    string_of(&out)
}

fn trimmed(s: &String) -> (r: String)
    ensures
        r@ == trim(s@),
{
    string_of(&trim_chars(&chars_of(s.as_str())))
}

fn prefixed(prefix: &str, s: &String) -> (r: String)
    ensures
        r@ == prefix@ + s@,
{
    let mut out: Vec<char> = Vec::new();
    extend_str(&mut out, prefix);
    extend_str(&mut out, s.as_str());
    string_of(&out)
}

impl SyncRepo {
    /// The first state: locate the repository, unless the endpoint is off.
    pub fn start(env_value: Option<&str>) -> (r: Self)
        ensures
            enabled_by(crate::sync_cursor::opt_str_view(env_value)) ==> r is Locating,
            !enabled_by(crate::sync_cursor::opt_str_view(env_value)) ==> (r matches SyncRepo::Done(
                SyncRepoReply::Failed { error },
            ) && error@ == disabled_message()),
    {
        let on = match env_value {
            Some(v) => crate::text::str_eq(v, "1"),
            None => false,
        };
        if on {
            SyncRepo::Locating
        } else {
            proof {
                reveal_strlit("sync-repo is disabled (set CONVERGIO_SYNC_REPO_ENABLED=1 to enable it)");
            }
            SyncRepo::Done(
                SyncRepoReply::Failed {
                    error: text("sync-repo is disabled (set CONVERGIO_SYNC_REPO_ENABLED=1 to enable it)"),
                },
            )
        }
    }

    /// The command due in this state.
    pub fn command(&self) -> (r: Option<RepoCommand>)
        ensures
            command_view(r) == command_spec(*self),
    {
        match self {
            SyncRepo::Locating => Some(
                RepoCommand { program: text("git"), args: strings(&["rev-parse", "--show-toplevel"]), dir: None },
            ),
            SyncRepo::Resetting { root } => Some(
                RepoCommand {
                    program: text("git"),
                    args: strings(&["checkout", "--", "."]),
                    dir: Some(root.clone()),
                },
            ),
            SyncRepo::Pulling { root } => Some(
                RepoCommand {
                    program: text("git"),
                    args: strings(&["pull", "origin", "main"]),
                    dir: Some(root.clone()),
                },
            ),
            SyncRepo::Building { root, .. } => Some(
                RepoCommand {
                    program: text("cargo"),
                    args: strings(&["build", "--release"]),
                    dir: Some(in_daemon(root)),
                },
            ),
            SyncRepo::Installing { root, .. } => Some(
                RepoCommand {
                    program: text("cargo"),
                    args: strings(&["install", "--path", "crates/convergio-cli", "--force"]),
                    dir: Some(in_daemon(root)),
                },
            ),
            SyncRepo::Done(_) => None,
        }
    }

    /// The next state, given how this state's command ended. The checkout
    /// is the repository's top level, or `.` when git cannot say; a failed
    /// reset is ignored; a failed pull ends with an error; a failed build
    /// skips the CLI install.
    pub fn step(self, outcome: CommandOutcome) -> (r: Self)
        requires
            !(self is Done),
        ensures
            match (self, outcome) {
                (SyncRepo::Locating, CommandOutcome::Ran { success: true, stdout, .. }) => r matches SyncRepo::Resetting {
                    root,
                } && root@ == trim(stdout@),
                (SyncRepo::Locating, _) => r matches SyncRepo::Resetting { root } && root@ == "."@,
                (SyncRepo::Resetting { root }, _) => r == (SyncRepo::Pulling { root }),
                (SyncRepo::Pulling { root }, CommandOutcome::Ran { success: true, stdout, .. }) => r matches SyncRepo::Building {
                    root: r2,
                    git_pull,
                } && r2 == root && git_pull@ == trim(stdout@),
                (SyncRepo::Pulling { .. }, CommandOutcome::Ran { success: false, stderr, .. }) => r matches SyncRepo::Done(
                    SyncRepoReply::Failed { error },
                ) && error@ == "git pull failed: "@ + stderr@,
                (SyncRepo::Pulling { .. }, CommandOutcome::NotStarted { error: e }) => r matches SyncRepo::Done(
                    SyncRepoReply::Failed { error },
                ) && error@ == "git command failed: "@ + e@,
                (SyncRepo::Building { root, git_pull }, CommandOutcome::Ran { success: true, .. }) => r == (
                SyncRepo::Installing { root, git_pull }),
                (SyncRepo::Building { git_pull, .. }, _) => r matches SyncRepo::Done(
                    SyncRepoReply::Updated { git_pull: g, build, cli_update },
                ) && g == git_pull && build@ == built_label(false) && cli_update@ == cli_label(false),
                (SyncRepo::Installing { git_pull, .. }, outcome) => r matches SyncRepo::Done(
                    SyncRepoReply::Updated { git_pull: g, build, cli_update },
                ) && g == git_pull && build@ == built_label(true) && cli_update@ == cli_label(
                    outcome matches CommandOutcome::Ran { success: true, .. },
                ),
                _ => false,
            },
    {
        proof {
            reveal_strlit(".");
            reveal_strlit("success");
            reveal_strlit("failed");
            reveal_strlit("skipped_or_failed");
        }
        match self {
            SyncRepo::Locating => match outcome {
                CommandOutcome::Ran { success: true, stdout, .. } => SyncRepo::Resetting { root: trimmed(&stdout) },
                _ => SyncRepo::Resetting { root: text(".") },
            },
            SyncRepo::Resetting { root } => SyncRepo::Pulling { root },
            SyncRepo::Pulling { root } => match outcome {
                CommandOutcome::Ran { success: true, stdout, .. } => SyncRepo::Building {
                    root,
                    git_pull: trimmed(&stdout),
                },
                CommandOutcome::Ran { success: false, stderr, .. } => SyncRepo::Done(
                    SyncRepoReply::Failed { error: prefixed("git pull failed: ", &stderr) },
                ),
                CommandOutcome::NotStarted { error } => SyncRepo::Done(
                    SyncRepoReply::Failed { error: prefixed("git command failed: ", &error) },
                ),
            },
            SyncRepo::Building { root, git_pull } => match outcome {
                CommandOutcome::Ran { success: true, .. } => SyncRepo::Installing { root, git_pull },
                _ => SyncRepo::Done(
                    SyncRepoReply::Updated { git_pull, build: text("failed"), cli_update: text("skipped_or_failed") },
                ),
            },
            SyncRepo::Installing { git_pull, .. } => {
                let ok = match outcome {
                    CommandOutcome::Ran { success: true, .. } => true,
                    _ => false,
                };
                SyncRepo::Done(
                    SyncRepoReply::Updated {
                        git_pull,
                        build: text("success"),
                        cli_update: if ok { text("success") } else { text("skipped_or_failed") },
                    },
                )
            },
            SyncRepo::Done(reply) => SyncRepo::Done(reply),
        }
    }
}

} // verus!
