use vstd::prelude::*;

pub mod auth;
pub mod compare;
pub mod config;
pub mod delete;
pub mod follow;
pub mod get;
pub mod list;
pub mod mkdir;
pub mod put;
pub mod rename;
pub mod tree;

verus! {

/// One invocation of the client: the subcommand chosen, with its options.
#[derive(Debug)]
pub enum Command {
    /// Manage authentication with the remote store.
    Auth(auth::Command),
    /// Interact with the stored configuration.
    Config(config::Command),
    /// Download files from the remote store.
    Get(get::Opts),
    /// Upload files to the remote store.
    Put(put::Opts),
    /// List remote nodes.
    List(list::Opts),
    /// Display remote nodes as a tree.
    Tree(tree::Opts),
    /// Create folders within the remote store.
    Mkdir(mkdir::Opts),
    /// Rename remote nodes.
    Rename(rename::Opts),
    /// Delete remote nodes.
    Delete(delete::Opts),
    /// Display remote storage events as they happen.
    Follow(follow::Opts),
}

impl Command {
    /// Whether this invocation may need a stored user session: commands
    /// that only touch the configuration never do, and commands that read
    /// through a share link carry their own access.
    pub open spec fn may_need_user_session_spec(self) -> bool {
        match self {
            Command::Auth(_) => true,
            Command::Config(_) => false,
            Command::Get(o) => o.link is None && o.password is None,
            Command::Put(_) => true,
            Command::List(o) => o.link is None && o.password is None,
            Command::Tree(o) => o.link is None && o.password is None,
            Command::Mkdir(_) => true,
            Command::Rename(_) => true,
            Command::Delete(_) => true,
            Command::Follow(_) => true,
        }
    }

    pub fn may_need_user_session(&self) -> (r: bool)
        ensures
            r == self.may_need_user_session_spec(),
    {
        match self {
            Command::Auth(opts) => opts.may_need_user_session(),
            Command::Config(opts) => opts.may_need_user_session(),
            Command::Get(opts) => opts.may_need_user_session(),
            Command::Put(opts) => opts.may_need_user_session(),
            Command::List(opts) => opts.may_need_user_session(),
            Command::Tree(opts) => opts.may_need_user_session(),
            Command::Mkdir(opts) => opts.may_need_user_session(),
            Command::Rename(opts) => opts.may_need_user_session(),
            Command::Delete(opts) => opts.may_need_user_session(),
            Command::Follow(opts) => opts.may_need_user_session(),
        }
    }
}

} // verus!
