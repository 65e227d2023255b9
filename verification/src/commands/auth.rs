use vstd::prelude::*;

verus! {

/// Options for creating a new persistent session by logging in.
#[derive(Debug)]
pub struct LoginOpts {}

impl LoginOpts {
    pub fn may_need_user_session(&self) -> (r: bool)
        ensures
            r == true,
    {
        true
    }
}

/// Options for logging out of the current session.
#[derive(Debug)]
pub struct LogoutOpts {}

impl LogoutOpts {
    pub fn may_need_user_session(&self) -> (r: bool)
        ensures
            r == true,
    {
        true
    }
}

/// Options for displaying information about the current session.
#[derive(Debug)]
pub struct MeOpts {}

impl MeOpts {
    pub fn may_need_user_session(&self) -> (r: bool)
        ensures
            r == true,
    {
        true
    }
}

/// The authentication subcommands.
#[derive(Debug)]
pub enum Command {
    /// Create a new persistent session by logging in.
    Login(LoginOpts),
    /// Log out of the current session.
    Logout(LogoutOpts),
    /// Display information about the current session.
    Me(MeOpts),
}

impl Command {
    /// Every authentication subcommand may need a user session.
    pub fn may_need_user_session(&self) -> (r: bool)
        ensures
            r == true,
    {
        match self {
            Command::Login(opts) => opts.may_need_user_session(),
            Command::Logout(opts) => opts.may_need_user_session(),
            Command::Me(opts) => opts.may_need_user_session(),
        }
    }
}

} // verus!
