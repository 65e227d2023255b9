use vstd::prelude::*;

verus! {

/// Options for displaying the path to the configuration file.
#[derive(Debug)]
pub struct PathOpts {}

impl PathOpts {
    pub fn may_need_user_session(&self) -> (r: bool)
        ensures
            r == false,
    {
        false
    }
}

/// Options for editing the configuration file with a text editor.
#[derive(Debug)]
pub struct EditOpts {
    /// Command to use to open the text editor.
    pub editor: Option<String>,
}

impl EditOpts {
    pub fn may_need_user_session(&self) -> (r: bool)
        ensures
            r == false,
    {
        false
    }
}

/// The configuration subcommands.
#[derive(Debug)]
pub enum Command {
    /// Display the path to the configuration file.
    Path(PathOpts),
    /// Edit the configuration file with a text editor.
    Edit(EditOpts),
}

impl Command {
    /// Configuration subcommands never need a user session.
    pub fn may_need_user_session(&self) -> (r: bool)
        ensures
            r == false,
    {
        match self {
            Command::Path(opts) => opts.may_need_user_session(),
            Command::Edit(opts) => opts.may_need_user_session(),
        }
    }
}

} // verus!
