//! What an operator asks of the crawler, as the command line says it and as
//! it travels to the service.
use vstd::prelude::*;

verus! {

pub enum Command {
    /// Start crawling the given URL.
    Start(String),
    /// Stop crawling the given URL's site.
    Stop(String),
    /// Render the tree of discovered URLs.
    List,
}

pub enum CommandView {
    Start(Seq<char>),
    Stop(Seq<char>),
    List,
}

impl View for Command {
    type V = CommandView;

    open spec fn view(&self) -> CommandView {
        match self {
            Command::Start(s) => CommandView::Start(s@),
            Command::Stop(s) => CommandView::Stop(s@),
            Command::List => CommandView::List,
        }
    }
}

/// The command line's subcommands.
pub enum CliCommand {
    /// Starts crawling a given URL.
    Start { url: String },
    /// Stops crawling a given URL.
    Stop { url: String },
    /// Lists all crawled URLs.
    List,
}

impl CliCommand {
    /// The command that goes over the wire.
    pub fn to_protocol(&self) -> (r: Command)
        ensures
            r@ == match self {
                CliCommand::Start { url } => CommandView::Start(url@),
                CliCommand::Stop { url } => CommandView::Stop(url@),
                CliCommand::List => CommandView::List,
            },
    {
        match self {
            CliCommand::Start { url } => Command::Start(url.clone()),
            CliCommand::Stop { url } => Command::Stop(url.clone()),
            CliCommand::List => Command::List,
        }
    }
}

} // verus!
