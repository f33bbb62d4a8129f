//! The command line: which subcommand was asked for and with which names.
use vstd::prelude::*;

verus! {

/// Names given to a subcommand that works on several rules.
pub struct Rulenames {
    pub names: Vec<String>,
}

/// The name given to a subcommand that works on one rule, if any.
pub struct Rulename {
    pub names: Option<String>,
}

/// The subcommands.
pub enum Commands {
    Add,
    Remove(Rulenames),
    Edit(Rulename),
    List,
    Start(Rulenames),
    Stop(Rulenames),
    Check(Rulenames),
    Gui,
}

/// The parsed command line.
pub struct Cli {
    pub command: Option<Commands>,
}

impl Cli {
    /// Whether the graphical interface is wanted: no subcommand, or `gui`.
    pub fn wants_gui(&self) -> (r: bool)
        ensures
            r == (self.command is None || self.command matches Some(Commands::Gui)),
    {
        match &self.command {
            None => true,
            Some(Commands::Gui) => true,
            Some(_) => false,
        }
    }
}

impl Rulename {
    /// The name given, or the empty name when none was.
    pub fn name_or_default(&self) -> (r: String)
        ensures
            r@ == match self.names {
                Some(n) => n@,
                None => Seq::<char>::empty(),
            },
    {
        match &self.names {
            Some(n) => n.clone(),
            None => String::new(),
        }
    }
}

} // verus!
