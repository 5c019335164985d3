use vstd::prelude::*;

verus! {

/// The errors that the application's commands report to the front end.
#[derive(Debug, Clone, PartialEq, Eq)]
pub enum CommandError {
    /// A database error, carrying the database's own message.
    DatabaseErr(String),
    /// The input had an invalid format.
    InputErr(String),
    /// The peer-to-peer layer failed.
    IrohErr(String),
}

/// The message that an error is shown with.
pub open spec fn error_message(e: CommandError) -> Seq<char> {
    match e {
        CommandError::DatabaseErr(m) => m@,
        CommandError::InputErr(m) => "Data has invalid format, "@ + m@,
        CommandError::IrohErr(m) => "Iroh had an error, "@ + m@,
    }
}

/// The name of an error's kind, as the front end receives it.
pub open spec fn error_kind(e: CommandError) -> Seq<char> {
    match e {
        CommandError::DatabaseErr(_) => "databaseErr"@,
        CommandError::InputErr(_) => "inputErr"@,
        CommandError::IrohErr(_) => "irohErr"@,
    }
}

impl CommandError {
    /// The message the error is shown with.
    pub fn message(&self) -> (m: String)
        ensures
            m@ == error_message(*self),
    {
        match self {
            CommandError::DatabaseErr(m) => m.clone(),
            CommandError::InputErr(m) => {
                let mut s = "Data has invalid format, ".to_owned();
                s.append(m.as_str());
                s
            },
            CommandError::IrohErr(m) => {
                let mut s = "Iroh had an error, ".to_owned();
                s.append(m.as_str());
                s
            },
        }
    }

    /// The name of the error's kind.
    pub fn kind(&self) -> (k: String)
        ensures
            k@ == error_kind(*self),
    {
        match self {
            CommandError::DatabaseErr(_) => "databaseErr".to_owned(),
            CommandError::InputErr(_) => "inputErr".to_owned(),
            CommandError::IrohErr(_) => "irohErr".to_owned(),
        }
    }
}

} // verus!
