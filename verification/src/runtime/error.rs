use vstd::prelude::*;
use vstd::string::StringExecFns;

verus! {

/// Why a subsystem refused to initialize, in its own words.
#[derive(Debug, Clone)]
pub struct SubsystemError {
    message: String,
}

impl SubsystemError {
    /// A failure described by `message`.
    pub fn new(message: String) -> (e: Self)
        ensures
            e.message()@ == message@,
    {
        SubsystemError { message }
    }

    /// The failure's description, as a specification value.
    pub closed spec fn message(&self) -> String {
        self.message
    }

    /// The failure's description.
    pub fn text(&self) -> (r: &str)
        ensures
            r@ == self.message()@,
    {
        self.message.as_str()
    }
}

/// Errors returned by the application runtime.
#[derive(Debug)]
pub enum CoreError {
    /// A subsystem's `init` failed; `name` is the subsystem's own name.
    SubsystemInit {
        /// The name the failing subsystem reports.
        name: String,
        /// The failure the subsystem returned.
        source: SubsystemError,
    },
}

impl CoreError {
    /// The human-readable message for this error.
    pub fn message(&self) -> (r: String)
        ensures
            match self {
                CoreError::SubsystemInit { name, source } => r@ == "subsystem `"@ + name@
                    + "` failed to initialize: "@ + source.message()@,
            },
    {
        match self {
            CoreError::SubsystemInit { name, source } => {
                let mut s = String::from_str("subsystem `");
                s.append(name.as_str());
                s.append("` failed to initialize: ");
                s.append(source.text());
                s
            },
        }
    }
}

} // verus!
