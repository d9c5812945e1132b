//! The crate's error type: a kind, a message, and an optional chained cause.

use vstd::prelude::*;

verus! {

/// What part of the system an error came from.
#[derive(Copy, Clone, Debug, PartialEq, Eq, Structural)]
pub enum ErrorKind {
    Udix,
    VarError,
    Io,
    Toml,
    Utf8,
    ParseInt,
    SystemTime,
}

/// An error with a kind, a human-readable message, and an optional cause.
#[derive(Debug)]
pub struct Error {
    kind: ErrorKind,
    message: String,
    source: Option<Box<Error>>,
}

/// The display name of an error kind.
pub open spec fn kind_str(kind: ErrorKind) -> Seq<char> {
    match kind {
        ErrorKind::Udix => seq!['U', 'd', 'i', 'x'],
        ErrorKind::VarError => seq!['V', 'a', 'r', 'E', 'r', 'r', 'o', 'r'],
        ErrorKind::Io => seq!['I', 'o'],
        ErrorKind::Toml => seq!['T', 'o', 'm', 'l'],
        ErrorKind::Utf8 => seq!['U', 't', 'f', '8'],
        ErrorKind::ParseInt => seq!['P', 'a', 'r', 's', 'e', 'I', 'n', 't'],
        ErrorKind::SystemTime => seq!['S', 'y', 's', 't', 'e', 'm', 'T', 'i', 'm', 'e'],
    }
}

/// The full report of an error: its message and kind, then the report of its
/// cause, if any.
pub open spec fn report_str(e: Error) -> Seq<char>
    decreases e,
{
    let head = e.message_spec() + seq![' ', '('] + kind_str(e.kind_spec()) + seq![')'];
    match e.source_spec() {
        None => head,
        Some(source) => head + seq![':', ' '] + report_str(source),
    }
}

impl Error {
    /// The kind of this error.
    pub closed spec fn kind_spec(&self) -> ErrorKind {
        self.kind
    }

    /// The message of this error.
    pub closed spec fn message_spec(&self) -> Seq<char> {
        self.message@
    }

    /// The chained cause of this error, if any.
    pub closed spec fn source_spec(&self) -> Option<Error> {
        match self.source {
            None => None,
            Some(boxed) => Some(*boxed),
        }
    }

    pub fn new(kind: ErrorKind, message: String, source: Option<Box<Error>>) -> (e: Error)
        ensures
            e.kind_spec() == kind,
            e.message_spec() == message@,
            match source {
                None => e.source_spec() is None,
                Some(boxed) => e.source_spec() == Some(*boxed),
            },
    {
        Error { kind, message, source }
    }

    /// Renders the error, its kind, and the chain of its causes.
    pub fn report(&self) -> (r: String)
        ensures
            r@ == report_str(*self),
        decreases *self,
    {
        proof {
            reveal_strlit(" (");
            reveal_strlit(")");
            reveal_strlit(": ");
        }
        let head = self.message.clone().concat(" (").concat(kind_text(self.kind)).concat(")");
        proof {
            assert(head@ =~= self.message@ + seq![' ', '('] + kind_str(self.kind) + seq![')']);
        }
        match &self.source {
            None => head,
            Some(source) => {
                let tail = source.report();
                let r = head.concat(": ").concat(tail.as_str());
                proof {
                    assert(r@ =~= report_str(*self));
                }
                r
            },
        }
    }
}

/// The display name of an error kind.
pub fn kind_text(kind: ErrorKind) -> (r: &'static str)
    ensures
        r@ == kind_str(kind),
{
    proof {
        reveal_strlit("Udix");
        reveal_strlit("VarError");
        reveal_strlit("Io");
        reveal_strlit("Toml");
        reveal_strlit("Utf8");
        reveal_strlit("ParseInt");
        reveal_strlit("SystemTime");
    }
    let r = match kind {
        ErrorKind::Udix => "Udix",
        ErrorKind::VarError => "VarError",
        ErrorKind::Io => "Io",
        ErrorKind::Toml => "Toml",
        ErrorKind::Utf8 => "Utf8",
        ErrorKind::ParseInt => "ParseInt",
        ErrorKind::SystemTime => "SystemTime",
    };
    proof {
        assert(r@ =~= kind_str(kind));
    }
    r
}

impl From<String> for Error {
    /// A plain message becomes an error of the crate's own kind.
    fn from(message: String) -> (e: Error) {
        Error { kind: ErrorKind::Udix, message, source: None }
    }
}

impl vstd::std_specs::convert::FromSpecImpl<String> for Error {
    open spec fn obeys_from_spec() -> bool {
        true
    }

    closed spec fn from_spec(message: String) -> Error {
        Error { kind: ErrorKind::Udix, message, source: None }
    }
}

/// What `Error::from` makes of a plain message: an error of the crate's own
/// kind, with no cause.
pub proof fn lemma_error_from_string(message: String)
    ensures
        ({
            let e = <Error as vstd::std_specs::convert::FromSpec<String>>::from_spec(message);
            e.kind_spec() == ErrorKind::Udix && e.message_spec() == message@ && e.source_spec()
                is None
        }),
{
}

impl<'a> From<&'a str> for Error {
    /// A plain message becomes an error of the crate's own kind.
    fn from(message: &'a str) -> (e: Error) {
        Error { kind: ErrorKind::Udix, message: String::from_str(message), source: None }
    }
}

impl<'a> vstd::std_specs::convert::FromSpecImpl<&'a str> for Error {
    open spec fn obeys_from_spec() -> bool {
        false
    }

    closed spec fn from_spec(message: &'a str) -> Error {
        arbitrary()
    }
}

} // verus!
