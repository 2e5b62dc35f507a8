//! Ticket titles: text that is not empty and takes at most fifty bytes.
use vstd::prelude::*;
use vstd::std_specs::convert::TryFromSpecImpl;
use vstd::utf8::encode_utf8;

verus! {

/// The largest number of bytes a title may take in UTF-8.
pub const MAX_TITLE_BYTES: usize = 50;

/// Number of bytes that `text` takes in UTF-8.
pub open spec fn byte_len(text: Seq<char>) -> nat {
    encode_utf8(text).len()
}

/// Why a text was refused as a title.
#[derive(Clone, Copy, Debug, PartialEq, Eq, Structural)]
pub enum TicketTitleError {
    /// The text holds no byte at all.
    Empty,
    /// The text takes more than [`MAX_TITLE_BYTES`] bytes.
    TooLong,
}

/// What becomes of a text offered as a title: the text itself when it is
/// acceptable, the reason for the refusal otherwise.
pub open spec fn checked_title(text: Seq<char>) -> Result<Seq<char>, TicketTitleError> {
    if byte_len(text) > MAX_TITLE_BYTES {
        Err(TicketTitleError::TooLong)
    } else if byte_len(text) == 0 {
        Err(TicketTitleError::Empty)
    } else {
        Ok(text)
    }
}

impl TicketTitleError {
    /// The message shown for this error.
    pub open spec fn message(self) -> Seq<char> {
        match self {
            TicketTitleError::Empty => "The title cannot be empty"@,
            TicketTitleError::TooLong => "The title cannot be longer than 50 bytes"@,
        }
    }

    /// Renders the error as text.
    pub fn to_string(&self) -> (text: String)
        ensures
            text@ == self.message(),
    {
        match self {
            TicketTitleError::Empty => "The title cannot be empty".to_owned(),
            TicketTitleError::TooLong => "The title cannot be longer than 50 bytes".to_owned(),
        }
    }
}

/// A ticket title. Every value holds a text of one to fifty bytes.
#[derive(Debug, PartialEq)]
pub struct TicketTitle(String);

impl Clone for TicketTitle {
    fn clone(&self) -> (copy: Self)
        ensures
            copy@ == self@,
    {
        proof {
            use_type_invariant(self);
        }
        TicketTitle(self.0.clone())
    }
}

impl View for TicketTitle {
    type V = Seq<char>;

    closed spec fn view(&self) -> Seq<char> {
        self.0@
    }
}

impl TicketTitle {
    #[verifier::type_invariant]
    spec fn well_formed(self) -> bool {
        0 < byte_len(self.0@) <= MAX_TITLE_BYTES
    }

    /// The title's text.
    pub fn as_str(&self) -> (text: &str)
        ensures
            text@ == self@,
            0 < byte_len(text@) <= MAX_TITLE_BYTES,
            checked_title(text@) == Ok::<Seq<char>, TicketTitleError>(text@),
    {
        proof {
            use_type_invariant(self);
        }
        self.0.as_str()
    }

    /// Gives the text back, ending the title.
    pub fn into_string(self) -> (text: String)
        ensures
            text@ == self@,
            0 < byte_len(text@) <= MAX_TITLE_BYTES,
    {
        proof {
            use_type_invariant(&self);
        }
        self.0
    }
}

impl TryFrom<String> for TicketTitle {
    type Error = TicketTitleError;

    /// Accepts `value` as a title when it is neither empty nor longer than
    /// fifty bytes.
    fn try_from(value: String) -> (res: Result<Self, Self::Error>)
        ensures
            match checked_title(value@) {
                Ok(text) => res matches Ok(title) && title@ == text,
                Err(e) => res == Err::<Self, TicketTitleError>(e),
            },
    {
        let len: usize = value.as_str().as_bytes().len();
        if len > MAX_TITLE_BYTES {
            Err(TicketTitleError::TooLong)
        } else if len == 0 {
            Err(TicketTitleError::Empty)
        } else {
            Ok(TicketTitle(value))
        }
    }
}

/// In specifications, the conversion from a `String` is [`checked_title`]
/// with the title built around the text.
impl TryFromSpecImpl<String> for TicketTitle {
    open spec fn obeys_try_from_spec() -> bool {
        true
    }

    closed spec fn try_from_spec(v: String) -> Result<Self, TicketTitleError> {
        match checked_title(v@) {
            Ok(_) => Ok(TicketTitle(v)),
            Err(e) => Err(e),
        }
    }
}

impl TryFrom<&str> for TicketTitle {
    type Error = TicketTitleError;

    /// Accepts a copy of `value` as a title when it is neither empty nor
    /// longer than fifty bytes.
    fn try_from(value: &str) -> (res: Result<Self, Self::Error>)
        ensures
            match checked_title(value@) {
                Ok(text) => res matches Ok(title) && title@ == text,
                Err(e) => res == Err::<Self, TicketTitleError>(e),
            },
    {
        let len: usize = value.as_bytes().len();
        if len > MAX_TITLE_BYTES {
            Err(TicketTitleError::TooLong)
        } else if len == 0 {
            Err(TicketTitleError::Empty)
        } else {
            Ok(TicketTitle(value.to_owned()))
        }
    }
}

/// A borrowed text has no owned value to build a title around in
/// specifications: what the conversion returns is stated by the `ensures` of
/// `try_from` alone.
impl TryFromSpecImpl<&str> for TicketTitle {
    open spec fn obeys_try_from_spec() -> bool {
        false
    }

    closed spec fn try_from_spec(v: &str) -> Result<Self, TicketTitleError> {
        Err(TicketTitleError::Empty)
    }
}

} // verus!
