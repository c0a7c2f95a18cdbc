//! The failures that the engine reports, and the text of each.

use vstd::prelude::*;

verus! {

/// A failure of one of the engine's operations.
#[derive(Debug, Clone, PartialEq, Eq)]
pub enum Error {
    /// The directory or path given is not usable; the message says which.
    InvalidInput(String),
    /// The file could not be opened; `retries` attempts were made and
    /// `reason` is what the last one reported.
    NotFound { retries: u32, reason: String },
    /// The file's content is not audio that can be decoded.
    DecodeError(String),
    /// No output device or sink could be had.
    DeviceError(String),
    /// The file system refused an operation.
    IoError(String),
    /// The favorites document is malformed.
    SerializationError(String),
}

/// An [`Error`] with its messages as sequences of characters.
pub enum ErrorView {
    InvalidInput(Seq<char>),
    NotFound { retries: u32, reason: Seq<char> },
    DecodeError(Seq<char>),
    DeviceError(Seq<char>),
    IoError(Seq<char>),
    SerializationError(Seq<char>),
}

impl View for Error {
    type V = ErrorView;

    open spec fn view(&self) -> ErrorView {
        match *self {
            Error::InvalidInput(m) => ErrorView::InvalidInput(m@),
            Error::NotFound { retries, reason } => ErrorView::NotFound { retries, reason: reason@ },
            Error::DecodeError(m) => ErrorView::DecodeError(m@),
            Error::DeviceError(m) => ErrorView::DeviceError(m@),
            Error::IoError(m) => ErrorView::IoError(m@),
            Error::SerializationError(m) => ErrorView::SerializationError(m@),
        }
    }
}

/// The character of a decimal digit.
pub open spec fn digit(d: nat) -> char
    recommends
        d < 10,
{
    (('0' as u32) + d) as char
}

/// The decimal numeral of `n`, without leading zeros.
pub open spec fn decimal(n: nat) -> Seq<char>
    decreases n,
{
    if n < 10 {
        seq![digit(n)]
    } else {
        decimal(n / 10).push(digit(n % 10))
    }
}

/// The text of a failure.
pub open spec fn message_of(e: ErrorView) -> Seq<char> {
    match e {
        ErrorView::InvalidInput(m) => m,
        ErrorView::NotFound { retries, reason } => "Failed to open file after "@ + decimal(
            retries as nat,
        ) + " retries: "@ + reason,
        ErrorView::DecodeError(m) => "デコーダーエラー: "@ + m,
        ErrorView::DeviceError(m) => m,
        ErrorView::IoError(m) => m,
        ErrorView::SerializationError(m) => m,
    }
}

fn digit_text(d: u32) -> (r: &'static str)
    requires
        d < 10,
    ensures
        r@ == seq![digit(d as nat)],
{
    proof {
        reveal_strlit("0");
        reveal_strlit("1");
        reveal_strlit("2");
        reveal_strlit("3");
        reveal_strlit("4");
        reveal_strlit("5");
        reveal_strlit("6");
        reveal_strlit("7");
        reveal_strlit("8");
        reveal_strlit("9");
    }
    let r = if d == 0 {
        "0"
    } else if d == 1 {
        "1"
    } else if d == 2 {
        "2"
    } else if d == 3 {
        "3"
    } else if d == 4 {
        "4"
    } else if d == 5 {
        "5"
    } else if d == 6 {
        "6"
    } else if d == 7 {
        "7"
    } else if d == 8 {
        "8"
    } else {
        "9"
    };
    assert(r@ =~= seq![digit(d as nat)]);
    r
}

/// The decimal numeral of `n`.
pub fn decimal_text(n: u32) -> (r: String)
    ensures
        r@ == decimal(n as nat),
    decreases n,
{
    if n < 10 {
        digit_text(n).to_owned()
    } else {
        let mut r = decimal_text(n / 10);
        r.append(digit_text(n % 10));
        assert(r@ =~= decimal(n as nat / 10).push(digit(n as nat % 10)));
        r
    }
}

impl Error {
    /// The text of the failure, as it is shown.
    pub fn message(&self) -> (r: String)
        ensures
            r@ == message_of(self@),
    {
        match self {
            Error::InvalidInput(m) => m.clone(),
            Error::NotFound { retries, reason } => {
                let mut r = "Failed to open file after ".to_owned();
                r.append(decimal_text(*retries).as_str());
                r.append(" retries: ");
                r.append(reason.as_str());
                r
            },
            Error::DecodeError(m) => {
                let mut r = "デコーダーエラー: ".to_owned();
                r.append(m.as_str());
                r
            },
            Error::DeviceError(m) => m.clone(),
            Error::IoError(m) => m.clone(),
            Error::SerializationError(m) => m.clone(),
        }
    }
}

} // verus!
