use vstd::prelude::*;

verus! {

/// Errors that the embedding reports, over the type of their texts.
///
/// `Error` holds `String`s; `ErrorView`, its view, holds sequences of characters.
#[derive(Debug, PartialEq, Eq)]
pub enum ErrorOf<S> {
    /// The operation is not allowed in safe mode.
    SafetyError(S),
    /// The main state of this Lua instance is not known.
    MainThreadNotAvailable,
    /// The state does not allocate through the embedder, so no limit can be set.
    MemoryLimitNotAvailable,
    /// The registry key belongs to another main state.
    MismatchedRegistryKey,
    /// The callback (or the future behind it) has been destroyed.
    CallbackDestructed,
    /// A mutable callback was entered again while it was running.
    RecursiveMutCallback,
    /// The value is not a registered userdata.
    UserDataTypeMismatch,
    /// The userdata has been destroyed.
    UserDataDestructed,
    /// A Lua value could not be turned into a Rust value.
    FromLuaConversionError { from: S, to: S, message: Option<S> },
    /// A Rust value could not be turned into a Lua value.
    ToLuaConversionError { from: S, to: S, message: Option<S> },
    /// A metatable field holds a value of a type that Lua does not accept there.
    MetaMethodTypeError { method: S, kind_name: S, message: Option<S> },
    /// An error that the virtual machine or user code raised, kept by the embedder under a number.
    Foreign(u64),
}

/// An error with its texts as strings.
pub type Error = ErrorOf<String>;

/// An error with its texts as sequences of characters.
pub type ErrorView = ErrorOf<Seq<char>>;

/// The text in an optional message.
pub open spec fn message_view(message: Option<String>) -> Option<Seq<char>> {
    match message {
        Some(text) => Some(text@),
        None => None,
    }
}

impl View for ErrorOf<String> {
    type V = ErrorOf<Seq<char>>;

    open spec fn view(&self) -> ErrorOf<Seq<char>> {
        match *self {
            ErrorOf::SafetyError(text) => ErrorOf::SafetyError(text@),
            ErrorOf::MainThreadNotAvailable => ErrorOf::MainThreadNotAvailable,
            ErrorOf::MemoryLimitNotAvailable => ErrorOf::MemoryLimitNotAvailable,
            ErrorOf::MismatchedRegistryKey => ErrorOf::MismatchedRegistryKey,
            ErrorOf::CallbackDestructed => ErrorOf::CallbackDestructed,
            ErrorOf::RecursiveMutCallback => ErrorOf::RecursiveMutCallback,
            ErrorOf::UserDataTypeMismatch => ErrorOf::UserDataTypeMismatch,
            ErrorOf::UserDataDestructed => ErrorOf::UserDataDestructed,
            ErrorOf::FromLuaConversionError { from, to, message } => {
                ErrorOf::FromLuaConversionError {
                    from: from@,
                    to: to@,
                    message: message_view(message),
                }
            },
            ErrorOf::ToLuaConversionError { from, to, message } => {
                ErrorOf::ToLuaConversionError {
                    from: from@,
                    to: to@,
                    message: message_view(message),
                }
            },
            ErrorOf::MetaMethodTypeError { method, kind_name, message } => {
                ErrorOf::MetaMethodTypeError {
                    method: method@,
                    kind_name: kind_name@,
                    message: message_view(message),
                }
            },
            ErrorOf::Foreign(id) => ErrorOf::Foreign(id),
        }
    }
}

/// Outcome of an operation that can be refused, with the error by its view.
pub open spec fn refused<T>(r: Result<T, Error>, e: ErrorView) -> bool {
    match r {
        Ok(_) => false,
        Err(found) => found@ == e,
    }
}

/// An error stands for itself: its contents are those of the same error, with the texts that it holds.
pub proof fn law_error_contents(e: Error)
    ensures
        e matches ErrorOf::SafetyError(text) ==> e@ == ErrorView::SafetyError(text@),
        e is MainThreadNotAvailable ==> e@ == ErrorView::MainThreadNotAvailable,
        e is MemoryLimitNotAvailable ==> e@ == ErrorView::MemoryLimitNotAvailable,
        e is MismatchedRegistryKey ==> e@ == ErrorView::MismatchedRegistryKey,
        e is CallbackDestructed ==> e@ == ErrorView::CallbackDestructed,
        e is RecursiveMutCallback ==> e@ == ErrorView::RecursiveMutCallback,
        e is UserDataTypeMismatch ==> e@ == ErrorView::UserDataTypeMismatch,
        e is UserDataDestructed ==> e@ == ErrorView::UserDataDestructed,
        e matches ErrorOf::FromLuaConversionError { from, to, message } ==> e@
            == (ErrorView::FromLuaConversionError {
            from: from@,
            to: to@,
            message: message_view(message),
        }),
        e matches ErrorOf::ToLuaConversionError { from, to, message } ==> e@
            == (ErrorView::ToLuaConversionError {
            from: from@,
            to: to@,
            message: message_view(message),
        }),
        e matches ErrorOf::MetaMethodTypeError { method, kind_name, message } ==> e@
            == (ErrorView::MetaMethodTypeError {
            method: method@,
            kind_name: kind_name@,
            message: message_view(message),
        }),
        e matches ErrorOf::Foreign(id) ==> e@ == ErrorView::Foreign(id),
{
}

} // verus!
