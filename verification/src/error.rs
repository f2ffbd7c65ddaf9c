//! The application-level error taxonomy: configuration, audio, and runtime
//! failures, each with its process exit code.
use vstd::prelude::*;

verus! {

#[derive(Debug, Copy, Clone, PartialEq, Eq, Structural)]
pub enum AppErrorKind {
    Config,
    Audio,
    Runtime,
}

#[derive(Debug)]
pub struct AppError {
    pub kind: AppErrorKind,
    pub message: String,
}

impl AppError {
    /// A fatal configuration error (exit code 2).
    pub fn config(message: String) -> (r: AppError)
        ensures
            r.kind == AppErrorKind::Config,
            r.message == message,
    {
        AppError { kind: AppErrorKind::Config, message }
    }

    /// A device or stream failure (exit code 3 when fatal).
    pub fn audio(message: String) -> (r: AppError)
        ensures
            r.kind == AppErrorKind::Audio,
            r.message == message,
    {
        AppError { kind: AppErrorKind::Audio, message }
    }

    /// A runtime failure (exit code 1 when fatal).
    pub fn runtime(message: String) -> (r: AppError)
        ensures
            r.kind == AppErrorKind::Runtime,
            r.message == message,
    {
        AppError { kind: AppErrorKind::Runtime, message }
    }

    /// The process exit code for this kind of error.
    pub fn exit_code(&self) -> (r: i32)
        ensures
            r == match self.kind {
                AppErrorKind::Config => 2i32,
                AppErrorKind::Audio => 3i32,
                AppErrorKind::Runtime => 1i32,
            },
    {
        match self.kind {
            AppErrorKind::Config => 2,
            AppErrorKind::Audio => 3,
            AppErrorKind::Runtime => 1,
        }
    }

    /// The message, for display.
    pub fn message_str(&self) -> (r: &str)
        ensures
            r@ == self.message@,
    {
        self.message.as_str()
    }
}

} // verus!
