//! The errors that requests are answered with.

use vstd::prelude::*;

verus! {

/// Why a request failed.
#[derive(Debug)]
pub enum AppError {
    /// The request is malformed.
    BadRequest(String),
    /// The request is not allowed.
    Forbidden(String),
    /// What was asked for does not exist.
    NotFound(String),
    /// The proxy itself failed.
    Internal(String),
    /// Talking to the upstream failed.
    Proxy(String),
    /// The upstream answered with an error.
    Upstream(String),
    /// A DASH manifest could not be used.
    Mpd(String),
    /// Telegram could not be used.
    Telegram(String),
    /// A protected segment could not be decrypted.
    Drm(String),
}

/// An error by its text.
pub enum AppErrorView {
    BadRequest(Seq<char>),
    Forbidden(Seq<char>),
    NotFound(Seq<char>),
    Internal(Seq<char>),
    Proxy(Seq<char>),
    Upstream(Seq<char>),
    Mpd(Seq<char>),
    Telegram(Seq<char>),
    Drm(Seq<char>),
}

impl View for AppError {
    type V = AppErrorView;

    open spec fn view(&self) -> AppErrorView {
        match self {
            AppError::BadRequest(m) => AppErrorView::BadRequest(m@),
            AppError::Forbidden(m) => AppErrorView::Forbidden(m@),
            AppError::NotFound(m) => AppErrorView::NotFound(m@),
            AppError::Internal(m) => AppErrorView::Internal(m@),
            AppError::Proxy(m) => AppErrorView::Proxy(m@),
            AppError::Upstream(m) => AppErrorView::Upstream(m@),
            AppError::Mpd(m) => AppErrorView::Mpd(m@),
            AppError::Telegram(m) => AppErrorView::Telegram(m@),
            AppError::Drm(m) => AppErrorView::Drm(m@),
        }
    }
}

/// What a fallible operation returns.
pub type AppResult<T> = Result<T, AppError>;

} // verus!
