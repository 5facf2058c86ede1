//! The two session cells, one for sharing and one for listening: each holds
//! at most one running session.

use vstd::prelude::*;

verus! {

/// Why a session could not start.
#[derive(PartialEq, Eq, Structural, Debug, Clone, Copy)]
pub enum SessionError {
    /// A session of the same kind is already running.
    AlreadyRunning,
}

/// Holds the record of the one running session of a kind, if any; the
/// record owns every stop handle of that session's tasks.
pub struct SessionSlot<T> {
    running: Option<T>,
}

impl<T> View for SessionSlot<T> {
    type V = Option<T>;

    /// The running session, if any.
    closed spec fn view(&self) -> Option<T> {
        self.running
    }
}

impl<T> SessionSlot<T> {
    /// A slot with no session running.
    pub fn new() -> (s: Self)
        ensures
            s@ is None,
    {
        SessionSlot { running: None }
    }

    /// Whether a session is running.
    pub fn is_running(&self) -> (b: bool)
        ensures
            b == self@ is Some,
    {
        self.running.is_some()
    }

    /// Checks, before any start-up work, that a new session may start.
    pub fn check_vacant(&self) -> (r: Result<(), SessionError>)
        ensures
            r is Ok <==> self@ is None,
            r is Err ==> r == Err::<(), SessionError>(SessionError::AlreadyRunning),
    {
        if self.running.is_some() {
            Err(SessionError::AlreadyRunning)
        } else {
            Ok(())
        }
    }

    /// Records `session` as the running one. A slot that is taken refuses it
    /// and keeps the session it holds.
    pub fn install(&mut self, session: T) -> (r: Result<(), SessionError>)
        ensures
            old(self)@ is None ==> r is Ok && final(self)@ == Some(session),
            old(self)@ is Some ==> r == Err::<(), SessionError>(SessionError::AlreadyRunning)
                && final(self)@ == old(self)@,
    {
        if self.running.is_some() {
            Err(SessionError::AlreadyRunning)
        } else {
            self.running = Some(session);
            Ok(())
        }
    }

    /// Removes the running session, to be torn down by the caller. On an
    /// empty slot this does nothing and returns `None`, so stopping twice is
    /// the same as stopping once.
    pub fn take(&mut self) -> (r: Option<T>)
        ensures
            r == old(self)@,
            final(self)@ is None,
    {
        let mut r: Option<T> = None;
        std::mem::swap(&mut r, &mut self.running);
        r
    }
}

} // verus!
