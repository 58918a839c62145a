//! Servers by the ids of their connections, each with a handle by which it is shut down.

use vstd::prelude::*;

use crate::error::AppError;
use crate::error::ErrorView;
use crate::string_map::StringMap;

verus! {

/// The servers that run.
pub struct ServerManager<H> {
    handles: StringMap<H>,
}

impl<H> View for ServerManager<H> {
    type V = Map<Seq<char>, H>;

    closed spec fn view(&self) -> Map<Seq<char>, H> {
        self.handles@
    }
}

impl<H> ServerManager<H> {
    /// No server.
    pub fn new() -> (r: ServerManager<H>)
        ensures
            r@ == Map::<Seq<char>, H>::empty(),
    {
        ServerManager { handles: StringMap::new() }
    }

    /// Takes in a server; there is one at most for each id.
    pub fn register(&mut self, id: &str, handle: H) -> (r: Result<(), AppError>)
        ensures
            match r {
                Ok(_) => !old(self)@.contains_key(id@) && final(self)@ == old(self)@.insert(id@, handle),
                Err(e) => old(self)@.contains_key(id@) && e@ == ErrorView::ServerAlreadyRunning && final(self)@
                    == old(self)@,
            },
    {
        if self.handles.contains_key(id) {
            return Err(AppError::ServerAlreadyRunning);
        }
        self.handles.insert(id, handle);
        Ok(())
    }

    /// Takes a server out, and hands over the handle by which it is shut down.
    pub fn shutdown(&mut self, id: &str) -> (r: Result<H, AppError>)
        ensures
            match r {
                Ok(h) => old(self)@.contains_key(id@) && old(self)@[id@] == h,
                Err(e) => !old(self)@.contains_key(id@) && e@ == ErrorView::ServerNotFound,
            },
            final(self)@ == old(self)@.remove(id@),
    {
        match self.handles.remove(id) {
            Some(h) => Ok(h),
            None => Err(AppError::ServerNotFound),
        }
    }

    /// Whether a server runs under an id.
    pub fn is_running(&self, id: &str) -> (r: bool)
        ensures
            r == self@.contains_key(id@),
    {
        self.handles.contains_key(id)
    }
}

} // verus!
