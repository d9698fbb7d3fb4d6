//! Ending sessions.

use vstd::prelude::*;

use crate::application::ApplicationLayer;
use crate::context::{lemma_without_session_wf, session_view, Context, ContextView};
use crate::result::SessionHandle;

verus! {

impl<App: ApplicationLayer> ContextView<App> {
    /// The context after the application has ended a session. One that has ended already stays
    /// so.
    pub open spec fn closed(self, session: SessionHandle) -> Self {
        if self.session(session.index as int) is Some {
            self.without_session(session.index)
        } else {
            self
        }
    }
}

impl<App: ApplicationLayer> Context<App> {
    /// Ends a session. It no longer sends, receives, or is serviced, and the remote peer is not
    /// told.
    pub fn close(&mut self, session: SessionHandle)
        requires
            old(self)@.wf(),
        ensures
            final(self)@ == old(self)@.closed(session),
            final(self)@.session(session.index as int) is None,
            final(self)@.wf(),
    {
        let i: usize = session.index;
        if i >= self.0.sessions.len() {
            return;
        }
        let ghost before = self@;
        assert(before.sessions[i as int] == session_view(self.0.sessions@[i as int]));
        if self.0.sessions[i].is_none() {
            return;
        }
        let s = self.take_session(i);
        self.0.session_map.remove_kids(&s.zeta);
        self.0.session_queue.remove(i);
        proof {
            lemma_without_session_wf(before, i);
        }
    }
}

} // verus!
