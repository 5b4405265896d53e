//! The sessions of the host.

use std::collections::HashMap;
use vstd::prelude::*;
use vstd::std_specs::iter::IteratorSpec;

use crate::error::FluxError;
use crate::ids::{is_random_id, random_id};
use crate::server::pipeline::StreamingPipeline;
use crate::types::{Resolution, VideoCodec};

verus! {

broadcast use vstd::std_specs::hash::group_hash_axioms;

/// A session as it was settled.
#[derive(Debug)]
pub struct SessionParams {
    pub client_name: String,
    pub codec: VideoCodec,
    pub resolution: Resolution,
    pub fps: u32,
    pub video_bitrate_kbps: u32,
    pub audio_bitrate_kbps: u32,
    pub enable_input: bool,
}

/// A session.
#[derive(Debug)]
struct Session {
    params: SessionParams,
    pipeline: Option<StreamingPipeline>,
}

impl Session {
    fn new(params: SessionParams) -> (result: Result<Self, FluxError>)
        ensures
            result matches Ok(session) && session.params == params && (session.pipeline matches Some(
                pipeline,
            ) && pipeline.is_running()),
    {
        let pipeline: StreamingPipeline = StreamingPipeline::new(&params)?;
        Ok(Session { params, pipeline: Some(pipeline) })
    }

    fn stop(&mut self) -> (result: Result<(), FluxError>)
        ensures
            result is Ok,
            final(self).pipeline is None,
            final(self).params == old(self).params,
    {
        if let Some(pipeline) = self.pipeline.take() {
            pipeline.stop()?;
        }
        Ok(())
    }
}

/// The sessions of the host, by their identifiers.
pub struct SessionManager {
    sessions: HashMap<u128, Session>,
}

impl View for SessionManager {
    type V = Map<u128, SessionParams>;

    closed spec fn view(&self) -> Map<u128, SessionParams> {
        self.sessions@.map_values(|session: Session| session.params)
    }
}

impl SessionManager {
    /// Every session has a pipeline that runs.
    pub closed spec fn wf(self) -> bool {
        forall|id: u128| #[trigger]
            self.sessions@.contains_key(id) ==> (self.sessions@[id].pipeline matches Some(pipeline)
                && pipeline.is_running())
    }

    /// No sessions.
    pub fn new() -> (manager: Self)
        ensures
            manager.wf(),
            manager@ == Map::<u128, SessionParams>::empty(),
    {
        let manager = SessionManager { sessions: HashMap::new() };
        assert(manager@ =~= Map::<u128, SessionParams>::empty());
        manager
    }

    /// Starts a session under a fresh identifier.
    pub fn create_session(&mut self, params: SessionParams) -> (result: Result<u128, FluxError>)
        requires
            old(self).wf(),
        ensures
            final(self).wf(),
            result matches Ok(id) && is_random_id(id) && final(self)@ == old(self)@.insert(
                id,
                params,
            ),
    {
        let id: u128 = random_id();
        self.start_session(id, params)?;
        Ok(id)
    }

    /// Starts a session under a given identifier.
    pub fn start_session(&mut self, id: u128, params: SessionParams) -> (result: Result<(), FluxError>)
        requires
            old(self).wf(),
        ensures
            final(self).wf(),
            result is Ok,
            final(self)@ == old(self)@.insert(id, params),
    {
        let session: Session = Session::new(params)?;
        self.sessions.insert(id, session);
        assert(self@ =~= old(self)@.insert(id, params));
        Ok(())
    }

    /// Stops a session; one that is not there is left at that.
    pub fn destroy_session(&mut self, session_id: &u128) -> (result: Result<(), FluxError>)
        requires
            old(self).wf(),
        ensures
            final(self).wf(),
            result is Ok,
            final(self)@ == old(self)@.remove(*session_id),
    {
        let removed: Option<Session> = self.sessions.remove(session_id);
        assert(self@ =~= old(self)@.remove(*session_id));
        if let Some(session) = removed {
            let mut session: Session = session;
            session.stop()?;
        }
        Ok(())
    }

    /// The number of sessions.
    pub fn active_count(&self) -> (count: usize)
        ensures
            count == self@.dom().len(),
    {
        assert(self@.dom() =~= self.sessions@.dom());
        self.sessions.len()
    }

    /// Stops all sessions.
    pub fn shutdown_all(&mut self)
        requires
            old(self).wf(),
        ensures
            final(self).wf(),
            final(self)@ == Map::<u128, SessionParams>::empty(),
    {
        broadcast use vstd::std_specs::hash::group_hash_axioms;

        let mut ids: Vec<u128> = Vec::new();
        for id in iter: self.sessions.keys()
            invariant
                ids@.len() == iter.index(),
                forall|j: int| 0 <= j < ids@.len() ==> #[trigger] ids@[j] == *iter.seq()[j],
        {
            ids.push(*id);
        }
        let ghost all = self@;
        assert forall|id: u128| all.contains_key(id) implies #[trigger] ids@.contains(id) by {
            let keys = vstd::std_specs::hash::spec_keys_iter(&self.sessions).remaining();
            assert(self.sessions@.contains_key(id));
            assert(keys.unref().to_set().contains(id));
            let j = choose|j: int| 0 <= j < keys.unref().len() && keys.unref()[j] == id;
            assert(ids@[j] == id);
        }
        for i in 0..ids.len()
            invariant
                self.wf(),
                forall|id: u128| all.contains_key(id) ==> #[trigger] ids@.contains(id),
                forall|id: u128| #[trigger]
                    self@.contains_key(id) ==> all.contains_key(id) && !ids@.take(
                        i as int,
                    ).contains(id),
        {
            let ghost before = self@;
            let _ = self.destroy_session(&ids[i]);
            assert forall|id: u128| #[trigger] self@.contains_key(id) implies all.contains_key(id)
                && !ids@.take(i + 1).contains(id) by {
                assert(before.contains_key(id));
                if ids@.take(i + 1).contains(id) {
                    let taken = ids@.take(i + 1);
                    let j = choose|j: int| 0 <= j < taken.len() && #[trigger] taken[j] == id;
                    assert(ids@.take(i as int)[j] == id);
                }
            }
        }
        assert(ids@.take(ids@.len() as int) =~= ids@);
        assert(self@ =~= Map::<u128, SessionParams>::empty());
    }
}

} // verus!
