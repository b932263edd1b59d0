//! The application state and the rules by which scene snapshots enter it.
//!
//! The state carries values that the library does not look into: the node
//! graph as the editor wrote it and what the last evaluation gave. Their
//! type `V` is left to the caller.

use vstd::prelude::*;
use vstd::string::*;
use crate::scene::Scene;
use crate::scene_diff::{compare_scene_data, scenes_diff, SceneDiff};

verus! {

/// A value under a key.
#[derive(Clone, Debug)]
pub struct Entry<V> {
    pub key: String,
    pub value: V,
}

/// The state of the application.
#[derive(Clone, Debug)]
pub struct AppState<V> {
    pub ready: bool,
    pub connected: bool,
    /// Evaluation waits until a pending snapshot is accepted or rejected.
    pub execution_paused: bool,
    pub connected_application: String,
    pub connected_version: String,
    pub connected_file_name: String,
    /// The scenes, each under its own name.
    pub scene_data: Vec<Scene>,
    /// A fresh snapshot that waits for validation.
    pub pending_scene_data: Option<Vec<Scene>>,
    /// The node graph: its `nodes` and `edges`.
    pub rf_instance: Vec<Entry<V>>,
    /// What each node gave in the last evaluation, by node id.
    pub executed_results: Vec<Entry<V>>,
    /// What each node took in the last evaluation, by node id.
    pub executed_inputs: Vec<Entry<V>>,
}

/// What a project file holds.
#[derive(Clone, Debug)]
pub struct SavedProject<V> {
    pub scene_data: Vec<Scene>,
    pub rf_instance: Vec<Entry<V>>,
}

/// A push of the host: the scenes after a change.
#[derive(Clone, Debug)]
pub struct SceneUpdate {
    /// The kind of message; `scene_update` for a snapshot.
    pub kind: String,
    pub change_type: Option<String>,
    pub changed_data: Option<Vec<Scene>>,
    pub scene_data: Vec<Scene>,
}

/// Why a validation request could not be answered.
#[derive(Clone, Copy, Debug, PartialEq, Eq, Structural)]
pub enum ValidationError {
    /// Evaluation is not paused: no validation is under way.
    NotPaused,
    /// Evaluation was paused without a pending snapshot; it is resumed.
    NothingPending,
}

/// What the caller is to do after a validation step.
#[derive(Clone, Copy, Debug, PartialEq, Eq, Structural)]
pub enum FollowUp {
    /// Nothing.
    Stay,
    /// Evaluate the graph again.
    Resume,
}

/// The kind of message that carries a snapshot.
pub open spec fn scene_update_kind() -> Seq<char> {
    seq!['s', 'c', 'e', 'n', 'e', '_', 'u', 'p', 'd', 'a', 't', 'e']
}

impl<V> AppState<V> {
    /// The state at startup: nothing connected, nothing loaded.
    pub fn new() -> (state: Self)
        ensures
            !state.ready,
            !state.connected,
            !state.execution_paused,
            state.connected_application@.len() == 0,
            state.connected_version@.len() == 0,
            state.connected_file_name@.len() == 0,
            state.scene_data@.len() == 0,
            state.pending_scene_data is None,
            state.rf_instance@.len() == 0,
            state.executed_results@.len() == 0,
            state.executed_inputs@.len() == 0,
    {
        AppState {
            ready: false,
            connected: false,
            execution_paused: false,
            connected_application: String::new(),
            connected_version: String::new(),
            connected_file_name: String::new(),
            scene_data: Vec::new(),
            pending_scene_data: None,
            rf_instance: Vec::new(),
            executed_results: Vec::new(),
            executed_inputs: Vec::new(),
        }
    }

    /// A pending snapshot implies that evaluation is paused.
    pub open spec fn wf(&self) -> bool {
        self.pending_scene_data is Some ==> self.execution_paused
    }

    /// The observer is ready for state events.
    pub fn ready(&mut self)
        ensures
            final(self).ready,
            *final(self) == (AppState { ready: true, ..*old(self) }),
    {
        self.ready = true;
    }

    /// Takes a push of the host: a snapshot replaces the scenes; any other
    /// message changes nothing. Says whether the scenes were replaced.
    pub fn process_scene_update(&mut self, update: SceneUpdate) -> (replaced: bool)
        ensures
            replaced == (update.kind@ == scene_update_kind()),
            replaced ==> *final(self) == (AppState { scene_data: update.scene_data, ..*old(self) }),
            !replaced ==> *final(self) == *old(self),
    {
        let expected = scene_update_name();
        if update.kind == expected {
            self.scene_data = update.scene_data;
            true
        } else {
            false
        }
    }

    /// Ends a reconnect with the fresh snapshot of the host. Without
    /// differences the fresh snapshot becomes the scenes and the state is
    /// connected. With differences the state stays as it is: the
    /// difference is for the user to judge.
    pub fn reconnect_with_validation(&mut self, fresh: Vec<Scene>) -> (diff: SceneDiff)
        ensures
            diff@ == scenes_diff(old(self).scene_data@, fresh@, old(self).scene_data@.len() as int),
            diff@.has_changes() ==> *final(self) == *old(self),
            !diff@.has_changes() ==> *final(self) == (AppState {
                scene_data: fresh,
                connected: true,
                ..*old(self)
            }),
    {
        let diff = compare_scene_data(&self.scene_data, &fresh);
        if !diff.has_changes() {
            self.scene_data = fresh;
            self.connected = true;
        }
        diff
    }

    /// The difference between the scenes and the pending snapshot. While
    /// evaluation is not paused there is nothing to check. Paused without
    /// a pending snapshot, evaluation is resumed.
    pub fn check_scene_changes(&mut self) -> (r: (Result<SceneDiff, ValidationError>, FollowUp))
        ensures
            !old(self).execution_paused ==> r.0 is Err && r.0->Err_0 == ValidationError::NotPaused
                && r.1 == FollowUp::Stay && *final(self) == *old(self),
            old(self).execution_paused && old(self).pending_scene_data is None ==> r.0 is Err
                && r.0->Err_0 == ValidationError::NothingPending && r.1 == FollowUp::Resume
                && *final(self) == (AppState { execution_paused: false, ..*old(self) }),
            old(self).execution_paused && old(self).pending_scene_data is Some ==> r.0 is Ok
                && r.0->Ok_0@ == scenes_diff(
                old(self).scene_data@,
                old(self).pending_scene_data->0@,
                old(self).scene_data@.len() as int,
            ) && r.1 == FollowUp::Stay && *final(self) == *old(self),
    {
        if !self.execution_paused {
            return (Err(ValidationError::NotPaused), FollowUp::Stay);
        }
        match &self.pending_scene_data {
            Some(pending) => {
                let diff = compare_scene_data(&self.scene_data, pending);
                (Ok(diff), FollowUp::Stay)
            },
            None => {
                self.execution_paused = false;
                (Err(ValidationError::NothingPending), FollowUp::Resume)
            },
        }
    }

    /// Accepts the pending snapshot: it becomes the scenes, nothing is
    /// pending, and evaluation is resumed. Without a pending snapshot
    /// evaluation is resumed all the same.
    pub fn accept_scene_changes(&mut self) -> (r: (Result<(), ValidationError>, FollowUp))
        ensures
            r.1 == FollowUp::Resume,
            !final(self).execution_paused,
            final(self).pending_scene_data is None,
            final(self).wf(),
            match old(self).pending_scene_data {
                Some(pending) => r.0 is Ok && *final(self) == (AppState {
                    scene_data: pending,
                    pending_scene_data: None,
                    execution_paused: false,
                    ..*old(self)
                }),
                None => r.0 is Err && r.0->Err_0 == ValidationError::NothingPending && *final(self)
                    == (AppState { execution_paused: false, ..*old(self) }),
            },
    {
        let mut pending: Option<Vec<Scene>> = None;
        core::mem::swap(&mut self.pending_scene_data, &mut pending);
        self.execution_paused = false;
        match pending {
            Some(fresh) => {
                self.scene_data = fresh;
                (Ok(()), FollowUp::Resume)
            },
            None => (Err(ValidationError::NothingPending), FollowUp::Resume),
        }
    }

    /// Holds a fresh snapshot for validation: it is pending, and evaluation
    /// is paused. A snapshot that was pending before is replaced.
    pub fn hold_for_validation(&mut self, fresh: Vec<Scene>)
        ensures
            *final(self) == (AppState {
                pending_scene_data: Some(fresh),
                execution_paused: true,
                ..*old(self)
            }),
            final(self).wf(),
    {
        self.pending_scene_data = Some(fresh);
        self.execution_paused = true;
    }

    /// Rejects the pending snapshot: nothing is pending, and evaluation
    /// stays as it is.
    pub fn reject_scene_changes(&mut self)
        ensures
            *final(self) == (AppState { pending_scene_data: None, ..*old(self) }),
            final(self).wf(),
    {
        self.pending_scene_data = None;
    }

    /// Loads a project: its scenes and its graph replace those of the
    /// state, what the last evaluation left is dropped, and a connected
    /// state pauses evaluation until the scenes are validated.
    pub fn load_project(&mut self, saved: SavedProject<V>)
        ensures
            final(self).scene_data == saved.scene_data,
            final(self).rf_instance == saved.rf_instance,
            final(self).executed_results@.len() == 0,
            final(self).executed_inputs@.len() == 0,
            final(self).execution_paused == (old(self).execution_paused || old(self).connected),
            final(self).ready == old(self).ready,
            final(self).connected == old(self).connected,
            final(self).connected_application == old(self).connected_application,
            final(self).connected_version == old(self).connected_version,
            final(self).connected_file_name == old(self).connected_file_name,
            final(self).pending_scene_data == old(self).pending_scene_data,
            old(self).wf() ==> final(self).wf(),
    {
        self.scene_data = saved.scene_data;
        self.rf_instance = saved.rf_instance;
        if self.connected {
            self.execution_paused = true;
        }
        self.executed_results = Vec::new();
        self.executed_inputs = Vec::new();
    }

    /// What a project file is to hold of the state: its scenes and its
    /// graph.
    pub fn save_project(&self) -> (r: (&Vec<Scene>, &Vec<Entry<V>>))
        ensures
            *r.0 == self.scene_data,
            *r.1 == self.rf_instance,
    {
        (&self.scene_data, &self.rf_instance)
    }

    /// Stores what an evaluation gave.
    pub fn store_execution(&mut self, results: Vec<Entry<V>>, inputs: Vec<Entry<V>>)
        ensures
            *final(self) == (AppState {
                executed_results: results,
                executed_inputs: inputs,
                ..*old(self)
            }),
    {
        self.executed_results = results;
        self.executed_inputs = inputs;
    }
}

impl<V> Default for AppState<V> {
    fn default() -> (state: Self)
        ensures
            !state.ready,
            !state.connected,
            !state.execution_paused,
            state.scene_data@.len() == 0,
            state.pending_scene_data is None,
            state.rf_instance@.len() == 0,
            state.executed_results@.len() == 0,
            state.executed_inputs@.len() == 0,
    {
        AppState::new()
    }
}

/// The kind of message that carries a snapshot, as text.
pub fn scene_update_name() -> (name: String)
    ensures
        name@ == scene_update_kind(),
{
    let name = String::from_str("scene_update");
    proof {
        reveal_strlit("scene_update");
        assert(name@ =~= scene_update_kind());
    }
    name
}

} // verus!
