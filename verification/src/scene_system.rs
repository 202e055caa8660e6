//! Scenes as the navigation layer sees them.
//!
//! A scene lives in the host's asset storage; here it is a handle (`u64`)
//! together with the way it is spawned.  The scene registry binds scene
//! paths to scenes, each path at most once.

use vstd::prelude::*;
use crate::strcoll::StrMap;

verus! {

/// Lifecycle of a scene that spawns in one step.
#[derive(Clone, Copy, Debug, PartialEq, Eq, Structural)]
pub enum InstantSpawnState {
    Loaded,
    Unloading,
}

/// How a spawned page is brought into and out of the world.
#[derive(Clone, Copy, Debug, PartialEq, Eq, Structural)]
pub enum SpawnState {
    Instant(InstantSpawnState),
}

impl Default for SpawnState {
    fn default() -> (r: Self)
        ensures
            r == SpawnState::Instant(InstantSpawnState::Loaded),
    {
        SpawnState::Instant(InstantSpawnState::Loaded)
    }
}

/// A spawnable scene: a handle into the host's scene assets, its spawn
/// state, and whether it is a plain or a UI scene, static or dynamic.
#[derive(Clone, Copy, Debug, PartialEq, Eq, Structural)]
pub enum GenericScene {
    Scene(u64, SpawnState),
    DynamicScene(u64, SpawnState),
    UiScene(u64, SpawnState),
    DynamicUiScene(u64, SpawnState),
}

impl GenericScene {
    pub open spec fn spec_handle(self) -> u64 {
        match self {
            GenericScene::Scene(h, _) => h,
            GenericScene::DynamicScene(h, _) => h,
            GenericScene::UiScene(h, _) => h,
            GenericScene::DynamicUiScene(h, _) => h,
        }
    }

    pub open spec fn spec_state(self) -> SpawnState {
        match self {
            GenericScene::Scene(_, s) => s,
            GenericScene::DynamicScene(_, s) => s,
            GenericScene::UiScene(_, s) => s,
            GenericScene::DynamicUiScene(_, s) => s,
        }
    }

    /// UI scenes are spawned under a full-size node that ignores picking.
    pub open spec fn spec_is_ui(self) -> bool {
        match self {
            GenericScene::UiScene(_, _) => true,
            GenericScene::DynamicUiScene(_, _) => true,
            _ => false,
        }
    }

    pub fn handle(&self) -> (r: u64)
        ensures
            r == self.spec_handle(),
    {
        match self {
            GenericScene::Scene(h, _) => *h,
            GenericScene::DynamicScene(h, _) => *h,
            GenericScene::UiScene(h, _) => *h,
            GenericScene::DynamicUiScene(h, _) => *h,
        }
    }

    pub fn state(&self) -> (r: SpawnState)
        ensures
            r == self.spec_state(),
    {
        match self {
            GenericScene::Scene(_, s) => *s,
            GenericScene::DynamicScene(_, s) => *s,
            GenericScene::UiScene(_, s) => *s,
            GenericScene::DynamicUiScene(_, s) => *s,
        }
    }

    pub fn is_ui(&self) -> (r: bool)
        ensures
            r == self.spec_is_ui(),
    {
        match self {
            GenericScene::UiScene(_, _) => true,
            GenericScene::DynamicUiScene(_, _) => true,
            _ => false,
        }
    }
}

/// The registry of named scenes that pages are looked up in.
pub struct SceneMap {
    pub scenes: StrMap<GenericScene>,
}

impl SceneMap {
    pub open spec fn wf(self) -> bool {
        self.scenes.wf()
    }

    pub fn new() -> (r: Self)
        ensures
            r.wf(),
            r.scenes@ == Map::<Seq<char>, GenericScene>::empty(),
    {
        SceneMap { scenes: StrMap::new() }
    }

    /// Binds `path` to `scene`.  A path already bound keeps its old scene
    /// and the call reports failure, as scene creators expect.
    pub fn register(&mut self, path: String, scene: GenericScene) -> (r: bool)
        requires
            old(self).wf(),
        ensures
            final(self).wf(),
            r == !old(self).scenes@.contains_key(path@),
            r ==> final(self).scenes@ == old(self).scenes@.insert(path@, scene),
            !r ==> *final(self) == *old(self),
    {
        if self.scenes.contains_key(&path) {
            false
        } else {
            self.scenes.insert(path, scene);
            true
        }
    }

    pub fn get<'a>(&'a self, path: &String) -> (r: Option<&'a GenericScene>)
        requires
            self.wf(),
        ensures
            match r {
                Some(s) => self.scenes@.contains_key(path@) && *s == self.scenes@[path@],
                None => !self.scenes@.contains_key(path@),
            },
    {
        self.scenes.get(path)
    }
}

impl Default for SceneMap {
    fn default() -> (r: Self)
        ensures
            r.wf(),
            r.scenes@ == Map::<Seq<char>, GenericScene>::empty(),
    {
        SceneMap::new()
    }
}

} // verus!
