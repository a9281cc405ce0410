//! Solid bodies: a name, the ordered features that build the body, and a
//! mesh revision that render caches compare against.

use std::collections::HashMap;

use vstd::prelude::*;

use crate::ids::FeatureId;
use crate::schema::{lookup_file_id, lookup_slot_id, FileId, ProjectIoError, RefKind};

verus! {

/// A solid body built from an ordered list of features.
#[derive(Debug, Clone)]
pub struct Body {
    pub name: String,
    pub features: Vec<FeatureId>,
    mesh_revision: u64,
}

/// One more revision, stopping at the largest representable value.
pub open spec fn next_revision(r: u64) -> u64 {
    if r == u64::MAX {
        r
    } else {
        (r + 1) as u64
    }
}

/// The revision after `n` bumps starting from `r`.
pub open spec fn bumped(r: u64, n: nat) -> u64
    decreases n,
{
    if n == 0 {
        r
    } else {
        next_revision(bumped(r, (n - 1) as nat))
    }
}

/// What a body means: its name, its features in order, and its mesh
/// revision.
pub ghost struct BodyView {
    pub name: Seq<char>,
    pub features: Seq<FeatureId>,
    pub revision: u64,
}

impl View for Body {
    type V = BodyView;

    closed spec fn view(&self) -> BodyView {
        BodyView { name: self.name@, features: self.features@, revision: self.mesh_revision }
    }
}

impl Body {
    pub fn new(name: String) -> (b: Self)
        ensures
            b@.name == name@,
            b@.features == Seq::<FeatureId>::empty(),
            b@.revision == 0,
    {
        Body { name, features: Vec::new(), mesh_revision: 0 }
    }

    /// Appends `feature` and marks the mesh as changed.
    pub fn push_feature(&mut self, feature: FeatureId)
        ensures
            final(self)@.name == old(self)@.name,
            final(self)@.features == old(self)@.features.push(feature),
            final(self)@.revision == next_revision(old(self)@.revision),
    {
        self.features.push(feature);
        self.bump_mesh_revision();
    }

    pub fn feature_count(&self) -> (n: usize)
        ensures
            n == self@.features.len(),
    {
        self.features.len()
    }

    pub fn mesh_revision(&self) -> (r: u64)
        ensures
            r == self@.revision,
    {
        self.mesh_revision
    }

    /// Whether `feature` builds the body.
    pub fn has_feature(&self, feature: FeatureId) -> (r: bool)
        ensures
            r == self@.features.contains(feature),
    {
        let mut i: usize = 0;
        while i < self.features.len()
            invariant
                i <= self.features@.len(),
                forall|j: int| 0 <= j < i ==> self.features@[j] != feature,
            decreases self.features@.len() - i,
        {
            if self.features[i] == feature {
                return true;
            }
            i = i + 1;
        }
        false
    }

    /// Marks the mesh as changed; the revision never wraps around.
    pub fn bump_mesh_revision(&mut self)
        ensures
            final(self)@.name == old(self)@.name,
            final(self)@.features == old(self)@.features,
            final(self)@.revision == next_revision(old(self)@.revision),
    {
        self.mesh_revision = self.mesh_revision.saturating_add(1);
    }

    /// Resolves the body's feature references from a project file and
    /// appends them in file order. Stops at the first reference that names
    /// no feature; the features resolved before it stay appended.
    pub fn attach_feature_refs(&mut self, refs: &[FileId], feature_ids: &HashMap<FileId, u64>) -> (r:
        Result<(), ProjectIoError>)
        ensures
            final(self)@.name == old(self)@.name,
            match r {
                Ok(()) => {
                    &&& forall|k: int| 0 <= k < refs@.len() ==> feature_ids@.contains_key(#[trigger] refs@[k])
                    &&& final(self)@.features == old(self)@.features + resolved_features(refs@, feature_ids@)
                    &&& final(self)@.revision == bumped(old(self)@.revision, refs@.len())
                },
                Err(e) => exists|k: int|
                    0 <= k < refs@.len()
                    && !feature_ids@.contains_key(#[trigger] refs@[k])
                    && (forall|j: int| 0 <= j < k ==> feature_ids@.contains_key(#[trigger] refs@[j]))
                    && e == (ProjectIoError::MissingReference { kind: RefKind::Feature, id: refs@[k] })
                    && final(self)@.features == old(self)@.features + resolved_features(
                        refs@.subrange(0, k),
                        feature_ids@,
                    ),
            },
    {
        let ghost start = self.features@;
        let ghost start_revision = self.mesh_revision;
        let mut i: usize = 0;
        while i < refs.len()
            invariant
                i <= refs@.len(),
                self@.name == old(self)@.name,
                start == old(self)@.features,
                start_revision == old(self)@.revision,
                forall|j: int| 0 <= j < i ==> feature_ids@.contains_key(#[trigger] refs@[j]),
                self.features@ == start + resolved_features(refs@.subrange(0, i as int), feature_ids@),
                self.mesh_revision == bumped(start_revision, i as nat),
            decreases refs@.len() - i,
        {
            let slot = match lookup_slot_id(feature_ids, refs[i], RefKind::Feature) {
                Ok(slot) => slot,
                Err(e) => {
                    proof {
                        assert(!feature_ids@.contains_key(refs@[i as int]));
                    }
                    return Err(e);
                },
            };
            self.push_feature(FeatureId(slot));
            proof {
                assert(refs@.subrange(0, i + 1) =~= refs@.subrange(0, i as int).push(refs@[i as int]));
                assert(resolved_features(refs@.subrange(0, i + 1), feature_ids@) =~= resolved_features(
                    refs@.subrange(0, i as int),
                    feature_ids@,
                ).push(FeatureId(slot)));
            }
            i = i + 1;
        }
        proof {
            assert(refs@.subrange(0, refs@.len() as int) =~= refs@);
        }
        Ok(())
    }
}

/// The features named by `refs` under the table `m`, in order.
pub open spec fn resolved_features(refs: Seq<FileId>, m: Map<FileId, u64>) -> Seq<FeatureId> {
    refs.map_values(|r: FileId| FeatureId(m[r]))
}

/// A body as written in a project file, naming its features by file id.
#[derive(Debug, Clone)]
pub struct BodyFile {
    pub id: FileId,
    pub name: String,
    pub features: Vec<FileId>,
}

/// The file ids of `features` under `m`, in order.
pub open spec fn feature_file_ids(features: Seq<FeatureId>, m: Map<u64, FileId>) -> Seq<FileId> {
    features.map_values(|f: FeatureId| m[f.0])
}

/// Writes `body` in file form with file id `id`, naming each feature by its
/// file id. Fails on the first feature that has no file id.
pub fn body_to_file(id: FileId, body: &Body, feature_ids: &HashMap<u64, FileId>) -> (r: Result<
    BodyFile,
    ProjectIoError,
>)
    ensures
        match r {
            Ok(file) => {
                &&& file.id == id
                &&& file.name@ == body@.name
                &&& forall|k: int| 0 <= k < body@.features.len() ==> feature_ids@.contains_key(
                    #[trigger] body@.features[k].0,
                )
                &&& file.features@ == feature_file_ids(body@.features, feature_ids@)
            },
            Err(e) => {
                &&& e == ProjectIoError::DanglingReference { kind: RefKind::Feature }
                &&& exists|k: int| 0 <= k < body@.features.len() && !feature_ids@.contains_key(
                    #[trigger] body@.features[k].0,
                )
            },
        },
{
    let mut features: Vec<FileId> = Vec::new();
    let mut i: usize = 0;
    while i < body.features.len()
        invariant
            i <= body.features@.len(),
            forall|j: int| 0 <= j < i ==> feature_ids@.contains_key(#[trigger] body.features@[j].0),
            features@ == feature_file_ids(body.features@.subrange(0, i as int), feature_ids@),
        decreases body.features@.len() - i,
    {
        let file_id = match lookup_file_id(feature_ids, body.features[i].0, RefKind::Feature) {
            Ok(file_id) => file_id,
            Err(e) => {
                proof {
                    assert(!feature_ids@.contains_key(body@.features[i as int].0));
                }
                return Err(e);
            },
        };
        features.push(file_id);
        proof {
            assert(body.features@.subrange(0, i + 1) =~= body.features@.subrange(0, i as int).push(
                body.features@[i as int],
            ));
            assert(features@ =~= feature_file_ids(body.features@.subrange(0, i + 1), feature_ids@));
        }
        i = i + 1;
    }
    proof {
        assert(body.features@.subrange(0, body.features@.len() as int) =~= body.features@);
    }
    Ok(BodyFile { id, name: body.name.clone(), features })
}

} // verus!
