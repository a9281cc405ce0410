//! How a feature (an extrusion or a revolution) is linked to the sketch
//! profile it was built from: its name, the body it builds, the source
//! sketch, the key of the profile in that sketch's topology, and whether
//! the profile is still valid. The profile's coordinates and the feature's
//! dimensions live with the geometry in the application.

use vstd::prelude::*;

use std::collections::HashMap;

use crate::ids::{BodyId, SketchId};
use crate::schema::{inverts, lookup_file_id, lookup_slot_id, FileId, ProjectIoError, RefKind};
use crate::topology::{position_of_key, ProfileKey};

verus! {

/// Which operation a feature performs.
#[derive(Clone, Copy, Debug, PartialEq, Eq, Structural)]
pub enum FeatureKind {
    Extrude,
    Revolve,
}

impl FeatureKind {
    /// The operation's name as shown in the feature tree.
    pub fn kind_name(self) -> (s: &'static str)
        ensures
            self == FeatureKind::Extrude ==> s@ == "Extrude"@,
            self == FeatureKind::Revolve ==> s@ == "Revolve"@,
    {
        match self {
            FeatureKind::Extrude => "Extrude",
            FeatureKind::Revolve => "Revolve",
        }
    }
}

/// What a feature link means.
pub ghost struct FeatureLinkView {
    pub kind: FeatureKind,
    pub name: Seq<char>,
    pub body: BodyId,
    pub source_sketch: Option<SketchId>,
    pub profile_key: Option<Seq<crate::topology::ProfileSpanKey>>,
    pub profile_valid: bool,
}

/// The link between a feature and its source profile.
#[derive(Clone, Debug)]
pub struct FeatureLink {
    kind: FeatureKind,
    name: String,
    body: BodyId,
    source_sketch: Option<SketchId>,
    profile_key: Option<ProfileKey>,
    profile_valid: bool,
}

/// The spans of an optional key.
pub open spec fn key_spans(key: Option<ProfileKey>) -> Option<Seq<crate::topology::ProfileSpanKey>> {
    match key {
        Some(k) => Some(k.spans@),
        None => None,
    }
}

impl View for FeatureLink {
    type V = FeatureLinkView;

    closed spec fn view(&self) -> FeatureLinkView {
        FeatureLinkView {
            kind: self.kind,
            name: self.name@,
            body: self.body,
            source_sketch: self.source_sketch,
            profile_key: key_spans(self.profile_key),
            profile_valid: self.profile_valid,
        }
    }
}

impl FeatureLink {
    /// A new feature of `kind` named `name` that builds `body` from a
    /// profile of `source_sketch` (none when the profile was not found in
    /// the sketch's topology). It has no profile key yet and its profile is
    /// valid.
    pub fn new(kind: FeatureKind, name: String, body: BodyId, source_sketch: Option<SketchId>) -> (f: Self)
        ensures
            f@.kind == kind,
            f@.name == name@,
            f@.body == body,
            f@.source_sketch == source_sketch,
            f@.profile_key is None,
            f@.profile_valid,
    {
        FeatureLink { kind, name, body, source_sketch, profile_key: None, profile_valid: true }
    }

    pub fn kind(&self) -> (k: FeatureKind)
        ensures
            k == self@.kind,
    {
        self.kind
    }

    /// The operation's name as shown in the feature tree.
    pub fn kind_name(&self) -> (s: &'static str)
        ensures
            self@.kind == FeatureKind::Extrude ==> s@ == "Extrude"@,
            self@.kind == FeatureKind::Revolve ==> s@ == "Revolve"@,
    {
        self.kind.kind_name()
    }

    pub fn name(&self) -> (s: &str)
        ensures
            s@ == self@.name,
    {
        self.name.as_str()
    }

    pub fn body(&self) -> (b: BodyId)
        ensures
            b == self@.body,
    {
        self.body
    }

    pub fn source_sketch(&self) -> (s: Option<SketchId>)
        ensures
            s == self@.source_sketch,
    {
        self.source_sketch
    }

    pub fn profile_key(&self) -> (k: Option<&ProfileKey>)
        ensures
            key_spans(match k {
                Some(r) => Some(*r),
                None => None,
            }) == self@.profile_key,
    {
        match &self.profile_key {
            Some(k) => Some(k),
            None => None,
        }
    }

    pub fn is_profile_valid(&self) -> (v: bool)
        ensures
            v == self@.profile_valid,
    {
        self.profile_valid
    }

    /// Unlinks the feature from `sketch` when it was built from it: the
    /// source and the profile key are dropped and the profile, now held as
    /// a fixed copy, counts as valid. A feature of another sketch is left
    /// alone.
    pub fn clear_source_sketch_if_matches(&mut self, sketch: SketchId)
        ensures
            old(self)@.source_sketch == Some(sketch) ==> final(self)@ == (FeatureLinkView {
                source_sketch: None,
                profile_key: None,
                profile_valid: true,
                ..old(self)@
            }),
            old(self)@.source_sketch != Some(sketch) ==> final(self)@ == old(self)@,
    {
        if self.source_sketch == Some(sketch) {
            self.source_sketch = None;
            self.profile_key = None;
            self.profile_valid = true;
        }
    }

    /// Records the profile key found for the feature. A linked feature's
    /// profile is valid exactly when a key was found; an unlinked feature's
    /// profile is always valid.
    pub fn attach_profile_key(&mut self, key: Option<ProfileKey>)
        ensures
            final(self)@ == (FeatureLinkView {
                profile_key: key_spans(key),
                profile_valid: old(self)@.source_sketch is None || key is Some,
                ..old(self)@
            }),
    {
        let is_linked = self.source_sketch.is_some();
        let is_valid = !is_linked || key.is_some();
        self.profile_key = key;
        self.profile_valid = is_valid;
    }

    /// Finds the feature's profile again after its sketch changed, among
    /// the keys of the sketch's current profiles, and gives the position
    /// of the profile to rebuild from. Without a key, or when no current
    /// profile has the key, the profile becomes invalid and the result is
    /// `None`.
    pub fn rebuild_from_keys(&mut self, keys: &[ProfileKey]) -> (r: Option<usize>)
        ensures
            final(self)@ == (FeatureLinkView { profile_valid: r is Some, ..old(self)@ }),
            old(self)@.profile_key is None ==> r is None,
            old(self)@.profile_key matches Some(spans) ==> match r {
                Some(i) => i < keys@.len() && keys@[i as int].spans@ == spans && forall|k: int|
                    0 <= k < i ==> #[trigger] keys@[k].spans@ != spans,
                None => forall|k: int| 0 <= k < keys@.len() ==> #[trigger] keys@[k].spans@ != spans,
            },
    {
        let found = match &self.profile_key {
            Some(key) => position_of_key(keys, key),
            None => None,
        };
        self.profile_valid = found.is_some();
        found
    }
}

/// The slot that file id `id` names under `m`, or the missing-reference
/// error of `kind`.
pub open spec fn slot_of(m: Map<FileId, u64>, id: FileId, kind: RefKind) -> Result<u64, ProjectIoError> {
    if m.contains_key(id) {
        Ok(m[id])
    } else {
        Err(ProjectIoError::MissingReference { kind, id })
    }
}

/// The file id of slot `slot` under `m`, or the dangling-reference error
/// of `kind`.
pub open spec fn file_id_of(m: Map<u64, FileId>, slot: u64, kind: RefKind) -> Result<FileId, ProjectIoError> {
    if m.contains_key(slot) {
        Ok(m[slot])
    } else {
        Err(ProjectIoError::DanglingReference { kind })
    }
}

impl FeatureLink {
    /// A feature read from a project file: its body and optional source
    /// sketch are named by file id and resolved through the tables of the
    /// bodies and sketches read before it. The body is resolved first.
    pub fn from_file_refs(
        kind: FeatureKind,
        name: String,
        body: FileId,
        source_sketch: Option<FileId>,
        body_ids: &HashMap<FileId, u64>,
        sketch_ids: &HashMap<FileId, u64>,
    ) -> (r: Result<FeatureLink, ProjectIoError>)
        ensures
            slot_of(body_ids@, body, RefKind::Body) matches Err(e) ==> r == Err::<FeatureLink, ProjectIoError>(e),
            slot_of(body_ids@, body, RefKind::Body) is Ok ==> match source_sketch {
                None => r matches Ok(f) && f@ == (FeatureLinkView {
                    kind,
                    name: name@,
                    body: BodyId(slot_of(body_ids@, body, RefKind::Body)->Ok_0),
                    source_sketch: None,
                    profile_key: None,
                    profile_valid: true,
                }),
                Some(s) => match slot_of(sketch_ids@, s, RefKind::SourceSketch) {
                    Ok(slot) => r matches Ok(f) && f@ == (FeatureLinkView {
                        kind,
                        name: name@,
                        body: BodyId(slot_of(body_ids@, body, RefKind::Body)->Ok_0),
                        source_sketch: Some(SketchId(slot)),
                        profile_key: None,
                        profile_valid: true,
                    }),
                    Err(e) => r == Err::<FeatureLink, ProjectIoError>(e),
                },
            },
    {
        let body_slot = match lookup_slot_id(body_ids, body, RefKind::Body) {
            Ok(slot) => slot,
            Err(e) => return Err(e),
        };
        let source = match source_sketch {
            None => None,
            Some(s) => match lookup_slot_id(sketch_ids, s, RefKind::SourceSketch) {
                Ok(slot) => Some(SketchId(slot)),
                Err(e) => return Err(e),
            },
        };
        Ok(FeatureLink::new(kind, name, BodyId(body_slot), source))
    }

    /// The file ids of the feature's body and source sketch, for writing it
    /// to a project file. The body is looked up first.
    pub fn file_refs(&self, body_ids: &HashMap<u64, FileId>, sketch_ids: &HashMap<u64, FileId>) -> (r: Result<
        (FileId, Option<FileId>),
        ProjectIoError,
    >)
        ensures
            file_id_of(body_ids@, self@.body.0, RefKind::Body) matches Err(e) ==> r == Err::<
                (FileId, Option<FileId>),
                ProjectIoError,
            >(e),
            file_id_of(body_ids@, self@.body.0, RefKind::Body) matches Ok(b) ==> match self@.source_sketch {
                None => r == Ok::<(FileId, Option<FileId>), ProjectIoError>((b, None)),
                Some(s) => match file_id_of(sketch_ids@, s.0, RefKind::SourceSketch) {
                    Ok(f) => r == Ok::<(FileId, Option<FileId>), ProjectIoError>((b, Some(f))),
                    Err(e) => r == Err::<(FileId, Option<FileId>), ProjectIoError>(e),
                },
            },
    {
        let body = match lookup_file_id(body_ids, self.body.0, RefKind::Body) {
            Ok(id) => id,
            Err(e) => return Err(e),
        };
        match self.source_sketch {
            None => Ok((body, None)),
            Some(s) => match lookup_file_id(sketch_ids, s.0, RefKind::SourceSketch) {
                Ok(id) => Ok((body, Some(id))),
                Err(e) => Err(e),
            },
        }
    }
}

/// A feature's references written with `file_refs` resolve, through tables
/// that invert the ones they were written with, to the same body and
/// source sketch, so `from_file_refs` rebuilds the link it came from.
pub proof fn lemma_feature_refs_round_trip(
    body: BodyId,
    source: Option<SketchId>,
    fwd_bodies: Map<u64, FileId>,
    bwd_bodies: Map<FileId, u64>,
    fwd_sketches: Map<u64, FileId>,
    bwd_sketches: Map<FileId, u64>,
)
    requires
        inverts(fwd_bodies, bwd_bodies),
        inverts(fwd_sketches, bwd_sketches),
        file_id_of(fwd_bodies, body.0, RefKind::Body) is Ok,
        source matches Some(s) ==> file_id_of(fwd_sketches, s.0, RefKind::SourceSketch) is Ok,
    ensures
        slot_of(bwd_bodies, file_id_of(fwd_bodies, body.0, RefKind::Body)->Ok_0, RefKind::Body) == Ok::<
            u64,
            ProjectIoError,
        >(body.0),
        source matches Some(s) ==> slot_of(
            bwd_sketches,
            file_id_of(fwd_sketches, s.0, RefKind::SourceSketch)->Ok_0,
            RefKind::SourceSketch,
        ) == Ok::<u64, ProjectIoError>(s.0),
{
    assert(fwd_bodies.contains_key(body.0));
    if let Some(s) = source {
        assert(fwd_sketches.contains_key(s.0));
    }
}

/// Whether `body` is the body of some feature linked to `sketch`.
pub open spec fn linked_body(features: Seq<(BodyId, Option<SketchId>)>, sketch: SketchId, body: BodyId) -> bool {
    exists|i: int| 0 <= i < features.len() && #[trigger] features[i] == (body, Some(sketch))
}

/// The bodies whose features are linked to `sketch`, each once, given each
/// feature's body and source sketch. Changing or unlinking the sketch
/// changes these bodies' meshes.
pub fn bodies_linked_to(features: &[(BodyId, Option<SketchId>)], sketch: SketchId) -> (r: Vec<BodyId>)
    ensures
        r@.no_duplicates(),
        forall|body: BodyId| r@.contains(body) <==> linked_body(features@, sketch, body),
{
    let mut r: Vec<BodyId> = Vec::new();
    let mut i: usize = 0;
    while i < features.len()
        invariant
            i <= features@.len(),
            r@.no_duplicates(),
            forall|body: BodyId| r@.contains(body) <==> linked_body(features@.take(i as int), sketch, body),
        decreases features@.len() - i,
    {
        let (body, source) = features[i];
        let ghost before = r@;
        let ghost prefix = features@.take(i as int);
        let ghost next = features@.take(i + 1);
        proof {
            assert(next =~= prefix.push(features@[i as int]));
        }
        if source == Some(sketch) {
            let mut seen = false;
            let mut j: usize = 0;
            while j < r.len()
                invariant
                    j <= r@.len(),
                    !seen ==> forall|k: int| 0 <= k < j ==> r@[k] != body,
                    seen ==> r@.contains(body),
                decreases r@.len() - j,
            {
                if r[j] == body {
                    seen = true;
                }
                j = j + 1;
            }
            if !seen {
                r.push(body);
                proof {
                    assert forall|a: int, b: int|
                        0 <= a < r@.len() && 0 <= b < r@.len() && a != b implies #[trigger] r@[a]
                        != #[trigger] r@[b] by {
                        if a < before.len() && b < before.len() {
                            assert(before[a] != before[b]);
                        }
                    }
                    assert(r@[r@.len() - 1] == body);
                }
            }
            assert(r@.contains(body));
        }
        proof {
            assert(source == Some(sketch) ==> r@.contains(body));
            assert forall|b: BodyId| r@.contains(b) <==> linked_body(next, sketch, b) by {
                if linked_body(next, sketch, b) {
                    let k = choose|k: int| 0 <= k < next.len() && #[trigger] next[k] == (b, Some(sketch));
                    if k < i {
                        assert(prefix[k] == next[k]);
                        assert(linked_body(prefix, sketch, b));
                        assert(before.contains(b));
                        let p = choose|p: int| 0 <= p < before.len() && before[p] == b;
                        assert(r@[p] == b);
                    } else {
                        assert(r@.contains(body));
                    }
                }
                if r@.contains(b) {
                    let p = choose|p: int| 0 <= p < r@.len() && r@[p] == b;
                    if p < before.len() {
                        assert(before[p] == b);
                        assert(before.contains(b));
                        assert(linked_body(prefix, sketch, b));
                        let k = choose|k: int| 0 <= k < prefix.len() && #[trigger] prefix[k] == (b, Some(sketch));
                        assert(next[k] == prefix[k]);
                    } else {
                        assert(next[i as int] == (b, Some(sketch)));
                    }
                }
            }
        }
        i = i + 1;
    }
    proof {
        assert(features@.take(features@.len() as int) =~= features@);
    }
    r
}

} // verus!
