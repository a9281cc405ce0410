//! Reference resolution for versioned project files. In a project file every
//! object carries a small numeric file id; in memory it carries a slot id.
//! This module builds the id tables between the two, converts constraint and
//! body records in both directions, and reports dangling, missing and
//! duplicate references.

use std::collections::HashMap;

use vstd::prelude::*;

use crate::constraint::{Constraint, EntityPoint};
use crate::ids::SketchEntityId;
use crate::text::{decimal_digits, decimal_string};

verus! {

/// The project-file schema version this library reads and writes.
pub const CURRENT_SCHEMA_VERSION: u32 = 1;

/// Identifier of an object inside one project file.
pub type FileId = u64;

/// The kind of object an id refers to, named in errors.
#[derive(Clone, Copy, Debug, PartialEq, Eq, Hash, Structural)]
pub enum RefKind {
    Workplane,
    Sketch,
    SketchEntity,
    SketchDimension,
    Constraint,
    Body,
    Feature,
    ActiveSketch,
    SourceSketch,
    EntityPoint,
}

impl RefKind {
    /// The lower-case phrase used for this kind in messages.
    pub fn label(self) -> (s: &'static str)
        ensures
            self == RefKind::Workplane ==> s@ == "workplane"@,
            self == RefKind::Sketch ==> s@ == "sketch"@,
            self == RefKind::SketchEntity ==> s@ == "sketch entity"@,
            self == RefKind::SketchDimension ==> s@ == "sketch dimension"@,
            self == RefKind::Constraint ==> s@ == "constraint"@,
            self == RefKind::Body ==> s@ == "body"@,
            self == RefKind::Feature ==> s@ == "feature"@,
            self == RefKind::ActiveSketch ==> s@ == "active sketch"@,
            self == RefKind::SourceSketch ==> s@ == "source sketch"@,
            self == RefKind::EntityPoint ==> s@ == "entity point"@,
    {
        match self {
            RefKind::Workplane => "workplane",
            RefKind::Sketch => "sketch",
            RefKind::SketchEntity => "sketch entity",
            RefKind::SketchDimension => "sketch dimension",
            RefKind::Constraint => "constraint",
            RefKind::Body => "body",
            RefKind::Feature => "feature",
            RefKind::ActiveSketch => "active sketch",
            RefKind::SourceSketch => "source sketch",
            RefKind::EntityPoint => "entity point",
        }
    }
}

/// Why a project could not be written to or read from its file form.
#[derive(Clone, Copy, Debug, PartialEq, Eq, Structural)]
pub enum ProjectIoError {
    /// The file declares a schema version this library does not read.
    UnsupportedSchemaVersion { found: u32, expected: u32 },
    /// Two objects of one kind carry the same file id.
    DuplicateId { kind: RefKind, id: u64 },
    /// A file id refers to no object of the expected kind.
    MissingReference { kind: RefKind, id: u64 },
    /// An in-memory object refers to a slot that has no file id.
    DanglingReference { kind: RefKind },
    /// The object has no representation in the file schema.
    Unrepresentable { kind: RefKind },
}

impl ProjectIoError {
    pub fn unsupported_schema(found: u32) -> (e: Self)
        ensures
            e == (ProjectIoError::UnsupportedSchemaVersion {
                found,
                expected: CURRENT_SCHEMA_VERSION,
            }),
    {
        ProjectIoError::UnsupportedSchemaVersion { found, expected: CURRENT_SCHEMA_VERSION }
    }
}

impl RefKind {
    pub open spec fn spec_label(self) -> Seq<char> {
        match self {
            RefKind::Workplane => "workplane"@,
            RefKind::Sketch => "sketch"@,
            RefKind::SketchEntity => "sketch entity"@,
            RefKind::SketchDimension => "sketch dimension"@,
            RefKind::Constraint => "constraint"@,
            RefKind::Body => "body"@,
            RefKind::Feature => "feature"@,
            RefKind::ActiveSketch => "active sketch"@,
            RefKind::SourceSketch => "source sketch"@,
            RefKind::EntityPoint => "entity point"@,
        }
    }
}

impl ProjectIoError {
    /// The user-facing text of the error.
    pub open spec fn spec_message(self) -> Seq<char> {
        match self {
            ProjectIoError::UnsupportedSchemaVersion { found, expected } => "unsupported project schema version "@
                + decimal_digits(found as nat) + "; expected "@ + decimal_digits(expected as nat),
            ProjectIoError::DuplicateId { kind, id } => "project file contains a duplicate "@
                + kind.spec_label() + " id "@ + decimal_digits(id as nat),
            ProjectIoError::MissingReference { kind, id } => "project file references missing "@
                + kind.spec_label() + " id "@ + decimal_digits(id as nat),
            ProjectIoError::DanglingReference { kind } => "project contains a dangling "@
                + kind.spec_label() + " reference"@,
            ProjectIoError::Unrepresentable { kind } => "project contains a "@ + kind.spec_label()
                + " the file format cannot hold"@,
        }
    }

    /// The user-facing text of the error, naming the kind of object and
    /// the offending id or version numbers.
    pub fn message(&self) -> (s: String)
        ensures
            s@ == self.spec_message(),
    {
        match *self {
            ProjectIoError::UnsupportedSchemaVersion { found, expected } => {
                let mut s = "unsupported project schema version ".to_owned();
                s.append(decimal_string(found as u64).as_str());
                s.append("; expected ");
                s.append(decimal_string(expected as u64).as_str());
                s
            },
            ProjectIoError::DuplicateId { kind, id } => {
                let mut s = "project file contains a duplicate ".to_owned();
                s.append(kind.label());
                s.append(" id ");
                s.append(decimal_string(id).as_str());
                s
            },
            ProjectIoError::MissingReference { kind, id } => {
                let mut s = "project file references missing ".to_owned();
                s.append(kind.label());
                s.append(" id ");
                s.append(decimal_string(id).as_str());
                s
            },
            ProjectIoError::DanglingReference { kind } => {
                let mut s = "project contains a dangling ".to_owned();
                s.append(kind.label());
                s.append(" reference");
                s
            },
            ProjectIoError::Unrepresentable { kind } => {
                let mut s = "project contains a ".to_owned();
                s.append(kind.label());
                s.append(" the file format cannot hold");
                s
            },
        }
    }
}

/// Accepts exactly the current schema version.
pub fn check_schema_version(found: u32) -> (r: Result<(), ProjectIoError>)
    ensures
        found == CURRENT_SCHEMA_VERSION ==> r is Ok,
        found != CURRENT_SCHEMA_VERSION ==> r == Err::<(), ProjectIoError>(
            ProjectIoError::unsupported_schema_spec(found),
        ),
{
    if found != CURRENT_SCHEMA_VERSION {
        return Err(ProjectIoError::unsupported_schema(found));
    }
    Ok(())
}

impl ProjectIoError {
    pub open spec fn unsupported_schema_spec(found: u32) -> Self {
        ProjectIoError::UnsupportedSchemaVersion { found, expected: CURRENT_SCHEMA_VERSION }
    }
}

/// Numbers the slot keys 1, 2, 3, ... in iteration order, giving the table
/// from slot key to file id.
pub fn file_ids(keys: &[u64]) -> (ids: HashMap<u64, FileId>)
    ensures
        ids@.dom() == keys@.to_set(),
        forall|i: int|
            0 <= i < keys@.len() && (forall|j: int| i < j < keys@.len() ==> keys@[j] != keys@[i])
                ==> #[trigger] ids@[keys@[i]] == i + 1,
{
    let mut ids: HashMap<u64, FileId> = HashMap::new();
    let mut i: usize = 0;
    while i < keys.len()
        invariant
            i <= keys@.len(),
            ids@.dom() == keys@.subrange(0, i as int).to_set(),
            forall|k: int|
                0 <= k < i && (forall|j: int| k < j < i ==> keys@[j] != keys@[k])
                    ==> #[trigger] ids@[keys@[k]] == k + 1,
        decreases keys@.len() - i,
    {
        let ghost before = ids@;
        ids.insert(keys[i], (i as u64) + 1);
        proof {
            let prefix = keys@.subrange(0, i as int);
            let next = keys@.subrange(0, i + 1);
            assert(next =~= prefix.push(keys@[i as int]));
            assert(ids@.dom() =~= next.to_set()) by {
                assert forall|x: u64| ids@.dom().contains(x) <==> next.to_set().contains(x) by {
                    if next.contains(x) && x != keys@[i as int] {
                        let k = choose|k: int| 0 <= k < next.len() && next[k] == x;
                        assert(prefix[k] == x);
                    }
                    if prefix.contains(x) {
                        let k = choose|k: int| 0 <= k < prefix.len() && prefix[k] == x;
                        assert(next[k] == x);
                    }
                    if x == keys@[i as int] {
                        assert(next[i as int] == x);
                    }
                }
            }
            assert forall|k: int|
                0 <= k < i + 1 && (forall|j: int| k < j < i + 1 ==> keys@[j] != keys@[k])
                    implies #[trigger] ids@[keys@[k]] == k + 1 by {
                if k < i {
                    assert(keys@[i as int] != keys@[k]);
                }
            }
        }
        i = i + 1;
    }
    proof {
        assert(keys@.subrange(0, keys@.len() as int) =~= keys@);
    }
    ids
}

/// The file id of slot `key`, or a dangling-reference error of `kind`.
pub fn lookup_file_id(ids: &HashMap<u64, FileId>, key: u64, kind: RefKind) -> (r: Result<
    FileId,
    ProjectIoError,
>)
    ensures
        ids@.contains_key(key) ==> r == Ok::<FileId, ProjectIoError>(ids@[key]),
        !ids@.contains_key(key) ==> r == Err::<FileId, ProjectIoError>(
            ProjectIoError::DanglingReference { kind },
        ),
{
    match ids.get(&key) {
        Some(id) => Ok(*id),
        None => Err(ProjectIoError::DanglingReference { kind }),
    }
}

/// The slot of file id `id`, or a missing-reference error naming `kind`
/// and `id`.
pub fn lookup_slot_id(ids: &HashMap<FileId, u64>, id: FileId, kind: RefKind) -> (r: Result<
    u64,
    ProjectIoError,
>)
    ensures
        ids@.contains_key(id) ==> r == Ok::<u64, ProjectIoError>(ids@[id]),
        !ids@.contains_key(id) ==> r == Err::<u64, ProjectIoError>(
            ProjectIoError::MissingReference { kind, id },
        ),
{
    match ids.get(&id) {
        Some(slot) => Ok(*slot),
        None => Err(ProjectIoError::MissingReference { kind, id }),
    }
}

/// Records that file id `file_id` names slot `slot_id`. The table always
/// takes the new entry; the result is an error when the file id was
/// already taken.
pub fn insert_file_id(
    ids: &mut HashMap<FileId, u64>,
    file_id: FileId,
    slot_id: u64,
    kind: RefKind,
) -> (r: Result<u64, ProjectIoError>)
    ensures
        final(ids)@ == old(ids)@.insert(file_id, slot_id),
        !old(ids)@.contains_key(file_id) ==> r == Ok::<u64, ProjectIoError>(slot_id),
        old(ids)@.contains_key(file_id) ==> r == Err::<u64, ProjectIoError>(
            ProjectIoError::DuplicateId { kind, id: file_id },
        ),
{
    if ids.insert(file_id, slot_id).is_some() {
        return Err(ProjectIoError::DuplicateId { kind, id: file_id });
    }
    Ok(slot_id)
}

/// Entry `j` carries a file id that an earlier entry already carried.
pub open spec fn repeats_earlier(ids: Seq<FileId>, j: int) -> bool {
    exists|k: int| 0 <= k < j && ids[k] == ids[j]
}

/// Registers the objects of one kind read from a file, in file order:
/// entry `i` has file id `file_ids[i]` and was stored in slot `slots[i]`.
/// Fails on the first entry whose file id an earlier entry already took;
/// otherwise gives the table from file id to slot.
pub fn register_file_ids(file_ids: &[FileId], slots: &[u64], kind: RefKind) -> (r: Result<
    HashMap<FileId, u64>,
    ProjectIoError,
>)
    requires
        slots@.len() == file_ids@.len(),
    ensures
        r is Ok <==> file_ids@.no_duplicates(),
        r matches Ok(m) ==> m@.dom() == file_ids@.to_set() && forall|i: int|
            0 <= i < file_ids@.len() ==> #[trigger] m@[file_ids@[i]] == slots@[i],
        r matches Err(e) ==> exists|j: int|
            0 <= j < file_ids@.len() && repeats_earlier(file_ids@, j) && (forall|k: int|
                0 <= k < j ==> !#[trigger] repeats_earlier(file_ids@, k)) && e
                == (ProjectIoError::DuplicateId { kind, id: file_ids@[j] }),
{
    let mut ids: HashMap<FileId, u64> = HashMap::new();
    let mut i: usize = 0;
    while i < file_ids.len()
        invariant
            slots@.len() == file_ids@.len(),
            i <= file_ids@.len(),
            file_ids@.take(i as int).no_duplicates(),
            ids@.dom() == file_ids@.take(i as int).to_set(),
            forall|k: int| 0 <= k < i ==> #[trigger] ids@[file_ids@[k]] == slots@[k],
            forall|k: int| 0 <= k < i ==> !#[trigger] repeats_earlier(file_ids@, k),
        decreases file_ids@.len() - i,
    {
        let ghost before = ids@;
        let ghost prefix = file_ids@.take(i as int);
        let id = file_ids[i];
        proof {
            assert(file_ids@.take(i + 1) =~= prefix.push(id));
            prefix.lemma_push_to_set_commute(id);
        }
        let r = insert_file_id(&mut ids, id, slots[i], kind);
        if r.is_err() {
            proof {
                assert(prefix.to_set().contains(id));
                assert(prefix.contains(id));
                let k = choose|k: int| 0 <= k < prefix.len() && prefix[k] == id;
                assert(file_ids@[k] == file_ids@[i as int]);
                assert(repeats_earlier(file_ids@, i as int));
                assert(!file_ids@.no_duplicates()) by {
                    assert(file_ids@[k] == file_ids@[i as int] && k != i);
                }
            }
            return Err(ProjectIoError::DuplicateId { kind, id });
        }
        proof {
            assert(!prefix.contains(id)) by {
                if prefix.contains(id) {
                    let k = choose|k: int| 0 <= k < prefix.len() && prefix[k] == id;
                    assert(prefix.to_set().contains(id));
                }
            }
            assert(!repeats_earlier(file_ids@, i as int)) by {
                if repeats_earlier(file_ids@, i as int) {
                    let k = choose|k: int| 0 <= k < i && file_ids@[k] == file_ids@[i as int];
                    assert(prefix[k] == id);
                }
            }
            let next = file_ids@.take(i + 1);
            assert forall|a: int, b: int|
                0 <= a < next.len() && 0 <= b < next.len() && a != b implies #[trigger] next[a]
                != #[trigger] next[b] by {
                if b == i {
                    assert(prefix[a] == file_ids@[a]);
                } else if a == i {
                    assert(prefix[b] == file_ids@[b]);
                } else {
                    assert(prefix[a] != prefix[b]);
                }
            }
            assert forall|k: int| 0 <= k < i + 1 implies #[trigger] ids@[file_ids@[k]] == slots@[k] by {
                if k < i {
                    assert(prefix[k] == file_ids@[k]);
                    assert(file_ids@[k] != id);
                }
            }
        }
        i = i + 1;
    }
    proof {
        assert(file_ids@.take(file_ids@.len() as int) =~= file_ids@);
    }
    Ok(ids)
}

/// A named point on an entity, as written in a project file. The file
/// schema names line and arc endpoints and circle and arc centers.
#[derive(Clone, Copy, Debug, PartialEq, Eq, Structural)]
pub enum EntityPointFile {
    Start(FileId),
    End(FileId),
    Center(FileId),
}

/// A constraint as written in a project file, referring to entities by
/// file id.
#[derive(Clone, Copy, Debug, PartialEq, Eq, Structural)]
pub enum ConstraintFile {
    Coincident { a: EntityPointFile, b: EntityPointFile },
    PointOnEntity { point: EntityPointFile, entity: FileId },
    Horizontal { entity: FileId },
    Vertical { entity: FileId },
    Parallel { a: FileId, b: FileId },
    Perpendicular { a: FileId, b: FileId },
    Tangent { line: FileId, curve: FileId },
    EqualLength { a: FileId, b: FileId },
    EqualRadius { a: FileId, b: FileId },
}

/// A constraint record of a sketch in a project file.
#[derive(Clone, Copy, Debug, PartialEq, Eq, Structural)]
pub struct ConstraintFileRecord {
    pub id: FileId,
    pub constraint: ConstraintFile,
}

/// The file id of sketch entity `id` under table `m`.
pub open spec fn entity_file_id(m: Map<u64, FileId>, id: SketchEntityId) -> Result<
    FileId,
    ProjectIoError,
> {
    if m.contains_key(id.0) {
        Ok(m[id.0])
    } else {
        Err(ProjectIoError::DanglingReference { kind: RefKind::SketchEntity })
    }
}

/// The sketch entity that file id `id` names under table `m`.
pub open spec fn entity_slot_id(m: Map<FileId, u64>, id: FileId) -> Result<
    SketchEntityId,
    ProjectIoError,
> {
    if m.contains_key(id) {
        Ok(SketchEntityId(m[id]))
    } else {
        Err(ProjectIoError::MissingReference { kind: RefKind::SketchEntity, id })
    }
}

/// The file form of entity point `p` under table `m`.
pub open spec fn point_to_file(p: EntityPoint, m: Map<u64, FileId>) -> Result<
    EntityPointFile,
    ProjectIoError,
> {
    match p {
        EntityPoint::Start(id) => match entity_file_id(m, id) {
            Ok(f) => Ok(EntityPointFile::Start(f)),
            Err(e) => Err(e),
        },
        EntityPoint::End(id) => match entity_file_id(m, id) {
            Ok(f) => Ok(EntityPointFile::End(f)),
            Err(e) => Err(e),
        },
        EntityPoint::Center(id) => match entity_file_id(m, id) {
            Ok(f) => Ok(EntityPointFile::Center(f)),
            Err(e) => Err(e),
        },
        _ => Err(ProjectIoError::Unrepresentable { kind: RefKind::EntityPoint }),
    }
}

/// The in-memory form of file entity point `p` under table `m`.
pub open spec fn point_from_file(p: EntityPointFile, m: Map<FileId, u64>) -> Result<
    EntityPoint,
    ProjectIoError,
> {
    match p {
        EntityPointFile::Start(f) => match entity_slot_id(m, f) {
            Ok(id) => Ok(EntityPoint::Start(id)),
            Err(e) => Err(e),
        },
        EntityPointFile::End(f) => match entity_slot_id(m, f) {
            Ok(id) => Ok(EntityPoint::End(id)),
            Err(e) => Err(e),
        },
        EntityPointFile::Center(f) => match entity_slot_id(m, f) {
            Ok(id) => Ok(EntityPoint::Center(id)),
            Err(e) => Err(e),
        },
    }
}

/// Combines two entity lookups, reporting the first failure.
pub open spec fn both<A, B>(a: Result<A, ProjectIoError>, b: Result<B, ProjectIoError>) -> Result<
    (A, B),
    ProjectIoError,
> {
    match a {
        Err(e) => Err(e),
        Ok(x) => match b {
            Err(e) => Err(e),
            Ok(y) => Ok((x, y)),
        },
    }
}

/// The file form of constraint `c` under table `m`; fields are looked up
/// in declaration order and the first failure is reported.
pub open spec fn constraint_to_file(c: Constraint, m: Map<u64, FileId>) -> Result<
    ConstraintFile,
    ProjectIoError,
> {
    match c {
        Constraint::Coincident { a, b } => match both(point_to_file(a, m), point_to_file(b, m)) {
            Ok((a, b)) => Ok(ConstraintFile::Coincident { a, b }),
            Err(e) => Err(e),
        },
        Constraint::FixPoint { .. } => Err(
            ProjectIoError::Unrepresentable { kind: RefKind::Constraint },
        ),
        Constraint::PointOnEntity { point, entity } => match both(
            point_to_file(point, m),
            entity_file_id(m, entity),
        ) {
            Ok((point, entity)) => Ok(ConstraintFile::PointOnEntity { point, entity }),
            Err(e) => Err(e),
        },
        Constraint::Horizontal { entity } => match entity_file_id(m, entity) {
            Ok(entity) => Ok(ConstraintFile::Horizontal { entity }),
            Err(e) => Err(e),
        },
        Constraint::Vertical { entity } => match entity_file_id(m, entity) {
            Ok(entity) => Ok(ConstraintFile::Vertical { entity }),
            Err(e) => Err(e),
        },
        Constraint::Parallel { a, b } => match both(entity_file_id(m, a), entity_file_id(m, b)) {
            Ok((a, b)) => Ok(ConstraintFile::Parallel { a, b }),
            Err(e) => Err(e),
        },
        Constraint::Perpendicular { a, b } => match both(
            entity_file_id(m, a),
            entity_file_id(m, b),
        ) {
            Ok((a, b)) => Ok(ConstraintFile::Perpendicular { a, b }),
            Err(e) => Err(e),
        },
        Constraint::Tangent { line, curve } => match both(
            entity_file_id(m, line),
            entity_file_id(m, curve),
        ) {
            Ok((line, curve)) => Ok(ConstraintFile::Tangent { line, curve }),
            Err(e) => Err(e),
        },
        Constraint::EqualLength { a, b } => match both(
            entity_file_id(m, a),
            entity_file_id(m, b),
        ) {
            Ok((a, b)) => Ok(ConstraintFile::EqualLength { a, b }),
            Err(e) => Err(e),
        },
        Constraint::EqualRadius { a, b } => match both(
            entity_file_id(m, a),
            entity_file_id(m, b),
        ) {
            Ok((a, b)) => Ok(ConstraintFile::EqualRadius { a, b }),
            Err(e) => Err(e),
        },
    }
}

/// The in-memory form of file constraint `c` under table `m`; fields are
/// resolved in declaration order and the first failure is reported.
pub open spec fn constraint_from_file(c: ConstraintFile, m: Map<FileId, u64>) -> Result<
    Constraint,
    ProjectIoError,
> {
    match c {
        ConstraintFile::Coincident { a, b } => match both(
            point_from_file(a, m),
            point_from_file(b, m),
        ) {
            Ok((a, b)) => Ok(Constraint::Coincident { a, b }),
            Err(e) => Err(e),
        },
        ConstraintFile::PointOnEntity { point, entity } => match both(
            point_from_file(point, m),
            entity_slot_id(m, entity),
        ) {
            Ok((point, entity)) => Ok(Constraint::PointOnEntity { point, entity }),
            Err(e) => Err(e),
        },
        ConstraintFile::Horizontal { entity } => match entity_slot_id(m, entity) {
            Ok(entity) => Ok(Constraint::Horizontal { entity }),
            Err(e) => Err(e),
        },
        ConstraintFile::Vertical { entity } => match entity_slot_id(m, entity) {
            Ok(entity) => Ok(Constraint::Vertical { entity }),
            Err(e) => Err(e),
        },
        ConstraintFile::Parallel { a, b } => match both(entity_slot_id(m, a), entity_slot_id(m, b)) {
            Ok((a, b)) => Ok(Constraint::Parallel { a, b }),
            Err(e) => Err(e),
        },
        ConstraintFile::Perpendicular { a, b } => match both(
            entity_slot_id(m, a),
            entity_slot_id(m, b),
        ) {
            Ok((a, b)) => Ok(Constraint::Perpendicular { a, b }),
            Err(e) => Err(e),
        },
        ConstraintFile::Tangent { line, curve } => match both(
            entity_slot_id(m, line),
            entity_slot_id(m, curve),
        ) {
            Ok((line, curve)) => Ok(Constraint::Tangent { line, curve }),
            Err(e) => Err(e),
        },
        ConstraintFile::EqualLength { a, b } => match both(
            entity_slot_id(m, a),
            entity_slot_id(m, b),
        ) {
            Ok((a, b)) => Ok(Constraint::EqualLength { a, b }),
            Err(e) => Err(e),
        },
        ConstraintFile::EqualRadius { a, b } => match both(
            entity_slot_id(m, a),
            entity_slot_id(m, b),
        ) {
            Ok((a, b)) => Ok(Constraint::EqualRadius { a, b }),
            Err(e) => Err(e),
        },
    }
}

/// `bwd` undoes `fwd`: every slot that `fwd` numbers is named back by
/// its number.
pub open spec fn inverts(fwd: Map<u64, FileId>, bwd: Map<FileId, u64>) -> bool {
    forall|k: u64| #[trigger] fwd.contains_key(k) ==> bwd.contains_key(fwd[k]) && bwd[fwd[k]] == k
}

/// Writing a constraint to its file form and reading it back through an
/// inverse id table gives the same constraint.
pub proof fn lemma_constraint_round_trip(
    c: Constraint,
    fwd: Map<u64, FileId>,
    bwd: Map<FileId, u64>,
)
    requires
        inverts(fwd, bwd),
        constraint_to_file(c, fwd) is Ok,
    ensures
        constraint_from_file(constraint_to_file(c, fwd)->Ok_0, bwd) == Ok::<
            Constraint,
            ProjectIoError,
        >(c),
{
    let f = constraint_to_file(c, fwd)->Ok_0;
    assert forall|id: SketchEntityId| entity_file_id(fwd, id) is Ok implies entity_slot_id(
        bwd,
        entity_file_id(fwd, id)->Ok_0,
    ) == Ok::<SketchEntityId, ProjectIoError>(id) by {
        assert(fwd.contains_key(id.0));
    }
    assert forall|p: EntityPoint| point_to_file(p, fwd) is Ok implies point_from_file(
        point_to_file(p, fwd)->Ok_0,
        bwd,
    ) == Ok::<EntityPoint, ProjectIoError>(p) by {
        match p {
            EntityPoint::Start(id) => assert(fwd.contains_key(id.0)),
            EntityPoint::End(id) => assert(fwd.contains_key(id.0)),
            EntityPoint::Center(id) => assert(fwd.contains_key(id.0)),
            _ => {},
        }
    }
    match c {
        Constraint::Coincident { a, b } => {
            assert(point_to_file(a, fwd) is Ok);
            assert(point_to_file(b, fwd) is Ok);
        },
        Constraint::PointOnEntity { point, entity } => {
            assert(point_to_file(point, fwd) is Ok);
            assert(entity_file_id(fwd, entity) is Ok);
        },
        Constraint::Horizontal { entity } => assert(entity_file_id(fwd, entity) is Ok),
        Constraint::Vertical { entity } => assert(entity_file_id(fwd, entity) is Ok),
        Constraint::Parallel { a, b } => {
            assert(entity_file_id(fwd, a) is Ok);
            assert(entity_file_id(fwd, b) is Ok);
        },
        Constraint::Perpendicular { a, b } => {
            assert(entity_file_id(fwd, a) is Ok);
            assert(entity_file_id(fwd, b) is Ok);
        },
        Constraint::Tangent { line, curve } => {
            assert(entity_file_id(fwd, line) is Ok);
            assert(entity_file_id(fwd, curve) is Ok);
        },
        Constraint::EqualLength { a, b } => {
            assert(entity_file_id(fwd, a) is Ok);
            assert(entity_file_id(fwd, b) is Ok);
        },
        Constraint::EqualRadius { a, b } => {
            assert(entity_file_id(fwd, a) is Ok);
            assert(entity_file_id(fwd, b) is Ok);
        },
        Constraint::FixPoint { .. } => {},
    }
}

/// A constraint has a file form exactly when it is not a fixed-point
/// constraint, each named point is a start, end or center, and every
/// entity it references has a file id.
pub proof fn lemma_constraint_to_file_ok(c: Constraint, fwd: Map<u64, FileId>)
    ensures
        constraint_to_file(c, fwd) is Ok <==> (!(c is FixPoint) && (forall|e: SketchEntityId|
            #[trigger] c.references(e) ==> fwd.contains_key(e.0)) && point_representable(c)),
{
    match c {
        Constraint::Coincident { a, b } => {
            assert(c.spec_referenced_entities()[0] == a.spec_entity());
            assert(c.spec_referenced_entities()[1] == b.spec_entity());
            assert(c.references(a.spec_entity()));
            assert(c.references(b.spec_entity()));
            lemma_point_to_file_ok(a, fwd);
            lemma_point_to_file_ok(b, fwd);
            if constraint_to_file(c, fwd) is Ok {
                assert forall|e: SketchEntityId| #[trigger] c.references(e) implies fwd.contains_key(e.0) by {
                    let k = choose|k: int| 0 <= k < 2 && c.spec_referenced_entities()[k] == e;
                }
            }
        },
        Constraint::PointOnEntity { point, entity } => {
            assert(c.spec_referenced_entities()[0] == point.spec_entity());
            assert(c.spec_referenced_entities()[1] == entity);
            assert(c.references(point.spec_entity()));
            assert(c.references(entity));
            lemma_point_to_file_ok(point, fwd);
            if constraint_to_file(c, fwd) is Ok {
                assert forall|e: SketchEntityId| #[trigger] c.references(e) implies fwd.contains_key(e.0) by {
                    let k = choose|k: int| 0 <= k < 2 && c.spec_referenced_entities()[k] == e;
                }
            }
        },
        Constraint::FixPoint { point, .. } => {},
        Constraint::Horizontal { entity } => {
            assert(c.spec_referenced_entities()[0] == entity);
            assert(c.references(entity));
            if constraint_to_file(c, fwd) is Ok {
                assert forall|e: SketchEntityId| #[trigger] c.references(e) implies fwd.contains_key(e.0) by {
                    let k = choose|k: int| 0 <= k < 1 && c.spec_referenced_entities()[k] == e;
                }
            }
        },
        Constraint::Vertical { entity } => {
            assert(c.spec_referenced_entities()[0] == entity);
            assert(c.references(entity));
            if constraint_to_file(c, fwd) is Ok {
                assert forall|e: SketchEntityId| #[trigger] c.references(e) implies fwd.contains_key(e.0) by {
                    let k = choose|k: int| 0 <= k < 1 && c.spec_referenced_entities()[k] == e;
                }
            }
        },
        Constraint::Parallel { a, b } => {
            assert(c.spec_referenced_entities()[0] == a);
            assert(c.spec_referenced_entities()[1] == b);
            assert(c.references(a));
            assert(c.references(b));
            if constraint_to_file(c, fwd) is Ok {
                assert forall|e: SketchEntityId| #[trigger] c.references(e) implies fwd.contains_key(e.0) by {
                    let k = choose|k: int| 0 <= k < 2 && c.spec_referenced_entities()[k] == e;
                }
            }
        },
        Constraint::Perpendicular { a, b } => {
            assert(c.spec_referenced_entities()[0] == a);
            assert(c.spec_referenced_entities()[1] == b);
            assert(c.references(a));
            assert(c.references(b));
            if constraint_to_file(c, fwd) is Ok {
                assert forall|e: SketchEntityId| #[trigger] c.references(e) implies fwd.contains_key(e.0) by {
                    let k = choose|k: int| 0 <= k < 2 && c.spec_referenced_entities()[k] == e;
                }
            }
        },
        Constraint::EqualLength { a, b } => {
            assert(c.spec_referenced_entities()[0] == a);
            assert(c.spec_referenced_entities()[1] == b);
            assert(c.references(a));
            assert(c.references(b));
            if constraint_to_file(c, fwd) is Ok {
                assert forall|e: SketchEntityId| #[trigger] c.references(e) implies fwd.contains_key(e.0) by {
                    let k = choose|k: int| 0 <= k < 2 && c.spec_referenced_entities()[k] == e;
                }
            }
        },
        Constraint::EqualRadius { a, b } => {
            assert(c.spec_referenced_entities()[0] == a);
            assert(c.spec_referenced_entities()[1] == b);
            assert(c.references(a));
            assert(c.references(b));
            if constraint_to_file(c, fwd) is Ok {
                assert forall|e: SketchEntityId| #[trigger] c.references(e) implies fwd.contains_key(e.0) by {
                    let k = choose|k: int| 0 <= k < 2 && c.spec_referenced_entities()[k] == e;
                }
            }
        },
        Constraint::Tangent { line, curve } => {
            assert(c.spec_referenced_entities()[0] == line);
            assert(c.spec_referenced_entities()[1] == curve);
            assert(c.references(line));
            assert(c.references(curve));
            if constraint_to_file(c, fwd) is Ok {
                assert forall|e: SketchEntityId| #[trigger] c.references(e) implies fwd.contains_key(e.0) by {
                    let k = choose|k: int| 0 <= k < 2 && c.spec_referenced_entities()[k] == e;
                }
            }
        },
    }
}

proof fn lemma_point_to_file_ok(p: EntityPoint, fwd: Map<u64, FileId>)
    ensures
        point_to_file(p, fwd) is Ok <==> point_in_schema(p) && fwd.contains_key(p.spec_entity().0),
{
}

/// Every point a constraint names is one the file schema can express
/// (a start, end or center).
pub open spec fn point_representable(c: Constraint) -> bool {
    match c {
        Constraint::Coincident { a, b } => point_in_schema(a) && point_in_schema(b),
        Constraint::FixPoint { point, .. } => point_in_schema(point),
        Constraint::PointOnEntity { point, .. } => point_in_schema(point),
        _ => true,
    }
}

/// The file schema names starts, ends and centers of entities.
pub open spec fn point_in_schema(p: EntityPoint) -> bool {
    p is Start || p is End || p is Center
}

fn entity_file(ids: &HashMap<u64, FileId>, id: SketchEntityId) -> (r: Result<
    FileId,
    ProjectIoError,
>)
    ensures
        r == entity_file_id(ids@, id),
{
    lookup_file_id(ids, id.0, RefKind::SketchEntity)
}

fn entity_slot(ids: &HashMap<FileId, u64>, id: FileId) -> (r: Result<
    SketchEntityId,
    ProjectIoError,
>)
    ensures
        r == entity_slot_id(ids@, id),
{
    let slot = lookup_slot_id(ids, id, RefKind::SketchEntity)?;
    Ok(SketchEntityId(slot))
}

impl EntityPointFile {
    /// The file form of `point`, naming its entity by file id.
    pub fn from_entity_point(point: EntityPoint, entity_ids: &HashMap<u64, FileId>) -> (r: Result<
        Self,
        ProjectIoError,
    >)
        ensures
            r == point_to_file(point, entity_ids@),
    {
        match point {
            EntityPoint::Start(id) => Ok(EntityPointFile::Start(entity_file(entity_ids, id)?)),
            EntityPoint::End(id) => Ok(EntityPointFile::End(entity_file(entity_ids, id)?)),
            EntityPoint::Center(id) => Ok(EntityPointFile::Center(entity_file(entity_ids, id)?)),
            _ => Err(ProjectIoError::Unrepresentable { kind: RefKind::EntityPoint }),
        }
    }

    /// The in-memory entity point this file point names.
    pub fn into_entity_point(self, entity_ids: &HashMap<FileId, u64>) -> (r: Result<
        EntityPoint,
        ProjectIoError,
    >)
        ensures
            r == point_from_file(self, entity_ids@),
    {
        match self {
            EntityPointFile::Start(id) => Ok(EntityPoint::Start(entity_slot(entity_ids, id)?)),
            EntityPointFile::End(id) => Ok(EntityPoint::End(entity_slot(entity_ids, id)?)),
            EntityPointFile::Center(id) => Ok(EntityPoint::Center(entity_slot(entity_ids, id)?)),
        }
    }
}

impl ConstraintFile {
    /// The file form of `constraint`, naming entities by file id.
    pub fn from_constraint(constraint: &Constraint, entity_ids: &HashMap<u64, FileId>) -> (r: Result<
        Self,
        ProjectIoError,
    >)
        ensures
            r == constraint_to_file(*constraint, entity_ids@),
    {
        match constraint {
            Constraint::Coincident { a, b } => {
                let a = EntityPointFile::from_entity_point(*a, entity_ids)?;
                let b = EntityPointFile::from_entity_point(*b, entity_ids)?;
                Ok(ConstraintFile::Coincident { a, b })
            },
            Constraint::FixPoint { .. } => Err(
                ProjectIoError::Unrepresentable { kind: RefKind::Constraint },
            ),
            Constraint::PointOnEntity { point, entity } => {
                let point = EntityPointFile::from_entity_point(*point, entity_ids)?;
                let entity = entity_file(entity_ids, *entity)?;
                Ok(ConstraintFile::PointOnEntity { point, entity })
            },
            Constraint::Horizontal { entity } => Ok(
                ConstraintFile::Horizontal { entity: entity_file(entity_ids, *entity)? },
            ),
            Constraint::Vertical { entity } => Ok(
                ConstraintFile::Vertical { entity: entity_file(entity_ids, *entity)? },
            ),
            Constraint::Parallel { a, b } => {
                let a = entity_file(entity_ids, *a)?;
                let b = entity_file(entity_ids, *b)?;
                Ok(ConstraintFile::Parallel { a, b })
            },
            Constraint::Perpendicular { a, b } => {
                let a = entity_file(entity_ids, *a)?;
                let b = entity_file(entity_ids, *b)?;
                Ok(ConstraintFile::Perpendicular { a, b })
            },
            Constraint::Tangent { line, curve } => {
                let line = entity_file(entity_ids, *line)?;
                let curve = entity_file(entity_ids, *curve)?;
                Ok(ConstraintFile::Tangent { line, curve })
            },
            Constraint::EqualLength { a, b } => {
                let a = entity_file(entity_ids, *a)?;
                let b = entity_file(entity_ids, *b)?;
                Ok(ConstraintFile::EqualLength { a, b })
            },
            Constraint::EqualRadius { a, b } => {
                let a = entity_file(entity_ids, *a)?;
                let b = entity_file(entity_ids, *b)?;
                Ok(ConstraintFile::EqualRadius { a, b })
            },
        }
    }

    /// The in-memory constraint this file constraint describes.
    pub fn into_constraint(self, entity_ids: &HashMap<FileId, u64>) -> (r: Result<
        Constraint,
        ProjectIoError,
    >)
        ensures
            r == constraint_from_file(self, entity_ids@),
    {
        match self {
            ConstraintFile::Coincident { a, b } => {
                let a = a.into_entity_point(entity_ids)?;
                let b = b.into_entity_point(entity_ids)?;
                Ok(Constraint::Coincident { a, b })
            },
            ConstraintFile::PointOnEntity { point, entity } => {
                let point = point.into_entity_point(entity_ids)?;
                let entity = entity_slot(entity_ids, entity)?;
                Ok(Constraint::PointOnEntity { point, entity })
            },
            ConstraintFile::Horizontal { entity } => Ok(
                Constraint::Horizontal { entity: entity_slot(entity_ids, entity)? },
            ),
            ConstraintFile::Vertical { entity } => Ok(
                Constraint::Vertical { entity: entity_slot(entity_ids, entity)? },
            ),
            ConstraintFile::Parallel { a, b } => {
                let a = entity_slot(entity_ids, a)?;
                let b = entity_slot(entity_ids, b)?;
                Ok(Constraint::Parallel { a, b })
            },
            ConstraintFile::Perpendicular { a, b } => {
                let a = entity_slot(entity_ids, a)?;
                let b = entity_slot(entity_ids, b)?;
                Ok(Constraint::Perpendicular { a, b })
            },
            ConstraintFile::Tangent { line, curve } => {
                let line = entity_slot(entity_ids, line)?;
                let curve = entity_slot(entity_ids, curve)?;
                Ok(Constraint::Tangent { line, curve })
            },
            ConstraintFile::EqualLength { a, b } => {
                let a = entity_slot(entity_ids, a)?;
                let b = entity_slot(entity_ids, b)?;
                Ok(Constraint::EqualLength { a, b })
            },
            ConstraintFile::EqualRadius { a, b } => {
                let a = entity_slot(entity_ids, a)?;
                let b = entity_slot(entity_ids, b)?;
                Ok(Constraint::EqualRadius { a, b })
            },
        }
    }
}


/// Writing a constraint keeps its kind and names each entity by its file
/// id: a constraint between entities `a` and `b` is written as the file
/// constraint of the same kind between `m[a]` and `m[b]`, and points keep
/// whether they are a start, an end or a center. Writing succeeds exactly
/// when every entity the constraint references has a file id, no point is
/// a lone point or a rectangle corner, and the constraint is not a fixed
/// point.
pub proof fn lemma_constraint_to_file_keeps_kind(c: Constraint, m: Map<u64, FileId>)
    ensures
        match c {
            Constraint::Coincident { .. } | Constraint::PointOnEntity { .. } | Constraint::FixPoint { .. } => true,
            _ => constraint_to_file(c, m) is Ok <==> forall|i: int|
                0 <= i < c.spec_referenced_entities().len() ==> m.contains_key(
                    (#[trigger] c.spec_referenced_entities()[i]).0,
                ),
        },
        constraint_to_file(c, m) is Ok ==> match c {
            Constraint::Coincident { a, b } => constraint_to_file(c, m)->Ok_0 == (ConstraintFile::Coincident {
                a: point_to_file(a, m)->Ok_0,
                b: point_to_file(b, m)->Ok_0,
            }),
            Constraint::FixPoint { .. } => false,
            Constraint::PointOnEntity { point, entity } => constraint_to_file(c, m)->Ok_0
                == (ConstraintFile::PointOnEntity { point: point_to_file(point, m)->Ok_0, entity: m[entity.0] }),
            Constraint::Horizontal { entity } => constraint_to_file(c, m)->Ok_0 == (ConstraintFile::Horizontal {
                entity: m[entity.0],
            }),
            Constraint::Vertical { entity } => constraint_to_file(c, m)->Ok_0 == (ConstraintFile::Vertical {
                entity: m[entity.0],
            }),
            Constraint::Parallel { a, b } => constraint_to_file(c, m)->Ok_0 == (ConstraintFile::Parallel {
                a: m[a.0],
                b: m[b.0],
            }),
            Constraint::Perpendicular { a, b } => constraint_to_file(c, m)->Ok_0 == (
            ConstraintFile::Perpendicular { a: m[a.0], b: m[b.0] }),
            Constraint::Tangent { line, curve } => constraint_to_file(c, m)->Ok_0 == (ConstraintFile::Tangent {
                line: m[line.0],
                curve: m[curve.0],
            }),
            Constraint::EqualLength { a, b } => constraint_to_file(c, m)->Ok_0 == (ConstraintFile::EqualLength {
                a: m[a.0],
                b: m[b.0],
            }),
            Constraint::EqualRadius { a, b } => constraint_to_file(c, m)->Ok_0 == (ConstraintFile::EqualRadius {
                a: m[a.0],
                b: m[b.0],
            }),
        },
        forall|p: EntityPoint| #[trigger] point_to_file(p, m) is Ok ==> match p {
            EntityPoint::Start(id) => point_to_file(p, m)->Ok_0 == EntityPointFile::Start(m[id.0]),
            EntityPoint::End(id) => point_to_file(p, m)->Ok_0 == EntityPointFile::End(m[id.0]),
            EntityPoint::Center(id) => point_to_file(p, m)->Ok_0 == EntityPointFile::Center(m[id.0]),
            _ => false,
        },
{
    let r = c.spec_referenced_entities();
    match c {
        Constraint::Horizontal { entity } | Constraint::Vertical { entity } => {
            assert(r[0] == entity);
        },
        Constraint::Parallel { a, b } | Constraint::Perpendicular { a, b } | Constraint::EqualLength { a, b }
        | Constraint::EqualRadius { a, b } => {
            assert(r[0] == a && r[1] == b);
        },
        Constraint::Tangent { line, curve } => {
            assert(r[0] == line && r[1] == curve);
        },
        _ => {},
    }
}

/// Reading a constraint keeps its kind and names each entity by the slot
/// its file id stands for: a file constraint between file ids `a` and `b`
/// is read as the constraint of the same kind between the entities in
/// slots `m[a]` and `m[b]`, and points keep whether they are a start, an
/// end or a center. Reading succeeds exactly when every file id it names
/// has a slot.
pub proof fn lemma_constraint_from_file_keeps_kind(f: ConstraintFile, m: Map<FileId, u64>)
    ensures
        constraint_from_file(f, m) is Ok ==> match f {
            ConstraintFile::Coincident { a, b } => constraint_from_file(f, m)->Ok_0 == (Constraint::Coincident {
                a: point_from_file(a, m)->Ok_0,
                b: point_from_file(b, m)->Ok_0,
            }),
            ConstraintFile::PointOnEntity { point, entity } => constraint_from_file(f, m)->Ok_0 == (
            Constraint::PointOnEntity {
                point: point_from_file(point, m)->Ok_0,
                entity: SketchEntityId(m[entity]),
            }),
            ConstraintFile::Horizontal { entity } => constraint_from_file(f, m)->Ok_0 == (Constraint::Horizontal {
                entity: SketchEntityId(m[entity]),
            }),
            ConstraintFile::Vertical { entity } => constraint_from_file(f, m)->Ok_0 == (Constraint::Vertical {
                entity: SketchEntityId(m[entity]),
            }),
            ConstraintFile::Parallel { a, b } => constraint_from_file(f, m)->Ok_0 == (Constraint::Parallel {
                a: SketchEntityId(m[a]),
                b: SketchEntityId(m[b]),
            }),
            ConstraintFile::Perpendicular { a, b } => constraint_from_file(f, m)->Ok_0 == (
            Constraint::Perpendicular { a: SketchEntityId(m[a]), b: SketchEntityId(m[b]) }),
            ConstraintFile::Tangent { line, curve } => constraint_from_file(f, m)->Ok_0 == (Constraint::Tangent {
                line: SketchEntityId(m[line]),
                curve: SketchEntityId(m[curve]),
            }),
            ConstraintFile::EqualLength { a, b } => constraint_from_file(f, m)->Ok_0 == (
            Constraint::EqualLength { a: SketchEntityId(m[a]), b: SketchEntityId(m[b]) }),
            ConstraintFile::EqualRadius { a, b } => constraint_from_file(f, m)->Ok_0 == (
            Constraint::EqualRadius { a: SketchEntityId(m[a]), b: SketchEntityId(m[b]) }),
        },
        match f {
            ConstraintFile::Parallel { a, b } | ConstraintFile::Perpendicular { a, b }
            | ConstraintFile::EqualLength { a, b } | ConstraintFile::EqualRadius { a, b } => constraint_from_file(
                f,
                m,
            ) is Ok <==> m.contains_key(a) && m.contains_key(b),
            ConstraintFile::Tangent { line, curve } => constraint_from_file(f, m) is Ok <==> m.contains_key(line)
                && m.contains_key(curve),
            ConstraintFile::Horizontal { entity } | ConstraintFile::Vertical { entity } => constraint_from_file(
                f,
                m,
            ) is Ok <==> m.contains_key(entity),
            _ => true,
        },
        forall|p: EntityPointFile| #[trigger] point_from_file(p, m) is Ok ==> match p {
            EntityPointFile::Start(id) => point_from_file(p, m)->Ok_0 == EntityPoint::Start(SketchEntityId(m[id])),
            EntityPointFile::End(id) => point_from_file(p, m)->Ok_0 == EntityPoint::End(SketchEntityId(m[id])),
            EntityPointFile::Center(id) => point_from_file(p, m)->Ok_0 == EntityPoint::Center(
                SketchEntityId(m[id]),
            ),
        },
{
}
} // verus!
