//! Rendering decisions that do not depend on coordinates: the camera's
//! projection mode, how extruded-body edges are classified, and which
//! outline points get a vertical connector edge.

use vstd::prelude::*;

verus! {

/// How the viewport camera projects the scene.
#[derive(Clone, Copy, Debug, PartialEq, Eq, Structural)]
pub enum Projection {
    Perspective,
    Orthographic,
}

impl Projection {
    /// The other projection.
    pub open spec fn spec_toggled(self) -> Projection {
        match self {
            Projection::Perspective => Projection::Orthographic,
            Projection::Orthographic => Projection::Perspective,
        }
    }

    /// The projection the camera switches to when the user toggles it.
    pub fn toggled(self) -> (p: Projection)
        ensures
            p == self.spec_toggled(),
    {
        match self {
            Projection::Perspective => Projection::Orthographic,
            Projection::Orthographic => Projection::Perspective,
        }
    }
}

/// Toggling the projection twice returns to where it started, and a toggle
/// always changes it.
pub proof fn lemma_toggle_twice(p: Projection)
    ensures
        p.spec_toggled().spec_toggled() == p,
        p.spec_toggled() != p,
{
}

/// How an edge of an extruded body is drawn.
#[derive(Clone, Copy, Debug, PartialEq, Eq, Structural)]
pub enum EdgeKind {
    /// Hard crease edge (polygon corners, cap boundaries).
    Crease,
    /// Smooth border edge (top/bottom outline of curved sections).
    Border,
}

/// Outline and connector edges of a smooth (circular) profile are borders;
/// those of a polygon are creases.
pub fn edge_kind(is_smooth_profile: bool) -> (k: EdgeKind)
    ensures
        k == (if is_smooth_profile {
            EdgeKind::Border
        } else {
            EdgeKind::Crease
        }),
{
    if is_smooth_profile {
        EdgeKind::Border
    } else {
        EdgeKind::Crease
    }
}

/// Most vertical connectors drawn on a curved or many-sided extrusion.
pub const CIRCLE_CONNECTORS: usize = 8;

/// Polygons with at most this many points get a connector at every point.
pub const POLYGON_CONNECTOR_LIMIT: usize = 12;

/// The spacing between connectors on an outline of `point_count` points:
/// every point for a small polygon, otherwise the count divided by the
/// connector budget, at least one.
pub open spec fn connector_step(is_polygon: bool, point_count: nat) -> nat {
    if is_polygon && point_count <= POLYGON_CONNECTOR_LIMIT {
        1
    } else if point_count / (CIRCLE_CONNECTORS as nat) >= 1 {
        point_count / (CIRCLE_CONNECTORS as nat)
    } else {
        1
    }
}

/// Indices of the outline points that get a vertical edge between the base
/// and the cap of an extrusion: every point of a polygon with at most
/// twelve points; otherwise every `step`-th point from the first, at most
/// eight of them.
pub fn connector_indices(is_polygon: bool, point_count: usize) -> (r: Vec<usize>)
    ensures
        ({
            let step = connector_step(is_polygon, point_count as nat);
            &&& forall|i: int| 0 <= i < r@.len() ==> #[trigger] r@[i] == i * step && r@[i] < point_count
            &&& (is_polygon && point_count <= POLYGON_CONNECTOR_LIMIT) ==> r@.len() == point_count
            &&& !(is_polygon && point_count <= POLYGON_CONNECTOR_LIMIT) ==> r@.len() <= CIRCLE_CONNECTORS
            &&& r@.len() == CIRCLE_CONNECTORS || r@.len() * step >= point_count
        }),
{
    let ghost spec_step = connector_step(is_polygon, point_count as nat);
    let all = is_polygon && point_count <= POLYGON_CONNECTOR_LIMIT;
    let step: usize = if all {
        1
    } else if point_count / CIRCLE_CONNECTORS >= 1 {
        point_count / CIRCLE_CONNECTORS
    } else {
        1
    };
    let cap: usize = if all {
        POLYGON_CONNECTOR_LIMIT
    } else {
        CIRCLE_CONNECTORS
    };
    let mut r: Vec<usize> = Vec::new();
    let mut next: usize = 0;
    let mut done = false;
    while !done && r.len() < cap
        invariant
            step == spec_step,
            step >= 1,
            all ==> step == 1 && point_count <= POLYGON_CONNECTOR_LIMIT,
            cap == (if all { POLYGON_CONNECTOR_LIMIT } else { CIRCLE_CONNECTORS }),
            r@.len() <= cap,
            !done ==> next == r@.len() * step,
            !done && r@.len() > 0 ==> next < point_count,
            done ==> r@.len() * step >= point_count,
            forall|i: int| 0 <= i < r@.len() ==> #[trigger] r@[i] == i * step && r@[i] < point_count,
        decreases cap - r@.len(), if done { 0int } else { 1int },
    {
        if next >= point_count {
            done = true;
        } else {
            r.push(next);
            proof {
                assert((r@.len() - 1) * step + step == r@.len() * step) by (nonlinear_arith);
            }
            if point_count - next <= step {
                done = true;
            } else {
                next = next + step;
            }
        }
    }
    proof {
        if all {
            assert(r@.len() * step == r@.len()) by (nonlinear_arith)
                requires
                    step == 1,
            ;
            if r@.len() > 0 {
                let last = r@.len() - 1;
                assert(r@[last] == last * step);
                assert(last * step == last) by (nonlinear_arith)
                    requires
                        step == 1,
                ;
            }
        }
    }
    r
}

} // verus!
