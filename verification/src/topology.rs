//! Stable profile keys for derived sketch topology. A closed profile is
//! identified by the source-entity spans that bound it; its key lists those
//! spans in one canonical order, without repeats, so the same region gives
//! the same key however its boundary was walked. Building the topology
//! graph itself computes with coordinates and lives in the application.

use vstd::prelude::*;

use crate::ids::SketchEntityId;

verus! {

/// One span of a source entity along a profile boundary: the entity, which
/// part of it (a rectangle side, say), and the quantized parameter range,
/// low end first.
#[derive(Clone, Copy, Debug, PartialEq, Eq, Hash, Structural)]
pub struct ProfileSpanKey {
    pub entity: SketchEntityId,
    pub part: u32,
    pub start_param: i32,
    pub end_param: i32,
}

/// The canonical order of spans: by entity handle, then part, then start
/// and end parameter.
pub open spec fn span_lt(a: ProfileSpanKey, b: ProfileSpanKey) -> bool {
    if a.entity.0 != b.entity.0 {
        a.entity.0 < b.entity.0
    } else if a.part != b.part {
        a.part < b.part
    } else if a.start_param != b.start_param {
        a.start_param < b.start_param
    } else {
        a.end_param < b.end_param
    }
}

/// Each span strictly precedes every later one.
pub open spec fn strictly_sorted(s: Seq<ProfileSpanKey>) -> bool {
    forall|i: int, j: int| 0 <= i < j < s.len() ==> span_lt(#[trigger] s[i], #[trigger] s[j])
}

impl ProfileSpanKey {
    /// The span of `part` of `entity` between two quantized parameters,
    /// given in either order.
    pub fn from_quantized(entity: SketchEntityId, part: u32, a: i32, b: i32) -> (k: ProfileSpanKey)
        ensures
            k.entity == entity,
            k.part == part,
            k.start_param == (if a <= b { a } else { b }),
            k.end_param == (if a <= b { b } else { a }),
    {
        if a <= b {
            ProfileSpanKey { entity, part, start_param: a, end_param: b }
        } else {
            ProfileSpanKey { entity, part, start_param: b, end_param: a }
        }
    }

    /// Whether `self` comes before `other` in the canonical order.
    pub fn precedes(&self, other: &ProfileSpanKey) -> (r: bool)
        ensures
            r == span_lt(*self, *other),
    {
        if self.entity.0 != other.entity.0 {
            self.entity.0 < other.entity.0
        } else if self.part != other.part {
            self.part < other.part
        } else if self.start_param != other.start_param {
            self.start_param < other.start_param
        } else {
            self.end_param < other.end_param
        }
    }
}

/// The canonical order is a strict total order on spans.
pub proof fn lemma_span_order(a: ProfileSpanKey, b: ProfileSpanKey, c: ProfileSpanKey)
    ensures
        !span_lt(a, a),
        a != b ==> span_lt(a, b) || span_lt(b, a),
        span_lt(a, b) && span_lt(b, c) ==> span_lt(a, c),
{
    if a != b && a.entity.0 == b.entity.0 {
        assert(a.entity == b.entity);
    }
}

/// The key of a closed profile: its boundary spans in canonical order,
/// each once.
#[derive(Clone, Debug, PartialEq, Eq, Hash)]
pub struct ProfileKey {
    pub spans: Vec<ProfileSpanKey>,
}

impl ProfileKey {
    /// A copy of the key, span for span.
    pub fn duplicate(&self) -> (r: ProfileKey)
        ensures
            r.spans@ == self.spans@,
    {
        let mut spans: Vec<ProfileSpanKey> = Vec::new();
        let mut i: usize = 0;
        while i < self.spans.len()
            invariant
                i <= self.spans@.len(),
                spans@ == self.spans@.take(i as int),
            decreases self.spans@.len() - i,
        {
            spans.push(self.spans[i]);
            proof {
                assert(self.spans@.take(i + 1) =~= self.spans@.take(i as int).push(self.spans@[i as int]));
            }
            i = i + 1;
        }
        proof {
            assert(self.spans@.take(i as int) =~= self.spans@);
        }
        ProfileKey { spans }
    }

    /// The key of the profile bounded by `spans`, listed in any order and
    /// possibly with repeats.
    pub fn new(spans: Vec<ProfileSpanKey>) -> (k: ProfileKey)
        ensures
            strictly_sorted(k.spans@),
            k.spans@.to_set() == spans@.to_set(),
    {
        let mut sorted: Vec<ProfileSpanKey> = Vec::new();
        let mut n: usize = 0;
        while n < spans.len()
            invariant
                n <= spans@.len(),
                strictly_sorted(sorted@),
                sorted@.to_set() == spans@.take(n as int).to_set(),
            decreases spans@.len() - n,
        {
            let x = spans[n];
            let mut i: usize = 0;
            while i < sorted.len() && sorted[i].precedes(&x)
                invariant
                    i <= sorted@.len(),
                    forall|k: int| 0 <= k < i ==> span_lt(#[trigger] sorted@[k], x),
                decreases sorted@.len() - i,
            {
                i = i + 1;
            }
            let ghost before = sorted@;
            if i < sorted.len() && sorted[i] == x {
                proof {
                    assert(spans@.take(n + 1) =~= spans@.take(n as int).push(x));
                    spans@.take(n as int).lemma_push_to_set_commute(x);
                    assert(before.contains(x));
                    assert(before.to_set().contains(x));
                    assert(spans@.take(n + 1).to_set() =~= before.to_set());
                }
            } else {
                proof {
                    if i < before.len() {
                        lemma_span_order(x, before[i as int], x);
                        assert(span_lt(x, before[i as int]));
                    }
                }
                sorted.insert(i, x);
                proof {
                    let after = sorted@;
                    assert(after =~= before.take(i as int).push(x) + before.skip(i as int));
                    assert forall|p: int, q: int| 0 <= p < q < after.len() implies span_lt(
                        #[trigger] after[p],
                        #[trigger] after[q],
                    ) by {
                        if q < i {
                            assert(after[p] == before[p] && after[q] == before[q]);
                        } else if q == i {
                            assert(after[p] == before[p]);
                        } else if p < i {
                            assert(after[p] == before[p] && after[q] == before[q - 1]);
                            lemma_span_order(before[p], x, before[q - 1]);
                            if q - 1 > i {
                                lemma_span_order(x, before[i as int], before[q - 1]);
                            }
                        } else if p == i {
                            assert(after[q] == before[q - 1]);
                            if q - 1 > i {
                                lemma_span_order(x, before[i as int], before[q - 1]);
                            }
                        } else {
                            assert(after[p] == before[p - 1] && after[q] == before[q - 1]);
                        }
                    }
                    assert(spans@.take(n + 1) =~= spans@.take(n as int).push(x));
                    assert forall|y: ProfileSpanKey| after.to_set().contains(y) <==> before.to_set().insert(
                        x,
                    ).contains(y) by {
                        if after.contains(y) {
                            let p = choose|p: int| 0 <= p < after.len() && after[p] == y;
                            if p < i {
                                assert(before[p] == y);
                            } else if p > i {
                                assert(before[p - 1] == y);
                            }
                        }
                        if before.contains(y) {
                            let p = choose|p: int| 0 <= p < before.len() && before[p] == y;
                            if p < i {
                                assert(after[p] == y);
                            } else {
                                assert(after[p + 1] == y);
                            }
                        }
                        if y == x {
                            assert(after[i as int] == x);
                        }
                    }
                    assert(after.to_set() =~= before.to_set().insert(x));
                    spans@.take(n as int).lemma_push_to_set_commute(x);
                }
            }
            n = n + 1;
        }
        proof {
            assert(spans@.take(spans@.len() as int) =~= spans@);
        }
        ProfileKey { spans: sorted }
    }

    /// Whether two keys list the same spans.
    pub fn same_as(&self, other: &ProfileKey) -> (r: bool)
        ensures
            r == (self.spans@ == other.spans@),
    {
        if self.spans.len() != other.spans.len() {
            return false;
        }
        let mut i: usize = 0;
        while i < self.spans.len()
            invariant
                self.spans@.len() == other.spans@.len(),
                i <= self.spans@.len(),
                forall|k: int| 0 <= k < i ==> self.spans@[k] == other.spans@[k],
            decreases self.spans@.len() - i,
        {
            if self.spans[i] != other.spans[i] {
                return false;
            }
            i = i + 1;
        }
        proof {
            assert(self.spans@ =~= other.spans@);
        }
        true
    }
}

/// The position of the first key in `keys` that lists the same spans as
/// `key`, as a profile is looked up by its key.
pub fn position_of_key(keys: &[ProfileKey], key: &ProfileKey) -> (r: Option<usize>)
    ensures
        r matches Some(i) ==> i < keys@.len() && keys@[i as int].spans@ == key.spans@ && forall|k: int|
            0 <= k < i ==> #[trigger] keys@[k].spans@ != key.spans@,
        r is None ==> forall|k: int| 0 <= k < keys@.len() ==> #[trigger] keys@[k].spans@ != key.spans@,
{
    let mut i: usize = 0;
    while i < keys.len()
        invariant
            i <= keys@.len(),
            forall|k: int| 0 <= k < i ==> #[trigger] keys@[k].spans@ != key.spans@,
        decreases keys@.len() - i,
    {
        if keys[i].same_as(key) {
            return Some(i);
        }
        i = i + 1;
    }
    None
}

/// The first span of a strictly sorted list precedes every other member.
proof fn lemma_first_is_least(s: Seq<ProfileSpanKey>, y: ProfileSpanKey)
    requires
        strictly_sorted(s),
        s.len() > 0,
        s.contains(y),
        y != s[0],
    ensures
        span_lt(s[0], y),
{
    let p = choose|p: int| 0 <= p < s.len() && s[p] == y;
    assert(p != 0);
}

/// Two strictly sorted span lists with the same members are the same list.
pub proof fn lemma_sorted_unique(a: Seq<ProfileSpanKey>, b: Seq<ProfileSpanKey>)
    requires
        strictly_sorted(a),
        strictly_sorted(b),
        a.to_set() == b.to_set(),
    ensures
        a == b,
    decreases a.len() + b.len(),
{
    if a.len() == 0 || b.len() == 0 {
        if a.len() > 0 {
            assert(a.to_set().contains(a[0]));
        }
        if b.len() > 0 {
            assert(b.to_set().contains(b[0]));
        }
        assert(a =~= b);
    } else {
        assert(a.to_set().contains(a[0]));
        assert(b.to_set().contains(b[0]));
        assert(b.contains(a[0]));
        assert(a.contains(b[0]));
        if a[0] != b[0] {
            lemma_first_is_least(a, b[0]);
            lemma_first_is_least(b, a[0]);
            lemma_span_order(a[0], b[0], a[0]);
        }
        let at = a.drop_first();
        let bt = b.drop_first();
        assert forall|y: ProfileSpanKey| at.to_set().contains(y) <==> bt.to_set().contains(y) by {
            if at.contains(y) {
                let p = choose|p: int| 0 <= p < at.len() && at[p] == y;
                assert(a[p + 1] == y);
                assert(span_lt(a[0], y));
                lemma_span_order(a[0], a[0], y);
                assert(a.contains(y));
                assert(a.to_set().contains(y));
                assert(b.contains(y));
                let q = choose|q: int| 0 <= q < b.len() && b[q] == y;
                assert(q != 0);
                assert(bt[q - 1] == y);
            }
            if bt.contains(y) {
                let q = choose|q: int| 0 <= q < bt.len() && bt[q] == y;
                assert(b[q + 1] == y);
                assert(span_lt(b[0], y));
                lemma_span_order(b[0], b[0], y);
                assert(b.contains(y));
                assert(b.to_set().contains(y));
                assert(a.contains(y));
                let p = choose|p: int| 0 <= p < a.len() && a[p] == y;
                assert(p != 0);
                assert(at[p - 1] == y);
            }
        }
        assert(at.to_set() =~= bt.to_set());
        assert forall|i: int, j: int| 0 <= i < j < at.len() implies span_lt(#[trigger] at[i], #[trigger] at[j]) by {
            assert(at[i] == a[i + 1] && at[j] == a[j + 1]);
        }
        assert forall|i: int, j: int| 0 <= i < j < bt.len() implies span_lt(#[trigger] bt[i], #[trigger] bt[j]) by {
            assert(bt[i] == b[i + 1] && bt[j] == b[j + 1]);
        }
        lemma_sorted_unique(at, bt);
        assert(a =~= seq![a[0]] + at);
        assert(b =~= seq![b[0]] + bt);
    }
}

/// A profile's key does not depend on the order in which its boundary
/// spans were collected, nor on repeats: spans with the same members give
/// the same key.
pub proof fn lemma_profile_key_canonical(
    spans_a: Seq<ProfileSpanKey>,
    spans_b: Seq<ProfileSpanKey>,
    key_a: Seq<ProfileSpanKey>,
    key_b: Seq<ProfileSpanKey>,
)
    requires
        spans_a.to_set() == spans_b.to_set(),
        strictly_sorted(key_a),
        key_a.to_set() == spans_a.to_set(),
        strictly_sorted(key_b),
        key_b.to_set() == spans_b.to_set(),
    ensures
        key_a == key_b,
{
    lemma_sorted_unique(key_a, key_b);
}

} // verus!
