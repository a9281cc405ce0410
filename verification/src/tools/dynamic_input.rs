//! Dynamic numeric input: the text buffers a tool's on-canvas fields are
//! typed into. Keystrokes go to the active buffer, Tab moves between
//! buffers, and only characters that can form a decimal number are kept.

use vstd::prelude::*;

use crate::text::{chars_of, is_ascii_digit, pop_char, push_char};

verus! {

/// A character that may appear in a dynamic-input buffer.
pub open spec fn numeric_char(c: char) -> bool {
    is_ascii_digit(c) || c == '.' || c == '-'
}

/// The shape every buffer keeps: digits, at most one dot, and a minus sign
/// only in front.
pub open spec fn well_typed(s: Seq<char>) -> bool {
    &&& forall|i: int| 0 <= i < s.len() ==> numeric_char(#[trigger] s[i])
    &&& forall|i: int| 0 <= i < s.len() && #[trigger] s[i] == '-' ==> i == 0
    &&& forall|i: int, j: int| 0 <= i < j < s.len() && #[trigger] s[i] == '.' ==> #[trigger] s[j] != '.'
}

/// The buffer after typing `c`: digits are appended, a dot only when there
/// is none yet, a minus sign only into an empty buffer; anything else is
/// ignored.
pub open spec fn typed(buffer: Seq<char>, c: char) -> Seq<char> {
    if is_ascii_digit(c) {
        buffer.push(c)
    } else if c == '.' {
        if buffer.contains('.') {
            buffer
        } else {
            buffer.push('.')
        }
    } else if c == '-' {
        if buffer.len() == 0 {
            buffer.push('-')
        } else {
            buffer
        }
    } else {
        buffer
    }
}

/// The buffer after typing each of `cs` in turn.
pub open spec fn typed_all(buffer: Seq<char>, cs: Seq<char>) -> Seq<char>
    decreases cs.len(),
{
    if cs.len() == 0 {
        buffer
    } else {
        typed(typed_all(buffer, cs.drop_last()), cs.last())
    }
}

/// Appends `ch` to `buffer` when it keeps the buffer a well-formed decimal
/// number in the making.
pub fn append_typed_char(buffer: &mut String, ch: char)
    ensures
        final(buffer)@ == typed(old(buffer)@, ch),
{
    if '0' <= ch && ch <= '9' {
        push_char(buffer, ch);
    } else if ch == '.' {
        let cs = chars_of(buffer.as_str());
        let mut i: usize = 0;
        while i < cs.len()
            invariant
                cs@ == buffer@,
                buffer@ == old(buffer)@,
                ch == '.',
                i <= cs@.len(),
                forall|k: int| 0 <= k < i ==> cs@[k] != '.',
            decreases cs@.len() - i,
        {
            if cs[i] == '.' {
                proof {
                    assert(buffer@[i as int] == '.');
                    assert(buffer@.contains('.'));
                }
                return;
            }
            i = i + 1;
        }
        push_char(buffer, '.');
    } else if ch == '-' {
        if buffer.as_str().is_empty() {
            push_char(buffer, '-');
        }
    }
}

proof fn lemma_typed_keeps_shape(buffer: Seq<char>, c: char)
    requires
        well_typed(buffer),
    ensures
        well_typed(typed(buffer, c)),
{
    let t = typed(buffer, c);
    if t != buffer {
        assert(t == buffer.push(c));
        assert forall|i: int| 0 <= i < t.len() && #[trigger] t[i] == '-' implies i == 0 by {
            if i < buffer.len() {
                assert(buffer[i] == t[i]);
            }
        }
        assert forall|i: int, j: int| 0 <= i < j < t.len() && #[trigger] t[i] == '.' implies #[trigger] t[j] != '.' by {
            if j < buffer.len() {
                assert(buffer[i] == t[i] && buffer[j] == t[j]);
            } else if c == '.' {
                assert(buffer[i] == '.');
                assert(buffer.contains('.'));
            }
        }
        assert forall|i: int| 0 <= i < t.len() implies numeric_char(#[trigger] t[i]) by {
            if i < buffer.len() {
                assert(buffer[i] == t[i]);
            }
        }
    }
}

proof fn lemma_drop_last_keeps_shape(buffer: Seq<char>)
    requires
        well_typed(buffer),
        buffer.len() > 0,
    ensures
        well_typed(buffer.drop_last()),
{
    let d = buffer.drop_last();
    assert forall|i: int| 0 <= i < d.len() implies numeric_char(#[trigger] d[i]) by {
        assert(d[i] == buffer[i]);
    }
    assert forall|i: int| 0 <= i < d.len() && #[trigger] d[i] == '-' implies i == 0 by {
        assert(d[i] == buffer[i]);
    }
    assert forall|i: int, j: int| 0 <= i < j < d.len() && #[trigger] d[i] == '.' implies #[trigger] d[j] != '.' by {
        assert(d[i] == buffer[i] && d[j] == buffer[j]);
    }
}

/// Moving to the next field and then back returns to the field one started
/// from, and so does moving back and then forward.
pub proof fn lemma_cycle_round_trip(active: nat, n: nat)
    requires
        active < n,
    ensures
        previous_index(next_index(active, n), n) == active,
        next_index(previous_index(active, n), n) == active,
{
    if active + 1 < n {
        assert((active + 1) % n == active + 1) by (nonlinear_arith)
            requires active + 1 < n;
        assert((active + 1 + n - 1) % (n as int) == active) by (nonlinear_arith)
            requires active + 1 < n;
    } else {
        assert((active + 1) % n == 0) by (nonlinear_arith)
            requires active + 1 == n;
        assert((0 + n - 1) % (n as int) == n - 1) by (nonlinear_arith)
            requires n > 0;
    }
    if active == 0 {
        assert((active + n - 1) % (n as int) == n - 1) by (nonlinear_arith)
            requires active == 0, n > 0;
        assert((n - 1 + 1) % (n as int) == 0) by (nonlinear_arith)
            requires n > 0;
    } else {
        assert((active + n - 1) % (n as int) == active - 1) by (nonlinear_arith)
            requires 0 < active < n;
        assert((active - 1 + 1) % (n as int) == active) by (nonlinear_arith)
            requires 0 < active < n;
    }
}

/// Typing a digit and then pressing backspace leaves the buffer as it was.
pub proof fn lemma_digit_then_backspace(buffer: Seq<char>, digit: char)
    requires
        is_ascii_digit(digit),
    ensures
        typed(buffer, digit).drop_last() == buffer,
{
    assert(buffer.push(digit).drop_last() =~= buffer);
}

/// What the dynamic-input state means: the text of each field buffer and
/// the index of the active one.
pub ghost struct DynamicInputView {
    pub buffers: Seq<Seq<char>>,
    pub active: nat,
}

/// Text buffers for the dynamic-input HUD. The interaction controller
/// appends keystrokes to the active buffer; Tab cycles; Enter commits.
#[derive(Debug)]
pub struct DynamicInputState {
    buffers: Vec<String>,
    active: usize,
}

impl View for DynamicInputState {
    type V = DynamicInputView;

    closed spec fn view(&self) -> DynamicInputView {
        DynamicInputView {
            buffers: self.buffers@.map_values(|b: String| b@),
            active: self.active as nat,
        }
    }
}

/// The index after `active` among `n` fields, wrapping to the first.
pub open spec fn next_index(active: nat, n: nat) -> nat {
    if n == 0 {
        active
    } else {
        ((active + 1) % n) as nat
    }
}

/// The index before `active` among `n` fields, wrapping to the last.
pub open spec fn previous_index(active: nat, n: nat) -> nat {
    if n == 0 {
        active
    } else {
        ((active + n - 1) as nat % n) as nat
    }
}

impl DynamicInputState {
    #[verifier::type_invariant]
    spec fn inv(self) -> bool {
        &&& (self.buffers@.len() == 0 ==> self.active == 0)
        &&& (self.buffers@.len() > 0 ==> self.active < self.buffers@.len())
        &&& forall|i: int| 0 <= i < self.buffers@.len() ==> well_typed(#[trigger] self.buffers@[i]@)
    }

    pub fn new() -> (s: Self)
        ensures
            s@.buffers.len() == 0,
            s@.active == 0,
    {
        DynamicInputState { buffers: Vec::new(), active: 0 }
    }

    /// Drops every buffer.
    pub fn clear(&mut self)
        ensures
            final(self)@.buffers.len() == 0,
            final(self)@.active == 0,
    {
        *self = DynamicInputState::new();
    }

    /// Makes one empty buffer per field when the field count changed;
    /// keeps the buffers as they are otherwise.
    pub fn sync(&mut self, field_count: usize)
        ensures
            old(self)@.buffers.len() == field_count ==> final(self)@ == old(self)@,
            old(self)@.buffers.len() != field_count ==> final(self)@.buffers
                == Seq::new(field_count as nat, |i: int| Seq::<char>::empty())
                && final(self)@.active == 0,
    {
        if self.buffers.len() != field_count {
            let mut buffers: Vec<String> = Vec::new();
            let mut i: usize = 0;
            while i < field_count
                invariant
                    i <= field_count,
                    buffers@.len() == i,
                    forall|k: int| 0 <= k < i ==> #[trigger] buffers@[k]@ == Seq::<char>::empty(),
                decreases field_count - i,
            {
                buffers.push(String::new());
                i = i + 1;
            }
            proof {
                assert forall|k: int| 0 <= k < buffers@.len() implies well_typed(#[trigger] buffers@[k]@) by {
                    assert(buffers@[k]@ == Seq::<char>::empty());
                }
            }
            *self = DynamicInputState { buffers, active: 0 };
            proof {
                assert(self@.buffers =~= Seq::new(field_count as nat, |i: int| Seq::<char>::empty()));
            }
        }
    }

    /// Moves to the next field, wrapping to the first.
    pub fn cycle(&mut self)
        ensures
            final(self)@.buffers == old(self)@.buffers,
            final(self)@.active == next_index(old(self)@.active, old(self)@.buffers.len()),
    {
        proof {
            use_type_invariant(&*self);
        }
        if self.buffers.len() > 0 {
            self.active = (self.active + 1) % self.buffers.len();
        }
    }

    /// Moves to the previous field, wrapping to the last.
    pub fn cycle_back(&mut self)
        ensures
            final(self)@.buffers == old(self)@.buffers,
            final(self)@.active == previous_index(old(self)@.active, old(self)@.buffers.len()),
    {
        proof {
            use_type_invariant(&*self);
        }
        let n = self.buffers.len();
        if n > 0 {
            let next = if self.active == 0 { n - 1 } else { self.active - 1 };
            proof {
                let a = self.active as int;
                if a == 0 {
                    assert((a + n - 1) % (n as int) == n - 1) by (nonlinear_arith)
                        requires a == 0, n > 0;
                } else {
                    assert((a + n - 1) % (n as int) == a - 1) by (nonlinear_arith)
                        requires 0 < a < n;
                }
            }
            self.active = next;
        }
    }

    /// True when every buffer is empty.
    pub fn is_empty(&self) -> (r: bool)
        ensures
            r == forall|i: int| 0 <= i < self@.buffers.len() ==> #[trigger] self@.buffers[i].len() == 0,
    {
        let mut i: usize = 0;
        while i < self.buffers.len()
            invariant
                i <= self.buffers@.len(),
                forall|k: int| 0 <= k < i ==> #[trigger] self@.buffers[k].len() == 0,
            decreases self.buffers@.len() - i,
        {
            if !self.buffers[i].as_str().is_empty() {
                proof {
                    assert(self@.buffers[i as int] == self.buffers@[i as int]@);
                }
                return false;
            }
            proof {
                assert(self@.buffers[i as int] == self.buffers@[i as int]@);
            }
            i = i + 1;
        }
        true
    }

    /// True when some buffer holds text. Buffers only ever hold digits, dots
    /// and minus signs, so no buffer is blank without being empty.
    pub fn has_any_text(&self) -> (r: bool)
        ensures
            r == exists|i: int| 0 <= i < self@.buffers.len() && #[trigger] self@.buffers[i].len() > 0,
    {
        let empty = self.is_empty();
        proof {
            if !empty {
                let i = choose|i: int| 0 <= i < self@.buffers.len() && !(#[trigger] self@.buffers[i].len() == 0);
                assert(self@.buffers[i].len() > 0);
            }
        }
        !empty
    }

    /// The active field; it is a field whenever there are fields.
    pub fn active_index(&self) -> (i: usize)
        ensures
            i == self@.active,
            self@.buffers.len() == 0 ==> i == 0,
            self@.buffers.len() > 0 ==> i < self@.buffers.len(),
    {
        proof {
            use_type_invariant(self);
        }
        self.active
    }

    /// The text of buffer `index`, if there is such a field. A buffer
    /// always holds digits, at most one dot, and a minus sign only in front.
    pub fn buffer_text(&self, index: usize) -> (r: Option<&str>)
        ensures
            index < self@.buffers.len() ==> (r matches Some(t) && t@ == self@.buffers[index as int]),
            index >= self@.buffers.len() ==> r is None,
            r matches Some(t) ==> well_typed(t@),
    {
        proof {
            use_type_invariant(self);
        }
        if index < self.buffers.len() {
            Some(self.buffers[index].as_str())
        } else {
            None
        }
    }

    /// Empties the active buffer; true when it held text.
    pub fn clear_active_buffer(&mut self) -> (cleared: bool)
        ensures
            final(self)@.active == old(self)@.active,
            old(self)@.active < old(self)@.buffers.len() && old(self)@.buffers[old(self)@.active as int].len() > 0
                ==> cleared && final(self)@.buffers == old(self)@.buffers.update(
                old(self)@.active as int,
                Seq::<char>::empty(),
            ),
            !(old(self)@.active < old(self)@.buffers.len() && old(self)@.buffers[old(self)@.active as int].len() > 0)
                ==> !cleared && final(self)@ == old(self)@,
    {
        proof {
            use_type_invariant(&*self);
        }
        if self.active >= self.buffers.len() {
            return false;
        }
        if self.buffers[self.active].as_str().is_empty() {
            proof {
                assert(self@.buffers[self.active as int] == self.buffers@[self.active as int]@);
            }
            return false;
        }
        let active = self.active;
        let mut buffers = self.take_buffers();
        buffers.set(active, String::new());
        proof {
            assert(well_typed(Seq::<char>::empty()));
            assert forall|i: int| 0 <= i < buffers@.len() implies well_typed(#[trigger] buffers@[i]@) by {
                if i != active {
                    assert(buffers@[i] == old(self).buffers@[i]);
                }
            }
        }
        *self = DynamicInputState { buffers, active };
        proof {
            assert(self@.buffers =~= old(self)@.buffers.update(
                old(self)@.active as int,
                Seq::<char>::empty(),
            ));
        }
        true
    }

    fn take_buffers(&mut self) -> (b: Vec<String>)
        ensures
            b@ == old(self).buffers@,
            final(self)@.buffers.len() == 0,
            final(self)@.active == 0,
    {
        let mut taken = DynamicInputState::new();
        std::mem::swap(self, &mut taken);
        let DynamicInputState { buffers, .. } = taken;
        buffers
    }

    /// Types each of `chars` into the active buffer; does nothing when
    /// there are no fields.
    pub fn append_typed_chars(&mut self, chars: &[char])
        ensures
            final(self)@.active == old(self)@.active,
            old(self)@.buffers.len() == 0 ==> final(self)@ == old(self)@,
            old(self)@.buffers.len() > 0 ==> final(self)@.buffers == old(self)@.buffers.update(
                old(self)@.active as int,
                typed_all(old(self)@.buffers[old(self)@.active as int], chars@),
            ),
    {
        proof {
            use_type_invariant(&*self);
        }
        if self.active >= self.buffers.len() {
            return;
        }
        let active = self.active;
        let mut buffer = self.buffers[active].clone();
        let ghost start = buffer@;
        let mut i: usize = 0;
        while i < chars.len()
            invariant
                i <= chars@.len(),
                well_typed(start),
                buffer@ == typed_all(start, chars@.subrange(0, i as int)),
                well_typed(buffer@),
            decreases chars@.len() - i,
        {
            proof {
                assert(chars@.subrange(0, i + 1).drop_last() =~= chars@.subrange(0, i as int));
                lemma_typed_keeps_shape(buffer@, chars@[i as int]);
            }
            append_typed_char(&mut buffer, chars[i]);
            i = i + 1;
        }
        proof {
            assert(chars@.subrange(0, chars@.len() as int) =~= chars@);
        }
        let mut buffers = self.take_buffers();
        buffers.set(active, buffer);
        proof {
            assert forall|k: int| 0 <= k < buffers@.len() implies well_typed(#[trigger] buffers@[k]@) by {
                if k != active {
                    assert(buffers@[k] == old(self).buffers@[k]);
                }
            }
        }
        *self = DynamicInputState { buffers, active };
        proof {
            assert(self@.buffers =~= old(self)@.buffers.update(
                old(self)@.active as int,
                typed_all(old(self)@.buffers[old(self)@.active as int], chars@),
            ));
        }
    }

    /// Removes the last character of the active buffer; true when there was
    /// one to remove.
    pub fn backspace_active(&mut self) -> (removed: bool)
        ensures
            final(self)@.active == old(self)@.active,
            old(self)@.active < old(self)@.buffers.len() && old(self)@.buffers[old(self)@.active as int].len() > 0
                ==> removed && final(self)@.buffers == old(self)@.buffers.update(
                old(self)@.active as int,
                old(self)@.buffers[old(self)@.active as int].drop_last(),
            ),
            !(old(self)@.active < old(self)@.buffers.len() && old(self)@.buffers[old(self)@.active as int].len() > 0)
                ==> !removed && final(self)@ == old(self)@,
    {
        proof {
            use_type_invariant(&*self);
        }
        if self.active >= self.buffers.len() {
            return false;
        }
        let active = self.active;
        let mut buffer = self.buffers[active].clone();
        let popped = pop_char(&mut buffer);
        if popped.is_none() {
            proof {
                assert(self@.buffers[active as int] == self.buffers@[active as int]@);
            }
            return false;
        }
        proof {
            lemma_drop_last_keeps_shape(self.buffers@[active as int]@);
        }
        let mut buffers = self.take_buffers();
        buffers.set(active, buffer);
        proof {
            assert forall|k: int| 0 <= k < buffers@.len() implies well_typed(#[trigger] buffers@[k]@) by {
                if k != active {
                    assert(buffers@[k] == old(self).buffers@[k]);
                }
            }
        }
        *self = DynamicInputState { buffers, active };
        proof {
            assert(self@.buffers =~= old(self)@.buffers.update(
                old(self)@.active as int,
                old(self)@.buffers[old(self)@.active as int].drop_last(),
            ));
        }
        true
    }
}

/// How far a buffer is from a number: empty; a sign or dot that cannot be
/// read yet ("-", ".", "-."); or text that reads as a decimal number.
#[derive(Clone, Copy, Debug, PartialEq, Eq, Structural)]
pub enum BufferShape {
    Empty,
    Incomplete,
    Number,
}

pub open spec fn shape_of(s: Seq<char>) -> BufferShape {
    if s.len() == 0 {
        BufferShape::Empty
    } else if s == seq!['-'] || s == seq!['.'] || s == seq!['-', '.'] {
        BufferShape::Incomplete
    } else {
        BufferShape::Number
    }
}

/// How a dynamic field is drawn.
#[derive(Clone, Copy, Debug, PartialEq, Eq, Structural)]
pub enum DynamicFieldVisualState {
    Preview,
    Valid,
    Incomplete,
    InvalidParse,
    InvalidGeometry,
}

/// The drawing state of a field: an empty buffer shows the preview; a
/// buffer that cannot be read yet is incomplete; a number that does not
/// read as a finite value is an invalid parse; a finite value is valid
/// when the tool accepts it and invalid geometry when it does not.
pub open spec fn spec_visual_state(shape: BufferShape, finite: bool, accepted: bool) -> DynamicFieldVisualState {
    match shape {
        BufferShape::Empty => DynamicFieldVisualState::Preview,
        BufferShape::Incomplete => DynamicFieldVisualState::Incomplete,
        BufferShape::Number => if !finite {
            DynamicFieldVisualState::InvalidParse
        } else if accepted {
            DynamicFieldVisualState::Valid
        } else {
            DynamicFieldVisualState::InvalidGeometry
        },
    }
}

pub fn visual_state(shape: BufferShape, finite: bool, accepted: bool) -> (v: DynamicFieldVisualState)
    ensures
        v == spec_visual_state(shape, finite, accepted),
{
    match shape {
        BufferShape::Empty => DynamicFieldVisualState::Preview,
        BufferShape::Incomplete => DynamicFieldVisualState::Incomplete,
        BufferShape::Number => if !finite {
            DynamicFieldVisualState::InvalidParse
        } else if accepted {
            DynamicFieldVisualState::Valid
        } else {
            DynamicFieldVisualState::InvalidGeometry
        },
    }
}

/// What the HUD draws for one dynamic field.
#[derive(Clone, Debug)]
pub struct DynamicFieldView {
    pub label: &'static str,
    pub unit: &'static str,
    pub text: String,
    pub active: bool,
    pub state: DynamicFieldVisualState,
}

impl DynamicInputState {
    /// The shape of buffer `index`, if there is such a field.
    pub fn buffer_shape(&self, index: usize) -> (r: Option<BufferShape>)
        ensures
            index < self@.buffers.len() ==> r == Some(shape_of(self@.buffers[index as int])),
            index >= self@.buffers.len() ==> r is None,
    {
        let text = match self.buffer_text(index) {
            Some(t) => t,
            None => return None,
        };
        let cs = chars_of(text);
        let n = cs.len();
        if n == 0 {
            return Some(BufferShape::Empty);
        }
        let incomplete = (n == 1 && (cs[0] == '-' || cs[0] == '.')) || (n == 2 && cs[0] == '-' && cs[1]
            == '.');
        proof {
            let s = self@.buffers[index as int];
            assert(cs@ == s);
            if n == 1 && cs[0] == '-' {
                assert(s =~= seq!['-']);
            }
            if n == 1 && cs[0] == '.' {
                assert(s =~= seq!['.']);
            }
            if n == 2 && cs[0] == '-' && cs[1] == '.' {
                assert(s =~= seq!['-', '.']);
            }
            if s == seq!['-'] || s == seq!['.'] {
                assert(s.len() == 1 && s[0] == cs[0]);
            }
            if s == seq!['-', '.'] {
                assert(s.len() == 2 && s[0] == cs[0] && s[1] == cs[1]);
            }
        }
        if incomplete {
            Some(BufferShape::Incomplete)
        } else {
            Some(BufferShape::Number)
        }
    }

    /// The view of field `index` with the given label and unit. An empty
    /// buffer shows `preview_text`; any other buffer shows its own text.
    /// `finite` tells whether the buffer reads as a finite number and
    /// `accepted` whether the tool accepts that number.
    pub fn field_view(
        &self,
        index: usize,
        label: &'static str,
        unit: &'static str,
        preview_text: String,
        finite: bool,
        accepted: bool,
    ) -> (v: DynamicFieldView)
        ensures
            v.label == label,
            v.unit == unit,
            v.active == (index == self@.active),
            index < self@.buffers.len() ==> {
                let shape = shape_of(self@.buffers[index as int]);
                &&& v.state == spec_visual_state(shape, finite, accepted)
                &&& v.text@ == (if shape == BufferShape::Empty {
                    preview_text@
                } else {
                    self@.buffers[index as int]
                })
            },
            index >= self@.buffers.len() ==> v.state == DynamicFieldVisualState::Preview
                && v.text@ == preview_text@,
    {
        let shape = match self.buffer_shape(index) {
            Some(s) => s,
            None => BufferShape::Empty,
        };
        let text = match shape {
            BufferShape::Empty => preview_text,
            _ => match self.buffer_text(index) {
                Some(t) => t.to_owned(),
                None => preview_text,
            },
        };
        DynamicFieldView {
            label,
            unit,
            text,
            active: index == self.active,
            state: visual_state(shape, finite, accepted),
        }
    }

    /// Whether the typed values may be committed: every buffer is empty or
    /// holds a number that `number_ok` marks as finite and accepted by the
    /// tool, index for index.
    pub fn accepts(&self, number_ok: &[bool]) -> (r: bool)
        requires
            number_ok@.len() == self@.buffers.len(),
        ensures
            r == forall|i: int|
                0 <= i < self@.buffers.len() ==> {
                    let shape = shape_of(#[trigger] self@.buffers[i]);
                    shape == BufferShape::Empty || (shape == BufferShape::Number && number_ok@[i])
                },
    {
        let mut i: usize = 0;
        while i < number_ok.len()
            invariant
                number_ok@.len() == self@.buffers.len(),
                i <= number_ok@.len(),
                forall|k: int|
                    0 <= k < i ==> {
                        let shape = shape_of(#[trigger] self@.buffers[k]);
                        shape == BufferShape::Empty || (shape == BufferShape::Number && number_ok@[k])
                    },
            decreases number_ok@.len() - i,
        {
            let ok = match self.buffer_shape(i) {
                Some(BufferShape::Empty) => true,
                Some(BufferShape::Number) => number_ok[i],
                _ => false,
            };
            if !ok {
                return false;
            }
            i = i + 1;
        }
        true
    }
}

impl DynamicInputState {
    /// Gets ready for a tool with `field_count` fields: a tool without
    /// fields drops every buffer and the answer is false; otherwise there is
    /// one buffer per field (kept when the count is unchanged) and the
    /// answer is true.
    pub fn prepare(&mut self, field_count: usize) -> (ready: bool)
        ensures
            ready == (field_count > 0),
            field_count == 0 ==> final(self)@.buffers.len() == 0 && final(self)@.active == 0,
            field_count > 0 && old(self)@.buffers.len() == field_count ==> final(self)@ == old(self)@,
            field_count > 0 && old(self)@.buffers.len() != field_count ==> final(self)@.buffers
                == Seq::new(field_count as nat, |i: int| Seq::<char>::empty()) && final(self)@.active == 0,
    {
        if field_count == 0 {
            self.clear();
            return false;
        }
        self.sync(field_count);
        true
    }

    /// Escape empties the active buffer when it holds text, and the answer
    /// is true: the tool keeps its state. Otherwise every buffer is dropped
    /// and the answer is false: the tool cancels.
    pub fn escape(&mut self) -> (handled: bool)
        ensures
            handled == (old(self)@.active < old(self)@.buffers.len()
                && old(self)@.buffers[old(self)@.active as int].len() > 0),
            handled ==> final(self)@.active == old(self)@.active && final(self)@.buffers
                == old(self)@.buffers.update(old(self)@.active as int, Seq::<char>::empty()),
            !handled ==> final(self)@.buffers.len() == 0 && final(self)@.active == 0,
    {
        if self.clear_active_buffer() {
            return true;
        }
        self.clear();
        false
    }

    /// A click commits the typed values, instead of reaching the tool, when
    /// the tool has fields and some buffer holds text.
    pub fn click_commits(&self, field_count: usize) -> (r: bool)
        ensures
            r == (field_count > 0 && exists|i: int|
                0 <= i < self@.buffers.len() && #[trigger] self@.buffers[i].len() > 0),
    {
        field_count > 0 && self.has_any_text()
    }

    /// Applies one frame of keyboard input: the typed characters, then a
    /// backspace, then Shift+Tab (back) or else Tab (forward).
    pub fn apply_keys(&mut self, typed: &[char], backspace: bool, cycle_back: bool, cycle_next: bool)
        ensures
            ({
                let b = old(self)@.buffers;
                let a = old(self)@.active;
                let after_typing = if b.len() == 0 {
                    b
                } else {
                    b.update(a as int, typed_all(b[a as int], typed@))
                };
                let after_backspace = if backspace && a < b.len() && after_typing[a as int].len() > 0 {
                    after_typing.update(a as int, after_typing[a as int].drop_last())
                } else {
                    after_typing
                };
                &&& final(self)@.buffers == after_backspace
                &&& final(self)@.active == (if cycle_back {
                    previous_index(a, b.len())
                } else if cycle_next {
                    next_index(a, b.len())
                } else {
                    a
                })
            }),
    {
        proof {
            use_type_invariant(&*self);
        }
        self.append_typed_chars(typed);
        let ghost typed_state = self@;
        if backspace {
            self.backspace_active();
        }
        proof {
            assert(self@.buffers.len() == old(self)@.buffers.len());
            assert(self@.active == old(self)@.active);
        }
        if cycle_back {
            self.cycle_back();
        } else if cycle_next {
            self.cycle();
        }
    }
}

impl Default for DynamicInputState {
    fn default() -> (s: Self)
        ensures
            s@.buffers.len() == 0,
            s@.active == 0,
    {
        DynamicInputState::new()
    }
}

impl Clone for DynamicInputState {
    fn clone(&self) -> (c: Self)
        ensures
            c@ == self@,
    {
        proof {
            use_type_invariant(self);
        }
        let mut buffers: Vec<String> = Vec::new();
        let mut i: usize = 0;
        while i < self.buffers.len()
            invariant
                i <= self.buffers@.len(),
                buffers@.len() == i,
                forall|k: int| 0 <= k < i ==> #[trigger] buffers@[k] == self.buffers@[k],
            decreases self.buffers@.len() - i,
        {
            buffers.push(self.buffers[i].clone());
            i = i + 1;
        }
        proof {
            assert(buffers@ =~= self.buffers@);
        }
        DynamicInputState { buffers, active: self.active }
    }
}

} // verus!
