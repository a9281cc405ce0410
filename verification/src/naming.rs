//! Serial numbers in body and feature names ("Body 3", "Extrude 12"), so a
//! reloaded project keeps numbering new objects after the ones it has.

use vstd::prelude::*;

use crate::text::{chars_of, decimal_digits, decimal_string, parse_usize, parsed_usize, push_char};

verus! {

/// The serial of `name` when it reads `prefix`, a space, then a decimal
/// number.
pub open spec fn prefixed_serial(name: Seq<char>, prefix: Seq<char>) -> Option<usize> {
    let n = prefix.len();
    if name.len() > n && name.subrange(0, n as int) == prefix && name[n as int] == ' ' {
        parsed_usize(name.subrange(n as int + 1, name.len() as int))
    } else {
        None
    }
}

/// The position of the last space in `name`.
pub open spec fn last_space(name: Seq<char>) -> Option<int>
    decreases name.len(),
{
    if name.len() == 0 {
        None
    } else if name.last() == ' ' {
        Some(name.len() - 1)
    } else {
        last_space(name.drop_last())
    }
}

/// The serial of `name` when the text after its last space is a decimal
/// number.
pub open spec fn trailing_serial(name: Seq<char>) -> Option<usize> {
    match last_space(name) {
        Some(j) => parsed_usize(name.subrange(j + 1, name.len() as int)),
        None => None,
    }
}

/// `prefix`, a space, then the serial in decimal.
pub open spec fn serial_name(prefix: Seq<char>, serial: nat) -> Seq<char> {
    prefix.push(' ') + decimal_digits(serial)
}

/// The number a new object gets: one past the largest serial found among
/// `serials`, and never below `count + 1`.
pub open spec fn next_serial(serials: Seq<Option<usize>>, count: nat) -> nat
    decreases serials.len(),
{
    if serials.len() == 0 {
        count + 1
    } else {
        let rest = next_serial(serials.drop_last(), count);
        match serials.last() {
            Some(s) => if s + 1 > rest { (s + 1) as nat } else { rest },
            None => rest,
        }
    }
}

/// Reads the serial out of a name of the form `prefix` + " " + number.
pub fn parse_prefixed_serial(name: &str, prefix: &str) -> (r: Option<usize>)
    ensures
        r == prefixed_serial(name@, prefix@),
{
    let name_chars = chars_of(name);
    let prefix_chars = chars_of(prefix);
    let n = prefix_chars.len();
    if name_chars.len() <= n {
        return None;
    }
    let mut i: usize = 0;
    while i < n
        invariant
            n == prefix@.len(),
            n < name@.len(),
            name_chars@ == name@,
            prefix_chars@ == prefix@,
            i <= n,
            forall|k: int| 0 <= k < i ==> name@[k] == prefix@[k],
        decreases n - i,
    {
        if name_chars[i] != prefix_chars[i] {
            proof {
                assert(name@.subrange(0, n as int)[i as int] != prefix@[i as int]);
            }
            return None;
        }
        i = i + 1;
    }
    proof {
        assert(name@.subrange(0, n as int) =~= prefix@);
    }
    if name_chars[n] != ' ' {
        return None;
    }
    let mut rest: Vec<char> = Vec::new();
    let mut j: usize = n + 1;
    while j < name_chars.len()
        invariant
            n < name@.len(),
            name_chars@ == name@,
            n + 1 <= j <= name@.len(),
            rest@ == name@.subrange(n + 1, j as int),
        decreases name@.len() - j,
    {
        rest.push(name_chars[j]);
        j = j + 1;
        proof {
            assert(rest@ =~= name@.subrange(n + 1, j as int));
        }
    }
    parse_usize(&rest)
}

fn find_last_space(cs: &[char]) -> (r: Option<usize>)
    ensures
        match r {
            Some(j) => last_space(cs@) == Some(j as int),
            None => last_space(cs@) is None,
        },
{
    let mut i: usize = cs.len();
    proof {
        assert(cs@.subrange(0, cs@.len() as int) =~= cs@);
    }
    while i > 0
        invariant
            i <= cs@.len(),
            last_space(cs@) == last_space(cs@.subrange(0, i as int)),
        decreases i,
    {
        if cs[i - 1] == ' ' {
            proof {
                assert(cs@.subrange(0, i as int).last() == ' ');
            }
            return Some(i - 1);
        }
        proof {
            assert(cs@.subrange(0, i as int).drop_last() =~= cs@.subrange(0, i - 1));
        }
        i = i - 1;
    }
    None
}

/// Reads the serial out of the text after the last space of `name`.
pub fn parse_trailing_serial(name: &str) -> (r: Option<usize>)
    ensures
        r == trailing_serial(name@),
{
    let cs = chars_of(name);
    proof {
        assert(cs@.subrange(0, cs@.len() as int) =~= cs@);
    }
    let found = find_last_space(&cs);
    let j = match found {
        Some(j) => j,
        None => return None,
    };
    proof {
        lemma_last_space_bound(cs@);
        assert(last_space(cs@) == Some(j as int));
        assert(j < cs@.len());
    }
    let mut rest: Vec<char> = Vec::new();
    let mut k: usize = j + 1;
    while k < cs.len()
        invariant
            j < cs@.len(),
            j + 1 <= k <= cs@.len(),
            rest@ == cs@.subrange(j + 1, k as int),
        decreases cs@.len() - k,
    {
        rest.push(cs[k]);
        k = k + 1;
        proof {
            assert(rest@ =~= cs@.subrange(j + 1, k as int));
        }
    }
    parse_usize(&rest)
}

proof fn lemma_last_space_bound(s: Seq<char>)
    ensures
        match last_space(s) {
            Some(j) => 0 <= j < s.len() && s[j] == ' ',
            None => true,
        },
    decreases s.len(),
{
    if s.len() > 0 && s.last() != ' ' {
        lemma_last_space_bound(s.drop_last());
    }
}

fn next_serial_from(serials: &[Option<usize>], count: usize) -> (n: usize)
    requires
        count < usize::MAX,
        forall|k: int| 0 <= k < serials@.len() ==> serials@[k] != Some(usize::MAX),
    ensures
        n == next_serial(serials@, count as nat),
{
    let mut best: usize = count + 1;
    let mut i: usize = 0;
    while i < serials.len()
        invariant
            i <= serials@.len(),
            count < usize::MAX,
            forall|k: int| 0 <= k < serials@.len() ==> serials@[k] != Some(usize::MAX),
            best == next_serial(serials@.subrange(0, i as int), count as nat),
        decreases serials@.len() - i,
    {
        proof {
            assert(serials@.subrange(0, i + 1).drop_last() =~= serials@.subrange(0, i as int));
        }
        match serials[i] {
            Some(s) => {
                if s + 1 > best {
                    best = s + 1;
                }
            },
            None => {},
        }
        i = i + 1;
    }
    proof {
        assert(serials@.subrange(0, serials@.len() as int) =~= serials@);
    }
    best
}

/// The serials of `names` read with `read`.
pub open spec fn body_serials(names: Seq<String>) -> Seq<Option<usize>> {
    names.map_values(|n: String| prefixed_serial(n@, "Body"@))
}

pub open spec fn feature_serials(names: Seq<String>) -> Seq<Option<usize>> {
    names.map_values(|n: String| trailing_serial(n@))
}

/// The serial for the next new body, given the names of the existing
/// bodies: one past the largest "Body N" found, and at least one past the
/// number of bodies.
pub fn next_body_serial(names: &[String]) -> (n: usize)
    requires
        names@.len() < usize::MAX,
        forall|k: int| 0 <= k < names@.len() ==> prefixed_serial(#[trigger] names@[k]@, "Body"@)
            != Some(usize::MAX),
    ensures
        n == next_serial(body_serials(names@), names@.len()),
{
    let mut serials: Vec<Option<usize>> = Vec::new();
    let mut i: usize = 0;
    while i < names.len()
        invariant
            i <= names@.len(),
            serials@ == body_serials(names@.subrange(0, i as int)),
        decreases names@.len() - i,
    {
        serials.push(parse_prefixed_serial(names[i].as_str(), "Body"));
        i = i + 1;
        proof {
            assert(serials@ =~= body_serials(names@.subrange(0, i as int)));
        }
    }
    proof {
        assert(names@.subrange(0, names@.len() as int) =~= names@);
        assert forall|k: int| 0 <= k < serials@.len() implies serials@[k] != Some(usize::MAX) by {
            assert(serials@[k] == prefixed_serial(names@[k]@, "Body"@));
        }
    }
    next_serial_from(&serials, names.len())
}

/// The serial for the next new feature, given the names of the existing
/// features: one past the largest trailing number found, and at least one
/// past the number of features.
pub fn next_feature_serial(names: &[String]) -> (n: usize)
    requires
        names@.len() < usize::MAX,
        forall|k: int| 0 <= k < names@.len() ==> trailing_serial(#[trigger] names@[k]@) != Some(
            usize::MAX,
        ),
    ensures
        n == next_serial(feature_serials(names@), names@.len()),
{
    let mut serials: Vec<Option<usize>> = Vec::new();
    let mut i: usize = 0;
    while i < names.len()
        invariant
            i <= names@.len(),
            serials@ == feature_serials(names@.subrange(0, i as int)),
        decreases names@.len() - i,
    {
        serials.push(parse_trailing_serial(names[i].as_str()));
        i = i + 1;
        proof {
            assert(serials@ =~= feature_serials(names@.subrange(0, i as int)));
        }
    }
    proof {
        assert(names@.subrange(0, names@.len() as int) =~= names@);
        assert forall|k: int| 0 <= k < serials@.len() implies serials@[k] != Some(usize::MAX) by {
            assert(serials@[k] == trailing_serial(names@[k]@));
        }
    }
    next_serial_from(&serials, names.len())
}

/// The name `prefix` + " " + `serial`, as new bodies ("Body") and features
/// ("Extrude", "Revolve") are named.
pub fn serial_name_string(prefix: &str, serial: usize) -> (s: String)
    ensures
        s@ == serial_name(prefix@, serial as nat),
{
    let mut s = prefix.to_owned();
    push_char(&mut s, ' ');
    let digits = decimal_string(serial as u64);
    s.append(digits.as_str());
    s
}

/// The serials the next new body and the next new feature will get, as a
/// project keeps them: fresh projects start both at one; a loaded project
/// starts past the serials found in its names.
#[derive(Clone, Copy, Debug, PartialEq, Eq, Structural)]
pub struct SerialCounters {
    pub next_body_serial: usize,
    pub next_feature_serial: usize,
}

impl SerialCounters {
    /// The counters of a new project.
    pub fn new() -> (c: Self)
        ensures
            c.next_body_serial == 1,
            c.next_feature_serial == 1,
    {
        SerialCounters { next_body_serial: 1, next_feature_serial: 1 }
    }

    /// The counters of a project loaded with bodies and features of these
    /// names.
    pub fn from_names(body_names: &[String], feature_names: &[String]) -> (c: Self)
        requires
            body_names@.len() < usize::MAX,
            feature_names@.len() < usize::MAX,
            forall|k: int| 0 <= k < body_names@.len() ==> prefixed_serial(#[trigger] body_names@[k]@, "Body"@)
                != Some(usize::MAX),
            forall|k: int| 0 <= k < feature_names@.len() ==> trailing_serial(#[trigger] feature_names@[k]@)
                != Some(usize::MAX),
        ensures
            c.next_body_serial == next_serial(body_serials(body_names@), body_names@.len()),
            c.next_feature_serial == next_serial(feature_serials(feature_names@), feature_names@.len()),
    {
        SerialCounters {
            next_body_serial: next_body_serial(body_names),
            next_feature_serial: next_feature_serial(feature_names),
        }
    }

    /// Names a new body "Body N" with the next body serial and advances it.
    pub fn allocate_body_name(&mut self) -> (name: String)
        requires
            old(self).next_body_serial < usize::MAX,
        ensures
            name@ == serial_name("Body"@, old(self).next_body_serial as nat),
            final(self).next_body_serial == old(self).next_body_serial + 1,
            final(self).next_feature_serial == old(self).next_feature_serial,
    {
        let name = serial_name_string("Body", self.next_body_serial);
        self.next_body_serial = self.next_body_serial + 1;
        name
    }

    /// Names a new feature `prefix` + " N" with the next feature serial and
    /// advances it.
    pub fn allocate_feature_name(&mut self, prefix: &str) -> (name: String)
        requires
            old(self).next_feature_serial < usize::MAX,
        ensures
            name@ == serial_name(prefix@, old(self).next_feature_serial as nat),
            final(self).next_feature_serial == old(self).next_feature_serial + 1,
            final(self).next_body_serial == old(self).next_body_serial,
    {
        let name = serial_name_string(prefix, self.next_feature_serial);
        self.next_feature_serial = self.next_feature_serial + 1;
        name
    }
}

/// Names given out one after another never repeat: the serials differ, and
/// each name reads back as its serial.
pub proof fn lemma_allocated_names_differ(prefix: Seq<char>, first: usize, second: usize)
    requires
        first < second,
    ensures
        serial_name(prefix, first as nat) != serial_name(prefix, second as nat),
{
    lemma_serial_name_round_trip(prefix, first);
    lemma_serial_name_round_trip(prefix, second);
}

} // verus!


verus! {

proof fn lemma_decimal_digits_parse(n: nat)
    requires
        n <= usize::MAX,
    ensures
        decimal_digits(n).len() > 0,
        crate::text::all_digits(decimal_digits(n)),
        crate::text::decimal_value(decimal_digits(n)) == n,
        decimal_digits(n)[0] != '+',
        !decimal_digits(n).contains(' '),
        parsed_usize(decimal_digits(n)) == Some(n as usize),
    decreases n,
{
    let d = decimal_digits(n);
    if n < 10 {
        assert(d.drop_last() =~= Seq::<char>::empty());
        assert(crate::text::decimal_value(d.drop_last()) == 0);
    } else {
        lemma_decimal_digits_parse(n / 10);
        let p = decimal_digits(n / 10);
        assert(d.drop_last() =~= p);
        assert(d[0] == p[0]);
        assert forall|i: int| 0 <= i < d.len() implies crate::text::is_ascii_digit(#[trigger] d[i]) by {
            if i < p.len() {
                assert(d[i] == p[i]);
            }
        }
        assert(!d.contains(' ')) by {
            if d.contains(' ') {
                let i = choose|i: int| 0 <= i < d.len() && d[i] == ' ';
                if i < p.len() {
                    assert(d[i] == p[i]);
                    assert(p.contains(' '));
                }
            }
        }
        assert(n == (n / 10) * 10 + n % 10);
    }
}

/// Reading the serial back out of a generated "prefix N" name gives N.
pub proof fn lemma_serial_name_round_trip(prefix: Seq<char>, serial: usize)
    ensures
        prefixed_serial(serial_name(prefix, serial as nat), prefix) == Some(serial),
        trailing_serial(serial_name(prefix, serial as nat)) == Some(serial),
{
    let name = serial_name(prefix, serial as nat);
    let d = decimal_digits(serial as nat);
    lemma_decimal_digits_parse(serial as nat);
    let n = prefix.len();
    assert(name.subrange(0, n as int) =~= prefix);
    assert(name[n as int] == ' ');
    assert(name.subrange(n as int + 1, name.len() as int) =~= d);
    lemma_last_space_of_digits(prefix.push(' '), d);
}

proof fn lemma_last_space_of_digits(head: Seq<char>, d: Seq<char>)
    requires
        head.len() > 0,
        head.last() == ' ',
        !d.contains(' '),
    ensures
        last_space(head + d) == Some(head.len() - 1),
    decreases d.len(),
{
    if d.len() == 0 {
        assert(head + d =~= head);
    } else {
        assert((head + d).drop_last() =~= head + d.drop_last());
        assert((head + d).last() == d.last());
        assert(!d.drop_last().contains(' ')) by {
            if d.drop_last().contains(' ') {
                let i = choose|i: int| 0 <= i < d.drop_last().len() && d.drop_last()[i] == ' ';
                assert(d[i] == ' ');
            }
        }
        assert(d.last() != ' ') by {
            if d.last() == ' ' {
                assert(d[d.len() - 1] == ' ');
            }
        }
        lemma_last_space_of_digits(head, d.drop_last());
    }
}

proof fn lemma_next_serial_above(serials: Seq<Option<usize>>, count: nat)
    ensures
        next_serial(serials, count) > count,
        forall|k: int| 0 <= k < serials.len() && #[trigger] serials[k] is Some
            ==> next_serial(serials, count) > serials[k]->Some_0,
    decreases serials.len(),
{
    if serials.len() > 0 {
        lemma_next_serial_above(serials.drop_last(), count);
        assert forall|k: int| 0 <= k < serials.len() && #[trigger] serials[k] is Some
            implies next_serial(serials, count) > serials[k]->Some_0 by {
            if k < serials.len() - 1 {
                assert(serials.drop_last()[k] == serials[k]);
            }
        }
    }
}

/// The name given to a new body never repeats the name of an existing
/// body, and its serial is larger than every serial already in use.
pub proof fn lemma_new_body_name_is_fresh(names: Seq<String>)
    requires
        forall|k: int| 0 <= k < names.len() ==> prefixed_serial(#[trigger] names[k]@, "Body"@)
            != Some(usize::MAX),
        next_serial(body_serials(names), names.len()) <= usize::MAX,
    ensures
        forall|k: int| 0 <= k < names.len() ==> #[trigger] names[k]@ != serial_name(
            "Body"@,
            next_serial(body_serials(names), names.len()),
        ),
{
    let next = next_serial(body_serials(names), names.len());
    lemma_next_serial_above(body_serials(names), names.len());
    assert forall|k: int| 0 <= k < names.len() implies #[trigger] names[k]@ != serial_name(
        "Body"@,
        next,
    ) by {
        if names[k]@ == serial_name("Body"@, next) {
            lemma_serial_name_round_trip("Body"@, next as usize);
            assert(body_serials(names)[k] == prefixed_serial(names[k]@, "Body"@));
        }
    }
}

/// The name given to a new feature never repeats the name of an existing
/// feature, whatever prefix it carries.
pub proof fn lemma_new_feature_name_is_fresh(names: Seq<String>, prefix: Seq<char>)
    requires
        forall|k: int| 0 <= k < names.len() ==> trailing_serial(#[trigger] names[k]@) != Some(
            usize::MAX,
        ),
        next_serial(feature_serials(names), names.len()) <= usize::MAX,
    ensures
        forall|k: int| 0 <= k < names.len() ==> #[trigger] names[k]@ != serial_name(
            prefix,
            next_serial(feature_serials(names), names.len()),
        ),
{
    let next = next_serial(feature_serials(names), names.len());
    lemma_next_serial_above(feature_serials(names), names.len());
    assert forall|k: int| 0 <= k < names.len() implies #[trigger] names[k]@ != serial_name(
        prefix,
        next,
    ) by {
        if names[k]@ == serial_name(prefix, next) {
            lemma_serial_name_round_trip(prefix, next as usize);
            assert(feature_serials(names)[k] == trailing_serial(names[k]@));
        }
    }
}

} // verus!
