//! The level filter: a base directive plus per-target overrides.
//!
//! Overrides are kept in the order they were first added, each target at most once;
//! the directive lists them after the base in that order.

use vstd::prelude::*;
use crate::config::{Level, level_word};
use crate::text::push_char;
use vstd::string::StringExecFns;

verus! {

/// One override as it appears in a directive: `,target=level`.
pub open spec fn override_text(entry: (Seq<char>, Level)) -> Seq<char> {
    seq![','] + entry.0 + seq!['='] + level_word(entry.1)
}

/// The overrides of a directive, in order.
pub open spec fn overrides_text(entries: Seq<(Seq<char>, Level)>) -> Seq<char>
    decreases entries.len(),
{
    if entries.len() == 0 {
        Seq::empty()
    } else {
        overrides_text(entries.drop_last()) + override_text(entries.last())
    }
}

/// No target occurs twice.
pub open spec fn targets_distinct(entries: Seq<(Seq<char>, Level)>) -> bool {
    forall|i: int, j: int| 0 <= i < j < entries.len() ==> entries[i].0 != entries[j].0
}

/// The level each target is set to.
pub open spec fn target_map(entries: Seq<(Seq<char>, Level)>) -> Map<Seq<char>, Level>
    decreases entries.len(),
{
    if entries.len() == 0 {
        Map::empty()
    } else {
        target_map(entries.drop_last()).insert(entries.last().0, entries.last().1)
    }
}

/// Where target `k` is overridden, if it is.
pub open spec fn target_position(entries: Seq<(Seq<char>, Level)>, k: Seq<char>) -> Option<int> {
    if exists|i: int| 0 <= i < entries.len() && entries[i].0 == k {
        Some(choose|i: int| 0 <= i < entries.len() && entries[i].0 == k)
    } else {
        None
    }
}

/// The overrides after setting `k` to `level`: replaced in place, else added last.
pub open spec fn set_override(entries: Seq<(Seq<char>, Level)>, k: Seq<char>, level: Level) -> Seq<
    (Seq<char>, Level),
> {
    match target_position(entries, k) {
        Some(i) => entries.update(i, (k, level)),
        None => entries.push((k, level)),
    }
}

/// The overrides after dropping target `k`, the others keeping their order.
pub open spec fn drop_override(entries: Seq<(Seq<char>, Level)>, k: Seq<char>) -> Seq<
    (Seq<char>, Level),
> {
    match target_position(entries, k) {
        Some(i) => entries.remove(i),
        None => entries,
    }
}

/// `target_map` in terms of positions.
pub proof fn lemma_target_map(entries: Seq<(Seq<char>, Level)>)
    requires
        targets_distinct(entries),
    ensures
        forall|k: Seq<char>| #[trigger]
            target_map(entries).dom().contains(k) <==> exists|i: int|
                0 <= i < entries.len() && entries[i].0 == k,
        forall|i: int|
            0 <= i < entries.len() ==> target_map(entries)[#[trigger] entries[i].0]
                == entries[i].1,
    decreases entries.len(),
{
    if entries.len() > 0 {
        let p = entries.drop_last();
        assert(targets_distinct(p));
        lemma_target_map(p);
        let n = entries.len() - 1;
        assert forall|k: Seq<char>| #[trigger]
            target_map(entries).dom().contains(k) <==> exists|i: int|
                0 <= i < entries.len() && entries[i].0 == k by {
            if k == entries[n].0 {
                assert(entries[n].0 == k);
            } else {
                if target_map(entries).dom().contains(k) {
                    assert(target_map(p).dom().contains(k));
                    let i = choose|i: int| 0 <= i < p.len() && p[i].0 == k;
                    assert(p[i] == entries[i]);
                    assert(entries[i].0 == k);
                }
                if exists|i: int| 0 <= i < entries.len() && entries[i].0 == k {
                    let i = choose|i: int| 0 <= i < entries.len() && entries[i].0 == k;
                    assert(i < n);
                    assert(p[i] == entries[i]);
                    assert(p[i].0 == k);
                    assert(target_map(p).dom().contains(k));
                }
            }
        }
        assert forall|i: int| 0 <= i < entries.len() implies target_map(
            entries,
        )[#[trigger] entries[i].0] == entries[i].1 by {
            if i < n {
                assert(p[i] == entries[i]);
                assert(entries[i].0 != entries[n].0);
            }
        }
    }
}

/// Replacing the level of an overridden target updates the map at that target.
proof fn lemma_target_map_update(entries: Seq<(Seq<char>, Level)>, i: int, level: Level)
    requires
        targets_distinct(entries),
        0 <= i < entries.len(),
    ensures
        targets_distinct(entries.update(i, (entries[i].0, level))),
        target_map(entries.update(i, (entries[i].0, level))) == target_map(entries).insert(
            entries[i].0,
            level,
        ),
{
    let k0 = entries[i].0;
    let new_es = entries.update(i, (k0, level));
    assert(targets_distinct(new_es));
    lemma_target_map(entries);
    lemma_target_map(new_es);
    assert forall|k: Seq<char>| #[trigger] target_map(new_es).dom().contains(k)
        <==> target_map(entries).insert(k0, level).dom().contains(k) by {
        if target_map(new_es).dom().contains(k) {
            let j = choose|j: int| 0 <= j < new_es.len() && new_es[j].0 == k;
            assert(entries[j].0 == k);
        }
        if target_map(entries).dom().contains(k) {
            let j = choose|j: int| 0 <= j < entries.len() && entries[j].0 == k;
            assert(new_es[j].0 == k);
        }
        if k == k0 {
            assert(new_es[i].0 == k);
        }
    }
    assert forall|k: Seq<char>| #[trigger] target_map(new_es).dom().contains(k) implies
        target_map(new_es)[k] == target_map(entries).insert(k0, level)[k] by {
        let j = choose|j: int| 0 <= j < new_es.len() && new_es[j].0 == k;
        if j != i {
            assert(new_es[j] == entries[j]);
        }
    }
    assert(target_map(new_es) =~= target_map(entries).insert(k0, level));
}

/// `target_position` names the one position holding the target.
proof fn lemma_target_position(entries: Seq<(Seq<char>, Level)>, k: Seq<char>, i: int)
    requires
        targets_distinct(entries),
        0 <= i < entries.len(),
        entries[i].0 == k,
    ensures
        target_position(entries, k) == Some(i),
{
    let c = choose|j: int| 0 <= j < entries.len() && entries[j].0 == k;
    assert(c == i);
}

/// Setting an override keeps every target at most once.
pub proof fn lemma_set_override_distinct(
    entries: Seq<(Seq<char>, Level)>,
    k: Seq<char>,
    level: Level,
)
    requires
        targets_distinct(entries),
    ensures
        targets_distinct(set_override(entries, k, level)),
        target_position(set_override(entries, k, level), k) is Some,
{
    match target_position(entries, k) {
        Some(i) => {
            let n = entries.update(i, (k, level));
            assert(targets_distinct(n));
            lemma_target_position(n, k, i);
        },
        None => {
            let n = entries.push((k, level));
            assert(targets_distinct(n));
            lemma_target_position(n, k, entries.len() as int);
        },
    }
}

/// Overriding a target and then dropping it leaves the overrides as dropping it alone would:
/// the other targets keep their levels and their order.
pub proof fn lemma_set_then_drop(entries: Seq<(Seq<char>, Level)>, k: Seq<char>, level: Level)
    requires
        targets_distinct(entries),
    ensures
        drop_override(set_override(entries, k, level), k) == drop_override(entries, k),
{
    match target_position(entries, k) {
        Some(i) => {
            let n = entries.update(i, (k, level));
            assert(targets_distinct(n));
            lemma_target_position(n, k, i);
            assert(n.remove(i) =~= entries.remove(i));
        },
        None => {
            let n = entries.push((k, level));
            assert(targets_distinct(n));
            lemma_target_position(n, k, entries.len() as int);
            assert(n.remove(entries.len() as int) =~= entries);
        },
    }
}

/// Overriding a target twice is overriding it once with the later level, in the place the
/// first override gave it.
pub proof fn lemma_set_twice(
    entries: Seq<(Seq<char>, Level)>,
    k: Seq<char>,
    first: Level,
    second: Level,
)
    requires
        targets_distinct(entries),
    ensures
        set_override(set_override(entries, k, first), k, second) == set_override(
            entries,
            k,
            second,
        ),
{
    match target_position(entries, k) {
        Some(i) => {
            let n = entries.update(i, (k, first));
            assert(targets_distinct(n));
            lemma_target_position(n, k, i);
            assert(n.update(i, (k, second)) =~= entries.update(i, (k, second)));
        },
        None => {
            let n = entries.push((k, first));
            assert(targets_distinct(n));
            lemma_target_position(n, k, entries.len() as int);
            assert(n.update(entries.len() as int, (k, second)) =~= entries.push((k, second)));
        },
    }
}

/// The directive always begins with the base; overrides only ever follow it.
pub proof fn lemma_directive_starts_with_base(base: Seq<char>, entries: Seq<(Seq<char>, Level)>)
    ensures
        (base + overrides_text(entries)).take(base.len() as int) == base,
{
    assert((base + overrides_text(entries)).take(base.len() as int) =~= base);
}

/// Dropping an override keeps the others distinct and removes the target from the map.
pub proof fn lemma_drop_override_map(entries: Seq<(Seq<char>, Level)>, k0: Seq<char>)
    requires
        targets_distinct(entries),
    ensures
        targets_distinct(drop_override(entries, k0)),
        target_map(drop_override(entries, k0)) == target_map(entries).remove(k0),
{
    let es = entries;
    lemma_target_map(es);
    match target_position(es, k0) {
        Some(i) => {
            let new_es = es.remove(i);
            assert(targets_distinct(new_es));
            lemma_target_map(new_es);
            assert forall|k: Seq<char>| #[trigger] target_map(new_es).dom().contains(k)
                <==> target_map(es).remove(k0).dom().contains(k) by {
                if target_map(es).remove(k0).dom().contains(k) {
                    let j = choose|j: int| 0 <= j < es.len() && es[j].0 == k;
                    if j < i {
                        assert(new_es[j] == es[j]);
                    } else {
                        assert(new_es[j - 1] == es[j]);
                    }
                }
                if target_map(new_es).dom().contains(k) {
                    let j = choose|j: int| 0 <= j < new_es.len() && new_es[j].0 == k;
                    if j < i {
                        assert(new_es[j] == es[j]);
                    } else {
                        assert(new_es[j] == es[j + 1]);
                    }
                }
            }
            assert forall|k: Seq<char>| #[trigger] target_map(new_es).dom().contains(k) implies
                target_map(new_es)[k] == target_map(es)[k] by {
                let j = choose|j: int| 0 <= j < new_es.len() && new_es[j].0 == k;
                if j < i {
                    assert(new_es[j] == es[j]);
                } else {
                    assert(new_es[j] == es[j + 1]);
                }
            }
            assert(target_map(new_es) =~= target_map(es).remove(k0));
        },
        None => {
            assert(!target_map(es).dom().contains(k0));
            assert(target_map(es).remove(k0) =~= target_map(es));
        },
    }
}

/// Setting an override sets the target in the map.
pub proof fn lemma_set_override_map(entries: Seq<(Seq<char>, Level)>, k: Seq<char>, level: Level)
    requires
        targets_distinct(entries),
    ensures
        target_map(set_override(entries, k, level)) == target_map(entries).insert(k, level),
{
    match target_position(entries, k) {
        Some(i) => {
            let c = choose|j: int| 0 <= j < entries.len() && entries[j].0 == k;
            assert(entries[i].0 == k);
            lemma_target_map_update(entries, i, level);
        },
        None => {
            assert(entries.push((k, level)).drop_last() =~= entries);
        },
    }
}

/// The overrides after a sequence of calls: `(t, Some(l))` sets `t` to `l` as
/// [`Filter::with_target`] does, `(t, None)` drops `t` as [`Filter::remove_target`] does.
pub open spec fn apply_overrides(
    entries: Seq<(Seq<char>, Level)>,
    calls: Seq<(Seq<char>, Option<Level>)>,
) -> Seq<(Seq<char>, Level)>
    decreases calls.len(),
{
    if calls.len() == 0 {
        entries
    } else {
        let before = apply_overrides(entries, calls.drop_last());
        match calls.last().1 {
            Some(l) => set_override(before, calls.last().0, l),
            None => drop_override(before, calls.last().0),
        }
    }
}

/// The levels after a sequence of calls, as a map from target to level.
pub open spec fn apply_to_levels(
    levels: Map<Seq<char>, Level>,
    calls: Seq<(Seq<char>, Option<Level>)>,
) -> Map<Seq<char>, Level>
    decreases calls.len(),
{
    if calls.len() == 0 {
        levels
    } else {
        let before = apply_to_levels(levels, calls.drop_last());
        match calls.last().1 {
            Some(l) => before.insert(calls.last().0, l),
            None => before.remove(calls.last().0),
        }
    }
}

/// After any sequence of `with_target` and `remove_target` calls the overrides name each
/// target at most once, and they set exactly the targets and levels that the calls leave in
/// the map: the directive is the base followed by one `,target=level` entry per target left.
pub proof fn lemma_override_calls(
    entries: Seq<(Seq<char>, Level)>,
    calls: Seq<(Seq<char>, Option<Level>)>,
)
    requires
        targets_distinct(entries),
    ensures
        targets_distinct(apply_overrides(entries, calls)),
        target_map(apply_overrides(entries, calls)) == apply_to_levels(target_map(entries), calls),
        forall|k: Seq<char>|
            #![trigger apply_to_levels(target_map(entries), calls).dom().contains(k)]
            apply_to_levels(target_map(entries), calls).dom().contains(k) ==> exists|i: int|
                0 <= i < apply_overrides(entries, calls).len() && apply_overrides(entries, calls)[i]
                    == (k, apply_to_levels(target_map(entries), calls)[k]),
    decreases calls.len(),
{
    if calls.len() > 0 {
        lemma_override_calls(entries, calls.drop_last());
        let before = apply_overrides(entries, calls.drop_last());
        match calls.last().1 {
            Some(l) => {
                lemma_set_override_distinct(before, calls.last().0, l);
                lemma_set_override_map(before, calls.last().0, l);
            },
            None => {
                lemma_drop_override_map(before, calls.last().0);
            },
        }
    }
    let after = apply_overrides(entries, calls);
    lemma_target_map(after);
    assert forall|k: Seq<char>|
        #![trigger apply_to_levels(target_map(entries), calls).dom().contains(k)]
        apply_to_levels(target_map(entries), calls).dom().contains(k) implies exists|i: int|
            0 <= i < after.len() && after[i] == (k, apply_to_levels(target_map(entries), calls)[k]) by {
        assert(target_map(after).dom().contains(k));
        let i = choose|i: int| 0 <= i < after.len() && after[i].0 == k;
        assert(after[i] == (after[i].0, after[i].1));
    }
}

/// A tracing filter directive, built from a level or a raw `EnvFilter`-style string, with
/// per-target overrides appended after the base. Only overrides added through
/// [`Filter::with_target`] can be removed; targets written inside a raw base stay.
#[derive(Debug)]
#[non_exhaustive]
pub struct Filter {
    base: String,
    targets: Vec<(String, Level)>,
}

/// The entries of a list of overrides as text and level.
pub open spec fn entries_of(targets: Seq<(String, Level)>) -> Seq<(Seq<char>, Level)> {
    targets.map_values(|e: (String, Level)| (e.0@, e.1))
}

impl Filter {
    /// The base directive.
    pub closed spec fn base_text(&self) -> Seq<char> {
        self.base@
    }

    /// The overrides, in the order they were added.
    pub closed spec fn overrides(&self) -> Seq<(Seq<char>, Level)> {
        entries_of(self.targets@)
    }

    /// The level each overridden target is set to.
    pub open spec fn target_levels(&self) -> Map<Seq<char>, Level> {
        target_map(self.overrides())
    }

    /// The full directive text.
    pub open spec fn directive(&self) -> Seq<char> {
        self.base_text() + overrides_text(self.overrides())
    }

    #[verifier::type_invariant]
    spec fn inv(&self) -> bool {
        targets_distinct(entries_of(self.targets@))
    }

    /// A filter at `level`, with no overrides.
    pub fn new(level: Level) -> (f: Self)
        ensures
            f.base_text() == level_word(level),
            f.overrides() == Seq::<(Seq<char>, Level)>::empty(),
    {
        let word = level.as_directive();
        let f = Filter { base: word.to_owned(), targets: Vec::new() };
        assert(entries_of(f.targets@) =~= Seq::<(Seq<char>, Level)>::empty());
        f
    }

    /// A filter from a raw directive string, such as `"info,my_crate=debug"`.
    pub fn from_directive(directive: &str) -> (f: Self)
        ensures
            f.base_text() == directive@,
            f.overrides() == Seq::<(Seq<char>, Level)>::empty(),
    {
        let f = Filter { base: directive.to_owned(), targets: Vec::new() };
        assert(entries_of(f.targets@) =~= Seq::<(Seq<char>, Level)>::empty());
        f
    }

    /// Where `target` is overridden.
    fn position_of(&self, key: &String) -> (r: Option<usize>)
        ensures
            match r {
                Some(i) => target_position(self.overrides(), key@) == Some(i as int) && i
                    < self.overrides().len(),
                None => target_position(self.overrides(), key@) is None,
            },
    {
        proof {
            use_type_invariant(self);
        }
        let ghost es = self.overrides();
        let mut i: usize = 0;
        while i < self.targets.len()
            invariant
                i <= self.targets@.len(),
                es == entries_of(self.targets@),
                targets_distinct(es),
                forall|j: int| 0 <= j < i ==> es[j].0 != key@,
            decreases self.targets.len() - i,
        {
            if self.targets[i].0 == *key {
                assert(es[i as int].0 == key@);
                let ghost c = choose|j: int| 0 <= j < es.len() && es[j].0 == key@;
                assert(c == i);
                return Some(i);
            }
            i = i + 1;
        }
        None
    }

    /// Sets `target` to `level`, replacing an earlier override of the same target in place
    /// and otherwise adding it after the others.
    pub fn with_target(&mut self, target: &str, level: Level) -> (r: &mut Self)
        ensures
            r.base_text() == old(self).base_text(),
            r.overrides() == set_override(old(self).overrides(), target@, level),
            r.target_levels() == old(self).target_levels().insert(target@, level),
            targets_distinct(r.overrides()),
            *final(self) == *final(r),
    {
        proof {
            use_type_invariant(&*self);
            lemma_target_map(self.overrides());
        }
        let key = target.to_owned();
        let ghost es = self.overrides();
        match self.position_of(&key) {
            Some(i) => {
                let ghost new_es = es.update(i as int, (target@, level));
                let mut t: Vec<(String, Level)> = Vec::new();
                std::mem::swap(&mut t, &mut self.targets);
                t.set(i, (key, level));
                assert(entries_of(t@) =~= new_es);
                assert(targets_distinct(new_es));
                self.targets = t;
                proof {
                    lemma_target_map_update(es, i as int, level);
                }
            },
            None => {
                let ghost new_es = es.push((target@, level));
                let mut t: Vec<(String, Level)> = Vec::new();
                std::mem::swap(&mut t, &mut self.targets);
                t.push((key, level));
                assert(entries_of(t@) =~= new_es);
                self.targets = t;
                assert(new_es.drop_last() =~= es);
            },
        }
        self
    }

    /// Drops the override of `target`; true when there was one. Targets written into a raw
    /// base directive are not overrides and stay.
    pub fn remove_target(&mut self, target: &str) -> (removed: bool)
        ensures
            removed == old(self).target_levels().contains_key(target@),
            final(self).base_text() == old(self).base_text(),
            final(self).overrides() == drop_override(old(self).overrides(), target@),
            final(self).target_levels() == old(self).target_levels().remove(target@),
            targets_distinct(final(self).overrides()),
    {
        proof {
            use_type_invariant(&*self);
            lemma_target_map(self.overrides());
        }
        let key = target.to_owned();
        let ghost es = self.overrides();
        match self.position_of(&key) {
            Some(i) => {
                let ghost new_es = es.remove(i as int);
                let mut t: Vec<(String, Level)> = Vec::new();
                std::mem::swap(&mut t, &mut self.targets);
                let _dropped = t.remove(i);
                assert(entries_of(t@) =~= new_es);
                assert(targets_distinct(new_es));
                self.targets = t;
                proof {
                    lemma_drop_override_map(es, target@);
                }
                true
            },
            None => {
                proof {
                    lemma_drop_override_map(es, target@);
                }
                false
            },
        }
    }

    /// The full directive: the base followed by `,target=level` for each override in order.
    pub fn as_directive(&self) -> (r: String)
        ensures
            r@ == self.directive(),
            targets_distinct(self.overrides()),
    {
        proof {
            use_type_invariant(self);
        }
        let mut r = self.base.clone();
        let ghost es = self.overrides();
        let mut i: usize = 0;
        assert(es.take(0) =~= Seq::<(Seq<char>, Level)>::empty());
        while i < self.targets.len()
            invariant
                i <= self.targets@.len(),
                es == entries_of(self.targets@),
                r@ == self.base_text() + overrides_text(es.take(i as int)),
            decreases self.targets.len() - i,
        {
            let entry = &self.targets[i];
            let ghost before = r@;
            push_char(&mut r, ',');
            r.append(entry.0.as_str());
            push_char(&mut r, '=');
            r.append(entry.1.as_directive());
            proof {
                assert(es.take(i + 1).drop_last() =~= es.take(i as int));
                assert(r@ =~= before + override_text(es[i as int]));
            }
            i = i + 1;
        }
        assert(es.take(self.targets.len() as int) =~= es);
        r
    }
}

impl Default for Filter {
    /// A filter at `Info`.
    fn default() -> (f: Self)
        ensures
            f.base_text() == level_word(Level::Info),
            f.overrides() == Seq::<(Seq<char>, Level)>::empty(),
    {
        Filter::new(Level::Info)
    }
}

/// A copy of a list of overrides.
fn copy_targets(targets: &Vec<(String, Level)>) -> (r: Vec<(String, Level)>)
    ensures
        entries_of(r@) == entries_of(targets@),
{
    let mut r: Vec<(String, Level)> = Vec::new();
    let mut i: usize = 0;
    while i < targets.len()
        invariant
            i <= targets.len(),
            entries_of(r@) =~= entries_of(targets@.take(i as int)),
        decreases targets.len() - i,
    {
        let entry = &targets[i];
        let key = entry.0.clone();
        let ghost old_r = r@;
        r.push((key, entry.1));
        proof {
            assert(key@ == targets@[i as int].0@);
            assert(r@ == old_r.push((key, entry.1)));
            assert(entries_of(r@) =~= entries_of(old_r).push((key@, entry.1)));
            assert(entries_of(targets@.take(i + 1)) =~= entries_of(targets@.take(i as int)).push(
                (targets@[i as int].0@, targets@[i as int].1),
            ));
        }
        i = i + 1;
    }
    assert(targets@.take(targets.len() as int) =~= targets@);
    r
}

impl Clone for Filter {
    fn clone(&self) -> (r: Self)
        ensures
            r.base_text() == self.base_text(),
            r.overrides() == self.overrides(),
            targets_distinct(r.overrides()),
    {
        proof {
            use_type_invariant(self);
        }
        Filter { base: self.base.clone(), targets: copy_targets(&self.targets) }
    }
}

impl From<Level> for Filter {
    /// A filter at `level`, with no overrides.
    fn from(level: Level) -> (f: Self)
        ensures
            f.base_text() == level_word(level),
            f.overrides() == Seq::<(Seq<char>, Level)>::empty(),
    {
        Filter::new(level)
    }
}

impl vstd::std_specs::convert::FromSpecImpl<Level> for Filter {
    /// The result holds a `String`, which no spec value can name; what `from` gives is stated
    /// on `from` itself.
    open spec fn obeys_from_spec() -> bool {
        false
    }

    open spec fn from_spec(v: Level) -> Filter {
        vstd::pervasive::arbitrary()
    }
}

/// The `i`-th override's text sits in the overrides' text right after those before it.
proof fn lemma_override_at(entries: Seq<(Seq<char>, Level)>, i: int)
    requires
        0 <= i < entries.len(),
    ensures
        ({
            let at = overrides_text(entries.take(i)).len() as int;
            let w = override_text(entries[i]);
            &&& at + w.len() <= overrides_text(entries).len()
            &&& overrides_text(entries).subrange(at, at + w.len()) == w
        }),
    decreases entries.len(),
{
    let ot = overrides_text(entries);
    let prev = overrides_text(entries.drop_last());
    assert(ot == prev + override_text(entries.last()));
    if i == entries.len() - 1 {
        assert(entries.take(i) =~= entries.drop_last());
        assert(ot.subrange(prev.len() as int, ot.len() as int) =~= override_text(entries.last()));
    } else {
        lemma_override_at(entries.drop_last(), i);
        assert(entries.drop_last().take(i) =~= entries.take(i));
        assert(entries.drop_last()[i] == entries[i]);
        let at = overrides_text(entries.take(i)).len() as int;
        let w = override_text(entries[i]);
        assert(ot.subrange(at, at + w.len()) =~= prev.subrange(at, at + w.len()));
    }
}

/// `w` occurs in `s` starting at position `j`.
pub open spec fn occurs_at(s: Seq<char>, j: int, w: Seq<char>) -> bool {
    0 <= j && j + w.len() <= s.len() && s.subrange(j, j + w.len()) == w
}

/// Every override a filter holds shows in its directive after the base: for the `i`-th
/// override, target `t` set to level `l`, the directive holds `,t=` followed by the word of
/// `l`, `off` included.
pub proof fn lemma_directive_shows_override(f: Filter, i: int)
    requires
        0 <= i < f.overrides().len(),
    ensures
        exists|j: int|
            f.base_text().len() <= j && #[trigger] occurs_at(
                f.directive(),
                j,
                seq![','] + f.overrides()[i].0 + seq!['='] + level_word(f.overrides()[i].1),
            ),
{
    let es = f.overrides();
    let b = f.base_text();
    let d = f.directive();
    lemma_override_at(es, i);
    let w = override_text(es[i]);
    let at = overrides_text(es.take(i)).len() as int;
    let j: int = b.len() + at;
    assert(d.subrange(j, j + w.len()) =~= overrides_text(es).subrange(at, at + w.len()));
    assert(occurs_at(d, j, seq![','] + es[i].0 + seq!['='] + level_word(es[i].1)));
}

} // verus!
