//! The registry of bound shortcuts.
//!
//! It maps shortcut identities to the ids under which the application
//! registered them. Several identities may carry the same id; one identity
//! carries at most one.

use vstd::prelude::*;

use crate::shortcut::{Keybind, Shortcut};
use crate::trigger::KeybindId;

verus! {

/// What a lookup of `shortcut` finds in the registry `m`.
pub open spec fn lookup(m: Map<Shortcut, KeybindId>, shortcut: Shortcut) -> Option<KeybindId> {
    if m.dom().contains(shortcut) {
        Some(m[shortcut])
    } else {
        None
    }
}

/// The registry `m` after `shortcut` has been registered under `id`: a
/// mapping that `shortcut` had before is overwritten.
pub open spec fn registered(m: Map<Shortcut, KeybindId>, shortcut: Shortcut, id: KeybindId) -> Map<
    Shortcut,
    KeybindId,
> {
    m.insert(shortcut, id)
}

/// The registry `m` after `id` has been unregistered: every shortcut that was
/// mapped to `id` is gone, every other mapping is as before.
pub open spec fn unregistered(m: Map<Shortcut, KeybindId>, id: KeybindId) -> Map<
    Shortcut,
    KeybindId,
> {
    Map::new(|k: Shortcut| m.dom().contains(k) && m[k] != id, |k: Shortcut| m[k])
}

/// No shortcut is mapped to `id`.
pub open spec fn unused(m: Map<Shortcut, KeybindId>, id: KeybindId) -> bool {
    forall|k: Shortcut| m.dom().contains(k) ==> #[trigger] m[k] != id
}

/// A lookup right after a registration finds the registered id, and finds
/// nothing once that id has been unregistered.
pub proof fn lemma_register_then_lookup(m: Map<Shortcut, KeybindId>, shortcut: Shortcut, id: KeybindId)
    ensures
        lookup(registered(m, shortcut, id), shortcut) == Some(id),
        lookup(unregistered(registered(m, shortcut, id), id), shortcut) == None::<KeybindId>,
{
}

/// Unregistering an id that no shortcut is mapped to changes nothing.
pub proof fn lemma_unregister_unused(m: Map<Shortcut, KeybindId>, id: KeybindId)
    requires
        unused(m, id),
    ensures
        unregistered(m, id) == m,
{
    assert(unregistered(m, id) =~= m);
}

/// Unregistering an id leaves every mapping to another id as it was.
pub proof fn lemma_unregister_keeps_others(
    m: Map<Shortcut, KeybindId>,
    id: KeybindId,
    shortcut: Shortcut,
)
    requires
        lookup(m, shortcut) != Some(id),
    ensures
        lookup(unregistered(m, id), shortcut) == lookup(m, shortcut),
{
}

/// Two shortcuts registered under one id both disappear when that id is
/// unregistered.
pub proof fn lemma_unregister_removes_all(
    m: Map<Shortcut, KeybindId>,
    first: Shortcut,
    second: Shortcut,
    id: KeybindId,
)
    ensures
        ({
            let after = unregistered(registered(registered(m, first, id), second, id), id);
            &&& lookup(after, first) == None::<KeybindId>
            &&& lookup(after, second) == None::<KeybindId>
            &&& unused(after, id)
        }),
{
}

struct Binding {
    keybind: Keybind,
    id: KeybindId,
}

spec fn distinct(bs: Seq<Binding>) -> bool {
    forall|i: int, j: int|
        0 <= i < j < bs.len() ==> (#[trigger] bs[i]).keybind@ != (#[trigger] bs[j]).keybind@
}

spec fn holds(bs: Seq<Binding>, k: Shortcut) -> bool {
    exists|i: int| 0 <= i < bs.len() && (#[trigger] bs[i]).keybind@ == k
}

spec fn place(bs: Seq<Binding>, k: Shortcut) -> int {
    choose|i: int| 0 <= i < bs.len() && (#[trigger] bs[i]).keybind@ == k
}

spec fn mapping(bs: Seq<Binding>) -> Map<Shortcut, KeybindId> {
    Map::new(|k: Shortcut| holds(bs, k), |k: Shortcut| bs[place(bs, k)].id)
}

proof fn lemma_mapping_at(bs: Seq<Binding>, i: int)
    requires
        distinct(bs),
        0 <= i < bs.len(),
    ensures
        mapping(bs).dom().contains(bs[i].keybind@),
        mapping(bs)[bs[i].keybind@] == bs[i].id,
{
    let k = bs[i].keybind@;
    assert(holds(bs, k));
    let at = place(bs, k);
    assert(at == i);
}

/// `after` is `before` with the binding of `k` to `id` put at `at`: in place
/// of the binding that `k` had there, or behind the last binding if it had
/// none.
proof fn lemma_mapping_put(
    before: Seq<Binding>,
    after: Seq<Binding>,
    at: int,
    k: Shortcut,
    id: KeybindId,
)
    requires
        distinct(before),
        0 <= at <= before.len(),
        after.len() == (if at < before.len() { before.len() } else { before.len() + 1 }),
        after[at].keybind@ == k,
        after[at].id == id,
        forall|i: int| 0 <= i < before.len() && i != at ==> after[i] == #[trigger] before[i],
        at < before.len() ==> before[at].keybind@ == k,
        at == before.len() ==> !holds(before, k),
    ensures
        distinct(after),
        mapping(after) == registered(mapping(before), k, id),
{
    assert forall|i: int, j: int| 0 <= i < j < after.len() implies (#[trigger] after[i]).keybind@
        != (#[trigger] after[j]).keybind@ by {
        if i != at && j != at {
            assert(after[i] == before[i] && after[j] == before[j]);
        } else if i == at {
            assert(after[j] == before[j]);
            assert(before[j].keybind@ != k);
        } else {
            assert(after[i] == before[i]);
            assert(before[i].keybind@ != k);
        }
    }
    assert forall|s: Shortcut| holds(after, s) <==> (holds(before, s) || s == k) by {
        if holds(before, s) {
            let i = place(before, s);
            assert(after[i].keybind@ == s);
        }
        if s == k {
            assert(after[at].keybind@ == s);
        }
        if holds(after, s) && s != k {
            let i = place(after, s);
            assert(before[i].keybind@ == s);
        }
    }
    assert forall|s: Shortcut| holds(after, s) implies #[trigger] mapping(after)[s] == registered(
        mapping(before),
        k,
        id,
    )[s] by {
        let i = place(after, s);
        lemma_mapping_at(after, i);
        if s != k {
            assert(before[i] == after[i]);
            lemma_mapping_at(before, i);
        } else {
            assert(i == at);
        }
    }
    assert(mapping(after) =~= registered(mapping(before), k, id));
}

spec fn occurs(bs: Seq<Binding>, b: Binding, from: int) -> bool {
    exists|i: int| from <= i < bs.len() && (#[trigger] bs[i]) == b
}

/// `kept` holds, without repetition, the bindings of `before` from index
/// `from` on that are not mapped to `id`.
spec fn kept_from(before: Seq<Binding>, kept: Seq<Binding>, from: int, id: KeybindId) -> bool {
    &&& distinct(kept)
    &&& forall|j: int|
        0 <= j < kept.len() ==> (#[trigger] kept[j]).id != id && occurs(before, kept[j], from)
    &&& forall|i: int|
        from <= i < before.len() && (#[trigger] before[i]).id != id ==> occurs(kept, before[i], 0)
}

proof fn lemma_keep_step(before: Seq<Binding>, held: Seq<Binding>, at: int, id: KeybindId)
    requires
        distinct(before),
        0 <= at < before.len(),
        kept_from(before, held, at + 1, id),
    ensures
        kept_from(
            before,
            if before[at].id != id {
                held.push(before[at])
            } else {
                held
            },
            at,
            id,
        ),
{
    let kept = if before[at].id != id {
        held.push(before[at])
    } else {
        held
    };
    assert forall|a: int, b: int| 0 <= a < b < kept.len() implies (#[trigger] kept[a]).keybind@ != (
    #[trigger] kept[b]).keybind@ by {
        assert(kept[a] == held[a]);
        if b == held.len() {
            assert(occurs(before, held[a], at + 1));
            let i = choose|i: int| at + 1 <= i < before.len() && (#[trigger] before[i]) == held[a];
            assert(before[at].keybind@ != before[i].keybind@);
        } else {
            assert(kept[b] == held[b]);
        }
    }
    assert forall|j: int| 0 <= j < kept.len() implies (#[trigger] kept[j]).id != id && occurs(
        before,
        kept[j],
        at,
    ) by {
        if j < held.len() {
            assert(kept[j] == held[j]);
            assert(occurs(before, held[j], at + 1));
            let i = choose|i: int| at + 1 <= i < before.len() && (#[trigger] before[i]) == held[j];
            assert(at <= i < before.len() && before[i] == kept[j]);
        } else {
            assert(before[at] == kept[j]);
        }
    }
    assert forall|i: int| at <= i < before.len() && (#[trigger] before[i]).id != id implies occurs(
        kept,
        before[i],
        0,
    ) by {
        if i == at {
            assert(kept[held.len() as int] == before[i]);
        } else {
            assert(occurs(held, before[i], 0));
            let j = choose|j: int| 0 <= j < held.len() && (#[trigger] held[j]) == before[i];
            assert(kept[j] == before[i]);
        }
    }
}

proof fn lemma_kept_mapping(before: Seq<Binding>, kept: Seq<Binding>, id: KeybindId)
    requires
        distinct(before),
        kept_from(before, kept, 0, id),
    ensures
        mapping(kept) == unregistered(mapping(before), id),
{
    assert forall|s: Shortcut| holds(kept, s) <==> (holds(before, s) && mapping(before)[s] != id) by {
        if holds(kept, s) {
            let j = place(kept, s);
            assert(occurs(before, kept[j], 0));
            let i = choose|i: int| 0 <= i < before.len() && (#[trigger] before[i]) == kept[j];
            lemma_mapping_at(before, i);
        }
        if holds(before, s) && mapping(before)[s] != id {
            let i = place(before, s);
            lemma_mapping_at(before, i);
            assert(occurs(kept, before[i], 0));
            let j = choose|j: int| 0 <= j < kept.len() && (#[trigger] kept[j]) == before[i];
            assert(kept[j].keybind@ == s);
        }
    }
    assert forall|s: Shortcut| holds(kept, s) implies #[trigger] mapping(kept)[s] == mapping(
        before,
    )[s] by {
        let j = place(kept, s);
        lemma_mapping_at(kept, j);
        assert(occurs(before, kept[j], 0));
        let i = choose|i: int| 0 <= i < before.len() && (#[trigger] before[i]) == kept[j];
        lemma_mapping_at(before, i);
    }
    assert(mapping(kept) =~= unregistered(mapping(before), id));
}

/// The live registry of an engine.
pub struct Keybinds {
    bindings: Vec<Binding>,
}

impl View for Keybinds {
    type V = Map<Shortcut, KeybindId>;

    closed spec fn view(&self) -> Map<Shortcut, KeybindId> {
        mapping(self.bindings@)
    }
}

impl Keybinds {
    #[verifier::type_invariant]
    spec fn well_formed(self) -> bool {
        distinct(self.bindings@)
    }

    /// The registry without any binding.
    pub fn new() -> (keybinds: Keybinds)
        ensures
            keybinds@ == Map::<Shortcut, KeybindId>::empty(),
    {
        let keybinds = Keybinds { bindings: Vec::new() };
        assert(keybinds@ =~= Map::<Shortcut, KeybindId>::empty());
        keybinds
    }

    /// Maps `keybind` to `id`, in place of what it was mapped to before.
    pub fn register_keybind(&mut self, keybind: Keybind, id: KeybindId)
        ensures
            final(self)@ == registered(old(self)@, keybind@, id),
    {
        proof {
            use_type_invariant(&*self);
        }
        let mut bindings = Vec::new();
        std::mem::swap(&mut bindings, &mut self.bindings);
        let ghost before = bindings@;
        let ghost k = keybind@;
        let ghost at: int;
        match find(&bindings, &keybind) {
            Some(found) => {
                proof {
                    at = found as int;
                }
                bindings.set(found, Binding { keybind, id });
            },
            None => {
                proof {
                    at = before.len() as int;
                }
                bindings.push(Binding { keybind, id });
            },
        }
        proof {
            lemma_mapping_put(before, bindings@, at, k, id);
        }
        self.bindings = bindings;
    }

    /// Removes every mapping to `id`. An id that nothing is mapped to is no
    /// error: the registry then stays as it is.
    pub fn unregister_keybind(&mut self, id: KeybindId)
        ensures
            final(self)@ == unregistered(old(self)@, id),
    {
        proof {
            use_type_invariant(&*self);
        }
        let mut rest = Vec::new();
        std::mem::swap(&mut rest, &mut self.bindings);
        let ghost before = rest@;
        let mut kept: Vec<Binding> = Vec::new();
        while rest.len() > 0
            invariant
                distinct(before),
                rest@.len() <= before.len(),
                rest@ == before.subrange(0, rest@.len() as int),
                kept_from(before, kept@, rest@.len() as int, id),
            decreases rest.len(),
        {
            let ghost at = rest@.len() - 1;
            let ghost held = kept@;
            let binding = rest.pop().unwrap();
            assert(binding == before[at]);
            if binding.id != id {
                kept.push(binding);
            }
            proof {
                lemma_keep_step(before, held, at, id);
                assert(rest@ =~= before.subrange(0, rest@.len() as int));
            }
        }
        proof {
            lemma_kept_mapping(before, kept@, id);
        }
        self.bindings = kept;
    }

    /// Looks up the id that `keybind` is mapped to.
    pub fn get_keybind_id(&self, keybind: Keybind) -> (id: Option<KeybindId>)
        ensures
            id == lookup(self@, keybind@),
    {
        proof {
            use_type_invariant(self);
        }
        match find(&self.bindings, &keybind) {
            Some(at) => {
                proof {
                    lemma_mapping_at(self.bindings@, at as int);
                }
                Some(self.bindings[at].id)
            },
            None => {
                assert(!holds(self.bindings@, keybind@));
                None
            },
        }
    }
}

impl Default for Keybinds {
    fn default() -> (keybinds: Keybinds)
        ensures
            keybinds@ == Map::<Shortcut, KeybindId>::empty(),
    {
        Keybinds::new()
    }
}

fn find(bindings: &Vec<Binding>, keybind: &Keybind) -> (at: Option<usize>)
    ensures
        match at {
            Some(i) => i < bindings@.len() && bindings@[i as int].keybind@ == keybind@,
            None => forall|i: int|
                0 <= i < bindings@.len() ==> (#[trigger] bindings@[i]).keybind@ != keybind@,
        },
{
    let mut i: usize = 0;
    while i < bindings.len()
        invariant
            i <= bindings@.len(),
            forall|j: int| 0 <= j < i ==> (#[trigger] bindings@[j]).keybind@ != keybind@,
        decreases bindings@.len() - i,
    {
        if bindings[i].keybind == *keybind {
            return Some(i);
        }
        i = i + 1;
    }
    None
}

} // verus!
