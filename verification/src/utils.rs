//! The input buffer: a table from key name to "currently held".
//!
//! Movement keys are level-triggered and re-read every tick; fire, godmode
//! and burst keys are edge-triggered: after acting on one, the player
//! system clears its held state through `key_up` so that a held key acts
//! exactly once per press.

use vstd::prelude::*;

verus! {

use vstd::string::StringExecFns;

/// Key-name to held-state table, scanned in insertion order.
pub struct KeyManager {
    pub entries: Vec<(String, bool)>,
}

/// The held state recorded for `name`: the value at its first occurrence
/// in the table, or `None` when the key was never seen.
pub open spec fn held_in(s: Seq<(String, bool)>, name: Seq<char>) -> Option<bool>
    decreases s.len(),
{
    if s.len() == 0 {
        None
    } else if s[0].0@ == name {
        Some(s[0].1)
    } else {
        held_in(s.drop_first(), name)
    }
}

impl KeyManager {
    /// The held state recorded for `name`.
    pub open spec fn spec_held(self, name: Seq<char>) -> Option<bool> {
        held_in(self.entries@, name)
    }

    /// Whether `name` is currently held.
    pub open spec fn spec_pressed(self, name: Seq<char>) -> bool {
        self.spec_held(name) == Some(true)
    }

    /// An empty table: no key is held.
    pub fn new() -> (km: KeyManager)
        ensures
            km.entries@.len() == 0,
            forall|n: Seq<char>| #[trigger] km.spec_held(n) is None,
    {
        KeyManager { entries: Vec::new() }
    }
}

/// Skipping entries whose name differs does not change the lookup.
proof fn lemma_held_in_skip(s: Seq<(String, bool)>, name: Seq<char>, i: int)
    requires
        0 <= i <= s.len(),
        forall|k: int| 0 <= k < i ==> (#[trigger] s[k]).0@ != name,
    ensures
        held_in(s, name) == held_in(s.skip(i), name),
    decreases i,
{
    if i == 0 {
        assert(s.skip(0) =~= s);
    } else {
        assert(s.drop_first() =~= s.skip(1));
        assert(forall|k: int| 0 <= k < i - 1 ==> s.skip(1)[k] == #[trigger] s[k + 1]);
        lemma_held_in_skip(s.skip(1), name, i - 1);
        assert(s.skip(1).skip(i - 1) =~= s.skip(i));
    }
}

/// Replacing the held state at an entry leaves lookups of other names as
/// they were.
proof fn lemma_held_update_other(s: Seq<(String, bool)>, i: int, v: (String, bool), q: Seq<char>)
    requires
        0 <= i < s.len(),
        v.0@ == s[i].0@,
        q != v.0@,
    ensures
        held_in(s.update(i, v), q) == held_in(s, q),
    decreases s.len(),
{
    if i == 0 {
        assert(s.update(0, v).drop_first() =~= s.drop_first());
    } else {
        assert(s.update(i, v)[0] == s[0]);
        if s[0].0@ != q {
            assert(s.update(i, v).drop_first() =~= s.drop_first().update(i - 1, v));
            assert(s.drop_first()[i - 1] == s[i]);
            lemma_held_update_other(s.drop_first(), i - 1, v, q);
        }
    }
}

/// Appending an entry for a different name leaves a lookup as it was.
proof fn lemma_held_push_other(s: Seq<(String, bool)>, v: (String, bool), q: Seq<char>)
    requires
        v.0@ != q,
    ensures
        held_in(s.push(v), q) == held_in(s, q),
    decreases s.len(),
{
    if s.len() == 0 {
        assert(s.push(v)[0] == v);
        assert(s.push(v).drop_first() =~= Seq::<(String, bool)>::empty());
        assert(held_in(s.push(v).drop_first(), q) == None::<bool>);
        assert(held_in(s.push(v), q) == None::<bool>);
    } else {
        assert(s.push(v)[0] == s[0]);
        if s[0].0@ == q {
            assert(held_in(s.push(v), q) == Some(s.push(v)[0].1));
            assert(held_in(s, q) == Some(s[0].1));
        } else {
            assert(s.push(v).drop_first() =~= s.drop_first().push(v));
            lemma_held_push_other(s.drop_first(), v, q);
            assert(held_in(s.push(v), q) == held_in(s.drop_first().push(v), q));
        }
    }
}

/// Record that `key_name` is held (`state == true`) or released
/// (`state == false`); any other key keeps its state.
pub fn handle_key(key_manager: &mut KeyManager, key_name: String, state: bool)
    ensures
        final(key_manager).spec_held(key_name@) == Some(state),
        forall|q: Seq<char>|
            q != key_name@ ==> #[trigger] final(key_manager).spec_held(q) == old(
                key_manager,
            ).spec_held(q),
        final(key_manager).entries@.len() <= old(key_manager).entries@.len() + 1,
{
    let n = key_manager.entries.len();
    let mut i: usize = 0;
    while i < n
        invariant
            n == key_manager.entries@.len(),
            i <= n,
            *key_manager == *old(key_manager),
            forall|k: int| 0 <= k < i ==> (#[trigger] key_manager.entries@[k]).0@ != key_name@,
        decreases n - i,
    {
        if key_manager.entries[i].0 == key_name {
            let ghost s = key_manager.entries@;
            let (nm, _) = key_manager.entries.remove(i);
            let v = (nm, state);
            key_manager.entries.insert(i, v);
            proof {
                assert(key_manager.entries@ =~= s.update(i as int, (nm, state)));
                let s2 = s.update(i as int, (nm, state));
                assert(forall|k: int| 0 <= k < i ==> s2[k] == #[trigger] s[k]);
                lemma_held_in_skip(s2, key_name@, i as int);
                assert(s2.skip(i as int)[0] == (nm, state));
                assert(held_in(s2, key_name@) == Some(state));
                assert forall|q: Seq<char>| q != key_name@ implies #[trigger] held_in(s2, q)
                    == held_in(s, q) by {
                    lemma_held_update_other(s, i as int, (nm, state), q);
                }
            }
            return ;
        }
        i += 1;
    }
    let ghost s = key_manager.entries@;
    key_manager.entries.push((key_name, state));
    proof {
        let v = (key_name, state);
        let s2 = s.push(v);
        assert(forall|k: int| 0 <= k < s.len() ==> s2[k] == #[trigger] s[k]);
        lemma_held_in_skip(s2, key_name@, s.len() as int);
        assert(s2.skip(s.len() as int) =~= seq![v]);
        assert(s2.skip(s.len() as int)[0] == v);
        assert(held_in(s2, key_name@) == Some(state));
        assert forall|q: Seq<char>| q != key_name@ implies #[trigger] held_in(s2, q) == held_in(
            s,
            q,
        ) by {
            lemma_held_push_other(s, v, q);
        }
    }
}

/// Mark `key_name` as held.
pub fn key_down(key_manager: &mut KeyManager, key_name: String)
    ensures
        final(key_manager).spec_held(key_name@) == Some(true),
        forall|q: Seq<char>|
            q != key_name@ ==> #[trigger] final(key_manager).spec_held(q) == old(
                key_manager,
            ).spec_held(q),
        final(key_manager).entries@.len() <= old(key_manager).entries@.len() + 1,
{
    handle_key(key_manager, key_name, true);
}

/// Mark `key_name` as released; also used to consume an edge-triggered key.
pub fn key_up(key_manager: &mut KeyManager, key_name: String)
    ensures
        final(key_manager).spec_held(key_name@) == Some(false),
        forall|q: Seq<char>|
            q != key_name@ ==> #[trigger] final(key_manager).spec_held(q) == old(
                key_manager,
            ).spec_held(q),
        final(key_manager).entries@.len() <= old(key_manager).entries@.len() + 1,
{
    handle_key(key_manager, key_name, false);
}

/// Whether `value` is currently held.
pub fn is_key_pressed(key_manager: &KeyManager, value: &str) -> (r: bool)
    ensures
        r == key_manager.spec_pressed(value@),
{
    let key = String::from_str(value);
    let n = key_manager.entries.len();
    let mut i: usize = 0;
    while i < n
        invariant
            n == key_manager.entries@.len(),
            key@ == value@,
            forall|k: int| 0 <= k < i ==> (#[trigger] key_manager.entries@[k]).0@ != value@,
        decreases n - i,
    {
        if key_manager.entries[i].0 == key {
            proof {
                lemma_held_in_skip(key_manager.entries@, value@, i as int);
                assert(key_manager.entries@.skip(i as int)[0] == key_manager.entries@[i as int]);
            }
            return key_manager.entries[i].1;
        }
        i += 1;
    }
    proof {
        lemma_held_in_skip(key_manager.entries@, value@, n as int);
        assert(key_manager.entries@.skip(n as int) =~= Seq::<(String, bool)>::empty());
    }
    false
}

} // verus!
