//! The string interner: a table that hands out one identity per distinct
//! text, so that textually equal strings compare equal by identity alone.
//! A slot whose string is no longer referenced anywhere can be swept
//! between top-level inputs; identities of swept slots are never reused.

use super::{spec_value_eq, AbsValue, InternString, Value};
use vstd::prelude::*;

verus! {

/// The intern table. Slot `i` holds the text with identity `i`, or
/// nothing if that identity was swept.
pub struct StringInterns {
    slots: Vec<Option<InternString>>,
}

/// Whether some live slot of `v` holds `text`.
pub open spec fn has_live(v: Seq<Option<Seq<char>>>, text: Seq<char>) -> bool {
    exists|i: int| 0 <= i < v.len() && v[i] == Some(text)
}

/// The identity of the live slot that holds `text`; in a well-formed
/// table there is at most one.
pub open spec fn live_id(v: Seq<Option<Seq<char>>>, text: Seq<char>) -> usize {
    choose|id: usize| #![auto] id < v.len() && v[id as int] == Some(text)
}

impl View for StringInterns {
    type V = Seq<Option<Seq<char>>>;

    closed spec fn view(&self) -> Seq<Option<Seq<char>>> {
        self.slots@.map(
            |i: int, s: Option<InternString>|
                match s {
                    Some(is) => Some(is.text@),
                    None => None,
                },
        )
    }
}

impl StringInterns {
    /// Well-formed: each live slot records its own index as identity, and
    /// no two live slots hold the same text.
    pub closed spec fn wf(&self) -> bool {
        &&& forall|i: int|
            0 <= i < self.slots@.len() ==> match #[trigger] self.slots@[i] {
                Some(is) => is.id == i,
                None => true,
            }
        &&& forall|i: int, j: int|
            0 <= i < j < self@.len() && self@[i] is Some ==> #[trigger] self@[i] != #[trigger] self@[j]
    }

    /// A fresh, empty intern table.
    pub fn new() -> (r: StringInterns)
        ensures
            r.wf(),
            r@.len() == 0,
    {
        StringInterns { slots: Vec::new() }
    }

    /// The interned string for `string`: the live slot that already holds
    /// this text if there is one, else a fresh slot at the end of the
    /// table. Equal texts therefore always receive equal identities.
    pub fn get_or_intern(&mut self, string: &str) -> (r: InternString)
        requires
            old(self).wf(),
        ensures
            final(self).wf(),
            r.text@ == string@,
            r.id < final(self)@.len(),
            final(self)@[r.id as int] == Some(string@),
            has_live(old(self)@, string@) ==> final(self)@ == old(self)@,
            !has_live(old(self)@, string@) ==> final(self)@ == old(self)@.push(Some(string@))
                && r.id == old(self)@.len(),
    {
        let text: String = string.to_owned();
        let n = self.slots.len();
        let mut i: usize = 0;
        while i < n
            invariant
                n == self.slots@.len(),
                i <= n,
                self.wf(),
                text@ == string@,
                self == old(self),
                forall|k: int| 0 <= k < i ==> self@[k] != Some(text@),
            decreases n - i,
        {
            match &self.slots[i] {
                Some(is) => {
                    if is.text == text {
                        proof {
                            assert(self@[i as int] == Some(is.text@));
                        }
                        return InternString { id: i, text };
                    }
                },
                None => {},
            }
            i += 1;
        }
        let id = n;
        let ghost pre = self@;
        self.slots.push(Some(InternString { id, text: text.clone() }));
        proof {
            assert(self@ =~= pre.push(Some(text@)));
            assert forall|k: int, j: int|
                0 <= k < j < self@.len() && self@[k] is Some implies #[trigger] self@[k]
                != #[trigger] self@[j] by {
                if j + 1 == self@.len() {
                    assert(self@[k] == pre[k]);
                    assert(pre[k] != Some(text@));
                }
            }
        }
        InternString { id, text }
    }

    /// The string value for `string`, interned.
    pub fn build_string_value(&mut self, string: &str) -> (r: Value)
        requires
            old(self).wf(),
        ensures
            final(self).wf(),
            r@ == AbsValue::Text(live_id(final(self)@, string@), string@),
            r@ matches AbsValue::Text(id, t) ==> id < final(self)@.len() && final(self)@[id as int]
                == Some(string@),
            has_live(old(self)@, string@) ==> final(self)@ == old(self)@,
            !has_live(old(self)@, string@) ==> final(self)@ == old(self)@.push(Some(string@)),
            exists|id: int| 0 <= id < final(self)@.len() && final(self)@[id] == Some(string@),
    {
        let interned = self.get_or_intern(string);
        proof {
            assert(self@[interned.id as int] == Some(string@) && interned.id < self@.len());
            let id = live_id(self@, string@);
            assert(id < self@.len() && self@[id as int] == Some(string@));
            if id != interned.id {
                if id < interned.id {
                    assert(self@[id as int] != self@[interned.id as int]);
                } else {
                    assert(self@[interned.id as int] != self@[id as int]);
                }
            }
        }
        Value::Str(interned)
    }

    /// Drop every slot whose identity is not in `live`. The caller names
    /// the identities still referenced anywhere; after the sweep, exactly
    /// the named slots survive.
    pub fn clean(&mut self, live: &Vec<usize>)
        requires
            old(self).wf(),
        ensures
            final(self).wf(),
            final(self)@.len() == old(self)@.len(),
            forall|i: int|
                0 <= i < final(self)@.len() ==> #[trigger] final(self)@[i]
                    == if live@.contains(i as usize) {
                    old(self)@[i]
                } else {
                    None::<Seq<char>>
                },
    {
        let n = self.slots.len();
        let mut i: usize = 0;
        while i < n
            invariant
                n == self.slots@.len(),
                i <= n,
                old(self).wf(),
                self@.len() == old(self)@.len(),
                forall|k: int|
                    0 <= k < i ==> #[trigger] self@[k] == if live@.contains(k as usize) {
                        old(self)@[k]
                    } else {
                        None::<Seq<char>>
                    },
                forall|k: int| i <= k < n ==> #[trigger] self.slots@[k] == old(self).slots@[k],
                forall|k: int|
                    0 <= k < n ==> (#[trigger] self.slots@[k] == old(self).slots@[k]
                        || self.slots@[k] is None),
            decreases n - i,
        {
            let ghost pre = self@;
            if !contains_id(live, i) {
                self.slots[i] = None;
                proof {
                    assert(self@ =~= pre.update(i as int, None));
                }
            }
            i += 1;
        }
        proof {
            assert forall|i: int, j: int|
                0 <= i < j < self@.len() && self@[i] is Some implies #[trigger] self@[i]
                != #[trigger] self@[j] by {
                assert(self@[i] == old(self)@[i]);
                if self@[j] is Some {
                    assert(self@[j] == old(self)@[j]);
                    assert(old(self)@[i] != old(self)@[j]);
                }
            }
        }
    }
}

/// Interning makes textual equality identity equality: in one well-formed
/// intern table, two string values whose texts are equal carry the same
/// identity, so they compare equal under the identity equality of values.
pub proof fn lemma_intern_identity(interns: &StringInterns, i: usize, j: usize, t: Seq<char>)
    requires
        interns.wf(),
        i < interns@.len(),
        j < interns@.len(),
        interns@[i as int] == Some(t),
        interns@[j as int] == Some(t),
    ensures
        i == j,
        spec_value_eq(AbsValue::Text(i, t), AbsValue::Text(j, t)),
{
    if i < j {
        assert(interns@[i as int] != interns@[j as int]);
    } else if j < i {
        assert(interns@[j as int] != interns@[i as int]);
    }
}

/// Whether `ids` contains `id`.
fn contains_id(ids: &Vec<usize>, id: usize) -> (r: bool)
    ensures
        r == ids@.contains(id),
{
    let n = ids.len();
    let mut i: usize = 0;
    while i < n
        invariant
            n == ids@.len(),
            i <= n,
            forall|k: int| 0 <= k < i ==> ids@[k] != id,
        decreases n - i,
    {
        if ids[i] == id {
            return true;
        }
        i += 1;
    }
    false
}

} // verus!
