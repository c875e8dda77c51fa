//! Header names as map keys that ignore ASCII letter case.

use crate::ascii::eq_ignore_ascii_case;
use crate::ascii::same_ignoring_case;
use crate::text::lowercased;
use crate::text::str_to_lowercase;
use vstd::prelude::*;
use vstd::std_specs::cmp::PartialEqSpecImpl;
use vstd::std_specs::convert::FromSpecImpl;
use vstd::utf8::encode_utf8;

verus! {

/// Two texts are the same key when their UTF-8 bytes agree up to ASCII
/// letter case.
pub open spec fn same_key(a: Seq<char>, b: Seq<char>) -> bool {
    same_ignoring_case(encode_utf8(a), encode_utf8(b))
}

/// Case-insensitive string key for headers.
#[derive(Debug)]
pub struct CaseInsensitiveKey(String);

impl View for CaseInsensitiveKey {
    type V = Seq<char>;

    closed spec fn view(&self) -> Seq<char> {
        self.0@
    }
}

impl CaseInsensitiveKey {
    /// A key with the given text.
    pub fn new(s: String) -> (key: Self)
        ensures
            key@ == s@,
    {
        CaseInsensitiveKey(s)
    }

    /// The text of the key as it was given.
    pub fn as_str(&self) -> (text: &str)
        ensures
            text@ == self@,
    {
        self.0.as_str()
    }

    /// The text of the key in lower case.
    pub fn to_lowercase(&self) -> (text: String)
        ensures
            text@ == lowercased(self@),
    {
        str_to_lowercase(self.0.as_str())
    }
}

/// The characters of keyed texts.
pub open spec fn keyed(entries: Seq<(CaseInsensitiveKey, String)>) -> Seq<(Seq<char>, Seq<char>)> {
    Seq::new(entries.len(), |i: int| (entries[i].0@, entries[i].1@))
}

/// Index of the first entry at or after `from` with the same key as `key`,
/// or the number of entries when there is none.
pub open spec fn slot_of(entries: Seq<(Seq<char>, Seq<char>)>, key: Seq<char>, from: int) -> int
    decreases entries.len() - from,
{
    if 0 <= from < entries.len() && !same_key(entries[from].0, key) {
        slot_of(entries, key, from + 1)
    } else {
        from
    }
}

/// The items folded by key: one entry for each key, in the order in which
/// the keys first occur and with the spelling of the first occurrence; its
/// value holds the values of all items with that key, joined by commas.
pub open spec fn folded(items: Seq<(Seq<char>, Seq<char>)>) -> Seq<(Seq<char>, Seq<char>)>
    decreases items.len(),
{
    if items.len() == 0 {
        Seq::empty()
    } else {
        let front = folded(items.drop_last());
        let at = slot_of(front, items.last().0, 0);
        if at < front.len() {
            front.update(at, (front[at].0, front[at].1 + ","@ + items.last().1))
        } else {
            front.push(items.last())
        }
    }
}

/// No two entries have the same key.
pub open spec fn distinct_keys(entries: Seq<(Seq<char>, Seq<char>)>) -> bool {
    forall|i: int, j: int|
        0 <= i < j < entries.len() ==> !same_key(
            (#[trigger] entries[i]).0,
            (#[trigger] entries[j]).0,
        )
}

pub proof fn lemma_slot_of_bounds(entries: Seq<(Seq<char>, Seq<char>)>, key: Seq<char>, from: int)
    requires
        0 <= from <= entries.len(),
    ensures
        from <= slot_of(entries, key, from) <= entries.len(),
        forall|i: int|
            from <= i < slot_of(entries, key, from) ==> !same_key((#[trigger] entries[i]).0, key),
        slot_of(entries, key, from) < entries.len() ==> same_key(
            entries[slot_of(entries, key, from)].0,
            key,
        ),
    decreases entries.len() - from,
{
    if from < entries.len() && !same_key(entries[from].0, key) {
        lemma_slot_of_bounds(entries, key, from + 1);
    }
}

/// Being the same key is symmetric and transitive.
pub proof fn lemma_same_key_equivalence(a: Seq<char>, b: Seq<char>, c: Seq<char>)
    ensures
        same_key(a, a),
        same_key(a, b) ==> same_key(b, a),
        same_key(a, b) && same_key(b, c) ==> same_key(a, c),
{
}

/// Folding by key leaves no key twice.
pub proof fn lemma_folded_distinct(items: Seq<(Seq<char>, Seq<char>)>)
    ensures
        distinct_keys(folded(items)),
    decreases items.len(),
{
    if items.len() > 0 {
        let front = folded(items.drop_last());
        lemma_folded_distinct(items.drop_last());
        let key = items.last().0;
        lemma_slot_of_bounds(front, key, 0);
        let at = slot_of(front, key, 0);
        let out = folded(items);
        if at < front.len() {
            assert forall|i: int, j: int| 0 <= i < j < out.len() implies !same_key(
                (#[trigger] out[i]).0,
                (#[trigger] out[j]).0,
            ) by {
                assert(out[i].0 == front[i].0);
                assert(out[j].0 == front[j].0);
            }
        } else {
            assert forall|i: int, j: int| 0 <= i < j < out.len() implies !same_key(
                (#[trigger] out[i]).0,
                (#[trigger] out[j]).0,
            ) by {
                if j < front.len() {
                    assert(out[i] == front[i]);
                    assert(out[j] == front[j]);
                } else {
                    assert(out[i] == front[i]);
                    lemma_same_key_equivalence(out[i].0, key, key);
                }
            }
        }
    }
}

impl Clone for CaseInsensitiveKey {
    fn clone(&self) -> (copy: Self)
        ensures
            copy@ == self@,
    {
        CaseInsensitiveKey(self.0.clone())
    }
}

impl PartialEq for CaseInsensitiveKey {
    fn eq(&self, other: &Self) -> (same: bool) {
        eq_ignore_ascii_case(self.0.as_str().as_bytes(), other.0.as_str().as_bytes())
    }
}

impl PartialEqSpecImpl for CaseInsensitiveKey {
    open spec fn obeys_eq_spec() -> bool {
        true
    }

    open spec fn eq_spec(&self, other: &Self) -> bool {
        same_key(self@, other@)
    }
}

impl Eq for CaseInsensitiveKey {

}

impl From<String> for CaseInsensitiveKey {
    fn from(key: String) -> (made: Self)
        ensures
            made@ == key@,
    {
        CaseInsensitiveKey(key)
    }
}

impl FromSpecImpl<String> for CaseInsensitiveKey {
    open spec fn obeys_from_spec() -> bool {
        false
    }

    open spec fn from_spec(key: String) -> Self {
        arbitrary()
    }
}

impl<'a> From<&'a str> for CaseInsensitiveKey {
    fn from(key: &'a str) -> (made: Self)
        ensures
            made@ == key@,
    {
        CaseInsensitiveKey(key.to_owned())
    }
}

impl<'a> FromSpecImpl<&'a str> for CaseInsensitiveKey {
    open spec fn obeys_from_spec() -> bool {
        false
    }

    open spec fn from_spec(key: &'a str) -> Self {
        arbitrary()
    }
}

impl From<CaseInsensitiveKey> for String {
    fn from(key: CaseInsensitiveKey) -> (text: Self)
        ensures
            text@ == key@,
    {
        key.0
    }
}

impl FromSpecImpl<CaseInsensitiveKey> for String {
    open spec fn obeys_from_spec() -> bool {
        false
    }

    open spec fn from_spec(key: CaseInsensitiveKey) -> Self {
        arbitrary()
    }
}

} // verus!
