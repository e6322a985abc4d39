use vstd::prelude::*;

verus! {

/// A JSON value as the control-channel codec sees it.  The orders
/// carry only unsigned numbers (ports, sizes, timeouts, bytes), so a
/// number is a `u64`; anything else fails decoding.
pub enum Json {
    Null,
    Bool(bool),
    UInt(u64),
    Str(String),
    Arr(Vec<Json>),
    Obj(Vec<(String, Json)>),
}

/// First value stored under `key` from entry `i` on, comparing keys by
/// character content.
pub open spec fn obj_get_from(entries: Seq<(String, Json)>, key: Seq<char>, i: int) -> Option<Json>
    decreases entries.len() - i,
{
    if i < 0 || i >= entries.len() {
        None
    } else if entries[i].0@ == key {
        Some(entries[i].1)
    } else {
        obj_get_from(entries, key, i + 1)
    }
}

/// First value stored under `key`.
pub open spec fn obj_get(entries: Seq<(String, Json)>, key: Seq<char>) -> Option<Json> {
    obj_get_from(entries, key, 0)
}

pub proof fn lemma_obj_get_from_found(entries: Seq<(String, Json)>, key: Seq<char>, i: int, j: int)
    requires
        0 <= i <= j < entries.len(),
        entries[j].0@ == key,
        forall|m: int| i <= m < j ==> entries[m].0@ != key,
    ensures
        obj_get_from(entries, key, i) == Some(entries[j].1),
    decreases j - i,
{
    if i < j {
        lemma_obj_get_from_found(entries, key, i + 1, j);
    }
}

pub proof fn lemma_obj_get_from_none(entries: Seq<(String, Json)>, key: Seq<char>, i: int)
    requires
        0 <= i,
        forall|m: int| i <= m < entries.len() ==> entries[m].0@ != key,
    ensures
        obj_get_from(entries, key, i) is None,
    decreases entries.len() - i,
{
    if i < entries.len() {
        lemma_obj_get_from_none(entries, key, i + 1);
    }
}

/// The entry with `key` that `obj_get` returns is the first one.
pub proof fn lemma_obj_get_found(entries: Seq<(String, Json)>, key: Seq<char>, j: int)
    requires
        0 <= j < entries.len(),
        entries[j].0@ == key,
        forall|m: int| 0 <= m < j ==> entries[m].0@ != key,
    ensures
        obj_get(entries, key) == Some(entries[j].1),
{
    lemma_obj_get_from_found(entries, key, 0, j);
}

pub proof fn lemma_obj_get_none(entries: Seq<(String, Json)>, key: Seq<char>)
    requires
        forall|m: int| 0 <= m < entries.len() ==> entries[m].0@ != key,
    ensures
        obj_get(entries, key) is None,
{
    lemma_obj_get_from_none(entries, key, 0);
}

/// Character-content equality of two string slices.
pub fn str_eq(a: &str, b: &str) -> (r: bool)
    ensures
        r == (a@ == b@),
{
    let x: String = a.to_owned();
    let y: String = b.to_owned();
    x == y
}

/// Looks `key` up in an object's entry list; the first entry wins.
pub fn obj_get_ref<'a>(entries: &'a Vec<(String, Json)>, key: &str) -> (r: Option<&'a Json>)
    ensures
        match r {
            Some(j) => obj_get(entries@, key@) == Some(*j),
            None => obj_get(entries@, key@) is None,
        },
{
    let mut i: usize = 0;
    while i < entries.len()
        invariant
            0 <= i <= entries.len(),
            forall|m: int| 0 <= m < i ==> entries@[m].0@ != key@,
        decreases entries.len() - i,
    {
        if str_eq(entries[i].0.as_str(), key) {
            proof {
                lemma_obj_get_found(entries@, key@, i as int);
            }
            return Some(&entries[i].1);
        }
        i = i + 1;
    }
    proof {
        lemma_obj_get_none(entries@, key@);
    }
    None
}

} // verus!
