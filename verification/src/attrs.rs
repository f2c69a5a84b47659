//! Attribute lists: the `name -> value` pairs of a manifest element or of a
//! badging record, in the order they were read. A later pair with the same
//! name replaces an earlier one, as inserting into a map would.

use vstd::prelude::*;
use crate::text::str_is;

verus! {

/// The model of an attribute list: `(name, value)` pairs in reading order.
pub type AttrsView = Seq<(Seq<char>, Seq<char>)>;

/// The value last given to `key`, if any.
pub open spec fn kv_get(pairs: AttrsView, key: Seq<char>) -> Option<Seq<char>>
    decreases pairs.len(),
{
    if pairs.len() == 0 {
        None
    } else if pairs.last().0 == key {
        Some(pairs.last().1)
    } else {
        kv_get(pairs.drop_last(), key)
    }
}

/// Reading a name just written gives the value written; other names read
/// as before.
pub proof fn lemma_kv_get_after_push(pairs: AttrsView, key: Seq<char>, value: Seq<char>, other: Seq<char>)
    ensures
        kv_get(pairs.push((key, value)), key) == Some(value),
        other != key ==> kv_get(pairs.push((key, value)), other) == kv_get(pairs, other),
{
    assert(pairs.push((key, value)).drop_last() =~= pairs);
}

/// Looks `key` up: a copy of the value last given to it.
pub fn attr_get(attrs: &Vec<(String, String)>, key: &str) -> (res: Option<String>)
    ensures
        res.deep_view() == kv_get(attrs.deep_view(), key@),
{
    let ghost all = attrs.deep_view();
    let mut i = attrs.len();
    assert(all.take(i as int) =~= all);
    while i > 0
        invariant
            i <= attrs@.len(),
            all == attrs.deep_view(),
            kv_get(all, key@) == kv_get(all.take(i as int), key@),
        decreases i,
    {
        let ghost pre = all.take(i as int);
        assert(pre.drop_last() =~= all.take(i - 1));
        assert(pre.last() == attrs@[i - 1].deep_view());
        if str_is(attrs[i - 1].0.as_str(), key) {
            return Some(attrs[i - 1].1.clone());
        }
        i = i - 1;
    }
    None
}

/// Appends a pair, stated over the models.
pub(crate) fn attr_push(attrs: &mut Vec<(String, String)>, key: String, value: String)
    ensures
        final(attrs).deep_view() == old(attrs).deep_view().push((key@, value@)),
{
    let ghost before = attrs.deep_view();
    attrs.push((key, value));
    assert(attrs.deep_view() =~= before.push((key@, value@)));
}

} // verus!
