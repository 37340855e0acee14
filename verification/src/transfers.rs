//! The insertion-ordered registry of transfers, held in an `IndexMap`.

use crate::string_map::{holds, lookup, put, without};
use indexmap::IndexMap;
use vstd::prelude::*;

verus! {

/// One transfer: a group of files that the caller uploads together.
#[derive(Debug)]
pub struct TransferEntry {
    pub transfer_id: String,
    /// File keys in FIFO order.
    pub file_keys: Vec<String>,
}

/// The content of a `TransferEntry`.
#[verifier::ext_equal]
pub struct TransferView {
    pub transfer_id: Seq<char>,
    pub file_keys: Seq<Seq<char>>,
}

/// The texts of a vector of strings.
pub open spec fn texts(v: Seq<String>) -> Seq<Seq<char>> {
    v.map_values(|s: String| s@)
}

impl View for TransferEntry {
    type V = TransferView;

    open spec fn view(&self) -> TransferView {
        TransferView { transfer_id: self.transfer_id@, file_keys: texts(self.file_keys@) }
    }
}

/// `indexmap::IndexMap`, an insertion-ordered map.
#[verifier::external_type_specification]
#[verifier::external_body]
#[verifier::reject_recursive_types(K)]
#[verifier::reject_recursive_types(V)]
#[verifier::reject_recursive_types(S)]
pub struct ExIndexMap<K, V, S>(IndexMap<K, V, S>);

/// What the registry holds: its transfers under their ids, in the order of the map.
pub uninterp spec fn registered(m: IndexMap<String, TransferEntry>) -> Seq<(Seq<char>, TransferView)>;

/// `IndexMap::new` makes an empty map.
#[verifier::external_body]
pub(crate) fn transfers_new() -> (r: IndexMap<String, TransferEntry>)
    ensures
        registered(r) == Seq::<(Seq<char>, TransferView)>::empty(),
{
    IndexMap::new()
}

/// `IndexMap::len` counts the pairs.
#[verifier::external_body]
pub(crate) fn transfers_len(m: &IndexMap<String, TransferEntry>) -> (r: usize)
    ensures
        r == registered(*m).len(),
{
    m.len()
}

/// `IndexMap::get` finds the value under a key.
#[verifier::external_body]
pub(crate) fn transfers_get<'a>(m: &'a IndexMap<String, TransferEntry>, id: &str) -> (r: Option<&'a TransferEntry>)
    ensures
        match r {
            Some(t) => lookup(registered(*m), id@) == Some(t@),
            None => !holds(registered(*m), id@),
        },
{
    m.get(id)
}

/// `IndexMap::get_mut` finds the value under a key and lets it be changed in place;
/// the order and the other pairs stay.
#[verifier::external_body]
pub(crate) fn transfers_get_mut<'a>(m: &'a mut IndexMap<String, TransferEntry>, id: &str) -> (r: Option<&'a mut TransferEntry>)
    ensures
        match r {
            Some(t) => {
                &&& lookup(registered(*old(m)), id@) == Some((*t)@)
                &&& registered(*final(m)) == put(registered(*old(m)), id@, (*final(t))@)
            },
            None => !holds(registered(*old(m)), id@) && registered(*final(m)) == registered(*old(m)),
        },
{
    m.get_mut(id)
}

/// `IndexMap::get_index` gives the pair at a position, and nothing past the end.
#[verifier::external_body]
pub(crate) fn transfers_at(m: &IndexMap<String, TransferEntry>, i: usize) -> (r: Option<(&String, &TransferEntry)>)
    ensures
        match r {
            Some(p) => i < registered(*m).len() && registered(*m)[i as int] == (p.0@, p.1@),
            None => i >= registered(*m).len(),
        },
{
    m.get_index(i)
}

/// `IndexMap::get_index_mut` lets the value at a position be changed in place, and gives
/// nothing past the end; the keys, their order and the other values stay.
#[verifier::external_body]
pub(crate) fn transfers_at_mut(m: &mut IndexMap<String, TransferEntry>, i: usize) -> (r: Option<&mut TransferEntry>)
    ensures
        match r {
            Some(t) => {
                &&& i < registered(*old(m)).len()
                &&& registered(*old(m))[i as int].1 == (*t)@
                &&& registered(*final(m)) == registered(*old(m)).update(
                    i as int,
                    (registered(*old(m))[i as int].0, (*final(t))@),
                )
            },
            None => i >= registered(*old(m)).len() && registered(*final(m)) == registered(*old(m)),
        },
{
    m.get_index_mut(i).map(|p| p.1)
}

/// `IndexMap::insert` puts the value under the key: a key that is there keeps its
/// place, a new one goes last.
#[verifier::external_body]
pub(crate) fn transfers_insert(m: &mut IndexMap<String, TransferEntry>, id: String, t: TransferEntry)
    ensures
        registered(*final(m)) == put(registered(*old(m)), id@, t@),
{
    m.insert(id, t);
}

/// `IndexMap::shift_remove` takes the pair with the key out; the others keep their order.
#[verifier::external_body]
pub(crate) fn transfers_remove(m: &mut IndexMap<String, TransferEntry>, id: &str)
    ensures
        registered(*final(m)) == without(registered(*old(m)), id@),
{
    m.shift_remove(id);
}

/// `IndexMap::clear` takes every pair out.
#[verifier::external_body]
pub(crate) fn transfers_clear(m: &mut IndexMap<String, TransferEntry>)
    ensures
        registered(*final(m)) == Seq::<(Seq<char>, TransferView)>::empty(),
{
    m.clear();
}

} // verus!
