//! The mapping that a map index shows, and what a write makes of it.

use vstd::prelude::*;

verus! {

/// The value that a mapping keeps under `k`, if any.
pub open spec fn found(m: Map<Seq<u8>, Seq<u8>>, k: Seq<u8>) -> Option<Seq<u8>> {
    if m.contains_key(k) {
        Some(m[k])
    } else {
        None
    }
}

/// An optional byte string as contracts see it.
pub open spec fn bytes_view(o: Option<Vec<u8>>) -> Option<Seq<u8>> {
    match o {
        Some(v) => Some(v@),
        None => None,
    }
}

/// One write to a map index.
pub enum Write {
    /// Keep the value under the key.
    Put(Seq<u8>, Seq<u8>),
    /// Drop the key.
    Remove(Seq<u8>),
    /// Drop every key.
    Clear,
}

/// The mapping after one write.
pub open spec fn apply(m: Map<Seq<u8>, Seq<u8>>, w: Write) -> Map<Seq<u8>, Seq<u8>> {
    match w {
        Write::Put(k, v) => m.insert(k, v),
        Write::Remove(k) => m.remove(k),
        Write::Clear => Map::empty(),
    }
}

/// The mapping after the writes of `ws`, first to last.
pub open spec fn apply_all(m: Map<Seq<u8>, Seq<u8>>, ws: Seq<Write>) -> Map<Seq<u8>, Seq<u8>>
    decreases ws.len(),
{
    if ws.len() == 0 {
        m
    } else {
        apply(apply_all(m, ws.drop_last()), ws.last())
    }
}

/// The write puts a value under `k`.
pub open spec fn puts(w: Write, k: Seq<u8>) -> bool {
    match w {
        Write::Put(k2, _) => k2 == k,
        _ => false,
    }
}

/// The write may change what is kept under `k`: it puts a value there,
/// drops `k`, or drops every key.
pub open spec fn touches(w: Write, k: Seq<u8>) -> bool {
    match w {
        Write::Put(k2, _) => k2 == k,
        Write::Remove(k2) => k2 == k,
        Write::Clear => true,
    }
}

} // verus!
