//! A fingerprint of a text, to tell whether a cached rendering of it is stale.
use std::collections::hash_map::DefaultHasher;
use std::hash::Hasher;

use vstd::prelude::*;
use vstd::std_specs::hash::DefaultHasherAdditionalSpecFns;
use vstd::string::StringSliceAdditionalSpecFns;

verus! {

/// The bytes a `str` feeds a hasher: its UTF-8 bytes, then `0xff` (a byte no
/// UTF-8 text holds, which keeps the stream prefix-free).
pub open spec fn str_hash_stream(s: &str) -> Seq<Seq<u8>> {
    seq![s.spec_bytes(), seq![0xffu8]]
}

/// The `DefaultHasher` hash of `s`: the default hasher fed the bytes of `s`
/// and then `0xff`, as hashing a `str` does.
pub fn text_fingerprint(s: &str) -> (h: u64)
    ensures
        h == DefaultHasher::spec_finish(str_hash_stream(s)),
{
    let mut h = DefaultHasher::new();
    h.write(s.as_bytes());
    let end: [u8; 1] = [0xffu8];
    h.write(&end);
    assert(end@ =~= seq![0xffu8]);
    assert(h@ =~= str_hash_stream(s));
    h.finish()
}

} // verus!
