//! File fingerprints: modification time, size and content hash.

use vstd::prelude::*;
use crate::digest::{
    blake3_hex, hasher_finalize_hex, hasher_input, hasher_new, hasher_rooted, hasher_update,
};

verus! {

/// The fingerprint of a file at one point in time.
#[derive(Debug)]
pub struct FileMeta {
    /// Last modification, in seconds since the epoch.
    pub mtime: i64,
    /// Length in bytes.
    pub size: i64,
    /// BLAKE3 hash of the whole content, in hexadecimal.
    pub hash: String,
}

impl Clone for FileMeta {
    fn clone(&self) -> (r: Self)
        ensures
            r == *self,
    {
        FileMeta { mtime: self.mtime, size: self.size, hash: self.hash.clone() }
    }
}

/// Hashes a file's content as it arrives, chunk by chunk, so that the file
/// need not be held in memory.
pub struct Fingerprinter {
    hasher: blake3::Hasher,
}

impl Fingerprinter {
    #[verifier::type_invariant]
    spec fn rooted(self) -> bool {
        hasher_rooted(self.hasher)
    }

    /// The bytes taken in so far.
    pub closed spec fn content(&self) -> Seq<u8> {
        hasher_input(self.hasher)
    }

    /// A fingerprinter that has taken in nothing.
    pub fn new() -> (f: Self)
        ensures
            f.content() == Seq::<u8>::empty(),
    {
        Fingerprinter { hasher: hasher_new() }
    }

    /// Takes in the next chunk of the content.
    pub fn absorb(&mut self, chunk: &[u8])
        ensures
            final(self).content() == old(self).content() + chunk@,
    {
        proof {
            use_type_invariant(&*self);
        }
        hasher_update(&mut self.hasher, chunk);
    }

    /// The fingerprint of the content taken in so far, with the given
    /// modification time and size.
    pub fn finish(&self, mtime: i64, size: i64) -> (meta: FileMeta)
        ensures
            meta.mtime == mtime,
            meta.size == size,
            meta.hash@ == blake3_hex(self.content()),
    {
        proof {
            use_type_invariant(self);
        }
        FileMeta { mtime, size, hash: hasher_finalize_hex(&self.hasher) }
    }
}

/// The fingerprint of a file with the given modification time, size and
/// content.
pub fn read_meta(mtime: i64, size: i64, content: &[u8]) -> (meta: FileMeta)
    ensures
        meta.mtime == mtime,
        meta.size == size,
        meta.hash@ == blake3_hex(content@),
{
    let mut f = Fingerprinter::new();
    f.absorb(content);
    assert(Seq::<u8>::empty() + content@ =~= content@);
    f.finish(mtime, size)
}

} // verus!
