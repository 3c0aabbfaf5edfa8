//! Byte strings: what file names, arguments and environment variables are
//! made of.

use vstd::prelude::*;

verus! {

/// The byte that ends a string handed to the system, and can stand in none.
pub const NUL: u8 = 0;

/// `/`, which separates the parts of a path.
pub const SLASH: u8 = 0x2f;

/// `-`, which every option begins with.
pub const HYPHEN: u8 = 0x2d;

/// `.`, which alone stands for the directory itself in a path.
pub const DOT: u8 = 0x2e;

/// `=`, which separates the name of an environment variable from its value.
pub const EQUALS: u8 = 0x3d;

/// The contents of a list of byte strings.
pub open spec fn contents(list: Seq<Vec<u8>>) -> Seq<Seq<u8>> {
    list.map_values(|bytes: Vec<u8>| bytes@)
}

/// Whether `byte` occurs in `bytes`.
pub(crate) fn contains_byte(bytes: &Vec<u8>, byte: u8) -> (found: bool)
    ensures
        found == bytes@.contains(byte),
{
    let mut i: usize = 0;
    while i < bytes.len()
        invariant
            i <= bytes@.len(),
            forall|j: int| 0 <= j < i ==> bytes@[j] != byte,
        decreases bytes@.len() - i,
    {
        if bytes[i] == byte {
            assert(bytes@[i as int] == byte);
            return true;
        }
        i += 1;
    }
    false
}

/// Whether two byte strings hold the same bytes.
pub(crate) fn same_bytes(a: &Vec<u8>, b: &Vec<u8>) -> (same: bool)
    ensures
        same == (a@ == b@),
{
    if a.len() != b.len() {
        return false;
    }
    let mut i: usize = 0;
    while i < a.len()
        invariant
            i <= a@.len(),
            a@.len() == b@.len(),
            forall|j: int| 0 <= j < i ==> a@[j] == b@[j],
        decreases a@.len() - i,
    {
        if a[i] != b[i] {
            assert(a@[i as int] != b@[i as int]);
            return false;
        }
        i += 1;
    }
    assert(a@ =~= b@);
    true
}

/// Adds `tail` at the end of `bytes`.
pub(crate) fn append_bytes(bytes: &mut Vec<u8>, tail: &Vec<u8>)
    ensures
        final(bytes)@ == old(bytes)@ + tail@,
{
    bytes.extend_from_slice(tail.as_slice());
    assert(bytes@ =~= old(bytes)@ + tail@);
}

/// A second copy of `bytes`.
pub(crate) fn copy_bytes(bytes: &Vec<u8>) -> (copy: Vec<u8>)
    ensures
        copy@ == bytes@,
{
    let mut copy: Vec<u8> = Vec::new();
    append_bytes(&mut copy, bytes);
    assert(copy@ =~= bytes@);
    copy
}

/// The bytes with a meaning are those of their characters.
pub proof fn law_bytes_with_a_meaning()
    ensures
        NUL == 0,
        SLASH as char == '/',
        EQUALS as char == '=',
        HYPHEN as char == '-',
        DOT as char == '.',
{
}

/// The contents of a list are those of its items, each in its place.
pub proof fn law_contents_are_those_of_the_items(list: Seq<Vec<u8>>, i: int)
    ensures
        contents(list).len() == list.len(),
        0 <= i < list.len() ==> contents(list)[i] == list[i]@,
{
}

} // verus!
