//! Directory entry: what lives inside the data blocks of a directory
//! inode. 4-byte inode number plus a 60-byte NUL-padded name.

use vstd::prelude::*;

use vstd::utf8::{decode_utf8, valid_utf8};

use super::consts::MAX_NAME_LEN;

verus! {

#[derive(Copy, Clone)]
pub struct DirEntry {
    pub inode: u32,
    pub name: [u8; 60],
}

/// Length of the name: the bytes before the first NUL, or all of them.
pub open spec fn name_len_from(name: Seq<u8>, i: int) -> int
    decreases name.len() - i,
{
    if i < 0 || i >= name.len() {
        name.len() as int
    } else if name[i] == 0 {
        i
    } else {
        name_len_from(name, i + 1)
    }
}

pub open spec fn name_len(name: Seq<u8>) -> int {
    name_len_from(name, 0)
}

/// The text `String::from_utf8` makes of `bytes`, if they are UTF-8.
///
/// Wraps `String::from_utf8`, whose documentation says it fails exactly
/// when the bytes are not valid UTF-8 and otherwise holds those bytes.
#[verifier::external_body]
fn string_from_utf8(bytes: Vec<u8>) -> (r: Option<String>)
    ensures
        match r {
            Some(s) => valid_utf8(bytes@) && s@ == decode_utf8(bytes@),
            None => !valid_utf8(bytes@),
        },
{
    String::from_utf8(bytes).ok()
}

impl DirEntry {
    /// The entry's name with the NUL padding stripped, or `<bad utf8>`
    /// when those bytes are not UTF-8.
    pub fn name_str(&self) -> (r: String)
        ensures
            valid_utf8(self.name@.subrange(0, name_len(self.name@))) ==> r@ == decode_utf8(
                self.name@.subrange(0, name_len(self.name@)),
            ),
            !valid_utf8(self.name@.subrange(0, name_len(self.name@))) ==> r@ == "<bad utf8>"@,
    {
        let mut len: usize = MAX_NAME_LEN;
        let mut i: usize = 0;
        while i < MAX_NAME_LEN
            invariant_except_break
                len == 60,
            invariant
                i <= 60,
                self.name@.len() == 60,
                name_len(self.name@) == name_len_from(self.name@, i as int),
            ensures
                len == name_len(self.name@),
                len <= 60,
            decreases 60 - i,
        {
            if self.name[i] == 0 {
                len = i;
                break;
            }
            i = i + 1;
        }
        let mut bytes: Vec<u8> = Vec::new();
        let mut k: usize = 0;
        while k < len
            invariant
                len <= 60,
                self.name@.len() == 60,
                k <= len,
                bytes@ == self.name@.subrange(0, k as int),
            decreases len - k,
        {
            bytes.push(self.name[k]);
            k = k + 1;
            proof {
                assert(bytes@ =~= self.name@.subrange(0, k as int));
            }
        }
        match string_from_utf8(bytes) {
            Some(s) => s,
            None => "<bad utf8>".to_string(),
        }
    }
}

} // verus!
