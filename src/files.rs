//! Stored files and where their content lives.
use vstd::prelude::*;
use crate::ids::{hyphenated, hyphenated_of};
use vstd::string::StringExecFns;

verus! {

pub struct File {
    pub id: u128,
    pub created_at: i64,
    pub updated_at: i64,
    pub name: String,
    pub size: i64,
    pub file_type: String,
    pub explicitly_trashed: bool,
    pub trashed_at: Option<i64>,
    pub namespace_id: Option<u128>,
    pub parent_id: Option<u128>,
}

/// Name of the hidden root folder of a namespace's files.
pub open spec fn root_file_name() -> Seq<char> {
    seq!['_', '_', 'b', 'l', 'o', 'o', 'm', '_', 'r', 'o', 'o', 't']
}

/// Where the content of file `id` is stored: `/files/`, the first four
/// characters of its hyphenated identifier, `/`, the whole identifier.
pub open spec fn storage_key_of(id: u128) -> Seq<char> {
    seq!['/', 'f', 'i', 'l', 'e', 's', '/'] + hyphenated_of(id).subrange(0, 4) + seq!['/']
        + hyphenated_of(id)
}

impl File {
    pub fn is_root(&self) -> (r: bool)
        ensures
            r == (self.name@ == root_file_name()),
    {
        let root = String::from_str("__bloom_root");
        proof {
            reveal_strlit("__bloom_root");
        }
        assert(root@ == root_file_name());
        self.name == root
    }

    pub fn storage_key(&self) -> (r: String)
        ensures
            r@ == storage_key_of(self.id),
    {
        let id = hyphenated(self.id);
        let mut key = String::from_str("/files/");
        proof {
            reveal_strlit("/files/");
            reveal_strlit("/");
        }
        key.append(id.as_str().substring_ascii(0, 4));
        key.append("/");
        key.append(id.as_str());
        key
    }
}

} // verus!
