//! The Collada importer's entry points.
use vstd::prelude::*;

use crate::text::{path_extension, path_extension_spec};

verus! {

/// The bytes of `<collada`.
pub open spec fn collada_tag() -> Seq<u8> {
    seq![0x3cu8, 0x63u8, 0x6fu8, 0x6cu8, 0x6cu8, 0x61u8, 0x64u8, 0x61u8]
}

/// `b` with ASCII upper-case letters mapped to lower case.
pub open spec fn ascii_lower(b: u8) -> u8 {
    if 0x41 <= b && b <= 0x5a { (b + 0x20) as u8 } else { b }
}

/// Whether `head` holds `<collada` in any letter case at position `i`.
pub open spec fn collada_at(head: Seq<u8>, i: int) -> bool {
    0 <= i && i + 8 <= head.len()
        && forall|j: int| 0 <= j < 8 ==> #[trigger] ascii_lower(head[i + j]) == collada_tag()[j]
}

/// Whether the head of a file mentions `<collada`, letter case ignored.
/// Reading the head as (lossy) UTF-8 and lower-casing its ASCII letters
/// leaves every ASCII byte where it was, so this is a test on the bytes.
pub open spec fn mentions_collada(head: Seq<u8>) -> bool {
    exists|i: int| collada_at(head, i)
}

/// Whether the Collada importer takes a file: its extension is `dae`, and
/// the first bytes read from it (`None` when it could not be opened or
/// read) mention `<collada`.
pub open spec fn dae_can_read_spec(path: Seq<char>, head: Option<Seq<u8>>) -> bool {
    path_extension_spec(path) == Some(seq!['d', 'a', 'e'])
        && match head {
            Some(h) => mentions_collada(h),
            None => false,
        }
}

/// The Collada (`.dae`) importer.
#[derive(Debug, Default)]
pub struct DaeImporter {
    /// When true, prefer Collada `name` over `id`/`sid` for node names.
    pub use_collada_name: bool,
    /// When true, the document's unit size is not applied to the root node.
    pub ignore_unit_size: bool,
    /// When true, the document's up axis is not turned into the root node's
    /// rotation.
    pub ignore_up_direction: bool,
}

fn lower(b: u8) -> (r: u8)
    ensures
        r == ascii_lower(b),
{
    if 0x41 <= b && b <= 0x5a { b + 0x20 } else { b }
}

/// Whether `head` mentions `<collada`, letter case ignored.
pub fn head_mentions_collada(head: &[u8]) -> (b: bool)
    ensures
        b == mentions_collada(head@),
{
    let tag: [u8; 8] = [0x3c, 0x63, 0x6f, 0x6c, 0x6c, 0x61, 0x64, 0x61];
    assert(tag@ =~= collada_tag());
    if head.len() < 8 {
        return false;
    }
    let mut i: usize = 0;
    let last: usize = head.len() - 8;
    while i <= last
        invariant
            tag@ == collada_tag(),
            head.len() >= 8,
            last == head.len() - 8,
            i <= last + 1,
            forall|k: int| 0 <= k < i ==> !collada_at(head@, k),
        decreases last + 1 - i,
    {
        let mut j: usize = 0;
        let mut ok = true;
        while j < 8
            invariant
                tag@ == collada_tag(),
                i + 8 <= head.len(),
                j <= 8,
                ok == forall|m: int| 0 <= m < j ==> #[trigger] ascii_lower(head@[i + m]) == collada_tag()[m],
            decreases 8 - j,
        {
            if lower(head[i + j]) != tag[j] {
                ok = false;
            }
            j = j + 1;
        }
        if ok {
            assert(collada_at(head@, i as int));
            return true;
        }
        assert(!collada_at(head@, i as int)) by {
            let m = choose|m: int| 0 <= m < 8 && #[trigger] ascii_lower(head@[i + m]) != collada_tag()[m];
        }
        i = i + 1;
    }
    assert forall|k: int| !collada_at(head@, k) by {
        if 0 <= k && k + 8 <= head.len() {
            assert(k <= last);
        }
    }
    false
}

impl DaeImporter {
    /// An importer that names nodes by their `id` (or `sid`) and applies the
    /// document's unit size and up axis.
    pub fn new() -> (r: DaeImporter)
        ensures
            r.use_collada_name == false,
            r.ignore_unit_size == false,
            r.ignore_up_direction == false,
    {
        DaeImporter { use_collada_name: false, ignore_unit_size: false, ignore_up_direction: false }
    }

    /// Whether the extension of `path` is one this importer takes (`dae`);
    /// only then is the head of the file worth reading.
    pub fn takes_extension(&self, path: &str) -> (b: bool)
        ensures
            b == (path_extension_spec(path@) == Some(seq!['d', 'a', 'e'])),
    {
        match path_extension(path) {
            None => false,
            Some(e) => {
                proof { reveal_strlit("dae"); }
                let dae = String::from_str("dae");
                assert(dae@ =~= seq!['d', 'a', 'e']);
                e == dae
            },
        }
    }

    /// Whether this importer reads the file at `path`, given the first (up
    /// to 200) bytes read from it, or `None` when it could not be read.
    pub fn can_read(&self, path: &str, head: Option<&[u8]>) -> (b: bool)
        ensures
            b == dae_can_read_spec(path@, match head { Some(h) => Some(h@), None => None }),
    {
        if !self.takes_extension(path) {
            return false;
        }
        match head {
            None => false,
            Some(h) => head_mentions_collada(h),
        }
    }

    /// The file extensions this importer lists.
    pub fn extensions(&self) -> (v: Vec<String>)
        ensures
            v.len() == 1,
            v@[0]@ == seq!['d', 'a', 'e'],
    {
        let mut v = Vec::new();
        v.push(String::from_str("dae"));
        proof { reveal_strlit("dae"); }
        v
    }
}

} // verus!
