//! The closed table of atom types and the child types each one admits.

use vstd::prelude::*;

verus! {

// Type tags, as the big-endian value of their four ASCII bytes.
pub const MOOV: u32 = 0x6d6f_6f76;
pub const MVHD: u32 = 0x6d76_6864;
pub const IODS: u32 = 0x696f_6473;
pub const TRAK: u32 = 0x7472_616b;
pub const UDTA: u32 = 0x7564_7461;
pub const TKHD: u32 = 0x746b_6864;
pub const TAPT: u32 = 0x7461_7074;
pub const CLIP: u32 = 0x636c_6970;
pub const MATT: u32 = 0x6d61_7474;
pub const EDTS: u32 = 0x6564_7473;
pub const TREF: u32 = 0x7472_6566;
pub const TXAS: u32 = 0x7478_6173;
pub const LOAD: u32 = 0x6c6f_6164;
pub const IMAP: u32 = 0x696d_6170;
pub const MDIA: u32 = 0x6d64_6961;
pub const MDHD: u32 = 0x6d64_6864;
pub const ELNG: u32 = 0x656c_6e67;
pub const HDLR: u32 = 0x6864_6c72;
pub const MINF: u32 = 0x6d69_6e66;

/// The tags an atom of type `parent` admits as immediate children; a type
/// outside the table is a leaf.
pub open spec fn schema_children(parent: u32) -> Seq<u32> {
    if parent == MOOV {
        seq![MVHD, IODS, TRAK, UDTA]
    } else if parent == TRAK {
        seq![TKHD, TAPT, CLIP, MATT, EDTS, TREF, TXAS, LOAD, IMAP, MDIA, UDTA]
    } else if parent == MDIA {
        seq![MDHD, ELNG, HDLR, MINF, UDTA]
    } else {
        seq![]
    }
}

/// The child tags of `parent`, in the order of the table.
pub fn child_tags(parent: u32) -> (r: Vec<u32>)
    ensures
        r@ == schema_children(parent),
{
    if parent == MOOV {
        vec![MVHD, IODS, TRAK, UDTA]
    } else if parent == TRAK {
        vec![TKHD, TAPT, CLIP, MATT, EDTS, TREF, TXAS, LOAD, IMAP, MDIA, UDTA]
    } else if parent == MDIA {
        vec![MDHD, ELNG, HDLR, MINF, UDTA]
    } else {
        Vec::new()
    }
}

/// Whether `tag` occurs in `tags`.
pub fn contains_tag(tags: &[u32], tag: u32) -> (r: bool)
    ensures
        r == tags@.contains(tag),
{
    let mut i: usize = 0;
    while i < tags.len()
        invariant
            i <= tags@.len(),
            forall|j: int| 0 <= j < i ==> tags@[j] != tag,
        decreases tags@.len() - i,
    {
        if tags[i] == tag {
            return true;
        }
        i = i + 1;
    }
    false
}

} // verus!
