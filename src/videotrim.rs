//! Locating the root atom in a loaded buffer and reading the movie from it.

use vstd::prelude::*;
use crate::movie::{movie_at, MovieAtoms, MovieTree};
use crate::parser::{MParser, ParseError};

verus! {

/// Whether the four bytes at `k` spell the root tag `moov`.
pub open spec fn root_tag_at(data: Seq<u8>, k: int) -> bool {
    &&& 0 <= k
    &&& k + 4 <= data.len()
    &&& data[k] == 0x6d
    &&& data[k + 1] == 0x6f
    &&& data[k + 2] == 0x6f
    &&& data[k + 3] == 0x76
}

/// Whether a root atom starts at `p`: its tag follows its 4-byte size field.
pub open spec fn root_at(data: Seq<u8>, p: int) -> bool {
    root_tag_at(data, p + 4)
}

/// How much of `moov` the bytes before `i` end with, as the matcher counts it.
spec fn matched_prefix(data: Seq<u8>, i: int) -> usize {
    if i >= 3 && data[i - 3] == 0x6d && data[i - 2] == 0x6f && data[i - 1] == 0x6f {
        3
    } else if i >= 2 && data[i - 2] == 0x6d && data[i - 1] == 0x6f {
        2
    } else if i >= 1 && data[i - 1] == 0x6d {
        1
    } else {
        0
    }
}

/// Finds the first root atom: scans the bytes once, tracking how many
/// characters of `moov` have just been seen (an `m` always starts a new match),
/// and returns the offset of the size field four bytes before the first tag
/// that has room for one.
pub fn find_moov(data: &[u8]) -> (r: Result<usize, ParseError>)
    ensures
        r is Ok ==> root_at(data@, r->Ok_0 as int),
        r is Ok ==> forall|p: int| 0 <= p < r->Ok_0 ==> !root_at(data@, p),
        r is Err ==> r == Err::<usize, ParseError>(ParseError::RootNotFound),
        r is Err <==> forall|p: int| 0 <= p ==> !root_at(data@, p),
        (forall|k: int| !root_tag_at(data@, k)) ==> r == Err::<usize, ParseError>(ParseError::RootNotFound),
{
    let mut m: usize = 0;
    let mut i: usize = 0;
    while i < data.len()
        invariant
            i <= data@.len(),
            m == matched_prefix(data@, i as int),
            forall|p: int| 0 <= p && p + 8 <= i ==> !root_at(data@, p),
        decreases data@.len() - i,
    {
        let c = data[i];
        if c == 0x6d {
            m = 1;
        } else if c == 0x6f && (m == 1 || m == 2) {
            m = m + 1;
        } else if c == 0x76 && m == 3 {
            if i >= 7 {
                assert(root_tag_at(data@, i - 3));
                assert(root_at(data@, i - 7));
                return Ok(i - 7);
            }
            m = 0;
        } else {
            m = 0;
        }
        i = i + 1;
    }
    Err(ParseError::RootNotFound)
}

/// Reads the movie tree of a whole file held in `data`: locates the first
/// root atom and parses the tree from it.
pub fn parse_movie(data: Vec<u8>) -> (r: Result<MovieAtoms, ParseError>)
    ensures
        (forall|p: int| 0 <= p ==> !root_at(data@, p)) ==> r == Err::<MovieAtoms, ParseError>(
            ParseError::RootNotFound,
        ),
        forall|p: int|
            #![trigger root_at(data@, p)]
            0 <= p && root_at(data@, p) && (forall|q: int| 0 <= q < p ==> !root_at(data@, q))
                ==> match movie_at(data@, p as nat) {
                Ok(t) => r is Ok && r->Ok_0@ == t,
                Err(e) => r == Err::<MovieAtoms, ParseError>(e),
            },
{
    let root = match find_moov(data.as_slice()) {
        Ok(p) => p,
        Err(e) => return Err(e),
    };
    let ghost bytes = data@;
    let mut parser = MParser::new(data);
    let mut view = parser.get_view_at(root);
    let r = MovieAtoms::parse(&mut view);
    view.close();
    proof {
        assert forall|p: int|
            #![trigger root_at(bytes, p)]
            0 <= p && root_at(bytes, p) && (forall|q: int| 0 <= q < p ==> !root_at(bytes, q))
                implies p == root by {
            if p < root {
            } else if p > root {
                assert(root_at(bytes, root as int));
            }
        }
    }
    r
}

} // verus!
