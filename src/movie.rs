//! The movie tree and the stack-driven traversal that fills it.

use vstd::prelude::*;
use crate::atoms::{
    atom_type_and_size, children_at, container_children, hdlr_at, header_at, lemma_container_fits, lemma_header_fits,
    lemma_scan_children_admitted, mdhd_at, mdia_at, moov_at, mvhd_at, tkhd_at, trak_at,
    AtomParser, HandlerReferenceAtom, MediaAtom, MediaHeaderAtom, MoovAtom, MovieHeaderAtom,
    TrakAtom, TrakHeaderAtom,
};
use crate::parser::{MParserView, ParseError};
use crate::schema::{schema_children, HDLR, MDHD, MDIA, MOOV, MVHD, TKHD, TRAK};

verus! {

/// The abstract movie tree.
pub ghost struct MovieTree {
    pub moov: Option<MoovAtom>,
    pub mvhd: Option<MovieHeaderAtom>,
    pub traks: Seq<TrakAtom>,
}

/// The records of a movie: the root `moov` atom, its movie header, and its
/// tracks in the order they appear.
#[derive(Clone, Debug)]
pub struct MovieAtoms {
    pub moov: Option<MoovAtom>,
    pub mvhd: Option<MovieHeaderAtom>,
    pub traks: Vec<TrakAtom>,
}

impl View for MovieAtoms {
    type V = MovieTree;

    open spec fn view(&self) -> MovieTree {
        MovieTree { moov: self.moov, mvhd: self.mvhd, traks: self.traks@ }
    }
}

/// The type tag of the atom at `o`.
pub open spec fn tag_at(data: Seq<u8>, o: nat) -> u32 {
    header_at(data, o)->Ok_0.1
}

/// The atoms visited for a child of a track: a media atom is followed by its
/// children, any other atom stands alone.
pub open spec fn track_child_visits(data: Seq<u8>, o: nat) -> Seq<nat> {
    if tag_at(data, o) == MDIA {
        seq![o] + children_at(data, o, MDIA)
    } else {
        seq![o]
    }
}

/// The atoms visited for the atom at `o` and everything found below it, in
/// visiting order (each atom before its children, children in file order).
pub open spec fn subtree_visits(data: Seq<u8>, o: nat) -> Seq<nat> {
    if tag_at(data, o) == TRAK {
        seq![o] + children_at(data, o, TRAK).map_values(|c: nat| track_child_visits(data, c)).flatten()
    } else {
        track_child_visits(data, o)
    }
}

/// Every atom visited below the root at `root`, in visiting order.
pub open spec fn movie_visits(data: Seq<u8>, root: nat) -> Seq<nat> {
    children_at(data, root, MOOV).map_values(|c: nat| subtree_visits(data, c)).flatten()
}

/// `t` with its last track replaced by `k`.
pub open spec fn with_last_trak(t: MovieTree, k: TrakAtom) -> MovieTree {
    MovieTree { traks: t.traks.update(t.traks.len() - 1, k), ..t }
}

/// The tree after visiting the atom at `o`: a recognized atom is parsed and
/// stored in its place (a movie header in the root, a track appended, a track
/// header or media atom in the last track, a media or handler header in the
/// last track's media atom), replacing an earlier one of its kind; a parse
/// error ends the walk with that error; any other atom changes nothing.
#[verifier::opaque]
pub open spec fn visit(t: MovieTree, data: Seq<u8>, o: nat) -> Result<MovieTree, ParseError> {
    let tag = tag_at(data, o);
    let has_trak = t.traks.len() > 0;
    let last = t.traks.last();
    if tag == MVHD {
        match mvhd_at(data, o) {
            Ok(h) => Ok(MovieTree { mvhd: Some(h), ..t }),
            Err(e) => Err(e),
        }
    } else if tag == TRAK {
        match trak_at(data, o) {
            Ok(k) => Ok(MovieTree { traks: t.traks.push(k), ..t }),
            Err(e) => Err(e),
        }
    } else if tag == TKHD {
        match tkhd_at(data, o) {
            Ok(h) => Ok(
                if has_trak {
                    with_last_trak(t, TrakAtom { tkhd: Some(h), ..last })
                } else {
                    t
                },
            ),
            Err(e) => Err(e),
        }
    } else if tag == MDIA {
        match mdia_at(data, o) {
            Ok(m) => Ok(
                if has_trak {
                    with_last_trak(t, TrakAtom { mdia: Some(m), ..last })
                } else {
                    t
                },
            ),
            Err(e) => Err(e),
        }
    } else if tag == MDHD {
        match mdhd_at(data, o) {
            Ok(h) => Ok(
                if has_trak && last.mdia is Some {
                    with_last_trak(
                        t,
                        TrakAtom { mdia: Some(MediaAtom { mdhd: Some(h), ..last.mdia->Some_0 }), ..last },
                    )
                } else {
                    t
                },
            ),
            Err(e) => Err(e),
        }
    } else if tag == HDLR {
        match hdlr_at(data, o) {
            Ok(h) => Ok(
                if has_trak && last.mdia is Some {
                    with_last_trak(
                        t,
                        TrakAtom { mdia: Some(MediaAtom { hdlr: Some(h), ..last.mdia->Some_0 }), ..last },
                    )
                } else {
                    t
                },
            ),
            Err(e) => Err(e),
        }
    } else {
        Ok(t)
    }
}

/// The tree after visiting `visits` in order from `t`, or the first error.
pub open spec fn visit_all(t: Result<MovieTree, ParseError>, data: Seq<u8>, visits: Seq<nat>) -> Result<MovieTree, ParseError>
    decreases visits.len(),
{
    if visits.len() == 0 {
        t
    } else {
        match t {
            Ok(t0) => visit_all(visit(t0, data, visits[0]), data, visits.drop_first()),
            Err(e) => Err(e),
        }
    }
}

/// The movie tree read from the root atom at `root`.
pub open spec fn movie_at(data: Seq<u8>, root: nat) -> Result<MovieTree, ParseError> {
    match moov_at(data, root) {
        Ok(m) => visit_all(
            Ok(MovieTree { moov: Some(m), mvhd: None, traks: seq![] }),
            data,
            movie_visits(data, root),
        ),
        Err(e) => Err(e),
    }
}

/// The visits still owed for a traversal stack (the top of the stack is its
/// last element and is visited first).
#[verifier::opaque]
pub open spec fn pending_visits(data: Seq<u8>, stack: Seq<nat>) -> Seq<nat> {
    stack.reverse().map_values(|o: nat| subtree_visits(data, o)).flatten()
}

proof fn lemma_visit_all_err(e: ParseError, data: Seq<u8>, visits: Seq<nat>)
    ensures
        visit_all(Err(e), data, visits) == Err::<MovieTree, ParseError>(e),
{
}

proof fn lemma_reverse_concat(a: Seq<nat>, b: Seq<nat>)
    ensures
        (a + b).reverse() =~= b.reverse() + a.reverse(),
{
}

proof fn lemma_reverse_reverse(a: Seq<nat>)
    ensures
        a.reverse().reverse() =~= a,
{
}

proof fn lemma_flatten_singletons(s: Seq<nat>)
    ensures
        s.map_values(|c: nat| seq![c]).flatten() =~= s,
    decreases s.len(),
{
    if s.len() > 0 {
        lemma_flatten_singletons(s.drop_first());
        assert(s.map_values(|c: nat| seq![c]).drop_first() =~= s.drop_first().map_values(|c: nat| seq![c]));
        assert(s =~= seq![s[0]] + s.drop_first());
    }
}

proof fn lemma_flatten_concat_nat(x: Seq<Seq<nat>>, y: Seq<Seq<nat>>)
    ensures
        (x + y).flatten() =~= x.flatten() + y.flatten(),
    decreases x.len(),
{
    if x.len() > 0 {
        lemma_flatten_concat_nat(x.drop_first(), y);
        assert((x + y).drop_first() =~= x.drop_first() + y);
    }
}

/// No child type of a track or of a media atom is itself a track, and no child
/// type of a media atom is a media atom.
proof fn lemma_schema_nesting(t: u32)
    ensures
        schema_children(TRAK).contains(t) ==> t != TRAK,
        schema_children(MDIA).contains(t) ==> t != TRAK && t != MDIA,
        schema_children(MOOV).contains(t) ==> t != MOOV,
{
    if schema_children(TRAK).contains(t) {
        let i = choose|i: int| 0 <= i < schema_children(TRAK).len() && schema_children(TRAK)[i] == t;
        assert(0 <= i < 11);
    }
    if schema_children(MDIA).contains(t) {
        let i = choose|i: int| 0 <= i < schema_children(MDIA).len() && schema_children(MDIA)[i] == t;
        assert(0 <= i < 5);
    }
}

/// Popping `o` from a stack `rest + [o]` and pushing the children of `o`
/// (last first) leaves the visits owed after `o` itself.
proof fn lemma_pending_step(data: Seq<u8>, rest: Seq<nat>, o: nat, pushed: Seq<nat>)
    requires
        header_at(data, o) is Ok,
        pushed == (if tag_at(data, o) == TRAK || tag_at(data, o) == MDIA {
            children_at(data, o, tag_at(data, o)).reverse()
        } else {
            seq![]
        }),
    ensures
        pending_visits(data, rest.push(o)) =~= seq![o] + pending_visits(data, rest + pushed),
{
    reveal(pending_visits);
    let f = |x: nat| subtree_visits(data, x);
    lemma_reverse_concat(rest, seq![o]);
    assert(rest.push(o) =~= rest + seq![o]);
    assert(seq![o].reverse() =~= seq![o]);
    let rr = rest.reverse();
    assert((seq![o] + rr).map_values(f) =~= seq![f(o)] + rr.map_values(f));
    assert((seq![f(o)] + rr.map_values(f)).drop_first() =~= rr.map_values(f));
    lemma_reverse_concat(rest, pushed);
    let kids = pushed.reverse();
    assert((kids + rr).map_values(f) =~= kids.map_values(f) + rr.map_values(f));
    lemma_flatten_concat_nat(kids.map_values(f), rr.map_values(f));
    let tag = tag_at(data, o);
    if tag == TRAK || tag == MDIA {
        lemma_reverse_reverse(children_at(data, o, tag));
        lemma_scan_children_admitted(data, schema_children(tag), o + 8);
        let c = children_at(data, o, tag);
        assert forall|i: int| 0 <= i < c.len() implies #[trigger] header_at(data, c[i]) is Ok
            && schema_children(tag).contains(tag_at(data, c[i])) by {}
        if tag == TRAK {
            assert forall|i: int| 0 <= i < c.len() implies #[trigger] subtree_visits(data, c[i])
                == track_child_visits(data, c[i]) by {
                lemma_schema_nesting(tag_at(data, c[i]));
            }
            assert(c.map_values(f) =~= c.map_values(|x: nat| track_child_visits(data, x)));
        } else {
            assert forall|i: int| 0 <= i < c.len() implies #[trigger] subtree_visits(data, c[i])
                == seq![c[i]] by {
                lemma_schema_nesting(tag_at(data, c[i]));
            }
            assert(c.map_values(f) =~= c.map_values(|x: nat| seq![x]));
            lemma_flatten_singletons(c);
        }
    } else {
        assert(kids =~= Seq::<nat>::empty());
        assert(kids.map_values(f) =~= Seq::<Seq<nat>>::empty());
    }
}

/// Every offset of a child list (last first) holds a readable header.
proof fn lemma_children_headers(data: Seq<u8>, o: nat, tag: u32, k: Seq<usize>)
    requires
        k.map_values(|c: usize| c as nat) == children_at(data, o, tag).reverse(),
    ensures
        forall|i: int| 0 <= i < k.len() ==> #[trigger] header_at(data, k[i] as nat) is Ok,
{
    let c = children_at(data, o, tag);
    lemma_scan_children_admitted(data, schema_children(tag), o + 8);
    assert(k.map_values(|c: usize| c as nat).len() == k.len());
    assert(c.reverse().len() == c.len());
    assert forall|i: int| 0 <= i < k.len() implies #[trigger] header_at(data, k[i] as nat) is Ok by {
        let j = c.len() - 1 - i;
        assert(k.map_values(|c: usize| c as nat)[i] == c.reverse()[i]);
        assert(c.reverse()[i] == c[j]);
        assert(header_at(data, c[j]) is Ok);
    }
}

/// When the first 8 bytes of the root's body hold a header whose tag the root
/// does not admit, the walk stops there without error: the tree holds the root
/// and nothing else.
pub proof fn lemma_unadmitted_first_child(data: Seq<u8>, root: nat)
    requires
        moov_at(data, root) is Ok,
        header_at(data, root + 8) is Ok,
        !schema_children(MOOV).contains(tag_at(data, root + 8)),
    ensures
        movie_at(data, root) == Ok::<MovieTree, ParseError>(
            MovieTree { moov: Some(moov_at(data, root)->Ok_0), mvhd: None, traks: seq![] },
        ),
{
    lemma_header_fits(data, root + 8);
    assert(children_at(data, root, MOOV) =~= Seq::<nat>::empty());
    assert(movie_visits(data, root) =~= Seq::<nat>::empty());
}

/// The track at `o` with the records of its subtree in place: its own header
/// record, updated by visiting its children and their children in the order
/// the movie walk visits them (track header and media atom in the track, media
/// and handler headers in its media atom, later ones replacing earlier ones),
/// or the first error.
pub open spec fn trak_tree_at(data: Seq<u8>, o: nat) -> Result<TrakAtom, ParseError> {
    match trak_at(data, o) {
        Ok(k) => match visit_all(
            Ok(MovieTree { moov: None, mvhd: None, traks: seq![k] }),
            data,
            children_at(data, o, TRAK).map_values(|c: nat| subtree_visits(data, c)).flatten(),
        ) {
            Ok(t) => Ok(t.traks.last()),
            Err(e) => Err(e),
        },
        Err(e) => Err(e),
    }
}

/// Visiting atoms never removes a track.
proof fn lemma_visit_all_keeps_traks(t: MovieTree, data: Seq<u8>, visits: Seq<nat>)
    ensures
        visit_all(Ok(t), data, visits) is Ok ==> visit_all(Ok(t), data, visits)->Ok_0.traks.len()
            >= t.traks.len(),
    decreases visits.len(),
{
    reveal(visit);
    if visits.len() > 0 {
        match visit(t, data, visits[0]) {
            Ok(t1) => lemma_visit_all_keeps_traks(t1, data, visits.drop_first()),
            Err(e) => lemma_visit_all_err(e, data, visits.drop_first()),
        }
    }
}

impl AtomParser<TrakAtom> for TrakAtom {
    /// Reads the track at the view's position together with its subtree: the
    /// track's children are walked with the same stack as the movie walk.
    fn parse(parser: &mut MParserView) -> (r: Result<TrakAtom, ParseError>)
        ensures
            r == trak_tree_at(old(parser)@.cursor.data, old(parser)@.cursor.position),
            r is Ok ==> final(parser)@.cursor.position == old(parser)@.cursor.position + 8,
            final(parser)@.restore == old(parser)@.restore,
            final(parser)@.cursor.data == old(parser)@.cursor.data,
            *final(final(parser).parser) == *final(old(parser).parser),
    {
        let ghost data = parser@.cursor.data;
        let o = parser.get_position();
        let k = match TrakAtom::read_header(parser) {
            Ok(k) => k,
            Err(e) => return Err(e),
        };
        proof {
            lemma_container_fits(data, o as nat);
        }
        let mut view = parser.get_view_at(o);
        let kids = container_children(&mut view, TRAK);
        view.close();
        let kids = match kids {
            Ok(kids) => kids,
            Err(e) => return Err(e),
        };
        proof {
            let c = children_at(data, o as nat, TRAK);
            lemma_children_headers(data, o as nat, TRAK, kids@);
            lemma_reverse_reverse(c);
            assert(kids@.map_values(|x: usize| x as nat).reverse() =~= c);
            reveal(pending_visits);
        }
        let mut traks = Vec::new();
        traks.push(k);
        let mut atoms = MovieAtoms { moov: None, mvhd: None, traks };
        proof {
            assert(atoms.traks@ =~= seq![k]);
        }
        let ghost t0 = atoms@;
        match atoms.walk(parser, kids) {
            Ok(()) => {},
            Err(e) => return Err(e),
        }
        proof {
            lemma_visit_all_keeps_traks(
                t0,
                data,
                children_at(data, o as nat, TRAK).map_values(|c: nat| subtree_visits(data, c)).flatten(),
            );
        }
        match atoms.traks.pop() {
            Some(t) => Ok(t),
            // Unreachable: the walk never removes the track it started from.
            None => Err(ParseError::RootNotFound),
        }
    }

    fn get_children(parser: &mut MParserView) -> (r: Result<Vec<usize>, ParseError>)
        ensures
            r is Ok <==> old(parser)@.cursor.position + 8 <= old(parser)@.cursor.data.len(),
            r is Ok ==> r->Ok_0@.map_values(|o: usize| o as nat) == children_at(
                old(parser)@.cursor.data,
                old(parser)@.cursor.position,
                TRAK,
            ).reverse(),
            final(parser)@.restore == old(parser)@.restore,
            final(parser)@.cursor.data == old(parser)@.cursor.data,
            *final(final(parser).parser) == *final(old(parser).parser),
    {
        container_children(parser, TRAK)
    }
}

/// Reads the root atom's header at the view's position and the offsets of
/// its children, last first.
fn read_root(parser: &mut MParserView) -> (r: Result<(MoovAtom, Vec<usize>), ParseError>)
    ensures
        match moov_at(old(parser)@.cursor.data, old(parser)@.cursor.position) {
            Ok(m) => r is Ok && r->Ok_0.0 == m && pending_visits(
                old(parser)@.cursor.data,
                r->Ok_0.1@.map_values(|o: usize| o as nat),
            ) == movie_visits(old(parser)@.cursor.data, old(parser)@.cursor.position),
            Err(e) => r == Err::<(MoovAtom, Vec<usize>), ParseError>(e),
        },
        r is Ok ==> forall|i: int| 0 <= i < r->Ok_0.1@.len() ==> #[trigger] header_at(old(parser)@.cursor.data, r->Ok_0.1@[i] as nat) is Ok,
        final(parser)@ == old(parser)@,
        *final(final(parser).parser) == *final(old(parser).parser),
{
    let ghost data = parser@.cursor.data;
    let root = parser.get_position();
    let mut view = parser.get_view_at(root);
    let moov = MoovAtom::parse(&mut view);
    view.set_position(root);
    let kids = MoovAtom::get_children(&mut view);
    view.close();
    let moov = match moov {
        Ok(m) => m,
        Err(e) => return Err(e),
    };
    proof {
        lemma_container_fits(data, root as nat);
    }
    let stack = match kids {
        Ok(k) => k,
        Err(e) => return Err(e),
    };
    proof {
        let c = children_at(data, root as nat, MOOV);
        lemma_reverse_reverse(c);
        lemma_scan_children_admitted(data, schema_children(MOOV), (root + 8) as nat);
        assert(stack@.map_values(|o: usize| o as nat).reverse() =~= c);
        assert forall|i: int| 0 <= i < stack@.len() implies #[trigger] header_at(data, stack@[i] as nat) is Ok by {
            assert(stack@[i] as nat == c[c.len() - 1 - i]);
        }
        reveal(pending_visits);
    }
    Ok((moov, stack))
}

impl MovieAtoms {
    pub fn new() -> (r: MovieAtoms)
        ensures
            r@ == (MovieTree { moov: None, mvhd: None, traks: seq![] }),
    {
        MovieAtoms { moov: None, mvhd: None, traks: Vec::new() }
    }

    /// Reads the movie tree whose root `moov` atom starts at the view's
    /// position. The root's header is read first; then a stack of offsets,
    /// seeded with the root's children, is popped one atom at a time: the atom
    /// is parsed into its place, and the children of a track or media atom are
    /// pushed so that they are visited next, in file order.
    pub fn parse(parser: &mut MParserView) -> (r: Result<MovieAtoms, ParseError>)
        ensures
            match movie_at(old(parser)@.cursor.data, old(parser)@.cursor.position) {
                Ok(t) => r is Ok && r->Ok_0@ == t,
                Err(e) => r == Err::<MovieAtoms, ParseError>(e),
            },
            final(parser)@ == old(parser)@,
            *final(final(parser).parser) == *final(old(parser).parser),
    {
        let (moov, stack) = match read_root(parser) {
            Ok(r) => r,
            Err(e) => return Err(e),
        };
        let mut atoms = MovieAtoms::new();
        atoms.moov = Some(moov);
        match atoms.walk(parser, stack) {
            Ok(()) => Ok(atoms),
            Err(e) => Err(e),
        }
    }

    /// Pops offsets from `stack` until it is empty, parsing each atom into
    /// its place and pushing the children of tracks and media atoms, so that
    /// every atom is visited before its children and children in file order.
    fn walk(&mut self, parser: &mut MParserView, pending: Vec<usize>) -> (r: Result<(), ParseError>)
        requires
            forall|i: int| 0 <= i < pending@.len() ==> #[trigger] header_at(old(parser)@.cursor.data, pending@[i] as nat) is Ok,
        ensures
            match visit_all(
                Ok(old(self)@),
                old(parser)@.cursor.data,
                pending_visits(old(parser)@.cursor.data, pending@.map_values(|o: usize| o as nat)),
            ) {
                Ok(t) => r is Ok && final(self)@ == t,
                Err(e) => r == Err::<(), ParseError>(e),
            },
            final(parser)@ == old(parser)@,
            *final(final(parser).parser) == *final(old(parser).parser),
    {
        let ghost start = parser@;
        let ghost data = start.cursor.data;
        let ghost goal = visit_all(
            Ok(self@),
            data,
            pending_visits(data, pending@.map_values(|o: usize| o as nat)),
        );
        let ghost self0 = self@;
        let ghost stack0 = pending@;
        let mut stack = pending;
        while stack.len() > 0
            invariant
                old(self)@ == self0,
                stack0 == pending@,
                goal == visit_all(
                    Ok(self0),
                    data,
                    pending_visits(data, stack0.map_values(|o: usize| o as nat)),
                ),
                parser@ == start,
                *final(parser.parser) == *final(old(parser).parser),
                old(parser)@ == start,
                data == start.cursor.data,
                forall|i: int| 0 <= i < stack@.len() ==> #[trigger] header_at(data, stack@[i] as nat) is Ok,
                goal == visit_all(
                    Ok(self@),
                    data,
                    pending_visits(data, stack@.map_values(|o: usize| o as nat)),
                ),
            decreases pending_visits(data, stack@.map_values(|o: usize| o as nat)).len(),
        {
            let ghost before = stack@.map_values(|o: usize| o as nat);
            let o = stack.pop().unwrap();
            let ghost rest = stack@.map_values(|o: usize| o as nat);
            proof {
                assert(before =~= rest.push(o as nat));
                assert(header_at(data, before[before.len() - 1]) is Ok);
            }
            let ghost t0 = self@;
            let ghost tag = tag_at(data, o as nat);
            let ghost pushed: Seq<nat> = if tag == TRAK || tag == MDIA {
                children_at(data, o as nat, tag).reverse()
            } else {
                seq![]
            };
            proof {
                lemma_pending_step(data, rest, o as nat, pushed);
                let p = pending_visits(data, rest + pushed);
                assert((seq![o as nat] + p).drop_first() =~= p);
                assert(goal == visit_all(visit(t0, data, o as nat), data, p));
            }
            let mut kids = match self.visit_next(parser, o) {
                Ok(k) => k,
                Err(e) => {
                    proof {
                        lemma_visit_all_err(e, data, pending_visits(data, rest + pushed));
                    }
                    return Err(e);
                },
            };
            stack.append(&mut kids);
            proof {
                assert(stack@.map_values(|o: usize| o as nat) =~= rest + pushed);
            }
        }
        proof {
            reveal(pending_visits);
            assert(stack@.map_values(|o: usize| o as nat).reverse().map_values(|o: nat| subtree_visits(data, o)) =~= Seq::<Seq<nat>>::empty());
        }
        Ok(())
    }

    /// Visits the atom at `o`: parses it into its place in the tree and
    /// returns the offsets of its children (last first) when it is a track or
    /// a media atom, none otherwise.
    fn visit_next(&mut self, parser: &mut MParserView, o: usize) -> (r: Result<Vec<usize>, ParseError>)
        requires
            header_at(old(parser)@.cursor.data, o as nat) is Ok,
        ensures
            match visit(old(self)@, old(parser)@.cursor.data, o as nat) {
                Ok(t) => r is Ok && final(self)@ == t && r->Ok_0@.map_values(|c: usize| c as nat) == (
                    if tag_at(old(parser)@.cursor.data, o as nat) == TRAK
                        || tag_at(old(parser)@.cursor.data, o as nat) == MDIA {
                        children_at(
                            old(parser)@.cursor.data,
                            o as nat,
                            tag_at(old(parser)@.cursor.data, o as nat),
                        ).reverse()
                    } else {
                        seq![]
                    }),
                Err(e) => r == Err::<Vec<usize>, ParseError>(e),
            },
            r is Ok ==> forall|i: int| 0 <= i < r->Ok_0@.len() ==> #[trigger] header_at(old(parser)@.cursor.data, r->Ok_0@[i] as nat) is Ok,
            final(parser)@ == old(parser)@,
            *final(final(parser).parser) == *final(old(parser).parser),
    {
        let ghost data = parser@.cursor.data;
        proof {
            reveal(header_at);
        }
        let mut view = parser.get_view_at(o);
        let header = atom_type_and_size(&mut view);
        view.close();
        let tag = match header {
            Ok((_, t)) => t,
            // Unreachable: the scan that found `o` read this same header.
            Err(_) => return Ok(Vec::new()),
        };
        match self.visit_at(parser, o, tag) {
            Ok(()) => {},
            Err(e) => return Err(e),
        }
        if tag == TRAK || tag == MDIA {
            let mut view = parser.get_view_at(o);
            let kids = if tag == TRAK {
                TrakAtom::get_children(&mut view)
            } else {
                MediaAtom::get_children(&mut view)
            };
            view.close();
            match kids {
                Ok(k) => {
                    proof {
                        lemma_children_headers(data, o as nat, tag, k@);
                    }
                    Ok(k)
                },
                Err(e) => Err(e),
            }
        } else {
            Ok(Vec::new())
        }
    }

    /// Parses the atom at `o`, whose type tag is `tag`, into its place in the tree.
    fn visit_at(&mut self, parser: &mut MParserView, o: usize, tag: u32) -> (r: Result<(), ParseError>)
        requires
            tag == tag_at(old(parser)@.cursor.data, o as nat),
        ensures
            match visit(old(self)@, old(parser)@.cursor.data, o as nat) {
                Ok(t) => r is Ok && final(self)@ == t,
                Err(e) => r == Err::<(), ParseError>(e),
            },
            final(parser)@ == old(parser)@,
            *final(final(parser).parser) == *final(old(parser).parser),
    {
        reveal(visit);
        let n = self.traks.len();
        let mut view = parser.get_view_at(o);
        let r = if tag == MVHD {
            match MovieHeaderAtom::parse(&mut view) {
                Ok(h) => {
                    self.mvhd = Some(h);
                    Ok(())
                },
                Err(e) => Err(e),
            }
        } else if tag == TRAK {
            match TrakAtom::read_header(&mut view) {
                Ok(k) => {
                    self.traks.push(k);
                    Ok(())
                },
                Err(e) => Err(e),
            }
        } else if tag == TKHD {
            match TrakHeaderAtom::parse(&mut view) {
                Ok(h) => {
                    if n > 0 {
                        let mut k = self.traks[n - 1];
                        k.tkhd = Some(h);
                        self.traks.set(n - 1, k);
                    }
                    Ok(())
                },
                Err(e) => Err(e),
            }
        } else if tag == MDIA {
            match MediaAtom::parse(&mut view) {
                Ok(m) => {
                    if n > 0 {
                        let mut k = self.traks[n - 1];
                        k.mdia = Some(m);
                        self.traks.set(n - 1, k);
                    }
                    Ok(())
                },
                Err(e) => Err(e),
            }
        } else if tag == MDHD {
            match MediaHeaderAtom::parse(&mut view) {
                Ok(h) => {
                    if n > 0 {
                        let mut k = self.traks[n - 1];
                        if let Some(mut m) = k.mdia {
                            m.mdhd = Some(h);
                            k.mdia = Some(m);
                            self.traks.set(n - 1, k);
                        }
                    }
                    Ok(())
                },
                Err(e) => Err(e),
            }
        } else if tag == HDLR {
            match HandlerReferenceAtom::parse(&mut view) {
                Ok(h) => {
                    if n > 0 {
                        let mut k = self.traks[n - 1];
                        if let Some(mut m) = k.mdia {
                            m.hdlr = Some(h);
                            k.mdia = Some(m);
                            self.traks.set(n - 1, k);
                        }
                    }
                    Ok(())
                },
                Err(e) => Err(e),
            }
        } else {
            Ok(())
        };
        view.close();
        r
    }
}

} // verus!
