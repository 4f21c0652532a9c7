//! Atom headers, the sibling scanner, and the records of each atom type with
//! their parsers.

use vstd::prelude::*;
use crate::parser::{
    be_value, read_result, tag_result, view_step, CursorOp, MParserView, ParseError, ParserAction,
    ParserState, ReadOp, TypeParserAction,
};
use crate::layout::{
    fields_result, layout_span, lemma_fields_concat, lemma_fields_count, lemma_fields_fit,
    lemma_span_concat, read_fields, value_count, Field,
};
use crate::schema::{child_tags, contains_tag, schema_children, MDIA, MOOV, TRAK};

verus! {

/// The result of reading an atom's 8-byte header (size, then type tag) at the cursor.
pub open spec fn header_result(s: ParserState) -> Result<(u32, u32), ParseError> {
    match read_result(s, ReadOp::U32) {
        Err(e) => Err(e),
        Ok(size) => match tag_result(s.at(s.position + 4int)) {
            Err(e) => Err(e),
            Ok(tag) => Ok((size as u32, tag)),
        },
    }
}

/// The header of the atom at `pos`.
#[verifier::opaque]
pub open spec fn header_at(data: Seq<u8>, pos: nat) -> Result<(u32, u32), ParseError> {
    header_result(ParserState { position: pos, data })
}

/// Reads the size and type tag that open every atom.
pub fn atom_type_and_size(parser: &mut MParserView) -> (r: Result<(u32, u32), ParseError>)
    ensures
        r == header_result(old(parser)@.cursor),
        final(parser)@ == view_step(
            view_step(old(parser)@, CursorOp::Read(ReadOp::U32)),
            CursorOp::Read(ReadOp::TypeTag),
        ),
        *final(final(parser).parser) == *final(old(parser).parser),
{
    let size = match parser.read_u32() {
        Ok(s) => s,
        Err(e) => return Err(e),
    };
    let typ = TypeParserAction::try_parse(parser)?;
    Ok((size, typ))
}

/// A readable header lies wholly inside the buffer.
pub proof fn lemma_header_fits(data: Seq<u8>, pos: nat)
    ensures
        header_at(data, pos) is Ok ==> pos + 8 <= data.len(),
{
    reveal(header_at);
}

/// The child offsets found by walking siblings from `pos`, in discovery order.
/// Each step reads a header; it stops where no 8-byte header fits, at the
/// first header that cannot be read
/// or whose tag is not in `allowed`. Otherwise it records the header's offset
/// and jumps by the declared size; a declared size of zero ends the walk, as
/// the next sibling would be the same atom again.
pub open spec fn scan_children(data: Seq<u8>, allowed: Seq<u32>, pos: nat) -> Seq<nat>
    decreases (if pos <= data.len() { data.len() - pos } else { 0 }),
{
    if pos + 8 > data.len() {
        seq![]
    } else {
        match header_at(data, pos) {
            Ok((size, tag)) => if !allowed.contains(tag) {
                seq![]
            } else if size == 0 {
                seq![pos]
            } else {
                seq![pos] + scan_children(data, allowed, pos + size as nat)
            },
            Err(_) => seq![],
        }
    }
}

/// Every offset the sibling walk returns holds a readable header whose tag
/// `allowed` admits, and each offset after the first is the one before it plus
/// that atom's declared size, which is not zero: no position is returned twice
/// and the offsets strictly increase from `pos`.
pub proof fn lemma_scan_children_admitted(data: Seq<u8>, allowed: Seq<u32>, pos: nat)
    ensures
        forall|i: int|
            0 <= i < scan_children(data, allowed, pos).len() ==> {
                &&& #[trigger] header_at(data, scan_children(data, allowed, pos)[i]) is Ok
                &&& allowed.contains(header_at(data, scan_children(data, allowed, pos)[i])->Ok_0.1)
                &&& scan_children(data, allowed, pos)[i] >= pos
            },
        forall|i: int|
            0 <= i < scan_children(data, allowed, pos).len() - 1 ==> {
                &&& #[trigger] header_at(data, scan_children(data, allowed, pos)[i])->Ok_0.0 > 0
                &&& scan_children(data, allowed, pos)[i + 1] == scan_children(data, allowed, pos)[i]
                    + header_at(data, scan_children(data, allowed, pos)[i])->Ok_0.0
            },
    decreases (if pos <= data.len() { data.len() - pos } else { 0 }),
{
    let r = scan_children(data, allowed, pos);
    if pos + 8 > data.len() {
    } else if let Ok((size, tag)) = header_at(data, pos) {
        if allowed.contains(tag) && size != 0 {
            let next = (pos + size) as nat;
            lemma_scan_children_admitted(data, allowed, next);
            let rest = scan_children(data, allowed, next);
            assert(r == seq![pos] + rest);
            assert forall|i: int| 0 <= i < r.len() - 1 implies {
                &&& #[trigger] header_at(data, r[i])->Ok_0.0 > 0
                &&& r[i + 1] == r[i] + header_at(data, r[i])->Ok_0.0
            } by {
                if i > 0 {
                    assert(r[i] == rest[i - 1]);
                    assert(r[i + 1] == rest[i]);
                }
            }
            assert forall|i: int| 0 <= i < r.len() implies {
                &&& #[trigger] header_at(data, r[i]) is Ok
                &&& allowed.contains(header_at(data, r[i])->Ok_0.1)
                &&& r[i] >= pos
            } by {
                if i > 0 {
                    assert(r[i] == rest[i - 1]);
                }
            }
        }
    }
}

/// `v` in reverse order.
fn reversed(v: &Vec<usize>) -> (r: Vec<usize>)
    ensures
        r@ == v@.reverse(),
{
    let mut r: Vec<usize> = Vec::new();
    let mut i: usize = v.len();
    while i > 0
        invariant
            i <= v@.len(),
            r@ =~= v@.subrange(i as int, v@.len() as int).reverse(),
        decreases i,
    {
        i = i - 1;
        r.push(v[i]);
    }
    assert(v@.subrange(0, v@.len() as int) =~= v@);
    r
}

/// Walks the siblings that start at the view's position and returns the
/// offsets of those whose tag `atoms` admits, last found first.
pub fn loop_and_get_children(parser: &mut MParserView, atoms: &[u32]) -> (r: Vec<usize>)
    ensures
        r@.map_values(|o: usize| o as nat) == scan_children(
            old(parser)@.cursor.data,
            atoms@,
            old(parser)@.cursor.position,
        ).reverse(),
        final(parser)@.restore == old(parser)@.restore,
        final(parser)@.cursor.data == old(parser)@.cursor.data,
        *final(final(parser).parser) == *final(old(parser).parser),
{
    reveal(header_at);
    let ghost data = old(parser)@.cursor.data;
    let ghost all = scan_children(data, atoms@, old(parser)@.cursor.position);
    let mut found: Vec<usize> = Vec::new();
    loop
        invariant_except_break
            found@.map_values(|o: usize| o as nat) + scan_children(data, atoms@, parser@.cursor.position) == all,
        invariant
            parser@.restore == old(parser)@.restore,
            parser@.cursor.data == data,
            *final(parser.parser) == *final(old(parser).parser),
        ensures
            found@.map_values(|o: usize| o as nat) == all,
            parser@.restore == old(parser)@.restore,
            parser@.cursor.data == data,
            *final(parser.parser) == *final(old(parser).parser),
        decreases (if parser@.cursor.position <= data.len() { data.len() - parser@.cursor.position } else { 0 }),
    {
        let start = parser.get_position();
        proof {
            lemma_header_fits(data, start as nat);
        }
        let ghost before = found@.map_values(|o: usize| o as nat);
        proof {
            reveal(header_at);
            assert(parser@.cursor == (ParserState { position: start as nat, data }));
        }
        let (size, tag) = match atom_type_and_size(parser) {
            Ok(h) => h,
            Err(_) => {
                assert(header_at(data, start as nat) is Err);
                assert(scan_children(data, atoms@, start as nat) =~= seq![]);
                assert(before + seq![] =~= before);
                break;
            },
        };
        if !contains_tag(atoms, tag) {
            assert(scan_children(data, atoms@, start as nat) =~= seq![]);
            assert(before + seq![] =~= before);
            break;
        }
        found.push(start);
        assert(found@.map_values(|o: usize| o as nat) =~= before + seq![start as nat]);
        if size == 0 {
            break;
        }
        match start.checked_add(size as usize) {
            Some(next) => {
                assert(before + (seq![start as nat] + scan_children(data, atoms@, next as nat))
                    =~= before + seq![start as nat] + scan_children(data, atoms@, next as nat));
                parser.set_position(next);
            },
            None => {
                let len = parser.get_size();
                assert(start + size > len);
                assert(scan_children(data, atoms@, (start + size) as nat) =~= seq![]);
                assert(before + seq![start as nat] + seq![] =~= before + seq![start as nat]);
                break;
            },
        }
    }
    let r = reversed(&found);
    proof {
        assert(r@.map_values(|o: usize| o as nat) =~= found@.map_values(|o: usize| o as nat).reverse());
    }
    r
}

/// The values of `layout` read at `pos`.
pub open spec fn fields_at(data: Seq<u8>, pos: nat, layout: Seq<Field>) -> Result<Seq<nat>, ParseError> {
    fields_result(ParserState { position: pos, data }, layout)
}

/// Reads a record per `layout` at the view's position and checks that it
/// yields `count` values.
fn read_record(parser: &mut MParserView, layout: &Vec<Field>, Ghost(count): Ghost<nat>) -> (r: Result<Vec<u32>, ParseError>)
    requires
        value_count(layout@) == count,
    ensures
        r is Ok <==> fields_at(old(parser)@.cursor.data, old(parser)@.cursor.position, layout@) is Ok,
        r is Ok ==> r->Ok_0@.map_values(|v: u32| v as nat) == fields_at(
            old(parser)@.cursor.data,
            old(parser)@.cursor.position,
            layout@,
        )->Ok_0,
        r is Ok ==> r->Ok_0@.len() == count,
        r is Ok ==> final(parser)@.cursor.position == old(parser)@.cursor.position + layout_span(layout@),
        r is Err ==> fields_at(old(parser)@.cursor.data, old(parser)@.cursor.position, layout@)
            == Err::<Seq<nat>, ParseError>(r->Err_0),
        final(parser)@.restore == old(parser)@.restore,
        final(parser)@.cursor.data == old(parser)@.cursor.data,
        *final(final(parser).parser) == *final(old(parser).parser),
{
    proof {
        lemma_fields_count(old(parser)@.cursor, layout@);
        assert(old(parser)@.cursor == (ParserState { position: old(parser)@.cursor.position, data: old(parser)@.cursor.data }));
    }
    read_fields(parser, layout.as_slice())
}

/// The parsing interface shared by the atom records: `parse` reads the record
/// from the view's position (the atom's size field), `get_children` returns
/// the offsets of the atom's admitted children, last first.
pub trait AtomParser<T> {
    fn parse(parser: &mut MParserView) -> Result<T, ParseError>;

    fn get_children(parser: &mut MParserView) -> Result<Vec<usize>, ParseError>;
}

/// The header of a container atom: size, then the type tag.
pub open spec fn container_layout() -> Seq<Field> {
    seq![Field::U32, Field::Skip(4)]
}

fn container_fields() -> (r: Vec<Field>)
    ensures
        r@ == container_layout(),
        layout_span(r@) == 8,
        value_count(r@) == 1,
{
    let r = vec![Field::U32, Field::Skip(4)];
    proof {
        reveal_with_fuel(value_count, 3);
        reveal_with_fuel(layout_span, 3);
    }
    r
}

/// The offsets of the children of the atom at `pos` of type `tag`, in discovery order.
pub open spec fn children_at(data: Seq<u8>, pos: nat, tag: u32) -> Seq<nat> {
    scan_children(data, schema_children(tag), pos + 8)
}

/// Skips the 8-byte header of the atom at the view's position and returns the
/// offsets of its children that `tag`'s schema entry admits, last found first.
pub(crate) fn container_children(parser: &mut MParserView, tag: u32) -> (r: Result<Vec<usize>, ParseError>)
    ensures
        r is Ok <==> old(parser)@.cursor.position + 8 <= old(parser)@.cursor.data.len(),
        r is Ok ==> r->Ok_0@.map_values(|o: usize| o as nat) == children_at(
            old(parser)@.cursor.data,
            old(parser)@.cursor.position,
            tag,
        ).reverse(),
        r is Err ==> r == Err::<Vec<usize>, ParseError>(
            ParseError::InvalidPosition {
                from: old(parser)@.cursor.position as usize,
                delta: 8,
                size: old(parser)@.cursor.data.len() as usize,
            },
        ),
        final(parser)@.restore == old(parser)@.restore,
        final(parser)@.cursor.data == old(parser)@.cursor.data,
        *final(final(parser).parser) == *final(old(parser).parser),
{
    match parser.move_cursor(8) {
        Ok(()) => {},
        Err(e) => return Err(e),
    }
    let allowed = child_tags(tag);
    Ok(loop_and_get_children(parser, allowed.as_slice()))
}

/// A container header that can be read lies wholly inside the buffer.
pub proof fn lemma_container_fits(data: Seq<u8>, pos: nat)
    ensures
        fields_at(data, pos, container_layout()) is Ok ==> pos + 8 <= data.len(),
{
    reveal_with_fuel(fields_result, 3);
    let s = ParserState { position: pos, data };
    let l = container_layout();
    assert(l.drop_first() =~= seq![Field::Skip(4)]);
    assert(l.drop_first().drop_first() =~= Seq::<Field>::empty());
}

/// The root container of the movie's structure.
#[derive(Clone, Copy, Debug, PartialEq, Eq, Structural)]
pub struct MoovAtom {
    pub location: usize,
    pub size: u32,
}

impl MoovAtom {
    pub fn new(location: usize, size: u32) -> (r: MoovAtom)
        ensures
            r == (MoovAtom { location, size }),
    {
        MoovAtom { location, size }
    }

    /// The offset just past the atom's declared extent, when it fits in a `usize`.
    pub fn end(&self) -> (r: Option<usize>)
        ensures
            self.location + self.size <= usize::MAX ==> r == Some((self.location + self.size) as usize),
            self.location + self.size > usize::MAX ==> r is None,
    {
        self.location.checked_add(self.size as usize)
    }
}

/// The `moov` record at `pos`.
pub open spec fn moov_at(data: Seq<u8>, pos: nat) -> Result<MoovAtom, ParseError> {
    match fields_at(data, pos, container_layout()) {
        Ok(v) => Ok(MoovAtom { location: pos as usize, size: v[0] as u32 }),
        Err(e) => Err(e),
    }
}

impl AtomParser<MoovAtom> for MoovAtom {
    fn parse(parser: &mut MParserView) -> (r: Result<MoovAtom, ParseError>)
        ensures
            r == moov_at(old(parser)@.cursor.data, old(parser)@.cursor.position),
            r is Ok ==> final(parser)@.cursor.position == old(parser)@.cursor.position + 8,
            final(parser)@.restore == old(parser)@.restore,
            final(parser)@.cursor.data == old(parser)@.cursor.data,
            *final(final(parser).parser) == *final(old(parser).parser),
    {
        let location = parser.get_position();
        let layout = container_fields();
        let v = match read_record(parser, &layout, Ghost(1)) {
            Ok(v) => v,
            Err(e) => return Err(e),
        };
        Ok(MoovAtom::new(location, v[0]))
    }

    fn get_children(parser: &mut MParserView) -> (r: Result<Vec<usize>, ParseError>)
        ensures
            r is Ok <==> old(parser)@.cursor.position + 8 <= old(parser)@.cursor.data.len(),
            r is Ok ==> r->Ok_0@.map_values(|o: usize| o as nat) == children_at(
                old(parser)@.cursor.data,
                old(parser)@.cursor.position,
                MOOV,
            ).reverse(),
            final(parser)@.restore == old(parser)@.restore,
            final(parser)@.cursor.data == old(parser)@.cursor.data,
            *final(final(parser).parser) == *final(old(parser).parser),
    {
        container_children(parser, MOOV)
    }
}

/// The movie header: time scale, duration and playback defaults.
#[derive(Clone, Copy, Debug, PartialEq, Eq, Structural)]
pub struct MovieHeaderAtom {
    pub location: usize,
    pub size: u32,
    pub version: u8,
    pub flags: u32,
    pub creation_time: u32,
    pub modification_time: u32,
    pub time_scale: u32,
    pub duration: u32,
    /// Preferred playback rate, 16.16 fixed point as stored.
    pub rate: u32,
    /// Preferred volume, 8.8 fixed point as stored.
    pub volume: u16,
    pub preview_time: u32,
    pub preview_duration: u32,
    pub poster_time: u32,
    pub selection_time: u32,
    pub selection_duration: u32,
    pub current_time: u32,
    pub next_track_id: u32,
}

/// The layout of a `mvhd` atom: size; type tag; reserved; version; flags; creation and modification
/// time; time scale; duration; rate; volume; the 3x3 matrix (skipped);
/// preview time and duration; poster time; selection time and duration;
/// current time; next track id.
pub open spec fn mvhd_layout() -> Seq<Field> {
    seq![Field::U32, Field::Skip(4), Field::Skip(4), Field::U8, Field::Flags, Field::U32, Field::U32, Field::U32, Field::U32, Field::U32, Field::U16, Field::Skip(36), Field::U32, Field::U32, Field::U32, Field::U32, Field::U32, Field::U32, Field::U32]
}

fn mvhd_fields() -> (r: Vec<Field>)
    ensures
        r@ == mvhd_layout(),
        layout_span(r@) == 102,
        value_count(r@) == 16,
{
    let r = vec![Field::U32, Field::Skip(4), Field::Skip(4), Field::U8, Field::Flags, Field::U32, Field::U32, Field::U32, Field::U32, Field::U32, Field::U16, Field::Skip(36), Field::U32, Field::U32, Field::U32, Field::U32, Field::U32, Field::U32, Field::U32];
    proof {
        reveal_with_fuel(value_count, 20);
        reveal_with_fuel(layout_span, 20);
    }
    r
}

/// The `mvhd` record at `pos`.
pub open spec fn mvhd_at(data: Seq<u8>, pos: nat) -> Result<MovieHeaderAtom, ParseError> {
    match fields_at(data, pos, mvhd_layout()) {
        Ok(v) => Ok(MovieHeaderAtom {
            location: pos as usize,
            size: v[0] as u32,
            version: v[1] as u8,
            flags: v[2] as u32,
            creation_time: v[3] as u32,
            modification_time: v[4] as u32,
            time_scale: v[5] as u32,
            duration: v[6] as u32,
            rate: v[7] as u32,
            volume: v[8] as u16,
            preview_time: v[9] as u32,
            preview_duration: v[10] as u32,
            poster_time: v[11] as u32,
            selection_time: v[12] as u32,
            selection_duration: v[13] as u32,
            current_time: v[14] as u32,
            next_track_id: v[15] as u32,
        }),
        Err(e) => Err(e),
    }
}

/// The movie header layout up to and including the version byte.
spec fn mvhd_head() -> Seq<Field> {
    seq![Field::U32, Field::Skip(4), Field::Skip(4), Field::U8]
}

/// The movie header layout after the version byte.
spec fn mvhd_rest() -> Seq<Field> {
    seq![
        Field::Flags, Field::U32, Field::U32, Field::U32, Field::U32, Field::U32, Field::U16,
        Field::Skip(36), Field::U32, Field::U32, Field::U32, Field::U32, Field::U32, Field::U32,
        Field::U32,
    ]
}

proof fn lemma_mvhd_spans()
    ensures
        mvhd_layout() =~= mvhd_head() + mvhd_rest(),
        layout_span(mvhd_layout()) == 102,
        layout_span(mvhd_head()) == 13,
{
    reveal_with_fuel(layout_span, 20);
}

proof fn lemma_mvhd_head(data: Seq<u8>, pos: nat)
    requires
        pos + 13 <= data.len(),
    ensures
        fields_at(data, pos, mvhd_head()) == Ok::<Seq<nat>, ParseError>(
            seq![be_value(data, pos as int, 4), data[pos + 12int] as nat],
        ),
{
    reveal_with_fuel(fields_result, 5);
    let h = mvhd_head();
    assert(h.drop_first() =~= seq![Field::Skip(4), Field::Skip(4), Field::U8]);
    assert(h.drop_first().drop_first() =~= seq![Field::Skip(4), Field::U8]);
    assert(h.drop_first().drop_first().drop_first() =~= seq![Field::U8]);
    assert(seq![Field::U8].drop_first() =~= Seq::<Field>::empty());
    assert(seq![data[pos + 12int] as nat] + seq![] =~= seq![data[pos + 12int] as nat]);
    assert(seq![be_value(data, pos as int, 4)] + seq![data[pos + 12int] as nat]
        =~= seq![be_value(data, pos as int, 4), data[pos + 12int] as nat]);
}

/// Whenever a whole movie header lies in the buffer it parses: its location is
/// the atom's own offset, its size the big-endian word there, and its version
/// the byte 12 bytes in, after the size, the type tag and 4 reserved bytes.
pub proof fn lemma_mvhd_header(data: Seq<u8>, pos: nat)
    requires
        pos + 102 <= data.len(),
    ensures
        mvhd_at(data, pos) is Ok,
        mvhd_at(data, pos)->Ok_0.location == pos as usize,
        mvhd_at(data, pos)->Ok_0.size == be_value(data, pos as int, 4) as u32,
        mvhd_at(data, pos)->Ok_0.version == data[pos + 12int],
{
    let s = ParserState { position: pos, data };
    lemma_mvhd_spans();
    lemma_span_concat(mvhd_head(), mvhd_rest());
    lemma_mvhd_head(data, pos);
    let s13 = s.at(pos + 13int);
    lemma_fields_fit(s13, mvhd_rest());
    lemma_fields_concat(s, mvhd_head(), mvhd_rest());
    let vs = fields_result(s, mvhd_head() + mvhd_rest())->Ok_0;
    assert(vs[0] == be_value(data, pos as int, 4));
    assert(vs[1] == data[pos + 12int] as nat);
}

impl AtomParser<MovieHeaderAtom> for MovieHeaderAtom {
    fn parse(parser: &mut MParserView) -> (r: Result<MovieHeaderAtom, ParseError>)
        ensures
            r == mvhd_at(old(parser)@.cursor.data, old(parser)@.cursor.position),
            r is Ok ==> final(parser)@.cursor.position == old(parser)@.cursor.position + 102,
            final(parser)@.restore == old(parser)@.restore,
            final(parser)@.cursor.data == old(parser)@.cursor.data,
            *final(final(parser).parser) == *final(old(parser).parser),
    {
        let location = parser.get_position();
        let layout = mvhd_fields();
        let v = match read_record(parser, &layout, Ghost(16nat)) {
            Ok(v) => v,
            Err(e) => return Err(e),
        };
        Ok(MovieHeaderAtom {
            location,
            size: v[0],
            version: v[1] as u8,
            flags: v[2],
            creation_time: v[3],
            modification_time: v[4],
            time_scale: v[5],
            duration: v[6],
            rate: v[7],
            volume: v[8] as u16,
            preview_time: v[9],
            preview_duration: v[10],
            poster_time: v[11],
            selection_time: v[12],
            selection_duration: v[13],
            current_time: v[14],
            next_track_id: v[15],
        })
    }

    fn get_children(parser: &mut MParserView) -> (r: Result<Vec<usize>, ParseError>)
        ensures
            r == Ok::<Vec<usize>, ParseError>(r->Ok_0),
            r->Ok_0@.len() == 0,
    {
        Ok(Vec::new())
    }
}

/// The track header: identity, timing and presentation of one track.
#[derive(Clone, Copy, Debug, PartialEq, Eq, Structural)]
pub struct TrakHeaderAtom {
    pub location: usize,
    pub size: u32,
    pub version: u8,
    pub flags: u32,
    pub creation_time: u32,
    pub modification_time: u32,
    pub track_id: u32,
    pub duration: u32,
    pub layer: u16,
    pub alternate_group: u16,
    /// Volume, 8.8 fixed point as stored.
    pub volume: u16,
    /// Width, 16.16 fixed point as stored.
    pub track_width: u32,
    /// Height, 16.16 fixed point as stored.
    pub track_height: u32,
}

/// The layout of a `tkhd` atom: size; type tag; reserved; version; flags; creation and modification
/// time; track id; reserved; duration; reserved; layer; alternate group;
/// volume; reserved; the 3x3 matrix (skipped); width; height.
pub open spec fn tkhd_layout() -> Seq<Field> {
    seq![Field::U32, Field::Skip(4), Field::Skip(4), Field::U8, Field::Flags, Field::U32, Field::U32, Field::U32, Field::Skip(4), Field::U32, Field::Skip(8), Field::U16, Field::U16, Field::U16, Field::Skip(2), Field::Skip(36), Field::U32, Field::U32]
}

fn tkhd_fields() -> (r: Vec<Field>)
    ensures
        r@ == tkhd_layout(),
        layout_span(r@) == 96,
        value_count(r@) == 12,
{
    let r = vec![Field::U32, Field::Skip(4), Field::Skip(4), Field::U8, Field::Flags, Field::U32, Field::U32, Field::U32, Field::Skip(4), Field::U32, Field::Skip(8), Field::U16, Field::U16, Field::U16, Field::Skip(2), Field::Skip(36), Field::U32, Field::U32];
    proof {
        reveal_with_fuel(value_count, 19);
        reveal_with_fuel(layout_span, 19);
    }
    r
}

/// The `tkhd` record at `pos`.
pub open spec fn tkhd_at(data: Seq<u8>, pos: nat) -> Result<TrakHeaderAtom, ParseError> {
    match fields_at(data, pos, tkhd_layout()) {
        Ok(v) => Ok(TrakHeaderAtom {
            location: pos as usize,
            size: v[0] as u32,
            version: v[1] as u8,
            flags: v[2] as u32,
            creation_time: v[3] as u32,
            modification_time: v[4] as u32,
            track_id: v[5] as u32,
            duration: v[6] as u32,
            layer: v[7] as u16,
            alternate_group: v[8] as u16,
            volume: v[9] as u16,
            track_width: v[10] as u32,
            track_height: v[11] as u32,
        }),
        Err(e) => Err(e),
    }
}

impl AtomParser<TrakHeaderAtom> for TrakHeaderAtom {
    fn parse(parser: &mut MParserView) -> (r: Result<TrakHeaderAtom, ParseError>)
        ensures
            r == tkhd_at(old(parser)@.cursor.data, old(parser)@.cursor.position),
            r is Ok ==> final(parser)@.cursor.position == old(parser)@.cursor.position + 96,
            final(parser)@.restore == old(parser)@.restore,
            final(parser)@.cursor.data == old(parser)@.cursor.data,
            *final(final(parser).parser) == *final(old(parser).parser),
    {
        let location = parser.get_position();
        let layout = tkhd_fields();
        let v = match read_record(parser, &layout, Ghost(12nat)) {
            Ok(v) => v,
            Err(e) => return Err(e),
        };
        Ok(TrakHeaderAtom {
            location,
            size: v[0],
            version: v[1] as u8,
            flags: v[2],
            creation_time: v[3],
            modification_time: v[4],
            track_id: v[5],
            duration: v[6],
            layer: v[7] as u16,
            alternate_group: v[8] as u16,
            volume: v[9] as u16,
            track_width: v[10],
            track_height: v[11],
        })
    }

    fn get_children(parser: &mut MParserView) -> (r: Result<Vec<usize>, ParseError>)
        ensures
            r == Ok::<Vec<usize>, ParseError>(r->Ok_0),
            r->Ok_0@.len() == 0,
    {
        Ok(Vec::new())
    }
}

/// The media header of a track.
#[derive(Clone, Copy, Debug, PartialEq, Eq, Structural)]
pub struct MediaHeaderAtom {
    pub location: usize,
    pub size: u32,
    pub version: u8,
    pub flags: u32,
    pub creation_time: u32,
    pub modification_time: u32,
    pub time_scale: u32,
    pub duration: u32,
    pub language: u16,
    pub quality: u16,
}

/// The layout of a `mdhd` atom: size; type tag; reserved; version; flags; creation and modification
/// time; time scale; duration; language; quality.
pub open spec fn mdhd_layout() -> Seq<Field> {
    seq![Field::U32, Field::Skip(4), Field::Skip(4), Field::U8, Field::Flags, Field::U32, Field::U32, Field::U32, Field::U32, Field::U16, Field::U16]
}

fn mdhd_fields() -> (r: Vec<Field>)
    ensures
        r@ == mdhd_layout(),
        layout_span(r@) == 36,
        value_count(r@) == 9,
{
    let r = vec![Field::U32, Field::Skip(4), Field::Skip(4), Field::U8, Field::Flags, Field::U32, Field::U32, Field::U32, Field::U32, Field::U16, Field::U16];
    proof {
        reveal_with_fuel(value_count, 12);
        reveal_with_fuel(layout_span, 12);
    }
    r
}

/// The `mdhd` record at `pos`.
pub open spec fn mdhd_at(data: Seq<u8>, pos: nat) -> Result<MediaHeaderAtom, ParseError> {
    match fields_at(data, pos, mdhd_layout()) {
        Ok(v) => Ok(MediaHeaderAtom {
            location: pos as usize,
            size: v[0] as u32,
            version: v[1] as u8,
            flags: v[2] as u32,
            creation_time: v[3] as u32,
            modification_time: v[4] as u32,
            time_scale: v[5] as u32,
            duration: v[6] as u32,
            language: v[7] as u16,
            quality: v[8] as u16,
        }),
        Err(e) => Err(e),
    }
}

impl AtomParser<MediaHeaderAtom> for MediaHeaderAtom {
    fn parse(parser: &mut MParserView) -> (r: Result<MediaHeaderAtom, ParseError>)
        ensures
            r == mdhd_at(old(parser)@.cursor.data, old(parser)@.cursor.position),
            r is Ok ==> final(parser)@.cursor.position == old(parser)@.cursor.position + 36,
            final(parser)@.restore == old(parser)@.restore,
            final(parser)@.cursor.data == old(parser)@.cursor.data,
            *final(final(parser).parser) == *final(old(parser).parser),
    {
        let location = parser.get_position();
        let layout = mdhd_fields();
        let v = match read_record(parser, &layout, Ghost(9nat)) {
            Ok(v) => v,
            Err(e) => return Err(e),
        };
        Ok(MediaHeaderAtom {
            location,
            size: v[0],
            version: v[1] as u8,
            flags: v[2],
            creation_time: v[3],
            modification_time: v[4],
            time_scale: v[5],
            duration: v[6],
            language: v[7] as u16,
            quality: v[8] as u16,
        })
    }

    fn get_children(parser: &mut MParserView) -> (r: Result<Vec<usize>, ParseError>)
        ensures
            r == Ok::<Vec<usize>, ParseError>(r->Ok_0),
            r->Ok_0@.len() == 0,
    {
        Ok(Vec::new())
    }
}

/// The handler reference of a track's media.
#[derive(Clone, Copy, Debug, PartialEq, Eq, Structural)]
pub struct HandlerReferenceAtom {
    pub location: usize,
    pub size: u32,
    pub version: u8,
    pub flags: u32,
    pub component_type: u32,
    pub component_subtype: u32,
}

/// The layout of a `hdlr` atom: size; type tag; version; flags; component type; component subtype.
pub open spec fn hdlr_layout() -> Seq<Field> {
    seq![Field::U32, Field::Skip(4), Field::U8, Field::Flags, Field::U32, Field::U32]
}

fn hdlr_fields() -> (r: Vec<Field>)
    ensures
        r@ == hdlr_layout(),
        layout_span(r@) == 20,
        value_count(r@) == 5,
{
    let r = vec![Field::U32, Field::Skip(4), Field::U8, Field::Flags, Field::U32, Field::U32];
    proof {
        reveal_with_fuel(value_count, 7);
        reveal_with_fuel(layout_span, 7);
    }
    r
}

/// The `hdlr` record at `pos`.
pub open spec fn hdlr_at(data: Seq<u8>, pos: nat) -> Result<HandlerReferenceAtom, ParseError> {
    match fields_at(data, pos, hdlr_layout()) {
        Ok(v) => Ok(HandlerReferenceAtom {
            location: pos as usize,
            size: v[0] as u32,
            version: v[1] as u8,
            flags: v[2] as u32,
            component_type: v[3] as u32,
            component_subtype: v[4] as u32,
        }),
        Err(e) => Err(e),
    }
}

impl AtomParser<HandlerReferenceAtom> for HandlerReferenceAtom {
    fn parse(parser: &mut MParserView) -> (r: Result<HandlerReferenceAtom, ParseError>)
        ensures
            r == hdlr_at(old(parser)@.cursor.data, old(parser)@.cursor.position),
            r is Ok ==> final(parser)@.cursor.position == old(parser)@.cursor.position + 20,
            final(parser)@.restore == old(parser)@.restore,
            final(parser)@.cursor.data == old(parser)@.cursor.data,
            *final(final(parser).parser) == *final(old(parser).parser),
    {
        let location = parser.get_position();
        let layout = hdlr_fields();
        let v = match read_record(parser, &layout, Ghost(5nat)) {
            Ok(v) => v,
            Err(e) => return Err(e),
        };
        Ok(HandlerReferenceAtom {
            location,
            size: v[0],
            version: v[1] as u8,
            flags: v[2],
            component_type: v[3],
            component_subtype: v[4],
        })
    }

    fn get_children(parser: &mut MParserView) -> (r: Result<Vec<usize>, ParseError>)
        ensures
            r == Ok::<Vec<usize>, ParseError>(r->Ok_0),
            r->Ok_0@.len() == 0,
    {
        Ok(Vec::new())
    }
}


/// A media container: its header and the records found among its children.
#[derive(Clone, Copy, Debug, PartialEq, Eq, Structural)]
pub struct MediaAtom {
    pub location: usize,
    pub size: u32,
    pub mdhd: Option<MediaHeaderAtom>,
    pub hdlr: Option<HandlerReferenceAtom>,
}

impl MediaAtom {
    pub fn new(location: usize, size: u32) -> (r: MediaAtom)
        ensures
            r == (MediaAtom { location, size, mdhd: None, hdlr: None }),
    {
        MediaAtom { location, size, mdhd: None, hdlr: None }
    }
}

/// The `mdia` record at `pos`, before its children are visited.
pub open spec fn mdia_at(data: Seq<u8>, pos: nat) -> Result<MediaAtom, ParseError> {
    match fields_at(data, pos, container_layout()) {
        Ok(v) => Ok(MediaAtom { location: pos as usize, size: v[0] as u32, mdhd: None, hdlr: None }),
        Err(e) => Err(e),
    }
}

impl AtomParser<MediaAtom> for MediaAtom {
    fn parse(parser: &mut MParserView) -> (r: Result<MediaAtom, ParseError>)
        ensures
            r == mdia_at(old(parser)@.cursor.data, old(parser)@.cursor.position),
            r is Ok ==> final(parser)@.cursor.position == old(parser)@.cursor.position + 8,
            final(parser)@.restore == old(parser)@.restore,
            final(parser)@.cursor.data == old(parser)@.cursor.data,
            *final(final(parser).parser) == *final(old(parser).parser),
    {
        let location = parser.get_position();
        let layout = container_fields();
        let v = match read_record(parser, &layout, Ghost(1)) {
            Ok(v) => v,
            Err(e) => return Err(e),
        };
        Ok(MediaAtom::new(location, v[0]))
    }

    fn get_children(parser: &mut MParserView) -> (r: Result<Vec<usize>, ParseError>)
        ensures
            r is Ok <==> old(parser)@.cursor.position + 8 <= old(parser)@.cursor.data.len(),
            r is Ok ==> r->Ok_0@.map_values(|o: usize| o as nat) == children_at(
                old(parser)@.cursor.data,
                old(parser)@.cursor.position,
                MDIA,
            ).reverse(),
            final(parser)@.restore == old(parser)@.restore,
            final(parser)@.cursor.data == old(parser)@.cursor.data,
            *final(final(parser).parser) == *final(old(parser).parser),
    {
        container_children(parser, MDIA)
    }
}

/// A track: its header and the records found among its children.
#[derive(Clone, Copy, Debug, PartialEq, Eq, Structural)]
pub struct TrakAtom {
    pub location: usize,
    pub size: u32,
    pub tkhd: Option<TrakHeaderAtom>,
    pub mdia: Option<MediaAtom>,
}

impl TrakAtom {
    pub fn new(location: usize, size: u32) -> (r: TrakAtom)
        ensures
            r == (TrakAtom { location, size, tkhd: None, mdia: None }),
    {
        TrakAtom { location, size, tkhd: None, mdia: None }
    }
}

/// The `trak` record at `pos`, before its children are visited.
pub open spec fn trak_at(data: Seq<u8>, pos: nat) -> Result<TrakAtom, ParseError> {
    match fields_at(data, pos, container_layout()) {
        Ok(v) => Ok(TrakAtom { location: pos as usize, size: v[0] as u32, tkhd: None, mdia: None }),
        Err(e) => Err(e),
    }
}

impl TrakAtom {
    /// Reads the track's own header (size and tag), leaving its children unread.
    pub fn read_header(parser: &mut MParserView) -> (r: Result<TrakAtom, ParseError>)
        ensures
            r == trak_at(old(parser)@.cursor.data, old(parser)@.cursor.position),
            r is Ok ==> final(parser)@.cursor.position == old(parser)@.cursor.position + 8,
            final(parser)@.restore == old(parser)@.restore,
            final(parser)@.cursor.data == old(parser)@.cursor.data,
            *final(final(parser).parser) == *final(old(parser).parser),
    {
        let location = parser.get_position();
        let layout = container_fields();
        let v = match read_record(parser, &layout, Ghost(1)) {
            Ok(v) => v,
            Err(e) => return Err(e),
        };
        Ok(TrakAtom::new(location, v[0]))
    }
}

} // verus!
