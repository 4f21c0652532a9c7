//! A bounds-checked big-endian byte cursor and scoped views over it.

use vstd::prelude::*;
use vstd::utf8::valid_utf8;

verus! {

/// The primitive reads of the cursor, by width.
#[derive(Clone, Copy, Debug, PartialEq, Eq, Structural)]
pub enum ReadOp {
    U8,
    U16,
    Flags,
    U32,
    TypeTag,
}

impl ReadOp {
    pub open spec fn spec_width(self) -> nat {
        match self {
            ReadOp::U8 => 1,
            ReadOp::U16 => 2,
            ReadOp::Flags => 3,
            ReadOp::U32 => 4,
            ReadOp::TypeTag => 4,
        }
    }

    /// Number of bytes the read consumes.
    pub fn width(self) -> (r: usize)
        ensures
            r == self.spec_width(),
    {
        match self {
            ReadOp::U8 => 1,
            ReadOp::U16 => 2,
            ReadOp::Flags => 3,
            ReadOp::U32 => 4,
            ReadOp::TypeTag => 4,
        }
    }

    /// Name of the operation, as it appears in diagnostics.
    pub fn name(self) -> (r: &'static str)
        ensures
            self == ReadOp::U8 ==> r@ == "read_u8"@,
            self == ReadOp::U16 ==> r@ == "read_u16"@,
            self == ReadOp::Flags ==> r@ == "read_flags"@,
            self == ReadOp::U32 ==> r@ == "read_u32"@,
            self == ReadOp::TypeTag ==> r@ == "read_type_tag"@,
    {
        match self {
            ReadOp::U8 => "read_u8",
            ReadOp::U16 => "read_u16",
            ReadOp::Flags => "read_flags",
            ReadOp::U32 => "read_u32",
            ReadOp::TypeTag => "read_type_tag",
        }
    }
}

/// Everything that can go wrong while reading atoms.
#[derive(Clone, Copy, Debug, PartialEq, Eq, Structural)]
pub enum ParseError {
    /// A read needed more bytes than were left after the cursor.
    OutOfBounds { op: ReadOp, need: usize, have: usize },
    /// A relative move would leave the buffer.
    InvalidPosition { from: usize, delta: isize, size: usize },
    /// The four bytes of a type tag are not UTF-8.
    InvalidTag,
    /// The buffer holds no root `moov` atom.
    RootNotFound,
}

/// The abstract state of a cursor: the buffer and an absolute position.
/// The position may lie past the end of the buffer; reads there fail.
pub ghost struct ParserState {
    pub position: nat,
    pub data: Seq<u8>,
}

impl ParserState {
    pub open spec fn remaining(self) -> nat {
        if self.position <= self.data.len() {
            (self.data.len() - self.position) as nat
        } else {
            0
        }
    }

    pub open spec fn at(self, position: int) -> ParserState {
        ParserState { position: position as nat, data: self.data }
    }
}

/// Big-endian value of the `width` bytes of `data` starting at `pos`.
pub open spec fn be_value(data: Seq<u8>, pos: int, width: nat) -> nat {
    if width == 1 {
        data[pos] as nat
    } else if width == 2 {
        data[pos] as nat * 0x100 + data[pos + 1] as nat
    } else if width == 3 {
        data[pos] as nat * 0x1_0000 + data[pos + 1] as nat * 0x100 + data[pos + 2] as nat
    } else {
        data[pos] as nat * 0x100_0000 + data[pos + 1] as nat * 0x1_0000 + data[pos + 2] as nat
            * 0x100 + data[pos + 3] as nat
    }
}

/// An operation that may move a cursor.
pub ghost enum CursorOp {
    Read(ReadOp),
    Move(int),
    Jump(nat),
}

/// Whether a read of `op` at the cursor succeeds.
pub open spec fn read_ok(s: ParserState, op: ReadOp) -> bool {
    &&& s.remaining() >= op.spec_width()
    &&& op == ReadOp::TypeTag ==> valid_utf8(
        s.data.subrange(s.position as int, s.position + 4int),
    )
}

/// The error of a read that finds too few bytes.
pub open spec fn short_read(s: ParserState, op: ReadOp) -> ParseError {
    ParseError::OutOfBounds { op, need: op.spec_width() as usize, have: s.remaining() as usize }
}

/// Whether moving the cursor by `delta` keeps it within `0..=len`.
pub open spec fn move_ok(s: ParserState, delta: int) -> bool {
    0 <= s.position + delta <= s.data.len()
}

/// How each operation changes the cursor: a read that succeeds advances past
/// what it read, a move within bounds is taken, and a failed operation leaves
/// the cursor where it was.
pub open spec fn cursor_step(s: ParserState, op: CursorOp) -> ParserState {
    match op {
        CursorOp::Read(r) => if read_ok(s, r) {
            s.at(s.position + r.spec_width() as int)
        } else {
            s
        },
        CursorOp::Move(delta) => if move_ok(s, delta) {
            s.at(s.position + delta)
        } else {
            s
        },
        CursorOp::Jump(p) => s.at(p as int),
    }
}

/// The result of a numeric read of `op` at the cursor.
pub open spec fn read_result(s: ParserState, op: ReadOp) -> Result<nat, ParseError> {
    if s.remaining() >= op.spec_width() {
        Ok(be_value(s.data, s.position as int, op.spec_width()))
    } else {
        Err(short_read(s, op))
    }
}

/// The owner of a byte buffer and of the one read position over it.
pub struct MParser {
    position: usize,
    data: Vec<u8>,
}

impl View for MParser {
    type V = ParserState;

    closed spec fn view(&self) -> ParserState {
        ParserState { position: self.position as nat, data: self.data@ }
    }
}

impl MParser {
    /// A cursor at the start of `data`.
    pub fn new(data: Vec<u8>) -> (r: MParser)
        ensures
            r@ == (ParserState { position: 0, data: data@ }),
    {
        MParser { position: 0, data }
    }

    pub fn get_position(&self) -> (r: usize)
        ensures
            r == self@.position,
    {
        self.position
    }

    pub fn set_position(&mut self, new_position: usize)
        ensures
            final(self)@ == cursor_step(old(self)@, CursorOp::Jump(new_position as nat)),
    {
        self.position = new_position;
    }

    pub fn get_size(&self) -> (r: usize)
        ensures
            r == self@.data.len(),
    {
        self.data.len()
    }

    /// The whole buffer.
    pub fn data(&self) -> (r: &Vec<u8>)
        ensures
            r@ == self@.data,
    {
        &self.data
    }

    pub fn get_remaining_bytes(&self) -> (r: usize)
        ensures
            r == self@.remaining(),
    {
        if self.position <= self.data.len() {
            self.data.len() - self.position
        } else {
            0
        }
    }

    /// The byte `offset` places after the cursor.
    pub fn get_byte(&self, offset: usize) -> (r: u8)
        requires
            self@.position + offset < self@.data.len(),
        ensures
            r == self@.data[self@.position + offset],
    {
        let len = self.data.len();
        proof {
            assert(self.position + offset < len);
        }
        self.data[self.position + offset]
    }

    /// Moves the cursor by `delta` bytes, failing when it would leave `0..=len`.
    pub fn move_cursor(&mut self, delta: isize) -> (r: Result<(), ParseError>)
        ensures
            final(self)@ == cursor_step(old(self)@, CursorOp::Move(delta as int)),
            r is Ok <==> move_ok(old(self)@, delta as int),
            r is Err ==> r == Err::<(), ParseError>(
                ParseError::InvalidPosition {
                    from: old(self)@.position as usize,
                    delta,
                    size: old(self)@.data.len() as usize,
                },
            ),
    {
        let size = self.data.len();
        let err = ParseError::InvalidPosition { from: self.position, delta, size };
        if delta >= 0 {
            let forward = delta as usize;
            if self.position > size || forward > size - self.position {
                return Err(err);
            }
            self.position = self.position + forward;
        } else {
            let back: usize = (0 - (delta + 1)) as usize + 1;
            if back > self.position || self.position - back > size {
                return Err(err);
            }
            self.position = self.position - back;
        }
        Ok(())
    }

    /// Checks that the bytes of a read of `op` lie in the buffer, and returns
    /// the offset just past them.
    fn check_length(&self, op: ReadOp) -> (r: Result<usize, ParseError>)
        ensures
            r is Ok <==> self@.remaining() >= op.spec_width(),
            r is Ok ==> r->Ok_0 == self@.position + op.spec_width(),
            r is Err ==> r == Err::<usize, ParseError>(short_read(self@, op)),
    {
        let len = self.data.len();
        let have = if self.position <= len { len - self.position } else { 0 };
        let need = op.width();
        if have < need {
            Err(ParseError::OutOfBounds { op, need, have })
        } else {
            Ok(self.position + need)
        }
    }

    pub fn read_u32(&mut self) -> (r: Result<u32, ParseError>)
        ensures
            final(self)@ == cursor_step(old(self)@, CursorOp::Read(ReadOp::U32)),
            r is Ok ==> read_result(old(self)@, ReadOp::U32) == Ok::<nat, ParseError>(r->Ok_0 as nat),
            r is Err ==> read_result(old(self)@, ReadOp::U32) == Err::<nat, ParseError>(r->Err_0),
    {
        let end = self.check_length(ReadOp::U32)?;
        let p = self.position;
        let r = (self.data[p] as u32) * 0x100_0000 + (self.data[p + 1] as u32) * 0x1_0000
            + (self.data[p + 2] as u32) * 0x100 + (self.data[p + 3] as u32);
        self.position = end;
        Ok(r)
    }

    pub fn read_u16(&mut self) -> (r: Result<u16, ParseError>)
        ensures
            final(self)@ == cursor_step(old(self)@, CursorOp::Read(ReadOp::U16)),
            r is Ok ==> read_result(old(self)@, ReadOp::U16) == Ok::<nat, ParseError>(r->Ok_0 as nat),
            r is Err ==> read_result(old(self)@, ReadOp::U16) == Err::<nat, ParseError>(r->Err_0),
    {
        let end = self.check_length(ReadOp::U16)?;
        let p = self.position;
        let r = (self.data[p] as u16) * 0x100 + (self.data[p + 1] as u16);
        self.position = end;
        Ok(r)
    }

    /// Reads the 24-bit big-endian flags field of an atom.
    pub fn read_flags(&mut self) -> (r: Result<u32, ParseError>)
        ensures
            final(self)@ == cursor_step(old(self)@, CursorOp::Read(ReadOp::Flags)),
            r is Ok ==> read_result(old(self)@, ReadOp::Flags) == Ok::<nat, ParseError>(r->Ok_0 as nat),
            r is Err ==> read_result(old(self)@, ReadOp::Flags) == Err::<nat, ParseError>(r->Err_0),
    {
        let end = self.check_length(ReadOp::Flags)?;
        let p = self.position;
        let r = (self.data[p] as u32) * 0x1_0000 + (self.data[p + 1] as u32) * 0x100
            + (self.data[p + 2] as u32);
        self.position = end;
        Ok(r)
    }

    pub fn read_u8(&mut self) -> (r: Result<u8, ParseError>)
        ensures
            final(self)@ == cursor_step(old(self)@, CursorOp::Read(ReadOp::U8)),
            r is Ok ==> read_result(old(self)@, ReadOp::U8) == Ok::<nat, ParseError>(r->Ok_0 as nat),
            r is Err ==> read_result(old(self)@, ReadOp::U8) == Err::<nat, ParseError>(r->Err_0),
    {
        let end = self.check_length(ReadOp::U8)?;
        let r = self.data[self.position];
        self.position = end;
        Ok(r)
    }
}

/// Relies on `std::str::from_utf8`: it accepts exactly the well-formed UTF-8 byte sequences.
#[verifier::external_body]
fn is_utf8(bytes: &[u8; 4]) -> (r: bool)
    ensures
        r == valid_utf8(bytes@),
{
    std::str::from_utf8(bytes).is_ok()
}

/// The abstract state of a scoped view: the position to restore when the view
/// closes, the offset the view was opened at, and the cursor it works on.
pub ghost struct ViewState {
    pub restore: nat,
    pub origin: nat,
    pub cursor: ParserState,
}

/// Opening a view records the cursor's position and moves the cursor to `at`.
pub open spec fn open_view(p: ParserState, at: nat) -> ViewState {
    ViewState { restore: p.position, origin: at, cursor: p.at(at as int) }
}

/// An operation inside a view acts on the cursor and keeps the restore point
/// and the origin.
pub open spec fn view_step(v: ViewState, op: CursorOp) -> ViewState {
    ViewState { cursor: cursor_step(v.cursor, op), ..v }
}

/// Closing a view puts the cursor back at the restore point.
pub open spec fn close_view(v: ViewState) -> ParserState {
    v.cursor.at(v.restore as int)
}

/// A cursor borrowed at an explicit offset. `close` puts the owning cursor
/// back where it stood when the view was opened, whatever happened inside the
/// view; every view this library opens is closed on each path out of its scope.
/// Open views with `get_view_at` or `clone_view`: the contracts relate a view
/// to its cursor through the public fields.
pub struct MParserView<'a> {
    /// Where the cursor stood before the view was opened.
    pub restore_position: usize,
    /// The offset the view was opened at.
    pub opened_at: usize,
    pub parser: &'a mut MParser,
}

impl<'a> View for MParserView<'a> {
    type V = ViewState;

    open spec fn view(&self) -> ViewState {
        ViewState {
            restore: self.restore_position as nat,
            origin: self.opened_at as nat,
            cursor: (*self.parser)@,
        }
    }
}

impl MParser {
    /// Opens a view at `position`; the cursor's current position is the view's restore point.
    pub fn get_view_at(&mut self, position: usize) -> (v: MParserView<'_>)
        ensures
            v@ == open_view(old(self)@, position as nat),
            *final(self) == *final(v.parser),
    {
        let restore_position = self.position;
        self.position = position;
        MParserView { restore_position, opened_at: position, parser: self }
    }
}

impl<'a> MParserView<'a> {
    /// Opens a nested view at `position` on the same cursor.
    pub fn get_view_at(&mut self, position: usize) -> (v: MParserView<'_>)
        ensures
            v@ == open_view(old(self)@.cursor, position as nat),
            final(self).restore_position == old(self).restore_position,
            final(self).opened_at == old(self).opened_at,
            *final(self).parser == *final(v.parser),
            *final(final(self).parser) == *final(old(self).parser),
    {
        self.parser.get_view_at(position)
    }

    /// Opens a nested view at the offset this view was opened at.
    pub fn clone_view(&mut self) -> (v: MParserView<'_>)
        ensures
            v@ == open_view(old(self)@.cursor, old(self)@.origin),
            final(self).restore_position == old(self).restore_position,
            final(self).opened_at == old(self).opened_at,
            *final(self).parser == *final(v.parser),
            *final(final(self).parser) == *final(old(self).parser),
    {
        let p = self.opened_at;
        self.parser.get_view_at(p)
    }

    /// Ends the view: the cursor returns to the restore point.
    pub fn close(self)
        ensures
            (*final(self.parser))@ == close_view(self@),
    {
        self.parser.position = self.restore_position;
    }

    pub fn move_cursor(&mut self, delta: isize) -> (r: Result<(), ParseError>)
        ensures
            final(self)@ == view_step(old(self)@, CursorOp::Move(delta as int)),
            *final(final(self).parser) == *final(old(self).parser),
            r is Ok <==> move_ok(old(self)@.cursor, delta as int),
            r is Err ==> r == Err::<(), ParseError>(
                ParseError::InvalidPosition {
                    from: old(self)@.cursor.position as usize,
                    delta,
                    size: old(self)@.cursor.data.len() as usize,
                },
            ),
    {
        self.parser.move_cursor(delta)
    }

    pub fn get_position(&self) -> (r: usize)
        ensures
            r == self@.cursor.position,
    {
        self.parser.get_position()
    }

    pub fn set_position(&mut self, new_position: usize)
        ensures
            final(self)@ == view_step(old(self)@, CursorOp::Jump(new_position as nat)),
            *final(final(self).parser) == *final(old(self).parser),
    {
        self.parser.set_position(new_position)
    }

    pub fn get_byte(&self, offset: usize) -> (r: u8)
        requires
            self@.cursor.position + offset < self@.cursor.data.len(),
        ensures
            r == self@.cursor.data[self@.cursor.position + offset],
    {
        self.parser.get_byte(offset)
    }

    pub fn get_size(&self) -> (r: usize)
        ensures
            r == self@.cursor.data.len(),
    {
        self.parser.get_size()
    }

    pub fn get_remaining_bytes(&self) -> (r: usize)
        ensures
            r == self@.cursor.remaining(),
    {
        self.parser.get_remaining_bytes()
    }

    pub fn read_u32(&mut self) -> (r: Result<u32, ParseError>)
        ensures
            final(self)@ == view_step(old(self)@, CursorOp::Read(ReadOp::U32)),
            *final(final(self).parser) == *final(old(self).parser),
            r is Ok ==> read_result(old(self)@.cursor, ReadOp::U32) == Ok::<nat, ParseError>(r->Ok_0 as nat),
            r is Err ==> read_result(old(self)@.cursor, ReadOp::U32) == Err::<nat, ParseError>(r->Err_0),
    {
        self.parser.read_u32()
    }

    pub fn read_u16(&mut self) -> (r: Result<u16, ParseError>)
        ensures
            final(self)@ == view_step(old(self)@, CursorOp::Read(ReadOp::U16)),
            *final(final(self).parser) == *final(old(self).parser),
            r is Ok ==> read_result(old(self)@.cursor, ReadOp::U16) == Ok::<nat, ParseError>(r->Ok_0 as nat),
            r is Err ==> read_result(old(self)@.cursor, ReadOp::U16) == Err::<nat, ParseError>(r->Err_0),
    {
        self.parser.read_u16()
    }

    pub fn read_u8(&mut self) -> (r: Result<u8, ParseError>)
        ensures
            final(self)@ == view_step(old(self)@, CursorOp::Read(ReadOp::U8)),
            *final(final(self).parser) == *final(old(self).parser),
            r is Ok ==> read_result(old(self)@.cursor, ReadOp::U8) == Ok::<nat, ParseError>(r->Ok_0 as nat),
            r is Err ==> read_result(old(self)@.cursor, ReadOp::U8) == Err::<nat, ParseError>(r->Err_0),
    {
        self.parser.read_u8()
    }

    pub fn read_flags(&mut self) -> (r: Result<u32, ParseError>)
        ensures
            final(self)@ == view_step(old(self)@, CursorOp::Read(ReadOp::Flags)),
            *final(final(self).parser) == *final(old(self).parser),
            r is Ok ==> read_result(old(self)@.cursor, ReadOp::Flags) == Ok::<nat, ParseError>(r->Ok_0 as nat),
            r is Err ==> read_result(old(self)@.cursor, ReadOp::Flags) == Err::<nat, ParseError>(r->Err_0),
    {
        self.parser.read_flags()
    }

    /// Reads a four-byte type tag, as its big-endian value.
    pub fn read_type_tag(&mut self) -> (r: Result<u32, ParseError>)
        ensures
            final(self)@ == view_step(old(self)@, CursorOp::Read(ReadOp::TypeTag)),
            *final(final(self).parser) == *final(old(self).parser),
            r == tag_result(old(self)@.cursor),
    {
        let end = self.parser.check_length(ReadOp::TypeTag)?;
        let bytes: [u8; 4] = [self.get_byte(0), self.get_byte(1), self.get_byte(2), self.get_byte(3)];
        let ghost c = self@.cursor;
        assert(bytes@ =~= c.data.subrange(c.position as int, c.position + 4int));
        if !is_utf8(&bytes) {
            return Err(ParseError::InvalidTag);
        }
        let r = (bytes[0] as u32) * 0x100_0000 + (bytes[1] as u32) * 0x1_0000
            + (bytes[2] as u32) * 0x100 + (bytes[3] as u32);
        self.parser.position = end;
        Ok(r)
    }
}

/// The result of reading a type tag at the cursor.
pub open spec fn tag_result(s: ParserState) -> Result<u32, ParseError> {
    if s.remaining() < 4 {
        Err(short_read(s, ReadOp::TypeTag))
    } else if !read_ok(s, ReadOp::TypeTag) {
        Err(ParseError::InvalidTag)
    } else {
        Ok(be_value(s.data, s.position as int, 4) as u32)
    }
}

/// The state after running `ops` in order inside a view.
pub open spec fn run_view(v: ViewState, ops: Seq<CursorOp>) -> ViewState
    decreases ops.len(),
{
    if ops.len() == 0 {
        v
    } else {
        run_view(view_step(v, ops[0]), ops.drop_first())
    }
}

proof fn lemma_run_view_keeps(v: ViewState, ops: Seq<CursorOp>)
    ensures
        run_view(v, ops).restore == v.restore,
        run_view(v, ops).cursor.data == v.cursor.data,
    decreases ops.len(),
{
    if ops.len() > 0 {
        lemma_run_view_keeps(view_step(v, ops[0]), ops.drop_first());
    }
}

/// Opening a view at any offset, running any sequence of reads, moves and
/// jumps in it (whether they succeed or fail), and closing it leaves the
/// owning cursor exactly as it was before the view was opened.
pub proof fn lemma_view_restores(p: ParserState, offset: nat, ops: Seq<CursorOp>)
    ensures
        close_view(run_view(open_view(p, offset), ops)) == p,
{
    lemma_run_view_keeps(open_view(p, offset), ops);
}

/// A parser for one kind of value, read through a view.
pub trait ParserAction<T> {
    fn try_parse(parser: &mut MParserView) -> Result<T, ParseError>;
}

/// Parses a four-byte type tag.
pub struct TypeParserAction;

impl ParserAction<u32> for TypeParserAction {
    fn try_parse(parser: &mut MParserView) -> (r: Result<u32, ParseError>)
        ensures
            final(parser)@ == view_step(old(parser)@, CursorOp::Read(ReadOp::TypeTag)),
            *final(final(parser).parser) == *final(old(parser).parser),
            r == tag_result(old(parser)@.cursor),
    {
        parser.read_type_tag()
    }
}

} // verus!
