//! Fixed record layouts: a sequence of big-endian fields and skipped ranges,
//! read in order through a view.

use vstd::prelude::*;
use crate::parser::{
    move_ok, read_result, view_step, CursorOp, MParserView, ParseError, ParserState, ReadOp,
};

verus! {

/// One step of a record layout.
#[derive(Clone, Copy, Debug, PartialEq, Eq, Structural)]
pub enum Field {
    U8,
    U16,
    Flags,
    U32,
    /// Bytes that are reserved or not read.
    Skip(u8),
}

impl Field {
    pub open spec fn read_op(self) -> ReadOp {
        match self {
            Field::U8 => ReadOp::U8,
            Field::U16 => ReadOp::U16,
            Field::Flags => ReadOp::Flags,
            _ => ReadOp::U32,
        }
    }
}

impl Field {
    /// Number of bytes the step covers.
    pub open spec fn span(self) -> nat {
        match self {
            Field::Skip(n) => n as nat,
            f => f.read_op().spec_width(),
        }
    }
}

/// Number of bytes a layout covers.
pub open spec fn layout_span(layout: Seq<Field>) -> nat
    decreases layout.len(),
{
    if layout.len() == 0 {
        0
    } else {
        layout_span(layout.drop_last()) + layout.last().span()
    }
}

/// The values a layout yields when read from `s`, or the error of its first
/// step that fails.
pub open spec fn fields_result(s: ParserState, layout: Seq<Field>) -> Result<Seq<nat>, ParseError>
    decreases layout.len(),
{
    if layout.len() == 0 {
        Ok(seq![])
    } else {
        match layout[0] {
            Field::Skip(n) => if move_ok(s, n as int) {
                fields_result(s.at(s.position + n), layout.drop_first())
            } else {
                Err(
                    ParseError::InvalidPosition {
                        from: s.position as usize,
                        delta: n as isize,
                        size: s.data.len() as usize,
                    },
                )
            },
            f => match read_result(s, f.read_op()) {
                Err(e) => Err(e),
                Ok(v) => match fields_result(
                    s.at(s.position + f.read_op().spec_width() as int),
                    layout.drop_first(),
                ) {
                    Ok(vs) => Ok(seq![v] + vs),
                    Err(e) => Err(e),
                },
            },
        }
    }
}

/// How many values a layout yields.
pub open spec fn value_count(layout: Seq<Field>) -> nat
    decreases layout.len(),
{
    if layout.len() == 0 {
        0
    } else {
        (if layout[0] is Skip { 0nat } else { 1nat }) + value_count(layout.drop_first())
    }
}

pub proof fn lemma_fields_count(s: ParserState, layout: Seq<Field>)
    ensures
        fields_result(s, layout) is Ok ==> fields_result(s, layout)->Ok_0.len() == value_count(
            layout,
        ),
    decreases layout.len(),
{
    if layout.len() > 0 {
        match layout[0] {
            Field::Skip(n) => lemma_fields_count(s.at(s.position + n), layout.drop_first()),
            f => lemma_fields_count(s.at(s.position + f.read_op().spec_width() as int), layout.drop_first()),
        }
    }
}

/// `vs` followed by the values of `r`, or the error of `r`.
pub open spec fn prepend(vs: Seq<nat>, r: Result<Seq<nat>, ParseError>) -> Result<Seq<nat>, ParseError> {
    match r {
        Ok(ws) => Ok(vs + ws),
        Err(e) => Err(e),
    }
}

proof fn lemma_span_front(l: Seq<Field>)
    requires
        l.len() > 0,
    ensures
        layout_span(l) == l[0].span() + layout_span(l.drop_first()),
    decreases l.len(),
{
    if l.len() > 1 {
        lemma_span_front(l.drop_last());
        assert(l.drop_last().drop_first() =~= l.drop_first().drop_last());
    } else {
        assert(l.drop_last() =~= Seq::<Field>::empty());
        assert(l.drop_first() =~= Seq::<Field>::empty());
    }
}

/// The span of two layouts one after the other.
pub proof fn lemma_span_concat(a: Seq<Field>, b: Seq<Field>)
    ensures
        layout_span(a + b) == layout_span(a) + layout_span(b),
    decreases b.len(),
{
    if b.len() == 0 {
        assert(a + b =~= a);
    } else {
        lemma_span_concat(a, b.drop_last());
        assert((a + b).drop_last() =~= a + b.drop_last());
        assert((a + b).last() == b.last());
    }
}

/// A layout reads without error wherever all its bytes lie in the buffer.
pub proof fn lemma_fields_fit(s: ParserState, l: Seq<Field>)
    requires
        s.position + layout_span(l) <= s.data.len(),
    ensures
        fields_result(s, l) is Ok,
    decreases l.len(),
{
    if l.len() > 0 {
        lemma_span_front(l);
        lemma_fields_fit(s.at(s.position + l[0].span() as int), l.drop_first());
    }
}

/// Reading `a + b` reads `a`, then `b` from where `a` ended.
pub proof fn lemma_fields_concat(s: ParserState, a: Seq<Field>, b: Seq<Field>)
    ensures
        fields_result(s, a + b) == match fields_result(s, a) {
            Ok(va) => prepend(va, fields_result(s.at(s.position + layout_span(a) as int), b)),
            Err(e) => Err(e),
        },
    decreases a.len(),
{
    if a.len() == 0 {
        assert(a + b =~= b);
        assert(s.at(s.position as int) == s);
        match fields_result(s, b) {
            Ok(vb) => assert(seq![] + vb =~= vb),
            Err(_) => {},
        }
    } else {
        lemma_span_front(a);
        assert((a + b).drop_first() =~= a.drop_first() + b);
        assert((a + b)[0] == a[0]);
        let s1 = s.at(s.position + a[0].span() as int);
        lemma_fields_concat(s1, a.drop_first(), b);
        assert(s1.at(s1.position + layout_span(a.drop_first()) as int) == s.at(s.position + layout_span(a) as int));
        match fields_result(s1, a.drop_first()) {
            Ok(va) => match fields_result(s.at(s.position + layout_span(a) as int), b) {
                Ok(vb) => {
                    assert(seq![0nat] + (va + vb) =~= (seq![0nat] + va) + vb);
                    if !(a[0] is Skip) {
                        let v = read_result(s, a[0].read_op())->Ok_0;
                        assert(seq![v] + (va + vb) =~= (seq![v] + va) + vb);
                    }
                },
                Err(_) => {},
            },
            Err(_) => {},
        }
    }
}

/// Reads the fields of `layout` in order from the view's position.
pub fn read_fields(parser: &mut MParserView, layout: &[Field]) -> (r: Result<Vec<u32>, ParseError>)
    ensures
        r is Ok <==> fields_result(old(parser)@.cursor, layout@) is Ok,
        r is Ok ==> r->Ok_0@.map_values(|v: u32| v as nat) == fields_result(old(parser)@.cursor, layout@)->Ok_0,
        r is Err ==> fields_result(old(parser)@.cursor, layout@) == Err::<Seq<nat>, ParseError>(r->Err_0),
        r is Ok ==> final(parser)@.cursor.position == old(parser)@.cursor.position + layout_span(layout@),
        final(parser)@.restore == old(parser)@.restore,
        final(parser)@.cursor.data == old(parser)@.cursor.data,
        *final(final(parser).parser) == *final(old(parser).parser),
{
    let ghost start = parser@;
    let ghost all = fields_result(start.cursor, layout@);
    let mut vals: Vec<u32> = Vec::new();
    let mut i: usize = 0;
    proof {
        assert(layout@.subrange(0, 0) =~= Seq::<Field>::empty());
        assert(layout@.subrange(0, layout@.len() as int) =~= layout@);
        if let Ok(ws) = all {
            assert(seq![] + ws =~= ws);
        }
    }
    while i < layout.len()
        invariant
            i <= layout@.len(),
            old(parser)@ == start,
            all == fields_result(start.cursor, layout@),
            parser@.restore == start.restore,
            parser@.cursor.data == start.cursor.data,
            parser@.cursor.position == start.cursor.position + layout_span(layout@.subrange(0, i as int)),
            *final(parser.parser) == *final(old(parser).parser),
            all == prepend(
                vals@.map_values(|v: u32| v as nat),
                fields_result(parser@.cursor, layout@.subrange(i as int, layout@.len() as int)),
            ),
        decreases layout@.len() - i,
    {
        let ghost s = parser@.cursor;
        let ghost rest = layout@.subrange(i as int, layout@.len() as int);
        let ghost before = vals@.map_values(|v: u32| v as nat);
        assert(rest[0] == layout@[i as int]);
        assert(rest.drop_first() =~= layout@.subrange(i + 1, layout@.len() as int));
        assert(layout@.subrange(0, i + 1).drop_last() =~= layout@.subrange(0, i as int));
        match layout[i] {
            Field::Skip(n) => {
                match parser.move_cursor(n as isize) {
                    Ok(()) => {},
                    Err(e) => {
                        assert(fields_result(s, rest) == Err::<Seq<nat>, ParseError>(e));
                        return Err(e);
                    },
                }
            },
            f => {
                let v: u32 = match f {
                    Field::U8 => match parser.read_u8() {
                        Ok(b) => b as u32,
                        Err(e) => return Err(e),
                    },
                    Field::U16 => match parser.read_u16() {
                        Ok(b) => b as u32,
                        Err(e) => return Err(e),
                    },
                    Field::Flags => match parser.read_flags() {
                        Ok(b) => b,
                        Err(e) => return Err(e),
                    },
                    _ => match parser.read_u32() {
                        Ok(b) => b,
                        Err(e) => return Err(e),
                    },
                };
                vals.push(v);
                proof {
                    assert(vals@.map_values(|v: u32| v as nat) =~= before + seq![v as nat]);
                    let tail = fields_result(parser@.cursor, rest.drop_first());
                    match tail {
                        Ok(ws) => assert(before + (seq![v as nat] + ws) =~= before + seq![v as nat] + ws),
                        Err(_) => {},
                    }
                }
            },
        }
        i = i + 1;
    }
    proof {
        assert(layout@.subrange(i as int, layout@.len() as int) =~= Seq::<Field>::empty());
        assert(layout@.subrange(0, i as int) =~= layout@);
        assert(vals@.map_values(|v: u32| v as nat) + seq![] =~= vals@.map_values(|v: u32| v as nat));
    }
    Ok(vals)
}

} // verus!
