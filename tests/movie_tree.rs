use movtrim::atoms::{
    atom_type_and_size, loop_and_get_children, AtomParser, HandlerReferenceAtom, MediaAtom,
    MoovAtom, MovieHeaderAtom, TrakAtom, TrakHeaderAtom,
};
use movtrim::movie::MovieAtoms;
use movtrim::parser::{MParser, ParseError, ParserAction, ReadOp, TypeParserAction};
use movtrim::schema::{child_tags, MDIA, MOOV, MVHD, TRAK};
use movtrim::videotrim::{find_moov, parse_movie};

fn be32(v: u32) -> Vec<u8> {
    v.to_be_bytes().to_vec()
}

fn header(size: u32, tag: &[u8; 4]) -> Vec<u8> {
    let mut b = be32(size);
    b.extend_from_slice(tag);
    b
}

/// A 108-byte mvhd atom with version 1 and the rest zero.
fn minimal_mvhd() -> Vec<u8> {
    let mut b = header(108, b"mvhd");
    b.extend_from_slice(&[0, 0, 0, 0, 1, 0, 0, 0]);
    b.resize(108, 0);
    b
}

fn sample_movie() -> Vec<u8> {
    let mut b = header(108, b"moov");
    b.extend(minimal_mvhd());
    b
}

#[test]
fn round_trip_minimal_mvhd() {
    let data = sample_movie();
    assert_eq!(&data[0..16], &[0, 0, 0, 0x6C, 0x6D, 0x6F, 0x6F, 0x76, 0, 0, 0, 0x6C, 0x6D, 0x76, 0x68, 0x64]);
    let atoms = parse_movie(data).unwrap();
    let moov = atoms.moov.unwrap();
    assert_eq!(moov.location, 0);
    assert_eq!(moov.size, 108);
    let mvhd = atoms.mvhd.unwrap();
    assert_eq!(mvhd.version, 1);
    assert_eq!(mvhd.location, 8);
    assert_eq!(mvhd.size, 108);
    assert_eq!(mvhd.flags, 0);
    assert!(atoms.traks.is_empty());
}

#[test]
fn round_trip_through_a_view() {
    let mut data = vec![0xAA, 0xBB, 0xCC];
    data.extend(sample_movie());
    let mut parser = MParser::new(data);
    let root = find_moov(parser.data()).unwrap();
    assert_eq!(root, 3);
    let mut view = parser.get_view_at(root);
    let atoms = MovieAtoms::parse(&mut view).unwrap();
    view.close();
    assert_eq!(parser.get_position(), 0);
    assert_eq!(atoms.moov.unwrap().location, 3);
    assert_eq!(atoms.mvhd.unwrap().version, 1);
}

#[test]
fn truncated_read_reports_need_and_have() {
    let mut parser = MParser::new(vec![0x12, 0x34]);
    let err = parser.read_u32().unwrap_err();
    assert_eq!(err, ParseError::OutOfBounds { op: ReadOp::U32, need: 4, have: 2 });
    assert_eq!(ReadOp::U32.name(), "read_u32");
    assert_eq!(parser.get_position(), 0);
}

#[test]
fn truncated_movie_header_is_fatal() {
    // The mvhd's creation time starts 24 bytes into the buffer; the buffer ends 2 bytes later.
    let mut data = sample_movie();
    data.truncate(26);
    let err = parse_movie(data).unwrap_err();
    assert_eq!(err, ParseError::OutOfBounds { op: ReadOp::U32, need: 4, have: 2 });
}

#[test]
fn unrecognized_first_child_yields_bare_root() {
    let mut data = header(24, b"moov");
    data.extend(header(16, b"free"));
    data.extend(minimal_mvhd());
    let atoms = parse_movie(data).unwrap();
    assert_eq!(atoms.moov.unwrap(), MoovAtom::new(0, 24));
    assert!(atoms.mvhd.is_none());
    assert!(atoms.traks.is_empty());
}

#[test]
fn missing_root_is_reported() {
    let data = b"mooz moo v mov oov".to_vec();
    assert_eq!(find_moov(&data), Err(ParseError::RootNotFound));
    assert_eq!(parse_movie(data).unwrap_err(), ParseError::RootNotFound);
    assert_eq!(find_moov(&[]), Err(ParseError::RootNotFound));
}

#[test]
fn root_after_a_false_start_is_found() {
    let data = b"xxxxxmmoov".to_vec();
    assert_eq!(find_moov(&data), Ok(2));
    assert_eq!(find_moov(b"xxxxmomoov"), Ok(2));
    assert_eq!(find_moov(b"xxxxmoomoov"), Ok(3));
    assert_eq!(find_moov(b"1234moov"), Ok(0));
}

#[test]
fn tag_without_room_for_size_is_skipped() {
    assert_eq!(find_moov(b"moov"), Err(ParseError::RootNotFound));
    assert_eq!(find_moov(b"moov....moov"), Ok(4));
}

#[test]
fn view_restores_position_after_failure() {
    let mut parser = MParser::new(vec![1, 2, 3, 4, 5, 6]);
    parser.set_position(2);
    {
        let mut view = parser.get_view_at(4);
        assert_eq!(view.get_position(), 4);
        assert_eq!(view.read_u8(), Ok(5));
        assert!(view.read_u32().is_err());
        assert!(view.move_cursor(10).is_err());
        view.set_position(0);
        assert_eq!(view.read_u16(), Ok(0x0102));
        view.close();
    }
    assert_eq!(parser.get_position(), 2);
}

#[test]
fn nested_views_restore_in_order() {
    let mut parser = MParser::new(vec![0; 32]);
    parser.set_position(3);
    let mut outer = parser.get_view_at(8);
    outer.move_cursor(4).unwrap();
    {
        let mut inner = outer.get_view_at(20);
        inner.read_u32().unwrap();
        assert_eq!(inner.get_position(), 24);
        inner.close();
    }
    assert_eq!(outer.get_position(), 12);
    {
        let inner = outer.clone_view();
        assert_eq!(inner.get_position(), 8);
        assert_eq!((inner.opened_at, inner.restore_position), (8, 12));
        inner.close();
    }
    assert_eq!(outer.get_position(), 12);
    outer.close();
    assert_eq!(parser.get_position(), 3);
}

#[test]
fn big_endian_reads() {
    let mut parser = MParser::new(vec![0x01, 0x02, 0x03, 0x04, 0x05, 0x06, 0x07, 0x08, 0x09, 0xFF]);
    assert_eq!(parser.read_u32(), Ok(0x0102_0304));
    assert_eq!(parser.read_flags(), Ok(0x05_0607));
    assert_eq!(parser.read_u16(), Ok(0x0809));
    assert_eq!(parser.get_remaining_bytes(), 1);
    assert_eq!(parser.get_byte(0), 0xFF);
    assert_eq!(parser.read_u8(), Ok(0xFF));
    assert_eq!(parser.read_u8(), Err(ParseError::OutOfBounds { op: ReadOp::U8, need: 1, have: 0 }));
    assert_eq!(parser.get_size(), 10);
}

#[test]
fn short_reads_of_each_width() {
    let mut parser = MParser::new(vec![0xAB]);
    assert_eq!(parser.read_u16(), Err(ParseError::OutOfBounds { op: ReadOp::U16, need: 2, have: 1 }));
    assert_eq!(parser.read_flags(), Err(ParseError::OutOfBounds { op: ReadOp::Flags, need: 3, have: 1 }));
    assert_eq!(parser.get_position(), 0);
}

#[test]
fn cursor_moves_within_bounds() {
    let mut parser = MParser::new(vec![0; 8]);
    assert_eq!(parser.move_cursor(8), Ok(()));
    assert_eq!(parser.get_position(), 8);
    assert_eq!(parser.move_cursor(1), Err(ParseError::InvalidPosition { from: 8, delta: 1, size: 8 }));
    assert_eq!(parser.move_cursor(-3), Ok(()));
    assert_eq!(parser.get_position(), 5);
    assert_eq!(parser.move_cursor(-6), Err(ParseError::InvalidPosition { from: 5, delta: -6, size: 8 }));
    assert_eq!(parser.move_cursor(isize::MIN), Err(ParseError::InvalidPosition { from: 5, delta: isize::MIN, size: 8 }));
    assert_eq!(parser.get_position(), 5);
    parser.set_position(100);
    assert_eq!(parser.get_remaining_bytes(), 0);
    assert_eq!(parser.move_cursor(-95), Ok(()));
    assert_eq!(parser.get_position(), 5);
}

#[test]
fn type_tags() {
    let mut parser = MParser::new(b"moov\xFF\xFEab".to_vec());
    let mut view = parser.get_view_at(0);
    assert_eq!(TypeParserAction::try_parse(&mut view), Ok(MOOV));
    assert_eq!(view.read_type_tag(), Err(ParseError::InvalidTag));
    assert_eq!(view.get_position(), 4);
    view.close();
    let mut parser = MParser::new(b"mo".to_vec());
    let mut view = parser.get_view_at(0);
    assert_eq!(view.read_type_tag(), Err(ParseError::OutOfBounds { op: ReadOp::TypeTag, need: 4, have: 2 }));
    view.close();
}

#[test]
fn header_read() {
    let mut parser = MParser::new(minimal_mvhd());
    let mut view = parser.get_view_at(0);
    assert_eq!(atom_type_and_size(&mut view), Ok((108, MVHD)));
    assert_eq!(view.get_position(), 8);
    view.close();
}

#[test]
fn child_scan_stops_at_unadmitted_tag() {
    let mut data = header(8, b"moov");
    data.extend(header(8, b"mvhd"));
    data.extend(header(12, b"trak"));
    data.extend([0, 0, 0, 0]);
    data.extend(header(8, b"udta"));
    data.extend(header(8, b"free"));
    data.extend(header(8, b"trak"));
    let mut parser = MParser::new(data);
    let mut view = parser.get_view_at(8);
    let found = loop_and_get_children(&mut view, &child_tags(MOOV));
    view.close();
    assert_eq!(found, vec![28, 16, 8]);
}

#[test]
fn child_scan_zero_size_ends_walk() {
    let mut data = header(0, b"trak");
    data.extend(header(8, b"trak"));
    let mut parser = MParser::new(data);
    let mut view = parser.get_view_at(0);
    assert_eq!(loop_and_get_children(&mut view, &child_tags(MOOV)), vec![0]);
    view.close();
}

#[test]
fn child_scan_of_leaf_type_is_empty() {
    let mut parser = MParser::new(header(8, b"mvhd"));
    let mut view = parser.get_view_at(0);
    assert_eq!(loop_and_get_children(&mut view, &child_tags(MVHD)), Vec::<usize>::new());
    view.close();
    assert!(child_tags(MVHD).is_empty());
    assert_eq!(child_tags(TRAK).len(), 11);
    assert_eq!(child_tags(MDIA).len(), 5);
}

#[test]
fn leaf_parsers_have_no_children() {
    let mut parser = MParser::new(minimal_mvhd());
    let mut view = parser.get_view_at(0);
    assert_eq!(MovieHeaderAtom::get_children(&mut view), Ok(vec![]));
    let h = MovieHeaderAtom::parse(&mut view).unwrap();
    view.close();
    assert_eq!(h.version, 1);
    assert_eq!(h.next_track_id, 0);
}

fn tkhd() -> Vec<u8> {
    let mut b = header(96, b"tkhd");
    b.extend([0, 0, 0, 0]); // reserved
    b.push(2); // version
    b.extend([0, 0, 7]); // flags
    b.extend(be32(11)); // creation
    b.extend(be32(12)); // modification
    b.extend(be32(5)); // track id
    b.extend([0, 0, 0, 0]);
    b.extend(be32(600)); // duration
    b.extend([0; 8]);
    b.extend([0, 1]); // layer
    b.extend([0, 2]); // alternate group
    b.extend([0x01, 0x00]); // volume
    b.extend([0, 0]);
    b.extend([0; 36]);
    b.extend(be32(0x0140_0000)); // width
    b.extend(be32(0x00F0_0000)); // height
    assert_eq!(b.len(), 96);
    b
}

fn mdhd() -> Vec<u8> {
    let mut b = header(36, b"mdhd");
    b.extend([0, 0, 0, 0]);
    b.push(0);
    b.extend([0, 0, 0]);
    b.extend(be32(1));
    b.extend(be32(2));
    b.extend(be32(44100));
    b.extend(be32(88200));
    b.extend([0x55, 0xC4]);
    b.extend([0, 0]);
    assert_eq!(b.len(), 36);
    b
}

fn hdlr() -> Vec<u8> {
    let mut b = header(20, b"hdlr");
    b.push(0);
    b.extend([0, 0, 0]);
    b.extend(b"mhlr");
    b.extend(b"soun");
    assert_eq!(b.len(), 20);
    b
}

fn track(extra: &[u8]) -> Vec<u8> {
    let media_len = 8 + 36 + 20;
    let mut media = header(media_len as u32, b"mdia");
    media.extend(mdhd());
    media.extend(hdlr());
    let mut body = tkhd();
    body.extend(media);
    body.extend_from_slice(extra);
    let mut b = header(8 + body.len() as u32, b"trak");
    b.extend(body);
    b
}

#[test]
fn full_tree_with_two_tracks() {
    let mut body = minimal_mvhd();
    body.extend(track(&[]));
    body.extend(track(&header(8, b"udta")));
    let mut data = header(8 + body.len() as u32, b"moov");
    data.extend(body);
    let atoms = parse_movie(data).unwrap();
    assert_eq!(atoms.traks.len(), 2);
    let first = atoms.traks[0];
    assert_eq!(first.location, 8 + 108);
    let th = first.tkhd.unwrap();
    assert_eq!(th.version, 2);
    assert_eq!(th.flags, 7);
    assert_eq!(th.creation_time, 11);
    assert_eq!(th.modification_time, 12);
    assert_eq!(th.track_id, 5);
    assert_eq!(th.duration, 600);
    assert_eq!(th.layer, 1);
    assert_eq!(th.alternate_group, 2);
    assert_eq!(th.volume, 0x0100);
    assert_eq!(th.track_width, 0x0140_0000);
    assert_eq!(th.track_height, 0x00F0_0000);
    let media = first.mdia.unwrap();
    assert_eq!(media.location, first.location + 8 + 96);
    let mh = media.mdhd.unwrap();
    assert_eq!(mh.time_scale, 44100);
    assert_eq!(mh.duration, 88200);
    assert_eq!(mh.language, 0x55C4);
    let h = media.hdlr.unwrap();
    assert_eq!(h.component_type, u32::from_be_bytes(*b"mhlr"));
    assert_eq!(h.component_subtype, u32::from_be_bytes(*b"soun"));
    let second = atoms.traks[1];
    assert_eq!(second.location, first.location + first.size as usize);
    assert!(second.tkhd.is_some());
    assert!(second.mdia.unwrap().hdlr.is_some());
}

#[test]
fn malformed_known_child_aborts_the_parse() {
    // A tkhd that claims its full size but whose bytes stop early.
    let mut data = header(56, b"moov");
    data.extend(header(48, b"trak"));
    let mut t = tkhd();
    t.truncate(40);
    data.extend(t);
    // The 8 reserved bytes after the duration would end at 60, past the end at 56.
    let err = parse_movie(data).unwrap_err();
    assert_eq!(err, ParseError::InvalidPosition { from: 52, delta: 8, size: 56 });
}

#[test]
fn read_op_names_and_widths() {
    assert_eq!(ReadOp::U8.name(), "read_u8");
    assert_eq!(ReadOp::U16.name(), "read_u16");
    assert_eq!(ReadOp::Flags.name(), "read_flags");
    assert_eq!(ReadOp::TypeTag.name(), "read_type_tag");
    assert_eq!(ReadOp::Flags.width(), 3);
    assert_eq!(ReadOp::TypeTag.width(), 4);
}

#[test]
fn moov_extent() {
    assert_eq!(MoovAtom::new(16, 100).end(), Some(116));
    assert_eq!(MoovAtom::new(usize::MAX - 1, 2).end(), None);
}

#[test]
fn oversized_child_ends_the_scan() {
    let mut data = header(u32::MAX, b"mvhd");
    data.extend(header(8, b"trak"));
    let mut parser = MParser::new(data);
    let mut view = parser.get_view_at(0);
    assert_eq!(loop_and_get_children(&mut view, &child_tags(MOOV)), vec![0]);
    view.close();
}

#[test]
fn empty_records() {
    let atoms = MovieAtoms::new();
    assert!(atoms.moov.is_none() && atoms.mvhd.is_none() && atoms.traks.is_empty());
    let t = TrakAtom::new(4, 9);
    assert_eq!((t.location, t.size), (4, 9));
    assert!(t.tkhd.is_none() && t.mdia.is_none());
    let m = MediaAtom::new(7, 3);
    assert_eq!((m.location, m.size), (7, 3));
    assert!(m.mdhd.is_none() && m.hdlr.is_none());
}

#[test]
fn later_singleton_replaces_earlier() {
    let mut second = minimal_mvhd();
    second[12] = 9;
    let mut body = minimal_mvhd();
    body.extend(second);
    let mut data = header(8 + body.len() as u32, b"moov");
    data.extend(body);
    let atoms = parse_movie(data).unwrap();
    let mvhd = atoms.mvhd.unwrap();
    assert_eq!(mvhd.version, 9);
    assert_eq!(mvhd.location, 116);
}

#[test]
fn root_header_too_short() {
    let data = b"\x00\x00moov".to_vec();
    assert_eq!(find_moov(&data), Err(ParseError::RootNotFound));
    let mut parser = MParser::new(b"\x00\x00\x00\x08mo".to_vec());
    let mut view = parser.get_view_at(2);
    let err = MovieAtoms::parse(&mut view).unwrap_err();
    assert_eq!(err, ParseError::InvalidPosition { from: 6, delta: 4, size: 6 });
    view.close();
    let mut view = parser.get_view_at(3);
    let err = MovieAtoms::parse(&mut view).unwrap_err();
    assert_eq!(err, ParseError::OutOfBounds { op: ReadOp::U32, need: 4, have: 3 });
    view.close();
}

#[test]
fn track_parse_reads_its_subtree() {
    let mut data = vec![0u8; 5];
    let t = track(&header(8, b"udta"));
    let len = t.len();
    data.extend(t);
    let mut parser = MParser::new(data);
    let mut view = parser.get_view_at(5);
    let trak = TrakAtom::parse(&mut view).unwrap();
    assert_eq!(view.get_position(), 13);
    view.close();
    assert_eq!(parser.get_position(), 0);
    assert_eq!((trak.location, trak.size as usize), (5, len));
    let th = trak.tkhd.unwrap();
    assert_eq!(th.location, 13);
    assert_eq!(th.track_id, 5);
    let media = trak.mdia.unwrap();
    assert_eq!(media.location, 13 + 96);
    assert_eq!(media.mdhd.unwrap().location, 13 + 96 + 8);
    assert_eq!(media.mdhd.unwrap().time_scale, 44100);
    assert_eq!(media.hdlr.unwrap().location, 13 + 96 + 8 + 36);
}

#[test]
fn track_parse_skips_children_without_parser() {
    let mut body = header(16, b"edts");
    body.extend([0; 8]);
    body.extend(header(8, b"udta"));
    body.extend(tkhd());
    let mut data = header(8 + body.len() as u32, b"trak");
    data.extend(body);
    let mut parser = MParser::new(data);
    let mut view = parser.get_view_at(0);
    let trak = TrakAtom::parse(&mut view).unwrap();
    view.close();
    assert_eq!(trak.tkhd.unwrap().location, 32);
    assert!(trak.mdia.is_none());
}

#[test]
fn track_parse_fails_on_truncated_child() {
    let mut data = header(56, b"trak");
    let mut t = tkhd();
    t.truncate(48);
    data.extend(t);
    let mut parser = MParser::new(data);
    let mut view = parser.get_view_at(0);
    let err = TrakAtom::parse(&mut view).unwrap_err();
    view.close();
    // The reads stop at the volume field, which starts where the buffer ends.
    assert_eq!(err, ParseError::OutOfBounds { op: ReadOp::U16, need: 2, have: 0 });
    let mut parser = MParser::new(header(8, b"trak"));
    let mut view = parser.get_view_at(0);
    let bare = TrakAtom::read_header(&mut view).unwrap();
    view.close();
    assert_eq!(bare, TrakAtom::new(0, 8));
}

#[test]
fn parsers_leave_cursor_after_record() {
    let mut parser = MParser::new(sample_movie());
    let mut view = parser.get_view_at(0);
    MoovAtom::parse(&mut view).unwrap();
    assert_eq!(view.get_position(), 8);
    MovieHeaderAtom::parse(&mut view).unwrap();
    assert_eq!(view.get_position(), 8 + 102);
    view.close();
    let mut parser = MParser::new(tkhd());
    let mut view = parser.get_view_at(0);
    TrakHeaderAtom::parse(&mut view).unwrap();
    assert_eq!(view.get_position(), 96);
    view.close();
    let mut parser = MParser::new(hdlr());
    let mut view = parser.get_view_at(0);
    HandlerReferenceAtom::parse(&mut view).unwrap();
    assert_eq!(view.get_position(), 20);
    view.close();
}
