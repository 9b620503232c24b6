use fancy_slice::debug::{FancySlice, PointerSearchResults};
use fancy_slice::Bound;

#[test]
fn debug_reads_and_sub_view() {
    let data = vec![4, 1, 3];
    let fancy_slice = FancySlice::new(&data);
    assert_eq!(fancy_slice.u8(0), 4);
    assert_eq!(fancy_slice.u8(1), 1);
    assert_eq!(fancy_slice.u8(2), 3);
    assert_eq!(fancy_slice.u16_be(0), 0x0401);
    assert_eq!(fancy_slice.u16_be(1), 0x0103);

    let inner_fancy_slice = fancy_slice.relative_fancy_slice(Bound::Included(1), Bound::Unbounded);
    assert_eq!(inner_fancy_slice.u8(0), 1);
    assert_eq!(inner_fancy_slice.u8(1), 3);
    assert_eq!(inner_fancy_slice.u16_be(0), 0x0103);
    assert_eq!(inner_fancy_slice.offset(), 1);
    assert_eq!(inner_fancy_slice.len(), 2);
}

#[test]
fn debug_str() {
    let data = vec![0x68, 0x69, 0x21, 0];
    let fancy_slice = FancySlice::new(&data);
    assert_eq!(fancy_slice.str(0), Ok("hi!"));
    assert_eq!(fancy_slice.str(1), Ok("i!"));
    let zeros = vec![0, 0, 0, 0];
    assert_eq!(FancySlice::new(&zeros).str(0), Ok(""));
    let open = vec![1, 2];
    assert_eq!(FancySlice::new(&open).str(0), Err(String::from("String was not terminated")));
}

#[test]
fn debug_str_needs_the_zero_inside_the_window() {
    let data = vec![0x61, 0x62, 0x63, 0x00];
    let view = FancySlice::new(&data);
    let sub = view.relative_fancy_slice(Bound::Unbounded, Bound::Excluded(3));
    assert_eq!(sub.str(0), Err(String::from("String was not terminated")));
    let sub = view.relative_fancy_slice(Bound::Included(1), Bound::Included(3));
    assert_eq!(sub.str(0), Ok("bc"));
}

#[test]
fn debug_str_reports_invalid_utf8() {
    let data = vec![0x80, 0x00];
    let view = FancySlice::new(&data);
    let expected = std::str::from_utf8(&data[..1]).unwrap_err().to_string();
    assert_eq!(view.str(0), Err(expected));
}

#[test]
fn debug_integers() {
    let data = vec![0xff, 0xfe, 0x03, 0x09, 0x12];
    let view = FancySlice::new(&data);
    let sub = view.relative_fancy_slice(Bound::Included(1), Bound::Unbounded);
    assert_eq!(view.i16_be(0), -2);
    assert_eq!(view.i32_be(0), -130295);
    assert_eq!(view.u32_be(1), 0xfe03_0912);
    assert_eq!(sub.u32_be(0), 0xfe03_0912);
    assert_eq!(sub.i32_be(0), 0xfe03_0912u32 as i32);
    assert_eq!(sub.i16_be(1), 0x0309);
    assert_eq!(sub.u16_be(2), 0x0912);
}

#[test]
fn offset_is_the_absolute_start() {
    let data = vec![0u8; 10];
    let root = FancySlice::new(&data);
    assert_eq!(root.offset(), 0);
    let a = root.relative_fancy_slice(Bound::Included(2), Bound::Excluded(9));
    assert_eq!((a.offset(), a.len()), (2, 7));
    let b = a.relative_fancy_slice(Bound::Included(3), Bound::Excluded(5));
    assert_eq!((b.offset(), b.len()), (5, 2));
    let c = b.relative_fancy_slice(Bound::Excluded(0), Bound::Included(1));
    assert_eq!((c.offset(), c.len()), (6, 1));
}

#[test]
fn debug_open_end_reaches_the_end_of_the_buffer() {
    let data = vec![1, 2, 3, 4, 5, 6];
    let root = FancySlice::new(&data);
    let sub = root.relative_fancy_slice(Bound::Included(1), Bound::Excluded(3));
    assert_eq!(sub.len(), 2);
    let wide = sub.relative_fancy_slice(Bound::Included(1), Bound::Unbounded);
    assert_eq!((wide.offset(), wide.len()), (2, 4));
    assert_eq!(wide.relative_slice(Bound::Unbounded, Bound::Unbounded), &[3, 4, 5, 6]);
}

#[test]
fn absolute_sub_view_counts_from_the_buffer_start() {
    let data = vec![10, 11, 12, 13, 14, 15, 16, 17];
    let root = FancySlice::new(&data);
    let sub = root.relative_fancy_slice(Bound::Included(3), Bound::Excluded(6));
    let abs = sub.absolute_fancy_slice(Bound::Included(1), Bound::Excluded(5));
    assert_eq!((abs.offset(), abs.len()), (1, 4));
    assert_eq!(abs.u8(0), 11);
    assert_eq!(abs.u32_be(0), 0x0b0c_0d0e);
    let all = sub.absolute_fancy_slice(Bound::Unbounded, Bound::Unbounded);
    assert_eq!((all.offset(), all.len()), (0, 8));
    let tail = sub.absolute_fancy_slice(Bound::Included(6), Bound::Unbounded);
    assert_eq!((tail.offset(), tail.len()), (6, 2));
    let one = sub.absolute_fancy_slice(Bound::Included(7), Bound::Included(7));
    assert_eq!((one.offset(), one.len(), one.u8(0)), (7, 1, 17));
}

#[test]
fn absolute_sub_view_equals_relative_chain() {
    let data: Vec<u8> = (0u8..40).map(|x| x.wrapping_mul(13).wrapping_add(5)).collect();
    let root = FancySlice::new(&data);
    let a = root.relative_fancy_slice(Bound::Included(4), Bound::Excluded(36));
    let b = a.relative_fancy_slice(Bound::Included(7), Bound::Excluded(30));
    let c = b.relative_fancy_slice(Bound::Included(2), Bound::Included(10));
    assert_eq!(c.offset(), 4 + 7 + 2);
    for view in [root, a, b, c] {
        let direct = view.absolute_fancy_slice(Bound::Included(13), Bound::Excluded(13 + c.len()));
        assert_eq!(direct.offset(), c.offset());
        assert_eq!(direct.len(), c.len());
        assert_eq!(
            direct.relative_slice(Bound::Unbounded, Bound::Excluded(direct.len())),
            c.relative_slice(Bound::Unbounded, Bound::Excluded(c.len()))
        );
        assert_eq!(direct.relative_slice(Bound::Unbounded, Bound::Excluded(9)), &data[13..22]);
    }
    let from_root = root.relative_fancy_slice(Bound::Included(13), Bound::Excluded(22));
    let direct = c.absolute_fancy_slice(Bound::Included(13), Bound::Excluded(22));
    assert_eq!((from_root.offset(), from_root.len()), (direct.offset(), direct.len()));
    assert_eq!(from_root.u32_be(3), direct.u32_be(3));
}

#[test]
fn debug_sub_view_read_is_parent_read_at_shifted_offset() {
    let data: Vec<u8> = (0u8..24).map(|x| x.wrapping_mul(91).wrapping_add(3)).collect();
    let parent = FancySlice::new(&data);
    for k in 0..data.len() {
        let sub = parent.relative_fancy_slice(Bound::Included(k), Bound::Unbounded);
        for o in 0..sub.len() {
            assert_eq!(sub.u8(o), parent.u8(k + o));
            if o + 2 <= sub.len() {
                assert_eq!(sub.u16_be(o), parent.u16_be(k + o));
                assert_eq!(sub.i16_be(o), parent.i16_be(k + o));
            }
            if o + 4 <= sub.len() {
                assert_eq!(sub.u32_be(o), parent.u32_be(k + o));
                assert_eq!(sub.i32_be(o), parent.i32_be(k + o));
            }
        }
    }
}

#[test]
fn debug_deriving_leaves_the_parent_as_it_was() {
    let data = vec![0x10, 0x20, 0x30, 0x40, 0x00];
    let root = FancySlice::new(&data);
    let parent = root.relative_fancy_slice(Bound::Included(1), Bound::Unbounded);
    let before = (parent.offset(), parent.len(), parent.u8(1), parent.u16_be(1), parent.str(0));
    let sub = parent.relative_fancy_slice(Bound::Included(2), Bound::Excluded(3));
    let abs = sub.absolute_fancy_slice(Bound::Unbounded, Bound::Excluded(2));
    assert_eq!(abs.u16_be(0), 0x1020);
    assert_eq!(sub.u8(0), 0x40);
    let after = (parent.offset(), parent.len(), parent.u8(1), parent.u16_be(1), parent.str(0));
    assert_eq!(before, after);
}

#[test]
fn relative_and_absolute_slices() {
    let data = vec![10, 11, 12, 13, 14, 15];
    let root = FancySlice::new(&data);
    let sub = root.relative_fancy_slice(Bound::Included(2), Bound::Excluded(5));
    assert_eq!(sub.relative_slice(Bound::Unbounded, Bound::Unbounded), &[12, 13, 14]);
    assert_eq!(sub.relative_slice(Bound::Included(1), Bound::Unbounded), &[13, 14]);
    assert_eq!(sub.relative_slice(Bound::Included(1), Bound::Included(1)), &[13]);
    assert_eq!(sub.relative_slice(Bound::Excluded(0), Bound::Excluded(1)), &[] as &[u8]);
    assert_eq!(sub.absolute_slice(Bound::Unbounded, Bound::Unbounded), &data[..]);
    assert_eq!(sub.absolute_slice(Bound::Included(1), Bound::Excluded(3)), &[11, 12]);
    assert_eq!(sub.absolute_slice(Bound::Included(4), Bound::Included(5)), &[14, 15]);
}

#[test]
fn debug_hex_and_ascii() {
    let data = vec![0x00, 0x48, 0x65, 0x78, 0x21, 0x7f, 0xff];
    let root = FancySlice::new(&data);
    let sub = root.relative_fancy_slice(Bound::Included(1), Bound::Excluded(6));
    assert_eq!(sub.hex(Bound::Unbounded, Bound::Unbounded), "4865 7821 7f");
    assert_eq!(sub.hex(Bound::Included(1), Bound::Excluded(3)), "6578");
    assert_eq!(sub.ascii(Bound::Unbounded, Bound::Unbounded), "Hex!.");
    assert_eq!(root.ascii(Bound::Unbounded, Bound::Included(1)), ".H");
    assert_eq!(root.hex(Bound::Included(6), Bound::Unbounded), "ff");
}

#[test]
fn find_u8_and_i8_scan_the_whole_buffer() {
    let data = vec![0xff, 1, 0xff, 3, 1, 0x80];
    let root = FancySlice::new(&data);
    let sub = root.relative_fancy_slice(Bound::Included(3), Bound::Excluded(4));
    assert_eq!(sub.find_u8(0xff), vec![0, 2]);
    assert_eq!(sub.find_u8(1), vec![1, 4]);
    assert_eq!(sub.find_u8(9), Vec::<usize>::new());
    assert_eq!(sub.find_i8(-1), vec![0, 2]);
    assert_eq!(sub.find_i8(-128), vec![5]);
    assert_eq!(sub.find_i8(1), vec![1, 4]);
    assert_eq!(sub.find_i8(127), Vec::<usize>::new());
}

#[test]
fn find_u16_and_i16_include_the_last_offset() {
    let data = vec![0xff, 0xfe, 0xff, 0xfe, 0x00, 0xff, 0xfe];
    let view = FancySlice::new(&data);
    assert_eq!(view.find_u16(0xfffe), vec![0, 2, 5]);
    assert_eq!(view.find_i16(-2), vec![0, 2, 5]);
    assert_eq!(view.find_u16(0xfeff), vec![1]);
    assert_eq!(view.find_i16(0x00ff), vec![4]);
    assert_eq!(view.find_u16(0x1234), Vec::<usize>::new());
    let short = vec![0xfe];
    assert_eq!(FancySlice::new(&short).find_u16(0xfe), Vec::<usize>::new());
    assert_eq!(FancySlice::new(&short).find_i16(0), Vec::<usize>::new());
}

#[test]
fn find_u32_returns_every_matching_offset_in_ascending_order() {
    let data = vec![0, 0, 0, 0, 0, 1, 0, 0, 0, 1];
    let view = FancySlice::new(&data);
    assert_eq!(view.find_u32(0), vec![0, 1]);
    assert_eq!(view.find_u32(1), vec![2, 6]);
    assert_eq!(view.find_u32(0x100), vec![3]);
    assert_eq!(view.find_u32(0x0001_0000), vec![4]);
    assert_eq!(view.find_u32(0x0100_0000), vec![5]);
    assert_eq!(view.find_u32(7), Vec::<usize>::new());
    let exact = vec![0xde, 0xad, 0xbe, 0xef];
    assert_eq!(FancySlice::new(&exact).find_u32(0xdead_beef), vec![0]);
    let short = vec![0, 0, 0];
    assert_eq!(FancySlice::new(&short).find_u32(0), Vec::<usize>::new());
    let empty: Vec<u8> = vec![];
    assert_eq!(FancySlice::new(&empty).find_u32(0), Vec::<usize>::new());
}

#[test]
fn find_u32_agrees_with_a_direct_scan() {
    let data: Vec<u8> = (0u32..64).map(|x| ((x * x) % 3) as u8).collect();
    let view = FancySlice::new(&data);
    for a in 0..=data.len() - 4 {
        let v = view.u32_be(a);
        let expected: Vec<usize> = (0..=data.len() - 4).filter(|&b| view.u32_be(b) == v).collect();
        assert_eq!(view.find_u32(v), expected);
        assert!(expected.contains(&a));
    }
}

#[test]
fn find_i32_reads_twos_complement() {
    let data = vec![0xff, 0xff, 0xff, 0xff, 0xfe, 0x80, 0x00, 0x00, 0x00];
    let view = FancySlice::new(&data);
    assert_eq!(view.find_i32(-1), vec![0]);
    assert_eq!(view.find_i32(-2), vec![1]);
    assert_eq!(view.find_i32(i32::MIN), vec![5]);
    assert_eq!(view.find_i32(5), Vec::<usize>::new());
}

#[test]
fn find_offset_pointers_finds_self_relative_pointers() {
    let data = vec![0, 0, 0, 8, 0, 0, 0, 4, 0, 0, 0, 0];
    let view = FancySlice::new(&data);
    assert_eq!(view.find_offset_pointers(8), vec![0, 4, 8]);
    assert_eq!(view.find_offset_pointers(0), Vec::<usize>::new());
    assert_eq!(view.find_offset_pointers(1), Vec::<usize>::new());
    assert_eq!(view.find_offset_pointers(0x400 + 5), vec![5]);
    assert_eq!(view.find_offset_pointers(usize::MAX), Vec::<usize>::new());
    let sub = view.relative_fancy_slice(Bound::Included(6), Bound::Unbounded);
    assert_eq!(sub.find_offset_pointers(8), vec![0, 4, 8]);
}

#[test]
fn pointer_search_results_hold_two_lists() {
    let data = vec![0, 0, 0, 4, 0, 0, 0, 0];
    let view = FancySlice::new(&data);
    let results = PointerSearchResults {
        absolute: view.find_u32(4),
        relative: view.find_offset_pointers(4),
    };
    assert_eq!(results.absolute, vec![0]);
    assert_eq!(results.relative, vec![0, 4]);
    assert_eq!(format!("{:?}", results), "PointerSearchResults { absolute: [0], relative: [0, 4] }");
}
