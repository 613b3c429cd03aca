use mosh::fragment::{
    Fragment, FragmentAssembly, FragmentError, Fragmenter, FRAG_HEADER_LEN,
};
use mosh::protobufs::transport::Instruction;

fn instruction(diff: &[u8]) -> Instruction {
    Instruction {
        protocol_version: Some(2),
        old_num: Some(1),
        new_num: Some(2),
        ack_num: Some(0),
        throwaway_num: Some(0),
        diff: Some(diff.to_vec()),
        chaff: Some(Vec::new()),
    }
}

#[test]
fn header_layout_is_ten_bytes_big_endian() {
    let f = Fragment::new(0x0102_0304_0506_0708, 3, true, b"body".to_vec());
    let bytes = f.to_bytes().unwrap();
    assert_eq!(&bytes[..8], &[1, 2, 3, 4, 5, 6, 7, 8]);
    // Final bit set, fragment number 3.
    assert_eq!(&bytes[8..10], &[0x80, 0x03]);
    assert_eq!(&bytes[10..], b"body");
}

#[test]
fn a_fragment_round_trips_through_its_wire_form() {
    for (num, is_final) in [(0u16, false), (1, true), (0x7fff, false), (0x7fff, true)] {
        let f = Fragment::new(42, num, is_final, b"contents".to_vec());
        let back = Fragment::from_bytes(&f.to_bytes().unwrap()).unwrap();
        assert_eq!(back, f);
    }
}

#[test]
fn a_short_datagram_is_rejected() {
    assert_eq!(
        Fragment::from_bytes(&[0; FRAG_HEADER_LEN - 1]),
        Err(FragmentError::TooShort)
    );
    // Exactly a header with no body is legitimate.
    assert!(Fragment::from_bytes(&[0; FRAG_HEADER_LEN]).is_ok());
}

#[test]
fn a_small_instruction_makes_one_final_fragment() {
    let mut f = Fragmenter::new();
    let frags = f.make_fragments(&instruction(b"hi"), 500).unwrap();
    assert_eq!(frags.len(), 1);
    assert!(frags[0].final_fragment);
    assert_eq!(frags[0].fragment_num, 0);
}

#[test]
fn a_large_instruction_is_split_and_reassembled() {
    let mut f = Fragmenter::new();
    // Random-ish content so it does not simply compress away.
    let big: Vec<u8> = (0..40_000u32)
        .map(|i| (i.wrapping_mul(2654435761) >> 24) as u8)
        .collect();
    let inst = instruction(&big);
    let frags = f.make_fragments(&inst, 500).unwrap();
    assert!(frags.len() > 1, "large instruction was not fragmented");
    assert!(frags.last().unwrap().final_fragment);
    assert!(frags[..frags.len() - 1].iter().all(|f| !f.final_fragment));

    let mut assembly = FragmentAssembly::new();
    let mut complete = false;
    for frag in frags {
        complete = assembly.add_fragment(frag);
    }
    assert!(complete);
    assert_eq!(assembly.get_assembly().unwrap(), inst);
}

#[test]
fn fragments_may_arrive_out_of_order() {
    let mut f = Fragmenter::new();
    let big: Vec<u8> = (0..40_000u32)
        .map(|i| (i.wrapping_mul(40503) >> 8) as u8)
        .collect();
    let inst = instruction(&big);
    let mut frags = f.make_fragments(&inst, 500).unwrap();
    frags.reverse();

    let mut assembly = FragmentAssembly::new();
    let mut complete = false;
    for frag in frags {
        complete = assembly.add_fragment(frag);
    }
    assert!(complete, "reversed fragments never completed");
    assert_eq!(assembly.get_assembly().unwrap(), inst);
}

#[test]
fn a_duplicated_fragment_is_ignored() {
    let mut f = Fragmenter::new();
    let big: Vec<u8> = (0..30_000u32)
        .map(|i| (i.wrapping_mul(2246822519) >> 16) as u8)
        .collect();
    let inst = instruction(&big);
    let frags = f.make_fragments(&inst, 500).unwrap();
    assert!(frags.len() > 2);

    let mut assembly = FragmentAssembly::new();
    let mut complete = false;
    for frag in &frags {
        // Deliver every fragment twice; the network is allowed to do this.
        assembly.add_fragment(frag.clone());
        complete = assembly.add_fragment(frag.clone());
    }
    assert!(complete);
    assert_eq!(assembly.get_assembly().unwrap(), inst);
}

#[test]
fn a_new_instruction_supersedes_a_partial_one() {
    let mut f = Fragmenter::new();
    let big: Vec<u8> = (0..30_000u32)
        .map(|i| (i.wrapping_mul(7919) >> 8) as u8)
        .collect();
    let first = f.make_fragments(&instruction(&big), 500).unwrap();

    let mut assembly = FragmentAssembly::new();
    assembly.add_fragment(first[0].clone()); // partial

    // A different instruction arrives; the incomplete one can never finish.
    let second_inst = Instruction {
        new_num: Some(99),
        ..instruction(b"small")
    };
    let second = f.make_fragments(&second_inst, 500).unwrap();
    assert_eq!(second.len(), 1);
    assert!(assembly.add_fragment(second[0].clone()));
    assert_eq!(assembly.get_assembly().unwrap(), second_inst);
}

#[test]
fn instruction_ids_advance_only_when_something_changed() {
    let mut f = Fragmenter::new();
    let inst = instruction(b"hi");
    let a = f.make_fragments(&inst, 500).unwrap()[0].id;
    // Resending the identical instruction must reuse the id, so the receiver treats
    // it as the same instruction rather than a new one.
    let b = f.make_fragments(&inst, 500).unwrap()[0].id;
    assert_eq!(a, b);

    let changed = Instruction {
        new_num: Some(3),
        ..inst
    };
    let c = f.make_fragments(&changed, 500).unwrap()[0].id;
    assert_ne!(b, c);
}

#[test]
fn changing_the_mtu_starts_a_new_instruction() {
    let mut f = Fragmenter::new();
    let inst = instruction(b"hi");
    let a = f.make_fragments(&inst, 500).unwrap()[0].id;
    // Fragment boundaries move, so the receiver must not mix the two.
    let b = f.make_fragments(&inst, 300).unwrap()[0].id;
    assert_ne!(a, b);
}

#[test]
fn a_corrupt_payload_is_reported_not_fatal() {
    let mut assembly = FragmentAssembly::new();
    assembly.add_fragment(Fragment::new(1, 0, true, b"not a zlib stream".to_vec()));
    assert_eq!(assembly.get_assembly(), Err(FragmentError::Malformed));
}

fn piece(id: u64, number: u16, last: bool) -> Fragment {
    Fragment::new(id, number, last, vec![number as u8])
}

#[test]
fn an_instruction_with_a_hole_is_not_complete() {
    let mut assembly = FragmentAssembly::new();
    assert!(!assembly.add_fragment(piece(1, 5, false)));
    // Two fragments of two have arrived, but they are not the right two.
    assert!(!assembly.add_fragment(piece(1, 1, true)));
    assert!(assembly.add_fragment(piece(1, 0, false)));
}

#[test]
fn fragments_past_the_final_one_are_ignored() {
    let mut assembly = FragmentAssembly::new();
    assert!(!assembly.add_fragment(piece(1, 2, true)));
    assert!(!assembly.add_fragment(piece(1, 3, false)));
    assert!(!assembly.add_fragment(piece(1, 7, true)));
    assert!(!assembly.add_fragment(piece(1, 1, false)));
    assert!(assembly.add_fragment(piece(1, 0, false)));
    // Neither a stray nor a duplicate undoes that.
    assert!(assembly.add_fragment(piece(1, 9, false)));
    assert!(assembly.add_fragment(piece(1, 1, false)));
}

#[test]
fn the_lowest_final_fragment_ends_the_instruction() {
    let mut assembly = FragmentAssembly::new();
    assert!(!assembly.add_fragment(piece(1, 4, true)));
    assert!(!assembly.add_fragment(piece(1, 1, true)));
    assert!(assembly.add_fragment(piece(1, 0, false)));
    // Of several with one number the first counts.
    let mut assembly = FragmentAssembly::new();
    assert!(!assembly.add_fragment(piece(1, 0, false)));
    assert!(!assembly.add_fragment(piece(1, 0, true)));
    assert!(assembly.add_fragment(piece(1, 1, true)));
    // Another instruction discards what was collected.
    assert!(!assembly.add_fragment(piece(2, 1, true)));
    assert!(!assembly.add_fragment(piece(1, 1, true)));
}

#[test]
fn what_is_read_as_a_fragment_is_written_the_same() {
    let wire = [0u8, 1, 2, 3, 4, 5, 6, 7, 0x80, 9, b'x', b'y'];
    let frag = Fragment::from_bytes(&wire).unwrap();
    assert_eq!(frag.to_bytes().unwrap(), wire);
}
