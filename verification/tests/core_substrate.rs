use enginecore::evaluation::Evaluation;
use enginecore::hashtable::HashTable;
use enginecore::position::Move;
use enginecore::position::PieceType;
use enginecore::position::Position;

#[test]
fn from_raw_to_raw_round_trip() {
    for v in [i16::MIN + 1, -30_000, -1, 0, 1, 777, 30_000, 32_762, i16::MAX] {
        assert_eq!(Evaluation::from_raw(v).to_raw(), v);
    }
}

#[test]
fn ordering_matches_raw_values() {
    assert!(Evaluation::from_raw(-5) < Evaluation::from_raw(3));
    assert!(Evaluation::from_raw(100) < Evaluation::from_raw(200));
    // a forced win outranks every material score of the winning side's sign
    assert!(Evaluation::from_raw(30_000) < Evaluation::from_raw(30_001));
    // a nearer mate (value closer to i16::MAX) outranks a farther one
    assert!(Evaluation::from_raw(32_762) < Evaluation::from_raw(32_767));
    // and symmetrically for the losing side
    assert!(Evaluation::from_raw(-32_767) < Evaluation::from_raw(-32_762));
    assert!(Evaluation::from_raw(-32_762) < Evaluation::from_raw(-30_001));
    assert_eq!(Evaluation::from_raw(17), Evaluation::from_raw(17));
}

#[test]
fn render_material_scores() {
    assert_eq!(Evaluation::from_raw(0).render(), "0");
    assert_eq!(Evaluation::from_raw(30_000).render(), "30000");
    assert_eq!(Evaluation::from_raw(-30_000).render(), "-30000");
    assert_eq!(Evaluation::from_raw(-123).render(), "-123");
    assert_eq!(Evaluation::from_raw(9).render(), "9");
}

#[test]
fn render_mate_scores() {
    assert_eq!(Evaluation::from_raw(32_767).render(), "M0");
    assert_eq!(Evaluation::from_raw(32_762).render(), "M5");
    assert_eq!(Evaluation::from_raw(-32_762).render(), "M-5");
    assert_eq!(Evaluation::from_raw(-32_767).render(), "M0");
    assert_eq!(Evaluation::from_raw(30_001).render(), "M2766");
}

#[test]
fn cache_round_trip() {
    // bucket_count = 4 (order 2), bucket_size = 2
    let mut table = HashTable::new(2, 2);
    let hash: u64 = (0xABCD_u64 << 48) | 0x3;
    let score = Evaluation::from_raw(777);
    table.insert_eval(hash, score);
    assert_eq!(table.get_eval(hash), Some(score));
}

#[test]
fn cache_misses_when_fresh() {
    let table = HashTable::new(2, 2);
    assert_eq!(table.get_eval(0), None);
    assert_eq!(table.get_eval(u64::MAX), None);
}

#[test]
fn cache_tag_mismatch_misses() {
    let mut table = HashTable::new(2, 2);
    // same bucket (low bits 1), different top-16-bit tags
    table.insert_eval((7_u64 << 48) | 1, Evaluation::from_raw(42));
    assert_eq!(table.get_eval((8_u64 << 48) | 1), None);
}

#[test]
fn cache_zero_tag_round_trip() {
    // a hash whose top 16 bits are zero still round-trips: an empty slot is
    // never mistaken for an entry with tag zero
    let mut table = HashTable::new(2, 2);
    let hash: u64 = 2;
    assert_eq!(table.get_eval(hash), None);
    table.insert_eval(hash, Evaluation::from_raw(-7));
    assert_eq!(table.get_eval(hash), Some(Evaluation::from_raw(-7)));
}

#[test]
fn cache_clear_empties_every_slot() {
    let mut table = HashTable::new(2, 2);
    let hashes = [(1_u64 << 48) | 0, (2_u64 << 48) | 1, (3_u64 << 48) | 2];
    for (i, h) in hashes.iter().enumerate() {
        table.insert_eval(*h, Evaluation::from_raw(i as i16 + 1));
    }
    table.clear();
    for h in hashes {
        assert_eq!(table.get_eval(h), None);
    }
}

#[test]
fn cache_overflow_drops_the_excess_insert() {
    // bucket_size = 2: a third distinct tag in the same bucket is dropped
    let mut table = HashTable::new(2, 2);
    let h1 = (1_u64 << 48) | 0;
    let h2 = (2_u64 << 48) | 0;
    let h3 = (3_u64 << 48) | 0;
    table.insert_eval(h1, Evaluation::from_raw(10));
    table.insert_eval(h2, Evaluation::from_raw(20));
    table.insert_eval(h3, Evaluation::from_raw(30));
    assert_eq!(table.get_eval(h1), Some(Evaluation::from_raw(10)));
    assert_eq!(table.get_eval(h2), Some(Evaluation::from_raw(20)));
    assert_eq!(table.get_eval(h3), None);
}

#[test]
fn cache_with_empty_buckets_never_stores() {
    // a degenerate table whose buckets hold no slots drops every insert
    let mut table = HashTable::new(0, 0);
    table.insert_eval(5, Evaluation::from_raw(1));
    assert_eq!(table.get_eval(5), None);
}

#[test]
fn cache_aliasing_same_bucket_and_tag() {
    // h1 != h2 but identical low-order bits and identical top-16-bit tag:
    // tag-only verification yields the expected false positive
    let mut table = HashTable::new(2, 2);
    let h1 = (5_u64 << 48) | 0;
    let h2 = (5_u64 << 48) | 4;
    let score = Evaluation::from_raw(-250);
    table.insert_eval(h2, score);
    assert_eq!(table.get_eval(h1), Some(score));
}

fn assert_pairwise_disjoint(p: &Position) {
    for i in 0..12 {
        for j in 0..12 {
            if i != j {
                assert_eq!(p.piece_boards[i] & p.piece_boards[j], 0);
            }
        }
    }
}

fn assert_unions_match(p: &Position) {
    let white = p.piece_boards[0] | p.piece_boards[1] | p.piece_boards[2] | p.piece_boards[3]
        | p.piece_boards[4] | p.piece_boards[5];
    let black = p.piece_boards[6] | p.piece_boards[7] | p.piece_boards[8] | p.piece_boards[9]
        | p.piece_boards[10] | p.piece_boards[11];
    assert_eq!(p.occupancy[0], white);
    assert_eq!(p.occupancy[1], black);
}

#[test]
fn quiet_pawn_move_and_unmake() {
    // a lone white pawn on e2 (square 12) moves to e4 (square 28)
    let e2: u64 = 1 << 12;
    let e4: u64 = 1 << 28;
    let mut boards = vec![0u64; 12];
    boards[5] = e2;
    let mut p = Position::new(boards, 42, 10, 0);
    let m = Move {
        moved_piece: PieceType::WhitePawn,
        captured_piece: PieceType::BlackPawn,
        move_mask: e2 | e4,
        captured_mask: 0,
    };
    p.make_move(m);
    assert_eq!(p.piece_boards[5], e4);
    assert_eq!(p.occupancy[0], e4);
    assert_eq!(p.occupancy[1], 0);
    for i in 0..12 {
        if i != 5 {
            assert_eq!(p.piece_boards[i], 0);
        }
    }
    assert_unions_match(&p);
    assert_pairwise_disjoint(&p);
    p.unmake_move(m);
    assert_eq!(p.piece_boards[5], e2);
    assert_eq!(p.occupancy[0], e2);
    assert_eq!(p.occupancy[1], 0);
}

#[test]
fn capture_round_trip_restores_every_mask() {
    // a white rook on a1 (square 0) takes a black pawn on a7 (square 48)
    let a1: u64 = 1 << 0;
    let a7: u64 = 1 << 48;
    let e8: u64 = 1 << 60;
    let mut boards = vec![0u64; 12];
    boards[2] = a1; // white rook
    boards[11] = a7; // black pawn
    boards[6] = e8; // black king, a bystander
    let mut p = Position::new(boards.clone(), 7, -30, 3);
    let m = Move {
        moved_piece: PieceType::WhiteRook,
        captured_piece: PieceType::BlackPawn,
        move_mask: a1 | a7,
        captured_mask: a7,
    };
    p.make_move(m);
    assert_eq!(p.piece_boards[2], a7);
    assert_eq!(p.piece_boards[11], 0);
    assert_eq!(p.piece_boards[6], e8);
    assert_eq!(p.occupancy[0], a7);
    assert_eq!(p.occupancy[1], e8);
    assert_unions_match(&p);
    assert_pairwise_disjoint(&p);
    p.unmake_move(m);
    for i in 0..12 {
        assert_eq!(p.piece_boards[i], boards[i]);
    }
    assert_eq!(p.occupancy[0], a1);
    assert_eq!(p.occupancy[1], a7 | e8);
    assert_eq!(p.hash(), 7);
    assert_eq!(p.evaluation().to_raw(), -30);
    assert_eq!(p.position_flags, 3);
}

#[test]
fn evaluation_and_hash_read_back() {
    let p = Position::new(vec![0u64; 12], 0xDEAD_BEEF, 250, 0);
    assert_eq!(p.hash(), 0xDEAD_BEEF);
    assert_eq!(p.evaluation().to_raw(), 250);
    assert_eq!(p.evaluation(), Evaluation::from_raw(250));
}
