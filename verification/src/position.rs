//! A bitboard position model: twelve disjoint 64-bit piece masks (one per
//! side and piece kind), two per-side union masks, a 64-bit hash, a cached
//! material score and a flags word. A move is a reversible XOR bit-diff:
//! applying its captured mask and its move mask toggles exactly the affected
//! bits, and applying the same diff again restores the prior state, so one
//! primitive serves both making and unmaking a move.

use vstd::prelude::*;

use crate::evaluation::Evaluation;

verus! {

#[derive(Clone, Copy, PartialEq, Eq, Structural, Debug)]
pub enum PieceType {
    WhiteKing,
    WhiteQueen,
    WhiteRook,
    WhiteBishop,
    WhiteKnight,
    WhitePawn,
    BlackKing,
    BlackQueen,
    BlackRook,
    BlackBishop,
    BlackKnight,
    BlackPawn,
}

/// The slot of a piece kind in the board array.
pub open spec fn spec_piece_index(piece: PieceType) -> int {
    match piece {
        PieceType::WhiteKing => 0,
        PieceType::WhiteQueen => 1,
        PieceType::WhiteRook => 2,
        PieceType::WhiteBishop => 3,
        PieceType::WhiteKnight => 4,
        PieceType::WhitePawn => 5,
        PieceType::BlackKing => 6,
        PieceType::BlackQueen => 7,
        PieceType::BlackRook => 8,
        PieceType::BlackBishop => 9,
        PieceType::BlackKnight => 10,
        PieceType::BlackPawn => 11,
    }
}

/// The side a piece kind belongs to: 0 for the first six slots, 1 for the
/// other six.
pub open spec fn spec_side_index(piece: PieceType) -> int {
    spec_piece_index(piece) / 6
}

/// Maps a piece kind to its slot in the board array.
pub fn piece_index(piece: PieceType) -> (i: usize)
    ensures
        i == spec_piece_index(piece),
{
    match piece {
        PieceType::WhiteKing => 0,
        PieceType::WhiteQueen => 1,
        PieceType::WhiteRook => 2,
        PieceType::WhiteBishop => 3,
        PieceType::WhiteKnight => 4,
        PieceType::WhitePawn => 5,
        PieceType::BlackKing => 6,
        PieceType::BlackQueen => 7,
        PieceType::BlackRook => 8,
        PieceType::BlackBishop => 9,
        PieceType::BlackKnight => 10,
        PieceType::BlackPawn => 11,
    }
}

/// Maps a piece kind to the slot of its side's union mask.
pub fn side_index(piece: PieceType) -> (s: usize)
    ensures
        s == spec_side_index(piece),
{
    piece_index(piece) / 6
}

/// A reversible move diff: the moved piece kind with the two bits (source
/// and destination) to toggle in its mask, and the captured piece kind with
/// the bits to toggle off its mask — a zero captured mask encodes "no
/// capture", and capturing and non-capturing moves share one code path.
#[derive(Clone, Copy, Debug)]
pub struct Move {
    pub moved_piece: PieceType,
    pub captured_piece: PieceType,
    pub move_mask: u64,
    pub captured_mask: u64,
}

pub struct Position {
    /// The twelve piece masks, indexed by `spec_piece_index`.
    pub piece_boards: Vec<u64>,
    /// The two per-side union masks, indexed by `spec_side_index`.
    pub occupancy: Vec<u64>,
    /// A hash probabilistically identifying the position for cache lookup.
    /// Keeping it in step with the piece masks is the move generator's
    /// responsibility; move application does not touch it.
    pub hash: u64,
    /// The cached material score, kept inside the centipawn range by the
    /// evaluation source.
    pub centipawn_evaluation: i16,
    /// Side to move, castling rights and en-passant target, in a layout the
    /// move generator defines; opaque at this layer.
    pub position_flags: u16,
}

/// The bitwise union of a sequence of masks.
pub open spec fn union64(s: Seq<u64>) -> u64
    decreases s.len(),
{
    if s.len() <= 0 {
        0u64
    } else {
        s[0] | union64(s.drop_first())
    }
}

/// No two masks of the sequence share a set bit.
pub open spec fn boards_disjoint(b: Seq<u64>) -> bool {
    forall|i: int, j: int| 0 <= i < j < b.len() ==> (#[trigger] (b[i] & b[j])) == 0
}

/// One application of a move's XOR diff to a sequence of masks: toggle the
/// captured bits in slot `ci`, then the move bits in slot `pi`.
pub open spec fn apply_xor_diff(s: Seq<u64>, ci: int, pi: int, cap: u64, mov: u64) -> Seq<u64> {
    let s1 = s.update(ci, s[ci] ^ cap);
    s1.update(pi, s1[pi] ^ mov)
}

/// The piece masks after applying `m`.
pub open spec fn apply_move_boards(b: Seq<u64>, m: Move) -> Seq<u64> {
    apply_xor_diff(
        b,
        spec_piece_index(m.captured_piece),
        spec_piece_index(m.moved_piece),
        m.captured_mask,
        m.move_mask,
    )
}

/// The union masks after applying `m`.
pub open spec fn apply_move_occupancy(o: Seq<u64>, m: Move) -> Seq<u64> {
    apply_xor_diff(
        o,
        spec_side_index(m.captured_piece),
        spec_side_index(m.moved_piece),
        m.captured_mask,
        m.move_mask,
    )
}

/// The disjointness precondition on a move, owned by the move generator: the
/// captured bits are present in the captured piece's mask, a capture takes a
/// piece of the other side, and the destination bits of the move mask land
/// on squares left unoccupied once the captured bits are gone.
pub open spec fn move_ok(b: Seq<u64>, o: Seq<u64>, m: Move) -> bool {
    let p = spec_piece_index(m.moved_piece);
    let c = spec_piece_index(m.captured_piece);
    &&& m.captured_mask & b[c] == m.captured_mask
    &&& (m.captured_mask != 0 ==> spec_side_index(m.captured_piece) != spec_side_index(
        m.moved_piece,
    ))
    &&& ((m.move_mask & !b[p]) & ((o[0] | o[1]) & !m.captured_mask)) == 0
}

impl Position {
    /// The structural invariant: twelve piece masks, two union masks, the
    /// piece masks pairwise disjoint, each union mask the union of its
    /// side's six piece masks, and the cached score inside the centipawn
    /// range.
    pub open spec fn wf(self) -> bool {
        &&& self.piece_boards@.len() == 12
        &&& self.occupancy@.len() == 2
        &&& boards_disjoint(self.piece_boards@)
        &&& self.occupancy@[0] == union64(self.piece_boards@.subrange(0, 6))
        &&& self.occupancy@[1] == union64(self.piece_boards@.subrange(6, 12))
        &&& Evaluation::MIN_CENTIPAWN_EVALUATION <= self.centipawn_evaluation
            <= Evaluation::MAX_CENTIPAWN_EVALUATION
    }

    /// Builds a position from twelve disjoint piece masks, deriving the two
    /// union masks.
    pub fn new(
        piece_boards: Vec<u64>,
        hash: u64,
        centipawn_evaluation: i16,
        position_flags: u16,
    ) -> (p: Self)
        requires
            piece_boards@.len() == 12,
            boards_disjoint(piece_boards@),
            Evaluation::MIN_CENTIPAWN_EVALUATION <= centipawn_evaluation
                <= Evaluation::MAX_CENTIPAWN_EVALUATION,
        ensures
            p.wf(),
            p.piece_boards@ == piece_boards@,
            p.hash == hash,
            p.centipawn_evaluation == centipawn_evaluation,
            p.position_flags == position_flags,
    {
        let white: u64 = piece_boards[0] | (piece_boards[1] | (piece_boards[2] | (piece_boards[3]
            | (piece_boards[4] | (piece_boards[5] | 0u64)))));
        let black: u64 = piece_boards[6] | (piece_boards[7] | (piece_boards[8] | (piece_boards[9]
            | (piece_boards[10] | (piece_boards[11] | 0u64)))));
        proof {
            lemma_union64_six(piece_boards@.subrange(0, 6));
            lemma_union64_six(piece_boards@.subrange(6, 12));
        }
        let mut occupancy: Vec<u64> = Vec::new();
        occupancy.push(white);
        occupancy.push(black);
        Self { piece_boards, occupancy, hash, centipawn_evaluation, position_flags }
    }

    /// The cached material score; by contract the field never holds a
    /// forced-outcome value.
    pub fn evaluation(&self) -> (e: Evaluation)
        requires
            Evaluation::MIN_CENTIPAWN_EVALUATION <= self.centipawn_evaluation
                <= Evaluation::MAX_CENTIPAWN_EVALUATION,
        ensures
            e.spec_raw() == self.centipawn_evaluation,
            e.valid(),
    {
        Evaluation::from_raw(self.centipawn_evaluation)
    }

    /// The stored 64-bit hash, as is.
    pub fn hash(&self) -> (h: u64)
        ensures
            h == self.hash,
    {
        self.hash
    }

    /// Applies the move's XOR diff: toggles the captured bits off the
    /// captured piece's mask and its side's union mask, then toggles the
    /// move bits in the moved piece's mask and its side's union mask. The
    /// invariant is preserved for every move meeting `move_ok`.
    pub fn make_move(&mut self, move_to_make: Move)
        requires
            old(self).wf(),
            move_ok(old(self).piece_boards@, old(self).occupancy@, move_to_make),
        ensures
            final(self).wf(),
            final(self).piece_boards@ == apply_move_boards(
                old(self).piece_boards@,
                move_to_make,
            ),
            final(self).occupancy@ == apply_move_occupancy(old(self).occupancy@, move_to_make),
            final(self).hash == old(self).hash,
            final(self).centipawn_evaluation == old(self).centipawn_evaluation,
            final(self).position_flags == old(self).position_flags,
    {
        proof {
            lemma_piece_index_bounds(move_to_make.captured_piece);
            lemma_piece_index_bounds(move_to_make.moved_piece);
        }
        // remove the captured piece; a zero mask makes both toggles no-ops
        let c: usize = piece_index(move_to_make.captured_piece);
        let sc: usize = side_index(move_to_make.captured_piece);
        let bc: u64 = self.piece_boards[c] ^ move_to_make.captured_mask;
        self.piece_boards.set(c, bc);
        let oc: u64 = self.occupancy[sc] ^ move_to_make.captured_mask;
        self.occupancy.set(sc, oc);
        // move source to destination
        let p: usize = piece_index(move_to_make.moved_piece);
        let sp: usize = side_index(move_to_make.moved_piece);
        let bp: u64 = self.piece_boards[p] ^ move_to_make.move_mask;
        self.piece_boards.set(p, bp);
        let op: u64 = self.occupancy[sp] ^ move_to_make.move_mask;
        self.occupancy.set(sp, op);
        proof {
            lemma_move_preserves_invariant(
                old(self).piece_boards@,
                old(self).occupancy@,
                move_to_make,
            );
        }
    }

    /// Applies the identical XOR diff in the reverse order; because
    /// exclusive-or is self-inverse, unmaking the move just made restores
    /// the prior state bit for bit (see `lemma_make_unmake_restores`).
    pub fn unmake_move(&mut self, move_to_unmake: Move)
        requires
            old(self).wf(),
        ensures
            final(self).piece_boards@ == apply_move_boards(
                old(self).piece_boards@,
                move_to_unmake,
            ),
            final(self).occupancy@ == apply_move_occupancy(old(self).occupancy@, move_to_unmake),
            final(self).hash == old(self).hash,
            final(self).centipawn_evaluation == old(self).centipawn_evaluation,
            final(self).position_flags == old(self).position_flags,
    {
        proof {
            lemma_piece_index_bounds(move_to_unmake.captured_piece);
            lemma_piece_index_bounds(move_to_unmake.moved_piece);
        }
        // move destination back to source
        let p: usize = piece_index(move_to_unmake.moved_piece);
        let sp: usize = side_index(move_to_unmake.moved_piece);
        let bp: u64 = self.piece_boards[p] ^ move_to_unmake.move_mask;
        self.piece_boards.set(p, bp);
        let op: u64 = self.occupancy[sp] ^ move_to_unmake.move_mask;
        self.occupancy.set(sp, op);
        // restore the captured piece
        let c: usize = piece_index(move_to_unmake.captured_piece);
        let sc: usize = side_index(move_to_unmake.captured_piece);
        let bc: u64 = self.piece_boards[c] ^ move_to_unmake.captured_mask;
        self.piece_boards.set(c, bc);
        let oc: u64 = self.occupancy[sc] ^ move_to_unmake.captured_mask;
        self.occupancy.set(sc, oc);
        proof {
            lemma_xor_diff_order(
                old(self).piece_boards@,
                spec_piece_index(move_to_unmake.captured_piece),
                spec_piece_index(move_to_unmake.moved_piece),
                move_to_unmake.captured_mask,
                move_to_unmake.move_mask,
            );
            lemma_xor_diff_order(
                old(self).occupancy@,
                spec_side_index(move_to_unmake.captured_piece),
                spec_side_index(move_to_unmake.moved_piece),
                move_to_unmake.captured_mask,
                move_to_unmake.move_mask,
            );
        }
    }
}

/// Every piece kind's slot lies in the board array.
pub proof fn lemma_piece_index_bounds(piece: PieceType)
    ensures
        0 <= spec_piece_index(piece) < 12,
        0 <= spec_side_index(piece) <= 1,
        spec_piece_index(piece) < 6 ==> spec_side_index(piece) == 0,
        spec_piece_index(piece) >= 6 ==> spec_side_index(piece) == 1,
{
}

/// Unfolds the union of a six-element sequence.
proof fn lemma_union64_six(s: Seq<u64>)
    requires
        s.len() == 6,
    ensures
        union64(s) == (s[0] | (s[1] | (s[2] | (s[3] | (s[4] | (s[5] | 0u64)))))),
{
    reveal_with_fuel(union64, 8);
    assert(s.drop_first().drop_first().drop_first().drop_first().drop_first().drop_first().len()
        == 0);
}

/// A member mask lies inside the union.
proof fn lemma_union64_member(s: Seq<u64>, i: int)
    requires
        0 <= i < s.len(),
    ensures
        (s[i] & !union64(s)) == 0,
    decreases s.len(),
{
    let x = s[i];
    let r = union64(s.drop_first());
    let h = s[0];
    if i == 0 {
        assert((x & !(x | r)) == 0) by (bit_vector);
    } else {
        lemma_union64_member(s.drop_first(), i - 1);
        assert(s.drop_first()[i - 1] == s[i]);
        assert((x & !(h | r)) == 0) by (bit_vector)
            requires
                (x & !r) == 0,
        ;
    }
}

/// A mask disjoint from every member is disjoint from the union.
proof fn lemma_union64_disjoint(s: Seq<u64>, m: u64)
    requires
        forall|j: int| 0 <= j < s.len() ==> (#[trigger] s[j]) & m == 0,
    ensures
        union64(s) & m == 0,
    decreases s.len(),
{
    if s.len() == 0 {
        assert(0u64 & m == 0) by (bit_vector);
    } else {
        assert(forall|j: int| 0 <= j < s.drop_first().len() ==> (#[trigger] s.drop_first()[j]) & m
            == 0);
        lemma_union64_disjoint(s.drop_first(), m);
        let h = s[0];
        let r = union64(s.drop_first());
        assert(((h | r) & m) == 0) by (bit_vector)
            requires
                h & m == 0,
                r & m == 0,
        ;
    }
}

/// Toggling bits in one member whose bits touch no other member toggles the
/// same bits in the union.
proof fn lemma_union64_update(s: Seq<u64>, k: int, m: u64)
    requires
        0 <= k < s.len(),
        forall|j: int| 0 <= j < s.len() && j != k ==> (#[trigger] s[j]) & m == 0,
    ensures
        union64(s.update(k, s[k] ^ m)) == union64(s) ^ m,
    decreases s.len(),
{
    let h = s[0];
    let r = union64(s.drop_first());
    if k == 0 {
        assert(s.update(0, s[0] ^ m).drop_first() =~= s.drop_first());
        lemma_union64_disjoint(s.drop_first(), m);
        assert((((h ^ m) | r)) == ((h | r) ^ m)) by (bit_vector)
            requires
                r & m == 0,
        ;
    } else {
        assert(s.update(k, s[k] ^ m).drop_first() =~= s.drop_first().update(k - 1, s[k] ^ m));
        assert(s.drop_first()[k - 1] == s[k]);
        lemma_union64_update(s.drop_first(), k - 1, m);
        let r2 = union64(s.drop_first().update(k - 1, s[k] ^ m));
        assert((h | (r ^ m)) == ((h | r) ^ m)) by (bit_vector)
            requires
                h & m == 0,
        ;
    }
}

/// Bit facts about a move mask against a mask it must not touch.
proof fn bv_mov_other(bp: u64, bj: u64, mov: u64, cap: u64, oall: u64)
    requires
        bp & bj == 0,
        (mov & !bp) & (oall & !cap) == 0,
        bj & !oall == 0,
        bj & cap == 0,
    ensures
        bj & mov == 0,
        (bp ^ mov) & bj == 0,
        bj & (bp ^ mov) == 0,
{
    assert(bj & mov == 0 && (bp ^ mov) & bj == 0 && bj & (bp ^ mov) == 0) by (bit_vector)
        requires
            bp & bj == 0,
            (mov & !bp) & (oall & !cap) == 0,
            bj & !oall == 0,
            bj & cap == 0,
    ;
}

/// Bit facts about a captured mask against the other masks.
proof fn bv_cap_other(bc: u64, cap: u64, bj: u64)
    requires
        cap & bc == cap,
        bc & bj == 0,
    ensures
        bj & cap == 0,
        (bc ^ cap) & bj == 0,
        bj & (bc ^ cap) == 0,
{
    assert(bj & cap == 0 && (bc ^ cap) & bj == 0 && bj & (bc ^ cap) == 0) by (bit_vector)
        requires
            cap & bc == cap,
            bc & bj == 0,
    ;
}

/// The moved piece's new mask is disjoint from the captured piece's new mask.
proof fn bv_moved_vs_captured(bp: u64, bc: u64, mov: u64, cap: u64, oall: u64)
    requires
        bp & bc == 0,
        cap & bc == cap,
        (mov & !bp) & (oall & !cap) == 0,
        bc & !oall == 0,
    ensures
        (bp ^ mov) & (bc ^ cap) == 0,
        (bc ^ cap) & (bp ^ mov) == 0,
        (bc ^ cap) & mov == 0,
{
    assert((bp ^ mov) & (bc ^ cap) == 0 && (bc ^ cap) & (bp ^ mov) == 0 && (bc ^ cap) & mov
        == 0) by (bit_vector)
        requires
            bp & bc == 0,
            cap & bc == cap,
            (mov & !bp) & (oall & !cap) == 0,
            bc & !oall == 0,
    ;
}

/// Law: applying a move's XOR diff preserves the position invariant — the
/// twelve piece masks stay pairwise disjoint and each side's union mask
/// stays the union of its six piece masks — for every move meeting
/// `move_ok`.
pub proof fn lemma_move_preserves_invariant(b: Seq<u64>, o: Seq<u64>, m: Move)
    requires
        b.len() == 12,
        o.len() == 2,
        boards_disjoint(b),
        o[0] == union64(b.subrange(0, 6)),
        o[1] == union64(b.subrange(6, 12)),
        move_ok(b, o, m),
    ensures
        apply_move_boards(b, m).len() == 12,
        apply_move_occupancy(o, m).len() == 2,
        boards_disjoint(apply_move_boards(b, m)),
        apply_move_occupancy(o, m)[0] == union64(apply_move_boards(b, m).subrange(0, 6)),
        apply_move_occupancy(o, m)[1] == union64(apply_move_boards(b, m).subrange(6, 12)),
{
    lemma_piece_index_bounds(m.moved_piece);
    lemma_piece_index_bounds(m.captured_piece);
    let p = spec_piece_index(m.moved_piece);
    let c = spec_piece_index(m.captured_piece);
    let sp = spec_side_index(m.moved_piece);
    let sc = spec_side_index(m.captured_piece);
    let mov = m.move_mask;
    let cap = m.captured_mask;
    let oall = o[0] | o[1];
    let b2 = apply_move_boards(b, m);
    let o2 = apply_move_occupancy(o, m);

    if p == c {
        // a capture always takes the other side's piece, so here cap == 0
        assert(cap == 0);
        let x = b[p];
        assert(x ^ 0u64 == x && (x ^ 0u64) ^ mov == x ^ mov) by (bit_vector);
    }
    assert(b2[p] == b[p] ^ mov);
    assert(forall|t: int| 0 <= t < 12 && t != p && t != c ==> b2[t] == b[t]);

    // disjointness, in both orders
    assert forall|i: int, j: int|
        0 <= i < 12 && 0 <= j < 12 && i != j implies (#[trigger] (b[i] & b[j])) == 0 by {
        if j < i {
            let x = b[i];
            let y = b[j];
            assert(x & y == 0) by (bit_vector)
                requires
                    y & x == 0,
            ;
        }
    }

    // every piece mask lies inside the overall occupancy
    assert forall|j: int| 0 <= j < 12 implies (#[trigger] b[j]) & !oall == 0 by {
        let x = b[j];
        if j < 6 {
            lemma_union64_member(b.subrange(0, 6), j);
            let u = o[0];
            let v = o[1];
            assert(x & !(u | v) == 0) by (bit_vector)
                requires
                    x & !u == 0,
            ;
        } else {
            lemma_union64_member(b.subrange(6, 12), j - 6);
            let u = o[1];
            let v = o[0];
            assert(x & !(v | u) == 0) by (bit_vector)
                requires
                    x & !u == 0,
            ;
        }
    }

    // a mask other than the captured one shares no bit with the captured mask
    assert forall|j: int| 0 <= j < 12 && j != c implies (#[trigger] b[j]) & cap == 0 by {
        bv_cap_other(b[c], cap, b[j]);
    }
    if cap == 0 {
        assert forall|j: int| 0 <= j < 12 implies (#[trigger] b[j]) & cap == 0 by {
            let x = b[j];
            assert(x & 0u64 == 0) by (bit_vector);
        }
        assert forall|j: int| 0 <= j < 12 implies (#[trigger] b[j]) ^ cap == b[j] by {
            let x = b[j];
            assert(x ^ 0u64 == x) by (bit_vector);
        }
    }

    // a mask other than the moved and captured ones shares no bit with the
    // move mask; with no capture this holds for every mask but the moved one
    assert forall|j: int| 0 <= j < 12 && j != p && (j != c || cap == 0) implies (#[trigger] b[j])
        & mov == 0 by {
        bv_mov_other(b[p], b[j], mov, cap, oall);
    }

    // pairwise disjointness is preserved
    assert forall|i: int, j: int| 0 <= i < j < 12 implies (#[trigger] (b2[i] & b2[j])) == 0 by {
        if i != p && i != c && j != p && j != c {
            assert(b[i] & b[j] == 0);
        } else if p != c && cap != 0 && (i == p || j == p) && (i == c || j == c) {
            bv_moved_vs_captured(b[p], b[c], mov, cap, oall);
        } else if i == p || j == p {
            let t = if i == p { j } else { i };
            bv_mov_other(b[p], b[t], mov, cap, oall);
        } else {
            let t = if i == c { j } else { i };
            bv_cap_other(b[c], cap, b[t]);
            let x = b2[i];
            let y = b2[j];
            if cap == 0 {
                let w = b[c];
                assert(w ^ 0u64 == w) by (bit_vector);
            }
        }
    }

    // each side's union mask is kept in step
    if cap == 0 {
        let u = o[sc];
        let w = b[c];
        assert(u ^ 0u64 == u && w ^ 0u64 == w) by (bit_vector);
        assert(o.update(sc, o[sc] ^ cap) =~= o);
        assert(b.update(c, b[c] ^ cap) =~= b);
        assert(o2 =~= o.update(sp, o[sp] ^ mov));
        assert(b2 =~= b.update(p, b[p] ^ mov));
        lemma_side_union_update(b, o, p, sp, mov);
        let q = 1 - sp;
        assert(b2.subrange(6 * q, 6 * q + 6) =~= b.subrange(6 * q, 6 * q + 6));
    } else {
        assert(sc != sp && p != c);
        assert(o2[sp] == o[sp] ^ mov);
        assert(o2[sc] == o[sc] ^ cap);
        let bmid = b.update(c, b[c] ^ cap);
        assert(bmid.subrange(6 * sp, 6 * sp + 6) =~= b.subrange(6 * sp, 6 * sp + 6));
        bv_moved_vs_captured(b[p], b[c], mov, cap, oall);
        assert forall|j: int| 0 <= j < 12 && j != p implies (#[trigger] bmid[j]) & mov == 0 by {
            if j != c {
                assert(b[j] & mov == 0);
            }
        }
        lemma_side_union_update(bmid, o, p, sp, mov);
        assert(b2 =~= bmid.update(p, bmid[p] ^ mov));
        assert(bmid[p] == b[p]);
        // the captured side's union loses exactly the captured bits
        let ssc = b.subrange(6 * sc, 6 * sc + 6);
        assert forall|t: int| 0 <= t < 6 && t != c - 6 * sc implies (#[trigger] ssc[t]) & cap
            == 0 by {
            assert(ssc[t] == b[6 * sc + t]);
        }
        lemma_union64_update(ssc, c - 6 * sc, cap);
        assert(b2.subrange(6 * sc, 6 * sc + 6) =~= ssc.update(c - 6 * sc, b[c] ^ cap));
    }
}

/// Toggling the move mask in the moved piece's slot toggles it in that
/// side's union; helper over a board sequence whose captured-diff has
/// already been folded in or is a no-op.
proof fn lemma_side_union_update(b: Seq<u64>, o: Seq<u64>, p: int, sp: int, mov: u64)
    requires
        b.len() == 12,
        o.len() == 2,
        0 <= p < 12,
        sp == p / 6,
        o[sp] == union64(b.subrange(6 * sp, 6 * sp + 6)),
        forall|j: int| 0 <= j < 12 && j != p ==> (#[trigger] b[j]) & mov == 0,
    ensures
        union64(b.update(p, b[p] ^ mov).subrange(6 * sp, 6 * sp + 6)) == o[sp] ^ mov,
{
    let s = b.subrange(6 * sp, 6 * sp + 6);
    let k = p - 6 * sp;
    assert(0 <= k < 6);
    assert(s[k] == b[p]);
    assert forall|t: int| 0 <= t < 6 && t != k implies (#[trigger] s[t]) & mov == 0 by {
        assert(s[t] == b[6 * sp + t]);
    }
    lemma_union64_update(s, k, mov);
    assert(b.update(p, b[p] ^ mov).subrange(6 * sp, 6 * sp + 6) =~= s.update(k, s[k] ^ mov));
}

/// The two toggles of a move's diff may be applied in either order.
proof fn lemma_xor_diff_order(s: Seq<u64>, ci: int, pi: int, cap: u64, mov: u64)
    requires
        0 <= ci < s.len(),
        0 <= pi < s.len(),
    ensures
        ({
            let s1 = s.update(pi, s[pi] ^ mov);
            s1.update(ci, s1[ci] ^ cap) == apply_xor_diff(s, ci, pi, cap, mov)
        }),
{
    let s1 = s.update(pi, s[pi] ^ mov);
    let left = s1.update(ci, s1[ci] ^ cap);
    let right = apply_xor_diff(s, ci, pi, cap, mov);
    if ci == pi {
        let x = s[pi];
        assert((x ^ mov) ^ cap == (x ^ cap) ^ mov) by (bit_vector);
        assert(left =~= right);
    } else {
        assert(left =~= right);
    }
}

/// Law: applying the same move diff twice restores every mask bit for bit,
/// so making and then unmaking a move returns the position to its prior
/// state — exclusive-or is self-inverse.
pub proof fn lemma_make_unmake_restores(b: Seq<u64>, o: Seq<u64>, m: Move)
    requires
        b.len() == 12,
        o.len() == 2,
    ensures
        apply_move_boards(apply_move_boards(b, m), m) == b,
        apply_move_occupancy(apply_move_occupancy(o, m), m) == o,
{
    lemma_piece_index_bounds(m.moved_piece);
    lemma_piece_index_bounds(m.captured_piece);
    lemma_xor_diff_involutive(
        b,
        spec_piece_index(m.captured_piece),
        spec_piece_index(m.moved_piece),
        m.captured_mask,
        m.move_mask,
    );
    lemma_xor_diff_involutive(
        o,
        spec_side_index(m.captured_piece),
        spec_side_index(m.moved_piece),
        m.captured_mask,
        m.move_mask,
    );
}

/// Applying the same XOR diff twice is the identity.
proof fn lemma_xor_diff_involutive(s: Seq<u64>, ci: int, pi: int, cap: u64, mov: u64)
    requires
        0 <= ci < s.len(),
        0 <= pi < s.len(),
    ensures
        apply_xor_diff(apply_xor_diff(s, ci, pi, cap, mov), ci, pi, cap, mov) == s,
{
    let s2 = apply_xor_diff(s, ci, pi, cap, mov);
    let s4 = apply_xor_diff(s2, ci, pi, cap, mov);
    if ci == pi {
        let x = s[ci];
        assert(((((x ^ cap) ^ mov) ^ cap) ^ mov) == x) by (bit_vector);
        assert(s4 =~= s);
    } else {
        let x = s[ci];
        let y = s[pi];
        assert((x ^ cap) ^ cap == x && (y ^ mov) ^ mov == y) by (bit_vector);
        assert(s4 =~= s);
    }
}

} // verus!
