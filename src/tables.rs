//! The process-wide precomputed tables: leaper masks, magic slider tables,
//! empty-board rays and the Zobrist keys.

use vstd::prelude::*;
use crate::bits::{count_bits, index_subset, index_to_bitboard, popcount, transform, transform_spec};
use crate::state::{State, castling_index};
use crate::types::{Color, Piece, board_index, get_piece_index};
use crate::rays::{
    bishop_attacks, bishop_attacks_spec, bishop_mask, bishop_mask_spec, king_attack,
    king_attack_spec, knight_attack, knight_attack_spec, pawn_attack, pawn_attack_spec,
    rook_attacks, rook_attacks_spec, rook_mask, rook_mask_spec,
};

verus! {

/// Relies on rand::random: a value drawn from the thread-local generator;
/// nothing is known of it.
pub assume_specification<T>[ rand::random::<T> ]() -> (r: T)
    where
        rand::distributions::Standard: rand::distributions::Distribution<T>,
;

/// Why the attack tables could not be built.
#[derive(Clone, Copy, Debug, PartialEq, Eq, Structural)]
pub enum TableInitError {
    /// The magic records are not 64 records, in square order, with the
    /// relevant-occupancy mask of their square.
    Malformed,
    /// A magic multiplier sends two blocker patterns with different attacks to
    /// one slot.
    Collision,
    /// No magic multiplier was found for some square.
    NoMagicFound,
}

/// The magic record of one square for one slider kind.
#[derive(Clone, Copy, Debug, PartialEq, Eq, Structural)]
pub struct Magic {
    /// The square, 0 to 63.
    pub square: u64,
    /// The 64-bit multiplier.
    pub magic_number: u64,
    /// The relevant-occupancy mask.
    pub mask: u64,
}

/// Blocker pattern `j` of the square of record `m` finds its attacks at its slot.
pub open spec fn pattern_stored(rook: bool, table: Seq<u64>, m: Magic, j: u64) -> bool {
    let occ = index_subset(j, popcount(m.mask) as u64, m.mask);
    table[slot_of(rook, m, occ)] == slider_spec(rook, m.square as int, occ)
}

/// The attacks of a rook (or bishop) on `sq` with the squares of `block` occupied.
pub open spec fn slider_spec(rook: bool, sq: int, block: u64) -> u64 {
    if rook {
        rook_attacks_spec(sq, block)
    } else {
        bishop_attacks_spec(sq, block)
    }
}

/// The relevant-occupancy mask of a rook (or bishop) on `sq`.
pub open spec fn slider_mask_spec(rook: bool, sq: int) -> u64 {
    if rook {
        rook_mask_spec(sq)
    } else {
        bishop_mask_spec(sq)
    }
}

/// The index width of a slider table: 12 for rooks, 9 for bishops.
pub open spec fn slot_bits(rook: bool) -> u64 {
    if rook {
        12
    } else {
        9
    }
}

/// The number of slots of one square.
pub open spec fn slot_count(rook: bool) -> int {
    if rook {
        4096
    } else {
        512
    }
}

/// The slot of blocker pattern `occ` for the square of record `m`.
pub open spec fn slot_of(rook: bool, m: Magic, occ: u64) -> int {
    m.square * slot_count(rook) + transform_spec(occ & m.mask, m.magic_number, slot_bits(rook))
}

/// The slot of a pattern lies in the slots of its square.
pub proof fn lemma_slot_in_square(rook: bool, m: Magic, occ: u64)
    requires
        m.square < 64,
    ensures
        m.square * slot_count(rook) <= slot_of(rook, m, occ) < (m.square + 1) * slot_count(rook),
        (m.square + 1) * slot_count(rook) <= 64 * slot_count(rook),
        transform_spec(occ & m.mask, m.magic_number, slot_bits(rook)) < slot_count(rook),
{
    let b = slot_bits(rook);
    let p = (occ & m.mask).wrapping_mul(m.magic_number);
    crate::bits::lemma_index_width(p, b, 0);
    let c = slot_count(rook);
    let sq = m.square as int;
    assert((sq + 1) * c <= 64 * c) by (nonlinear_arith)
        requires
            sq < 64,
            c >= 0,
    ;
    assert((sq + 1) * c == sq * c + c) by (nonlinear_arith);
}

fn slider_attacks(rook: bool, sq: u64, block: u64) -> (r: u64)
    requires
        sq < 64,
    ensures
        r == slider_spec(rook, sq as int, block),
{
    if rook {
        rook_attacks(sq, block)
    } else {
        bishop_attacks(sq, block)
    }
}

fn slider_mask(rook: bool, sq: u64) -> (r: u64)
    requires
        sq < 64,
    ensures
        r == slider_mask_spec(rook, sq as int),
{
    if rook {
        rook_mask(sq)
    } else {
        bishop_mask(sq)
    }
}

/// A vector of `n` zeros.
fn zeros(n: usize) -> (v: Vec<u64>)
    ensures
        v.len() == n,
        forall|i: int| 0 <= i < n ==> v[i] == 0,
{
    let mut v: Vec<u64> = Vec::with_capacity(n);
    while v.len() < n
        invariant
            v.len() <= n,
            forall|i: int| 0 <= i < v.len() ==> v[i] == 0,
        decreases n - v.len(),
    {
        v.push(0);
    }
    v
}

/// Every blocker pattern of `mask`, with the attacks of the slider on `sq`
/// under it.
fn blocker_patterns(rook: bool, sq: u64, mask: u64, n: u64) -> (r: (Vec<u64>, Vec<u64>))
    requires
        sq < 64,
        n == popcount(mask),
        n <= 12,
    ensures
        r.0.len() == 1u64 << n,
        r.1.len() == 1u64 << n,
        forall|j: int|
            0 <= j < (1u64 << n) ==> #[trigger] r.0[j] == index_subset(j as u64, n, mask) && r.1[j]
                == slider_spec(rook, sq as int, r.0[j]),
{
    proof {
        crate::bits::lemma_index_width(0, 0, n);
    }
    let count: u64 = 1u64 << n;
    let mut occs: Vec<u64> = Vec::new();
    let mut atts: Vec<u64> = Vec::new();
    let mut i: u64 = 0;
    while i < count
        invariant
            sq < 64,
            count <= 4096,
            i <= count,
            occs.len() == i,
            atts.len() == i,
            forall|j: int|
                0 <= j < i ==> #[trigger] occs[j] == index_subset(j as u64, n, mask) && atts[j]
                    == slider_spec(rook, sq as int, occs[j]),
        decreases count - i,
    {
        let occ = index_to_bitboard(i, n, mask);
        occs.push(occ);
        atts.push(slider_attacks(rook, sq, occ));
        i = i + 1;
    }
    (occs, atts)
}

/// Stores every pattern's attacks at its magic slot of square `sq`; false when
/// two patterns with different attacks share a slot.
fn fill_square(
    rook: bool,
    table: &mut Vec<u64>,
    record: Magic,
    occs: &Vec<u64>,
    atts: &Vec<u64>,
) -> (ok: bool)
    requires
        record.square < 64,
        old(table).len() == 64 * slot_count(rook),
        occs.len() == atts.len(),
    ensures
        final(table).len() == old(table).len(),
        forall|k: int|
            0 <= k < final(table).len() && !(record.square * slot_count(rook) <= k < (record.square
                + 1) * slot_count(rook)) ==> final(table)[k] == old(table)[k],
        ok ==> forall|j: int|
            0 <= j < occs.len() ==> #[trigger] final(table)[slot_of(rook, record, occs[j])]
                == atts[j],
        !ok ==> exists|i1: int, i2: int|
            0 <= i1 < occs.len() && 0 <= i2 < occs.len() && #[trigger] slot_of(
                rook,
                record,
                occs[i1],
            ) == #[trigger] slot_of(rook, record, occs[i2]) && atts[i1] != atts[i2],
{
    let bits: u64 = if rook {
        12
    } else {
        9
    };
    let slots: usize = if rook {
        4096
    } else {
        512
    };
    let base: usize = (record.square as usize) * slots;
    let mut used: Vec<bool> = Vec::with_capacity(slots);
    while used.len() < slots
        invariant
            used.len() <= slots,
            forall|i: int| 0 <= i < used.len() ==> !used[i],
        decreases slots - used.len(),
    {
        used.push(false);
    }
    let mut j: usize = 0;
    let ghost mut owner: Seq<int> = Seq::new(slots as nat, |k: int| 0int);
    while j < occs.len()
        invariant
            used.len() == slots,
            owner.len() == slots,
            forall|k: int|
                0 <= k < slots && #[trigger] used[k] ==> 0 <= owner[k] < j && transform_spec(
                    occs[owner[k]] & record.mask,
                    record.magic_number,
                    bits,
                ) == k,
            slots == slot_count(rook),
            bits == slot_bits(rook),
            base == record.square * slots,
            record.square < 64,
            table.len() == old(table).len(),
            table.len() == 64 * slot_count(rook),
            occs.len() == atts.len(),
            j <= occs.len(),
            forall|k: int|
                0 <= k < table.len() && !(base <= k < base + slots) ==> table[k] == old(table)[k],
            forall|i: int|
                0 <= i < j ==> #[trigger] used[transform_spec(
                    occs[i] & record.mask,
                    record.magic_number,
                    bits,
                ) as int],
            forall|i: int|
                0 <= i < j ==> #[trigger] table[slot_of(rook, record, occs[i])] == atts[i],
            forall|i: int|
                0 <= i < j ==> transform_spec(occs[i] & record.mask, record.magic_number, bits)
                    < slots,
        decreases occs.len() - j,
    {
        let idx = transform(occs[j] & record.mask, record.magic_number, bits);
        proof {
            crate::bits::lemma_index_width(0, bits, 0);
        }
        proof {
            lemma_slot_in_square(rook, record, occs[j as int]);
        }
        let slot = base + idx as usize;
        assert(slot as int == slot_of(rook, record, occs[j as int]));
        if used[idx as usize] {
            if table[slot] != atts[j] {
                proof {
                    let i1 = owner[idx as int];
                    assert(table[slot_of(rook, record, occs[i1])] == atts[i1]);
                    assert(slot_of(rook, record, occs[i1]) == slot_of(rook, record, occs[j as int]));
                }
                return false;
            }
        } else {
            proof {
                owner = owner.update(idx as int, j as int);
            }
            let ghost used0 = used@;
            let ghost table0 = table@;
            used.set(idx as usize, true);
            table.set(slot, atts[j]);
            assert forall|i: int| 0 <= i < j implies #[trigger] used[transform_spec(
                occs[i] & record.mask,
                record.magic_number,
                bits,
            ) as int] && table[slot_of(rook, record, occs[i])] == atts[i] by {
                let t = transform_spec(occs[i] & record.mask, record.magic_number, bits) as int;
                assert(used0[t]);
                assert(t != idx);
                assert(table0[slot_of(rook, record, occs[i])] == atts[i]);
            }
        }
        assert(used[idx as int] && table[slot_of(rook, record, occs[j as int])] == atts[j as int]);
        assert forall|i: int| 0 <= i < j + 1 implies #[trigger] used[transform_spec(
            occs[i] & record.mask,
            record.magic_number,
            bits,
        ) as int] && table[slot_of(rook, record, occs[i])] == atts[i] by {
            if i < j {
                assert(used[transform_spec(occs[i] & record.mask, record.magic_number, bits) as int]);
            }
        }
        j = j + 1;
    }
    assert forall|i: int| 0 <= i < occs.len() implies #[trigger] table[slot_of(
        rook,
        record,
        occs[i],
    )] == atts[i] by {
        assert(used[transform_spec(occs[i] & record.mask, record.magic_number, bits) as int]);
    }
    true
}

/// Upper bound on the candidates tried for one square.
pub const MAX_MAGIC_TRIES: u64 = 100_000_000;

/// Draws a sparse 64-bit candidate multiplier.
fn sparse_random() -> u64 {
    rand::random::<u64>() & rand::random::<u64>() & rand::random::<u64>()
}

/// A magic multiplier for square `sq` under which no two blocker patterns
/// with different attacks share a slot, found by random search.
fn find_magic(rook: bool, sq: u64, scratch: &mut Vec<u64>) -> (r: Result<Magic, TableInitError>)
    requires
        sq < 64,
        old(scratch).len() == 64 * slot_count(rook),
    ensures
        final(scratch).len() == old(scratch).len(),
        r is Ok ==> r->Ok_0.square == sq && r->Ok_0.mask == slider_mask_spec(rook, sq as int),
        r is Ok ==> record_ok(rook, r->Ok_0, sq as int),
        r is Ok ==> forall|j1: u64, j2: u64| !#[trigger] collides(rook, r->Ok_0, j1, j2),
{
    let mask = slider_mask(rook, sq);
    let n = count_bits(mask);
    let bits: u64 = if rook {
        12
    } else {
        9
    };
    if n > bits {
        return Err(TableInitError::Malformed);
    }
    let (occs, atts) = blocker_patterns(rook, sq, mask, n);
    let mut tries: u64 = 0;
    while tries < MAX_MAGIC_TRIES
        invariant
            sq < 64,
            scratch.len() == 64 * slot_count(rook),
            scratch.len() == old(scratch).len(),
            occs.len() == atts.len(),
            mask == slider_mask_spec(rook, sq as int),
            n as nat == popcount(mask),
            n <= bits,
            bits == slot_bits(rook),
            occs.len() == 1u64 << n,
            forall|j: int|
                0 <= j < (1u64 << n) ==> #[trigger] occs[j] == index_subset(j as u64, n, mask)
                    && atts[j] == slider_spec(rook, sq as int, occs[j]),
        decreases MAX_MAGIC_TRIES - tries,
    {
        let candidate = sparse_random();
        tries = tries + 1;
        if count_bits(mask.wrapping_mul(candidate) & 0xFF00_0000_0000_0000) >= 6 {
            let record = Magic { square: sq, magic_number: candidate, mask };
            if fill_square(rook, scratch, record, &occs, &atts) {
                assert forall|j1: u64, j2: u64| !#[trigger] collides(rook, record, j1, j2) by {
                    if j1 < (1u64 << n) && j2 < (1u64 << n) {
                        assert(occs[j1 as int] == index_subset(j1, n, mask));
                        assert(occs[j2 as int] == index_subset(j2, n, mask));
                        assert(scratch[slot_of(rook, record, occs[j1 as int])] == atts[j1 as int]);
                        assert(scratch[slot_of(rook, record, occs[j2 as int])] == atts[j2 as int]);
                    }
                }
                return Ok(record);
            }
        }
    }
    Err(TableInitError::NoMagicFound)
}

/// Record `m` is the record of square `sq`: right square, the relevant mask,
/// and no more mask bits than the index width.
pub open spec fn record_ok(rook: bool, m: Magic, sq: int) -> bool {
    m.square == sq && m.mask == slider_mask_spec(rook, sq) && popcount(m.mask) <= slot_bits(rook)
}

/// Sixty-four records, one per square in order.
pub open spec fn records_ok(rook: bool, rs: Seq<Magic>) -> bool {
    rs.len() == 64 && forall|sq: int| 0 <= sq < 64 ==> #[trigger] record_ok(rook, rs[sq], sq)
}

/// Blocker patterns `j1` and `j2` of the square of `m` share a slot but
/// give different attacks.
pub open spec fn collides(rook: bool, m: Magic, j1: u64, j2: u64) -> bool {
    let n = popcount(m.mask) as u64;
    let o1 = index_subset(j1, n, m.mask);
    let o2 = index_subset(j2, n, m.mask);
    &&& j1 < (1u64 << n)
    &&& j2 < (1u64 << n)
    &&& slot_of(rook, m, o1) == slot_of(rook, m, o2)
    &&& slider_spec(rook, m.square as int, o1) != slider_spec(rook, m.square as int, o2)
}

/// Some square's magic sends two patterns with different attacks to one slot.
pub open spec fn has_collision(rook: bool, rs: Seq<Magic>) -> bool {
    exists|sq: int, j1: u64, j2: u64| 0 <= sq < 64 && #[trigger] collides(rook, rs[sq], j1, j2)
}

/// A magic lookup table for one slider kind.
pub struct SliderTable {
    /// One record per square, in square order.
    pub magics: Vec<Magic>,
    /// The attack sets, `slot_count` slots per square.
    pub attacks: Vec<u64>,
}

impl SliderTable {
    /// The records are those of the squares in order, with the relevant masks,
    /// and every blocker pattern of a square finds its attacks at its slot.
    pub open spec fn wf(&self, rook: bool) -> bool {
        &&& self.magics.len() == 64
        &&& self.attacks.len() == 64 * slot_count(rook)
        &&& forall|sq: int|
            0 <= sq < 64 ==> (#[trigger] self.magics[sq]).square == sq && self.magics[sq].mask
                == slider_mask_spec(rook, sq) && popcount(self.magics[sq].mask) <= slot_bits(rook)
        &&& forall|sq: int, j: u64|
            0 <= sq < 64 && j < (1u64 << popcount(self.magics[sq].mask) as u64)
                ==> #[trigger] pattern_stored(rook, self.attacks@, self.magics@[sq], j)
    }

    /// A table that stores every pattern at its slot has no collision.
    pub proof fn lemma_stored_no_collision(rook: bool, t: SliderTable)
        requires
            t.wf(rook),
        ensures
            !has_collision(rook, t.magics@),
    {
        assert forall|sq: int, j1: u64, j2: u64| 0 <= sq < 64 implies !#[trigger] collides(
            rook,
            t.magics@[sq],
            j1,
            j2,
        ) by {
            let m = t.magics@[sq];
            if j1 < (1u64 << popcount(m.mask) as u64) && j2 < (1u64 << popcount(m.mask) as u64) {
                assert(pattern_stored(rook, t.attacks@, m, j1));
                assert(pattern_stored(rook, t.attacks@, m, j2));
            }
        }
    }

    /// Builds the table of one slider kind from 64 magic records: refused as
    /// malformed unless they are the records of the 64 squares in order, and
    /// as colliding when a multiplier sends two patterns with different
    /// attacks to one slot.
    pub fn from_magics(rook: bool, records: &Vec<Magic>) -> (r: Result<SliderTable, TableInitError>)
        ensures
            r is Ok ==> r->Ok_0.wf(rook) && r->Ok_0.magics@ == records@,
            (r is Err && r->Err_0 == TableInitError::Malformed) <==> !records_ok(rook, records@),
            (r is Err && r->Err_0 == TableInitError::Collision) <==> records_ok(rook, records@)
                && has_collision(rook, records@),
            r is Ok <==> records_ok(rook, records@) && !has_collision(rook, records@),
    {
        if records.len() != 64 {
            return Err(TableInitError::Malformed);
        }
        let mut k: usize = 0;
        while k < 64
            invariant
                records.len() == 64,
                k <= 64,
                forall|s: int| 0 <= s < k ==> #[trigger] record_ok(rook, records@[s], s),
            decreases 64 - k,
        {
            let record = records[k];
            let mask = slider_mask(rook, k as u64);
            let n = count_bits(mask);
            let bits: u64 = if rook {
                12
            } else {
                9
            };
            if record.square != k as u64 || record.mask != mask || n > bits {
                assert(!record_ok(rook, records@[k as int], k as int));
                return Err(TableInitError::Malformed);
            }
            k = k + 1;
        }
        assert(records_ok(rook, records@));
        let slots: usize = if rook {
            4096
        } else {
            512
        };
        let bits: u64 = if rook {
            12
        } else {
            9
        };
        let mut table = zeros(64 * slots);
        let mut sq: usize = 0;
        while sq < 64
            invariant
                records.len() == 64,
                records_ok(rook, records@),
                slots == slot_count(rook),
                bits == slot_bits(rook),
                table.len() == 64 * slots,
                sq <= 64,
                forall|s: int|
                    0 <= s < sq ==> (#[trigger] records[s]).square == s && records[s].mask
                        == slider_mask_spec(rook, s) && popcount(records[s].mask) <= slot_bits(rook),
                forall|s: int, j: u64|
                    0 <= s < sq && j < (1u64 << popcount(records[s].mask) as u64)
                        ==> #[trigger] pattern_stored(rook, table@, records@[s], j),
            decreases 64 - sq,
        {
            let record = records[sq];
            assert(record_ok(rook, records@[sq as int], sq as int));
            let mask = record.mask;
            let n = count_bits(mask);
            let (occs, atts) = blocker_patterns(rook, sq as u64, mask, n);
            let ghost before = table@;
            if !fill_square(rook, &mut table, record, &occs, &atts) {
                proof {
                    let (i1, i2) = choose|i1: int, i2: int|
                        0 <= i1 < occs.len() && 0 <= i2 < occs.len() && #[trigger] slot_of(
                            rook,
                            record,
                            occs[i1],
                        ) == #[trigger] slot_of(rook, record, occs[i2]) && atts[i1] != atts[i2];
                    assert(occs[i1] == index_subset(i1 as u64, n, mask));
                    assert(occs[i2] == index_subset(i2 as u64, n, mask));
                    assert(collides(rook, records@[sq as int], i1 as u64, i2 as u64));
                }
                return Err(TableInitError::Collision);
            }
            assert forall|s: int, j: u64|
                0 <= s <= sq && j < (1u64 << popcount(records[s].mask) as u64)
                    implies #[trigger] pattern_stored(rook, table@, records@[s], j) by {
                let m = records[s];
                let occ = index_subset(j, popcount(m.mask) as u64, m.mask);
                lemma_slot_in_square(rook, m, occ);
                if s < sq {
                    assert((s + 1) * slot_count(rook) <= sq * slot_count(rook)) by (nonlinear_arith)
                        requires
                            s < sq,
                            slot_count(rook) >= 0,
                    ;
                    assert(pattern_stored(rook, before, records@[s], j));
                    assert(table[slot_of(rook, m, occ)] == before[slot_of(rook, m, occ)]);
                } else {
                    assert(records@[s] == record);
                    assert(occs[j as int] == occ);
                    assert(atts[j as int] == slider_spec(rook, sq as int, occ));
                    assert(table[slot_of(rook, record, occs[j as int])] == atts[j as int]);
                }
            }
            sq = sq + 1;
        }
        let r = SliderTable { magics: records.clone(), attacks: table };
        assert(r.magics@ =~= records@);
        proof {
            SliderTable::lemma_stored_no_collision(rook, r);
        }
        Ok(r)
    }

    /// Finds a magic record for every square by random search.
    pub fn find_magics(rook: bool) -> (r: Result<Vec<Magic>, TableInitError>)
        ensures
            r is Ok ==> r->Ok_0.len() == 64 && forall|sq: int|
                0 <= sq < 64 ==> (#[trigger] r->Ok_0[sq]).square == sq && r->Ok_0[sq].mask
                    == slider_mask_spec(rook, sq),
            r is Ok ==> records_ok(rook, r->Ok_0@) && !has_collision(rook, r->Ok_0@),
    {
        let slots: usize = if rook {
            4096
        } else {
            512
        };
        let mut scratch = zeros(64 * slots);
        let mut records: Vec<Magic> = Vec::new();
        let mut sq: u64 = 0;
        while sq < 64
            invariant
                slots == slot_count(rook),
                scratch.len() == 64 * slots,
                records.len() == sq,
                sq <= 64,
                forall|s: int|
                    0 <= s < sq ==> (#[trigger] records[s]).square == s && records[s].mask
                        == slider_mask_spec(rook, s),
                forall|s: int| 0 <= s < sq ==> #[trigger] record_ok(rook, records@[s], s),
                forall|s: int, j1: u64, j2: u64|
                    0 <= s < sq ==> !#[trigger] collides(rook, records@[s], j1, j2),
            decreases 64 - sq,
        {
            let record = find_magic(rook, sq, &mut scratch)?;
            let ghost before = records@;
            records.push(record);
            assert forall|s: int, j1: u64, j2: u64|
                0 <= s < sq + 1 implies !#[trigger] collides(rook, records@[s], j1, j2) by {
                if s < sq {
                    assert(records@[s] == before[s]);
                }
            }
            assert forall|s: int| 0 <= s < sq + 1 implies #[trigger] record_ok(rook, records@[s], s) by {
                if s < sq {
                    assert(records@[s] == before[s]);
                }
            }
            sq = sq + 1;
        }
        Ok(records)
    }

    /// The stored attacks for blocker set `occ` on square `sq`.
    pub fn lookup(&self, rook: bool, sq: u64, occ: u64) -> (r: u64)
        requires
            self.wf(rook),
            sq < 64,
        ensures
            r == self.attacks[slot_of(rook, self.magics[sq as int], occ)],
    {
        let m = self.magics[sq as usize];
        let bits: u64 = if rook {
            12
        } else {
            9
        };
        let slots: usize = if rook {
            4096
        } else {
            512
        };
        proof {
            crate::bits::lemma_index_width(0, bits, 0);
        }
        let idx = transform(occ & m.mask, m.magic_number, bits);
        self.attacks[(sq as usize) * slots + idx as usize]
    }
}

} // verus!

verus! {

/// The random keys of the Zobrist hash.
pub struct Zobrist {
    /// One key per piece bitboard and square: index `board * 64 + square`.
    pub piece_square: Vec<u64>,
    /// One key per set of castling rights.
    pub castling_rights: Vec<u64>,
    /// One key per file of an en-passant target.
    pub en_passant_file: Vec<u64>,
    /// The key of black to move.
    pub black_to_move: u64,
}

/// A vector of `n` random words.
fn random_words(n: usize) -> (v: Vec<u64>)
    ensures
        v.len() == n,
{
    let mut v: Vec<u64> = Vec::with_capacity(n);
    while v.len() < n
        invariant
            v.len() <= n,
        decreases n - v.len(),
    {
        v.push(rand::random::<u64>());
    }
    v
}

impl Zobrist {
    /// The key vectors have their sizes.
    pub open spec fn wf(&self) -> bool {
        &&& self.piece_square.len() == 768
        &&& self.castling_rights.len() == 16
        &&& self.en_passant_file.len() == 8
    }

    /// Draws fresh keys.
    pub fn new() -> (r: Zobrist)
        ensures
            r.wf(),
    {
        Zobrist {
            piece_square: random_words(768),
            castling_rights: random_words(16),
            en_passant_file: random_words(8),
            black_to_move: rand::random::<u64>(),
        }
    }

    /// The index of the key of `(color, piece)` on `square`.
    pub fn get_piece_square_index(color: Color, piece: Piece, square: u64) -> (r: usize)
        requires
            square < 64,
        ensures
            r == board_index(color, piece) * 64 + square,
            r < 768,
    {
        get_piece_index(color, piece) * 64 + square as usize
    }

    /// The key of the castling rights of `state`.
    pub fn compute_castling_rights_hash(&self, state: &State) -> (r: u64)
        requires
            self.wf(),
        ensures
            r == self.castling_rights[castling_index(*state)],
    {
        let mut index: usize = 0;
        if state.can_white_king_castle {
            index = index + 1;
        }
        if state.can_white_queen_castle {
            index = index + 2;
        }
        if state.can_black_king_castle {
            index = index + 4;
        }
        if state.can_black_queen_castle {
            index = index + 8;
        }
        self.castling_rights[index]
    }
}

/// Every precomputed table the position code reads.
pub struct AttackTables {
    /// Pawn attacks: white at `square`, black at `64 + square`.
    pub pawn_attacks: Vec<u64>,
    /// Knight attacks per square.
    pub knight_attacks: Vec<u64>,
    /// King attacks per square.
    pub king_attacks: Vec<u64>,
    /// Rook lines per square on an empty board.
    pub rook_rays: Vec<u64>,
    /// Bishop diagonals per square on an empty board.
    pub bishop_rays: Vec<u64>,
    /// The rook magic table.
    pub rook: SliderTable,
    /// The bishop magic table.
    pub bishop: SliderTable,
    /// The Zobrist keys.
    pub zobrist: Zobrist,
}

impl AttackTables {
    /// Every table holds what its definition says.
    pub open spec fn wf(&self) -> bool {
        &&& self.pawn_attacks.len() == 128
        &&& self.knight_attacks.len() == 64
        &&& self.king_attacks.len() == 64
        &&& self.rook_rays.len() == 64
        &&& self.bishop_rays.len() == 64
        &&& forall|sq: int|
            0 <= sq < 64 ==> {
                &&& #[trigger] self.pawn_attacks[sq] == pawn_attack_spec(true, sq as u64)
                &&& self.pawn_attacks[64 + sq] == pawn_attack_spec(false, sq as u64)
                &&& self.knight_attacks[sq] == knight_attack_spec(sq as u64)
                &&& self.king_attacks[sq] == king_attack_spec(sq as u64)
                &&& self.rook_rays[sq] == rook_attacks_spec(sq, 0)
                &&& self.bishop_rays[sq] == bishop_attacks_spec(sq, 0)
            }
        &&& self.rook.wf(true)
        &&& self.bishop.wf(false)
        &&& self.zobrist.wf()
    }

    /// Builds the tables from magic records for rooks and bishops, as read
    /// from the packaged resource.
    pub fn from_magic_tables(rook_records: &Vec<Magic>, bishop_records: &Vec<Magic>) -> (r: Result<
        AttackTables,
        TableInitError,
    >)
        ensures
            r is Ok ==> r->Ok_0.wf() && r->Ok_0.rook.magics@ == rook_records@
                && r->Ok_0.bishop.magics@ == bishop_records@,
            (r is Err && r->Err_0 == TableInitError::Malformed) <==> (!records_ok(true, rook_records@)
                || (!has_collision(true, rook_records@) && !records_ok(false, bishop_records@))),
            (r is Err && r->Err_0 == TableInitError::Collision) <==> records_ok(true, rook_records@)
                && (has_collision(true, rook_records@) || (records_ok(false, bishop_records@)
                && has_collision(false, bishop_records@))),
            r is Ok <==> records_ok(true, rook_records@) && !has_collision(true, rook_records@)
                && records_ok(false, bishop_records@) && !has_collision(false, bishop_records@),
    {
        let rook = SliderTable::from_magics(true, rook_records)?;
        let bishop = SliderTable::from_magics(false, bishop_records)?;
        let mut pawn_attacks: Vec<u64> = Vec::with_capacity(128);
        let mut knight_attacks: Vec<u64> = Vec::with_capacity(64);
        let mut king_attacks: Vec<u64> = Vec::with_capacity(64);
        let mut rook_rays: Vec<u64> = Vec::with_capacity(64);
        let mut bishop_rays: Vec<u64> = Vec::with_capacity(64);
        let mut sq: u64 = 0;
        while sq < 64
            invariant
                sq <= 64,
                pawn_attacks.len() == sq,
                knight_attacks.len() == sq,
                king_attacks.len() == sq,
                rook_rays.len() == sq,
                bishop_rays.len() == sq,
                forall|s: int|
                    0 <= s < sq ==> {
                        &&& #[trigger] pawn_attacks[s] == pawn_attack_spec(true, s as u64)
                        &&& knight_attacks[s] == knight_attack_spec(s as u64)
                        &&& king_attacks[s] == king_attack_spec(s as u64)
                        &&& rook_rays[s] == rook_attacks_spec(s, 0)
                        &&& bishop_rays[s] == bishop_attacks_spec(s, 0)
                    },
            decreases 64 - sq,
        {
            let ghost old_pawn = pawn_attacks@;
            pawn_attacks.push(pawn_attack(true, sq));
            knight_attacks.push(knight_attack(sq));
            king_attacks.push(king_attack(sq));
            rook_rays.push(rook_attacks(sq, 0));
            bishop_rays.push(bishop_attacks(sq, 0));
            assert forall|s: int| 0 <= s < sq + 1 implies {
                &&& #[trigger] pawn_attacks[s] == pawn_attack_spec(true, s as u64)
                &&& knight_attacks[s] == knight_attack_spec(s as u64)
                &&& king_attacks[s] == king_attack_spec(s as u64)
                &&& rook_rays[s] == rook_attacks_spec(s, 0)
                &&& bishop_rays[s] == bishop_attacks_spec(s, 0)
            } by {
                if s < sq {
                    assert(pawn_attacks@[s] == old_pawn[s]);
                }
            }
            sq = sq + 1;
        }
        let mut sq: u64 = 0;
        while sq < 64
            invariant
                sq <= 64,
                pawn_attacks.len() == 64 + sq,
                knight_attacks.len() == 64,
                king_attacks.len() == 64,
                rook_rays.len() == 64,
                bishop_rays.len() == 64,
                forall|s: int|
                    0 <= s < 64 ==> {
                        &&& #[trigger] pawn_attacks[s] == pawn_attack_spec(true, s as u64)
                        &&& knight_attacks[s] == knight_attack_spec(s as u64)
                        &&& king_attacks[s] == king_attack_spec(s as u64)
                        &&& rook_rays[s] == rook_attacks_spec(s, 0)
                        &&& bishop_rays[s] == bishop_attacks_spec(s, 0)
                    },
                forall|s: int|
                    0 <= s < sq ==> #[trigger] pawn_attacks[64 + s] == pawn_attack_spec(
                        false,
                        s as u64,
                    ),
            decreases 64 - sq,
        {
            let ghost before = pawn_attacks@;
            pawn_attacks.push(pawn_attack(false, sq));
            assert forall|s: int| 0 <= s < 64 implies {
                &&& #[trigger] pawn_attacks[s] == pawn_attack_spec(true, s as u64)
                &&& knight_attacks[s] == knight_attack_spec(s as u64)
                &&& king_attacks[s] == king_attack_spec(s as u64)
                &&& rook_rays[s] == rook_attacks_spec(s, 0)
                &&& bishop_rays[s] == bishop_attacks_spec(s, 0)
            } by {
                assert(pawn_attacks@[s] == before[s]);
            }
            assert forall|s: int| 0 <= s < sq + 1 implies #[trigger] pawn_attacks[64 + s]
                == pawn_attack_spec(false, s as u64) by {
                if s < sq {
                    assert(pawn_attacks@[64 + s] == before[64 + s]);
                }
            }
            sq = sq + 1;
        }
        let zobrist = Zobrist::new();
        let r = AttackTables {
            pawn_attacks,
            knight_attacks,
            king_attacks,
            rook_rays,
            bishop_rays,
            rook,
            bishop,
            zobrist,
        };
        assert forall|sq: int| 0 <= sq < 64 implies {
            &&& #[trigger] r.pawn_attacks[sq] == pawn_attack_spec(true, sq as u64)
            &&& r.pawn_attacks[64 + sq] == pawn_attack_spec(false, sq as u64)
            &&& r.knight_attacks[sq] == knight_attack_spec(sq as u64)
            &&& r.king_attacks[sq] == king_attack_spec(sq as u64)
            &&& r.rook_rays[sq] == rook_attacks_spec(sq, 0)
            &&& r.bishop_rays[sq] == bishop_attacks_spec(sq, 0)
        } by {
            assert(r.pawn_attacks[64 + sq] == pawn_attacks[64 + sq]);
            assert(pawn_attacks[sq] == pawn_attack_spec(true, sq as u64));
        }
        Ok(r)
    }

    /// Builds the tables, finding the magic multipliers by random search.
    pub fn new() -> (r: Result<AttackTables, TableInitError>)
        ensures
            r is Ok ==> r->Ok_0.wf(),
    {
        let rook_records = SliderTable::find_magics(true)?;
        let bishop_records = SliderTable::find_magics(false)?;
        AttackTables::from_magic_tables(&rook_records, &bishop_records)
    }

    /// The rook attacks from `sq` under occupancy `occ`, by magic lookup.
    pub fn rook_lookup(&self, sq: u64, occ: u64) -> (r: u64)
        requires
            self.wf(),
            sq < 64,
        ensures
            r == self.rook.attacks[slot_of(true, self.rook.magics[sq as int], occ)],
    {
        self.rook.lookup(true, sq, occ)
    }

    /// The bishop attacks from `sq` under occupancy `occ`, by magic lookup.
    pub fn bishop_lookup(&self, sq: u64, occ: u64) -> (r: u64)
        requires
            self.wf(),
            sq < 64,
        ensures
            r == self.bishop.attacks[slot_of(false, self.bishop.magics[sq as int], occ)],
    {
        self.bishop.lookup(false, sq, occ)
    }
}

} // verus!
