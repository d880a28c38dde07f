//! The near-duplicate threshold, and the band-completeness argument: two
//! signatures whose similarity exceeds the threshold necessarily share one
//! full band, so the banded index always surfaces a stored near-duplicate
//! as a candidate.

use crate::minhash::agree_count;
use vstd::prelude::*;

verus! {

/// Numerator of the similarity threshold.
pub const THRESHOLD_NUM: u64 = 19;

/// Denominator of the similarity threshold: two courses whose signatures
/// agree on strictly more than `19/20` of their slots (an estimated Jaccard
/// similarity above `0.95`) are treated as the same content.
pub const THRESHOLD_DEN: u64 = 20;

/// The estimated Jaccard similarity of `a` and `b` strictly exceeds the
/// near-duplicate threshold.
pub open spec fn exceeds_threshold(a: Seq<u64>, b: Seq<u64>) -> bool {
    THRESHOLD_DEN * agree_count(a, b) > THRESHOLD_NUM * a.len()
}

/// The `bd`-th band of a signature, with `rows` slots per band.
pub open spec fn band_slice(s: Seq<u64>, bd: int, rows: int) -> Seq<u64> {
    s.subrange(bd * rows, bd * rows + rows)
}

/// Slot agreement is symmetric.
pub proof fn lemma_agree_count_sym(a: Seq<u64>, b: Seq<u64>)
    requires
        a.len() == b.len(),
    ensures
        agree_count(a, b) == agree_count(b, a),
    decreases a.len(),
{
    if a.len() > 0 {
        lemma_agree_count_sym(a.drop_last(), b.drop_last());
    }
}

/// Agreement splits at any cut point into the agreement of the prefixes
/// plus the agreement of the suffixes.
pub proof fn lemma_agree_count_split(a: Seq<u64>, b: Seq<u64>, k: int)
    requires
        a.len() == b.len(),
        0 <= k <= a.len(),
    ensures
        agree_count(a, b) == agree_count(a.take(k), b.take(k)) + agree_count(
            a.skip(k),
            b.skip(k),
        ),
    decreases a.len(),
{
    if k == a.len() {
        assert(a.take(k) =~= a);
        assert(b.take(k) =~= b);
        assert(a.skip(k) =~= Seq::<u64>::empty());
        assert(b.skip(k) =~= Seq::<u64>::empty());
    } else {
        lemma_agree_count_split(a.drop_last(), b.drop_last(), k);
        assert(a.drop_last().take(k) =~= a.take(k));
        assert(b.drop_last().take(k) =~= b.take(k));
        assert(a.drop_last().skip(k) =~= a.skip(k).drop_last());
        assert(b.drop_last().skip(k) =~= b.skip(k).drop_last());
        assert(a.skip(k).last() == a.last());
        assert(b.skip(k).last() == b.last());
        assert(a.skip(k).len() > 0);
    }
}

/// Two equally long sequences that are not equal disagree somewhere, so
/// their agreement count falls short of their length.
pub proof fn lemma_agree_count_strict(a: Seq<u64>, b: Seq<u64>)
    requires
        a.len() == b.len(),
        a != b,
    ensures
        agree_count(a, b) < a.len(),
    decreases a.len(),
{
    if a.len() == 0 {
        assert(a =~= b);
    } else {
        crate::minhash::lemma_agree_count_le_len(a.drop_last(), b.drop_last());
        if a.last() == b.last() {
            if a.drop_last() == b.drop_last() {
                assert forall|i: int| 0 <= i < a.len() implies a[i] == b[i] by {
                    if i < a.len() - 1 {
                        assert(a.drop_last()[i] == b.drop_last()[i]);
                    }
                }
                assert(a =~= b);
            }
            lemma_agree_count_strict(a.drop_last(), b.drop_last());
        }
    }
}

/// If none of the first `m` bands of `a` and `b` agrees in full, each band
/// loses at least one slot, so the agreement over those bands is at least
/// `m` short of their combined width.
pub proof fn lemma_no_full_band_bound(a: Seq<u64>, b: Seq<u64>, rows: int, m: int)
    requires
        a.len() == b.len(),
        rows >= 1,
        0 <= m,
        m * rows <= a.len(),
        forall|bd: int| 0 <= bd < m ==> #[trigger] band_slice(a, bd, rows) != band_slice(b, bd, rows),
    ensures
        agree_count(a.take(m * rows), b.take(m * rows)) + m <= m * rows,
    decreases m,
{
    if m == 0 {
        assert(m * rows == 0) by (nonlinear_arith)
            requires
                m == 0,
        ;
        assert(a.take(0) =~= Seq::<u64>::empty());
        assert(b.take(0) =~= Seq::<u64>::empty());
    } else {
        assert((m - 1) * rows == m * rows - rows) by (nonlinear_arith);
        assert((m - 1) * rows >= 0) by (nonlinear_arith)
            requires
                m >= 1,
                rows >= 1,
        ;
        lemma_no_full_band_bound(a, b, rows, m - 1);
        let cut = (m - 1) * rows;
        let hi = m * rows;
        lemma_agree_count_split(a.take(hi), b.take(hi), cut);
        assert(a.take(hi).take(cut) =~= a.take(cut));
        assert(b.take(hi).take(cut) =~= b.take(cut));
        assert(a.take(hi).skip(cut) =~= band_slice(a, m - 1, rows));
        assert(b.take(hi).skip(cut) =~= band_slice(b, m - 1, rows));
        assert(band_slice(a, m - 1, rows) != band_slice(b, m - 1, rows));
        assert(band_slice(a, m - 1, rows).len() == rows);
        assert(band_slice(b, m - 1, rows).len() == rows);
        lemma_agree_count_strict(band_slice(a, m - 1, rows), band_slice(b, m - 1, rows));
        assert(agree_count(a.take(hi), b.take(hi)) == agree_count(a.take(cut), b.take(cut))
            + agree_count(band_slice(a, m - 1, rows), band_slice(b, m - 1, rows)));
        assert(agree_count(a.take(cut), b.take(cut)) + (m - 1) <= cut);
        assert(hi == cut + rows);
    }
}

/// The band-completeness property behind candidate retrieval: when the
/// similarity of two equally banded signatures exceeds the threshold, and
/// the signature is at most `THRESHOLD_DEN` slots per band, fewer slots
/// disagree than there are bands, so some band agrees in full.
pub proof fn lemma_similar_share_band(a: Seq<u64>, b: Seq<u64>, bands: int)
    requires
        a.len() == b.len(),
        bands >= 1,
        a.len() as int % bands == 0,
        a.len() <= THRESHOLD_DEN * bands,
        exceeds_threshold(a, b),
    ensures
        exists|bd: int|
            0 <= bd < bands && #[trigger] band_slice(a, bd, a.len() as int / bands) == band_slice(
                b,
                bd,
                a.len() as int / bands,
            ),
{
    let len = a.len() as int;
    let rows = len / bands;
    vstd::arithmetic::div_mod::lemma_fundamental_div_mod(len, bands);
    assert(len == bands * rows);
    crate::minhash::lemma_agree_count_le_len(a, b);
    if len == 0 {
        assert(agree_count(a, b) == 0);
        assert(false);
    }
    assert(rows >= 1) by (nonlinear_arith)
        requires
            len == bands * rows,
            bands >= 1,
            len >= 1,
            rows >= 0,
    ;
    assert(rows >= 0) by (nonlinear_arith)
        requires
            len == bands * rows,
            bands >= 1,
            len >= 1,
    ;
    if !(exists|bd: int|
        0 <= bd < bands && #[trigger] band_slice(a, bd, rows) == band_slice(b, bd, rows)) {
        assert forall|bd: int|
            0 <= bd < bands implies #[trigger] band_slice(a, bd, rows) != band_slice(
                b,
                bd,
                rows,
            ) by {
        }
        assert(bands * rows <= len);
        lemma_no_full_band_bound(a, b, rows, bands);
        assert(a.take(bands * rows) =~= a);
        assert(b.take(bands * rows) =~= b);
        assert(agree_count(a, b) + bands <= len);
        assert(false);
    }
}

} // verus!
