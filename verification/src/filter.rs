//! Record filter: keeps a transcript exactly when its coordinates lie
//! inside the inclusive `[min, max]` windows, its quality score reaches
//! the threshold, and its feature name does not mark a control probe.

use vstd::prelude::*;
use crate::float_bits::{FloatBits, float_le_bits, is_nan_bits, lemma_float_le_refl};

verus! {

/// One transcript row, reduced to the fields the core logic reads.
/// Coordinates and the quality score are carried as IEEE 754 bit
/// patterns; other columns of the table pass through untouched outside
/// the library.
#[derive(Clone, Debug)]
pub struct Transcript {
    pub cell_id: String,
    pub overlaps_nucleus: usize,
    pub feature_name: String,
    pub x_location: FloatBits,
    pub y_location: FloatBits,
    pub qv: FloatBits,
}

/// `p` stands at the very start of `s`.
pub open spec fn has_prefix(s: Seq<char>, p: Seq<char>) -> bool {
    p.len() <= s.len() && s.subrange(0, p.len() as int) == p
}

/// A feature name marks a control probe exactly when one of the four
/// control prefixes stands at its start; the match is case-sensitive
/// and anchored at position 0.
pub open spec fn is_control_probe(name: Seq<char>) -> bool {
    ||| has_prefix(name, "NegControlProbe_"@)
    ||| has_prefix(name, "antisense_"@)
    ||| has_prefix(name, "NegControlCodeword_"@)
    ||| has_prefix(name, "BLANK_"@)
}

/// The keep/drop decision: all bounds inclusive, no upper bound on the
/// quality score, control probes dropped. A NaN coordinate or quality
/// score fails its comparison, so such a record is dropped.
pub open spec fn spec_should_keep(
    t: Transcript,
    min_x: FloatBits,
    max_x: FloatBits,
    min_y: FloatBits,
    max_y: FloatBits,
    min_qv: FloatBits,
) -> bool {
    &&& float_le_bits(min_x.bits, t.x_location.bits)
    &&& float_le_bits(t.x_location.bits, max_x.bits)
    &&& float_le_bits(min_y.bits, t.y_location.bits)
    &&& float_le_bits(t.y_location.bits, max_y.bits)
    &&& float_le_bits(min_qv.bits, t.qv.bits)
    &&& !is_control_probe(t.feature_name@)
}

fn str_has_prefix(s: &str, p: &str) -> (r: bool)
    ensures
        r == has_prefix(s@, p@),
{
    let sn = s.unicode_len();
    let pn = p.unicode_len();
    if pn > sn {
        return false;
    }
    let mut i: usize = 0;
    while i < pn
        invariant
            i <= pn,
            pn == p@.len(),
            sn == s@.len(),
            pn <= sn,
            forall|j: int| 0 <= j < i ==> s@[j] == p@[j],
        decreases pn - i,
    {
        if s.get_char(i) != p.get_char(i) {
            proof {
                assert(s@.subrange(0, pn as int)[i as int] == s@[i as int]);
            }
            return false;
        }
        i += 1;
    }
    proof {
        assert(s@.subrange(0, pn as int) =~= p@);
    }
    true
}

/// Whether the record's feature name marks a control probe and the
/// record is therefore to be dropped.
pub fn exclude_feature_names(t: &Transcript) -> (r: bool)
    ensures
        r == is_control_probe(t.feature_name@),
{
    str_has_prefix(t.feature_name.as_str(), "NegControlProbe_")
        || str_has_prefix(t.feature_name.as_str(), "antisense_")
        || str_has_prefix(t.feature_name.as_str(), "NegControlCodeword_")
        || str_has_prefix(t.feature_name.as_str(), "BLANK_")
}

/// The keep/drop decision for one record against the five thresholds.
/// Reads the record only; never mutates it.
pub fn filter_transcripts(
    t: &Transcript,
    min_x: FloatBits,
    max_x: FloatBits,
    min_y: FloatBits,
    max_y: FloatBits,
    min_qc: FloatBits,
) -> (keep: bool)
    ensures
        keep == spec_should_keep(*t, min_x, max_x, min_y, max_y, min_qc),
{
    min_x.le(&t.x_location) && t.x_location.le(&max_x) && min_y.le(&t.y_location)
        && t.y_location.le(&max_y) && min_qc.le(&t.qv) && !exclude_feature_names(t)
}

/// Both window bounds are inclusive: a record whose coordinate equals
/// the lower or the upper bound of its window is kept, provided every
/// other rule passes.
pub proof fn lemma_bounds_inclusive(
    t: Transcript,
    min_x: FloatBits,
    max_x: FloatBits,
    min_y: FloatBits,
    max_y: FloatBits,
    min_qv: FloatBits,
)
    requires
        t.x_location == min_x || t.x_location == max_x || (float_le_bits(
            min_x.bits,
            t.x_location.bits,
        ) && float_le_bits(t.x_location.bits, max_x.bits)),
        t.y_location == min_y || t.y_location == max_y || (float_le_bits(
            min_y.bits,
            t.y_location.bits,
        ) && float_le_bits(t.y_location.bits, max_y.bits)),
        float_le_bits(min_x.bits, max_x.bits),
        float_le_bits(min_y.bits, max_y.bits),
        float_le_bits(min_qv.bits, t.qv.bits),
        !is_control_probe(t.feature_name@),
    ensures
        spec_should_keep(t, min_x, max_x, min_y, max_y, min_qv),
{
    lemma_float_le_refl(min_x.bits);
    lemma_float_le_refl(max_x.bits);
    lemma_float_le_refl(min_y.bits);
    lemma_float_le_refl(max_y.bits);
}

/// A coordinate strictly outside its window drops the record, whatever
/// the other fields hold.
pub proof fn lemma_out_of_window_drops(
    t: Transcript,
    min_x: FloatBits,
    max_x: FloatBits,
    min_y: FloatBits,
    max_y: FloatBits,
    min_qv: FloatBits,
)
    requires
        !float_le_bits(min_x.bits, t.x_location.bits) || !float_le_bits(
            t.x_location.bits,
            max_x.bits,
        ) || !float_le_bits(min_y.bits, t.y_location.bits) || !float_le_bits(
            t.y_location.bits,
            max_y.bits,
        ),
    ensures
        !spec_should_keep(t, min_x, max_x, min_y, max_y, min_qv),
{
}

/// There is no upper bound on the quality score: two records that
/// differ only in their quality scores, both at or above the
/// threshold, share one fate, however large either score is.
pub proof fn lemma_qv_no_upper_bound(
    t1: Transcript,
    t2: Transcript,
    min_x: FloatBits,
    max_x: FloatBits,
    min_y: FloatBits,
    max_y: FloatBits,
    min_qv: FloatBits,
)
    requires
        t1.cell_id@ == t2.cell_id@,
        t1.overlaps_nucleus == t2.overlaps_nucleus,
        t1.feature_name@ == t2.feature_name@,
        t1.x_location == t2.x_location,
        t1.y_location == t2.y_location,
        float_le_bits(min_qv.bits, t1.qv.bits),
        float_le_bits(min_qv.bits, t2.qv.bits),
    ensures
        spec_should_keep(t1, min_x, max_x, min_y, max_y, min_qv) == spec_should_keep(
            t2,
            min_x,
            max_x,
            min_y,
            max_y,
            min_qv,
        ),
{
}

/// The quality rule is an inclusive lower bound: a quality score that
/// fails the threshold comparison drops the record, whatever the other
/// fields hold.
pub proof fn lemma_qv_below_threshold_drops(
    t: Transcript,
    min_x: FloatBits,
    max_x: FloatBits,
    min_y: FloatBits,
    max_y: FloatBits,
    min_qv: FloatBits,
)
    requires
        !float_le_bits(min_qv.bits, t.qv.bits),
    ensures
        !spec_should_keep(t, min_x, max_x, min_y, max_y, min_qv),
{
}

/// The control-probe match is anchored: only the first character of a
/// name can open a control prefix, so a name that begins with any other
/// character is never excluded, wherever a prefix occurs inside it.
pub proof fn lemma_control_prefix_anchored(name: Seq<char>)
    requires
        name.len() > 0,
        name[0] != 'N',
        name[0] != 'a',
        name[0] != 'B',
    ensures
        !is_control_probe(name),
{
    reveal_strlit("NegControlProbe_");
    reveal_strlit("antisense_");
    reveal_strlit("NegControlCodeword_");
    reveal_strlit("BLANK_");
    if has_prefix(name, "NegControlProbe_"@) {
        assert(name.subrange(0, "NegControlProbe_"@.len() as int)[0] == name[0]);
    }
    if has_prefix(name, "antisense_"@) {
        assert(name.subrange(0, "antisense_"@.len() as int)[0] == name[0]);
    }
    if has_prefix(name, "NegControlCodeword_"@) {
        assert(name.subrange(0, "NegControlCodeword_"@.len() as int)[0] == name[0]);
    }
    if has_prefix(name, "BLANK_"@) {
        assert(name.subrange(0, "BLANK_"@.len() as int)[0] == name[0]);
    }
}

} // verus!
