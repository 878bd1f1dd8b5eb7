//! Per-record processing: the keep/drop decision, the two cell-id
//! rewrites (nucleus-only blanking and `"UNASSIGNED"` normalization),
//! and the decoding of a remaining cell id into its decimal numeric
//! form. One call handles one record; records are independent.

use vstd::prelude::*;
use crate::codec::{MalformedCellId, decode_cell_id, encoded_prefix, valid_cell_encoding};
use crate::filter::{Transcript, filter_transcripts, spec_should_keep};
use crate::float_bits::FloatBits;

verus! {

/// The cell id a kept record carries when the codec runs: first the
/// nucleus-only policy blanks the assignment of a record outside the
/// nucleus to the `"0"` sentinel, then an `"UNASSIGNED"` literal is
/// normalized to `"0"`. The codec is invoked only on a result other
/// than `"0"`.
pub open spec fn normalized_cell_id(t: Transcript, nucleus_only: bool) -> Seq<char> {
    if nucleus_only && t.overlaps_nucleus == 0 {
        "0"@
    } else if t.cell_id@ == "UNASSIGNED"@ {
        "0"@
    } else {
        t.cell_id@
    }
}

pub open spec fn decimal_digit_char(d: int) -> char {
    if d == 0 {
        '0'
    } else if d == 1 {
        '1'
    } else if d == 2 {
        '2'
    } else if d == 3 {
        '3'
    } else if d == 4 {
        '4'
    } else if d == 5 {
        '5'
    } else if d == 6 {
        '6'
    } else if d == 7 {
        '7'
    } else if d == 8 {
        '8'
    } else {
        '9'
    }
}

/// The decimal rendering of a nonnegative number, without leading
/// zeros except for the single digit `"0"` itself.
pub open spec fn decimal_string(n: int) -> Seq<char>
    recommends
        n >= 0,
    decreases n,
{
    if n < 10 {
        seq![decimal_digit_char(n)]
    } else {
        decimal_string(n / 10).push(decimal_digit_char(n % 10))
    }
}

/// The decimal digits of a number, least significant first, rendered
/// as characters in reading order.
spec fn digits_rev_chars(ds: Seq<usize>) -> Seq<char> {
    Seq::new(ds.len(), |i: int| decimal_digit_char(ds[ds.len() - 1 - i] as int))
}

/// Renders a number in decimal, as the cell-id column stores it.
pub fn usize_to_decimal_string(n: usize) -> (s: String)
    ensures
        s@ == decimal_string(n as int),
{
    if n == 0 {
        let mut s = String::new();
        s.append("0");
        proof {
            reveal_strlit("0");
            assert(s@ =~= decimal_string(0));
        }
        return s;
    }
    let mut digits: Vec<usize> = Vec::new();
    let mut m: usize = n;
    while m > 0
        invariant
            forall|k: int| 0 <= k < digits@.len() ==> #[trigger] digits@[k] < 10,
            digits@.len() == 0 ==> m == n && n > 0,
            digits@.len() > 0 ==> decimal_string(n as int) == (if m > 0 {
                decimal_string(m as int)
            } else {
                Seq::<char>::empty()
            }) + digits_rev_chars(digits@),
        decreases m,
    {
        let ghost old_m = m;
        let ghost old_digits = digits@;
        let d = m % 10;
        digits.push(d);
        m = m / 10;
        proof {
            let dd = decimal_digit_char(d as int);
            assert(digits_rev_chars(digits@) =~= seq![dd] + digits_rev_chars(old_digits));
            if old_m >= 10 {
                assert(decimal_string(old_m as int) =~= decimal_string(m as int) + seq![dd]);
            }
            if old_m < 10 {
                assert(decimal_string(n as int) =~= Seq::<char>::empty() + digits_rev_chars(
                    digits@,
                ));
            } else {
                assert(decimal_string(n as int) =~= decimal_string(m as int) + digits_rev_chars(
                    digits@,
                ));
            }
        }
    }
    proof {
        assert(decimal_string(n as int) =~= digits_rev_chars(digits@));
    }
    let count = digits.len();
    let mut s = String::new();
    let mut i: usize = count;
    while i > 0
        invariant
            i <= count,
            count == digits@.len(),
            forall|k: int| 0 <= k < digits@.len() ==> #[trigger] digits@[k] < 10,
            s@ == digits_rev_chars(digits@).subrange(0, count - i),
        decreases i,
    {
        i -= 1;
        let ghost old_s = s@;
        let d = digits[i];
        match d {
            0 => s.append("0"),
            1 => s.append("1"),
            2 => s.append("2"),
            3 => s.append("3"),
            4 => s.append("4"),
            5 => s.append("5"),
            6 => s.append("6"),
            7 => s.append("7"),
            8 => s.append("8"),
            _ => s.append("9"),
        }
        proof {
            reveal_strlit("0");
            reveal_strlit("1");
            reveal_strlit("2");
            reveal_strlit("3");
            reveal_strlit("4");
            reveal_strlit("5");
            reveal_strlit("6");
            reveal_strlit("7");
            reveal_strlit("8");
            reveal_strlit("9");
            assert(s@ =~= old_s.push(decimal_digit_char(digits@[i as int] as int)));
            assert(s@ =~= digits_rev_chars(digits@).subrange(0, count - i));
        }
    }
    proof {
        assert(digits_rev_chars(digits@).subrange(0, count as int) =~= digits_rev_chars(
            digits@,
        ));
    }
    s
}

/// Handles one record end to end: applies the keep/drop decision, then
/// — for a kept record — the two cell-id rewrites, then the codec on a
/// cell id other than the `"0"` sentinel. A dropped record yields
/// `Ok(None)`; a kept one yields `Ok(Some(record))` with every field
/// but the cell id unchanged; a kept record whose remaining cell id is
/// not a well-formed encoding yields the malformed-cell-id error. The
/// codec is never invoked on the sentinel, so a record normalized to
/// `"0"` can never fail.
pub fn process_record(
    t: Transcript,
    min_x: FloatBits,
    max_x: FloatBits,
    min_y: FloatBits,
    max_y: FloatBits,
    min_qv: FloatBits,
    nucleus_only: bool,
) -> (r: Result<Option<Transcript>, MalformedCellId>)
    ensures
        !spec_should_keep(t, min_x, max_x, min_y, max_y, min_qv) ==> r == Ok::<
            Option<Transcript>,
            MalformedCellId,
        >(None),
        spec_should_keep(t, min_x, max_x, min_y, max_y, min_qv) ==> ({
            let nc = normalized_cell_id(t, nucleus_only);
            match r {
                Ok(Some(out)) => {
                    &&& out.overlaps_nucleus == t.overlaps_nucleus
                    &&& out.feature_name@ == t.feature_name@
                    &&& out.x_location == t.x_location
                    &&& out.y_location == t.y_location
                    &&& out.qv == t.qv
                    &&& nc == "0"@ ==> out.cell_id@ == "0"@
                    &&& nc != "0"@ ==> valid_cell_encoding(nc) && out.cell_id@ == decimal_string(
                        encoded_prefix(nc),
                    )
                },
                Ok(None) => false,
                Err(_) => nc != "0"@ && !valid_cell_encoding(nc),
            }
        }),
{
    let keep = filter_transcripts(&t, min_x, max_x, min_y, max_y, min_qv);
    if !keep {
        return Ok(None);
    }
    let mut rec = t;
    if nucleus_only && rec.overlaps_nucleus == 0 {
        rec.cell_id = String::from_str("0");
    }
    let unassigned = String::from_str("UNASSIGNED");
    if rec.cell_id == unassigned {
        rec.cell_id = String::from_str("0");
    }
    let zero = String::from_str("0");
    if !(rec.cell_id == zero) {
        match decode_cell_id(rec.cell_id.as_str()) {
            Ok(cid) => {
                rec.cell_id = usize_to_decimal_string(cid.cell_id_prefix);
            },
            Err(e) => {
                return Err(e);
            },
        }
    }
    Ok(Some(rec))
}

/// An `"UNASSIGNED"` cell id is normalized to the `"0"` sentinel,
/// whatever the nucleus-only setting, so the codec is never invoked on
/// it.
pub proof fn lemma_unassigned_normalized_to_zero(t: Transcript, nucleus_only: bool)
    requires
        t.cell_id@ == "UNASSIGNED"@,
    ensures
        normalized_cell_id(t, nucleus_only) == "0"@,
{
}

/// Under the nucleus-only policy, a record that does not overlap the
/// nucleus has its cell id forced to the `"0"` sentinel, whatever it
/// held, so the codec is never invoked on it.
pub proof fn lemma_nucleus_only_blanks_cell(t: Transcript)
    requires
        t.overlaps_nucleus == 0,
    ensures
        normalized_cell_id(t, true) == "0"@,
{
}

} // verus!
