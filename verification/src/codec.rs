//! Cell-identifier codec. An encoded cell identifier has the shape
//! `<letters>-<digits>`: a nonempty run of letters `'a'..='p'`, each
//! standing for one hexadecimal nibble (`'a'` = 0, ..., `'p'` = 15),
//! then a `-`, then a nonempty run of decimal digits naming the dataset
//! suffix. Decoding reads the letter run as a base-16 number and the
//! digit run as a base-10 number; any other shape — no separator, an
//! empty run on either side, a letter outside `'a'..='p'`, a non-digit
//! in the suffix, trailing text after the suffix, or a value that does
//! not fit in `usize` — is malformed.

use vstd::prelude::*;

verus! {

/// A decoded cell identifier: the numeric prefix read from the letter
/// run and the dataset suffix read from the digit run.
#[derive(Clone, Copy, PartialEq, Eq, Structural, Debug)]
pub struct CellID {
    pub cell_id_prefix: usize,
    pub dataset_suffix: usize,
}

/// The input string does not have the expected `<letters>-<digits>` shape.
#[derive(Clone, Copy, PartialEq, Eq, Structural, Debug)]
pub struct MalformedCellId;

/// The letters that stand for hexadecimal nibbles.
pub open spec fn is_shifted_hex_digit(c: char) -> bool {
    'a' as u32 <= c as u32 && c as u32 <= 'p' as u32
}

/// The nibble a letter stands for: its offset from `'a'`.
pub open spec fn nibble_of(c: char) -> int {
    c as u32 - 'a' as u32
}

pub open spec fn is_ascii_digit(c: char) -> bool {
    '0' as u32 <= c as u32 && c as u32 <= '9' as u32
}

pub open spec fn digit_of(c: char) -> int {
    c as u32 - '0' as u32
}

/// The number a digit sequence denotes in the given base, most
/// significant digit first.
pub open spec fn base_value(digits: Seq<int>, base: int) -> int
    decreases digits.len(),
{
    if digits.len() == 0 {
        0
    } else {
        base_value(digits.drop_last(), base) * base + digits.last()
    }
}

pub open spec fn all_shifted_hex(s: Seq<char>) -> bool {
    forall|i: int| 0 <= i < s.len() ==> is_shifted_hex_digit(s[i])
}

pub open spec fn all_ascii_digits(s: Seq<char>) -> bool {
    forall|i: int| 0 <= i < s.len() ==> is_ascii_digit(s[i])
}

/// The number a run of nibble letters denotes, read base 16.
pub open spec fn hex_value(s: Seq<char>) -> int {
    base_value(s.map_values(|c: char| nibble_of(c)), 16)
}

/// The number a run of decimal digits denotes, read base 10.
pub open spec fn dec_value(s: Seq<char>) -> int {
    base_value(s.map_values(|c: char| digit_of(c)), 10)
}

/// The number a nibble array denotes, read base 16.
pub open spec fn nibbles_value(v: Seq<i32>) -> int {
    base_value(v.map_values(|x: i32| x as int), 16)
}

/// `i` splits `s` into a well-formed encoding: a nonempty run of nibble
/// letters, the separator, and a nonempty run of decimal digits, with
/// both denoted numbers fitting in `usize`.
pub open spec fn valid_split_at(s: Seq<char>, i: int) -> bool {
    &&& 1 <= i
    &&& i + 1 < s.len()
    &&& s[i] == '-'
    &&& all_shifted_hex(s.subrange(0, i))
    &&& all_ascii_digits(s.subrange(i + 1, s.len() as int))
    &&& hex_value(s.subrange(0, i)) <= usize::MAX
    &&& dec_value(s.subrange(i + 1, s.len() as int)) <= usize::MAX
}

/// A string is a well-formed encoding when some index splits it; the
/// split is unique (`lemma_split_unique`), since neither run can hold
/// the separator.
pub open spec fn valid_cell_encoding(s: Seq<char>) -> bool {
    exists|i: int| valid_split_at(s, i)
}

/// The split index of a well-formed encoding.
pub open spec fn encoding_split(s: Seq<char>) -> int {
    choose|i: int| valid_split_at(s, i)
}

/// The numeric prefix a well-formed encoding denotes.
pub open spec fn encoded_prefix(s: Seq<char>) -> int {
    hex_value(s.subrange(0, encoding_split(s)))
}

/// The dataset suffix a well-formed encoding denotes.
pub open spec fn encoded_suffix(s: Seq<char>) -> int {
    dec_value(s.subrange(encoding_split(s) + 1, s.len() as int))
}

/// At most one index splits a string into a well-formed encoding.
pub proof fn lemma_split_unique(s: Seq<char>, i: int, j: int)
    requires
        valid_split_at(s, i),
        valid_split_at(s, j),
    ensures
        i == j,
{
    if i < j {
        assert(s.subrange(i + 1, s.len() as int)[j - i - 1] == s[j]);
        assert(!is_ascii_digit('-'));
    }
    if j < i {
        assert(s.subrange(0, i)[j] == s[j]);
        assert(!is_shifted_hex_digit('-'));
    }
}

/// Only the first `-` of a string can split it into a well-formed
/// encoding.
pub proof fn lemma_split_at_first_dash(s: Seq<char>, d: int)
    requires
        0 <= d < s.len(),
        s[d] == '-',
        forall|j: int| 0 <= j < d ==> s[j] != '-',
    ensures
        forall|i: int| valid_split_at(s, i) ==> i == d,
{
    assert forall|i: int| valid_split_at(s, i) implies i == d by {
        if i < d {
            assert(s[i] != '-');
        }
        if i > d {
            assert(s.subrange(0, i)[d] == s[d]);
            assert(!is_shifted_hex_digit('-'));
        }
    }
}

/// A number denoted by nonnegative digits is nonnegative.
pub proof fn lemma_base_value_nonneg(digits: Seq<int>, base: int)
    requires
        base >= 1,
        forall|i: int| 0 <= i < digits.len() ==> digits[i] >= 0,
    ensures
        base_value(digits, base) >= 0,
    decreases digits.len(),
{
    if digits.len() > 0 {
        lemma_base_value_nonneg(digits.drop_last(), base);
        let v = base_value(digits.drop_last(), base);
        assert(v * base >= 0) by (nonlinear_arith)
            requires
                v >= 0,
                base >= 1,
        ;
    }
}

/// Extending a digit run to the right never lowers the denoted number.
pub proof fn lemma_base_value_prefix_le(digits: Seq<int>, base: int, k: int)
    requires
        base >= 1,
        forall|i: int| 0 <= i < digits.len() ==> digits[i] >= 0,
        0 <= k <= digits.len(),
    ensures
        base_value(digits.subrange(0, k), base) <= base_value(digits, base),
    decreases digits.len() - k,
{
    if k == digits.len() {
        assert(digits.subrange(0, k) =~= digits);
    } else {
        lemma_base_value_prefix_le(digits, base, k + 1);
        let shorter = digits.subrange(0, k);
        let longer = digits.subrange(0, k + 1);
        assert(longer.drop_last() =~= shorter);
        let v = base_value(shorter, base);
        lemma_base_value_nonneg(shorter, base);
        assert(v * base >= v) by (nonlinear_arith)
            requires
                v >= 0,
                base >= 1,
        ;
    }
}

/// Mapping a sequence commutes with taking a subrange.
pub proof fn lemma_map_values_subrange<A, B>(s: Seq<A>, f: spec_fn(A) -> B, a: int, b: int)
    requires
        0 <= a <= b <= s.len(),
    ensures
        s.subrange(a, b).map_values(f) == s.map_values(f).subrange(a, b),
{
    assert(s.subrange(a, b).map_values(f) =~= s.map_values(f).subrange(a, b));
}

/// A nibble array read pointwise from a letter run denotes the same
/// number as the letter run.
pub proof fn lemma_nibbles_match_hex(letters: Seq<char>, v: Seq<i32>)
    requires
        v.len() == letters.len(),
        forall|i: int| 0 <= i < v.len() ==> v[i] as int == nibble_of(letters[i]),
    ensures
        nibbles_value(v) == hex_value(letters),
{
    assert(v.map_values(|x: i32| x as int) =~= letters.map_values(|c: char| nibble_of(c)));
}

/// Maps a run of nibble letters to the nibble each letter stands for,
/// in order. A character outside `'a'..='p'` is malformed.
pub fn shifted_hex_to_hex_array(shifted_hex_digits: &str) -> (r: Result<Vec<i32>, MalformedCellId>)
    ensures
        match r {
            Ok(v) => {
                &&& all_shifted_hex(shifted_hex_digits@)
                &&& v@.len() == shifted_hex_digits@.len()
                &&& forall|i: int|
                    0 <= i < v@.len() ==> v@[i] as int == nibble_of(shifted_hex_digits@[i])
            },
            Err(_) => !all_shifted_hex(shifted_hex_digits@),
        },
{
    let n = shifted_hex_digits.unicode_len();
    let mut v: Vec<i32> = Vec::new();
    let mut i: usize = 0;
    while i < n
        invariant
            i <= n,
            n == shifted_hex_digits@.len(),
            v@.len() == i,
            forall|j: int| 0 <= j < i ==> is_shifted_hex_digit(shifted_hex_digits@[j]),
            forall|j: int| 0 <= j < i ==> v@[j] as int == nibble_of(shifted_hex_digits@[j]),
        decreases n - i,
    {
        let c = shifted_hex_digits.get_char(i);
        let u = c as u32;
        if u < 'a' as u32 || u > 'p' as u32 {
            return Err(MalformedCellId);
        }
        v.push((u - 'a' as u32) as i32);
        i += 1;
    }
    Ok(v)
}

/// Reads a nibble array as one base-16 number, most significant nibble
/// first. An empty array, or a number that does not fit in `usize`, is
/// malformed.
pub fn convert_hex_array_to_int(hex_array: &[i32]) -> (r: Result<usize, MalformedCellId>)
    requires
        forall|i: int| 0 <= i < hex_array@.len() ==> 0 <= #[trigger] hex_array@[i] < 16,
    ensures
        match r {
            Ok(n) => {
                &&& hex_array@.len() > 0
                &&& nibbles_value(hex_array@) <= usize::MAX
                &&& n == nibbles_value(hex_array@)
            },
            Err(_) => hex_array@.len() == 0 || nibbles_value(hex_array@) > usize::MAX,
        },
{
    let ghost mapped = hex_array@.map_values(|x: i32| x as int);
    if hex_array.len() == 0 {
        return Err(MalformedCellId);
    }
    let mut acc: usize = 0;
    let mut i: usize = 0;
    while i < hex_array.len()
        invariant
            i <= hex_array@.len(),
            mapped == hex_array@.map_values(|x: i32| x as int),
            forall|j: int| 0 <= j < hex_array@.len() ==> 0 <= #[trigger] hex_array@[j] < 16,
            acc == base_value(mapped.subrange(0, i as int), 16),
        decreases hex_array@.len() - i,
    {
        let d = hex_array[i];
        let du: usize = d as usize;
        proof {
            lemma_overflow_means_too_big(mapped, 16, i as int, acc as int, du as int);
        }
        let stepped = match acc.checked_mul(16) {
            Some(m) => m.checked_add(du),
            None => None,
        };
        match stepped {
            Some(next) => {
                proof {
                    assert(mapped.subrange(0, i + 1).drop_last() =~= mapped.subrange(0, i as int));
                }
                acc = next;
            },
            None => {
                return Err(MalformedCellId);
            },
        }
        i += 1;
    }
    proof {
        assert(mapped.subrange(0, i as int) =~= mapped);
    }
    Ok(acc)
}

/// Decodes an encoded cell identifier: splits at the first `-`, reads
/// the letter run before it as a base-16 number (each letter one
/// nibble) and the digit run after it as the dataset suffix. The whole
/// remainder after the first `-` must be digits. Any input that is not
/// a well-formed encoding is malformed, never a wrong number.
pub fn decode_cell_id(cell_id: &str) -> (r: Result<CellID, MalformedCellId>)
    ensures
        match r {
            Ok(cid) => {
                &&& valid_cell_encoding(cell_id@)
                &&& cid.cell_id_prefix == encoded_prefix(cell_id@)
                &&& cid.dataset_suffix == encoded_suffix(cell_id@)
            },
            Err(_) => !valid_cell_encoding(cell_id@),
        },
{
    let n = cell_id.unicode_len();
    let mut dash: usize = 0;
    let mut found = false;
    let mut i: usize = 0;
    while i < n && !found
        invariant
            i <= n,
            n == cell_id@.len(),
            !found ==> forall|j: int| 0 <= j < i ==> cell_id@[j] != '-',
            found ==> {
                &&& dash < i <= n
                &&& cell_id@[dash as int] == '-'
                &&& forall|j: int| 0 <= j < dash ==> cell_id@[j] != '-'
            },
        decreases n - i,
    {
        if cell_id.get_char(i) == '-' {
            dash = i;
            found = true;
        }
        i += 1;
    }
    if !found {
        proof {
            assert forall|k: int| !valid_split_at(cell_id@, k) by {
                if valid_split_at(cell_id@, k) {
                    assert(cell_id@[k] == '-');
                }
            }
        }
        return Err(MalformedCellId);
    }
    proof {
        lemma_split_at_first_dash(cell_id@, dash as int);
    }
    if dash == 0 {
        return Err(MalformedCellId);
    }
    let letters = cell_id.substring_char(0, dash);
    let suffix = cell_id.substring_char(dash + 1, n);
    let hex_array = match shifted_hex_to_hex_array(letters) {
        Ok(v) => v,
        Err(e) => {
            return Err(e);
        },
    };
    let cell_id_prefix = match convert_hex_array_to_int(hex_array.as_slice()) {
        Ok(p) => p,
        Err(e) => {
            proof {
                lemma_nibbles_match_hex(letters@, hex_array@);
            }
            return Err(e);
        },
    };
    let dataset_suffix = match parse_decimal(suffix) {
        Ok(d) => d,
        Err(e) => {
            return Err(e);
        },
    };
    proof {
        lemma_nibbles_match_hex(letters@, hex_array@);
        assert(valid_split_at(cell_id@, dash as int));
        lemma_split_unique(cell_id@, encoding_split(cell_id@), dash as int);
    }
    Ok(CellID { cell_id_prefix, dataset_suffix })
}

/// If the next accumulation step leaves `usize`, the number the whole
/// digit run denotes leaves it too.
proof fn lemma_overflow_means_too_big(digits: Seq<int>, base: int, i: int, acc: int, d: int)
    requires
        base >= 1,
        forall|j: int| 0 <= j < digits.len() ==> 0 <= #[trigger] digits[j] < base,
        0 <= i < digits.len(),
        acc == base_value(digits.subrange(0, i), base),
        d == digits[i],
    ensures
        acc * base + d > usize::MAX ==> base_value(digits, base) > usize::MAX,
{
    assert(digits.subrange(0, i + 1).drop_last() =~= digits.subrange(0, i));
    assert(base_value(digits.subrange(0, i + 1), base) == acc * base + d);
    lemma_base_value_prefix_le(digits, base, i + 1);
}

/// Reads a run of decimal digits as one base-10 number. An empty run, a
/// non-digit character, or a number that does not fit in `usize` is
/// malformed.
pub fn parse_decimal(s: &str) -> (r: Result<usize, MalformedCellId>)
    ensures
        match r {
            Ok(n) => {
                &&& s@.len() > 0
                &&& all_ascii_digits(s@)
                &&& dec_value(s@) <= usize::MAX
                &&& n == dec_value(s@)
            },
            Err(_) => s@.len() == 0 || !all_ascii_digits(s@) || dec_value(s@) > usize::MAX,
        },
{
    let n = s.unicode_len();
    if n == 0 {
        return Err(MalformedCellId);
    }
    let mut acc: usize = 0;
    let mut i: usize = 0;
    while i < n
        invariant
            i <= n,
            n == s@.len(),
            forall|j: int| 0 <= j < i ==> is_ascii_digit(s@[j]),
            acc == base_value(s@.subrange(0, i as int).map_values(|c: char| digit_of(c)), 10),
        decreases n - i,
    {
        let c = s.get_char(i);
        let u = c as u32;
        if u < '0' as u32 || u > '9' as u32 {
            return Err(MalformedCellId);
        }
        let du: usize = (u - '0' as u32) as usize;
        proof {
            if all_ascii_digits(s@) {
                lemma_map_values_subrange(s@, |ch: char| digit_of(ch), 0, i as int);
                lemma_overflow_means_too_big(
                    s@.map_values(|ch: char| digit_of(ch)),
                    10,
                    i as int,
                    acc as int,
                    du as int,
                );
            }
        }
        let stepped = match acc.checked_mul(10) {
            Some(m) => m.checked_add(du),
            None => None,
        };
        match stepped {
            Some(next) => {
                proof {
                    assert(s@.subrange(0, i + 1).map_values(|ch: char| digit_of(ch)).drop_last()
                        =~= s@.subrange(0, i as int).map_values(|ch: char| digit_of(ch)));
                }
                acc = next;
            },
            None => {
                return Err(MalformedCellId);
            },
        }
        i += 1;
    }
    proof {
        assert(s@.subrange(0, i as int) =~= s@);
    }
    Ok(acc)
}

} // verus!
