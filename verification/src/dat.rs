use vstd::prelude::*;
use crate::geom::MAX_COORD;
use crate::line::Line2D;

verus! {

/// The grid holds ten-thousandths: a text coordinate `12.5` becomes the
/// grid value `125000`.
pub const DAT_SCALE: i64 = 10_000;

/// Why a dataset row was rejected.
#[derive(Debug, Clone, Copy, PartialEq, Eq, Structural)]
pub enum DatError {
    /// The row does not hold exactly four fields.
    BadFieldCount { found: usize },
    /// The field is not a decimal number of the supported shape, or its
    /// value leaves the grid.
    BadNumber { field: usize },
}

pub open spec fn spec_is_digit(b: u8) -> bool {
    48 <= b <= 57
}

/// The position of the first non-digit at or after `i`.
pub open spec fn spec_digits_end(bytes: Seq<u8>, i: int) -> int
    decreases bytes.len() - i,
{
    if i < 0 || i >= bytes.len() || !spec_is_digit(bytes[i]) {
        i
    } else {
        spec_digits_end(bytes, i + 1)
    }
}

/// The value of the digit run `[s, j)`.
pub open spec fn spec_digits_value(bytes: Seq<u8>, s: int, j: int) -> int
    decreases j - s,
{
    if j <= s {
        0
    } else {
        spec_digits_value(bytes, s, j - 1) * 10 + (bytes[j - 1] - 48)
    }
}

pub open spec fn spec_pow10(n: nat) -> int
    decreases n,
{
    if n == 0 {
        1
    } else {
        10 * spec_pow10((n - 1) as nat)
    }
}

/// Every position of a digit run up to its end holds a digit, and the end
/// does not precede the start.
proof fn lemma_digits_run(bytes: Seq<u8>, s: int)
    requires
        0 <= s,
    ensures
        spec_digits_end(bytes, s) >= s,
        forall|t: int| s <= t < spec_digits_end(bytes, s) ==> spec_is_digit(#[trigger] bytes[t]),
    decreases bytes.len() - s,
{
    if s < bytes.len() && spec_is_digit(bytes[s]) {
        lemma_digits_run(bytes, s + 1);
    }
}

/// The value of an all-digit run is non-negative and below the power of
/// ten of its length.
proof fn lemma_digits_value_bound(bytes: Seq<u8>, s: int, j: int)
    requires
        s <= j,
        forall|t: int| s <= t < j ==> spec_is_digit(#[trigger] bytes[t]),
    ensures
        0 <= spec_digits_value(bytes, s, j) < spec_pow10((j - s) as nat),
    decreases j - s,
{
    if j > s {
        lemma_digits_value_bound(bytes, s, j - 1);
        assert(spec_pow10((j - s) as nat) == 10 * spec_pow10((j - 1 - s) as nat));
    }
}

/// A decimal coordinate on the ten-thousandth grid: an optional minus sign,
/// at most seven integer digits, and optionally a point with one to four
/// fractional digits.  `None` when the text has another shape or the value
/// leaves the grid.
pub open spec fn spec_parse_coord(bytes: Seq<u8>) -> Option<i64> {
    let neg = bytes.len() > 0 && bytes[0] == 45;
    let s: int = if neg {
        1
    } else {
        0
    };
    let j = spec_digits_end(bytes, s);
    if j == s || j - s > 7 {
        None
    } else {
        let int_part = spec_digits_value(bytes, s, j);
        if j == bytes.len() {
            let v = int_part * (DAT_SCALE as int);
            if v <= MAX_COORD {
                Some(
                    (if neg {
                        -v
                    } else {
                        v
                    }) as i64,
                )
            } else {
                None
            }
        } else if bytes[j] == 46 {
            let k = spec_digits_end(bytes, j + 1);
            if k != bytes.len() || k == j + 1 || k - (j + 1) > 4 {
                None
            } else {
                let frac_digits = k - (j + 1);
                let scale: int = if frac_digits == 1 {
                    1000
                } else if frac_digits == 2 {
                    100
                } else if frac_digits == 3 {
                    10
                } else {
                    1
                };
                let v = int_part * (DAT_SCALE as int) + spec_digits_value(bytes, j + 1, k)
                    * scale;
                if v <= MAX_COORD {
                    Some(
                        (if neg {
                            -v
                        } else {
                            v
                        }) as i64,
                    )
                } else {
                    None
                }
            }
        } else {
            None
        }
    }
}

/// Scans the digit run starting at `s`; returns its end and its value,
/// provided the run is short enough for the value to be computed directly.
fn scan_digits(bytes: &Vec<u8>, s: usize, max_len: usize) -> (r: Option<(usize, i64)>)
    requires
        s <= bytes@.len(),
        max_len <= 7,
    ensures
        match r {
            Some((j, v)) => {
                &&& j == spec_digits_end(bytes@, s as int)
                &&& s < j <= bytes@.len()
                &&& j - s <= max_len
                &&& v == spec_digits_value(bytes@, s as int, j as int)
                &&& 0 <= v < 10_000_000
            },
            None => spec_digits_end(bytes@, s as int) == s || spec_digits_end(bytes@, s as int)
                - s > max_len,
        },
{
    let n = bytes.len();
    let mut j = s;
    let mut v: i64 = 0;
    while j < n && bytes[j] >= 48 && bytes[j] <= 57
        invariant
            s <= j <= n,
            n == bytes@.len(),
            max_len <= 7,
            j - s <= 7,
            spec_digits_end(bytes@, j as int) == spec_digits_end(bytes@, s as int),
            forall|t: int| s <= t < j ==> spec_is_digit(#[trigger] bytes@[t]),
            v == spec_digits_value(bytes@, s as int, j as int),
        decreases n - j,
    {
        if j - s >= 7 {
            // The run is too long for the grid; only its end still
            // matters.
            proof {
                assert(spec_digits_end(bytes@, j + 1 as int) == spec_digits_end(
                    bytes@,
                    j as int,
                ));
            }
            j = j + 1;
            while j < n && bytes[j] >= 48 && bytes[j] <= 57
                invariant
                    s + 7 < j <= n,
                    n == bytes@.len(),
                    max_len <= 7,
                    spec_digits_end(bytes@, j as int) == spec_digits_end(bytes@, s as int),
                decreases n - j,
            {
                proof {
                    assert(spec_digits_end(bytes@, j + 1 as int) == spec_digits_end(
                        bytes@,
                        j as int,
                    ));
                }
                j = j + 1;
            }
            return None;
        }
        proof {
            assert(spec_digits_end(bytes@, j + 1 as int) == spec_digits_end(bytes@, j as int));
            lemma_digits_value_bound(bytes@, s as int, j as int);
            assert(spec_pow10((j - s) as nat) <= 1_000_000) by {
                lemma_pow10_le_seven((j - s) as nat);
            }
        }
        v = v * 10 + (bytes[j] - 48) as i64;
        j = j + 1;
    }
    if j == s {
        return None;
    }
    if j - s > max_len {
        return None;
    }
    proof {
        lemma_digits_value_bound(bytes@, s as int, j as int);
        lemma_pow10_le_seven((j - s) as nat);
    }
    Some((j, v))
}

/// Powers of ten up to the seventh stay at or below ten million.
proof fn lemma_pow10_le_seven(n: nat)
    requires
        n <= 7,
    ensures
        spec_pow10(n) <= 10_000_000,
        n <= 6 ==> spec_pow10(n) <= 1_000_000,
{
    assert(spec_pow10(0) == 1);
    assert(spec_pow10(1) == 10);
    assert(spec_pow10(2) == 100);
    assert(spec_pow10(3) == 1000);
    assert(spec_pow10(4) == 10000);
    assert(spec_pow10(5) == 100000);
    assert(spec_pow10(6) == 1000000);
    assert(spec_pow10(7) == 10000000);
}

/// Parses one decimal coordinate onto the grid.
pub fn parse_coord(bytes: &Vec<u8>) -> (r: Option<i64>)
    ensures
        r == spec_parse_coord(bytes@),
{
    let n = bytes.len();
    let neg = n > 0 && bytes[0] == 45;
    let s: usize = if neg {
        1
    } else {
        0
    };
    let (j, int_part) = match scan_digits(bytes, s, 7) {
        Some(p) => p,
        None => {
            return None;
        },
    };
    if j == n {
        let v = int_part * DAT_SCALE;
        if v <= MAX_COORD {
            Some(if neg { -v } else { v })
        } else {
            None
        }
    } else if bytes[j] == 46 {
        if j + 1 > n {
            return None;
        }
        let (k, frac_part) = match scan_digits(bytes, j + 1, 4) {
            Some(p) => p,
            None => {
                return None;
            },
        };
        if k != n {
            return None;
        }
        let frac_digits = k - (j + 1);
        let scale: i64 = if frac_digits == 1 {
            1000
        } else if frac_digits == 2 {
            100
        } else if frac_digits == 3 {
            10
        } else {
            1
        };
        let v = int_part * DAT_SCALE + frac_part * scale;
        if v <= MAX_COORD {
            Some(if neg { -v } else { v })
        } else {
            None
        }
    } else {
        None
    }
}

/// A row of four coordinate fields as a segment, with the endpoints
/// ordered by `x` as the sweep stores them.
pub open spec fn spec_parse_line(fields: Seq<Seq<u8>>) -> Result<Line2D, DatError> {
    if fields.len() != 4 {
        Err(DatError::BadFieldCount { found: fields.len() as usize })
    } else {
        match (spec_parse_coord(fields[0]), spec_parse_coord(fields[1]), spec_parse_coord(
            fields[2],
        ), spec_parse_coord(fields[3])) {
            (Some(x1), Some(y1), Some(x2), Some(y2)) => {
                if x1 < x2 {
                    Ok(Line2D { start: crate::geom::Point2D { x: x1, y: y1 }, end: crate::geom::Point2D { x: x2, y: y2 } })
                } else {
                    Ok(Line2D { start: crate::geom::Point2D { x: x2, y: y2 }, end: crate::geom::Point2D { x: x1, y: y1 } })
                }
            },
            (None, _, _, _) => Err(DatError::BadNumber { field: 0 }),
            (_, None, _, _) => Err(DatError::BadNumber { field: 1 }),
            (_, _, None, _) => Err(DatError::BadNumber { field: 2 }),
            (_, _, _, None) => Err(DatError::BadNumber { field: 3 }),
        }
    }
}

/// Parses the four whitespace-split fields of one dataset row into a
/// segment.
pub fn parse_dat_fields(fields: &Vec<Vec<u8>>) -> (r: Result<Line2D, DatError>)
    ensures
        match r {
            Ok(l) => spec_parse_line(
                Seq::new(fields@.len(), |k: int| fields@[k]@),
            ) == Ok::<Line2D, DatError>(l) && crate::line::seg_in_range(l),
            Err(e) => spec_parse_line(Seq::new(fields@.len(), |k: int| fields@[k]@)) == Err::<
                Line2D,
                DatError,
            >(e),
        },
{
    let ghost model = Seq::new(fields@.len(), |k: int| fields@[k]@);
    if fields.len() != 4 {
        return Err(DatError::BadFieldCount { found: fields.len() });
    }
    proof {
        assert(model[0] == fields@[0]@);
        assert(model[1] == fields@[1]@);
        assert(model[2] == fields@[2]@);
        assert(model[3] == fields@[3]@);
    }
    let x1 = match parse_coord(&fields[0]) {
        Some(v) => v,
        None => {
            return Err(DatError::BadNumber { field: 0 });
        },
    };
    let y1 = match parse_coord(&fields[1]) {
        Some(v) => v,
        None => {
            return Err(DatError::BadNumber { field: 1 });
        },
    };
    let x2 = match parse_coord(&fields[2]) {
        Some(v) => v,
        None => {
            return Err(DatError::BadNumber { field: 2 });
        },
    };
    let y2 = match parse_coord(&fields[3]) {
        Some(v) => v,
        None => {
            return Err(DatError::BadNumber { field: 3 });
        },
    };
    proof {
        lemma_parse_coord_in_range(fields@[0]@);
        lemma_parse_coord_in_range(fields@[1]@);
        lemma_parse_coord_in_range(fields@[2]@);
        lemma_parse_coord_in_range(fields@[3]@);
    }
    if x1 < x2 {
        Ok(Line2D::new(x1, y1, x2, y2))
    } else {
        Ok(Line2D::new(x2, y2, x1, y1))
    }
}

/// A parsed coordinate is on the grid.
proof fn lemma_parse_coord_in_range(bytes: Seq<u8>)
    ensures
        match spec_parse_coord(bytes) {
            Some(v) => -MAX_COORD <= v <= MAX_COORD,
            None => true,
        },
{
    let neg = bytes.len() > 0 && bytes[0] == 45;
    let s: int = if neg {
        1
    } else {
        0
    };
    let j = spec_digits_end(bytes, s);
    if j == s || j - s > 7 {
    } else {
        lemma_digits_run(bytes, s);
        lemma_digits_value_nonneg(bytes, s, j);
        if j < bytes.len() && bytes[j] == 46 {
            let k = spec_digits_end(bytes, j + 1);
            if k == bytes.len() && k != j + 1 && k - (j + 1) <= 4 {
                lemma_digits_run(bytes, j + 1);
                lemma_digits_value_nonneg(bytes, j + 1, k);
            }
        }
    }
}

/// Digit-run values are non-negative.
proof fn lemma_digits_value_nonneg(bytes: Seq<u8>, s: int, j: int)
    requires
        s <= j,
        forall|t: int| s <= t < j ==> spec_is_digit(#[trigger] bytes[t]),
    ensures
        spec_digits_value(bytes, s, j) >= 0,
    decreases j - s,
{
    if j > s {
        lemma_digits_value_nonneg(bytes, s, j - 1);
    }
}

} // verus!
