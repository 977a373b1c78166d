//! Small text helpers: character-level string equality and the parser
//! for "WIDTHxHEIGHT" minimum-size arguments.

use vstd::prelude::*;
use vstd::string::StrSliceExecFns;

verus! {

/// Character-for-character string equality.
pub fn str_eq(a: &str, b: &str) -> (r: bool)
    ensures
        r == (a@ == b@),
{
    let alen = a.unicode_len();
    let blen = b.unicode_len();
    if alen != blen {
        return false;
    }
    let mut i: usize = 0;
    while i < alen
        invariant
            alen == a@.len(),
            blen == b@.len(),
            alen == blen,
            i <= alen,
            forall|k: int| 0 <= k < i ==> a@[k] == b@[k],
        decreases alen - i,
    {
        if a.get_char(i) != b.get_char(i) {
            return false;
        }
        i += 1;
    }
    proof {
        assert(a@ =~= b@);
    }
    true
}

/// Why a minimum-size argument was rejected.
#[derive(Clone, Copy, Debug, PartialEq, Eq, Structural)]
pub enum SizeParseError {
    /// Not exactly one 'x' between the two numbers.
    BadFormat,
    /// The width part is not a number that fits.
    BadWidth,
    /// The height part is not a number that fits.
    BadHeight,
    /// Width or height is zero.
    Zero,
}

impl SizeParseError {
    /// A human-readable description of the rejection.
    pub fn message(&self) -> (r: String)
        ensures
            r@ == message_of(*self),
    {
        match self {
            SizeParseError::BadFormat => "size must be WIDTHxHEIGHT, for example 200x150".to_owned(),
            SizeParseError::BadWidth => "width must be a positive integer".to_owned(),
            SizeParseError::BadHeight => "height must be a positive integer".to_owned(),
            SizeParseError::Zero => "width and height must be greater than 0".to_owned(),
        }
    }
}

pub open spec fn message_of(e: SizeParseError) -> Seq<char> {
    match e {
        SizeParseError::BadFormat => "size must be WIDTHxHEIGHT, for example 200x150"@,
        SizeParseError::BadWidth => "width must be a positive integer"@,
        SizeParseError::BadHeight => "height must be a positive integer"@,
        SizeParseError::Zero => "width and height must be greater than 0"@,
    }
}

pub open spec fn is_digit(c: char) -> bool {
    '0' <= c && c <= '9'
}

pub open spec fn digit_val(c: char) -> int {
    c as int - '0' as int
}

/// The value of a digit string read in base 10.
pub open spec fn digits_val(s: Seq<char>) -> int
    decreases s.len(),
{
    if s.len() == 0 {
        0
    } else {
        digits_val(s.drop_last()) * 10 + digit_val(s.last())
    }
}

pub open spec fn all_digits(s: Seq<char>) -> bool {
    forall|i: int| 0 <= i < s.len() ==> is_digit(#[trigger] s[i])
}

/// A nonempty digit string whose value fits in `u32`.
pub open spec fn valid_number(s: Seq<char>) -> bool {
    s.len() > 0 && all_digits(s) && digits_val(s) <= u32::MAX
}

/// The first offset `>= from` holding the character 'x', if any.
pub open spec fn first_x(s: Seq<char>, from: int) -> Option<int>
    decreases s.len() - from,
{
    if from < 0 || from >= s.len() {
        None
    } else if s[from] == 'x' {
        Some(from)
    } else {
        first_x(s, from + 1)
    }
}

/// The string holds exactly one 'x', at this offset.
pub open spec fn single_x_at(s: Seq<char>) -> Option<int> {
    match first_x(s, 0) {
        Some(i) => if first_x(s, i + 1) is None {
            Some(i)
        } else {
            None
        },
        None => None,
    }
}

/// What a well-formed "WIDTHxHEIGHT" string denotes.
pub open spec fn size_spec(s: Seq<char>) -> Option<(u32, u32)> {
    match single_x_at(s) {
        Some(i) => {
            let w = s.subrange(0, i);
            let h = s.subrange(i + 1, s.len() as int);
            if valid_number(w) && valid_number(h) && digits_val(w) > 0 && digits_val(h) > 0 {
                Some((digits_val(w) as u32, digits_val(h) as u32))
            } else {
                None
            }
        },
        None => None,
    }
}

/// Which rejection a minimum-size string earns, if any.
pub open spec fn size_err_of(s: Seq<char>) -> Option<SizeParseError> {
    match single_x_at(s) {
        None => Some(SizeParseError::BadFormat),
        Some(i) => {
            let w = s.subrange(0, i);
            let h = s.subrange(i + 1, s.len() as int);
            if !valid_number(w) {
                Some(SizeParseError::BadWidth)
            } else if !valid_number(h) {
                Some(SizeParseError::BadHeight)
            } else if digits_val(w) == 0 || digits_val(h) == 0 {
                Some(SizeParseError::Zero)
            } else {
                None
            }
        },
    }
}

proof fn lemma_digits_val_nonneg(s: Seq<char>)
    requires
        all_digits(s),
    ensures
        digits_val(s) >= 0,
    decreases s.len(),
{
    if s.len() > 0 {
        assert(all_digits(s.drop_last()));
        lemma_digits_val_nonneg(s.drop_last());
    }
}

/// Reading one more digit never shrinks the value.
proof fn lemma_digits_val_prefix(s: Seq<char>, k: int)
    requires
        all_digits(s),
        0 <= k <= s.len(),
    ensures
        digits_val(s) >= digits_val(s.subrange(0, k)),
    decreases s.len() - k,
{
    if k < s.len() {
        lemma_digits_val_prefix(s, k + 1);
        let p = s.subrange(0, k + 1);
        assert(p.drop_last() =~= s.subrange(0, k));
        assert(all_digits(s.subrange(0, k)));
        lemma_digits_val_nonneg(s.subrange(0, k));
        assert(digits_val(p) == digits_val(s.subrange(0, k)) * 10 + digit_val(s[k]));
    } else {
        assert(s.subrange(0, k) =~= s);
    }
}

/// Parses the digit run `s[from..to]` as a base-10 `u32`.
fn parse_u32_digits(s: &str, from: usize, to: usize) -> (r: Option<u32>)
    requires
        from <= to <= s@.len(),
    ensures
        r is Some <==> valid_number(s@.subrange(from as int, to as int)),
        r is Some ==> r->0 == digits_val(s@.subrange(from as int, to as int)),
{
    let ghost whole = s@.subrange(from as int, to as int);
    if from == to {
        return None;
    }
    let mut val: u32 = 0;
    let mut i: usize = from;
    while i < to
        invariant
            from <= i <= to <= s@.len(),
            all_digits(s@.subrange(from as int, i as int)),
            val == digits_val(s@.subrange(from as int, i as int)),
        decreases to - i,
    {
        let c = s.get_char(i);
        if c < '0' || c > '9' {
            proof {
                let k = i as int - from as int;
                assert(s@.subrange(from as int, to as int).len() == to as int - from as int);
                assert(s@.subrange(from as int, to as int)[k] == s@[i as int]);
                assert(!valid_number(s@.subrange(from as int, to as int)));
            }
            return None;
        }
        let d: u32 = (c as u32) - ('0' as u32);
        let ghost prefix = s@.subrange(from as int, i as int);
        let ghost prefix1 = s@.subrange(from as int, i as int + 1);
        proof {
            assert(prefix1.drop_last() =~= prefix);
            assert(prefix1.last() == s@[i as int]);
        }
        let shifted = match val.checked_mul(10) {
            Some(v) => v,
            None => {
                proof {
                    lemma_digits_overflow(s@, from as int, to as int, i as int + 1);
                }
                return None;
            },
        };
        val = match shifted.checked_add(d) {
            Some(v) => v,
            None => {
                proof {
                    lemma_digits_overflow(s@, from as int, to as int, i as int + 1);
                }
                return None;
            },
        };
        i += 1;
    }
    proof {
        assert(s@.subrange(from as int, i as int) =~= whole);
    }
    Some(val)
}

/// If a digit prefix already exceeds `u32::MAX`, the whole run is not
/// a valid number (unless a later character is no digit, in which case
/// it is not one either).
proof fn lemma_digits_overflow(s: Seq<char>, from: int, to: int, k: int)
    requires
        0 <= from <= k <= to <= s.len(),
        all_digits(s.subrange(from, k)),
        digits_val(s.subrange(from, k)) > u32::MAX,
    ensures
        !valid_number(s.subrange(from, to)),
{
    let whole = s.subrange(from, to);
    if valid_number(whole) {
        assert(whole.subrange(0, k - from) =~= s.subrange(from, k));
        lemma_digits_val_prefix(whole, k - from);
    }
}

/// Parses a minimum-size argument of the form "WIDTHxHEIGHT"
/// (for example "200x150") into an explicit minimum-dimension pair.
pub fn parse_size_string(size_str: &str) -> (r: Result<Option<(u32, u32)>, SizeParseError>)
    ensures
        r is Ok <==> size_spec(size_str@) is Some,
        r is Ok ==> r->Ok_0 == Some(size_spec(size_str@)->Some_0),
        r is Err <==> size_err_of(size_str@) is Some,
        r is Err ==> r->Err_0 == size_err_of(size_str@)->0,
{
    let n = size_str.unicode_len();
    let ghost sv = size_str@;
    let mut i: usize = 0;
    let mut x_pos: Option<usize> = None;
    while i < n
        invariant
            n == sv.len(),
            sv == size_str@,
            i <= n,
            x_pos is Some ==> first_x(sv, 0) == Some(x_pos->0 as int) && x_pos->0 < i,
            x_pos is Some ==> first_x(sv, x_pos->0 as int + 1) == first_x(sv, i as int),
            x_pos is None ==> first_x(sv, 0) == first_x(sv, i as int),
        decreases n - i,
    {
        if size_str.get_char(i) == 'x' {
            match x_pos {
                None => {
                    x_pos = Some(i);
                },
                Some(_) => {
                    return Err(SizeParseError::BadFormat);
                },
            }
        }
        i += 1;
    }
    let xp = match x_pos {
        Some(p) => p,
        None => {
            return Err(SizeParseError::BadFormat);
        },
    };
    let width = match parse_u32_digits(size_str, 0, xp) {
        Some(w) => w,
        None => {
            return Err(SizeParseError::BadWidth);
        },
    };
    let height = match parse_u32_digits(size_str, xp + 1, n) {
        Some(h) => h,
        None => {
            return Err(SizeParseError::BadHeight);
        },
    };
    if width == 0 || height == 0 {
        proof {
            lemma_digits_val_nonneg(sv.subrange(0, xp as int));
            lemma_digits_val_nonneg(sv.subrange(xp as int + 1, sv.len() as int));
        }
        return Err(SizeParseError::Zero);
    }
    proof {
        lemma_digits_val_nonneg(sv.subrange(0, xp as int));
        lemma_digits_val_nonneg(sv.subrange(xp as int + 1, sv.len() as int));
    }
    Ok(Some((width, height)))
}

} // verus!
