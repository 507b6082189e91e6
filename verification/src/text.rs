//! Character-level helpers: recognizing annotation markers in comment text
//! and parsing the numeric props-count suffix of a component metadata string.

use vstd::prelude::*;
use crate::ast::Annotation;

verus! {

/// Blank characters stripped from both ends of a comment text.
pub open spec fn is_blank(c: char) -> bool {
    c == ' ' || c == '\t'
}

/// `s` with leading blanks removed.
pub open spec fn trim_front(s: Seq<char>) -> Seq<char>
    decreases s.len(),
{
    if s.len() > 0 && is_blank(s[0]) {
        trim_front(s.subrange(1, s.len() as int))
    } else {
        s
    }
}

/// `s` with trailing blanks removed.
pub open spec fn trim_back(s: Seq<char>) -> Seq<char>
    decreases s.len(),
{
    if s.len() > 0 && is_blank(s[s.len() - 1]) {
        trim_back(s.subrange(0, s.len() - 1))
    } else {
        s
    }
}

/// `s` with blanks removed from both ends.
pub open spec fn trimmed(s: Seq<char>) -> Seq<char> {
    trim_back(trim_front(s))
}

/// The marker selected by a leading comment: its trimmed text must be
/// exactly one of the five marker names; anything else means no marker.
pub open spec fn spec_annotation(note: Option<Seq<char>>) -> Annotation {
    match note {
        Option::None => Annotation::Plain,
        Option::Some(t) => {
            let u = trimmed(t);
            if u == "EFFECT_DEPS"@ {
                Annotation::EffectDeps
            } else if u == "IMMEDIATE_EFFECT_DEPS"@ {
                Annotation::ImmediateEffectDeps
            } else if u == "STATE_DEPS"@ {
                Annotation::StateDeps
            } else if u == "DYNAMIC_ATTRS"@ {
                Annotation::DynamicAttrs
            } else if u == "DYNAMIC_VIEW_DEPS"@ {
                Annotation::DynamicViewDeps
            } else {
                Annotation::Plain
            }
        },
    }
}

/// The view of an optional comment text.
pub open spec fn note_view(note: Option<Vec<char>>) -> Option<Seq<char>> {
    match note {
        Option::None => Option::None,
        Option::Some(v) => Option::Some(v@),
    }
}

proof fn lemma_trim_front_range(s: Seq<char>, lo: int)
    requires
        0 <= lo <= s.len(),
        forall|j: int| 0 <= j < lo ==> is_blank(s[j]),
        lo < s.len() ==> !is_blank(s[lo]),
    ensures
        trim_front(s) =~= s.subrange(lo, s.len() as int),
    decreases lo,
{
    if lo == 0 {
        assert(s.subrange(0, s.len() as int) =~= s);
    } else {
        let t = s.subrange(1, s.len() as int);
        lemma_trim_front_range(t, lo - 1);
        assert(t.subrange(lo - 1, t.len() as int) =~= s.subrange(lo, s.len() as int));
    }
}

proof fn lemma_trim_back_range(s: Seq<char>, hi: int)
    requires
        0 <= hi <= s.len(),
        forall|j: int| hi <= j < s.len() ==> is_blank(s[j]),
        hi > 0 ==> !is_blank(s[hi - 1]),
    ensures
        trim_back(s) =~= s.subrange(0, hi),
    decreases s.len(),
{
    if hi == s.len() {
        if s.len() > 0 && is_blank(s[s.len() - 1]) {
            assert(false);
        }
        assert(s.subrange(0, s.len() as int) =~= s);
    } else {
        let t = s.subrange(0, s.len() - 1);
        lemma_trim_back_range(t, hi);
        assert(t.subrange(0, hi) =~= s.subrange(0, hi));
    }
}

/// True exactly when `text@.subrange(lo, hi)` is the character sequence of
/// the literal `pat`.
fn range_matches(text: &Vec<char>, lo: usize, hi: usize, pat: &str) -> (r: bool)
    requires
        lo <= hi <= text@.len(),
    ensures
        r <==> text@.subrange(lo as int, hi as int) == pat@,
{
    let n: usize = pat.unicode_len();
    if hi - lo != n {
        proof {
            assert(text@.subrange(lo as int, hi as int).len() == hi - lo);
        }
        return false;
    }
    let mut i: usize = 0;
    while i < n
        invariant
            lo <= hi <= text@.len(),
            hi - lo == n,
            n == pat@.len(),
            i <= n,
            forall|j: int| 0 <= j < i ==> text@.subrange(lo as int, hi as int)[j] == pat@[j],
        decreases n - i,
    {
        let c = text[lo + i];
        if c != pat.get_char(i) {
            proof {
                assert(text@.subrange(lo as int, hi as int)[i as int] == text@[lo + i]);
            }
            return false;
        }
        proof {
            assert(text@.subrange(lo as int, hi as int)[i as int] == text@[lo + i]);
        }
        i += 1;
    }
    proof {
        assert(text@.subrange(lo as int, hi as int) =~= pat@);
    }
    true
}

/// Resolves the marker carried by an array's leading comment, if any.
pub fn annotation_of(note: &Option<Vec<char>>) -> (a: Annotation)
    ensures
        a == spec_annotation(note_view(*note)),
{
    match note {
        Option::None => Annotation::Plain,
        Option::Some(text) => {
            let n: usize = text.len();
            let mut lo: usize = 0;
            while lo < n && (text[lo] == ' ' || text[lo] == '\t')
                invariant
                    lo <= n,
                    n == text@.len(),
                    forall|j: int| 0 <= j < lo ==> is_blank(text@[j]),
                decreases n - lo,
            {
                lo += 1;
            }
            let mut hi: usize = n;
            while hi > lo && (text[hi - 1] == ' ' || text[hi - 1] == '\t')
                invariant
                    lo <= hi <= n,
                    n == text@.len(),
                    forall|j: int| 0 <= j < lo ==> is_blank(text@[j]),
                    forall|j: int| hi <= j < n ==> is_blank(text@[j]),
                decreases hi,
            {
                hi -= 1;
            }
            proof {
                lemma_trim_front_range(text@, lo as int);
                let f = text@.subrange(lo as int, n as int);
                lemma_trim_back_range(f, hi - lo);
                assert(f.subrange(0, hi - lo) =~= text@.subrange(lo as int, hi as int));
            }
            if range_matches(text, lo, hi, "EFFECT_DEPS") {
                Annotation::EffectDeps
            } else if range_matches(text, lo, hi, "IMMEDIATE_EFFECT_DEPS") {
                Annotation::ImmediateEffectDeps
            } else if range_matches(text, lo, hi, "STATE_DEPS") {
                Annotation::StateDeps
            } else if range_matches(text, lo, hi, "DYNAMIC_ATTRS") {
                Annotation::DynamicAttrs
            } else if range_matches(text, lo, hi, "DYNAMIC_VIEW_DEPS") {
                Annotation::DynamicViewDeps
            } else {
                Annotation::Plain
            }
        },
    }
}

/// True when `c` is a decimal digit.
pub open spec fn is_digit(c: char) -> bool {
    48 <= c as u32 <= 57
}

/// Numeric value of a digit character.
pub open spec fn digit_val(c: char) -> int {
    c as u32 - 48
}

/// True when every character of `s` is a decimal digit.
pub open spec fn all_digits(s: Seq<char>) -> bool {
    forall|i: int| 0 <= i < s.len() ==> is_digit(#[trigger] s[i])
}

/// The number written by a digit sequence, most significant digit first.
pub open spec fn digits_val(s: Seq<char>) -> int
    decreases s.len(),
{
    if s.len() == 0 {
        0
    } else {
        digits_val(s.drop_last()) * 10 + digit_val(s.last())
    }
}

proof fn lemma_digits_val_nonneg(s: Seq<char>)
    requires
        all_digits(s),
    ensures
        digits_val(s) >= 0,
    decreases s.len(),
{
    if s.len() > 0 {
        lemma_digits_val_nonneg(s.drop_last());
    }
}

proof fn lemma_digits_val_prefix(s: Seq<char>, k: int)
    requires
        all_digits(s),
        0 <= k <= s.len(),
    ensures
        digits_val(s) >= digits_val(s.subrange(0, k)),
    decreases s.len() - k,
{
    if k < s.len() {
        lemma_digits_val_prefix(s, k + 1);
        let p = s.subrange(0, k + 1);
        assert(p.drop_last() =~= s.subrange(0, k));
        lemma_digits_val_nonneg(s.subrange(0, k));
    } else {
        assert(s.subrange(0, s.len() as int) =~= s);
    }
}

/// What `i32` parsing of `s` yields: an optional sign, then at least one
/// digit and nothing else, with the value in `i32` range.
pub open spec fn spec_parse_i32(s: Seq<char>) -> Option<int> {
    let neg = s.len() > 0 && s[0] == '-';
    let signed = s.len() > 0 && (s[0] == '-' || s[0] == '+');
    let ds = if signed { s.subrange(1, s.len() as int) } else { s };
    if ds.len() > 0 && all_digits(ds) {
        let v = if neg { -digits_val(ds) } else { digits_val(ds) };
        if -0x8000_0000 <= v <= 0x7fff_ffff {
            Option::Some(v)
        } else {
            Option::None
        }
    } else {
        Option::None
    }
}

/// The declared prop count of a component metadata string: the characters
/// after the four-character tag, read as an `i32`.  `None` when the string
/// is too short or the suffix is not a number: a fatal configuration error.
pub open spec fn spec_prop_count(s: Seq<char>) -> Option<int> {
    if s.len() < 4 {
        Option::None
    } else {
        spec_parse_i32(s.subrange(4, s.len() as int))
    }
}

/// Reads the numeric props-count suffix of a metadata string.
pub fn prop_count_of(text: &Vec<char>) -> (r: Option<i32>)
    ensures
        match r {
            Option::Some(v) => spec_prop_count(text@) == Option::Some(v as int),
            Option::None => spec_prop_count(text@) == Option::<int>::None,
        },
{
    let n: usize = text.len();
    if n <= 4 {
        return Option::None;
    }
    let ghost s = text@.subrange(4, n as int);
    proof {
        assert(s[0] == text@[4]);
    }
    let mut i: usize = 4;
    let mut neg: bool = false;
    if text[i] == '-' || text[i] == '+' {
        neg = text[i] == '-';
        i = 5;
    }
    if i == n {
        proof {
            assert(s.subrange(1, s.len() as int).len() == 0);
        }
        return Option::None;
    }
    let ghost d0 = i as int;
    let ghost ds = text@.subrange(d0, n as int);
    proof {
        if d0 == 5 {
            assert(ds =~= s.subrange(1, s.len() as int));
        } else {
            assert(ds =~= s);
        }
    }
    let mut mag: u64 = 0;
    while i < n
        invariant
            4 <= d0 <= i <= n,
            n == text@.len(),
            n > 4,
            d0 == 4 || d0 == 5,
            s == text@.subrange(4, n as int),
            ds == text@.subrange(d0, n as int),
            d0 == 5 <==> (s[0] == '-' || s[0] == '+'),
            neg <==> (d0 == 5 && s[0] == '-'),
            d0 == 5 ==> ds =~= s.subrange(1, s.len() as int),
            d0 == 4 ==> ds =~= s,
            all_digits(text@.subrange(d0, i as int)),
            mag == digits_val(text@.subrange(d0, i as int)),
            mag <= 0x8000_0000,
        decreases n - i,
    {
        let c = text[i];
        let u: u32 = c as u32;
        if u < 48 || u > 57 {
            proof {
                assert(ds[i - d0] == text@[i as int]);
                assert(!all_digits(ds));
            }
            return Option::None;
        }
        proof {
            let p = text@.subrange(d0, i + 1);
            assert(p.drop_last() =~= text@.subrange(d0, i as int));
            assert(p.last() == text@[i as int]);
        }
        mag = mag * 10 + ((u - 48) as u64);
        i += 1;
        if mag > 0x8000_0000 {
            proof {
                let done = text@.subrange(d0, i as int);
                if all_digits(ds) {
                    assert(done =~= ds.subrange(0, i - d0));
                    lemma_digits_val_prefix(ds, i - d0);
                }
            }
            return Option::None;
        }
    }
    proof {
        assert(text@.subrange(d0, n as int) =~= ds);
    }
    if neg {
        let v: i64 = -(mag as i64);
        proof {
            assert(-0x8000_0000 <= v < 0x8000_0000);
        }
        Option::Some(v as i32)
    } else {
        if mag > 0x7fff_ffff {
            return Option::None;
        }
        Option::Some(mag as i32)
    }
}

} // verus!
